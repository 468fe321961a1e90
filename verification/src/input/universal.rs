//! Digital buttons of the universal (key-bound) input device, and the
//! bindings that route keys and mouse movement to them.

use vstd::prelude::*;

verus! {

/// A digital input controller that is either pressed
/// or released.
pub struct Button {
    pub down: bool,
    pub was_pressed: bool,
    pub was_released: bool,
}

impl Button {
    /// A released button with no pending edges.
    pub fn new() -> (b: Button)
        ensures
            b == (Button { down: false, was_pressed: false, was_released: false }),
    {
        Self { down: false, was_pressed: false, was_released: false }
    }

    /// Accepts a new physical state: records whether the button went down or
    /// came up with this state and stores it.
    pub fn accept_state(&mut self, down: bool)
        ensures
            final(self).down == down,
            final(self).was_pressed == (!old(self).down && down),
            final(self).was_released == (old(self).down && !down),
    {
        self.was_pressed = !self.down && down;
        self.was_released = self.down && !down;
        self.down = down;
    }
}

/// Feeding the same state twice leaves no edge: a held button is not pressed
/// again, a released one is not released again.
pub proof fn lemma_repeated_state_has_no_edge(first: Button, second: Button, down: bool)
    requires
        first.down == down,
        second.down == down,
        second.was_pressed == (!first.down && down),
        second.was_released == (first.down && !down),
    ensures
        !second.was_pressed,
        !second.was_released,
{
}

/// A button is never pressed and released by the same state change.
pub proof fn lemma_edges_exclusive(before: Button, after: Button, down: bool)
    requires
        after.down == down,
        after.was_pressed == (!before.down && down),
        after.was_released == (before.down && !down),
    ensures
        !(after.was_pressed && after.was_released),
        after.was_pressed ==> !before.down && after.down,
        after.was_released ==> before.down && !after.down,
{
}

/// The state a button takes when it is fed the physical state `down`, as
/// `Button::accept_state` stores it.
pub open spec fn pressed(b: Button, down: bool) -> Button {
    Button { down, was_pressed: !b.down && down, was_released: b.down && !down }
}

/// A physical input that can be bound to buttons: a keyboard key by its code,
/// or the mouse moving along one axis.
#[derive(Clone, Copy, Debug, PartialEq, Eq, Structural)]
pub enum InputSource {
    Key(u32),
    MouseMovementX,
    MouseMovementY,
}

/// The buttons after `source` reported `down` to every binding of
/// `bindings`, in order: each binding `(s, i)` with `s == source` feeds the
/// state to button `i`; bindings to a button that does not exist are skipped.
pub open spec fn fed(
    buttons: Seq<Button>,
    bindings: Seq<(InputSource, usize)>,
    source: InputSource,
    down: bool,
) -> Seq<Button>
    decreases bindings.len(),
{
    if bindings.len() == 0 {
        buttons
    } else {
        let prev = fed(buttons, bindings.drop_last(), source, down);
        let (s, i) = bindings.last();
        if s == source && i < prev.len() {
            prev.update(i as int, pressed(prev[i as int], down))
        } else {
            prev
        }
    }
}

/// Some binding of `bindings` feeds `source` to button `i`.
pub open spec fn is_bound(bindings: Seq<(InputSource, usize)>, source: InputSource, i: int) -> bool {
    exists|k: int| 0 <= k < bindings.len() && bindings[k].0 == source && #[trigger] bindings[k].1 as int == i
}

/// The buttons of the key-bound input device with the bindings that drive
/// them. Buttons are named by their index.
pub struct ButtonBindings {
    buttons: Vec<Button>,
    bindings: Vec<(InputSource, usize)>,
}

impl View for ButtonBindings {
    type V = (Seq<Button>, Seq<(InputSource, usize)>);

    /// The buttons, and the bindings in the order they are fed.
    closed spec fn view(&self) -> (Seq<Button>, Seq<(InputSource, usize)>) {
        (self.buttons@, self.bindings@)
    }
}

impl ButtonBindings {
    /// `button_count` released buttons driven by `bindings`.
    pub fn new(button_count: usize, bindings: Vec<(InputSource, usize)>) -> (r: Self)
        ensures
            r@.0.len() == button_count,
            forall|i: int| 0 <= i < button_count ==> #[trigger] r@.0[i] == (Button {
                down: false,
                was_pressed: false,
                was_released: false,
            }),
            r@.1 == bindings@,
    {
        let mut buttons: Vec<Button> = Vec::new();
        let mut k: usize = 0;
        while k < button_count
            invariant
                k <= button_count,
                buttons@.len() == k,
                forall|i: int| 0 <= i < k ==> #[trigger] buttons@[i] == (Button {
                    down: false,
                    was_pressed: false,
                    was_released: false,
                }),
            decreases button_count - k,
        {
            buttons.push(Button::new());
            k = k + 1;
        }
        ButtonBindings { buttons, bindings }
    }

    /// The button with index `index`.
    pub fn button(&self, index: usize) -> (b: &Button)
        requires
            index < self@.0.len(),
        ensures
            *b == self@.0[index as int],
    {
        &self.buttons[index]
    }

    /// Feeds the physical state `down` of `source` to the buttons bound to
    /// it, binding by binding.
    pub fn accept(&mut self, source: InputSource, down: bool)
        ensures
            final(self)@.1 == old(self)@.1,
            final(self)@.0 == fed(old(self)@.0, old(self)@.1, source, down),
            final(self)@.0.len() == old(self)@.0.len(),
            forall|i: int|
                0 <= i < old(self)@.0.len() && !is_bound(old(self)@.1, source, i) ==> #[trigger] final(self)@.0[i] == old(self)@.0[i],
            forall|i: int|
                0 <= i < old(self)@.0.len() && is_bound(old(self)@.1, source, i) ==> {
                    &&& (#[trigger] final(self)@.0[i]).down == down
                    &&& final(self)@.0[i].was_pressed ==> !old(self)@.0[i].down && down
                    &&& final(self)@.0[i].was_released ==> old(self)@.0[i].down && !down
                },
    {
        proof {
            lemma_fed_len(old(self)@.0, old(self)@.1, source, down);
            assert forall|i: int|
                0 <= i < old(self)@.0.len() && !is_bound(old(self)@.1, source, i) implies #[trigger] fed(
                    old(self)@.0,
                    old(self)@.1,
                    source,
                    down,
                )[i] == old(self)@.0[i] by {
                lemma_fed_touches_only_bound_buttons(old(self)@.0, old(self)@.1, source, down, i);
            }
            assert forall|i: int|
                0 <= i < old(self)@.0.len() && is_bound(old(self)@.1, source, i) implies {
                    &&& (#[trigger] fed(old(self)@.0, old(self)@.1, source, down)[i]).down == down
                    &&& fed(old(self)@.0, old(self)@.1, source, down)[i].was_pressed ==> !old(self)@.0[i].down && down
                    &&& fed(old(self)@.0, old(self)@.1, source, down)[i].was_released ==> old(self)@.0[i].down && !down
                } by {
                lemma_fed_bound_edges(old(self)@.0, old(self)@.1, source, down, i);
            }
        }
        let ghost start = self.buttons@;
        let mut j: usize = 0;
        while j < self.bindings.len()
            invariant
                j <= self.bindings@.len(),
                self.bindings@ == old(self)@.1,
                start == old(self)@.0,
                self.buttons@ == fed(start, self.bindings@.take(j as int), source, down),
            decreases self.bindings@.len() - j,
        {
            let (s, i) = self.bindings[j];
            proof {
                assert(self.bindings@.take(j + 1).drop_last() =~= self.bindings@.take(j as int));
                assert(self.bindings@.take(j + 1).last() == self.bindings@[j as int]);
            }
            if s == source && i < self.buttons.len() {
                let was_down = self.buttons[i].down;
                self.buttons.set(
                    i,
                    Button { down, was_pressed: !was_down && down, was_released: was_down && !down },
                );
            }
            j = j + 1;
        }
        proof {
            assert(self.bindings@.take(j as int) =~= self.bindings@);
        }
    }

    /// Releases every button, as when input is disabled.
    pub fn release_all(&mut self)
        ensures
            final(self)@.1 == old(self)@.1,
            final(self)@.0.len() == old(self)@.0.len(),
            forall|i: int|
                0 <= i < old(self)@.0.len() ==> #[trigger] final(self)@.0[i] == pressed(
                    old(self)@.0[i],
                    false,
                ),
    {
        let mut k: usize = 0;
        while k < self.buttons.len()
            invariant
                k <= self.buttons@.len(),
                self.buttons@.len() == old(self)@.0.len(),
                self.bindings@ == old(self)@.1,
                forall|i: int| 0 <= i < k ==> #[trigger] self.buttons@[i] == pressed(old(self)@.0[i], false),
                forall|i: int| k <= i < self.buttons@.len() ==> #[trigger] self.buttons@[i] == old(self)@.0[i],
            decreases self.buttons@.len() - k,
        {
            let was_down = self.buttons[k].down;
            self.buttons.set(k, Button { down: false, was_pressed: false, was_released: was_down });
            k = k + 1;
        }
    }
}

/// A source that no binding names leaves every button as it was.
pub proof fn lemma_unbound_source_changes_nothing(
    buttons: Seq<Button>,
    bindings: Seq<(InputSource, usize)>,
    source: InputSource,
    down: bool,
)
    requires
        forall|k: int| 0 <= k < bindings.len() ==> (#[trigger] bindings[k]).0 != source,
    ensures
        fed(buttons, bindings, source, down) == buttons,
    decreases bindings.len(),
{
    if bindings.len() > 0 {
        lemma_unbound_source_changes_nothing(buttons, bindings.drop_last(), source, down);
        assert(bindings.last() == bindings[bindings.len() - 1]);
    }
}

/// Feeding keeps the number of buttons, and a button that no binding of the
/// source names keeps its state.
pub proof fn lemma_fed_touches_only_bound_buttons(
    buttons: Seq<Button>,
    bindings: Seq<(InputSource, usize)>,
    source: InputSource,
    down: bool,
    i: int,
)
    requires
        0 <= i < buttons.len(),
        forall|k: int|
            0 <= k < bindings.len() ==> !((#[trigger] bindings[k]).0 == source && bindings[k].1
                == i),
    ensures
        fed(buttons, bindings, source, down).len() == buttons.len(),
        fed(buttons, bindings, source, down)[i] == buttons[i],
    decreases bindings.len(),
{
    if bindings.len() > 0 {
        lemma_fed_touches_only_bound_buttons(buttons, bindings.drop_last(), source, down, i);
        assert(bindings.last() == bindings[bindings.len() - 1]);
    }
}

/// A button bound once to a source takes the state the source reports, and is
/// pressed exactly when it was up before and the source reports down.
pub proof fn lemma_bound_once_follows_source(
    buttons: Seq<Button>,
    bindings: Seq<(InputSource, usize)>,
    source: InputSource,
    down: bool,
    k: int,
)
    requires
        0 <= k < bindings.len(),
        bindings[k].0 == source,
        bindings[k].1 < buttons.len(),
        forall|m: int|
            0 <= m < bindings.len() && m != k ==> !((#[trigger] bindings[m]).0 == source
                && bindings[m].1 == bindings[k].1),
    ensures
        fed(buttons, bindings, source, down)[bindings[k].1 as int] == pressed(
            buttons[bindings[k].1 as int],
            down,
        ),
    decreases bindings.len(),
{
    let i = bindings[k].1 as int;
    let init = bindings.drop_last();
    if k == bindings.len() - 1 {
        assert forall|m: int| 0 <= m < init.len() implies !((#[trigger] init[m]).0 == source
            && init[m].1 == i) by {
            assert(init[m] == bindings[m]);
        }
        lemma_fed_touches_only_bound_buttons(buttons, init, source, down, i);
    } else {
        assert(init[k] == bindings[k]);
        assert forall|m: int| 0 <= m < init.len() && m != k implies !((#[trigger] init[m]).0
            == source && init[m].1 == init[k].1) by {
            assert(init[m] == bindings[m]);
        }
        lemma_bound_once_follows_source(buttons, init, source, down, k);
        lemma_fed_len(buttons, init, source, down);
        assert(bindings.last() == bindings[bindings.len() - 1]);
    }
}

/// A button that a binding feeds takes the reported state, is pressed only
/// when it was up before and the source reports down, and is released only
/// when it was down before and the source reports up: in particular a button
/// fed `down` is never reported released, and one fed up never pressed.
pub proof fn lemma_fed_bound_edges(
    buttons: Seq<Button>,
    bindings: Seq<(InputSource, usize)>,
    source: InputSource,
    down: bool,
    i: int,
)
    requires
        0 <= i < buttons.len(),
        is_bound(bindings, source, i),
    ensures
        fed(buttons, bindings, source, down)[i].down == down,
        fed(buttons, bindings, source, down)[i].was_pressed ==> !buttons[i].down && down,
        fed(buttons, bindings, source, down)[i].was_released ==> buttons[i].down && !down,
        down ==> !fed(buttons, bindings, source, down)[i].was_released,
        !down ==> !fed(buttons, bindings, source, down)[i].was_pressed,
    decreases bindings.len(),
{
    let init = bindings.drop_last();
    let k = choose|k: int| 0 <= k < bindings.len() && bindings[k].0 == source && #[trigger] bindings[k].1 as int == i;
    lemma_fed_len(buttons, init, source, down);
    let last = bindings.last();
    assert(last == bindings[bindings.len() - 1]);
    if is_bound(init, source, i) {
        lemma_fed_bound_edges(buttons, init, source, down, i);
    } else {
        assert forall|m: int|
            0 <= m < init.len() implies !((#[trigger] init[m]).0 == source && init[m].1 == i) by {
            if init[m].0 == source && init[m].1 == i {
                assert(init[m].1 as int == i);
            }
        }
        lemma_fed_touches_only_bound_buttons(buttons, init, source, down, i);
        if k < bindings.len() - 1 {
            assert(init[k] == bindings[k]);
            assert(init[k].1 as int == i);
        }
    }
}

/// A button's edges after it is fed the state `down`: it goes down exactly
/// when `down`, it is pressed exactly when it was up and goes down, and
/// released exactly when it was down and goes up; the old edges are forgotten.
pub proof fn lemma_pressed_edges(b: Button, down: bool)
    ensures
        pressed(b, down).down == down,
        pressed(b, down).was_pressed <==> !b.down && down,
        pressed(b, down).was_released <==> b.down && !down,
        down ==> !pressed(b, down).was_released,
        !down ==> !pressed(b, down).was_pressed,
{
}

/// Feeding keeps the number of buttons.
proof fn lemma_fed_len(
    buttons: Seq<Button>,
    bindings: Seq<(InputSource, usize)>,
    source: InputSource,
    down: bool,
)
    ensures
        fed(buttons, bindings, source, down).len() == buttons.len(),
    decreases bindings.len(),
{
    if bindings.len() > 0 {
        lemma_fed_len(buttons, bindings.drop_last(), source, down);
    }
}

} // verus!
