//! Functionality related to handling keyboard input.

use vstd::prelude::*;

use crate::input::{
    all_released, apply_key_event, valid_event, valid_key, ElementState, KeyboardInput,
};

verus! {

broadcast use vstd::array::group_array_axioms;

/// Keyboard input and state.
pub struct Keyboard {
    current_key_state: [bool; 512],
    previous_key_state: [bool; 512],
    pub input_enabled: bool,
}

impl Keyboard {
    /// Whether keyboard events are currently handled.
    pub closed spec fn enabled(&self) -> bool {
        self.input_enabled
    }

    /// Key states of the current frame.
    pub closed spec fn current(&self) -> Seq<bool> {
        self.current_key_state@
    }

    /// Key states at the end of the previous frame.
    pub closed spec fn previous(&self) -> Seq<bool> {
        self.previous_key_state@
    }

    /// Both tables hold one entry per key slot.
    pub proof fn lemma_table_lengths(&self)
        ensures
            self.current().len() == 512,
            self.previous().len() == 512,
    {
    }

    /// Whether `key` is held down in the current frame.
    pub open spec fn spec_is_key_down(&self, key: u32) -> bool {
        self.current()[key as int]
    }

    /// Whether `key` went down during the current frame.
    pub open spec fn spec_was_key_pressed(&self, key: u32) -> bool {
        !self.previous()[key as int] && self.current()[key as int]
    }

    /// Whether `key` came up during the current frame.
    pub open spec fn spec_was_key_released(&self, key: u32) -> bool {
        self.previous()[key as int] && !self.current()[key as int]
    }
}

// need this because we want input to be enabled from start
impl Default for Keyboard {
    fn default() -> (kb: Self)
        ensures
            kb.enabled(),
            all_released(kb.current()),
            all_released(kb.previous()),
    {
        Self {
            current_key_state: [false; 512],
            previous_key_state: [false; 512],
            input_enabled: true,
        }
    }
}

impl Keyboard {
    /// Returns whether is the keyboard input currently responding
    /// to incoming keyboard input events.
    #[inline]
    pub fn is_enabled(&mut self) -> (r: bool)
        ensures
            r == old(self).enabled(),
            *final(self) == *old(self),
    {
        self.input_enabled
    }

    /// Enables or disables the handling of keyboard events.
    pub fn set_enabled(&mut self, input_enabled: bool)
        ensures
            final(self).enabled() == input_enabled,
            final(self).previous() == old(self).previous(),
            input_enabled ==> final(self).current() == old(self).current(),
            !input_enabled ==> all_released(final(self).current()),
    {
        // when we lose focus we trigger release all pressed keys to prevent bugs
        if !input_enabled {
            self.current_key_state = [false; 512];
        }
        self.input_enabled = input_enabled;
    }

    /// Returns whether the user is currently (in this frame)
    /// holding down the key specified by its key code.
    ///
    /// If you want to trigger an action on key press use
    /// `was_key_pressed` as it returns only on frame when the
    /// specified key was pressed the first time.
    pub fn is_key_down(&self, key: u32) -> (r: bool)
        requires
            valid_key(key),
        ensures
            r == self.spec_is_key_down(key),
    {
        self.current_key_state[key as usize]
    }

    /// Returns whether the user is currently (in this frame)
    /// not holding down the key specified by its key code.
    pub fn is_key_up(&self, key: u32) -> (r: bool)
        requires
            valid_key(key),
        ensures
            r == !self.spec_is_key_down(key),
    {
        !self.current_key_state[key as usize]
    }

    /// Returns whether the user started pressing the key
    /// in this frame.
    pub fn was_key_pressed(&self, key: u32) -> (r: bool)
        requires
            valid_key(key),
        ensures
            r == self.spec_was_key_pressed(key),
    {
        !self.previous_key_state[key as usize] && self.is_key_down(key)
    }

    /// Returns whether the user released the key in this frame.
    pub fn was_key_released(&self, key: u32) -> (r: bool)
        requires
            valid_key(key),
        ensures
            r == self.spec_was_key_released(key),
    {
        self.previous_key_state[key as usize] && self.is_key_up(key)
    }

    /// Should be called once per frame to maintain internal state to provide useful
    /// per-frame functions as "was keyboard button pressed during this frame".
    pub fn frame_finished(&mut self)
        ensures
            final(self).previous() == old(self).current(),
            final(self).current() == old(self).current(),
            final(self).enabled() == old(self).enabled(),
    {
        self.previous_key_state = self.current_key_state;
    }

    /// Modifies the internal state according to the keyboard event.
    pub fn handle_event(&mut self, event: KeyboardInput)
        requires
            valid_event(event),
        ensures
            final(self).enabled() == old(self).enabled(),
            final(self).previous() == old(self).previous(),
            old(self).enabled() ==> final(self).current() == apply_key_event(
                old(self).current(),
                event,
            ),
            !old(self).enabled() ==> final(self).current() == old(self).current(),
    {
        if !self.input_enabled {
            return;
        }
        if let Some(t) = event.virtual_keycode {
            match event.state {
                ElementState::Pressed => self.current_key_state[t as usize] = true,
                ElementState::Released => self.current_key_state[t as usize] = false,
            }
        }
    }
}

} // verus!

verus! {

/// A key is never reported as both pressed and released within one frame.
pub proof fn lemma_pressed_and_released_exclusive(kb: Keyboard, key: u32)
    requires
        valid_key(key),
    ensures
        !(kb.spec_was_key_pressed(key) && kb.spec_was_key_released(key)),
{
}

/// Right after `frame_finished`, no key counts as pressed or released until
/// the next event arrives.
pub proof fn lemma_frame_finished_clears_edges(before: Keyboard, after: Keyboard, key: u32)
    requires
        valid_key(key),
        after.previous() == before.current(),
        after.current() == before.current(),
    ensures
        !after.spec_was_key_pressed(key),
        !after.spec_was_key_released(key),
        after.spec_is_key_down(key) == before.spec_is_key_down(key),
{
}

/// While input is enabled, a press of `key` leaves it held down, and it counts
/// as pressed in this frame exactly when it was up at the end of the previous
/// frame; no other key changes.
pub proof fn lemma_press_holds_key(before: Keyboard, after: Keyboard, key: u32)
    requires
        valid_key(key),
        before.enabled(),
        after.previous() == before.previous(),
        after.current() == apply_key_event(
            before.current(),
            KeyboardInput { virtual_keycode: Some(key), state: ElementState::Pressed },
        ),
    ensures
        after.spec_is_key_down(key),
        after.spec_was_key_pressed(key) == !before.previous()[key as int],
        !after.spec_was_key_released(key),
        forall|other: u32| valid_key(other) && other != key ==> after.spec_is_key_down(other)
            == before.spec_is_key_down(other),
{
    before.lemma_table_lengths();
}

/// While input is enabled, a release of `key` leaves it up, and it counts as
/// released in this frame exactly when it was down at the end of the previous
/// frame; no other key changes.
pub proof fn lemma_release_lifts_key(before: Keyboard, after: Keyboard, key: u32)
    requires
        valid_key(key),
        before.enabled(),
        after.previous() == before.previous(),
        after.current() == apply_key_event(
            before.current(),
            KeyboardInput { virtual_keycode: Some(key), state: ElementState::Released },
        ),
    ensures
        !after.spec_is_key_down(key),
        after.spec_was_key_released(key) == before.previous()[key as int],
        !after.spec_was_key_pressed(key),
        forall|other: u32| valid_key(other) && other != key ==> after.spec_is_key_down(other)
            == before.spec_is_key_down(other),
{
    before.lemma_table_lengths();
}

/// Disabling the keyboard releases every key.
pub proof fn lemma_disable_releases_all(after: Keyboard, key: u32)
    requires
        valid_key(key),
        all_released(after.current()),
    ensures
        !after.spec_is_key_down(key),
        !after.spec_was_key_pressed(key),
{
}

} // verus!
