//! The state machine of the asset storage: which assets are queued, loading,
//! failed, loaded or handed out, when a request puts an asset on the load
//! queue, what a read of an asset does, the revision of each asset, and which
//! loaded assets the garbage collector drops.
//!
//! The assets themselves, the weak handles to assets that were handed out,
//! the clock and the worker threads stay with the caller: it reports whether a
//! handed-out asset is still alive, and the time in milliseconds.

use std::collections::HashMap;
use vstd::prelude::*;

verus! {

broadcast use vstd::std_specs::hash::group_hash_axioms;

/// All possible states for assets in storage.
#[derive(Clone, Copy, Debug, PartialEq, Eq, Structural)]
pub enum AssetState {
    /// The asset has not started loading but is already present in the load
    /// queue.
    Queued,
    /// Asset is currently being loaded by some worker; no further attempt to
    /// load it should be made.
    Loading,
    /// An error occurred while the asset was being loaded.
    LoadError,
    /// The asset was loaded at time `loaded_at` and is ready to be used.
    Loaded { loaded_at: u64 },
    /// The asset was loaded and already handed out; the storage only keeps a
    /// weak handle, so it may or may not still be in memory.
    HandedOut,
}

/// What a read of an asset does.
#[derive(Clone, Copy, Debug, PartialEq, Eq, Structural)]
pub enum Fetch {
    /// Nothing to hand out: unknown, queued, loading or failed.
    Unavailable,
    /// The asset was handed out before: try to upgrade the weak handle.
    Upgrade,
    /// The asset is loaded and handed out for the first time: take it, and
    /// keep only a weak handle from now on.
    TakeLoaded,
}

/// The state of `uuid` in `states`, if it has one.
pub open spec fn state_of(states: Map<u128, AssetState>, uuid: u128) -> Option<AssetState> {
    if states.contains_key(uuid) {
        Some(states[uuid])
    } else {
        None
    }
}

/// The states after load requests for `items` in order, where the request
/// for `items[i]` is told by `handles_alive[i]` whether its weak handle is
/// alive.
pub open spec fn requested(
    states: Map<u128, AssetState>,
    items: Seq<u128>,
    handles_alive: Seq<bool>,
) -> Map<u128, AssetState>
    decreases items.len(),
{
    if items.len() == 0 {
        states
    } else {
        let prev = requested(states, items.drop_last(), handles_alive);
        let k = items.last();
        if will_load(state_of(prev, k), handles_alive[items.len() - 1]) {
            prev.insert(k, AssetState::Queued)
        } else {
            prev
        }
    }
}

/// Whether a load request puts the asset on the load queue: an unknown asset
/// and one that failed to load are queued, a queued, loading or loaded one is
/// not, and a handed-out one is queued while its weak handle is alive.
pub open spec fn will_load(state: Option<AssetState>, handle_alive: bool) -> bool {
    match state {
        None => true,
        Some(AssetState::Queued) => false,
        Some(AssetState::Loading) => false,
        Some(AssetState::LoadError) => true,
        Some(AssetState::Loaded { .. }) => false,
        Some(AssetState::HandedOut) => handle_alive,
    }
}

/// Whether the asset is ready to be used: loaded, or handed out and still
/// alive.
pub open spec fn is_ready_state(state: Option<AssetState>, handle_alive: bool) -> bool {
    match state {
        Some(AssetState::Loaded { .. }) => true,
        Some(AssetState::HandedOut) => handle_alive,
        _ => false,
    }
}

/// What a read of an asset in `state` does.
pub open spec fn fetch_of(state: Option<AssetState>) -> Fetch {
    match state {
        Some(AssetState::Loaded { .. }) => Fetch::TakeLoaded,
        Some(AssetState::HandedOut) => Fetch::Upgrade,
        _ => Fetch::Unavailable,
    }
}

/// Whether the garbage collector drops an asset in `state` at time `now`: it
/// was loaded, never handed out, and more than `threshold` milliseconds ago.
pub open spec fn leaked(state: AssetState, now: u64, threshold: u64) -> bool {
    match state {
        AssetState::Loaded { loaded_at } => now > loaded_at && now - loaded_at > threshold,
        _ => false,
    }
}

/// The revision an asset gets when a load of it completes: one more than
/// before, or 1 for its first load.
pub open spec fn next_revision(revisions: Map<u128, u32>, uuid: u128) -> int {
    if revisions.contains_key(uuid) {
        revisions[uuid] + 1
    } else {
        1
    }
}

/// The states of the assets in storage and their revisions.
pub struct StorageTable {
    states: HashMap<u128, AssetState>,
    /// The assets with a state, each once.
    order: Vec<u128>,
    revisions: HashMap<u128, u32>,
}

impl View for StorageTable {
    type V = (Map<u128, AssetState>, Map<u128, u32>);

    /// The state of each asset in storage, and the revision of each asset
    /// that was ever loaded.
    closed spec fn view(&self) -> (Map<u128, AssetState>, Map<u128, u32>) {
        (self.states@, self.revisions@)
    }
}

impl StorageTable {
    /// The list of assets names each asset with a state exactly once.
    pub closed spec fn wf(&self) -> bool {
        &&& self.order@.no_duplicates()
        &&& forall|k: u128| #[trigger] self.states@.contains_key(k) <==> self.order@.contains(k)
    }

    /// An empty storage.
    pub fn new() -> (t: Self)
        ensures
            t.wf(),
            t@.0 == Map::<u128, AssetState>::empty(),
            t@.1 == Map::<u128, u32>::empty(),
    {
        let t = StorageTable { states: HashMap::new(), order: Vec::new(), revisions: HashMap::new() };
        assert(t.states@ =~= Map::<u128, AssetState>::empty());
        t
    }

    /// The state of the asset, if it is in storage.
    pub fn state(&self, uuid: u128) -> (r: Option<AssetState>)
        ensures
            r == state_of(self@.0, uuid),
    {
        match self.states.get(&uuid) {
            Some(s) => Some(*s),
            None => None,
        }
    }

    /// Whether the asset is loaded and ready to be used; a handed-out asset is
    /// ready while `handle_alive` reports its weak handle alive.
    pub fn is_ready(&self, uuid: u128, handle_alive: bool) -> (r: bool)
        ensures
            r == is_ready_state(
                state_of(self@.0, uuid),
                handle_alive,
            ),
            r ==> self@.0.contains_key(uuid) && (self@.0[uuid] is Loaded || (self@.0[uuid]
                == AssetState::HandedOut && handle_alive)),
            self@.0.contains_key(uuid) && self@.0[uuid] is Loaded ==> r,
            self@.0.contains_key(uuid) && self@.0[uuid] == AssetState::HandedOut && handle_alive
                ==> r,
    {
        match self.states.get(&uuid) {
            None => false,
            Some(AssetState::Loaded { .. }) => true,
            Some(AssetState::HandedOut) => handle_alive,
            Some(_) => false,
        }
    }

    /// The current revision of the asset: the number of completed loads, 0
    /// for an asset that was never loaded.
    pub fn revision(&self, uuid: u128) -> (r: u32)
        ensures
            r == (if self@.1.contains_key(uuid) {
                self@.1[uuid]
            } else {
                0
            }),
    {
        match self.revisions.get(&uuid) {
            Some(r) => *r,
            None => 0,
        }
    }

    /// Sets the state of `uuid`, adding it to the list when it is new.
    fn set_state(&mut self, uuid: u128, state: AssetState)
        requires
            old(self).wf(),
        ensures
            final(self).wf(),
            final(self)@.0 == old(self)@.0.insert(uuid, state),
            final(self)@.1 == old(self)@.1,
    {
        let ghost o = self.order@;
        let present = self.states.contains_key(&uuid);
        if !present {
            self.order.push(uuid);
            proof {
                lemma_push_no_duplicates(o, uuid);
            }
        }
        self.states.insert(uuid, state);
        proof {
            assert forall|k: u128| #[trigger] self.states@.contains_key(k) <==> self.order@.contains(
                k,
            ) by {
                if !present {
                    assert(self.order@ == o.push(uuid));
                    if self.order@.contains(k) {
                        let i = choose|i: int| 0 <= i < self.order@.len() && self.order@[i] == k;
                        if i < o.len() {
                            assert(o[i] == k);
                        }
                    }
                    if o.contains(k) {
                        let i = choose|i: int| 0 <= i < o.len() && o[i] == k;
                        assert(self.order@[i] == k);
                    }
                    assert(self.order@[o.len() as int] == uuid);
                }
            }
        }
    }

    /// A request to load the asset: queues it when `will_load` says so and
    /// returns whether it did; otherwise nothing changes. `handle_alive`
    /// reports whether the weak handle of a handed-out asset is alive.
    pub fn request_load(&mut self, uuid: u128, handle_alive: bool) -> (queued: bool)
        requires
            old(self).wf(),
        ensures
            final(self).wf(),
            queued == will_load(
                state_of(old(self)@.0, uuid),
                handle_alive,
            ),
            queued ==> final(self)@.0 == old(self)@.0.insert(uuid, AssetState::Queued),
            !queued ==> final(self)@.0 == old(self)@.0,
            final(self)@.1 == old(self)@.1,
    {
        let load = match self.states.get(&uuid) {
            None => true,
            Some(AssetState::Queued) => false,
            Some(AssetState::Loading) => false,
            Some(AssetState::LoadError) => true,
            Some(AssetState::Loaded { .. }) => false,
            Some(AssetState::HandedOut) => handle_alive,
        };
        if load {
            self.set_state(uuid, AssetState::Queued);
        }
        load
    }

    /// A request to load the asset again even when it is in memory: it is
    /// queued whatever its state, so that each call loads it once.
    pub fn request_reload(&mut self, uuid: u128)
        requires
            old(self).wf(),
        ensures
            final(self).wf(),
            final(self)@.0 == old(self)@.0.insert(uuid, AssetState::Queued),
            final(self)@.1 == old(self)@.1,
    {
        self.set_state(uuid, AssetState::Queued);
    }

    /// A worker starts loading the asset.
    pub fn start_loading(&mut self, uuid: u128)
        requires
            old(self).wf(),
            old(self)@.0.contains_key(uuid),
        ensures
            final(self).wf(),
            final(self)@.0 == old(self)@.0.insert(uuid, AssetState::Loading),
            final(self)@.1 == old(self)@.1,
    {
        self.set_state(uuid, AssetState::Loading);
    }

    /// The asset could not be read or decoded.
    pub fn load_failed(&mut self, uuid: u128)
        requires
            old(self).wf(),
            old(self)@.0.contains_key(uuid),
        ensures
            final(self).wf(),
            final(self)@.0 == old(self)@.0.insert(uuid, AssetState::LoadError),
            final(self)@.1 == old(self)@.1,
    {
        self.set_state(uuid, AssetState::LoadError);
    }

    /// The asset was loaded at time `now`: it is ready, and its revision is one
    /// more than before (1 for its first load).
    pub fn load_finished(&mut self, uuid: u128, now: u64)
        requires
            old(self).wf(),
            old(self)@.0.contains_key(uuid),
            next_revision(old(self)@.1, uuid) <= u32::MAX,
        ensures
            final(self).wf(),
            final(self)@.0 == old(self)@.0.insert(uuid, AssetState::Loaded { loaded_at: now }),
            final(self)@.1 == old(self)@.1.insert(uuid, next_revision(old(self)@.1, uuid) as u32),
    {
        self.set_state(uuid, AssetState::Loaded { loaded_at: now });
        let next = match self.revisions.get(&uuid) {
            Some(r) => *r + 1,
            None => 1,
        };
        self.revisions.insert(uuid, next);
    }

    /// A read of the asset: says what the caller does (see `Fetch`); a loaded
    /// asset is handed out and from then on kept only by a weak handle.
    pub fn fetch(&mut self, uuid: u128) -> (r: Fetch)
        requires
            old(self).wf(),
        ensures
            final(self).wf(),
            r == fetch_of(
                state_of(old(self)@.0, uuid),
            ),
            r == Fetch::TakeLoaded ==> final(self)@.0 == old(self)@.0.insert(
                uuid,
                AssetState::HandedOut,
            ),
            r != Fetch::TakeLoaded ==> final(self)@.0 == old(self)@.0,
            final(self)@.1 == old(self)@.1,
            (r == Fetch::TakeLoaded) <==> old(self)@.0.contains_key(uuid) && old(self)@.0[uuid] is Loaded,
            (r == Fetch::Upgrade) <==> old(self)@.0.contains_key(uuid) && old(self)@.0[uuid]
                == AssetState::HandedOut,
            !(old(self)@.0.contains_key(uuid) && old(self)@.0[uuid] is Loaded) ==> final(self)@.0
                == old(self)@.0,
    {
        match self.states.get(&uuid) {
            Some(AssetState::Loaded { .. }) => {
                self.set_state(uuid, AssetState::HandedOut);
                Fetch::TakeLoaded
            },
            Some(AssetState::HandedOut) => Fetch::Upgrade,
            _ => Fetch::Unavailable,
        }
    }

    /// Requests the load of every asset of a batch, in order; `handles_alive`
    /// reports for each item whether the weak handle of a handed-out asset is
    /// alive.
    pub fn request_load_batch(&mut self, items: &[u128], handles_alive: &[bool])
        requires
            old(self).wf(),
            items@.len() == handles_alive@.len(),
        ensures
            final(self).wf(),
            final(self)@.0 == requested(old(self)@.0, items@, handles_alive@),
            final(self)@.1 == old(self)@.1,
    {
        let mut i: usize = 0;
        while i < items.len()
            invariant
                self.wf(),
                i <= items@.len(),
                items@.len() == handles_alive@.len(),
                self@.0 == requested(old(self)@.0, items@.take(i as int), handles_alive@),
                self@.1 == old(self)@.1,
            decreases items@.len() - i,
        {
            proof {
                assert(items@.take(i + 1).drop_last() =~= items@.take(i as int));
                assert(items@.take(i + 1).last() == items@[i as int]);
            }
            self.request_load(items[i], handles_alive[i]);
            i = i + 1;
        }
        proof {
            assert(items@.take(i as int) =~= items@);
        }
    }

    /// For each asset of a batch, whether it is ready; `handles_alive`
    /// reports for each item whether the weak handle of a handed-out asset is
    /// alive. `check_result` counts the answers.
    pub fn readiness(&self, items: &[u128], handles_alive: &[bool]) -> (r: Vec<bool>)
        requires
            items@.len() == handles_alive@.len(),
        ensures
            r@.len() == items@.len(),
            forall|i: int|
                0 <= i < items@.len() ==> #[trigger] r@[i] == is_ready_state(
                    state_of(self@.0, items@[i]),
                    handles_alive@[i],
                ),
    {
        let mut r: Vec<bool> = Vec::new();
        let mut i: usize = 0;
        while i < items.len()
            invariant
                i <= items@.len(),
                items@.len() == handles_alive@.len(),
                r@.len() == i,
                forall|j: int|
                    0 <= j < i ==> #[trigger] r@[j] == is_ready_state(
                        state_of(self@.0, items@[j]),
                        handles_alive@[j],
                    ),
            decreases items@.len() - i,
        {
            let ready = self.is_ready(items[i], handles_alive[i]);
            r.push(ready);
            i = i + 1;
        }
        r
    }

    /// The garbage collector: drops every asset that was loaded more than
    /// `threshold` milliseconds before `now` and never handed out, and returns
    /// the dropped assets. Revisions stay.
    pub fn gc(&mut self, now: u64, threshold: u64) -> (removed: Vec<u128>)
        requires
            old(self).wf(),
        ensures
            final(self).wf(),
            final(self)@.1 == old(self)@.1,
            final(self)@.0 == old(self)@.0.restrict(
                old(self)@.0.dom().filter(|k: u128| !leaked(old(self)@.0[k], now, threshold)),
            ),
            removed@.no_duplicates(),
            forall|k: u128|
                #[trigger] removed@.contains(k) <==> old(self)@.0.contains_key(k) && leaked(
                    old(self)@.0[k],
                    now,
                    threshold,
                ),
            forall|k: u128|
                #[trigger] removed@.contains(k) <==> old(self)@.0.contains_key(k) && old(self)@.0[k] is Loaded && now > old(self)@.0[k]->loaded_at && now - old(self)@.0[k]->loaded_at > threshold,
            forall|k: u128|
                #[trigger] final(self)@.0.contains_key(k) <==> old(self)@.0.contains_key(k) && !(
                old(self)@.0[k] is Loaded && now > old(self)@.0[k]->loaded_at && now - old(self)@.0[k]->loaded_at > threshold),
    {
        let ghost old_states = self.states@;
        let ghost old_order = self.order@;
        let mut kept: Vec<u128> = Vec::new();
        let mut removed: Vec<u128> = Vec::new();
        let mut i: usize = 0;
        while i < self.order.len()
            invariant
                self.order@ == old_order,
                old_order.no_duplicates(),
                forall|k: u128| #[trigger] old_states.contains_key(k) <==> old_order.contains(k),
                i <= old_order.len(),
                self.revisions@ == old(self)@.1,
                old_states == old(self)@.0,
                kept@.no_duplicates(),
                removed@.no_duplicates(),
                forall|k: u128|
                    #[trigger] kept@.contains(k) <==> (exists|j: int|
                        0 <= j < i && old_order[j] == k) && !leaked(old_states[k], now, threshold),
                forall|k: u128|
                    #[trigger] removed@.contains(k) <==> (exists|j: int|
                        0 <= j < i && old_order[j] == k) && leaked(old_states[k], now, threshold),
                self.states@ == old_states.restrict(
                    old_states.dom().filter(
                        |k: u128|
                            !((exists|j: int| 0 <= j < i && old_order[j] == k) && leaked(
                                old_states[k],
                                now,
                                threshold,
                            )),
                    ),
                ),
            decreases old_order.len() - i,
        {
            let k = self.order[i];
            assert(old_order.contains(k));
            let s = *self.states.get(&k).unwrap();
            let drop = match s {
                AssetState::Loaded { loaded_at } => now > loaded_at && now - loaded_at > threshold,
                _ => false,
            };
            proof {
                assert(forall|j: int| 0 <= j < i ==> old_order[j] != k) by {
                    assert forall|j: int| 0 <= j < i implies old_order[j] != k by {
                        if old_order[j] == k {
                            assert(old_order[j] == old_order[i as int]);
                        }
                    }
                }
            }
            let ghost prev_kept = kept@;
            let ghost prev_removed = removed@;
            proof {
                assert(!prev_kept.contains(k));
                assert(!prev_removed.contains(k));
            }
            if drop {
                self.states.remove(&k);
                removed.push(k);
                proof {
                    lemma_push_no_duplicates(prev_removed, k);
                }
            } else {
                kept.push(k);
                proof {
                    lemma_push_no_duplicates(prev_kept, k);
                }
            }
            proof {
                let ni = i + 1;
                assert forall|x: u128| #[trigger] kept@.contains(x) <==> (exists|j: int|
                    0 <= j < ni && old_order[j] == x) && !leaked(old_states[x], now, threshold) by {
                    if exists|j: int| 0 <= j < ni && old_order[j] == x {
                        let j = choose|j: int| 0 <= j < ni && old_order[j] == x;
                        if j < i {
                            assert(exists|j2: int| 0 <= j2 < i && old_order[j2] == x);
                        }
                    }
                    if kept@.contains(x) && x != k {
                        let j = choose|j: int| 0 <= j < kept@.len() && kept@[j] == x;
                        if !drop {
                            assert(kept@ == prev_kept.push(k));
                            assert(prev_kept[j] == x);
                        }
                        assert(prev_kept.contains(x));
                    }
                    if prev_kept.contains(x) {
                        let j = choose|j: int| 0 <= j < prev_kept.len() && prev_kept[j] == x;
                        if !drop {
                            assert(kept@[j] == x);
                        }
                    }
                    if !drop && x == k {
                        assert(kept@[kept@.len() - 1] == k);
                    }
                    if drop {
                        assert(exists|j: int| 0 <= j < ni && old_order[j] == k);
                    }
                }
                assert forall|x: u128| #[trigger] removed@.contains(x) <==> (exists|j: int|
                    0 <= j < ni && old_order[j] == x) && leaked(old_states[x], now, threshold) by {
                    if exists|j: int| 0 <= j < ni && old_order[j] == x {
                        let j = choose|j: int| 0 <= j < ni && old_order[j] == x;
                        if j < i {
                            assert(exists|j2: int| 0 <= j2 < i && old_order[j2] == x);
                        }
                    }
                    if removed@.contains(x) && x != k {
                        let j = choose|j: int| 0 <= j < removed@.len() && removed@[j] == x;
                        if drop {
                            assert(removed@ == prev_removed.push(k));
                            assert(prev_removed[j] == x);
                        }
                        assert(prev_removed.contains(x));
                    }
                    if prev_removed.contains(x) {
                        let j = choose|j: int| 0 <= j < prev_removed.len() && prev_removed[j] == x;
                        if drop {
                            assert(removed@[j] == x);
                        }
                    }
                    if drop && x == k {
                        assert(removed@[removed@.len() - 1] == k);
                    }
                    if !drop {
                        assert(exists|j: int| 0 <= j < ni && old_order[j] == k);
                    }
                }
                assert(self.states@ =~= old_states.restrict(
                    old_states.dom().filter(
                        |x: u128|
                            !((exists|j: int| 0 <= j < ni && old_order[j] == x) && leaked(
                                old_states[x],
                                now,
                                threshold,
                            )),
                    ),
                )) by {
                    assert forall|x: u128| old_states.contains_key(x) && x != k implies ((exists|
                        j: int,
                    | 0 <= j < ni && old_order[j] == x) <==> (exists|j: int|
                        0 <= j < i && old_order[j] == x)) by {
                        if exists|j: int| 0 <= j < ni && old_order[j] == x {
                            let j = choose|j: int| 0 <= j < ni && old_order[j] == x;
                            assert(j != i);
                        }
                    }
                    assert(exists|j: int| 0 <= j < ni && old_order[j] == k);
                }
            }
            i = i + 1;
        }
        proof {
            assert forall|x: u128| old_states.contains_key(x) implies (exists|j: int|
                0 <= j < old_order.len() && old_order[j] == x) by {
                assert(old_order.contains(x));
            }
            assert(self.states@ =~= old_states.restrict(
                old_states.dom().filter(|x: u128| !leaked(old_states[x], now, threshold)),
            ));
        }
        self.order = kept;
        proof {
            assert forall|x: u128| #[trigger] self.states@.contains_key(x) <==> self.order@.contains(
                x,
            ) by {
                if old_states.contains_key(x) {
                    assert(old_order.contains(x));
                }
            }
            assert forall|x: u128| #[trigger] removed@.contains(x) <==> old(self)@.0.contains_key(x)
                && leaked(old(self)@.0[x], now, threshold) by {
                if old_states.contains_key(x) {
                    assert(old_order.contains(x));
                    let j = choose|j: int| 0 <= j < old_order.len() && old_order[j] == x;
                    assert(exists|j2: int| 0 <= j2 < old_order.len() && old_order[j2] == x);
                }
            }
        }
        removed
    }
}

/// Appending an element that is not present keeps a list free of duplicates.
proof fn lemma_push_no_duplicates(s: Seq<u128>, x: u128)
    requires
        s.no_duplicates(),
        !s.contains(x),
    ensures
        s.push(x).no_duplicates(),
{
    let t = s.push(x);
    assert forall|i: int, j: int| 0 <= i < t.len() && 0 <= j < t.len() && i != j implies t[i]
        != t[j] by {
        if i < s.len() && j < s.len() {
            assert(t[i] == s[i] && t[j] == s[j]);
        } else if i < s.len() {
            assert(t[i] == s[i]);
        } else if j < s.len() {
            assert(t[j] == s[j]);
        }
    }
}

/// After a batch was requested every asset of the batch is in storage, and no
/// asset leaves it.
pub proof fn lemma_requested_covers_items(
    states: Map<u128, AssetState>,
    items: Seq<u128>,
    handles_alive: Seq<bool>,
)
    requires
        items.len() == handles_alive.len(),
    ensures
        forall|i: int|
            0 <= i < items.len() ==> requested(states, items, handles_alive).contains_key(
                #[trigger] items[i],
            ),
        forall|k: u128|
            #[trigger] states.contains_key(k) ==> requested(states, items, handles_alive).contains_key(k),
{
    lemma_requested_covers_items_prefix(states, items, handles_alive);
}

/// `lemma_requested_covers_items` for a prefix whose flags are the whole
/// list's.
proof fn lemma_requested_covers_items_prefix(
    states: Map<u128, AssetState>,
    items: Seq<u128>,
    handles_alive: Seq<bool>,
)
    requires
        items.len() <= handles_alive.len(),
    ensures
        forall|i: int|
            0 <= i < items.len() ==> requested(states, items, handles_alive).contains_key(
                #[trigger] items[i],
            ),
        forall|k: u128|
            #[trigger] states.contains_key(k) ==> requested(states, items, handles_alive).contains_key(k),
    decreases items.len(),
{
    if items.len() > 0 {
        let init = items.drop_last();
        lemma_requested_covers_items_prefix(states, init, handles_alive);
        assert forall|i: int| 0 <= i < items.len() implies requested(
            states,
            items,
            handles_alive,
        ).contains_key(#[trigger] items[i]) by {
            if i < items.len() - 1 {
                assert(init[i] == items[i]);
            }
        }
    }
}

/// Only a loaded asset, or a handed-out one whose handle is alive, is ready:
/// an unknown asset and one that is queued, loading or failed never is.
pub proof fn lemma_ready_only_when_loaded(state: Option<AssetState>, handle_alive: bool)
    ensures
        is_ready_state(state, handle_alive) <==> (state is Some && (state->0 is Loaded || (
        state->0 == AssetState::HandedOut && handle_alive))),
        state is None ==> !is_ready_state(state, handle_alive),
        state == Some(AssetState::Queued) ==> !is_ready_state(state, handle_alive),
        state == Some(AssetState::Loading) ==> !is_ready_state(state, handle_alive),
        state == Some(AssetState::LoadError) ==> !is_ready_state(state, handle_alive),
{
}

/// A read hands out an asset only when it is loaded, upgrades only a handed-out
/// one, and gives nothing for an unknown asset or one that is queued, loading
/// or failed.
pub proof fn lemma_fetch_takes_only_loaded(state: Option<AssetState>)
    ensures
        (fetch_of(state) == Fetch::TakeLoaded) <==> (state is Some && state->0 is Loaded),
        (fetch_of(state) == Fetch::Upgrade) <==> state == Some(AssetState::HandedOut),
        state is None ==> fetch_of(state) == Fetch::Unavailable,
        state == Some(AssetState::Queued) ==> fetch_of(state) == Fetch::Unavailable,
        state == Some(AssetState::Loading) ==> fetch_of(state) == Fetch::Unavailable,
        state == Some(AssetState::LoadError) ==> fetch_of(state) == Fetch::Unavailable,
{
}

/// The collector drops a loaded asset exactly when more than `threshold`
/// milliseconds passed since it was loaded.
pub proof fn lemma_gc_drops_exactly_the_old(loaded_at: u64, now: u64, threshold: u64)
    ensures
        leaked(AssetState::Loaded { loaded_at }, now, threshold) <==> (now as int - loaded_at as int
            > threshold as int && now as int - loaded_at as int > 0),
        now as int - loaded_at as int > threshold as int ==> leaked(
            AssetState::Loaded { loaded_at },
            now,
            threshold,
        ),
        now as int - loaded_at as int <= threshold as int ==> !leaked(
            AssetState::Loaded { loaded_at },
            now,
            threshold,
        ),
{
}

/// A load request leaves an asset that is queued, loading or loaded as it is:
/// it is never queued twice.
pub proof fn lemma_request_load_deduplicates(state: AssetState, handle_alive: bool)
    requires
        state == AssetState::Queued || state == AssetState::Loading || state is Loaded,
    ensures
        !will_load(Some(state), handle_alive),
{
}

/// Revisions count completed loads: an asset that was never loaded has
/// revision 0, its first load gives it revision 1, and each later load one
/// more.
pub proof fn lemma_revisions_count_loads(revisions: Map<u128, u32>, uuid: u128)
    ensures
        !revisions.contains_key(uuid) ==> next_revision(revisions, uuid) == 1,
        revisions.contains_key(uuid) ==> next_revision(revisions, uuid) == revisions[uuid] + 1,
{
}

/// The garbage collector never drops an asset that was handed out, or one that
/// is not loaded yet.
pub proof fn lemma_gc_spares_handed_out_and_pending(state: AssetState, now: u64, threshold: u64)
    requires
        !(state is Loaded),
    ensures
        !leaked(state, now, threshold),
{
}

} // verus!
