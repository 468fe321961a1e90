//! The table of asset slots behind the content storage: which assets were
//! requested, which are loaded, their revision and the signal that reports the
//! end of a load.
//!
//! Reading files, decoding assets and the worker threads stay with the
//! caller; the table records what they request and deliver.

use crossbeam::channel::Receiver as ChannelReceiver;
use crossbeam::channel::TryRecvError;
use std::collections::HashMap;
use uuid::Uuid;
use vstd::prelude::*;

verus! {

broadcast use vstd::std_specs::hash::group_hash_axioms;

#[verifier::external_type_specification]
#[verifier::external_body]
#[verifier::reject_recursive_types(T)]
pub struct ExReceiver<T>(ChannelReceiver<T>);

#[verifier::external_type_specification]
#[verifier::external_body]
pub struct ExTryRecvError(TryRecvError);

/// Receiving end of the signal that a load finished.
pub type SignalRx = ChannelReceiver<()>;

/// What a look at a load signal found.
#[derive(Clone, Copy, Debug, PartialEq, Eq)]
pub enum SignalState {
    /// The load finished and nobody consumed the signal yet.
    Received,
    /// The load has not finished yet.
    Pending,
    /// The load finished and the signal was already consumed.
    Disconnected,
}

/// Calls `Receiver::try_recv` of crossbeam's channel and tells its outcomes
/// apart. The outcome depends on the loading threads, so nothing is claimed of
/// it.
#[verifier::external_body]
fn try_signal(rx: &SignalRx) -> SignalState {
    match rx.try_recv() {
        Ok(()) => SignalState::Received,
        Err(TryRecvError::Empty) => SignalState::Pending,
        Err(TryRecvError::Disconnected) => SignalState::Disconnected,
    }
}

/// Calls `Clone::clone` of crossbeam's `Receiver`: another handle to the same
/// channel (it copies the channel's pointer, or its `Arc`, and counts one more
/// receiver in the channel itself), so the handle is the same value.
#[verifier::external_body]
fn clone_receiver(rx: &SignalRx) -> (r: SignalRx)
    ensures
        r == *rx,
{
    rx.clone()
}

/// The lower-case hexadecimal digit of `n` (below 16).
pub open spec fn hex_digit(n: int) -> char {
    if n < 10 {
        ('0' as int + n) as char
    } else {
        ('a' as int + (n - 10)) as char
    }
}

/// Whether position `p` of a hyphenated UUID holds a hyphen: after the groups
/// of 8, 4, 4 and 4 digits.
pub open spec fn is_hyphen_position(p: int) -> bool {
    p == 8 || p == 13 || p == 18 || p == 23
}

/// How many hexadecimal digits come before position `p` of a hyphenated UUID.
pub open spec fn digits_before(p: int) -> int {
    if p > 23 {
        p - 4
    } else if p > 18 {
        p - 3
    } else if p > 13 {
        p - 2
    } else if p > 8 {
        p - 1
    } else {
        p
    }
}

/// The hyphenated text of the UUID with number `uuid`: its 32 hexadecimal
/// digits in lower case, most significant first, in groups of 8, 4, 4, 4
/// and 12 separated by hyphens.
pub open spec fn hyphenated_uuid(uuid: u128) -> Seq<char> {
    Seq::new(
        36,
        |p: int|
            if is_hyphen_position(p) {
                '-'
            } else {
                hex_digit(
                    (uuid as int / vstd::arithmetic::power::pow(16, (31 - digits_before(p)) as nat))
                        % 16,
                )
            },
    )
}

/// Calls `uuid::Uuid::from_u128` and writes the UUID in its hyphenated form
/// (`Uuid::to_hyphenated`, then `to_string`). The crate takes the number's
/// bytes most significant first and writes each as two lower-case hex digits,
/// with hyphens after the 8th, 12th, 16th and 20th digit: `hyphenated_uuid`.
#[verifier::external_body]
fn format_uuid(uuid: u128) -> (r: String)
    ensures
        r@ == hyphenated_uuid(uuid),
{
    Uuid::from_u128(uuid).to_hyphenated().to_string()
}

/// Name of the file that holds an asset, from its UUID's text: the text and
/// the `.bf` extension.
pub fn bf_file_name(stem: String) -> (r: String)
    ensures
        r@ == stem@ + ".bf"@,
{
    let mut name = stem;
    name.append(".bf");
    name
}

/// Name of the file that holds the asset with UUID number `uuid`, looked for
/// in each content root: the hyphenated UUID and the `.bf` extension.
pub fn asset_file_name(uuid: u128) -> (r: String)
    ensures
        r@ == hyphenated_uuid(uuid) + ".bf"@,
{
    bf_file_name(format_uuid(uuid))
}

/// State of single asset in the storage internal structure.
pub struct AssetSlot<A> {
    /// Possibly loaded asset.
    asset: Option<A>,
    revision: u64,
    rx: Option<SignalRx>,
}

impl<A> AssetSlot<A> {
    /// The loaded asset, if any.
    pub closed spec fn asset(&self) -> Option<A> {
        self.asset
    }

    /// How many times an asset was stored into this slot.
    pub closed spec fn revision(&self) -> u64 {
        self.revision
    }

    /// The signal of the latest load request, if any.
    pub closed spec fn signal(&self) -> Option<SignalRx> {
        self.rx
    }

    /// A slot for an asset whose load was just requested.
    pub fn new_empty(rx: SignalRx) -> (s: Self)
        ensures
            s.asset() is None,
            s.revision() == 0,
            s.signal() == Some(rx),
    {
        Self { asset: Option::None, revision: 0, rx: Some(rx) }
    }
}

/// Whether a thread that wants the asset has to wait for its signal: only
/// while the load is still pending.
pub fn must_wait(state: SignalState) -> (r: bool)
    ensures
        r == (state == SignalState::Pending),
{
    match state {
        SignalState::Pending => true,
        _ => false,
    }
}

/// Asset slots by asset UUID (as a 128-bit number).
pub struct AssetTable<A> {
    slots: HashMap<u128, AssetSlot<A>>,
}

impl<A> View for AssetTable<A> {
    type V = Map<u128, AssetSlot<A>>;

    closed spec fn view(&self) -> Map<u128, AssetSlot<A>> {
        self.slots@
    }
}

impl<A> AssetTable<A> {
    /// An empty table.
    pub fn new() -> (t: Self)
        ensures
            t@ == Map::<u128, AssetSlot<A>>::empty(),
    {
        AssetTable { slots: HashMap::new() }
    }

    /// Whether the asset was ever requested.
    pub fn contains(&self, uuid: u128) -> (r: bool)
        ensures
            r == self@.contains_key(uuid),
    {
        self.slots.contains_key(&uuid)
    }

    /// Records a load request: creates an empty slot, or keeps the asset and
    /// revision of an existing slot and replaces its signal.
    pub fn request(&mut self, uuid: u128, rx: SignalRx)
        ensures
            final(self)@.dom() == old(self)@.dom().insert(uuid),
            forall|other: u128|
                other != uuid && #[trigger] old(self)@.contains_key(other) ==> final(self)@[other]
                    == old(self)@[other],
            final(self)@[uuid].signal() == Some(rx),
            old(self)@.contains_key(uuid) ==> final(self)@[uuid].asset() == old(self)@[uuid].asset()
                && final(self)@[uuid].revision() == old(self)@[uuid].revision(),
            !old(self)@.contains_key(uuid) ==> final(self)@[uuid].asset() is None
                && final(self)@[uuid].revision() == 0,
    {
        match self.slots.remove(&uuid) {
            Some(slot) => {
                let updated = AssetSlot { asset: slot.asset, revision: slot.revision, rx: Some(rx) };
                self.slots.insert(uuid, updated);
            },
            None => {
                self.slots.insert(uuid, AssetSlot::new_empty(rx));
            },
        }
        proof {
            assert(self@.dom() =~= old(self)@.dom().insert(uuid));
        }
    }

    /// Number of times an asset was stored for `uuid` (0 for an unknown asset).
    pub fn revision(&self, uuid: u128) -> (r: u64)
        ensures
            r == (if self@.contains_key(uuid) {
                self@[uuid].revision()
            } else {
                0
            }),
    {
        match self.slots.get(&uuid) {
            Some(slot) => slot.revision,
            None => 0,
        }
    }

    /// Stores a freshly loaded asset into its (requested) slot and counts one
    /// more revision.
    pub fn store_loaded(&mut self, uuid: u128, asset: A)
        requires
            old(self)@.contains_key(uuid),
            old(self)@[uuid].revision() < u64::MAX,
        ensures
            final(self)@.dom() == old(self)@.dom(),
            forall|other: u128|
                other != uuid && #[trigger] old(self)@.contains_key(other) ==> final(self)@[other]
                    == old(self)@[other],
            final(self)@[uuid].asset() == Some(asset),
            final(self)@[uuid].revision() == old(self)@[uuid].revision() + 1,
            final(self)@[uuid].signal() == old(self)@[uuid].signal(),
    {
        let slot = self.slots.remove(&uuid).unwrap();
        let updated = AssetSlot { asset: Some(asset), revision: slot.revision + 1, rx: slot.rx };
        self.slots.insert(uuid, updated);
        proof {
            assert(self@.dom() =~= old(self)@.dom());
        }
    }

    /// The loaded asset, if the asset was requested and is loaded.
    pub fn get(&self, uuid: u128) -> (r: Option<&A>)
        ensures
            r == (if self@.contains_key(uuid) && self@[uuid].asset() is Some {
                Some(&self@[uuid].asset()->0)
            } else {
                None
            }),
    {
        match self.slots.get(&uuid) {
            Some(slot) => match &slot.asset {
                Some(a) => Some(a),
                None => None,
            },
            None => None,
        }
    }

    /// Looks at the load signal of the asset: the state the look found (`None`
    /// when the asset has no slot or its slot has no signal), and the signal
    /// to wait on, handed out exactly when the load was found pending.
    pub fn observe_signal(&self, uuid: u128) -> (r: (Option<SignalRx>, Option<SignalState>))
        ensures
            r.1 is None <==> !self@.contains_key(uuid) || self@[uuid].signal() is None,
            r.0 is Some <==> r.1 == Some(SignalState::Pending),
            r.0 is Some ==> r.0 == self@[uuid].signal(),
    {
        match self.slots.get(&uuid) {
            None => (None, None),
            Some(slot) => match &slot.rx {
                None => (None, None),
                Some(rx) => {
                    let state = try_signal(rx);
                    if must_wait(state) {
                        (Some(clone_receiver(rx)), Some(state))
                    } else {
                        (None, Some(state))
                    }
                },
            },
        }
    }

    /// The signal to wait on before the asset can be read: present only when
    /// the asset has a load signal and its load is still pending.
    pub fn receiver_to_wait_on(&self, uuid: u128) -> (r: Option<SignalRx>)
        ensures
            r is Some ==> self@.contains_key(uuid) && r == self@[uuid].signal(),
            !self@.contains_key(uuid) ==> r is None,
            self@.contains_key(uuid) && self@[uuid].signal() is None ==> r is None,
    {
        self.observe_signal(uuid).0
    }
}

/// What `get` gives back for `uuid` from a table with slots `t`.
pub open spec fn read_back<A>(t: Map<u128, AssetSlot<A>>, uuid: u128) -> Option<A> {
    if t.contains_key(uuid) && t[uuid].asset() is Some {
        t[uuid].asset()
    } else {
        None
    }
}

/// Reading an asset back after storing it gives the stored asset, with a
/// newer revision; a later request of the same asset keeps it readable.
pub proof fn lemma_store_then_get<A>(
    before: Map<u128, AssetSlot<A>>,
    stored: Map<u128, AssetSlot<A>>,
    requested: Map<u128, AssetSlot<A>>,
    uuid: u128,
    asset: A,
)
    requires
        before.contains_key(uuid),
        stored.dom() == before.dom(),
        stored[uuid].asset() == Some(asset),
        stored[uuid].revision() == before[uuid].revision() + 1,
        requested.dom() == stored.dom().insert(uuid),
        stored.contains_key(uuid) ==> requested[uuid].asset() == stored[uuid].asset()
            && requested[uuid].revision() == stored[uuid].revision(),
    ensures
        read_back(stored, uuid) == Some(asset),
        read_back(requested, uuid) == Some(asset),
        stored[uuid].revision() > before[uuid].revision(),
{
}

} // verus!
