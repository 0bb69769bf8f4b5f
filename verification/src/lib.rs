pub mod client;
pub mod codec;
pub mod i18n;
pub mod rng;
pub mod server;
pub mod utils;

use vstd::prelude::*;

use crate::codec::{
    append_framed, lemma_encode_pairs_injective, lemma_framed_prefix, sha256_digest, sha256_of,
    spec_encode_pairs, spec_framed,
};
use crate::rng::GameRng;
use crate::utils::custom_map::{CustomMap, MapKey};
use vstd::bytes::{spec_u64_to_le_bytes, u64_to_le_bytes};

verus! {

/// A 32-byte value used to seed the deterministic random source of one update.
pub type Seed = [u8; 32];

/// A 32-byte digest of the full state wrapper, used as a consistency gate.
pub type Checksum = [u8; 32];

/// Identifier of one running simulation instance; the key into the live-games
/// registry.
pub type GameId = u64;

/// Position of an event in a game's total application order.
pub type EventIndex = u64;

/// Failure of the checksum gate: an event was applied against a state whose
/// checksum differs from the one the event was built for.
#[derive(Debug, Clone, Copy, PartialEq, Eq, Structural)]
pub enum Error {
    InvalidChecksum,
}

/// Byte-for-byte equality of two checksums.
pub fn checksums_equal(a: &Checksum, b: &Checksum) -> (r: bool)
    ensures
        r <==> a@ == b@,
{
    let mut i: usize = 0;
    while i < 32
        invariant
            i <= 32,
            forall|j: int| 0 <= j < i ==> a@[j] == b@[j],
        decreases 32 - i,
    {
        if a[i] != b[i] {
            assert(a@[i as int] != b@[i as int]);
            assert(a@ != b@);
            return false;
        }
        i += 1;
    }
    assert(a@ =~= b@);
    true
}

/// A user's identity inside a simulation: comparable, and canonically
/// encodable for the checksum.
pub trait UserId: Sized + MapKey {
    /// The canonical byte encoding; the checksum is computed over it.
    spec fn spec_encode(self) -> Seq<u8>;

    fn encode(&self) -> (r: Vec<u8>)
        ensures
            r@ == self.spec_encode(),
    ;

    /// The canonical encoding tells identities apart.
    proof fn lemma_encode_injective(a: Self, b: Self)
        ensures
            a.spec_encode() == b.spec_encode() ==> a == b,
    ;
}

/// Per-user data carried beside the simulation state and covered by the same
/// checksum.
pub trait UserData: Sized {
    /// The canonical byte encoding; the checksum is computed over it.
    spec fn spec_encode(self) -> Seq<u8>;

    fn encode(&self) -> (r: Vec<u8>)
        ensures
            r@ == self.spec_encode(),
    ;

    /// The canonical encoding tells values apart.
    proof fn lemma_encode_injective(a: Self, b: Self)
        ensures
            a.spec_encode() == b.spec_encode() ==> a == b,
    ;
}

/// A server-originated event for the simulation `S`; its one required
/// constructor is the periodic tick.
pub trait ServerEvent<S>: Sized {
    /// The tick value, fixed per simulation.
    spec fn spec_tick() -> Self;

    fn tick() -> (r: Self)
        ensures
            r == Self::spec_tick(),
    ;
}

/// A client-originated event; its one required constructor is the
/// initialization event a client sends after (re)connecting.
pub trait ClientEvent: Sized {
    /// The initialization value, fixed per simulation.
    spec fn spec_init() -> Self;

    fn init() -> (r: Self)
        ensures
            r == Self::spec_init(),
    ;
}

/// The capability contract of a simulation: a fixed tick cadence, a canonical
/// state encoding, and a deterministic update.  The update's contract is what
/// makes a state transition a pure function of (pre-state, event, seed, user
/// data), so that replaying the same triple reproduces the same post-state on
/// any conforming implementation.
pub trait State: Sized + Clone {
    type ServerEvent: ServerEvent<Self> + Clone;

    type ClientEvent: ClientEvent + Clone;

    type UserId: UserId + Clone;

    type UserData: UserData + Clone;

    /// The fixed tick period, in milliseconds.
    spec fn spec_duration_per_tick_ms() -> u64;

    fn duration_per_tick_ms() -> (r: u64)
        ensures
            r == Self::spec_duration_per_tick_ms(),
    ;

    /// The canonical byte encoding of the domain state.
    spec fn spec_encode(self) -> Seq<u8>;

    fn encode(&self) -> (r: Vec<u8>)
        ensures
            r@ == self.spec_encode(),
    ;

    /// The canonical encoding tells states apart.
    proof fn lemma_encode_injective(a: Self, b: Self)
        ensures
            a.spec_encode() == b.spec_encode() ==> a == b,
    ;

    /// The post-state of one update, as a pure function of the pre-state, the
    /// event, the seed and the user-data entries.
    spec fn spec_update(
        pre: Self,
        event: Event<Self>,
        seed: Seq<u8>,
        users: Seq<(Self::UserId, Self::UserData)>,
    ) -> Self;

    /// Applies one event.  `rng` is a fresh deterministic source seeded for
    /// this event; the post-state may depend on the seed only through it.
    fn update(
        &mut self,
        rng: &mut GameRng,
        event: &Event<Self>,
        users: &CustomMap<Self::UserId, Self::UserData>,
    )
        requires
            old(rng).spec_drawn() == 0,
        ensures
            *final(self) == Self::spec_update(*old(self), *event, old(rng).spec_seed(), users@),
    ;

    /// The terminal condition: the winner once one is decided.  Reported by
    /// the state itself; the orchestrator tears the game down after the first
    /// save in which this is `Some`.
    spec fn spec_has_winner(s: Self) -> Option<Self::UserId>;

    fn has_winner(&self) -> (r: Option<Self::UserId>)
        ensures
            r == Self::spec_has_winner(*self),
    ;
}

/// An event in a game's total order: a server tick, or a client event stamped
/// with the issuing user's identity.
pub enum Event<S: State> {
    ServerEvent(S::ServerEvent),
    ClientEvent(S::ClientEvent, S::UserId),
}

/// The unit that is checksum-verified and applied: an event, the seed chosen
/// for it by the orchestrator, and the checksum of the state it was built
/// against.  Immutable once constructed.
pub struct EventData<S: State> {
    pub event: Event<S>,
    pub seed: Seed,
    pub state_checksum: Checksum,
}

/// A wire-level request from a client: an event to enqueue, or a plea for a
/// full synchronization.
pub enum Req<S: State> {
    Event(S::ClientEvent),
    Sync,
}

/// A wire-level response to a client: a full snapshot, one applied event, or
/// a replacement user-data mapping.
pub enum Res<S: State> {
    Sync(SyncData<S>),
    Event(EventData<S>),
    UserUpdate(CustomMap<S::UserId, S::UserData>),
}

/// A full snapshot sent to (re)synchronize one user, tagged with that user's
/// own identity so the client knows who it is.
pub struct SyncData<S: State> {
    pub user_id: S::UserId,
    pub state: StateWrapper<S>,
}

/// The unit the checksum covers: the domain state together with the whole
/// user-data mapping.  The two never evolve independently as far as external
/// consumers can observe.
pub struct StateWrapper<S: State> {
    pub state: S,
    pub users: CustomMap<S::UserId, S::UserData>,
}

impl<S: State> Clone for Event<S> {
    fn clone(&self) -> Self {
        match self {
            Event::ServerEvent(e) => Event::ServerEvent(e.clone()),
            Event::ClientEvent(e, u) => Event::ClientEvent(e.clone(), u.clone()),
        }
    }
}

impl<S: State> Clone for EventData<S> {
    fn clone(&self) -> Self {
        EventData { event: self.event.clone(), seed: self.seed, state_checksum: self.state_checksum }
    }
}

impl<S: State> Clone for Req<S> {
    fn clone(&self) -> Self {
        match self {
            Req::Event(e) => Req::Event(e.clone()),
            Req::Sync => Req::Sync,
        }
    }
}

impl<S: State> Clone for StateWrapper<S> {
    fn clone(&self) -> Self {
        StateWrapper { state: self.state.clone(), users: self.users.clone() }
    }
}

impl<S: State> Clone for SyncData<S> {
    fn clone(&self) -> Self {
        SyncData { user_id: self.user_id.clone(), state: self.state.clone() }
    }
}

impl<S: State> Clone for Res<S> {
    fn clone(&self) -> Self {
        match self {
            Res::Sync(sync) => Res::Sync(sync.clone()),
            Res::Event(data) => Res::Event(data.clone()),
            Res::UserUpdate(map) => Res::UserUpdate(map.clone()),
        }
    }
}

/// The canonical encodings of the user-data entries, in storage order.
pub open spec fn spec_user_pairs<S: State>(
    entries: Seq<(S::UserId, S::UserData)>,
) -> Seq<(Seq<u8>, Seq<u8>)> {
    entries.map_values(|p: (S::UserId, S::UserData)| (p.0.spec_encode(), p.1.spec_encode()))
}

impl<S: State> StateWrapper<S> {
    /// User identities are pairwise distinct.
    pub open spec fn wf(&self) -> bool {
        self.users.wf()
    }

    /// The canonical, deterministic serialization of the full wrapper: the
    /// framed state encoding, the user count, then each user entry framed.
    pub open spec fn spec_bytes(self) -> Seq<u8> {
        spec_framed(self.state.spec_encode()) + spec_u64_to_le_bytes(self.users@.len() as u64)
            + spec_encode_pairs(spec_user_pairs::<S>(self.users@))
    }

    /// The checksum: the SHA-256 digest of the canonical serialization.
    pub open spec fn spec_checksum(self) -> Seq<u8> {
        sha256_of(self.spec_bytes())
    }

    /// The wrapper after applying `data`: the state advances by the
    /// deterministic update, the user-data mapping stays.
    pub open spec fn spec_apply(self, data: EventData<S>) -> StateWrapper<S> {
        StateWrapper {
            state: S::spec_update(self.state, data.event, data.seed@, self.users@),
            users: self.users,
        }
    }

    /// The canonical serialization of the full wrapper.
    pub fn encode_bytes(&self) -> (r: Vec<u8>)
        ensures
            r@ == self.spec_bytes(),
    {
        let mut out: Vec<u8> = Vec::new();
        append_framed(&mut out, self.state.encode());
        let n = self.users.len();
        let mut count_bytes = u64_to_le_bytes(n as u64);
        out.append(&mut count_bytes);
        let ghost header = out@;
        let mut i: usize = 0;
        while i < n
            invariant
                n == self.users@.len(),
                i <= n,
                out@ == header + spec_encode_pairs(
                    spec_user_pairs::<S>(self.users@.subrange(0, i as int)),
                ),
            decreases n - i,
        {
            let ghost pre_pairs = spec_user_pairs::<S>(self.users@.subrange(0, i as int));
            let entry = self.users.entry_at(i);
            append_framed(&mut out, entry.0.encode());
            append_framed(&mut out, entry.1.encode());
            proof {
                let p = (self.users@[i as int].0.spec_encode(), self.users@[i as int].1.spec_encode());
                crate::codec::lemma_encode_pairs_snoc(pre_pairs, p);
                assert(spec_user_pairs::<S>(self.users@.subrange(0, i + 1 as int)) =~= pre_pairs.push(p));
            }
            i += 1;
        }
        proof {
            assert(self.users@.subrange(0, n as int) =~= self.users@);
        }
        out
    }

    /// Computes the checksum of the current wrapper.  Identical content gives
    /// an identical checksum; different content gives a different canonical
    /// serialization (see [`lemma_encoding_injective`]), and so, within the
    /// collision bound of SHA-256, a different checksum.
    pub fn checksum(&self) -> (r: Checksum)
        ensures
            r@ == self.spec_checksum(),
    {
        let bytes = self.encode_bytes();
        sha256_digest(&bytes)
    }

    /// The checksum-gated update law shared by server and client: recompute
    /// the checksum of the current wrapper; on a mismatch with
    /// `data.state_checksum`, fail with [`Error::InvalidChecksum`] and leave
    /// the wrapper untouched; on a match, apply the deterministic update
    /// seeded from `data.seed`.
    pub fn update_checked(&mut self, data: &EventData<S>) -> (r: Result<(), Error>)
        ensures
            match r {
                Ok(()) => {
                    &&& old(self).spec_checksum() == data.state_checksum@
                    &&& *final(self) == old(self).spec_apply(*data)
                },
                Err(Error::InvalidChecksum) => {
                    &&& old(self).spec_checksum() != data.state_checksum@
                    &&& *final(self) == *old(self)
                },
            },
    {
        let checksum = self.checksum();
        if !checksums_equal(&checksum, &data.state_checksum) {
            return Err(Error::InvalidChecksum);
        }
        let mut rng = GameRng::from_seed(data.seed);
        self.state.update(&mut rng, &data.event, &self.users);
        Ok(())
    }

    /// One step of the event task: builds an [`EventData`] from the event,
    /// the seed the orchestrator chose, and the current checksum, then
    /// applies it.  Because the checksum in the bundle is the checksum of the
    /// pre-state itself, `update_checked` never returns
    /// [`Error::InvalidChecksum`] here; a rejection inside the orchestrator
    /// is an impossibility, not an error path.
    pub fn advance(&mut self, event: Event<S>, seed: Seed) -> (data: EventData<S>)
        ensures
            data.event == event,
            data.seed == seed,
            data.state_checksum@ == old(self).spec_checksum(),
            *final(self) == old(self).spec_apply(data),
    {
        let state_checksum = self.checksum();
        let data = EventData { event, seed, state_checksum };
        let r = self.update_checked(&data);
        proof {
            assert(r is Ok);
        }
        data
    }
}

/// Determinism of the checksum-gated update: any two outcomes that meet
/// `update_checked`'s contract from equal pre-states and identical event data
/// agree — they succeed or fail together, and leave identical post-states.
pub proof fn lemma_update_checked_deterministic<S: State>(
    pre: StateWrapper<S>,
    data: EventData<S>,
    post1: StateWrapper<S>,
    ok1: bool,
    post2: StateWrapper<S>,
    ok2: bool,
)
    requires
        ok1 ==> pre.spec_checksum() == data.state_checksum@ && post1 == pre.spec_apply(data),
        !ok1 ==> pre.spec_checksum() != data.state_checksum@ && post1 == pre,
        ok2 ==> pre.spec_checksum() == data.state_checksum@ && post2 == pre.spec_apply(data),
        !ok2 ==> pre.spec_checksum() != data.state_checksum@ && post2 == pre,
    ensures
        ok1 == ok2,
        post1 == post2,
{
}

/// Checksum idempotence: two checksum computations over the same wrapper,
/// with no mutation between them, give the same digest.
pub proof fn lemma_checksum_idempotent<S: State>(w: StateWrapper<S>, c1: Seq<u8>, c2: Seq<u8>)
    requires
        c1 == w.spec_checksum(),
        c2 == w.spec_checksum(),
    ensures
        c1 == c2,
{
}

/// Checksum sensitivity, up to the hash: the canonical serialization tells
/// wrappers apart, so any change to `state` or `users` changes the bytes the
/// checksum is computed over.  A digest collision between different bytes is
/// the only way two different wrappers can share a checksum.
pub proof fn lemma_encoding_injective<S: State>(w1: StateWrapper<S>, w2: StateWrapper<S>)
    requires
        w1.state.spec_encode().len() <= u64::MAX,
        w2.state.spec_encode().len() <= u64::MAX,
        w1.users@.len() <= u64::MAX,
        w2.users@.len() <= u64::MAX,
        forall|i: int|
            0 <= i < w1.users@.len() ==> (#[trigger] w1.users@[i]).0.spec_encode().len()
                <= u64::MAX && w1.users@[i].1.spec_encode().len() <= u64::MAX,
        forall|i: int|
            0 <= i < w2.users@.len() ==> (#[trigger] w2.users@[i]).0.spec_encode().len()
                <= u64::MAX && w2.users@[i].1.spec_encode().len() <= u64::MAX,
        w1.spec_bytes() == w2.spec_bytes(),
    ensures
        w1.state == w2.state,
        w1.users@ == w2.users@,
{
    vstd::bytes::lemma_auto_spec_u64_to_from_le_bytes();
    let tail1 = spec_u64_to_le_bytes(w1.users@.len() as u64) + spec_encode_pairs(
        spec_user_pairs::<S>(w1.users@),
    );
    let tail2 = spec_u64_to_le_bytes(w2.users@.len() as u64) + spec_encode_pairs(
        spec_user_pairs::<S>(w2.users@),
    );
    assert(spec_framed(w1.state.spec_encode()) + tail1 =~= w1.spec_bytes());
    assert(spec_framed(w2.state.spec_encode()) + tail2 =~= w2.spec_bytes());
    lemma_framed_prefix(w1.state.spec_encode(), tail1, w2.state.spec_encode(), tail2);
    S::lemma_encode_injective(w1.state, w2.state);
    assert(spec_u64_to_le_bytes(w1.users@.len() as u64) =~= tail1.subrange(0, 8));
    assert(spec_u64_to_le_bytes(w2.users@.len() as u64) =~= tail1.subrange(0, 8));
    assert(w1.users@.len() == w2.users@.len());
    assert(spec_encode_pairs(spec_user_pairs::<S>(w1.users@)) =~= tail1.subrange(
        8,
        tail1.len() as int,
    ));
    assert(spec_encode_pairs(spec_user_pairs::<S>(w2.users@)) =~= tail1.subrange(
        8,
        tail1.len() as int,
    ));
    lemma_encode_pairs_injective(
        spec_user_pairs::<S>(w1.users@),
        spec_user_pairs::<S>(w2.users@),
    );
    assert forall|i: int| 0 <= i < w1.users@.len() implies w1.users@[i] == w2.users@[i] by {
        assert(spec_user_pairs::<S>(w1.users@)[i] == spec_user_pairs::<S>(w2.users@)[i]);
        S::UserId::lemma_encode_injective(w1.users@[i].0, w2.users@[i].0);
        S::UserData::lemma_encode_injective(w1.users@[i].1, w2.users@[i].1);
        assert((w1.users@[i].0, w1.users@[i].1) == (w2.users@[i].0, w2.users@[i].1));
    }
    assert(w1.users@ =~= w2.users@);
}

} // verus!
