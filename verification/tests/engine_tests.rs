use engine::client::{ClientState, Command, EventWrapper, DESYNC_CLOSE_CODE};
use engine::rng::GameRng;
use engine::server::{
    poll_decision, request, should_teardown, sync_response, tick_event, BroadcastRecv,
    PollDecision, RequestAction, Wake,
};
use engine::utils::custom_map::{CustomMap, MapKey};
use engine::utils::entity_set::{EntityRef, EntityRefSet, EntitySet};
use engine::utils::qty::Qty;
use engine::{
    checksums_equal, ClientEvent, Error, Event, EventData, Req, Res, Seed, ServerEvent, State,
    StateWrapper, SyncData, UserData, UserId,
};
use std::str::FromStr;

#[derive(Debug, Clone, Copy, PartialEq, Eq)]
struct Counter {
    count: u64,
}

#[derive(Debug, Clone, Copy, PartialEq, Eq)]
enum Tick {
    Tick,
}

#[derive(Debug, Clone, Copy, PartialEq, Eq)]
enum Act {
    Init,
    Add(u64),
    Roll,
}

#[derive(Debug, Clone, Copy, PartialEq, Eq)]
struct Uid(u64);

#[derive(Debug, Clone, Copy, PartialEq, Eq)]
struct Profile(u64);

impl MapKey for Uid {
    fn key_eq(&self, other: &Self) -> bool {
        self.0 == other.0
    }
}

impl UserId for Uid {
    fn encode(&self) -> Vec<u8> {
        self.0.to_le_bytes().to_vec()
    }

    // Ghost trait members; never called at run time.
    fn spec_encode(self) -> vstd::seq::Seq<u8> {
        panic!()
    }

    fn lemma_encode_injective(_: Self, _: Self) {
        panic!()
    }
}

impl UserData for Profile {
    fn encode(&self) -> Vec<u8> {
        self.0.to_le_bytes().to_vec()
    }

    // Ghost trait members; never called at run time.
    fn spec_encode(self) -> vstd::seq::Seq<u8> {
        panic!()
    }

    fn lemma_encode_injective(_: Self, _: Self) {
        panic!()
    }
}

impl ServerEvent<Counter> for Tick {
    fn tick() -> Self {
        Tick::Tick
    }

    // Ghost trait member; never called at run time.
    fn spec_tick() -> Self {
        panic!()
    }
}

impl ClientEvent for Act {
    fn init() -> Self {
        Act::Init
    }

    // Ghost trait member; never called at run time.
    fn spec_init() -> Self {
        panic!()
    }
}

impl State for Counter {
    type ServerEvent = Tick;
    type ClientEvent = Act;
    type UserId = Uid;
    type UserData = Profile;

    fn duration_per_tick_ms() -> u64 {
        100
    }

    fn encode(&self) -> Vec<u8> {
        self.count.to_le_bytes().to_vec()
    }

    fn update(
        &mut self,
        rng: &mut GameRng,
        event: &Event<Self>,
        _users: &CustomMap<Uid, Profile>,
    ) {
        match event {
            Event::ServerEvent(Tick::Tick) => self.count = self.count.wrapping_add(1),
            Event::ClientEvent(Act::Init, _) => {}
            Event::ClientEvent(Act::Add(n), _) => self.count = self.count.wrapping_add(*n),
            Event::ClientEvent(Act::Roll, _) => {
                self.count = self.count.wrapping_add(rng.next_u64() % 6)
            }
        }
    }

    fn has_winner(&self) -> Option<Uid> {
        if self.count >= 100 {
            Some(Uid(1))
        } else {
            None
        }
    }

    // Ghost trait members; never called at run time.
    fn spec_duration_per_tick_ms() -> u64 {
        panic!()
    }

    fn spec_encode(self) -> vstd::seq::Seq<u8> {
        panic!()
    }

    fn lemma_encode_injective(_: Self, _: Self) {
        panic!()
    }

    fn spec_update(
        _: Self,
        _: Event<Self>,
        _: vstd::seq::Seq<u8>,
        _: vstd::seq::Seq<(Uid, Profile)>,
    ) -> Self {
        panic!()
    }

    fn spec_has_winner(_: Self) -> Option<Uid> {
        panic!()
    }
}

fn wrapper_with(count: u64, users: &[(u64, u64)]) -> StateWrapper<Counter> {
    let mut map: CustomMap<Uid, Profile> = CustomMap::new();
    for (id, data) in users {
        map.insert(Uid(*id), Profile(*data));
    }
    StateWrapper { state: Counter { count }, users: map }
}

fn fixed_seed(b: u8) -> Seed {
    [b; 32]
}

#[test]
fn checksum_idempotent() {
    let w = wrapper_with(7, &[(1, 10), (2, 20)]);
    let c1 = w.checksum();
    let c2 = w.checksum();
    assert_eq!(c1, c2);
    assert!(checksums_equal(&c1, &c2));
}

#[test]
fn checksum_sensitive_to_state() {
    let w1 = wrapper_with(7, &[(1, 10)]);
    let w2 = wrapper_with(8, &[(1, 10)]);
    assert_ne!(w1.checksum(), w2.checksum());
}

#[test]
fn checksum_sensitive_to_user_data() {
    let w1 = wrapper_with(7, &[(1, 10), (2, 20)]);
    let w2 = wrapper_with(7, &[(1, 10), (2, 21)]);
    let w3 = wrapper_with(7, &[(1, 10), (3, 20)]);
    assert_ne!(w1.checksum(), w2.checksum());
    assert_ne!(w1.checksum(), w3.checksum());
    assert_ne!(w2.checksum(), w3.checksum());
}

#[test]
fn checksum_ignores_nothing_even_late_bytes() {
    // A wrapper differing only in the last user entry still hashes apart.
    let w1 = wrapper_with(7, &[(1, 10), (2, 20), (3, 30)]);
    let w2 = wrapper_with(7, &[(1, 10), (2, 20), (3, 31)]);
    assert_ne!(w1.checksum(), w2.checksum());
}

#[test]
fn update_checked_applies_matching_event() {
    let mut w = wrapper_with(5, &[(1, 10)]);
    let data = EventData {
        event: Event::ClientEvent(Act::Add(3), Uid(1)),
        seed: fixed_seed(9),
        state_checksum: w.checksum(),
    };
    let r = w.update_checked(&data);
    assert!(r.is_ok());
    assert_eq!(w.state.count, 8);
}

#[test]
fn rejection_is_pure() {
    let mut w = wrapper_with(5, &[(1, 10)]);
    let before = w.checksum();
    let data = EventData {
        event: Event::ClientEvent(Act::Add(3), Uid(1)),
        seed: fixed_seed(9),
        state_checksum: [0xAB; 32],
    };
    let r = w.update_checked(&data);
    assert!(matches!(r, Err(Error::InvalidChecksum)));
    assert_eq!(w.state.count, 5);
    assert_eq!(w.checksum(), before);
}

#[test]
fn update_is_deterministic() {
    let mut w1 = wrapper_with(5, &[(1, 10)]);
    let mut w2 = wrapper_with(5, &[(1, 10)]);
    let seed = fixed_seed(42);
    let d1 = EventData {
        event: Event::ClientEvent(Act::Roll, Uid(1)),
        seed,
        state_checksum: w1.checksum(),
    };
    let d2 = EventData {
        event: Event::ClientEvent(Act::Roll, Uid(1)),
        seed,
        state_checksum: w2.checksum(),
    };
    assert!(w1.update_checked(&d1).is_ok());
    assert!(w2.update_checked(&d2).is_ok());
    assert_eq!(w1.state.count, w2.state.count);
    assert_eq!(w1.checksum(), w2.checksum());
}

#[test]
fn different_seeds_may_differ_but_stay_gated() {
    // Only the checksum is compared, never the seed: an event carrying the
    // right pre-state checksum applies whatever its seed.
    let mut w1 = wrapper_with(5, &[]);
    let mut w2 = wrapper_with(5, &[]);
    let d1 = EventData {
        event: Event::ClientEvent(Act::Roll, Uid(1)),
        seed: fixed_seed(1),
        state_checksum: w1.checksum(),
    };
    let d2 = EventData {
        event: Event::ClientEvent(Act::Roll, Uid(1)),
        seed: fixed_seed(2),
        state_checksum: w2.checksum(),
    };
    assert!(w1.update_checked(&d1).is_ok());
    assert!(w2.update_checked(&d2).is_ok());
    assert!(w1.state.count >= 5 && w1.state.count <= 10);
    assert!(w2.state.count >= 5 && w2.state.count <= 10);
}

#[test]
fn advance_never_rejects_and_matches_replay() {
    let mut server = wrapper_with(5, &[(1, 10)]);
    let mut mirror = wrapper_with(5, &[(1, 10)]);
    let data = server.advance(Event::ServerEvent(Tick::Tick), fixed_seed(3));
    // Replaying the same event data on an identical pre-state reproduces the
    // same post-state.
    assert!(mirror.update_checked(&data).is_ok());
    assert_eq!(server.state.count, 6);
    assert_eq!(mirror.state.count, 6);
    assert_eq!(server.checksum(), mirror.checksum());
}

#[test]
fn game_rng_is_deterministic() {
    let mut a = GameRng::from_seed(fixed_seed(7));
    let mut b = GameRng::from_seed(fixed_seed(7));
    let mut c = GameRng::from_seed(fixed_seed(8));
    let wa: Vec<u64> = (0..4).map(|_| a.next_u64()).collect();
    let wb: Vec<u64> = (0..4).map(|_| b.next_u64()).collect();
    let wc: Vec<u64> = (0..4).map(|_| c.next_u64()).collect();
    assert_eq!(wa, wb);
    assert_ne!(wa, wc);
}

#[test]
fn entity_set_identity_stability() {
    let mut set: EntitySet<u64> = EntitySet::default();
    let refs: Vec<EntityRef<u64>> = [10u64, 20, 30, 40, 50]
        .iter()
        .map(|v| set.insert(*v))
        .collect();
    assert_eq!(set.len(), 5);
    // Remove every entity whose value is divisible by 20.
    set.for_each_mut(|v: &u64| (*v, v % 20 == 0));
    assert_eq!(set.len(), 3);
    assert_eq!(set.get(&refs[0]), Some(&10));
    assert_eq!(set.get(&refs[1]), None);
    assert_eq!(set.get(&refs[2]), Some(&30));
    assert_eq!(set.get(&refs[3]), None);
    assert_eq!(set.get(&refs[4]), Some(&50));
    // Later insertions do not resurrect removed identities.
    let _new1 = set.insert(60);
    let _new2 = set.insert(80);
    assert_eq!(set.get(&refs[1]), None);
    assert_eq!(set.get(&refs[3]), None);
    assert_eq!(set.get(&refs[0]), Some(&10));
}

#[test]
fn entity_set_for_each_mut_mutates_survivors() {
    let mut set: EntitySet<u64> = EntitySet::default();
    let a = set.insert(1);
    let b = set.insert(2);
    set.for_each_mut(|v: &u64| (*v + 100, *v == 2));
    assert_eq!(set.get(&a), Some(&101));
    assert_eq!(set.get(&b), None);
}

#[test]
fn entity_ref_set_pruning() {
    let mut set: EntitySet<u64> = EntitySet::default();
    let a = set.insert(1);
    let b = set.insert(2);
    let c = set.insert(3);
    let d = set.insert(4);
    let mut index: EntityRefSet<u64> = EntityRefSet::default();
    index.insert(a);
    index.insert(b);
    index.insert(c);
    // `c` goes stale: its entity leaves the owning store before the pass.
    set.remove(&c);
    // The pass visits only the indexed entities and flags value 2.
    set.for_each_in_mut(&mut index, |v: &u64| (*v, *v == 2));
    // The derived index holds exactly the survivors.
    assert!(index.contains(&a));
    assert!(!index.contains(&b));
    assert!(!index.contains(&c));
    assert_eq!(index.len(), 1);
    // The owning store lost the flagged entity but kept the unindexed one.
    assert_eq!(set.get(&a), Some(&1));
    assert_eq!(set.get(&b), None);
    assert_eq!(set.get(&d), Some(&4));
    let present = set.iter_in(&index);
    assert_eq!(present.len(), 1);
    assert!(present[0].key_eq(&a));
}

#[test]
fn entity_ref_text_round_trip() {
    let mut set: EntitySet<u64> = EntitySet::default();
    let a = set.insert(1);
    let text = a.to_string();
    // The hyphenated form of a 128-bit identifier.
    assert_eq!(text.len(), 36);
    let parsed = EntityRef::<u64>::from_str(&text).unwrap();
    assert!(parsed.key_eq(&a));
    assert!(parsed == a);
    assert!(EntityRef::<u64>::from_str("not-a-valid-identifier").is_err());
}

#[test]
fn entity_refs_are_ordered_and_comparable() {
    let mut set: EntitySet<u64> = EntitySet::default();
    let a = set.insert(1);
    let b = set.insert(2);
    assert_eq!(a.partial_cmp(&a), Some(std::cmp::Ordering::Equal));
    let ab = a.partial_cmp(&b).unwrap();
    let ba = b.partial_cmp(&a).unwrap();
    assert_eq!(ab, ba.reverse());
    assert!(a == a);
    assert!(a != b);
}

#[derive(Debug, Clone, Copy, PartialEq, Eq)]
enum Res1 {
    A,
}

impl MapKey for Res1 {
    fn key_eq(&self, other: &Self) -> bool {
        self == other
    }
}

#[derive(Debug, Clone, Copy, PartialEq, Eq)]
enum Res2 {
    Wood,
    Stone,
}

impl MapKey for Res2 {
    fn key_eq(&self, other: &Self) -> bool {
        self == other
    }
}

#[test]
fn qty_covers_cases() {
    let empty: Qty<Res1> = Qty::default();
    let empty2: Qty<Res1> = Qty::default();
    assert!(empty.covers(&empty2));
    let five = Qty::default().with(Res1::A, 5);
    let three = Qty::default().with(Res1::A, 3);
    let two = Qty::default().with(Res1::A, 2);
    assert!(five.covers(&three));
    assert!(!two.covers(&three));
    let zero_cost = Qty::default().with(Res1::A, 0);
    let bare: Qty<Res1> = Qty::default();
    assert!(bare.covers(&zero_cost));
}

#[test]
fn qty_arithmetic() {
    let mut q: Qty<Res2> = Qty::default();
    q.add(Res2::Wood, 5);
    q.add(Res2::Wood, 2);
    assert_eq!(q.get(&Res2::Wood), 7);
    assert_eq!(q.get(&Res2::Stone), 0);
    let rhs = Qty::default().with(Res2::Wood, 1).with(Res2::Stone, 4);
    q.add_assign(&rhs);
    assert_eq!(q.get(&Res2::Wood), 8);
    assert_eq!(q.get(&Res2::Stone), 4);
    let costs = Qty::default().with(Res2::Wood, 3).with(Res2::Stone, 9);
    q.sub_assign(&costs);
    assert_eq!(q.get(&Res2::Wood), 5);
    // Subtraction saturates at zero instead of wrapping the unsigned counter.
    assert_eq!(q.get(&Res2::Stone), 0);
}

#[test]
fn request_stamps_sender_identity() {
    let action = request::<Counter>(Uid(7), Req::Event(Act::Add(2)));
    assert!(matches!(
        action,
        RequestAction::Enqueue(Event::ClientEvent(Act::Add(2), Uid(7)))
    ));
    let action = request::<Counter>(Uid(7), Req::Sync);
    assert!(matches!(action, RequestAction::RequestSync));
}

#[test]
fn tick_event_is_the_server_tick() {
    let e = tick_event::<Counter>();
    assert!(matches!(e, Event::ServerEvent(Tick::Tick)));
}

#[test]
fn poll_decision_arms() {
    assert!(matches!(
        poll_decision::<Counter>(Wake::SyncRequested),
        PollDecision::FullSync
    ));
    assert!(matches!(
        poll_decision::<Counter>(Wake::UserDataRefreshed),
        PollDecision::FullSync
    ));
    assert!(matches!(
        poll_decision::<Counter>(Wake::Broadcast(BroadcastRecv::Lagged)),
        PollDecision::FullSync
    ));
    assert!(matches!(
        poll_decision::<Counter>(Wake::Broadcast(BroadcastRecv::Closed)),
        PollDecision::End
    ));
    let data = EventData {
        event: Event::ServerEvent(Tick::Tick),
        seed: fixed_seed(0),
        state_checksum: [0; 32],
    };
    match poll_decision::<Counter>(Wake::Broadcast(BroadcastRecv::Received(Res::Event(data)))) {
        PollDecision::Respond(Res::Event(d)) => {
            assert!(matches!(d.event, Event::ServerEvent(Tick::Tick)));
        }
        _ => panic!("a received broadcast message must be yielded as it came"),
    }
}

#[test]
fn sync_response_carries_user_and_snapshot() {
    let snapshot = wrapper_with(9, &[(1, 10)]);
    let expected = snapshot.checksum();
    match sync_response::<Counter>(Uid(1), snapshot) {
        Res::Sync(SyncData { user_id, state }) => {
            assert_eq!(user_id, Uid(1));
            assert_eq!(state.state.count, 9);
            assert_eq!(state.checksum(), expected);
        }
        _ => panic!("a full synchronization must be a sync response"),
    }
}

#[test]
fn teardown_exactly_on_winner() {
    assert!(!should_teardown(&Counter { count: 99 }));
    assert!(should_teardown(&Counter { count: 100 }));
}

#[test]
fn client_open_syncs_then_initializes() {
    let mut client: ClientState<Counter> = ClientState::init();
    let cmds = client.update(EventWrapper::WebSocketOpened);
    assert_eq!(cmds.len(), 3);
    assert!(matches!(cmds[0], Command::CancelReconnect));
    assert!(matches!(cmds[1], Command::Send(Req::Sync)));
    assert!(matches!(cmds[2], Command::Send(Req::Event(Act::Init))));
    assert!(!client.reconnect_scheduled);
}

#[test]
fn client_resyncs_on_corruption() {
    // A server and a client mirror advance together through three events.
    let mut server = wrapper_with(0, &[(1, 10)]);
    let mut client: ClientState<Counter> = ClientState::init();
    let cmds = client.update(EventWrapper::InitGameState(SyncData {
        user_id: Uid(1),
        state: wrapper_with(0, &[(1, 10)]),
    }));
    assert!(cmds.is_empty());
    for i in 0..3u8 {
        let data = server.advance(Event::ServerEvent(Tick::Tick), fixed_seed(i));
        let cmds = client.update(EventWrapper::ReceiveGameEvent(data));
        assert!(cmds.is_empty());
    }
    assert_eq!(client.get_state().unwrap().count, 3);
    // A fourth event arrives with a corrupted checksum.
    let corrupted = EventData {
        event: Event::ServerEvent(Tick::Tick),
        seed: fixed_seed(9),
        state_checksum: [0xEE; 32],
    };
    let cmds = client.update(EventWrapper::ReceiveGameEvent(corrupted));
    // Exactly one sync request goes out, and the mirror is untouched.
    assert_eq!(cmds.len(), 1);
    assert!(matches!(cmds[0], Command::Send(Req::Sync)));
    assert_eq!(client.get_state().unwrap().count, 3);
}

#[test]
fn client_reconnect_dedup() {
    let mut client: ClientState<Counter> = ClientState::init();
    // An unclean close with nothing pending schedules exactly one timer.
    let cmds = client.update(EventWrapper::WebSocketClosed(false, 1006));
    assert_eq!(cmds.len(), 1);
    assert!(matches!(cmds[0], Command::ScheduleReconnect));
    assert!(client.reconnect_scheduled);
    // A second unclean close before the timer fires schedules nothing.
    let cmds = client.update(EventWrapper::WebSocketClosed(false, 1006));
    assert!(cmds.is_empty());
    assert!(client.reconnect_scheduled);
    // A socket error while pending schedules nothing either.
    let cmds = client.update(EventWrapper::WebSocketFailed);
    assert!(cmds.is_empty());
}

#[test]
fn client_clean_close_codes() {
    let mut client: ClientState<Counter> = ClientState::init();
    // A clean, ordinary close schedules nothing.
    let cmds = client.update(EventWrapper::WebSocketClosed(true, 1000));
    assert!(cmds.is_empty());
    assert!(!client.reconnect_scheduled);
    // A clean close bearing the reserved desynchronization code reconnects.
    let cmds = client.update(EventWrapper::WebSocketClosed(true, DESYNC_CLOSE_CODE));
    assert_eq!(cmds.len(), 1);
    assert!(matches!(cmds[0], Command::ScheduleReconnect));
}

#[test]
fn client_close_is_terminal() {
    let mut client: ClientState<Counter> = ClientState::init();
    client.update(EventWrapper::WebSocketFailed);
    assert!(client.reconnect_scheduled);
    let cmds = client.update(EventWrapper::CloseWebSocket);
    assert_eq!(cmds.len(), 2);
    assert!(matches!(cmds[0], Command::CancelReconnect));
    assert!(matches!(cmds[1], Command::CloseSocket));
    assert!(!client.reconnect_scheduled);
}

#[test]
fn client_reconnect_timer_rebuilds_socket() {
    let mut client: ClientState<Counter> = ClientState::init();
    client.update(EventWrapper::WebSocketFailed);
    let cmds = client.update(EventWrapper::ReconnectWebSocket(2));
    assert_eq!(cmds.len(), 1);
    assert!(matches!(cmds[0], Command::RebuildSocket));
    // Only a successful open cancels the pending reconnection.
    assert!(client.reconnect_scheduled);
    client.update(EventWrapper::WebSocketOpened);
    assert!(!client.reconnect_scheduled);
}

#[test]
fn client_user_update_replaces_mapping_only() {
    let mut client: ClientState<Counter> = ClientState::init();
    client.update(EventWrapper::InitGameState(SyncData {
        user_id: Uid(1),
        state: wrapper_with(4, &[(1, 10)]),
    }));
    assert_eq!(client.get_user_data(&Uid(1)), Some(&Profile(10)));
    assert_eq!(client.get_user_id(), Some(&Uid(1)));
    let mut new_users: CustomMap<Uid, Profile> = CustomMap::new();
    new_users.insert(Uid(1), Profile(11));
    new_users.insert(Uid(2), Profile(22));
    let cmds = client.update(EventWrapper::UserUpdate(new_users));
    assert!(cmds.is_empty());
    assert_eq!(client.get_state().unwrap().count, 4);
    assert_eq!(client.get_user_data(&Uid(1)), Some(&Profile(11)));
    assert_eq!(client.get_user_data(&Uid(2)), Some(&Profile(22)));
    assert_eq!(client.get_user_data(&Uid(3)), None);
}

#[test]
fn client_sync_replaces_mirror_wholesale() {
    let mut client: ClientState<Counter> = ClientState::init();
    client.update(EventWrapper::InitGameState(SyncData {
        user_id: Uid(1),
        state: wrapper_with(4, &[(1, 10)]),
    }));
    client.update(EventWrapper::InitGameState(SyncData {
        user_id: Uid(2),
        state: wrapper_with(77, &[(2, 5)]),
    }));
    assert_eq!(client.get_state().unwrap().count, 77);
    assert_eq!(client.get_user_id(), Some(&Uid(2)));
    assert_eq!(client.get_user_data(&Uid(1)), None);
}

#[test]
fn route_response_dispatch() {
    let data = EventData {
        event: Event::ServerEvent(Tick::Tick),
        seed: fixed_seed(0),
        state_checksum: [0; 32],
    };
    assert!(matches!(
        engine::client::route_response::<Counter>(Res::Event(data)),
        EventWrapper::ReceiveGameEvent(_)
    ));
    assert!(matches!(
        engine::client::route_response::<Counter>(Res::Sync(SyncData {
            user_id: Uid(1),
            state: wrapper_with(0, &[]),
        })),
        EventWrapper::InitGameState(_)
    ));
    assert!(matches!(
        engine::client::route_response::<Counter>(Res::UserUpdate(CustomMap::new())),
        EventWrapper::UserUpdate(_)
    ));
}

#[test]
fn custom_map_insertion_order_and_lookup() {
    let mut map: CustomMap<Uid, u64> = CustomMap::new();
    assert_eq!(map.insert(Uid(3), 30), None);
    assert_eq!(map.insert(Uid(1), 10), None);
    assert_eq!(map.insert(Uid(2), 20), None);
    assert_eq!(map.len(), 3);
    // Insertion order is preserved.
    assert!(map.entry_at(0).0.key_eq(&Uid(3)));
    assert!(map.entry_at(1).0.key_eq(&Uid(1)));
    assert!(map.entry_at(2).0.key_eq(&Uid(2)));
    // Reinserting replaces in place and hands back the old value.
    assert_eq!(map.insert(Uid(1), 11), Some(10));
    assert_eq!(map.len(), 3);
    assert!(map.entry_at(1).0.key_eq(&Uid(1)));
    assert_eq!(map.entry_at(1).1, 11u64);
    assert_eq!(map.get(&Uid(1)), Some(&11));
    assert_eq!(map.get(&Uid(9)), None);
    assert_eq!(map.swap_remove(&Uid(3)), Some(30));
    assert_eq!(map.get(&Uid(3)), None);
    assert_eq!(map.len(), 2);
}

#[test]
fn checksums_equal_is_byte_for_byte() {
    let mut a = [5u8; 32];
    let b = [5u8; 32];
    assert!(checksums_equal(&a, &b));
    a[31] = 6;
    assert!(!checksums_equal(&a, &b));
}
