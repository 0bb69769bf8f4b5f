use engine::rng::GameRng;
use engine::server::tick_event;
use engine::utils::custom_map::{CustomMap, MapKey};
use engine::{
    ClientEvent, Event, Res, Seed, ServerEvent, State, StateWrapper, UserData, UserId,
};
use std::sync::Arc;
use std::time::Duration;
use tokio::sync::{broadcast, mpsc};

#[derive(Debug, Clone, Copy, PartialEq, Eq)]
struct Idle;

#[derive(Debug, Clone, Copy, PartialEq, Eq)]
enum IdleTick {
    Tick,
}

#[derive(Debug, Clone, Copy, PartialEq, Eq)]
enum IdleAct {
    Init,
}

#[derive(Debug, Clone, Copy, PartialEq, Eq)]
struct IdleUid(u64);

#[derive(Debug, Clone, Copy, PartialEq, Eq)]
struct IdleProfile;

impl MapKey for IdleUid {
    fn key_eq(&self, other: &Self) -> bool {
        self.0 == other.0
    }
}

impl UserId for IdleUid {
    fn encode(&self) -> Vec<u8> {
        self.0.to_le_bytes().to_vec()
    }

    // Ghost trait members; never called at run time.
    fn spec_encode(self) -> vstd::seq::Seq<u8> {
        panic!()
    }

    fn lemma_encode_injective(_: Self, _: Self) {
        panic!()
    }
}

impl UserData for IdleProfile {
    fn encode(&self) -> Vec<u8> {
        Vec::new()
    }

    // Ghost trait members; never called at run time.
    fn spec_encode(self) -> vstd::seq::Seq<u8> {
        panic!()
    }

    fn lemma_encode_injective(_: Self, _: Self) {
        panic!()
    }
}

impl ServerEvent<Idle> for IdleTick {
    fn tick() -> Self {
        IdleTick::Tick
    }

    // Ghost trait member; never called at run time.
    fn spec_tick() -> Self {
        panic!()
    }
}

impl ClientEvent for IdleAct {
    fn init() -> Self {
        IdleAct::Init
    }

    // Ghost trait member; never called at run time.
    fn spec_init() -> Self {
        panic!()
    }
}

impl State for Idle {
    type ServerEvent = IdleTick;
    type ClientEvent = IdleAct;
    type UserId = IdleUid;
    type UserData = IdleProfile;

    fn duration_per_tick_ms() -> u64 {
        100
    }

    fn encode(&self) -> Vec<u8> {
        Vec::new()
    }

    fn update(
        &mut self,
        _rng: &mut GameRng,
        _event: &Event<Self>,
        _users: &CustomMap<IdleUid, IdleProfile>,
    ) {
        // A no-op domain state: ticks advance time and nothing else.
    }

    fn has_winner(&self) -> Option<IdleUid> {
        None
    }

    // Ghost trait members; never called at run time.
    fn spec_duration_per_tick_ms() -> u64 {
        panic!()
    }

    fn spec_encode(self) -> vstd::seq::Seq<u8> {
        panic!()
    }

    fn lemma_encode_injective(_: Self, _: Self) {
        panic!()
    }

    fn spec_update(
        _: Self,
        _: Event<Self>,
        _: vstd::seq::Seq<u8>,
        _: vstd::seq::Seq<(IdleUid, IdleProfile)>,
    ) -> Self {
        panic!()
    }

    fn spec_has_winner(_: Self) -> Option<IdleUid> {
        panic!()
    }
}

#[test]
fn tick_cadence() {
    let runtime = tokio::runtime::Runtime::new().unwrap();
    runtime.block_on(async {
        let (event_tx, mut event_rx) = mpsc::unbounded_channel::<Event<Idle>>();
        let (res_tx, mut res_rx) = broadcast::channel::<Arc<Res<Idle>>>(128);

        // The tick task: enqueues one server tick per period, never touching
        // state.
        let period = Duration::from_millis(Idle::duration_per_tick_ms());
        let tick_task = tokio::spawn(async move {
            let mut interval = tokio::time::interval(period);
            loop {
                interval.tick().await;
                if event_tx.send(tick_event::<Idle>()).is_err() {
                    break;
                }
            }
        });

        // The event task: the sole writer, applying events in arrival order
        // and broadcasting each applied event.
        let event_task = tokio::spawn(async move {
            let mut wrapper = StateWrapper::<Idle> { state: Idle, users: CustomMap::new() };
            while let Some(event) = event_rx.recv().await {
                let seed: Seed = rand::Rng::gen(&mut rand::thread_rng());
                let data = wrapper.advance(event, seed);
                if res_tx.send(Arc::new(Res::Event(data))).is_err() {
                    break;
                }
            }
        });

        // A subscriber counts the tick events it observes in 350 ms of wall
        // time.
        let deadline = tokio::time::Instant::now() + Duration::from_millis(350);
        let mut observed: usize = 0;
        loop {
            match tokio::time::timeout_at(deadline, res_rx.recv()).await {
                Ok(Ok(res)) => {
                    if matches!(
                        &*res,
                        Res::Event(data) if matches!(data.event, Event::ServerEvent(IdleTick::Tick))
                    ) {
                        observed += 1;
                    }
                }
                Ok(Err(_)) => break,
                Err(_) => break,
            }
        }
        tick_task.abort();
        event_task.abort();
        assert!(
            (3..=4).contains(&observed),
            "observed {} tick events in 350 ms at a 100 ms cadence",
            observed
        );
    });
}
