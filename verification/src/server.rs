use vstd::prelude::*;

use crate::{Event, Req, Res, ServerEvent, State, StateWrapper, SyncData};

verus! {

/// Failure to connect to a game: no live game carries the given identifier.
#[derive(Debug, Clone, Copy, PartialEq, Eq, Structural)]
pub enum Error {
    GameNotFound,
}

/// What the connection layer does with one client request.
pub enum RequestAction<S: State> {
    /// Push this event onto the game's shared event queue, fire-and-forget.
    Enqueue(Event<S>),
    /// Set the per-connection sync notification, answered out-of-band.
    RequestSync,
}

/// The request half of the connection protocol: a client event is stamped
/// with the sender's own identity — the client cannot speak for anyone else —
/// and enqueued without acknowledgment; a sync request only sets the
/// per-connection notification.
pub fn request<S: State>(user_id: S::UserId, req: Req<S>) -> (r: RequestAction<S>)
    ensures
        r == match req {
            Req::Event(e) => RequestAction::<S>::Enqueue(Event::ClientEvent(e, user_id)),
            Req::Sync => RequestAction::<S>::RequestSync,
        },
{
    match req {
        Req::Event(e) => RequestAction::Enqueue(Event::ClientEvent(e, user_id)),
        Req::Sync => RequestAction::RequestSync,
    }
}

/// The tick task's one decision: the event enqueued on each period.  The tick
/// task never reads or writes state.
pub fn tick_event<S: State>() -> (e: Event<S>)
    ensures
        e == Event::<S>::ServerEvent(S::ServerEvent::spec_tick()),
{
    Event::ServerEvent(<S::ServerEvent as ServerEvent<S>>::tick())
}

/// What a broadcast receiver got on one wake: a message, a lag report (the
/// receiver fell behind and messages were dropped), or the channel's end (the
/// game was torn down).
pub enum BroadcastRecv<S: State> {
    Received(Res<S>),
    Lagged,
    Closed,
}

/// One wake of a connection's response stream: whichever of the three racing
/// sources fired first.
pub enum Wake<S: State> {
    /// The connection's own sync request.
    SyncRequested,
    /// The shared "user data refreshed" notification.
    UserDataRefreshed,
    /// The next broadcast message, or the channel's report.
    Broadcast(BroadcastRecv<S>),
}

/// What the response stream does after one wake.
pub enum PollDecision<S: State> {
    /// Yield this response as it came.
    Respond(Res<S>),
    /// Yield a full synchronization, read under the shared lock.
    FullSync,
    /// End the stream.
    End,
}

/// The response half of the connection protocol.  A sync request and a
/// user-data refresh are both answered with a full sync — the protocol
/// deliberately does not distinguish "data changed" from "please resync".  A
/// lag report is healed the same way instead of surfacing a gap.  A closed
/// broadcast ends the stream.
pub fn poll_decision<S: State>(wake: Wake<S>) -> (d: PollDecision<S>)
    ensures
        d == match wake {
            Wake::SyncRequested => PollDecision::<S>::FullSync,
            Wake::UserDataRefreshed => PollDecision::<S>::FullSync,
            Wake::Broadcast(BroadcastRecv::Received(res)) => PollDecision::<S>::Respond(res),
            Wake::Broadcast(BroadcastRecv::Lagged) => PollDecision::<S>::FullSync,
            Wake::Broadcast(BroadcastRecv::Closed) => PollDecision::<S>::End,
        },
{
    match wake {
        Wake::SyncRequested => PollDecision::FullSync,
        Wake::UserDataRefreshed => PollDecision::FullSync,
        Wake::Broadcast(BroadcastRecv::Received(res)) => PollDecision::Respond(res),
        Wake::Broadcast(BroadcastRecv::Lagged) => PollDecision::FullSync,
        Wake::Broadcast(BroadcastRecv::Closed) => PollDecision::End,
    }
}

/// The full-synchronization response for one user: the whole snapshot, tagged
/// with that user's identity so the client knows who it is.
pub fn sync_response<S: State>(user_id: S::UserId, snapshot: StateWrapper<S>) -> (r: Res<S>)
    ensures
        r == (Res::<S>::Sync(SyncData { user_id, state: snapshot })),
{
    Res::Sync(SyncData { user_id, state: snapshot })
}

/// The persistence task's teardown decision: after a successful save, the
/// game is torn down exactly when the saved state reports a winner.  This is
/// the only teardown path.
pub fn should_teardown<S: State>(state: &S) -> (r: bool)
    ensures
        r == (S::spec_has_winner(*state) is Some),
{
    state.has_winner().is_some()
}

} // verus!
