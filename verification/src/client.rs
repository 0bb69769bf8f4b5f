use vstd::prelude::*;

use crate::utils::custom_map::CustomMap;
use crate::{ClientEvent, Error, EventData, Req, Res, State, SyncData};

verus! {

/// The reserved application-level close code meaning "you are desynchronized,
/// do not assume continuity".
pub const DESYNC_CLOSE_CODE: u16 = 4000;

/// The client-side mirror of one game: the last synchronized snapshot (absent
/// until the first full sync arrives) and whether a backoff reconnection is
/// scheduled.
pub struct ClientState<S: State> {
    /// The locally mirrored snapshot, replaced wholesale on every full sync.
    pub state: Option<SyncData<S>>,
    /// True while one exponential-backoff reconnection stream is pending.
    pub reconnect_scheduled: bool,
}

/// An input to the client state machine: a socket lifecycle notification, a
/// user action, or a decoded server response.
pub enum EventWrapper<S: State> {
    /// The socket is open.
    WebSocketOpened,
    /// The user asked to close the connection for good.
    CloseWebSocket,
    /// The socket closed: whether the closure was clean, and the close code.
    WebSocketClosed(bool, u16),
    /// The socket reported an error.
    WebSocketFailed,
    /// The backoff timer fired; the payload is the attempt count.
    ReconnectWebSocket(usize),
    /// The user wants this event sent to the server.
    SendGameEvent(S::ClientEvent),
    /// The server broadcast one applied event.
    ReceiveGameEvent(EventData<S>),
    /// The server sent a full snapshot.
    InitGameState(SyncData<S>),
    /// The server sent a replacement user-data mapping.
    UserUpdate(CustomMap<S::UserId, S::UserData>),
}

/// An action the socket layer must carry out after one step of the state
/// machine.
pub enum Command<S: State> {
    /// Encode and send this request over the socket.
    Send(Req<S>),
    /// Drop the pending reconnection stream, if any.
    CancelReconnect,
    /// Close the socket.
    CloseSocket,
    /// Schedule one exponential-backoff reconnection stream.
    ScheduleReconnect,
    /// Rebuild the socket from scratch.
    RebuildSocket,
}

/// Whether a socket closure calls for a reconnection: any unclean closure,
/// and a clean one bearing the reserved desynchronization code.
pub open spec fn spec_wants_reconnect(clean: bool, code: u16) -> bool {
    !clean || code == DESYNC_CLOSE_CODE
}

/// The mirror after one step: a full sync replaces it wholesale, a verified
/// event advances it, a failed verification leaves it untouched, a user-data
/// update replaces only the mapping.
pub open spec fn spec_step_mirror<S: State>(
    pre: ClientState<S>,
    msg: EventWrapper<S>,
) -> Option<SyncData<S>> {
    match msg {
        EventWrapper::InitGameState(sync) => Some(sync),
        EventWrapper::ReceiveGameEvent(data) => match pre.state {
            Some(sd) => if sd.state.spec_checksum() == data.state_checksum@ {
                Some(SyncData { user_id: sd.user_id, state: sd.state.spec_apply(data) })
            } else {
                Some(sd)
            },
            None => None,
        },
        EventWrapper::UserUpdate(map) => match pre.state {
            Some(sd) => Some(
                SyncData {
                    user_id: sd.user_id,
                    state: crate::StateWrapper { state: sd.state.state, users: map },
                },
            ),
            None => None,
        },
        _ => pre.state,
    }
}

/// The reconnection flag after one step: opening or intentionally closing the
/// socket cancels any pending reconnection; an unclean closure or an error
/// schedules one unless one is already pending.
pub open spec fn spec_step_reconnect<S: State>(pre: ClientState<S>, msg: EventWrapper<S>) -> bool {
    match msg {
        EventWrapper::WebSocketOpened => false,
        EventWrapper::CloseWebSocket => false,
        EventWrapper::WebSocketClosed(clean, code) => pre.reconnect_scheduled
            || spec_wants_reconnect(clean, code),
        EventWrapper::WebSocketFailed => true,
        _ => pre.reconnect_scheduled,
    }
}

/// The commands one step hands to the socket layer.  A fresh connection never
/// assumes continuity: on open, a sync request goes out first, then the
/// client-initialization event.  A checksum mismatch on a received event
/// sends exactly one sync request.
pub open spec fn spec_step_cmds<S: State>(
    pre: ClientState<S>,
    msg: EventWrapper<S>,
) -> Seq<Command<S>> {
    match msg {
        EventWrapper::WebSocketOpened => seq![
            Command::CancelReconnect,
            Command::Send(Req::Sync),
            Command::Send(Req::Event(S::ClientEvent::spec_init())),
        ],
        EventWrapper::CloseWebSocket => seq![Command::CancelReconnect, Command::CloseSocket],
        EventWrapper::WebSocketClosed(clean, code) => if spec_wants_reconnect(clean, code)
            && !pre.reconnect_scheduled {
            seq![Command::ScheduleReconnect]
        } else {
            Seq::empty()
        },
        EventWrapper::WebSocketFailed => if !pre.reconnect_scheduled {
            seq![Command::ScheduleReconnect]
        } else {
            Seq::empty()
        },
        EventWrapper::ReconnectWebSocket(_) => seq![Command::RebuildSocket],
        EventWrapper::SendGameEvent(e) => seq![Command::Send(Req::Event(e))],
        EventWrapper::ReceiveGameEvent(data) => match pre.state {
            Some(sd) => if sd.state.spec_checksum() == data.state_checksum@ {
                Seq::empty()
            } else {
                seq![Command::Send(Req::Sync)]
            },
            None => Seq::empty(),
        },
        EventWrapper::InitGameState(_) => Seq::empty(),
        EventWrapper::UserUpdate(_) => Seq::empty(),
    }
}

/// User-data mappings carried by an input have distinct keys.
pub open spec fn spec_msg_wf<S: State>(msg: EventWrapper<S>) -> bool {
    match msg {
        EventWrapper::InitGameState(sync) => sync.state.wf(),
        EventWrapper::UserUpdate(map) => map.wf(),
        _ => true,
    }
}

impl<S: State> ClientState<S> {
    /// The mirrored user-data mapping, if any, has distinct keys.
    pub open spec fn wf(&self) -> bool {
        match self.state {
            Some(sd) => sd.state.wf(),
            None => true,
        }
    }

    /// A fresh client: no mirrored state, no reconnection pending.  The
    /// socket layer builds its first socket beside this.
    pub fn init() -> (r: Self)
        ensures
            r.state is None,
            !r.reconnect_scheduled,
            r.wf(),
    {
        ClientState { state: None, reconnect_scheduled: false }
    }

    /// The mirrored domain state, if any.
    pub fn get_state(&self) -> (r: Option<&S>)
        ensures
            match r {
                Some(s) => self.state matches Some(sd) && *s == sd.state.state,
                None => self.state is None,
            },
    {
        match &self.state {
            Some(sd) => Some(&sd.state.state),
            None => None,
        }
    }

    /// This connection's own user identity, as the last sync tagged it.
    pub fn get_user_id(&self) -> (r: Option<&S::UserId>)
        ensures
            match r {
                Some(u) => self.state matches Some(sd) && *u == sd.user_id,
                None => self.state is None,
            },
    {
        match &self.state {
            Some(sd) => Some(&sd.user_id),
            None => None,
        }
    }

    /// The mirrored data of one user, if present.
    pub fn get_user_data(&self, user_id: &S::UserId) -> (r: Option<&S::UserData>)
        requires
            self.wf(),
        ensures
            match r {
                Some(d) => self.state matches Some(sd) && sd.state.users.spec_get(*user_id)
                    == Some(*d),
                None => self.state is None || (self.state matches Some(sd)
                    && sd.state.users.spec_get(*user_id) is None),
            },
    {
        match &self.state {
            Some(sd) => sd.state.users.get(user_id),
            None => None,
        }
    }

    /// One step of the reconciliation state machine.  The caller performs the
    /// returned commands in order.
    pub fn update(&mut self, msg: EventWrapper<S>) -> (cmds: Vec<Command<S>>)
        requires
            old(self).wf(),
            spec_msg_wf(msg),
        ensures
            final(self).wf(),
            final(self).state == spec_step_mirror(*old(self), msg),
            final(self).reconnect_scheduled == spec_step_reconnect(*old(self), msg),
            cmds@ == spec_step_cmds(*old(self), msg),
    {
        let mut cmds: Vec<Command<S>> = Vec::new();
        match msg {
            EventWrapper::WebSocketOpened => {
                self.reconnect_scheduled = false;
                cmds.push(Command::CancelReconnect);
                cmds.push(Command::Send(Req::Sync));
                cmds.push(Command::Send(Req::Event(S::ClientEvent::init())));
                proof {
                    assert(cmds@ =~= spec_step_cmds(*old(self), msg));
                }
            },
            EventWrapper::CloseWebSocket => {
                self.reconnect_scheduled = false;
                cmds.push(Command::CancelReconnect);
                cmds.push(Command::CloseSocket);
                proof {
                    assert(cmds@ =~= spec_step_cmds(*old(self), msg));
                }
            },
            EventWrapper::WebSocketClosed(clean, code) => {
                if (!clean || code == DESYNC_CLOSE_CODE) && !self.reconnect_scheduled {
                    self.reconnect_scheduled = true;
                    cmds.push(Command::ScheduleReconnect);
                    proof {
                        assert(cmds@ =~= spec_step_cmds(*old(self), msg));
                    }
                } else {
                    proof {
                        assert(cmds@ =~= spec_step_cmds(*old(self), msg));
                    }
                }
            },
            EventWrapper::WebSocketFailed => {
                if !self.reconnect_scheduled {
                    self.reconnect_scheduled = true;
                    cmds.push(Command::ScheduleReconnect);
                    proof {
                        assert(cmds@ =~= spec_step_cmds(*old(self), msg));
                    }
                } else {
                    proof {
                        assert(cmds@ =~= spec_step_cmds(*old(self), msg));
                    }
                }
            },
            EventWrapper::ReconnectWebSocket(_retries) => {
                cmds.push(Command::RebuildSocket);
                proof {
                    assert(cmds@ =~= spec_step_cmds(*old(self), msg));
                }
            },
            EventWrapper::SendGameEvent(e) => {
                cmds.push(Command::Send(Req::Event(e)));
                proof {
                    assert(cmds@ =~= spec_step_cmds(*old(self), msg));
                }
            },
            EventWrapper::ReceiveGameEvent(data) => {
                match &mut self.state {
                    Some(sd) => {
                        let r = sd.state.update_checked(&data);
                        match r {
                            Ok(()) => {
                                proof {
                                    assert(cmds@ =~= spec_step_cmds(*old(self), msg));
                                }
                            },
                            Err(Error::InvalidChecksum) => {
                                cmds.push(Command::Send(Req::Sync));
                                proof {
                                    assert(cmds@ =~= spec_step_cmds(*old(self), msg));
                                }
                            },
                        }
                    },
                    None => {
                        proof {
                            assert(cmds@ =~= spec_step_cmds(*old(self), msg));
                        }
                    },
                }
            },
            EventWrapper::InitGameState(sync) => {
                self.state = Some(sync);
                proof {
                    assert(cmds@ =~= spec_step_cmds(*old(self), msg));
                }
            },
            EventWrapper::UserUpdate(map) => {
                match &mut self.state {
                    Some(sd) => {
                        sd.state.users = map;
                    },
                    None => {},
                }
                proof {
                    assert(cmds@ =~= spec_step_cmds(*old(self), msg));
                }
            },
        }
        cmds
    }
}

/// The wire dispatch of one decoded server response, as the socket layer
/// feeds it back into the state machine.
pub fn route_response<S: State>(res: Res<S>) -> (r: EventWrapper<S>)
    ensures
        r == match res {
            Res::Event(data) => EventWrapper::<S>::ReceiveGameEvent(data),
            Res::Sync(sync) => EventWrapper::<S>::InitGameState(sync),
            Res::UserUpdate(map) => EventWrapper::<S>::UserUpdate(map),
        },
{
    match res {
        Res::Event(data) => EventWrapper::ReceiveGameEvent(data),
        Res::Sync(sync) => EventWrapper::InitGameState(sync),
        Res::UserUpdate(map) => EventWrapper::UserUpdate(map),
    }
}

/// Resynchronization on corruption: a received event whose checksum does not
/// match the mirror sends exactly one sync request and leaves the mirror
/// untouched.
pub proof fn lemma_resync_on_corruption<S: State>(
    pre: ClientState<S>,
    data: EventData<S>,
    sd: SyncData<S>,
)
    requires
        pre.state == Some(sd),
        sd.state.spec_checksum() != data.state_checksum@,
    ensures
        spec_step_mirror(pre, EventWrapper::ReceiveGameEvent(data)) == pre.state,
        spec_step_cmds(pre, EventWrapper::ReceiveGameEvent(data)) =~= seq![
            Command::<S>::Send(Req::Sync),
        ],
{
}

/// Reconnect deduplication: of two socket closures that both call for a
/// reconnection, the first schedules exactly one backoff timer and the second
/// schedules none.
pub proof fn lemma_reconnect_dedup<S: State>(
    s0: ClientState<S>,
    s1: ClientState<S>,
    clean1: bool,
    code1: u16,
    clean2: bool,
    code2: u16,
)
    requires
        !s0.reconnect_scheduled,
        spec_wants_reconnect(clean1, code1),
        spec_wants_reconnect(clean2, code2),
        s1.state == spec_step_mirror(s0, EventWrapper::<S>::WebSocketClosed(clean1, code1)),
        s1.reconnect_scheduled == spec_step_reconnect(
            s0,
            EventWrapper::<S>::WebSocketClosed(clean1, code1),
        ),
    ensures
        spec_step_cmds(s0, EventWrapper::<S>::WebSocketClosed(clean1, code1)) =~= seq![
            Command::<S>::ScheduleReconnect,
        ],
        spec_step_cmds(s1, EventWrapper::<S>::WebSocketClosed(clean2, code2)) =~= Seq::<
            Command<S>,
        >::empty(),
{
}

} // verus!
