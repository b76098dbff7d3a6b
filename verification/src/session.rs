//! The per-connection protocol state machine.
//!
//! A session owns one client connection: it decodes inbound frames, tracks
//! the chosen name, the current room and liveness, and turns client intents
//! into registry requests.  Every decision is made here, as a function from
//! the session state and one event to the next state and a list of actions;
//! the transport loop around the library performs the actions (send a frame,
//! call the registry, stop) and feeds the results back in as events.

use vstd::prelude::*;

use crate::messages::opt_seq;
use crate::messages::parse_frame;
use crate::messages::response_text;
use crate::messages::Command;
use crate::messages::CommandRequest;
use crate::messages::CommandResponse;
use crate::messages::CommandResponseView;
use crate::messages::CommandView;
use crate::messages::DecodeError;
use crate::messages::ResponsePayload;
use crate::messages::ResponsePayloadView;
use crate::registry::lemma_deregister_wf;
use crate::registry::main_room;
use crate::registry::RegistryView;

verus! {

/// How often, in time units, a liveness probe is sent.
pub const HEARTBEAT_INTERVAL: u64 = 5;

/// How long, in time units, the client may stay silent before the session
/// closes the connection.
pub const CLIENT_TIMEOUT: u64 = 10;

/// Lifecycle of one connection.
#[derive(Clone, Copy, Debug, PartialEq, Eq, Structural)]
pub enum SessionState {
    /// Before registration with the registry completes.
    Connecting,
    /// Registered; normal operation.
    Active,
    /// Close initiated; the registry is being told.
    Closing,
    /// Terminal.
    Closed,
}

/// One event arriving at the session: a transport frame, or the outcome of
/// an earlier request of its own.
pub enum WsEvent {
    /// A liveness probe from the client, to be echoed.
    Ping(Vec<u8>),
    /// The client's answer to a probe of ours.
    Pong,
    /// A text frame carrying a command.
    Text(String),
    /// A binary frame: this protocol has none, so it is ignored.
    Binary,
    /// The client closed the connection.
    Close,
    /// A continuation frame: unsupported, the session closes.
    Continuation,
    /// Nothing to do.
    Nop,
    /// The transport could not decode a frame; fatal for the connection.
    ProtocolError,
}

/// Spec-level image of an event.
pub enum WsEventView {
    Ping(Seq<u8>),
    Pong,
    Text(Seq<char>),
    Binary,
    Close,
    Continuation,
    Nop,
    ProtocolError,
}

impl View for WsEvent {
    type V = WsEventView;

    open spec fn view(&self) -> WsEventView {
        match self {
            WsEvent::Ping(p) => WsEventView::Ping(p@),
            WsEvent::Pong => WsEventView::Pong,
            WsEvent::Text(t) => WsEventView::Text(t@),
            WsEvent::Binary => WsEventView::Binary,
            WsEvent::Close => WsEventView::Close,
            WsEvent::Continuation => WsEventView::Continuation,
            WsEvent::Nop => WsEventView::Nop,
            WsEvent::ProtocolError => WsEventView::ProtocolError,
        }
    }
}

/// One action the session asks the transport to perform.
pub enum Action {
    /// Ask the registry for an id (request/response).
    Register,
    /// Tell the registry the session is gone (fire-and-forget).
    Deregister(u64),
    /// Ask the registry to move the session to a room (fire-and-forget).
    Join(u64, String),
    /// Hand the registry a payload for a room (fire-and-forget).
    Broadcast(String, String),
    /// Ask the registry for the room names (request/response).
    ListRooms,
    /// Send a text frame to this client.
    SendText(String),
    /// Echo a liveness probe.
    SendPong(Vec<u8>),
    /// Send a liveness probe.
    SendPing,
    /// Tear the connection down.
    Stop,
}

/// Spec-level image of an action.
pub enum ActionView {
    Register,
    Deregister(u64),
    Join(u64, Seq<char>),
    Broadcast(Seq<char>, Seq<char>),
    ListRooms,
    SendText(Seq<char>),
    SendPong(Seq<u8>),
    SendPing,
    Stop,
}

impl View for Action {
    type V = ActionView;

    open spec fn view(&self) -> ActionView {
        match self {
            Action::Register => ActionView::Register,
            Action::Deregister(id) => ActionView::Deregister(*id),
            Action::Join(id, room) => ActionView::Join(*id, room@),
            Action::Broadcast(room, payload) => ActionView::Broadcast(room@, payload@),
            Action::ListRooms => ActionView::ListRooms,
            Action::SendText(t) => ActionView::SendText(t@),
            Action::SendPong(p) => ActionView::SendPong(p@),
            Action::SendPing => ActionView::SendPing,
            Action::Stop => ActionView::Stop,
        }
    }
}

impl DeepView for Action {
    type V = ActionView;

    open spec fn deep_view(&self) -> ActionView {
        self.view()
    }
}

/// Abstract state of one session.
#[verifier::ext_equal]
pub struct SessionView {
    pub id: Option<u64>,
    pub hb: u64,
    pub room: Seq<char>,
    pub name: Option<Seq<char>>,
    pub state: SessionState,
}

impl SessionView {
    /// An active session always knows its id.
    pub open spec fn wf(self) -> bool {
        self.state == SessionState::Active ==> self.id is Some
    }
}

/// The broadcast payload for a chat message: prefixed with the chosen name,
/// or relayed as it came when no name is set.
pub open spec fn chat_payload(name: Option<Seq<char>>, m: Seq<char>) -> Seq<char> {
    match name {
        Some(n) => n + ": "@ + m,
        None => m,
    }
}

/// The reply frame rejecting the command of opcode `op` for the given reason.
pub open spec fn reply_rejected(op: u64, why: Seq<char>) -> Seq<char> {
    response_text(
        CommandResponseView { payload: ResponsePayloadView::Rejected(op), error: Some(why) },
    )
}

/// The reply frame confirming that the name is now `n`.
pub open spec fn reply_name_set(n: Seq<char>) -> Seq<char> {
    response_text(CommandResponseView { payload: ResponsePayloadView::NameSet(n), error: None })
}

/// The reply frame confirming a join, carrying the member's name.
pub open spec fn reply_joined(nick: Seq<char>) -> Seq<char> {
    response_text(CommandResponseView { payload: ResponsePayloadView::JoinedRoom(nick), error: None })
}

/// The reply frame listing the room names.
pub open spec fn reply_rooms(rooms: Seq<Seq<char>>) -> Seq<char> {
    response_text(
        CommandResponseView { payload: ResponsePayloadView::AvailableRooms(rooms), error: None },
    )
}

/// What a join-room command does: without a name, or with an empty room
/// name, an error reply and no state change; otherwise the session moves to
/// the room, the registry is told, and a confirmation is sent.
pub open spec fn join_spec(s: SessionView, room: Seq<char>) -> (SessionView, Seq<ActionView>) {
    match s.name {
        None => (s, seq![ActionView::SendText(reply_rejected(3, "name is not set"@))]),
        Some(nick) => {
            if room.len() == 0 {
                (s, seq![ActionView::SendText(reply_rejected(3, "room name is empty"@))])
            } else {
                match s.id {
                    Some(id) => (
                        SessionView { room: room, ..s },
                        seq![
                            ActionView::Join(id, room),
                            ActionView::SendText(reply_joined(nick)),
                        ],
                    ),
                    None => (s, Seq::empty()),
                }
            }
        },
    }
}

/// What one text frame does, by the command it decodes to.
pub open spec fn text_spec(s: SessionView, t: Seq<char>) -> (SessionView, Seq<ActionView>) {
    match parse_frame(t) {
        Ok(CommandView::ChatMsg(m)) => (
            s,
            seq![ActionView::Broadcast(s.room, chat_payload(s.name, m))],
        ),
        Ok(CommandView::ListRooms) => (s, seq![ActionView::ListRooms]),
        Ok(CommandView::SetName(n)) => (
            SessionView { name: Some(n), ..s },
            seq![ActionView::SendText(reply_name_set(n))],
        ),
        Ok(CommandView::JoinRoom(r)) => join_spec(s, r),
        Err(DecodeError::MissingContent(op)) => (
            s,
            seq![ActionView::SendText(reply_rejected(op, "content is required"@))],
        ),
        Err(DecodeError::Malformed) => (s, Seq::empty()),
        Err(DecodeError::UnknownRequest) => (s, Seq::empty()),
    }
}

/// What one event does to an active session.
pub open spec fn handle_spec(s: SessionView, ev: WsEventView, now: u64) -> (
    SessionView,
    Seq<ActionView>,
) {
    match ev {
        WsEventView::Ping(p) => (SessionView { hb: now, ..s }, seq![ActionView::SendPong(p)]),
        WsEventView::Pong => (SessionView { hb: now, ..s }, Seq::empty()),
        WsEventView::Text(t) => text_spec(s, t),
        WsEventView::Binary => (s, Seq::empty()),
        WsEventView::Nop => (s, Seq::empty()),
        WsEventView::Close => (
            SessionView { state: SessionState::Closing, ..s },
            seq![ActionView::Stop],
        ),
        WsEventView::Continuation => (
            SessionView { state: SessionState::Closing, ..s },
            seq![ActionView::Stop],
        ),
        WsEventView::ProtocolError => (
            SessionView { state: SessionState::Closing, ..s },
            seq![ActionView::Stop],
        ),
    }
}

/// Server-side state of one client connection.
pub struct WsChatSession {
    id: Option<u64>,
    hb: u64,
    room: String,
    name: Option<String>,
    state: SessionState,
}

impl View for WsChatSession {
    type V = SessionView;

    closed spec fn view(&self) -> SessionView {
        SessionView {
            id: self.id,
            hb: self.hb,
            room: self.room@,
            name: opt_seq(self.name),
            state: self.state,
        }
    }
}

impl WsChatSession {
    /// A fresh session for a just-accepted connection: no id yet, the
    /// default room, and the given time as the first sign of life.
    pub fn new(name: Option<String>, now: u64) -> (s: WsChatSession)
        ensures
            s@ == (SessionView {
                id: None,
                hb: now,
                room: main_room(),
                name: opt_seq(name),
                state: SessionState::Connecting,
            }),
            s@.wf(),
    {
        let s = WsChatSession {
            id: None,
            hb: now,
            room: String::from_str("Main"),
            name,
            state: SessionState::Connecting,
        };
        proof {
            assert(s@ =~= (SessionView {
                id: None,
                hb: now,
                room: main_room(),
                name: opt_seq(s.name),
                state: SessionState::Connecting,
            }));
        }
        s
    }

    /// Where the session stands in its lifecycle.
    pub fn state(&self) -> (st: SessionState)
        ensures
            st == self@.state,
    {
        self.state
    }

    /// The time of the last sign of life from the client.
    pub fn last_heartbeat(&self) -> (t: u64)
        ensures
            t == self@.hb,
    {
        self.hb
    }

    /// On start the session registers itself with the registry; the reply
    /// arrives later through `on_registered`.
    pub fn started(&self) -> (a: Action)
        requires
            self@.state == SessionState::Connecting,
        ensures
            a@ == ActionView::Register,
    {
        Action::Register
    }

    /// The outcome of registration: with an id the session becomes active;
    /// without one the registry is gone and the connection is torn down.
    pub fn on_registered(&mut self, res: Option<u64>) -> (acts: Vec<Action>)
        requires
            old(self)@.state == SessionState::Connecting,
        ensures
            res matches Some(id) ==> final(self)@ == (SessionView {
                id: Some(id),
                state: SessionState::Active,
                ..old(self)@
            }) && acts.deep_view() == Seq::<ActionView>::empty(),
            res is None ==> final(self)@ == (SessionView {
                state: SessionState::Closed,
                ..old(self)@
            }) && acts.deep_view() == seq![ActionView::Stop],
            final(self)@.wf(),
    {
        match res {
            Some(id) => {
                self.id = Some(id);
                self.state = SessionState::Active;
                let acts: Vec<Action> = Vec::new();
                proof {
                    assert(self@ =~= (SessionView {
                        id: Some(id),
                        state: SessionState::Active,
                        ..old(self)@
                    }));
                    assert(acts.deep_view() =~= Seq::<ActionView>::empty());
                }
                acts
            },
            None => {
                self.state = SessionState::Closed;
                let acts = vec![Action::Stop];
                proof {
                    assert(self@ =~= (SessionView { state: SessionState::Closed, ..old(self)@ }));
                    assert(acts.deep_view() =~= seq![ActionView::Stop]);
                }
                acts
            },
        }
    }

    /// On stop the registry is told to forget the session, if it ever had an
    /// id; the session is then closed for good.
    pub fn stopping(&mut self) -> (a: Option<Action>)
        ensures
            final(self)@ == (SessionView { state: SessionState::Closed, ..old(self)@ }),
            old(self)@.id matches Some(id) ==> a matches Some(act) && act@
                == ActionView::Deregister(id),
            old(self)@.id is None ==> a is None,
    {
        self.state = SessionState::Closed;
        proof {
            assert(self@ =~= (SessionView { state: SessionState::Closed, ..old(self)@ }));
        }
        match self.id {
            Some(id) => Some(Action::Deregister(id)),
            None => None,
        }
    }

    /// One heartbeat tick, on a clock that never runs backwards.  A client
    /// silent for longer than the timeout window is disconnected and
    /// deregistered; otherwise a probe is sent.
    pub fn hb(&mut self, now: u64) -> (acts: Vec<Action>)
        requires
            old(self)@.wf(),
            old(self)@.state == SessionState::Active,
            now >= old(self)@.hb,
        ensures
            final(self)@.wf(),
            now > old(self)@.hb + CLIENT_TIMEOUT ==> (old(self)@.id matches Some(id)
                && final(self)@ == (SessionView { state: SessionState::Closing, ..old(self)@ })
                && acts.deep_view() == seq![ActionView::Deregister(id), ActionView::Stop]),
            now <= old(self)@.hb + CLIENT_TIMEOUT ==> final(self)@ == old(self)@
                && acts.deep_view() == seq![ActionView::SendPing],
    {
        if now - self.hb > CLIENT_TIMEOUT {
            let id = match self.id {
                Some(id) => id,
                None => {
                    proof {
                        assert(false);
                    }
                    0
                },
            };
            self.state = SessionState::Closing;
            let acts = vec![Action::Deregister(id), Action::Stop];
            proof {
                assert(self@ =~= (SessionView { state: SessionState::Closing, ..old(self)@ }));
                assert(acts.deep_view() =~= seq![
                    ActionView::Deregister(id),
                    ActionView::Stop,
                ]);
            }
            acts
        } else {
            let acts = vec![Action::SendPing];
            proof {
                assert(acts.deep_view() =~= seq![ActionView::SendPing]);
            }
            acts
        }
    }

    /// A chat message: broadcast to the current room, prefixed with the
    /// chosen name when one is set, relayed as it came otherwise.
    pub fn send_chat_message(&self, msg: String) -> (a: Action)
        ensures
            a@ == ActionView::Broadcast(self@.room, chat_payload(self@.name, msg@)),
    {
        let payload = match &self.name {
            Some(n) => {
                let mut p = n.clone();
                p.append(": ");
                p.append(msg.as_str());
                proof {
                    assert(p@ =~= chat_payload(self@.name, msg@));
                }
                p
            },
            None => msg,
        };
        Action::Broadcast(self.room.clone(), payload)
    }

    /// The registry's answer to a list-rooms request, turned into the reply
    /// frame for this client.
    pub fn list_available_rooms(&self, rooms: Vec<String>) -> (a: Action)
        ensures
            a@ == ActionView::SendText(reply_rooms(rooms.deep_view())),
    {
        let ghost rv = rooms.deep_view();
        let resp = CommandResponse::new(ResponsePayload::AvailableRooms(rooms), None);
        proof {
            assert(resp@ =~= (CommandResponseView {
                payload: ResponsePayloadView::AvailableRooms(rv),
                error: None,
            }));
        }
        Action::SendText(resp.stringify())
    }

    /// A join-room command, under `join_spec`.
    pub fn join_room(&mut self, room: String) -> (acts: Vec<Action>)
        requires
            old(self)@.wf(),
            old(self)@.state == SessionState::Active,
        ensures
            final(self)@ == join_spec(old(self)@, room@).0,
            acts.deep_view() == join_spec(old(self)@, room@).1,
            final(self)@.wf(),
    {
        let name_c: Option<String> = match &self.name {
            Some(n) => Some(n.clone()),
            None => None,
        };
        match name_c {
            None => {
                let resp = CommandResponse::new(
                    ResponsePayload::Rejected(3),
                    Some(String::from_str("name is not set")),
                );
                let acts = vec![Action::SendText(resp.stringify())];
                proof {
                    assert(acts.deep_view() =~= join_spec(old(self)@, room@).1);
                }
                acts
            },
            Some(nick) => {
                if room.as_str().unicode_len() == 0 {
                    let resp = CommandResponse::new(
                        ResponsePayload::Rejected(3),
                        Some(String::from_str("room name is empty")),
                    );
                    let acts = vec![Action::SendText(resp.stringify())];
                    proof {
                        assert(acts.deep_view() =~= join_spec(old(self)@, room@).1);
                    }
                    acts
                } else {
                    let id = match self.id {
                        Some(id) => id,
                        None => {
                            proof {
                                assert(false);
                            }
                            0
                        },
                    };
                    let room_c = room.clone();
                    self.room = room;
                    let resp = CommandResponse::new(ResponsePayload::JoinedRoom(nick), None);
                    let acts = vec![
                        Action::Join(id, room_c),
                        Action::SendText(resp.stringify()),
                    ];
                    proof {
                        assert(self@ =~= join_spec(old(self)@, room_c@).0);
                        assert(acts.deep_view() =~= join_spec(old(self)@, room_c@).1);
                    }
                    acts
                }
            },
        }
    }

    /// One inbound event, under `handle_spec`: ping and pong refresh the
    /// liveness clock, a text frame is decoded and dispatched, close and
    /// transport errors end the session, the rest is ignored.
    pub fn handle(&mut self, msg: WsEvent, now: u64) -> (acts: Vec<Action>)
        requires
            old(self)@.wf(),
            old(self)@.state == SessionState::Active,
        ensures
            final(self)@ == handle_spec(old(self)@, msg@, now).0,
            acts.deep_view() == handle_spec(old(self)@, msg@, now).1,
            final(self)@.wf(),
    {
        let ghost mv = msg@;
        match msg {
            WsEvent::Ping(p) => {
                self.hb = now;
                let acts = vec![Action::SendPong(p)];
                proof {
                    assert(self@ =~= handle_spec(old(self)@, mv, now).0);
                    assert(acts.deep_view() =~= handle_spec(old(self)@, mv, now).1);
                }
                acts
            },
            WsEvent::Pong => {
                self.hb = now;
                let acts: Vec<Action> = Vec::new();
                proof {
                    assert(self@ =~= handle_spec(old(self)@, mv, now).0);
                    assert(acts.deep_view() =~= handle_spec(old(self)@, mv, now).1);
                }
                acts
            },
            WsEvent::Text(t) => {
                let acts = self.on_text(t);
                acts
            },
            WsEvent::Binary => {
                let acts: Vec<Action> = Vec::new();
                proof {
                    assert(acts.deep_view() =~= handle_spec(old(self)@, mv, now).1);
                }
                acts
            },
            WsEvent::Nop => {
                let acts: Vec<Action> = Vec::new();
                proof {
                    assert(acts.deep_view() =~= handle_spec(old(self)@, mv, now).1);
                }
                acts
            },
            WsEvent::Close => {
                self.state = SessionState::Closing;
                let acts = vec![Action::Stop];
                proof {
                    assert(self@ =~= handle_spec(old(self)@, mv, now).0);
                    assert(acts.deep_view() =~= handle_spec(old(self)@, mv, now).1);
                }
                acts
            },
            WsEvent::Continuation => {
                self.state = SessionState::Closing;
                let acts = vec![Action::Stop];
                proof {
                    assert(self@ =~= handle_spec(old(self)@, mv, now).0);
                    assert(acts.deep_view() =~= handle_spec(old(self)@, mv, now).1);
                }
                acts
            },
            WsEvent::ProtocolError => {
                self.state = SessionState::Closing;
                let acts = vec![Action::Stop];
                proof {
                    assert(self@ =~= handle_spec(old(self)@, mv, now).0);
                    assert(acts.deep_view() =~= handle_spec(old(self)@, mv, now).1);
                }
                acts
            },
        }
    }

    /// One text frame, under `text_spec`.
    fn on_text(&mut self, t: String) -> (acts: Vec<Action>)
        requires
            old(self)@.wf(),
            old(self)@.state == SessionState::Active,
        ensures
            final(self)@ == text_spec(old(self)@, t@).0,
            acts.deep_view() == text_spec(old(self)@, t@).1,
            final(self)@.wf(),
    {
        let req = CommandRequest::from_str(&t);
        match req {
            Ok(r) => match r.payload {
                Command::ChatMsg(m) => {
                    let a = self.send_chat_message(m);
                    let acts = vec![a];
                    proof {
                        assert(acts.deep_view() =~= text_spec(old(self)@, t@).1);
                    }
                    acts
                },
                Command::ListRooms => {
                    let acts = vec![Action::ListRooms];
                    proof {
                        assert(acts.deep_view() =~= text_spec(old(self)@, t@).1);
                    }
                    acts
                },
                Command::SetName(n) => {
                    let resp = CommandResponse::new(ResponsePayload::NameSet(n.clone()), None);
                    let txt = resp.stringify();
                    self.name = Some(n);
                    let acts = vec![Action::SendText(txt)];
                    proof {
                        assert(self@ =~= text_spec(old(self)@, t@).0);
                        assert(acts.deep_view() =~= text_spec(old(self)@, t@).1);
                    }
                    acts
                },
                Command::JoinRoom(room) => {
                    let acts = self.join_room(room);
                    acts
                },
            },
            Err(e) => match e {
                DecodeError::MissingContent(op) => {
                    let resp = CommandResponse::new(
                        ResponsePayload::Rejected(op),
                        Some(String::from_str("content is required")),
                    );
                    let acts = vec![Action::SendText(resp.stringify())];
                    proof {
                        assert(acts.deep_view() =~= text_spec(old(self)@, t@).1);
                    }
                    acts
                },
                DecodeError::Malformed => {
                    let acts: Vec<Action> = Vec::new();
                    proof {
                        assert(acts.deep_view() =~= text_spec(old(self)@, t@).1);
                    }
                    acts
                },
                DecodeError::UnknownRequest => {
                    let acts: Vec<Action> = Vec::new();
                    proof {
                        assert(acts.deep_view() =~= text_spec(old(self)@, t@).1);
                    }
                    acts
                },
            },
        }
    }
}

/// Heartbeat timeout releases the session's resources: the timeout tick
/// commands a deregistration of the session's id, and once the registry has
/// processed it, that id is live nowhere and a member of no room.
pub proof fn lemma_timeout_releases(s: SessionView, v: RegistryView, id: u64, now: u64)
    requires
        v.wf(),
        s.state == SessionState::Active,
        s.id == Some(id),
        now > s.hb + CLIENT_TIMEOUT,
    ensures
        !v.deregister_t(id).has_session(id),
        forall|room: Seq<char>| !v.deregister_t(id).in_room(id, room),
{
    lemma_deregister_wf(v, id);
}

} // verus!
