//! The server's side of one connection, as a machine: what it does when the
//! request comes, when the game loop answers, and when the connection ends.
//! The task that owns the connection performs the actions and reports the
//! events; the decisions are here.

use crate::framing::frame;
use crate::handshake::{
    encode_login_response, parse_request, response_payload, validate_login_request, LoginResponse,
    LoginResult, CLOSE_REJECTED,
};
use crate::net::NetworkId;
use vstd::prelude::*;
use vstd::slice::slice_to_vec;

verus! {

/// Where a connection stands.
#[derive(Debug, Clone, Copy, PartialEq, Eq, Structural)]
pub enum Phase {
    /// The client has not sent its request yet.
    AwaitingRequest,
    /// The request was good; the game loop has not answered yet.
    AwaitingIdentity,
    /// The client is logged in.
    Established,
    /// The connection is over.
    Closed,
}

/// A player who has just been let in.
pub struct PlayerJoin {
    /// The handle of the player's entity.
    pub nid: NetworkId,
    /// The player's name.
    pub username: String,
}

/// What the task that owns the connection has to do next.
pub enum SessionAction {
    /// Nothing.
    Idle,
    /// Close the connection with this code and reason, and write no answer.
    Close {
        /// The close code.
        code: u32,
        /// The reason in the close frame.
        reason: String,
    },
    /// Ask the game loop for an identity for this user, and wait.
    RequestIdentity {
        /// The name that the client gave.
        username: String,
    },
    /// Write these bytes as the answer, finish the stream, and tell the game
    /// loop that the player joined.
    Accept {
        /// The framed accept payload.
        response: Vec<u8>,
        /// The notice for the game loop.
        joined: PlayerJoin,
    },
    /// Pass these bytes on to the game loop, under the player's handle.
    Forward {
        /// The handle of the player who sent the bytes.
        nid: NetworkId,
        /// The payload as it came.
        payload: Vec<u8>,
    },
    /// Tell the game loop that the player left.
    Leave {
        /// The handle that is free again.
        nid: NetworkId,
    },
}

/// What happened on a connection.
pub enum SessionEvent {
    /// A framed message came on the login stream, with this payload.
    Request(Seq<u8>),
    /// The game loop let the client in, with this state.
    Accepted(LoginResponse),
    /// The game loop turned the client away, for this reason.
    Denied(Seq<char>),
    /// A framed message came from the logged-in client, with this payload.
    Payload(Seq<u8>),
    /// The connection ended: closed by the peer, failed, or stopped.
    End,
}

/// A [`Session`] in contracts.
pub struct SessionView {
    /// Where the connection stands.
    pub phase: Phase,
    /// The name that the client gave, once its request was good.
    pub username: Seq<char>,
    /// The handle of the client's entity, once it is logged in.
    pub nid: NetworkId,
}

/// A [`SessionAction`] in contracts.
pub enum ActionView {
    /// Nothing.
    Idle,
    /// Close the connection.
    Close {
        /// The close code.
        code: u32,
        /// The reason in the close frame.
        reason: Seq<char>,
    },
    /// Ask the game loop for an identity.
    RequestIdentity {
        /// The name that the client gave.
        username: Seq<char>,
    },
    /// Answer, finish the stream and announce the player.
    Accept {
        /// The framed accept payload.
        response: Seq<u8>,
        /// The handle of the player's entity.
        nid: NetworkId,
        /// The player's name.
        username: Seq<char>,
    },
    /// Pass a payload on to the game loop.
    Forward {
        /// The handle of the player who sent the bytes.
        nid: NetworkId,
        /// The payload as it came.
        payload: Seq<u8>,
    },
    /// Announce that the player left.
    Leave {
        /// The handle that is free again.
        nid: NetworkId,
    },
}

impl View for SessionAction {
    type V = ActionView;

    open spec fn view(&self) -> ActionView {
        match self {
            SessionAction::Idle => ActionView::Idle,
            SessionAction::Close { code, reason } => ActionView::Close {
                code: *code,
                reason: reason@,
            },
            SessionAction::RequestIdentity { username } => ActionView::RequestIdentity {
                username: username@,
            },
            SessionAction::Accept { response, joined } => ActionView::Accept {
                response: response@,
                nid: joined.nid,
                username: joined.username@,
            },
            SessionAction::Forward { nid, payload } => ActionView::Forward {
                nid: *nid,
                payload: payload@,
            },
            SessionAction::Leave { nid } => ActionView::Leave { nid: *nid },
        }
    }
}

/// The machine: the state after `event` and the action that it asks for.
/// An event that does not belong to the phase changes nothing and asks for
/// nothing, and a closed connection stays closed.
pub open spec fn step(s: SessionView, event: SessionEvent) -> (SessionView, ActionView) {
    match (s.phase, event) {
        (Phase::AwaitingRequest, SessionEvent::Request(payload)) => match parse_request(payload) {
            Ok(username) => (
                SessionView { phase: Phase::AwaitingIdentity, username, nid: s.nid },
                ActionView::RequestIdentity { username },
            ),
            Err(rejection) => (
                SessionView { phase: Phase::Closed, username: s.username, nid: s.nid },
                ActionView::Close {
                    code: rejection.spec_close_code(),
                    reason: rejection.spec_close_reason(),
                },
            ),
        },
        (Phase::AwaitingIdentity, SessionEvent::Accepted(response)) => (
            SessionView { phase: Phase::Established, username: s.username, nid: response.nid },
            ActionView::Accept {
                response: frame(response_payload(response)),
                nid: response.nid,
                username: s.username,
            },
        ),
        (Phase::AwaitingIdentity, SessionEvent::Denied(reason)) => (
            SessionView { phase: Phase::Closed, username: s.username, nid: s.nid },
            ActionView::Close { code: CLOSE_REJECTED, reason },
        ),
        (Phase::Established, SessionEvent::Payload(payload)) => (
            s,
            ActionView::Forward { nid: s.nid, payload },
        ),
        (Phase::Established, SessionEvent::End) => (
            SessionView { phase: Phase::Closed, username: s.username, nid: s.nid },
            ActionView::Leave { nid: s.nid },
        ),
        (_, SessionEvent::End) => (
            SessionView { phase: Phase::Closed, username: s.username, nid: s.nid },
            ActionView::Idle,
        ),
        _ => (s, ActionView::Idle),
    }
}

/// Number of times that a run of the machine over `events` announces that
/// the player joined.
pub open spec fn joins(s: SessionView, events: Seq<SessionEvent>) -> nat
    decreases events.len(),
{
    if events.len() == 0 {
        0
    } else {
        let (next, action) = step(s, events[0]);
        (if action is Accept { 1nat } else { 0nat }) + joins(next, events.drop_first())
    }
}

/// Number of times that a run of the machine over `events` announces that
/// the player left.
pub open spec fn leaves(s: SessionView, events: Seq<SessionEvent>) -> nat
    decreases events.len(),
{
    if events.len() == 0 {
        0
    } else {
        let (next, action) = step(s, events[0]);
        (if action is Leave { 1nat } else { 0nat }) + leaves(next, events.drop_first())
    }
}

/// Whether the connection ends somewhere in `events`.
pub open spec fn ends(events: Seq<SessionEvent>) -> bool {
    exists|i: int| 0 <= i < events.len() && events[i] is End
}

/// Joined once, left once: whatever happens on a connection, the player is
/// announced at most once, a leave is announced only for a player that was
/// announced, and once the connection has ended every announced player has
/// left, exactly once.
pub proof fn lemma_joined_left_once(s: SessionView, events: Seq<SessionEvent>)
    ensures
        joins(s, events) <= 1,
        leaves(s, events) <= 1,
        s.phase is Closed ==> joins(s, events) == 0 && leaves(s, events) == 0,
        s.phase is Established ==> joins(s, events) == 0 && (leaves(s, events) == 1 <==> ends(
            events,
        )),
        s.phase is AwaitingRequest || s.phase is AwaitingIdentity ==> leaves(s, events) <= joins(
            s,
            events,
        ) && (ends(events) ==> leaves(s, events) == joins(s, events)),
    decreases events.len(),
{
    if events.len() > 0 {
        let (next, action) = step(s, events[0]);
        let rest = events.drop_first();
        lemma_joined_left_once(next, rest);
        if ends(events) {
            let i = choose|i: int| 0 <= i < events.len() && events[i] is End;
            if i > 0 {
                assert(rest[i - 1] is End);
            }
        }
        if ends(rest) {
            let j = choose|j: int| 0 <= j < rest.len() && rest[j] is End;
            assert(events[j + 1] is End);
        }
        if events[0] is End {
            assert(ends(events));
        }
    } else {
        assert(!ends(events));
    }
}

/// The server's record of one connection.
pub struct Session {
    phase: Phase,
    username: String,
    nid: NetworkId,
}

impl View for Session {
    type V = SessionView;

    closed spec fn view(&self) -> SessionView {
        SessionView { phase: self.phase, username: self.username@, nid: self.nid }
    }
}

impl Session {
    /// The record of a connection that has just been accepted.
    pub fn new() -> (s: Self)
        ensures
            s@.phase == Phase::AwaitingRequest,
            s@.username == Seq::<char>::empty(),
            s@.nid@ == 0,
    {
        Session {
            phase: Phase::AwaitingRequest,
            username: String::new(),
            nid: NetworkId::invalid(),
        }
    }

    /// Where the connection stands.
    pub fn phase(&self) -> (p: Phase)
        ensures
            p == self@.phase,
    {
        self.phase
    }

    /// The client's request came, with this payload.
    pub fn on_request(&mut self, payload: &[u8]) -> (action: SessionAction)
        ensures
            (final(self)@, action@) == step(old(self)@, SessionEvent::Request(payload@)),
    {
        match self.phase {
            Phase::AwaitingRequest => match validate_login_request(payload) {
                Ok(username) => {
                    self.username = username.to_owned();
                    self.phase = Phase::AwaitingIdentity;
                    SessionAction::RequestIdentity { username: username.to_owned() }
                },
                Err(rejection) => {
                    self.phase = Phase::Closed;
                    SessionAction::Close {
                        code: rejection.close_code(),
                        reason: rejection.close_reason().to_owned(),
                    }
                },
            },
            _ => SessionAction::Idle,
        }
    }

    /// The game loop answered the request for an identity.
    pub fn on_identity(&mut self, result: LoginResult) -> (action: SessionAction)
        ensures
            (final(self)@, action@) == step(
                old(self)@,
                match result {
                    LoginResult::Accepted(response) => SessionEvent::Accepted(response),
                    LoginResult::Denied { reason } => SessionEvent::Denied(reason@),
                },
            ),
    {
        match self.phase {
            Phase::AwaitingIdentity => match result {
                LoginResult::Accepted(response) => {
                    let mut buffer = [0u8; 32];
                    let framed = slice_to_vec(encode_login_response(&mut buffer, &response));
                    self.nid = response.nid;
                    self.phase = Phase::Established;
                    SessionAction::Accept {
                        response: framed,
                        joined: PlayerJoin { nid: response.nid, username: self.username.clone() },
                    }
                },
                LoginResult::Denied { reason } => {
                    self.phase = Phase::Closed;
                    SessionAction::Close { code: CLOSE_REJECTED, reason }
                },
            },
            _ => SessionAction::Idle,
        }
    }

    /// A framed message came after the login, with this payload. What a
    /// logged-in client sends is passed on as it is, under the client's
    /// handle; what comes at any other time is dropped.
    pub fn on_payload(&mut self, payload: &[u8]) -> (action: SessionAction)
        ensures
            (final(self)@, action@) == step(old(self)@, SessionEvent::Payload(payload@)),
    {
        match self.phase {
            Phase::Established => SessionAction::Forward {
                nid: self.nid,
                payload: slice_to_vec(payload),
            },
            _ => SessionAction::Idle,
        }
    }

    /// The connection ended: the peer closed it, it failed, or the server
    /// was told to stop.
    pub fn on_end(&mut self) -> (action: SessionAction)
        ensures
            (final(self)@, action@) == step(old(self)@, SessionEvent::End),
    {
        let was = self.phase;
        self.phase = Phase::Closed;
        match was {
            Phase::Established => SessionAction::Leave { nid: self.nid },
            _ => SessionAction::Idle,
        }
    }
}

} // verus!
