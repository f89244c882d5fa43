//! The client's side of a connection attempt, as seen from the game loop:
//! the one round trip of the login, and what a poll of the attempt yields.
//! The network thread does the waiting; the decisions are here.

use crate::framing::frame;
use crate::handshake::{
    decode_login_response, encode_login_request, parse_response, request_payload, LoginResponse,
    ProtocolHeader, ResponseError, REQUEST_FIXED_LEN,
};
use crate::net::{PROTOCOL_MAGIC, PROTOCOL_VERSION};
use crate::serialization::wire::overwrite;
use vstd::prelude::*;
use vstd::string::StringSliceAdditionalSpecFns;

verus! {

/// Where the client's login stands.
#[derive(Debug, Clone, Copy, PartialEq, Eq, Structural)]
pub enum HandshakeState {
    /// Nothing has been sent.
    Idle,
    /// The request is out; the answer has not come.
    AwaitingResponse,
    /// The server let the client in.
    Accepted,
    /// The login failed. There is no second try on this connection.
    Rejected,
}

/// Why the client's login failed.
#[derive(Debug, Clone, Copy, PartialEq, Eq, Structural)]
pub enum HandshakeError {
    /// The step does not belong to the state: the login is one round trip,
    /// begun once and answered once.
    OutOfOrder,
    /// The username is too long for one message.
    Oversized,
    /// The answer has fewer than the 30 bytes of an accept payload.
    ShortResponse {
        /// Number of bytes that came.
        got: usize,
    },
}

/// The client's login: `Idle`, then `AwaitingResponse`, then `Accepted` or
/// `Rejected`.
pub struct ClientHandshake {
    state: HandshakeState,
}

impl View for ClientHandshake {
    type V = HandshakeState;

    closed spec fn view(&self) -> HandshakeState {
        self.state
    }
}

impl ClientHandshake {
    /// A login that has not begun.
    pub fn new() -> (h: Self)
        ensures
            h@ == HandshakeState::Idle,
    {
        ClientHandshake { state: HandshakeState::Idle }
    }

    /// Where the login stands.
    pub fn state(&self) -> (s: HandshakeState)
        ensures
            s == self@,
    {
        self.state
    }

    /// Begins the login: writes the framed request of `username` into `dst`
    /// and returns it for sending. Only a login that has not begun can
    /// begin; a username too long for one message fails the login.
    pub fn begin<'a>(&mut self, dst: &'a mut [u8], username: &str) -> (r: Result<
        &'a [u8],
        HandshakeError,
    >)
        requires
            old(dst)@.len() >= 2 + REQUEST_FIXED_LEN + username.spec_bytes().len(),
        ensures
            match r {
                Ok(bytes) => {
                    &&& old(self)@ == HandshakeState::Idle
                    &&& REQUEST_FIXED_LEN + username.spec_bytes().len() <= u16::MAX
                    &&& final(self)@ == HandshakeState::AwaitingResponse
                    &&& bytes@ == frame(
                        request_payload(
                            ProtocolHeader { magic: PROTOCOL_MAGIC, version: PROTOCOL_VERSION },
                            username@,
                        ),
                    )
                    &&& final(dst)@ == overwrite(old(dst)@, 0, bytes@)
                },
                Err(HandshakeError::OutOfOrder) => {
                    &&& old(self)@ != HandshakeState::Idle
                    &&& final(self)@ == old(self)@
                    &&& final(dst)@ == old(dst)@
                },
                Err(HandshakeError::Oversized) => {
                    &&& old(self)@ == HandshakeState::Idle
                    &&& REQUEST_FIXED_LEN + username.spec_bytes().len() > u16::MAX
                    &&& final(self)@ == HandshakeState::Rejected
                    &&& final(dst)@ == old(dst)@
                },
                Err(HandshakeError::ShortResponse { .. }) => false,
            },
    {
        match self.state {
            HandshakeState::Idle => match encode_login_request(dst, username) {
                Ok(bytes) => {
                    self.state = HandshakeState::AwaitingResponse;
                    Ok(bytes)
                },
                Err(_) => {
                    self.state = HandshakeState::Rejected;
                    Err(HandshakeError::Oversized)
                },
            },
            _ => Err(HandshakeError::OutOfOrder),
        }
    }

    /// The server's answer came, with this payload. An answer of at least 30
    /// bytes lets the client in with the state that it holds; a shorter one
    /// fails the login.
    pub fn on_response(&mut self, payload: &[u8]) -> (r: Result<LoginResponse, HandshakeError>)
        ensures
            old(self)@ != HandshakeState::AwaitingResponse ==> r == Err::<
                LoginResponse,
                HandshakeError,
            >(HandshakeError::OutOfOrder) && final(self)@ == old(self)@,
            old(self)@ == HandshakeState::AwaitingResponse ==> match parse_response(payload@) {
                Some(response) => {
                    &&& r == Ok::<LoginResponse, HandshakeError>(response)
                    &&& final(self)@ == HandshakeState::Accepted
                },
                None => r == Err::<LoginResponse, HandshakeError>(
                    HandshakeError::ShortResponse { got: payload@.len() as usize },
                ) && final(self)@ == HandshakeState::Rejected,
            },
    {
        match self.state {
            HandshakeState::AwaitingResponse => match decode_login_response(payload) {
                Ok(response) => {
                    self.state = HandshakeState::Accepted;
                    Ok(response)
                },
                Err(ResponseError::TooShort { got }) => {
                    self.state = HandshakeState::Rejected;
                    Err(HandshakeError::ShortResponse { got })
                },
            },
            _ => Err(HandshakeError::OutOfOrder),
        }
    }

    /// The transport failed or the server closed the connection. A login
    /// that was under way has failed; one that was over stays as it ended.
    pub fn on_transport_failure(&mut self)
        ensures
            final(self)@ == (match old(self)@ {
                HandshakeState::Idle | HandshakeState::AwaitingResponse => HandshakeState::Rejected,
                over => over,
            }),
    {
        match self.state {
            HandshakeState::Idle | HandshakeState::AwaitingResponse => {
                self.state = HandshakeState::Rejected;
            },
            _ => {},
        }
    }
}

/// What a look at a one-shot signal finds, without waiting.
pub enum Signal<T> {
    /// Nothing was sent yet.
    Empty,
    /// The sender is gone and sent nothing.
    Closed,
    /// This was sent.
    Value(T),
}

/// Why a connection attempt failed.
pub enum ConnectFailure {
    /// The network thread gave up, for this reason.
    Failed(String),
    /// The network thread ended without a word.
    Lost,
}

/// What a poll of a connection attempt yields.
pub enum ConnectPoll<H> {
    /// Nothing has changed: the attempt is still under way.
    Pending,
    /// The connection stands: the login state and the handle of the
    /// connection.
    Established(LoginResponse, H),
    /// The attempt has failed for good.
    Failed(ConnectFailure),
}

/// A connection attempt under way. It holds the handle of the connection
/// until the attempt succeeds, and then gives it up, once.
pub struct Connecting<H> {
    handle: Option<H>,
}

impl<H> Connecting<H> {
    /// Whether the handle has not been given up yet.
    pub closed spec fn holds_handle(&self) -> bool {
        self.handle is Some
    }

    /// The handle that the attempt holds.
    pub closed spec fn handle(&self) -> H
        recommends
            self.holds_handle(),
    {
        self.handle->Some_0
    }

    /// An attempt that holds `handle`.
    pub fn new(handle: H) -> (c: Self)
        ensures
            c.holds_handle(),
            c.handle() == handle,
    {
        Connecting { handle: Some(handle) }
    }

    /// Whether the attempt still holds the handle: it does until a poll has
    /// yielded the connection.
    pub fn has_handle(&self) -> (b: bool)
        ensures
            b == self.holds_handle(),
    {
        self.handle.is_some()
    }

    /// Polls the attempt with what the result signal holds right now. An
    /// empty signal means pending, a failure is handed on, and a success
    /// yields the login state together with the handle. The signal is
    /// one-shot: it does not bring a second success.
    pub fn tick(&mut self, signal: Signal<Result<LoginResponse, String>>) -> (r: ConnectPoll<H>)
        requires
            signal matches Signal::Value(Ok(_)) ==> old(self).holds_handle(),
        ensures
            match signal {
                Signal::Empty => r is Pending && *final(self) == *old(self),
                Signal::Closed => {
                    &&& r matches ConnectPoll::Failed(ConnectFailure::Lost)
                    &&& *final(self) == *old(self)
                },
                Signal::Value(Err(reason)) => r matches ConnectPoll::Failed(
                    ConnectFailure::Failed(text),
                ) && text@ == reason@ && *final(self) == *old(self),
                Signal::Value(Ok(response)) => {
                    &&& r matches ConnectPoll::Established(state, handle) && state == response
                        && handle == old(self).handle()
                    &&& !final(self).holds_handle()
                },
            },
    {
        match signal {
            Signal::Value(Ok(response)) => match self.handle.take() {
                Some(handle) => ConnectPoll::Established(response, handle),
                None => ConnectPoll::Pending,
            },
            Signal::Value(Err(reason)) => ConnectPoll::Failed(ConnectFailure::Failed(reason)),
            Signal::Empty => ConnectPoll::Pending,
            Signal::Closed => ConnectPoll::Failed(ConnectFailure::Lost),
        }
    }
}

/// The sending side of a one-shot stop signal. It gives the sender up the
/// first time that a stop is asked for, and has nothing to give after that:
/// to ask again is harmless.
pub struct StopSignal<S> {
    sender: Option<S>,
}

impl<S> StopSignal<S> {
    /// Whether the signal has not been fired yet.
    pub closed spec fn armed(&self) -> bool {
        self.sender is Some
    }

    /// The sender that the signal holds.
    pub closed spec fn sender(&self) -> S
        recommends
            self.armed(),
    {
        self.sender->Some_0
    }

    /// A signal that holds `sender` and has not been fired.
    pub fn new(sender: S) -> (s: Self)
        ensures
            s.armed(),
            s.sender() == sender,
    {
        StopSignal { sender: Some(sender) }
    }

    /// Whether a stop has not been asked for yet.
    pub fn is_armed(&self) -> (b: bool)
        ensures
            b == self.armed(),
    {
        self.sender.is_some()
    }

    /// Asks for a stop. The first call hands out the sender, through which
    /// the caller fires the signal; every later call hands out nothing.
    pub fn request_stop(&mut self) -> (fire: Option<S>)
        ensures
            !final(self).armed(),
            old(self).armed() ==> fire == Some(old(self).sender()),
            !old(self).armed() ==> fire is None,
    {
        self.sender.take()
    }
}

} // verus!
