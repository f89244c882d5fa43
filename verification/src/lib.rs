//! Transport core of a real-time multiplayer game: the binary wire codecs,
//! message framing, the login handshake and the decisions of the connection
//! supervisors, each with a machine-checked contract.
//!
//! The library does no I/O and starts no thread. The program around it owns
//! the sockets, the channels and the network thread; it hands the library
//! bytes and events and carries out what the library decides.
//!
//! - [`serialization`]: readers and writers for bytes and for packed bits,
//!   with the model of what they put on the wire.
//! - [`framing`]: the length-prefixed envelope of every message.
//! - [`handshake`]: the login request and its answer.
//! - [`session`]: the server's side of one connection, from request to leave.
//! - [`connection`]: the client's side of a connection attempt.
//! - [`registry`]: the handles that name the open sessions.
//! - [`message`]: what a client sends once it is logged in.

pub mod connection;
pub mod error;
pub mod framing;
pub mod handshake;
pub mod message;
pub mod net;
pub mod registry;
pub mod serialization;
pub mod session;
