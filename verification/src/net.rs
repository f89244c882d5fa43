//! The constants of the protocol and the handle by which peers name a
//! connected entity.

use vstd::prelude::*;

verus! {

/// Version of the protocol that this build speaks.
pub const PROTOCOL_VERSION: u16 = 0;

/// Tag that opens every login request.
pub const PROTOCOL_MAGIC: u16 = 0xB7C1;

/// Largest number of players that may be online at once.
pub const MAX_ONLINE_PLAYERS: u16 = 64;

/// The wire form of a [`NetworkId`].
pub type RawNetworkId = u16;

/// A handle that names one connected entity to all peers for the life of its
/// session. The server hands it out when a login is accepted. Zero names no
/// entity.
#[derive(Debug, Clone, Copy, PartialEq, Eq, Structural)]
pub struct NetworkId(RawNetworkId);

impl View for NetworkId {
    type V = RawNetworkId;

    closed spec fn view(&self) -> RawNetworkId {
        self.0
    }
}

impl NetworkId {
    /// The handle that names no entity.
    pub fn invalid() -> (id: Self)
        ensures
            id@ == 0,
    {
        NetworkId(0)
    }

    /// The handle with the wire form `raw`, in contracts.
    pub closed spec fn spec_from_raw(raw: RawNetworkId) -> NetworkId {
        NetworkId(raw)
    }

    /// A handle is the handle of its own wire form.
    pub proof fn lemma_from_raw(id: NetworkId)
        ensures
            NetworkId::spec_from_raw(id@) == id,
            forall|raw: RawNetworkId| #[trigger] NetworkId::spec_from_raw(raw)@ == raw,
    {
    }

    /// The handle with the wire form `raw`.
    pub fn from_raw(raw: RawNetworkId) -> (id: Self)
        ensures
            id == NetworkId::spec_from_raw(raw),
            id@ == raw,
    {
        NetworkId(raw)
    }

    /// The wire form of the handle.
    pub fn raw(self) -> (raw: RawNetworkId)
        ensures
            raw == self@,
    {
        self.0
    }

    /// Whether the handle names an entity.
    pub fn is_valid(self) -> (b: bool)
        ensures
            b == (self@ != 0),
    {
        self.0 != 0
    }
}

} // verus!
