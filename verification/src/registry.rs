//! The handles that are in use. The game loop owns the registry: it hands
//! out a handle when it lets a player in and takes it back when the player
//! has left, so that no handle names two open sessions.

use crate::handshake::{LoginResponse, LoginResult, Vec2Bits, Vec3Bits};
use crate::net::{NetworkId, RawNetworkId, MAX_ONLINE_PLAYERS};
use vstd::prelude::*;

verus! {

/// Which handles name an open session.
pub struct SessionRegistry {
    used: Vec<bool>,
}

impl View for SessionRegistry {
    type V = Set<RawNetworkId>;

    /// The wire forms of the handles in use.
    closed spec fn view(&self) -> Set<RawNetworkId> {
        Set::new(|raw: RawNetworkId| 1 <= raw <= MAX_ONLINE_PLAYERS && self.used@[raw as int])
    }
}

/// Whether every handle that can be handed out is in `open`.
pub open spec fn is_full(open: Set<RawNetworkId>) -> bool {
    forall|raw: RawNetworkId| 1 <= raw <= MAX_ONLINE_PLAYERS ==> open.contains(raw)
}

/// The least handle that can be handed out and is not in `open`.
pub open spec fn least_free(open: Set<RawNetworkId>) -> RawNetworkId
    recommends
        !is_full(open),
{
    choose|raw: RawNetworkId|
        1 <= raw <= MAX_ONLINE_PLAYERS && !open.contains(raw) && forall|other: RawNetworkId|
            1 <= other < raw ==> open.contains(other)
}

impl SessionRegistry {
    #[verifier::type_invariant]
    spec fn one_flag_per_handle(&self) -> bool {
        self.used@.len() == MAX_ONLINE_PLAYERS + 1
    }

    /// A registry with no open session.
    pub fn new() -> (r: Self)
        ensures
            r@ == Set::<RawNetworkId>::empty(),
    {
        let mut used: Vec<bool> = Vec::new();
        let mut i: u16 = 0;
        while i <= MAX_ONLINE_PLAYERS
            invariant
                i <= MAX_ONLINE_PLAYERS + 1,
                used@.len() == i,
                forall|j: int| 0 <= j < i ==> !used@[j],
            decreases MAX_ONLINE_PLAYERS + 1 - i,
        {
            used.push(false);
            i = i + 1;
        }
        let r = SessionRegistry { used };
        proof {
            assert(r@ =~= Set::<RawNetworkId>::empty());
        }
        r
    }

    /// Whether `id` names an open session.
    pub fn is_open(&self, id: NetworkId) -> (b: bool)
        ensures
            b == self@.contains(id@),
    {
        proof {
            use_type_invariant(self);
        }
        let raw = id.raw();
        raw >= 1 && raw <= MAX_ONLINE_PLAYERS && self.used[raw as usize]
    }

    /// Hands out the least handle that is not in use, if there is one. The
    /// handle is never zero, and it stays in use until it is released.
    pub fn allocate(&mut self) -> (r: Option<NetworkId>)
        ensures
            is_full(old(self)@) <==> r is None,
            r is None ==> final(self)@ == old(self)@,
            r matches Some(id) ==> {
                &&& id@ == least_free(old(self)@)
                &&& 1 <= id@ <= MAX_ONLINE_PLAYERS
                &&& !old(self)@.contains(id@)
                &&& final(self)@ == old(self)@.insert(id@)
            },
    {
        proof {
            use_type_invariant(&*self);
        }
        let mut raw: u16 = 1;
        while raw <= MAX_ONLINE_PLAYERS
            invariant
                1 <= raw <= MAX_ONLINE_PLAYERS + 1,
                self.used@.len() == MAX_ONLINE_PLAYERS + 1,
                *self == *old(self),
                forall|other: RawNetworkId| 1 <= other < raw ==> self@.contains(other),
            decreases MAX_ONLINE_PLAYERS + 1 - raw,
        {
            if !self.used[raw as usize] {
                self.used[raw as usize] = true;
                proof {
                    assert(self@ =~= old(self)@.insert(raw));
                    assert(!old(self)@.contains(raw));
                    let least = least_free(old(self)@);
                    assert(least == raw) by {
                        if least < raw {
                            assert(old(self)@.contains(least));
                        }
                        if raw < least {
                            assert(old(self)@.contains(raw));
                        }
                    }
                }
                return Some(NetworkId::from_raw(raw));
            }
            raw = raw + 1;
        }
        None
    }

    /// Takes back the handle `id`: it names no open session any more.
    pub fn release(&mut self, id: NetworkId)
        ensures
            final(self)@ == old(self)@.remove(id@),
    {
        proof {
            use_type_invariant(&*self);
        }
        let raw = id.raw();
        if raw >= 1 && raw <= MAX_ONLINE_PLAYERS {
            self.used[raw as usize] = false;
        }
        proof {
            assert(self@ =~= old(self)@.remove(raw));
        }
    }

    /// Answers a login: lets the player in with a fresh handle and the given
    /// spawn state, or turns the player away when every handle is in use.
    pub fn answer_login(
        &mut self,
        position: Vec3Bits,
        head_rotation: Vec2Bits,
        world_seed: u64,
    ) -> (r: LoginResult)
        ensures
            is_full(old(self)@) <==> r is Denied,
            r is Denied ==> final(self)@ == old(self)@ && r->reason@ == "Server is full"@,
            r matches LoginResult::Accepted(response) ==> {
                &&& response.nid@ == least_free(old(self)@)
                &&& response.nid@ != 0
                &&& !old(self)@.contains(response.nid@)
                &&& final(self)@ == old(self)@.insert(response.nid@)
                &&& response.position == position
                &&& response.head_rotation == head_rotation
                &&& response.world_seed == world_seed
            },
    {
        match self.allocate() {
            Some(nid) => LoginResult::Accepted(
                LoginResponse { nid, position, head_rotation, world_seed },
            ),
            None => LoginResult::Denied { reason: "Server is full".to_owned() },
        }
    }
}

/// No handle twice: of two handles handed out one after the other, with no
/// release in between, the second is not the first.
pub proof fn lemma_fresh_handles_differ(open: Set<RawNetworkId>)
    requires
        !is_full(open),
        !is_full(open.insert(least_free(open))),
    ensures
        least_free(open.insert(least_free(open))) != least_free(open),
        least_free(open) != 0,
{
    lemma_least_free(open);
    lemma_least_free(open.insert(least_free(open)));
}

/// Where not every handle is in use, the least free handle is one that can
/// be handed out and is not in use.
pub proof fn lemma_least_free(open: Set<RawNetworkId>)
    requires
        !is_full(open),
    ensures
        1 <= least_free(open) <= MAX_ONLINE_PLAYERS,
        !open.contains(least_free(open)),
        forall|other: RawNetworkId| 1 <= other < least_free(open) ==> open.contains(other),
{
    let witness = choose|raw: RawNetworkId| 1 <= raw <= MAX_ONLINE_PLAYERS && !open.contains(raw);
    lemma_least_below(open, witness);
}

/// Below any free handle there is a least one.
proof fn lemma_least_below(open: Set<RawNetworkId>, free: RawNetworkId)
    requires
        1 <= free <= MAX_ONLINE_PLAYERS,
        !open.contains(free),
    ensures
        exists|raw: RawNetworkId|
            1 <= raw <= MAX_ONLINE_PLAYERS && !open.contains(raw) && forall|other: RawNetworkId|
                1 <= other < raw ==> open.contains(other),
    decreases free,
{
    if exists|lower: RawNetworkId| 1 <= lower < free && !open.contains(lower) {
        let lower = choose|lower: RawNetworkId| 1 <= lower < free && !open.contains(lower);
        lemma_least_below(open, lower);
    } else {
        assert(forall|other: RawNetworkId| 1 <= other < free ==> open.contains(other));
    }
}

} // verus!
