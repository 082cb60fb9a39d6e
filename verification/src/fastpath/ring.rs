//! The seats of the Authority Ring with their bonded stake.

use vstd::prelude::*;

use crate::fastpath::cert::AuthorityId;
use crate::ordered::OrderedMap;

verus! {

/// Least bonded stake of a seated member.
pub const AUTHORITY_STAKE_THRESHOLD_GSX: u64 = 15_000_000;

/// A ring member.
#[derive(Debug, PartialEq, Eq)]
pub struct AuthorityMember {
    /// Number of the member.
    pub id: AuthorityId,
    /// Bonded stake.
    pub stake_gsx: u64,
    /// Encoded public key.
    pub public_key_bytes: Vec<u8>,
}

/// What a ring member says.
#[verifier::ext_equal]
pub struct MemberView {
    pub id: AuthorityId,
    pub stake_gsx: u64,
    pub public_key_bytes: Seq<u8>,
}

impl View for AuthorityMember {
    type V = MemberView;

    open spec fn view(&self) -> MemberView {
        MemberView {
            id: self.id,
            stake_gsx: self.stake_gsx,
            public_key_bytes: self.public_key_bytes@,
        }
    }
}

/// Why a member is not seated.
#[derive(Debug, Clone, Copy, PartialEq, Eq)]
pub enum AdmissionError {
    /// The bonded stake is below the threshold.
    StakeBelowThreshold {
        /// Stake offered.
        have: u64,
        /// Stake required.
        need: u64,
    },
    /// The seat is taken.
    AlreadySeated(AuthorityId),
}

/// The penalty of one member.
#[derive(Debug, Clone, Copy, PartialEq, Eq)]
pub struct AuthoritySlash {
    /// Stake forfeited.
    pub stake_lost: u64,
    /// Whether the member lost its seat.
    pub expelled: bool,
}

/// The penalty that takes the whole stake and the seat.
pub open spec fn full_slash(stake: u64) -> AuthoritySlash {
    AuthoritySlash { stake_lost: stake, expelled: true }
}

/// The seated members.
#[derive(Debug, PartialEq, Eq)]
pub struct AuthorityRegistry {
    seats: OrderedMap<AuthorityId, AuthorityMember>,
}

/// A ring is viewed as its seated members by number.
impl View for AuthorityRegistry {
    type V = Map<AuthorityId, MemberView>;

    closed spec fn view(&self) -> Map<AuthorityId, MemberView> {
        self.seats@.map_values(|m: AuthorityMember| m@)
    }
}

impl AuthorityRegistry {
    /// A ring without members.
    pub fn new() -> (r: AuthorityRegistry)
        ensures
            r@ == Map::<AuthorityId, MemberView>::empty(),
    {
        let r = AuthorityRegistry { seats: OrderedMap::new() };
        assert(r@ =~= Map::empty());
        r
    }

    /// Seats a member that bonds enough stake and is not seated yet.
    pub fn seat(&mut self, member: AuthorityMember) -> (r: Result<(), AdmissionError>)
        ensures
            match r {
                Ok(()) => {
                    &&& member.stake_gsx >= AUTHORITY_STAKE_THRESHOLD_GSX
                    &&& !old(self)@.dom().contains(member.id)
                    &&& final(self)@ == old(self)@.insert(member.id, member@)
                },
                Err(AdmissionError::StakeBelowThreshold { have, need }) => {
                    &&& have == member.stake_gsx
                    &&& need == AUTHORITY_STAKE_THRESHOLD_GSX
                    &&& have < need
                    &&& final(self)@ == old(self)@
                },
                Err(AdmissionError::AlreadySeated(id)) => {
                    &&& id == member.id
                    &&& member.stake_gsx >= AUTHORITY_STAKE_THRESHOLD_GSX
                    &&& old(self)@.dom().contains(id)
                    &&& final(self)@ == old(self)@
                },
            },
            r is Ok <==> member.stake_gsx >= 15_000_000 && !old(self)@.dom().contains(member.id),
    {
        let id: u32 = member.id;
        if member.stake_gsx < AUTHORITY_STAKE_THRESHOLD_GSX {
            return Err(
                AdmissionError::StakeBelowThreshold {
                    have: member.stake_gsx,
                    need: AUTHORITY_STAKE_THRESHOLD_GSX,
                },
            );
        }
        if self.contains(id) {
            return Err(AdmissionError::AlreadySeated(id));
        }
        let _ = self.seats.insert(id, member);
        assert(self@ =~= old(self)@.insert(member.id, member@));
        Ok(())
    }

    /// Whether a member is seated.
    pub fn contains(&self, id: AuthorityId) -> (r: bool)
        ensures
            r == self@.dom().contains(id),
    {
        self.seats.contains_key(&id)
    }

    fn expel(&mut self, id: AuthorityId) -> (r: Option<AuthorityMember>)
        ensures
            final(self)@ == old(self)@.remove(id),
            match r {
                Some(m) => old(self)@.dom().contains(id) && m@ == old(self)@[id],
                None => !old(self)@.dom().contains(id),
            },
    {
        let r = self.seats.remove(&id);
        assert(self@ =~= old(self)@.remove(id));
        r
    }
}

/// Takes the whole stake and the seat of a member; none where it is not seated.
pub fn slash_authority(registry: &mut AuthorityRegistry, id: AuthorityId) -> (r: Option<
    AuthoritySlash,
>)
    ensures
        final(registry)@ == old(registry)@.remove(id),
        r == if old(registry)@.dom().contains(id) {
            Some(full_slash(old(registry)@[id].stake_gsx))
        } else {
            None
        },
        r matches Some(s) ==> s.stake_lost == old(registry)@[id].stake_gsx && s.expelled,
{
    match registry.expel(id) {
        Some(m) => Some(AuthoritySlash { stake_lost: m.stake_gsx, expelled: true }),
        None => None,
    }
}

} // verus!
