//! Fast-path certificates.

use vstd::prelude::*;

use crate::ordered::OrderedSet;

verus! {

/// Number of a committee member.
pub type AuthorityId = u32;

/// Consensus round.
pub type Round = u64;

/// Hash of a main-lane certificate.
#[derive(Debug, Clone, Copy, PartialEq, Eq, Hash, PartialOrd, Ord)]
pub struct CertHash(pub [u8; 32]);

impl From<[u8; 32]> for CertHash {
    fn from(bytes: [u8; 32]) -> (h: CertHash) {
        CertHash(bytes)
    }
}

impl vstd::std_specs::convert::FromSpecImpl<[u8; 32]> for CertHash {
    open spec fn obeys_from_spec() -> bool {
        true
    }

    open spec fn from_spec(bytes: [u8; 32]) -> CertHash {
        CertHash(bytes)
    }
}

/// Identifier of an owned object.
#[derive(Debug, Clone, Copy, PartialEq, Eq, Hash, PartialOrd, Ord)]
pub struct OwnedObjectId(pub [u8; 32]);

/// Address of the sole signer of a fast-path transaction.
#[derive(Debug, Clone, Copy, PartialEq, Eq, Hash, PartialOrd, Ord)]
pub struct OwnerAddress(pub [u8; 32]);

/// A fast-path transaction.
#[derive(Debug, Clone, Copy, PartialEq, Eq, Hash)]
pub struct FastPathTx {
    /// Owned object touched.
    pub object: OwnedObjectId,
    /// Sole signer.
    pub owner: OwnerAddress,
    /// Nonce that grows with every transaction on the object.
    pub nonce: u64,
    /// Main-lane certificate from which the transaction descends.
    pub lineage: CertHash,
    /// Round of that certificate.
    pub lineage_round: Round,
    /// Digest of the payload.
    pub payload_digest: [u8; 32],
}

/// A fast-path certificate of a committee quorum.
#[derive(Debug, PartialEq, Eq)]
pub struct FastPathCert {
    /// The certified transaction.
    pub tx: FastPathTx,
    /// Committee members that signed.
    pub signers: OrderedSet<AuthorityId>,
}

impl Clone for FastPathCert {
    fn clone(&self) -> (c: FastPathCert)
        ensures
            c.tx == self.tx,
            c.signers@ == self.signers@,
    {
        FastPathCert { tx: self.tx, signers: self.signers.clone() }
    }
}

} // verus!
