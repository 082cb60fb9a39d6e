//! The window in which the main lane confirms a fast-path certificate.
//!
//! A certificate with its lineage at round `R` binds unless the main lane,
//! within the rounds `(R, R + K]`, touches the same object with another payload.
//! Conflicts beyond the window are settled by the main lane itself.

use vstd::prelude::*;

use crate::bytes::same_array;
use crate::fastpath::cert::{CertHash, FastPathCert, FastPathTx, OwnedObjectId, Round};

verus! {

/// Main-lane confirmation depth `K`.
pub const FAST_PATH_CONFIRMATION_K: u32 = 4;

/// A transaction of the linearized main lane.
#[derive(Debug, Clone, Copy, PartialEq, Eq)]
pub struct MainLaneTx {
    /// Round at which it was committed.
    pub round: Round,
    /// Object touched.
    pub object: OwnedObjectId,
    /// Digest of the payload.
    pub payload_digest: [u8; 32],
    /// Parent in the main-lane graph.
    pub lineage: CertHash,
}

/// Whether `round` lies in the binding window of `tx`.
pub open spec fn in_window(tx: FastPathTx, round: Round) -> bool {
    tx.lineage_round < round <= tx.lineage_round + FAST_PATH_CONFIRMATION_K
}

/// Whether `seen` contradicts `tx`.
pub open spec fn conflicts(tx: FastPathTx, seen: MainLaneTx) -> bool {
    &&& in_window(tx, seen.round)
    &&& seen.object == tx.object
    &&& seen.payload_digest != tx.payload_digest
}

/// Whether `i` is the place of the first transaction that contradicts `tx`.
pub open spec fn first_conflict(tx: FastPathTx, main_lane: Seq<MainLaneTx>, i: int) -> bool {
    &&& 0 <= i < main_lane.len()
    &&& conflicts(tx, main_lane[i])
    &&& forall|j: int| 0 <= j < i ==> !conflicts(tx, #[trigger] main_lane[j])
}

/// The place of the first main-lane transaction that contradicts `tx`.
pub fn find_conflict(tx: &FastPathTx, main_lane: &[MainLaneTx]) -> (r: Option<usize>)
    requires
        tx.lineage_round + FAST_PATH_CONFIRMATION_K <= u64::MAX,
    ensures
        match r {
            Some(i) => first_conflict(*tx, main_lane@, i as int),
            None => forall|j: int|
                0 <= j < main_lane@.len() ==> !conflicts(*tx, #[trigger] main_lane@[j]),
        },
{
    let lo: u64 = tx.lineage_round + 1;
    let hi: u64 = tx.lineage_round + FAST_PATH_CONFIRMATION_K as u64;
    let n: usize = main_lane.len();
    let mut i: usize = 0;
    while i < n
        invariant
            i <= n,
            n == main_lane@.len(),
            lo == tx.lineage_round + 1,
            hi == tx.lineage_round + FAST_PATH_CONFIRMATION_K,
            forall|j: int| 0 <= j < i ==> !conflicts(*tx, #[trigger] main_lane@[j]),
        decreases n - i,
    {
        let seen = main_lane[i];
        if lo <= seen.round && seen.round <= hi && same_array(&seen.object.0, &tx.object.0)
            && !same_array(&seen.payload_digest, &tx.payload_digest) {
            return Some(i);
        }
        i = i + 1;
    }
    None
}

/// Whether the main lane has no conflict with `cert` in its binding window.
pub fn is_main_lane_consistent(cert: &FastPathCert, main_lane: &[MainLaneTx]) -> (r: bool)
    requires
        cert.tx.lineage_round + FAST_PATH_CONFIRMATION_K <= u64::MAX,
    ensures
        r == forall|j: int|
            0 <= j < main_lane@.len() ==> !conflicts(cert.tx, #[trigger] main_lane@[j]),
{
    find_conflict(&cert.tx, main_lane).is_none()
}

} // verus!
