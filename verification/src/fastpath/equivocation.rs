//! Proofs that the signers of a fast-path certificate equivocated.

use vstd::prelude::*;

use crate::fastpath::binding::{
    conflicts, find_conflict, first_conflict, MainLaneTx, FAST_PATH_CONFIRMATION_K,
};
use crate::fastpath::cert::FastPathCert;

verus! {

/// A certificate together with a main-lane transaction that contradicts it.
#[derive(Debug, PartialEq, Eq)]
pub struct FastPathEquivocationProof {
    /// The certificate whose signers equivocated.
    pub cert: FastPathCert,
    /// The contradicting transaction.
    pub conflicting_tx: MainLaneTx,
}

/// Looks for a main-lane transaction that contradicts `cert`; the first one in
/// main-lane order makes the proof.
pub fn detect_fast_path_equivocation(cert: &FastPathCert, main_lane: &[MainLaneTx]) -> (r: Option<
    FastPathEquivocationProof,
>)
    requires
        cert.tx.lineage_round + FAST_PATH_CONFIRMATION_K <= u64::MAX,
    ensures
        match r {
            Some(p) => {
                &&& p.cert.tx == cert.tx
                &&& p.cert.signers@ == cert.signers@
                &&& exists|i: int| #[trigger]
                    first_conflict(cert.tx, main_lane@, i) && p.conflicting_tx == main_lane@[i]
            },
            None => forall|j: int|
                0 <= j < main_lane@.len() ==> !conflicts(cert.tx, #[trigger] main_lane@[j]),
        },
{
    match find_conflict(&cert.tx, main_lane) {
        Some(i) => {
            Some(FastPathEquivocationProof { cert: cert.clone(), conflicting_tx: main_lane[i] })
        },
        None => None,
    }
}

} // verus!
