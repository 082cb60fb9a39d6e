//! What the host found out about the proofs of L2 batches.
//!
//! The pairing check of a proof is made outside of the substrate. The host hands in
//! what the check said of each proof, and a commit is decided by what was said of
//! its own bytes. Like the height, findings are context of the execution: the state
//! root does not cover them.

use vstd::prelude::*;

use crate::bytes::{copy_bytes, same_array};
use crate::l2_proof::verdict_view;

verus! {

/// What is said where no pairing check was made.
pub const PAIRING_NOT_RUN: &'static str = "pairing was not run";

/// What the pairing check said of one proof.
#[derive(Debug, PartialEq, Eq)]
pub struct PairingFinding {
    /// Proof that was checked.
    pub proof_bytes: Vec<u8>,
    /// Public inputs that it was checked against.
    pub public_inputs: Vec<u8>,
    /// Hash of the verifying key that it was checked under.
    pub vk_hash: [u8; 32],
    /// What the check said.
    pub verdict: Result<(), String>,
}

/// What a pairing check is made of.
#[verifier::ext_equal]
pub struct ProofId {
    pub proof_bytes: Seq<u8>,
    pub public_inputs: Seq<u8>,
    pub vk_hash: [u8; 32],
}

impl PairingFinding {
    /// What was checked.
    pub open spec fn subject(&self) -> ProofId {
        ProofId {
            proof_bytes: self.proof_bytes@,
            public_inputs: self.public_inputs@,
            vk_hash: self.vk_hash,
        }
    }
}

/// What `v` says of each proof. A later finding replaces an earlier one.
pub open spec fn findings_map(v: Seq<PairingFinding>) -> Map<ProofId, Result<(), Seq<char>>>
    decreases v.len(),
{
    if v.len() == 0 {
        Map::empty()
    } else {
        findings_map(v.drop_last()).insert(v.last().subject(), verdict_view(v.last().verdict))
    }
}

/// What `m` says of a proof. A proof that was not checked does not pass.
pub open spec fn finding_on(m: Map<ProofId, Result<(), Seq<char>>>, p: ProofId) -> Result<
    (),
    Seq<char>,
> {
    if m.dom().contains(p) {
        m[p]
    } else {
        Err(PAIRING_NOT_RUN@)
    }
}

fn same_bytes(a: &[u8], b: &[u8]) -> (r: bool)
    ensures
        r == (a@ == b@),
{
    if a.len() != b.len() {
        return false;
    }
    let n: usize = a.len();
    let mut i: usize = 0;
    while i < n
        invariant
            i <= n,
            n == a@.len(),
            n == b@.len(),
            forall|j: int| 0 <= j < i ==> a@[j] == b@[j],
        decreases n - i,
    {
        if a[i] != b[i] {
            return false;
        }
        i = i + 1;
    }
    assert(a@ =~= b@);
    true
}

/// A copy of a verdict.
pub(crate) fn copy_verdict(verdict: &Result<(), String>) -> (r: Result<(), String>)
    ensures
        verdict_view(r) == verdict_view(*verdict),
{
    match verdict {
        Ok(_) => Ok(()),
        Err(reason) => Err(reason.clone()),
    }
}

/// What `findings` say of a proof.
pub(crate) fn find(
    findings: &Vec<PairingFinding>,
    proof_bytes: &[u8],
    public_inputs: &[u8],
    vk_hash: &[u8; 32],
) -> (r: Result<(), String>)
    ensures
        verdict_view(r) == finding_on(
            findings_map(findings@),
            (ProofId {
                proof_bytes: proof_bytes@,
                public_inputs: public_inputs@,
                vk_hash: *vk_hash,
            }),
        ),
{
    let n: usize = findings.len();
    let ghost p = ProofId {
        proof_bytes: proof_bytes@,
        public_inputs: public_inputs@,
        vk_hash: *vk_hash,
    };
    let mut r: Result<(), String> = Err(PAIRING_NOT_RUN.to_owned());
    let mut i: usize = 0;
    while i < n
        invariant
            i <= n,
            n == findings@.len(),
            p == (ProofId {
                proof_bytes: proof_bytes@,
                public_inputs: public_inputs@,
                vk_hash: *vk_hash,
            }),
            verdict_view(r) == finding_on(findings_map(findings@.take(i as int)), p),
        decreases n - i,
    {
        let f = &findings[i];
        assert(findings@.take(i + 1).drop_last() =~= findings@.take(i as int));
        assert(findings@.take(i + 1).last() == *f);
        if same_bytes(f.proof_bytes.as_slice(), proof_bytes) && same_bytes(
            f.public_inputs.as_slice(),
            public_inputs,
        ) && same_array(&f.vk_hash, vk_hash) {
            assert(f.subject() =~= p);
            r = copy_verdict(&f.verdict);
        }
        i = i + 1;
    }
    assert(findings@.take(n as int) =~= findings@);
    r
}

/// A copy of findings.
pub(crate) fn copy_findings(findings: &Vec<PairingFinding>) -> (out: Vec<PairingFinding>)
    ensures
        findings_map(out@) == findings_map(findings@),
{
    let n: usize = findings.len();
    let mut out: Vec<PairingFinding> = Vec::new();
    let mut i: usize = 0;
    while i < n
        invariant
            i <= n,
            n == findings@.len(),
            findings_map(out@) == findings_map(findings@.take(i as int)),
        decreases n - i,
    {
        let f = &findings[i];
        let ghost before = out@;
        let g = PairingFinding {
            proof_bytes: copy_bytes(f.proof_bytes.as_slice()),
            public_inputs: copy_bytes(f.public_inputs.as_slice()),
            vk_hash: f.vk_hash,
            verdict: copy_verdict(&f.verdict),
        };
        out.push(g);
        proof {
            assert(findings@.take(i + 1).drop_last() =~= findings@.take(i as int));
            assert(findings@.take(i + 1).last() == *f);
            assert(out@.drop_last() =~= before);
            assert(out@.last().subject() =~= f.subject());
        }
        i = i + 1;
    }
    assert(findings@.take(n as int) =~= findings@);
    out
}

} // verus!
