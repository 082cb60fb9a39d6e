//! The fast-path quorum.
//!
//! With `f = (n - 1) / 3` tolerated faults the quorum of `n` members is
//! `n - f`, the same threshold as the main lane.

use vstd::prelude::*;

use crate::fastpath::cert::{AuthorityId, FastPathCert, FastPathTx};
use crate::ordered::{ascending, lemma_rows_map_dom, rows_map, OrderedSet};

verus! {

/// Why a certificate is refused.
#[derive(Debug, Clone, Copy, PartialEq, Eq)]
pub enum FastPathError {
    /// Too few signers.
    BelowQuorum {
        /// Signers supplied.
        have: u32,
        /// Signers required.
        need: u32,
    },
    /// A signer outside the committee.
    UnknownSigner(AuthorityId),
}

/// The quorum of a committee of `n` members.
pub open spec fn quorum_of(n: nat) -> nat {
    if n == 0 {
        1
    } else {
        (n - (n - 1) / 3) as nat
    }
}

/// Whether `s` is the smallest signer outside a committee of `n` members.
pub open spec fn first_stranger(signers: Set<AuthorityId>, n: u32, s: AuthorityId) -> bool {
    &&& signers.contains(s)
    &&& s >= n
    &&& forall|t: AuthorityId| #[trigger] signers.contains(t) && t >= n ==> s <= t
}

/// The quorum of a committee of `n_authorities` members.
pub fn fast_path_quorum_size(n_authorities: u32) -> (q: u32)
    ensures
        q == quorum_of(n_authorities as nat),
{
    if n_authorities == 0 {
        return 1;
    }
    n_authorities - (n_authorities - 1) / 3
}

/// Ascending numbers are at least as large as their places.
proof fn lemma_numbers_grow(rows: Seq<(AuthorityId, ())>, i: int)
    requires
        ascending(rows),
        0 <= i < rows.len(),
    ensures
        rows[i].0 >= i,
    decreases i,
{
    if i > 0 {
        lemma_numbers_grow(rows, i - 1);
        assert(rows[i - 1].0 < rows[i].0);
    }
}

/// Certifies `tx` where the signers are committee members and make a quorum.
pub fn certify(
    tx: FastPathTx,
    signers: OrderedSet<AuthorityId>,
    n_authorities: u32,
) -> (r: Result<FastPathCert, FastPathError>)
    ensures
        match r {
            Ok(cert) => {
                &&& cert.tx == tx
                &&& cert.signers@ == signers@
                &&& forall|s: AuthorityId| #[trigger] signers@.contains(s) ==> s < n_authorities
                &&& signers@.len() >= quorum_of(n_authorities as nat)
            },
            Err(FastPathError::UnknownSigner(s)) => first_stranger(signers@, n_authorities, s),
            Err(FastPathError::BelowQuorum { have, need }) => {
                &&& forall|s: AuthorityId| #[trigger] signers@.contains(s) ==> s < n_authorities
                &&& have == signers@.len()
                &&& need == quorum_of(n_authorities as nat)
                &&& have < need
            },
        },
{
    let members = signers.as_rows();
    let rows = members.entries();
    let n: usize = rows.len();
    proof {
        lemma_rows_map_dom(rows@);
        assert(members@.dom() =~= signers@);
    }
    let mut i: usize = 0;
    while i < n
        invariant
            i <= n,
            n == rows@.len(),
            ascending(rows@),
            rows_map(rows@).dom() == signers@,
            forall|k: AuthorityId| #[trigger]
                rows_map(rows@).dom().contains(k) <==> exists|j: int|
                    0 <= j < rows@.len() && (#[trigger] rows@[j]).0 == k,
            forall|j: int| 0 <= j < i ==> (#[trigger] rows@[j]).0 < n_authorities,
        decreases n - i,
    {
        let s: u32 = rows[i].0;
        if s >= n_authorities {
            proof {
                assert(rows@[i as int].0 == s);
                assert(signers@.contains(s));
                assert forall|t: AuthorityId| #[trigger]
                    signers@.contains(t) && t >= n_authorities implies s <= t by {
                    let j = choose|j: int| 0 <= j < rows@.len() && (#[trigger] rows@[j]).0 == t;
                    if i < j {
                        assert(rows@[i as int].0 < rows@[j].0);
                    }
                }
            }
            return Err(FastPathError::UnknownSigner(s));
        }
        i = i + 1;
    }
    proof {
        if n > 0 {
            lemma_numbers_grow(rows@, n - 1);
        }
        assert forall|s: AuthorityId| #[trigger] signers@.contains(s) implies s
            < n_authorities by {
            let j = choose|j: int| 0 <= j < rows@.len() && (#[trigger] rows@[j]).0 == s;
        }
    }
    let need: u32 = fast_path_quorum_size(n_authorities);
    let have: u32 = n as u32;
    if have < need {
        return Err(FastPathError::BelowQuorum { have, need });
    }
    Ok(FastPathCert { tx, signers })
}

} // verus!
