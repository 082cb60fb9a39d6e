//! Slashing of the signers of an equivocation.
//!
//! Every signer of the certificate in a proof loses its whole bonded stake and
//! its seat.

use vstd::prelude::*;

use crate::fastpath::cert::AuthorityId;
use crate::fastpath::equivocation::FastPathEquivocationProof;
use crate::fastpath::ring::{
    full_slash, slash_authority, AuthorityRegistry, AuthoritySlash, MemberView,
};
use crate::ordered::{ascending, lemma_rows_map_dom, rows_map, sorted_rows, unit_map};

verus! {

/// What slashing the signers of one proof did.
#[derive(Debug, Clone, PartialEq, Eq)]
pub struct FastPathSlashOutcome {
    /// The penalties of the signers that were seated.
    pub slashed: Vec<(AuthorityId, AuthoritySlash)>,
    /// The signers that were not seated.
    pub missing: Vec<AuthorityId>,
}

/// The members of `s` in ascending order.
pub open spec fn in_order(s: Set<AuthorityId>) -> Seq<AuthorityId> {
    let rows = sorted_rows(unit_map(s));
    Seq::new(rows.len(), |i: int| rows[i].0)
}

/// The penalties of those among `ids` that are seated.
pub open spec fn penalties(
    ids: Seq<AuthorityId>,
    ring: Map<AuthorityId, MemberView>,
) -> Seq<(AuthorityId, AuthoritySlash)>
    decreases ids.len(),
{
    if ids.len() == 0 {
        seq![]
    } else if ring.dom().contains(ids.last()) {
        penalties(ids.drop_last(), ring).push(
            (ids.last(), full_slash(ring[ids.last()].stake_gsx)),
        )
    } else {
        penalties(ids.drop_last(), ring)
    }
}

/// Those among `ids` that are not seated.
pub open spec fn unseated(
    ids: Seq<AuthorityId>,
    ring: Map<AuthorityId, MemberView>,
) -> Seq<AuthorityId>
    decreases ids.len(),
{
    if ids.len() == 0 {
        seq![]
    } else if ring.dom().contains(ids.last()) {
        unseated(ids.drop_last(), ring)
    } else {
        unseated(ids.drop_last(), ring).push(ids.last())
    }
}

/// The stake forfeited by all of `slashed`.
pub open spec fn stake_sum(slashed: Seq<(AuthorityId, AuthoritySlash)>) -> nat
    decreases slashed.len(),
{
    if slashed.len() == 0 {
        0
    } else {
        stake_sum(slashed.drop_last()) + slashed.last().1.stake_lost as nat
    }
}

/// The first entries forfeit no more than all of them.
proof fn lemma_stake_prefix(slashed: Seq<(AuthorityId, AuthoritySlash)>, i: int)
    requires
        0 <= i <= slashed.len(),
    ensures
        stake_sum(slashed.take(i)) <= stake_sum(slashed),
    decreases slashed.len(),
{
    if i == slashed.len() {
        assert(slashed.take(i) =~= slashed);
    } else {
        lemma_stake_prefix(slashed.drop_last(), i);
        assert(slashed.drop_last().take(i) =~= slashed.take(i));
    }
}

impl FastPathSlashOutcome {
    /// The stake forfeited by all slashed signers, which must fit.
    pub fn total_stake_lost(&self) -> (total: u64)
        requires
            stake_sum(self.slashed@) <= u64::MAX,
        ensures
            total == stake_sum(self.slashed@),
    {
        let n: usize = self.slashed.len();
        let mut total: u64 = 0;
        let mut i: usize = 0;
        while i < n
            invariant
                i <= n,
                n == self.slashed@.len(),
                stake_sum(self.slashed@) <= u64::MAX,
                total == stake_sum(self.slashed@.take(i as int)),
            decreases n - i,
        {
            proof {
                let next = self.slashed@.take(i + 1);
                assert(next.drop_last() =~= self.slashed@.take(i as int));
                assert(next.last() == self.slashed@[i as int]);
                lemma_stake_prefix(self.slashed@, i + 1);
            }
            total = total + self.slashed[i].1.stake_lost;
            i = i + 1;
        }
        assert(self.slashed@.take(n as int) =~= self.slashed@);
        total
    }
}

/// Takes the whole stake and the seat of every signer in the proof, in
/// ascending order. Signers that are not seated are reported and change nothing.
pub fn slash_fast_path_signers(
    registry: &mut AuthorityRegistry,
    proof_of_fault: &FastPathEquivocationProof,
) -> (outcome: FastPathSlashOutcome)
    ensures
        final(registry)@ == old(registry)@.remove_keys(proof_of_fault.cert.signers@),
        outcome.slashed@ == penalties(in_order(proof_of_fault.cert.signers@), old(registry)@),
        outcome.missing@ == unseated(in_order(proof_of_fault.cert.signers@), old(registry)@),
{
    let mut slashed: Vec<(AuthorityId, AuthoritySlash)> = Vec::new();
    let mut missing: Vec<AuthorityId> = Vec::new();
    let members = proof_of_fault.cert.signers.as_rows();
    let rows = members.entries();
    let n: usize = rows.len();
    let ghost ids = in_order(proof_of_fault.cert.signers@);
    let ghost start = registry@;
    let mut i: usize = 0;
    assert(registry@ =~= start.remove_keys(ids.take(0).to_set()));
    while i < n
        invariant
            i <= n,
            n == rows@.len(),
            n == ids.len(),
            forall|j: int| 0 <= j < n ==> #[trigger] ids[j] == rows@[j].0,
            ascending(rows@),
            registry@ == start.remove_keys(ids.take(i as int).to_set()),
            slashed@ == penalties(ids.take(i as int), start),
            missing@ == unseated(ids.take(i as int), start),
        decreases n - i,
    {
        let author: u32 = rows[i].0;
        proof {
            let next = ids.take(i + 1);
            let prev = ids.take(i as int);
            assert(next.drop_last() =~= prev);
            assert(next.last() == ids[i as int]);
            assert(!prev.to_set().contains(author)) by {
                if prev.to_set().contains(author) {
                    let j = choose|j: int| 0 <= j < prev.len() && prev[j] == author;
                    assert(ids[j] == rows@[j].0);
                    assert(rows@[j].0 < rows@[i as int].0);
                }
            }
            assert forall|x: AuthorityId| #[trigger] next.to_set().contains(x)
                <==> prev.to_set().contains(x) || x == author by {
                if next.to_set().contains(x) {
                    let j = choose|j: int| 0 <= j < next.len() && next[j] == x;
                    if j < i {
                        assert(prev[j] == x);
                    }
                }
                if prev.to_set().contains(x) {
                    let j = choose|j: int| 0 <= j < prev.len() && prev[j] == x;
                    assert(next[j] == x);
                }
                if x == author {
                    assert(next[i as int] == x);
                }
            }
            assert(start.remove_keys(prev.to_set()).remove(author) =~= start.remove_keys(
                next.to_set(),
            ));
        }
        match slash_authority(registry, author) {
            Some(s) => slashed.push((author, s)),
            None => missing.push(author),
        }
        i = i + 1;
    }
    proof {
        assert(ids.take(n as int) =~= ids);
        lemma_rows_map_dom(rows@);
        assert forall|x: AuthorityId| #[trigger] ids.to_set().contains(x)
            <==> proof_of_fault.cert.signers@.contains(x) by {
            if ids.to_set().contains(x) {
                let j = choose|j: int| 0 <= j < ids.len() && ids[j] == x;
                assert(rows@[j].0 == x);
                assert(rows_map(rows@).dom().contains(x));
            }
            if proof_of_fault.cert.signers@.contains(x) {
                assert(rows_map(rows@).dom().contains(x));
                let j = choose|j: int| 0 <= j < rows@.len() && (#[trigger] rows@[j]).0 == x;
                assert(ids[j] == x);
            }
        }
        assert(ids.to_set() =~= proof_of_fault.cert.signers@);
    }
    FastPathSlashOutcome { slashed, missing }
}

} // verus!
