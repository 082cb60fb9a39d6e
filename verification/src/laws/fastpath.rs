//! Fast-path quorums, equivocation proofs and slashing.

use vstd::prelude::*;

use crate::fastpath::binding::{conflicts, first_conflict, MainLaneTx};
use crate::fastpath::cert::{AuthorityId, CertHash, FastPathTx};
use crate::fastpath::quorum::{first_stranger, quorum_of};
use crate::fastpath::ring::{full_slash, MemberView};
use crate::fastpath::slashing::{in_order, penalties, stake_sum, unseated};
use crate::laws::stake::{lemma_total_remove, total};
use crate::ordered::{
    lemma_rows_map_dom, lemma_sorted_rows, rows_map, sorted_rows, unit_map, OrderedKey,
};

verus! {

/// A quorum is more than two thirds of its committee and not more than all of it.
pub proof fn law_quorum_is_a_supermajority(n: nat)
    requires
        n > 0,
    ensures
        3 * quorum_of(n) > 2 * n,
        1 <= quorum_of(n) <= n,
{
}

/// With `3 f + 1` members the quorum is `2 f + 1`.
pub proof fn law_quorum_tolerates_f_faults(f: nat)
    ensures
        quorum_of(3 * f + 1) == 2 * f + 1,
{
}

/// A quorum leaves out as many members as can be faulty, a third of the committee
/// rounded up less one, and no fewer.
pub proof fn law_quorum_leaves_out_the_faulty(n: nat)
    requires
        n > 0,
    ensures
        3 * (n - quorum_of(n)) < n,
        n <= 3 * (n - quorum_of(n)) + 3,
        quorum_of(0) == 1,
{
}

/// A stranger that is reported is a signer outside the committee, and none that is
/// smaller is one.
pub proof fn law_the_smallest_stranger_is_reported(
    signers: Set<AuthorityId>,
    n: u32,
    s: AuthorityId,
    other: AuthorityId,
)
    requires
        first_stranger(signers, n, s),
    ensures
        signers.contains(s),
        s >= n,
        signers.contains(other) && other < s ==> other < n,
{
}

/// Two quorums of a committee share more members than can be faulty.
pub proof fn law_quorums_share_an_honest_member(
    n: nat,
    committee: Set<AuthorityId>,
    a: Set<AuthorityId>,
    b: Set<AuthorityId>,
)
    requires
        n > 0,
        committee.finite(),
        committee.len() == n,
        a.subset_of(committee),
        b.subset_of(committee),
        a.len() >= quorum_of(n),
        b.len() >= quorum_of(n),
    ensures
        a.intersect(b).len() > (n - 1) / 3,
{
    vstd::set_lib::lemma_len_subset(a, committee);
    vstd::set_lib::lemma_len_subset(b, committee);
    assert(a.union(b).subset_of(committee));
    vstd::set_lib::lemma_len_subset(a.union(b), committee);
    vstd::set_lib::lemma_set_intersect_union_lens(a, b);
}

/// A certificate contradicts the main lane exactly where some transaction makes a
/// proof against it.
pub proof fn law_conflicts_make_proofs(tx: FastPathTx, main_lane: Seq<MainLaneTx>)
    ensures
        (exists|i: int| 0 <= i < main_lane.len() && conflicts(tx, #[trigger] main_lane[i]))
            <==> (exists|i: int| #[trigger] first_conflict(tx, main_lane, i)),
    decreases main_lane.len(),
{
    if exists|i: int| 0 <= i < main_lane.len() && conflicts(tx, #[trigger] main_lane[i]) {
        let init = main_lane.drop_last();
        law_conflicts_make_proofs(tx, init);
        if exists|i: int| 0 <= i < init.len() && conflicts(tx, #[trigger] init[i]) {
            let i = choose|i: int| #[trigger] first_conflict(tx, init, i);
            assert forall|j: int| 0 <= j < i implies !conflicts(
                tx,
                #[trigger] main_lane[j],
            ) by {
                assert(init[j] == main_lane[j]);
            }
            assert(init[i] == main_lane[i]);
            assert(first_conflict(tx, main_lane, i));
        } else {
            assert forall|j: int| 0 <= j < init.len() implies !conflicts(
                tx,
                #[trigger] main_lane[j],
            ) by {
                assert(init[j] == main_lane[j]);
            }
            assert(first_conflict(tx, main_lane, main_lane.len() - 1));
        }
    }
}

/// A main-lane transaction contradicts a certificate exactly where it comes one
/// to four rounds after the lineage round, touches the same object and carries
/// another payload. Its own lineage plays no part.
pub proof fn law_conflicts_fall_in_the_window(tx: FastPathTx, seen: MainLaneTx, lineage: CertHash)
    ensures
        conflicts(tx, seen) <==> 1 <= seen.round - tx.lineage_round <= 4 && seen.object
            == tx.object && seen.payload_digest != tx.payload_digest,
        conflicts(tx, MainLaneTx { lineage, ..seen }) == conflicts(tx, seen),
{
}

/// The transaction in a proof is the earliest of the main lane that contradicts
/// the certificate.
pub proof fn law_proofs_name_the_first_conflict(
    tx: FastPathTx,
    main_lane: Seq<MainLaneTx>,
    i: int,
    j: int,
)
    requires
        first_conflict(tx, main_lane, i),
        0 <= j < main_lane.len(),
        1 <= main_lane[j].round - tx.lineage_round <= 4,
        main_lane[j].object == tx.object,
        main_lane[j].payload_digest != tx.payload_digest,
    ensures
        i <= j,
        1 <= main_lane[i].round - tx.lineage_round <= 4,
        main_lane[i].object == tx.object,
        main_lane[i].payload_digest != tx.payload_digest,
{
}

/// The list of signers holds each of them.
pub proof fn lemma_signers_in_order(s: Set<AuthorityId>)
    requires
        s.finite(),
    ensures
        forall|id: AuthorityId| #[trigger] in_order(s).contains(id) <==> s.contains(id),
        in_order(s).len() == s.len(),
{
    let m = unit_map(s);
    let rows = sorted_rows(m);
    assert(m.dom() =~= s);
    lemma_sorted_rows(m);
    lemma_rows_map_dom(rows);
    assert forall|id: AuthorityId| #[trigger] in_order(s).contains(id) implies s.contains(id) by {
        let j = choose|j: int| 0 <= j < in_order(s).len() && in_order(s)[j] == id;
        assert(rows[j].0 == id);
        assert(rows_map(rows).dom().contains(id));
    }
    assert forall|id: AuthorityId| s.contains(id) implies #[trigger] in_order(s).contains(id) by {
        assert(rows_map(rows).dom().contains(id));
        let j = choose|j: int| 0 <= j < rows.len() && (#[trigger] rows[j]).0 == id;
        assert(in_order(s)[j] == id);
    }
}

proof fn lemma_all_unseated(ids: Seq<AuthorityId>, ring: Map<AuthorityId, MemberView>)
    requires
        forall|id: AuthorityId| #[trigger] ids.contains(id) ==> !ring.dom().contains(id),
    ensures
        penalties(ids, ring).len() == 0,
        unseated(ids, ring) == ids,
    decreases ids.len(),
{
    if ids.len() > 0 {
        let init = ids.drop_last();
        assert(ids.contains(ids[ids.len() - 1]));
        assert forall|id: AuthorityId| #[trigger] init.contains(id) implies !ring.dom().contains(
            id,
        ) by {
            let j = choose|j: int| 0 <= j < init.len() && init[j] == id;
            assert(ids[j] == id);
            assert(ids.contains(id));
        }
        lemma_all_unseated(init, ring);
        assert(ids =~= init.push(ids.last()));
    } else {
        assert(unseated(ids, ring) =~= ids);
    }
}

/// Slashing twice over the same proof slashes nobody the second time: all signers
/// are then missing, and the ring stays as it is.
pub proof fn law_slashing_is_idempotent(
    ring: Map<AuthorityId, MemberView>,
    signers: Set<AuthorityId>,
)
    requires
        signers.finite(),
    ensures
        ({
            let rest = ring.remove_keys(signers);
            &&& rest.remove_keys(signers) == rest
            &&& penalties(in_order(signers), rest).len() == 0
            &&& unseated(in_order(signers), rest) == in_order(signers)
        }),
{
    let rest = ring.remove_keys(signers);
    assert(rest.remove_keys(signers) =~= rest);
    lemma_signers_in_order(signers);
    lemma_all_unseated(in_order(signers), rest);
}

/// Slashing takes the seat of every signer and of nobody else, and leaves all
/// other members as they are.
pub proof fn law_slashing_hits_the_signers(
    ring: Map<AuthorityId, MemberView>,
    signers: Set<AuthorityId>,
    id: AuthorityId,
)
    ensures
        ({
            let rest = ring.remove_keys(signers);
            &&& signers.contains(id) ==> !rest.dom().contains(id)
            &&& !signers.contains(id) ==> rest.dom().contains(id) == ring.dom().contains(id)
            &&& !signers.contains(id) && ring.dom().contains(id) ==> rest[id] == ring[id]
        }),
{
}

/// Every penalty takes the whole stake and the seat of a seated signer.
pub proof fn law_penalties_are_total(
    ids: Seq<AuthorityId>,
    ring: Map<AuthorityId, MemberView>,
    i: int,
)
    requires
        0 <= i < penalties(ids, ring).len(),
    ensures
        ({
            let (id, slash) = penalties(ids, ring)[i];
            &&& ids.contains(id)
            &&& ring.dom().contains(id)
            &&& slash == full_slash(ring[id].stake_gsx)
            &&& slash.stake_lost == ring[id].stake_gsx
            &&& slash.expelled
        }),
    decreases ids.len(),
{
    let init = ids.drop_last();
    let p = penalties(init, ring);
    if i < p.len() {
        law_penalties_are_total(init, ring, i);
        let j = choose|j: int| 0 <= j < init.len() && init[j] == p[i].0;
        assert(ids[j] == p[i].0);
    } else {
        assert(ids[ids.len() - 1] == ids.last());
    }
}

/// Every signer is either slashed or missing.
pub proof fn law_every_signer_is_accounted_for(
    ids: Seq<AuthorityId>,
    ring: Map<AuthorityId, MemberView>,
)
    ensures
        penalties(ids, ring).len() + unseated(ids, ring).len() == ids.len(),
    decreases ids.len(),
{
    if ids.len() > 0 {
        law_every_signer_is_accounted_for(ids.drop_last(), ring);
    }
}

/// Every seated signer has its penalty, every other one is reported missing, and
/// nobody else is reported.
pub proof fn law_every_signer_is_reported(
    ids: Seq<AuthorityId>,
    ring: Map<AuthorityId, MemberView>,
    id: AuthorityId,
)
    ensures
        ids.contains(id) && ring.dom().contains(id) <==> exists|i: int|
            0 <= i < penalties(ids, ring).len() && (#[trigger] penalties(ids, ring)[i]).0 == id,
        ids.contains(id) && !ring.dom().contains(id) <==> unseated(ids, ring).contains(id),
    decreases ids.len(),
{
    let p = penalties(ids, ring);
    let u = unseated(ids, ring);
    if ids.len() > 0 {
        let init = ids.drop_last();
        law_every_signer_is_reported(init, ring, id);
        let q = penalties(init, ring);
        let v = unseated(init, ring);
        assert(ids =~= init.push(ids.last()));
        assert(ids.contains(id) <==> init.contains(id) || id == ids.last()) by {
            if init.contains(id) {
                let j = choose|j: int| 0 <= j < init.len() && init[j] == id;
                assert(ids[j] == id);
            }
            if id == ids.last() {
                assert(ids[ids.len() - 1] == id);
            }
        }
        if ids.contains(id) && ring.dom().contains(id) {
            if init.contains(id) {
                let i = choose|i: int| 0 <= i < q.len() && (#[trigger] q[i]).0 == id;
                assert(p[i].0 == id);
            } else {
                assert(p[p.len() - 1].0 == id);
            }
        }
        if exists|i: int| 0 <= i < p.len() && (#[trigger] p[i]).0 == id {
            let i = choose|i: int| 0 <= i < p.len() && (#[trigger] p[i]).0 == id;
            if i < q.len() {
                assert(q[i].0 == id);
            }
        }
        if ids.contains(id) && !ring.dom().contains(id) {
            if init.contains(id) {
                let i = choose|i: int| 0 <= i < v.len() && v[i] == id;
                assert(u[i] == id);
            } else {
                assert(u[u.len() - 1] == id);
            }
        }
        if u.contains(id) {
            let i = choose|i: int| 0 <= i < u.len() && u[i] == id;
            if i < v.len() {
                assert(v[i] == id);
            }
        }
    }
}

/// The bonded stakes of a ring.
pub open spec fn bonded_stakes(ring: Map<AuthorityId, MemberView>) -> Map<AuthorityId, u64> {
    Map::new(|id: AuthorityId| ring.dom().contains(id), |id: AuthorityId| ring[id].stake_gsx)
}

proof fn lemma_forfeits(ids: Seq<AuthorityId>, ring: Map<AuthorityId, MemberView>)
    requires
        ring.dom().finite(),
        ids.no_duplicates(),
    ensures
        stake_sum(penalties(ids, ring)) + total(bonded_stakes(ring.remove_keys(ids.to_set())))
            == total(bonded_stakes(ring)),
    decreases ids.len(),
{
    if ids.len() == 0 {
        assert(ring.remove_keys(ids.to_set()) =~= ring);
    } else {
        let init = ids.drop_last();
        let id = ids.last();
        lemma_forfeits(init, ring);
        let before = bonded_stakes(ring.remove_keys(init.to_set()));
        let after = bonded_stakes(ring.remove_keys(ids.to_set()));
        assert(before.dom().subset_of(ring.dom()));
        vstd::set_lib::lemma_set_subset_finite(ring.dom(), before.dom());
        lemma_total_remove(before, id);
        assert(!init.contains(id)) by {
            if init.contains(id) {
                let j = choose|j: int| 0 <= j < init.len() && init[j] == id;
                assert(ids[j] == ids[ids.len() - 1]);
            }
        }
        assert forall|x: AuthorityId| #[trigger] ids.to_set().contains(x)
            <==> init.to_set().contains(x) || x == id by {
            if ids.contains(x) {
                let j = choose|j: int| 0 <= j < ids.len() && ids[j] == x;
                if j < init.len() {
                    assert(init[j] == x);
                }
            }
            if init.contains(x) {
                let j = choose|j: int| 0 <= j < init.len() && init[j] == x;
                assert(ids[j] == x);
            }
            assert(ids[ids.len() - 1] == id);
        }
        assert(after =~= before.remove(id));
        let p = penalties(init, ring);
        if ring.dom().contains(id) {
            assert(penalties(ids, ring).drop_last() =~= p);
        }
    }
}

/// What the slashed signers forfeit is what leaves the ring: all the stake that
/// they had bonded, and none of anyone else's.
pub proof fn law_forfeited_stake_leaves_the_ring(
    ring: Map<AuthorityId, MemberView>,
    signers: Set<AuthorityId>,
)
    requires
        ring.dom().finite(),
        signers.finite(),
    ensures
        stake_sum(penalties(in_order(signers), ring)) + total(
            bonded_stakes(ring.remove_keys(signers)),
        ) == total(bonded_stakes(ring)),
{
    let ids = in_order(signers);
    let m = unit_map(signers);
    let rows = sorted_rows(m);
    assert(m.dom() =~= signers);
    lemma_sorted_rows(m);
    lemma_signers_in_order(signers);
    assert(ids.no_duplicates()) by {
        assert forall|a: int, b: int|
            0 <= a < ids.len() && 0 <= b < ids.len() && a != b implies ids[a] != ids[b] by {
            if a < b {
                assert(rows[a].0.before(rows[b].0));
            } else {
                assert(rows[b].0.before(rows[a].0));
            }
        }
    }
    assert(ids.to_set() =~= signers) by {
        assert forall|x: AuthorityId| ids.to_set().contains(x) <==> signers.contains(x) by {
            assert(ids.contains(x) <==> signers.contains(x));
        }
    }
    lemma_forfeits(ids, ring);
}

/// The penalties and the missing signers are listed by ascending number.
pub proof fn law_reports_are_in_order(
    ring: Map<AuthorityId, MemberView>,
    signers: Set<AuthorityId>,
    i: int,
    j: int,
)
    requires
        signers.finite(),
        0 <= i < j,
    ensures
        ({
            let p = penalties(in_order(signers), ring);
            let u = unseated(in_order(signers), ring);
            &&& j < p.len() ==> p[i].0 < p[j].0
            &&& j < u.len() ==> u[i] < u[j]
        }),
{
    let ids = in_order(signers);
    let m = unit_map(signers);
    let rows = sorted_rows(m);
    assert(m.dom() =~= signers);
    lemma_sorted_rows(m);
    assert forall|a: int, b: int| 0 <= a < b < ids.len() implies #[trigger] ids[a]
        < #[trigger] ids[b] by {
        assert(rows[a].0.before(rows[b].0));
    }
    lemma_reports_ascend(ids, ring);
}

proof fn lemma_reports_ascend(ids: Seq<AuthorityId>, ring: Map<AuthorityId, MemberView>)
    requires
        forall|a: int, b: int|
            0 <= a < b < ids.len() ==> #[trigger] ids[a] < #[trigger] ids[b],
    ensures
        forall|a: int, b: int|
            0 <= a < b < penalties(ids, ring).len() ==> (#[trigger] penalties(ids, ring)[a]).0 < (
            #[trigger] penalties(ids, ring)[b]).0,
        forall|a: int, b: int|
            0 <= a < b < unseated(ids, ring).len() ==> #[trigger] unseated(ids, ring)[a]
                < #[trigger] unseated(ids, ring)[b],
    decreases ids.len(),
{
    if ids.len() > 0 {
        let init = ids.drop_last();
        assert forall|a: int, b: int| 0 <= a < b < init.len() implies #[trigger] init[a]
            < #[trigger] init[b] by {
            assert(ids[a] < ids[b]);
        }
        lemma_reports_ascend(init, ring);
        let p = penalties(init, ring);
        let u = unseated(init, ring);
        assert forall|a: int| 0 <= a < p.len() implies (#[trigger] p[a]).0 < ids.last() by {
            law_penalties_are_total(init, ring, a);
            let k = choose|k: int| 0 <= k < init.len() && init[k] == p[a].0;
            assert(ids[k] < ids[ids.len() - 1]);
        }
        assert forall|a: int| 0 <= a < u.len() implies #[trigger] u[a] < ids.last() by {
            law_every_signer_is_reported(init, ring, u[a]);
            assert(u.contains(u[a]));
            let k = choose|k: int| 0 <= k < init.len() && init[k] == u[a];
            assert(ids[k] < ids[ids.len() - 1]);
        }
    }
}

} // verus!
