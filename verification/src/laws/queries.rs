//! What queries show of the state.

use vstd::prelude::*;

use crate::assets::{assets_or_none, listed};
use crate::bytes::{be_value, field, lemma_be_limits, lemma_be_value_bound};
use crate::delegating::{amount_at, delegations, unbondings};
use crate::error::{ErrorView, ExecutionError};
use crate::intent::RewardsRing;
use crate::laws::stake::{lemma_total_insert, total};
use crate::laws::unbonding::{lemma_waiting_total, waiting_for};
use crate::ledger::{
    agrees, answer_of, balance_of, done, lemma_supply_with_balance, refused, seeded_with, supply,
    with_balance, Ledger, Step,
};
use crate::ordered::{
    ascending, lemma_rows_map_dom, lemma_sorted_rows, rows_map, sorted_rows, OrderedKey,
};
use crate::readers::{
    bonded, claimed_or_none, delegated_sum, delegated_total, readable, row_at, unbonding_total,
};
use crate::rollup::{claimed, l2_contents, l2_or_empty};
use crate::staking::ring_slots;
use crate::substrate::{Address, Balance};
use crate::transfers::{minted_epoch, paid_epoch};

verus! {

/// A query shows the rows of a registry that can be read, and no rows of one that
/// cannot.
pub proof fn law_queries_show_what_can_be_read<K, V>(
    r: Result<Map<K, V>, ExecutionError>,
    k: K,
    v: V,
)
    ensures
        row_at(readable(r), k) == Some(v) <==> (r matches Ok(m) && m.dom().contains(k) && m[k]
            == v),
        row_at(readable(r), k) is None <==> (r matches Ok(m) ==> !m.dom().contains(k)),
        r is Err ==> readable(r).dom().len() == 0,
{
}

/// The bond of a slot is what was deposited for it, nothing where the slot is free
/// or the ring cannot be read; and the claimed burns, listed assets and committed
/// batches are those in their registry, none where it cannot be read.
pub proof fn law_bonds_and_claims_show_the_registry(
    l: Ledger,
    ring: RewardsRing,
    id: u32,
    burn: [u8; 32],
)
    ensures
        bonded(l, ring, id) > 0 ==> (ring_slots(l, ring) matches Ok(m) && m.dom().contains(id)),
        ring_slots(l, ring) matches Ok(m) ==> (m.dom().contains(id) ==> bonded(l, ring, id)
            == m[id].deposited),
        claimed_or_none(l).contains(burn) <==> (claimed(l) matches Ok(s) && s.contains(burn)),
        listed(l) matches Ok(m) ==> assets_or_none(l) == m,
        listed(l) is Err ==> assets_or_none(l).dom().len() == 0,
        l2_contents(l) matches Ok(v) ==> l2_or_empty(l) == v,
        l2_contents(l) is Err ==> l2_or_empty(l).state_roots.dom().len() == 0 && l2_or_empty(
            l,
        ).chain_vks.dom().len() == 0,
{
}

/// The last minted epoch is what eight bytes spell, and zero for any other record.
/// Of sixteen bytes the first eight spell the last paid epoch of the authorities,
/// the others that of the validators; it is zero for any other record.
pub proof fn law_epochs_are_read_from_their_bytes(b: Seq<u8>)
    ensures
        b.len() == 8 ==> minted_epoch(b) == be_value(b),
        b.len() != 8 ==> minted_epoch(b) == 0,
        b.len() == 16 ==> paid_epoch(b, RewardsRing::Authority) == be_value(b.subrange(0, 8)),
        b.len() == 16 ==> paid_epoch(b, RewardsRing::Validator) == be_value(b.subrange(8, 16)),
        b.len() != 16 ==> paid_epoch(b, RewardsRing::Authority) == 0 && paid_epoch(
            b,
            RewardsRing::Validator,
        ) == 0,
{
    lemma_be_limits();
    if b.len() == 8 {
        lemma_be_value_bound(b);
    }
    if b.len() == 16 {
        lemma_be_value_bound(field(b, 0, 8));
        lemma_be_value_bound(field(b, 8, 8));
    }
}

/// The delegations to one validator slot.
pub open spec fn delegated_to(m: Map<(u32, Address), u64>, id: u32) -> Map<(u32, Address), u64> {
    Map::new(|k: (u32, Address)| m.dom().contains(k) && k.0 == id, |k: (u32, Address)| m[k])
}

proof fn lemma_delegated_sum(rows: Seq<((u32, Address), u64)>, id: u32)
    requires
        ascending(rows),
    ensures
        delegated_to(rows_map(rows), id).dom().finite(),
        delegated_sum(rows, id) == total(delegated_to(rows_map(rows), id)),
    decreases rows.len(),
{
    lemma_rows_map_dom(rows);
    if rows.len() == 0 {
        assert(delegated_to(rows_map(rows), id) =~= Map::empty());
    } else {
        let init = rows.drop_last();
        let (k, v) = rows.last();
        let before = rows_map(init);
        assert(ascending(init)) by {
            assert forall|a: int, b: int|
                #![trigger init[a], init[b]]
                0 <= a < b < init.len() implies init[a].0.before(init[b].0) by {
                assert(rows[a].0.before(rows[b].0));
            }
        }
        lemma_delegated_sum(init, id);
        lemma_rows_map_dom(init);
        assert(!before.dom().contains(k)) by {
            if before.dom().contains(k) {
                let j = choose|j: int| 0 <= j < init.len() && (#[trigger] init[j]).0 == k;
                assert(rows[j].0.before(rows[rows.len() - 1].0));
                <(u32, Address)>::lemma_irreflexive(k);
            }
        }
        let rest = delegated_to(before, id);
        if k.0 == id {
            lemma_total_insert(rest, k, v);
            assert(delegated_to(rows_map(rows), id) =~= rest.insert(k, v));
        } else {
            assert(delegated_to(rows_map(rows), id) =~= rest);
        }
    }
}

/// The stake delegated to a slot is the sum of all delegations to it, and the
/// waiting stake of a delegator at a slot is the sum over all heights.
pub proof fn law_totals_sum_the_rows(
    l: Ledger,
    m: Map<(u32, Address), u64>,
    u: Map<(u32, Address, u64), u64>,
    id: u32,
    from: Address,
)
    requires
        delegations(l) == Ok::<Map<(u32, Address), u64>, ExecutionError>(m),
        unbondings(l) == Ok::<Map<(u32, Address, u64), u64>, ExecutionError>(u),
        m.dom().finite(),
        u.dom().finite(),
    ensures
        delegated_total(l, id) == total(
            Map::new(
                |k: (u32, Address)| m.dom().contains(k) && k.0 == id,
                |k: (u32, Address)| m[k],
            ),
        ),
        unbonding_total(l, id, from) == total(
            Map::new(
                |k: (u32, Address, u64)| u.dom().contains(k) && k.0 == id && k.1 == from,
                |k: (u32, Address, u64)| u[k],
            ),
        ),
{
    lemma_sorted_rows(m);
    lemma_delegated_sum(sorted_rows(m), id);
    lemma_waiting_total(u, id, from);
    assert(delegated_to(m, id) =~= Map::new(
        |k: (u32, Address)| m.dom().contains(k) && k.0 == id,
        |k: (u32, Address)| m[k],
    ));
    assert(waiting_for(u, id, from) =~= Map::new(
        |k: (u32, Address, u64)| u.dom().contains(k) && k.0 == id && k.1 == from,
        |k: (u32, Address, u64)| u[k],
    ));
}

/// A sum over rows grows by an amount that is put under a key that was not there,
/// and is nothing over no rows.
pub proof fn law_sums_count_every_row_once<K>(m: Map<K, u64>, k: K, v: u64)
    requires
        m.dom().finite(),
        !m.dom().contains(k),
    ensures
        total(m.insert(k, v)) == total(m) + v,
        total(Map::<K, u64>::empty()) == 0,
        amount_at(m, k) == 0,
        amount_at(m.insert(k, v), k) == v,
{
    lemma_total_insert(m, k, v);
}

/// The supply is what all accounts hold together: it is nothing where nobody holds
/// anything, and setting a balance changes it by the difference.
pub proof fn law_supply_counts_every_account_once(
    b: Map<Address, Balance>,
    a: Address,
    v: Balance,
)
    requires
        b.dom().finite(),
    ensures
        supply(with_balance(b, a, v)) - supply(b) == v - balance_of(b, a),
        balance_of(with_balance(b, a, v), a) == v,
        supply(Map::<Address, Balance>::empty()) == 0,
        balance_of(Map::<Address, Balance>::empty(), a) == 0,
{
    lemma_supply_with_balance(b, a, v);
}

/// A state made of balances holds each of them and no records, at height zero.
pub proof fn law_seeded_states_hold_their_balances(b: Map<Address, Balance>, a: Address)
    ensures
        seeded_with(b).balance(a) == balance_of(b, a),
        seeded_with(b).record(a).len() == 0,
        seeded_with(b).height == 0,
        seeded_with(b).pairings.dom().len() == 0,
        b.dom().contains(a) ==> balance_of(b, a) == b[a],
        !b.dom().contains(a) ==> balance_of(b, a) == 0,
{
}

/// A record that is set is read back, an empty one is none, and no other record, no
/// balance and not the height change. A balance that is set is read back, and no
/// other balance changes.
pub proof fn law_states_hold_what_is_set(
    l: Ledger,
    a: Address,
    bytes: Seq<u8>,
    amount: Balance,
    other: Address,
)
    ensures
        ({
            let s = l.with_record(a, bytes);
            let b = l.with_balances(with_balance(l.balances, a, amount));
            &&& s.record(a) == bytes
            &&& other != a ==> s.record(other) == l.record(other)
            &&& s.records.dom().contains(a) <==> bytes.len() > 0
            &&& s.balances == l.balances && s.height == l.height && s.pairings == l.pairings
            &&& b.balance(a) == amount
            &&& other != a ==> b.balance(other) == l.balance(other)
            &&& b.balances.dom().contains(a) <==> amount > 0
            &&& b.records == l.records && b.height == l.height && b.pairings == l.pairings
        }),
{
    if bytes.len() == 0 {
        assert(l.with_record(a, bytes).record(a) =~= bytes);
    }
}

/// Errors are told apart by what they say.
pub proof fn law_errors_are_told_apart(a: ExecutionError, b: ExecutionError)
    requires
        a@ == b@,
    ensures
        a == b || (a is L2VerifierRejected && b is L2VerifierRejected
            && a->L2VerifierRejected_reason@ == b->L2VerifierRejected_reason@),
        answer_of(Ok(())) is Ok,
        answer_of(Err(a)) == Err::<(), ErrorView>(a@),
{
}

/// An operation that agrees with a step left its state and gave its answer, error by
/// error.
pub proof fn law_agreement_fixes_the_outcome(
    s: Step,
    l: Ledger,
    r: Result<(), ExecutionError>,
    e: ExecutionError,
)
    ensures
        agrees(s, l, r) ==> s.ledger == l && (s.answer is Ok <==> r is Ok),
        agrees(refused(l, e), l, Err(e)),
        agrees(s, l, r) ==> (r matches Err(f) ==> s.answer == Err::<(), ErrorView>(f@)),
        refused(l, e).ledger == l && refused(l, e).answer == Err::<(), ErrorView>(e@),
        done(l).ledger == l && done(l).answer is Ok,
{
}

} // verus!
