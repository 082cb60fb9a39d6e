//! Undelegated stake moves to where it waits, and waits for its cooldown.

use vstd::prelude::*;

use crate::apply::{applied, EvidenceView};
use crate::delegating::{
    amount_at, claim_step, delegations, matured, matured_sum, shrunk, unbondings, unclaimed,
    undelegate_step, with_delegations,
};
use crate::delegation_registry::DelegationTable;
use crate::error::ExecutionError;
use crate::intent::Intent;
use crate::laws::answers::cooled_off;
use crate::laws::payments::{
    at, can_pay, law_payment_moves_the_amount, law_payments_need_funds,
};
use crate::laws::registries::{law_delegations_read_back, law_unbondings_read_back};
use crate::laws::stake::{
    lemma_delegations_are_positive, lemma_row_added, lemma_row_dropped, lemma_total_insert,
    lemma_unbondings_are_positive, total,
};
use crate::laws::writers::{lemma_registries_differ, registries};
use crate::ledger::{done, refused, Ledger};
use crate::ordered::{
    ascending, lemma_rows_map_dom, lemma_rows_map_get, lemma_sorted_rows, rows_map, sorted_rows,
    OrderedKey,
};
use crate::readers::{readable, unbonding_sum, unbonding_total};
use crate::reserved;
use crate::staking::{cooldown_end, EXIT_COOLDOWN_BLOCKS};
use crate::substrate::{Address, Balance};
use crate::table::{has_room, stored_part};
use crate::unbonding_registry::UnbondingTable;

verus! {

proof fn lemma_nothing_matured(
    rows: Seq<((u32, Address, u64), u64)>,
    from: Address,
    id: u32,
    height: u64,
)
    requires
        forall|i: int|
            0 <= i < rows.len() ==> !matured((#[trigger] rows[i]).0, from, id, height),
    ensures
        matured_sum(rows, from, id, height) == 0,
    decreases rows.len(),
{
    if rows.len() > 0 {
        let init = rows.drop_last();
        assert forall|i: int| 0 <= i < init.len() implies !matured(
            (#[trigger] init[i]).0,
            from,
            id,
            height,
        ) by {
            assert(rows[i] == init[i]);
        }
        lemma_nothing_matured(init, from, id, height);
    }
}

/// While every cool-off of a delegator lies less than the cooldown back, a claim
/// pays nothing and changes nothing.
pub proof fn law_claims_wait_for_the_cooldown(
    l: Ledger,
    u: Map<(u32, Address, u64), u64>,
    from: Address,
    id: u32,
)
    requires
        unbondings(l) == Ok::<Map<(u32, Address, u64), u64>, ExecutionError>(u),
        u.dom().finite(),
        !reserved::is_reserved(&from),
        forall|begun: u64| #[trigger]
            u.dom().contains((id, from, begun)) ==> l.height < begun + EXIT_COOLDOWN_BLOCKS,
        l.height < u64::MAX,
    ensures
        claim_step(l, from, id) == done(l),
{
    let rows = sorted_rows(u);
    lemma_sorted_rows(u);
    assert forall|i: int| 0 <= i < rows.len() implies !matured(
        (#[trigger] rows[i]).0,
        from,
        id,
        l.height,
    ) by {
        lemma_rows_map_get(rows, i);
        let k = rows[i].0;
        if k.0 == id && k.1 == from {
            assert(u.dom().contains((id, from, k.2)));
        }
    }
    lemma_nothing_matured(rows, from, id, l.height);
}

proof fn lemma_one_matured(
    rows: Seq<((u32, Address, u64), u64)>,
    i: int,
    from: Address,
    id: u32,
    height: u64,
)
    requires
        0 <= i < rows.len(),
        matured(rows[i].0, from, id, height),
    ensures
        matured_sum(rows, from, id, height) >= rows[i].1,
    decreases rows.len(),
{
    if i < rows.len() - 1 {
        lemma_one_matured(rows.drop_last(), i, from, id, height);
    }
}

/// Once the cooldown of a cool-off is over, a claim includes all of its stake.
pub proof fn law_claims_include_what_is_over(
    l: Ledger,
    u: Map<(u32, Address, u64), u64>,
    from: Address,
    id: u32,
    begun: u64,
)
    requires
        unbondings(l) == Ok::<Map<(u32, Address, u64), u64>, ExecutionError>(u),
        u.dom().finite(),
        u.dom().contains((id, from, begun)),
        l.height >= cooldown_end(begun),
    ensures
        matured_sum(sorted_rows(u), from, id, l.height) >= u[(id, from, begun)],
{
    let rows = sorted_rows(u);
    let k = (id, from, begun);
    lemma_sorted_rows(u);
    lemma_rows_map_dom(rows);
    let i = choose|i: int| 0 <= i < rows.len() && (#[trigger] rows[i]).0 == k;
    lemma_rows_map_get(rows, i);
    lemma_one_matured(rows, i, from, id, l.height);
}

/// The unbonding stake of one delegator at one validator slot.
pub open spec fn waiting_for(
    m: Map<(u32, Address, u64), u64>,
    id: u32,
    from: Address,
) -> Map<(u32, Address, u64), u64> {
    Map::new(
        |k: (u32, Address, u64)| m.dom().contains(k) && k.0 == id && k.1 == from,
        |k: (u32, Address, u64)| m[k],
    )
}

proof fn lemma_waiting_sum(rows: Seq<((u32, Address, u64), u64)>, id: u32, from: Address)
    requires
        ascending(rows),
    ensures
        waiting_for(rows_map(rows), id, from).dom().finite(),
        unbonding_sum(rows, id, from) == total(waiting_for(rows_map(rows), id, from)),
    decreases rows.len(),
{
    lemma_rows_map_dom(rows);
    if rows.len() == 0 {
        assert(waiting_for(rows_map(rows), id, from) =~= Map::empty());
    } else {
        let init = rows.drop_last();
        let (k, v) = rows.last();
        let before = rows_map(init);
        assert(ascending(init)) by {
            assert forall|a: int, b: int|
                #![trigger init[a], init[b]]
                0 <= a < b < init.len() implies init[a].0.before(init[b].0) by {
                assert(rows[a].0.before(rows[b].0));
            }
        }
        lemma_waiting_sum(init, id, from);
        lemma_rows_map_dom(init);
        assert(!before.dom().contains(k)) by {
            if before.dom().contains(k) {
                let j = choose|j: int| 0 <= j < init.len() && (#[trigger] init[j]).0 == k;
                assert(rows[j].0.before(rows[rows.len() - 1].0));
                <(u32, Address, u64)>::lemma_irreflexive(k);
            }
        }
        let rest = waiting_for(before, id, from);
        if k.0 == id && k.1 == from {
            lemma_total_insert(rest, k, v);
            assert(waiting_for(rows_map(rows), id, from) =~= rest.insert(k, v));
        } else {
            assert(waiting_for(rows_map(rows), id, from) =~= rest);
        }
    }
}

/// The sum over all heights, of a map.
pub proof fn lemma_waiting_total(m: Map<(u32, Address, u64), u64>, id: u32, from: Address)
    requires
        m.dom().finite(),
    ensures
        waiting_for(m, id, from).dom().finite(),
        unbonding_sum(sorted_rows(m), id, from) == total(waiting_for(m, id, from)),
{
    lemma_sorted_rows(m);
    lemma_waiting_sum(sorted_rows(m), id, from);
}

/// What a delegator has delegated to a validator slot.
pub open spec fn delegated_by(l: Ledger, id: u32, from: Address) -> u64 {
    amount_at(readable(delegations(l)), (id, from))
}

/// The two registries after an undelegation that succeeds.
proof fn lemma_undelegated(
    l: Ledger,
    m: Map<(u32, Address), u64>,
    u: Map<(u32, Address, u64), u64>,
    from: Address,
    id: u32,
    amount: Balance,
)
    requires
        reserved::apart(),
        delegations(l) == Ok::<Map<(u32, Address), u64>, ExecutionError>(m),
        unbondings(l) == Ok::<Map<(u32, Address, u64), u64>, ExecutionError>(u),
        u.dom().contains((id, from, l.height)) || has_room::<UnbondingTable>(u),
        undelegate_step(l, from, id, amount).answer is Ok,
        amount != 0,
    ensures
        ({
            let l2 = undelegate_step(l, from, id, amount).ledger;
            let key = (id, from, l.height);
            &&& amount <= amount_at(m, (id, from))
            &&& amount_at(u, key) + amount <= u64::MAX
            &&& u.dom().finite()
            &&& delegations(l2) == Ok::<Map<(u32, Address), u64>, ExecutionError>(
                shrunk(m, (id, from), amount as u64),
            )
            &&& unbondings(l2) == Ok::<Map<(u32, Address, u64), u64>, ExecutionError>(
                u.insert(key, (amount_at(u, key) + amount) as u64),
            )
        }),
{
    let l2 = undelegate_step(l, from, id, amount).ledger;
    let key = (id, from, l.height);
    let n = shrunk(m, (id, from), amount as u64);
    let v = (amount_at(u, key) + amount) as u64;
    lemma_delegations_are_positive(l, m);
    lemma_unbondings_are_positive(l, u);
    if amount_at(m, (id, from)) == amount {
        lemma_row_dropped::<DelegationTable>(m, n);
    } else {
        assert(n.dom() =~= m.dom());
    }
    if u.dom().contains(key) {
        assert(u.insert(key, v).dom() =~= u.dom());
    } else {
        lemma_row_added::<UnbondingTable>(u, key, v);
    }
    law_delegations_read_back(l, n);
    law_unbondings_read_back(with_delegations(l, n), u.insert(key, v));
    assert(stored_part::<DelegationTable>(n) =~= n);
    assert(stored_part::<UnbondingTable>(u.insert(key, v)) =~= u.insert(key, v));
    lemma_registries_differ(10);
    assert(registries()[10] == reserved::validator_delegation_registry_address());
    assert(l2.record(reserved::validator_delegation_registry_address()) == with_delegations(
        l,
        n,
    ).record(reserved::validator_delegation_registry_address()));
}

/// An undelegation moves its amount: what the delegator has delegated to the slot
/// falls by it, what waits for the delegator there rises by it, and nobody else's
/// stake and no balance changes. A refused one changes nothing.
pub proof fn law_undelegations_move_stake(
    l: Ledger,
    m: Map<(u32, Address), u64>,
    u: Map<(u32, Address, u64), u64>,
    from: Address,
    id: u32,
    amount: Balance,
    other: Address,
    other_id: u32,
)
    requires
        delegations(l) == Ok::<Map<(u32, Address), u64>, ExecutionError>(m),
        unbondings(l) == Ok::<Map<(u32, Address, u64), u64>, ExecutionError>(u),
        u.dom().contains((id, from, l.height)) || has_room::<UnbondingTable>(u),
    ensures
        reserved::apart() ==> ({
            let s = undelegate_step(l, from, id, amount);
            &&& s.ledger.balances == l.balances
            &&& s.answer is Err ==> s.ledger == l
            &&& s.answer is Ok ==> {
                &&& delegated_by(s.ledger, id, from) == delegated_by(l, id, from) - amount
                &&& unbonding_total(s.ledger, id, from) == unbonding_total(l, id, from) + amount
                &&& (other_id, other) != (id, from) ==> {
                    &&& delegated_by(s.ledger, other_id, other) == delegated_by(
                        l,
                        other_id,
                        other,
                    )
                    &&& unbonding_total(s.ledger, other_id, other) == unbonding_total(
                        l,
                        other_id,
                        other,
                    )
                }
            }
        }),
{
    let s = undelegate_step(l, from, id, amount);
    if reserved::apart() && s.answer is Ok && amount != 0 {
        let key = (id, from, l.height);
        let v = (amount_at(u, key) + amount) as u64;
        lemma_undelegated(l, m, u, from, id, amount);
        lemma_waiting_total(u, id, from);
        lemma_waiting_total(u.insert(key, v), id, from);
        lemma_total_insert(waiting_for(u, id, from), key, v);
        assert(waiting_for(u.insert(key, v), id, from) =~= waiting_for(u, id, from).insert(key, v));
        if (other_id, other) != (id, from) {
            lemma_waiting_total(u, other_id, other);
            lemma_waiting_total(u.insert(key, v), other_id, other);
            assert(waiting_for(u.insert(key, v), other_id, other) =~= waiting_for(
                u,
                other_id,
                other,
            ));
        }
    }
}

/// A delegation adds its amount to what the delegator has delegated to the slot;
/// all other delegations and all other records stay as they are.
pub proof fn law_delegations_add_up(
    l: Ledger,
    m: Map<(u32, Address), u64>,
    from: Address,
    validator_id: u32,
    amount: Balance,
    evidence: EvidenceView,
)
    requires
        delegations(l) == Ok::<Map<(u32, Address), u64>, ExecutionError>(m),
        m.dom().contains((validator_id, from)) || has_room::<DelegationTable>(m),
        amount != 0,
    ensures
        ({
            let s = applied(l, Intent::Delegate { from, validator_id, amount }, evidence);
            let registry = reserved::validator_delegation_registry_address();
            s.answer is Ok ==> {
                &&& delegations(s.ledger) matches Ok(n) && forall|k: (u32, Address)| #[trigger]
                    amount_at(n, k) == amount_at(m, k) + (if k == (validator_id, from) {
                        amount as int
                    } else {
                        0
                    })
                &&& forall|a: Address| a != registry ==> #[trigger] s.ledger.record(a) == l.record(
                    a,
                )
                &&& s.ledger.height == l.height
            }
        }),
{
    let s = applied(l, Intent::Delegate { from, validator_id, amount }, evidence);
    let key = (validator_id, from);
    if s.answer is Ok {
        let v = (amount_at(m, key) + amount) as u64;
        let n = m.insert(key, v);
        lemma_delegations_are_positive(l, m);
        if m.dom().contains(key) {
            assert(n.dom() =~= m.dom());
        } else {
            lemma_row_added::<DelegationTable>(m, key, v);
        }
        law_delegations_read_back(l.with_balances(s.ledger.balances), n);
        assert(stored_part::<DelegationTable>(n) =~= n);
    }
}

/// An undelegation takes its amount from what the delegator has delegated to the
/// slot and adds it to what waits there under the current height. All other
/// delegations, all other waiting stake and all other records stay as they are,
/// and a delegation of nothing is not kept.
pub proof fn law_undelegations_wait_under_their_height(
    l: Ledger,
    m: Map<(u32, Address), u64>,
    u: Map<(u32, Address, u64), u64>,
    from: Address,
    validator_id: u32,
    amount: Balance,
    evidence: EvidenceView,
)
    requires
        delegations(l) == Ok::<Map<(u32, Address), u64>, ExecutionError>(m),
        unbondings(l) == Ok::<Map<(u32, Address, u64), u64>, ExecutionError>(u),
        u.dom().contains((validator_id, from, l.height)) || has_room::<UnbondingTable>(u),
        amount != 0,
    ensures
        reserved::apart() ==> ({
            let s = applied(l, Intent::UndelegateBegin { from, validator_id, amount }, evidence);
            s.answer is Ok ==> {
                &&& delegations(s.ledger) matches Ok(n) && forall|k: (u32, Address)|
                    {
                        &&& #[trigger] amount_at(n, k) == amount_at(m, k) - (if k == (
                            validator_id,
                            from,
                        ) {
                            amount as int
                        } else {
                            0
                        })
                        &&& n.dom().contains(k) ==> n[k] != 0
                    }
                &&& unbondings(s.ledger) matches Ok(w) && forall|k: (u32, Address, u64)| #[trigger]
                    amount_at(w, k) == amount_at(u, k) + (if k == (validator_id, from, l.height) {
                        amount as int
                    } else {
                        0
                    })
                &&& forall|a: Address|
                    a != reserved::validator_delegation_registry_address() && a
                        != reserved::validator_unbonding_registry_address()
                        ==> #[trigger] s.ledger.record(a) == l.record(a)
                &&& s.ledger.height == l.height
            }
        }),
{
    let s = applied(l, Intent::UndelegateBegin { from, validator_id, amount }, evidence);
    if reserved::apart() && s.answer is Ok {
        lemma_undelegated(l, m, u, from, validator_id, amount);
        lemma_delegations_are_positive(l, m);
    }
}

/// The stake of a delegator at a slot whose wait of 2,419,200 blocks is over.
pub open spec fn due(
    u: Map<(u32, Address, u64), u64>,
    id: u32,
    from: Address,
    height: u64,
) -> Map<(u32, Address, u64), u64> {
    Map::new(
        |k: (u32, Address, u64)|
            u.dom().contains(k) && k.0 == id && k.1 == from && cooled_off(k.2, height),
        |k: (u32, Address, u64)| u[k],
    )
}

proof fn lemma_due_sum(rows: Seq<((u32, Address, u64), u64)>, id: u32, from: Address, height: u64)
    requires
        ascending(rows),
    ensures
        due(rows_map(rows), id, from, height).dom().finite(),
        matured_sum(rows, from, id, height) == total(due(rows_map(rows), id, from, height)),
    decreases rows.len(),
{
    lemma_rows_map_dom(rows);
    if rows.len() == 0 {
        assert(due(rows_map(rows), id, from, height) =~= Map::empty());
    } else {
        let init = rows.drop_last();
        let (k, v) = rows.last();
        let before = rows_map(init);
        assert(ascending(init)) by {
            assert forall|a: int, b: int|
                #![trigger init[a], init[b]]
                0 <= a < b < init.len() implies init[a].0.before(init[b].0) by {
                assert(rows[a].0.before(rows[b].0));
            }
        }
        lemma_due_sum(init, id, from, height);
        lemma_rows_map_dom(init);
        assert(!before.dom().contains(k)) by {
            if before.dom().contains(k) {
                let j = choose|j: int| 0 <= j < init.len() && (#[trigger] init[j]).0 == k;
                assert(rows[j].0.before(rows[rows.len() - 1].0));
                <(u32, Address, u64)>::lemma_irreflexive(k);
            }
        }
        let rest = due(before, id, from, height);
        assert(matured(k, from, id, height) <==> k.0 == id && k.1 == from && cooled_off(
            k.2,
            height,
        ));
        if matured(k, from, id, height) {
            lemma_total_insert(rest, k, v);
            assert(due(rows_map(rows), id, from, height) =~= rest.insert(k, v));
        } else {
            assert(due(rows_map(rows), id, from, height) =~= rest);
        }
    }
}

/// A claim succeeds exactly where the claimant is a user, the registry can be read,
/// and the stake pool can pay all of the claimant's stake at the slot whose wait is
/// over. It pays that sum; with nothing due it changes nothing.
pub proof fn law_claims_are_answered(
    l: Ledger,
    u: Map<(u32, Address, u64), u64>,
    from: Address,
    validator_id: u32,
    evidence: EvidenceView,
)
    requires
        unbondings(l) == Ok::<Map<(u32, Address, u64), u64>, ExecutionError>(u),
        u.dom().finite(),
    ensures
        ({
            let s = applied(l, Intent::UndelegateClaim { from, validator_id }, evidence);
            let pool = reserved::validator_stake_pool_address();
            let sum = total(due(u, validator_id, from, l.height));
            &&& s.answer is Ok <==> !reserved::is_reserved(&from) && (sum == 0 || sum
                <= Balance::MAX && can_pay(l.balances, pool, from, sum as Balance))
            &&& s.answer is Ok ==> forall|x: Address| #[trigger]
                s.ledger.balance(x) == l.balance(x) - at(x, pool, sum as int) + at(
                    x,
                    from,
                    sum as int,
                )
            &&& s.answer is Err || sum == 0 ==> s.ledger == l
            &&& reserved::is_reserved(&from) ==> s == refused(
                l,
                ExecutionError::ReservedAddressTransferDenied { addr: from },
            )
            &&& !reserved::is_reserved(&from) && l.balance(pool) < sum <= Balance::MAX ==> s
                == refused(
                l,
                ExecutionError::InsufficientBalance {
                    from: pool,
                    have: l.balance(pool),
                    need: sum as Balance,
                },
            )
        }),
{
    let pool = reserved::validator_stake_pool_address();
    lemma_sorted_rows(u);
    lemma_due_sum(sorted_rows(u), validator_id, from, l.height);
    let sum = total(due(u, validator_id, from, l.height));
    if sum <= Balance::MAX {
        let e = ExecutionError::DistributionOverflow { to: from };
        law_payments_need_funds(l.balances, pool, from, sum as Balance, e);
        law_payment_moves_the_amount(l.balances, pool, from, sum as Balance, e);
    }
}

/// A claim takes from the waiting stake exactly what is due to the claimant at the
/// slot: whatever waits longer, at another slot or for another delegator stays.
pub proof fn law_claims_leave_the_rest(
    l: Ledger,
    u: Map<(u32, Address, u64), u64>,
    from: Address,
    validator_id: u32,
    evidence: EvidenceView,
)
    requires
        unbondings(l) == Ok::<Map<(u32, Address, u64), u64>, ExecutionError>(u),
        u.dom().finite(),
    ensures
        ({
            let s = applied(l, Intent::UndelegateClaim { from, validator_id }, evidence);
            let gone = due(u, validator_id, from, l.height);
            s.answer is Ok ==> {
                &&& unbondings(s.ledger) matches Ok(w) && {
                    &&& forall|k: (u32, Address, u64)| #[trigger]
                        w.dom().contains(k) <==> u.dom().contains(k) && !gone.dom().contains(k)
                    &&& forall|k: (u32, Address, u64)| #[trigger]
                        w.dom().contains(k) ==> w[k] == u[k]
                }
                &&& forall|a: Address|
                    a != reserved::validator_unbonding_registry_address()
                        ==> #[trigger] s.ledger.record(a) == l.record(a)
                &&& s.ledger.height == l.height
            }
        }),
{
    let s = applied(l, Intent::UndelegateClaim { from, validator_id }, evidence);
    let gone = due(u, validator_id, from, l.height);
    let rest = unclaimed(u, from, validator_id, l.height);
    lemma_sorted_rows(u);
    lemma_due_sum(sorted_rows(u), validator_id, from, l.height);
    lemma_unbondings_are_positive(l, u);
    if s.answer is Ok {
        if total(gone) == 0 {
            assert forall|k: (u32, Address, u64)| !gone.dom().contains(k) by {
                if gone.dom().contains(k) {
                    crate::laws::stake::lemma_total_remove(gone, k);
                    assert(u.dom().contains(k));
                }
            }
        } else {
            assert(rest.dom().subset_of(u.dom()));
            lemma_row_dropped::<UnbondingTable>(u, rest);
            law_unbondings_read_back(l.with_balances(s.ledger.balances), rest);
            assert(stored_part::<UnbondingTable>(rest) =~= rest);
        }
    }
}

} // verus!
