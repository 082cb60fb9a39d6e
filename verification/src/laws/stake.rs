//! Stake pools hold what they owe: bonded, delegated and unbonding stake.

use vstd::prelude::*;

use crate::apply::{applied, EvidenceView};
use crate::authority_registry::{AuthorityStatus, SlotView, MAX_BLS_PK_BYTES, MAX_MLDSA_PK_BYTES};
use crate::bytes::{field, lemma_be_limits, lemma_be_value_bound};
use crate::delegating::{
    amount_at, claim_step, delegate_step, delegations, matured, matured_sum, shrunk, unbondings,
    unclaimed, undelegate_step, with_delegations, with_unbondings,
};
use crate::delegation_registry::DelegationTable;
use crate::error::ExecutionError;
use crate::intent::{Intent, RewardsRing, SlashReason};
use crate::laws::conduct::law_intents_are_confined;
use crate::laws::money::{
    law_protocol_accounts_are_guarded, lemma_shared_net, lemma_waterfall_elsewhere, protocol_change,
};
use crate::laws::payments::{credit_to, lemma_one, lemma_push, lemma_still, tip_paid};
use crate::laws::registries::{
    law_delegations_read_back, law_slots_read_back, law_unbondings_read_back,
};
use crate::laws::writers::{
    law_only_writers_change_authorities, law_only_writers_change_delegations,
    law_only_writers_change_unbondings, law_only_writers_change_validators, lemma_owned_differ,
    writes_authorities, writes_delegations, writes_unbondings, writes_validators,
};
use crate::ledger::{drained, Ledger};
use crate::ordered::{
    ascending, lemma_rows_map_dom, lemma_sorted_rows, rows_map, sorted_rows, OrderedKey,
};
use crate::readers::{readable, row_at};
use crate::reserved;
use crate::sequencing::{liveness_slash, obligations, snitch_bounty};
use crate::slots::lemma_parse_keys_fit;
use crate::staking::{
    admit_step, deposit_step, eject_step, exit_step, forfeit, ring_registry, ring_slots, stake_pool,
    waterfall, with_slots, withdraw_step,
};
use crate::substrate::{Address, Balance};
use crate::table::{
    fits, has_room, lemma_parsed_table_fits, lemma_parsed_table_stored, stored_part, RowFormat,
    Table,
};
use crate::transfers::inflation_credits;
use crate::unbonding_registry::UnbondingTable;

verus! {

/// The sum of all amounts.
pub open spec fn total<K>(m: Map<K, u64>) -> nat
    decreases m.dom().len(),
    when m.dom().finite()
{
    if m.dom().len() == 0 {
        0
    } else {
        let k = m.dom().choose();
        m[k] as nat + total(m.remove(k))
    }
}

/// Any amount can be counted first.
pub proof fn lemma_total_remove<K>(m: Map<K, u64>, k: K)
    requires
        m.dom().finite(),
    ensures
        total(m) == amount_at(m, k) as nat + total(m.remove(k)),
    decreases m.dom().len(),
{
    if m.dom().contains(k) {
        let c = m.dom().choose();
        if c != k {
            lemma_total_remove(m.remove(c), k);
            lemma_total_remove(m.remove(k), c);
            assert(m.remove(c).remove(k) =~= m.remove(k).remove(c));
        }
    } else {
        assert(m.remove(k) =~= m);
    }
}

/// Putting in an amount changes the sum by the difference.
pub proof fn lemma_total_insert<K>(m: Map<K, u64>, k: K, v: u64)
    requires
        m.dom().finite(),
    ensures
        total(m.insert(k, v)) + amount_at(m, k) == total(m) + v,
{
    lemma_total_remove(m, k);
    lemma_total_remove(m.insert(k, v), k);
    assert(m.insert(k, v).remove(k) =~= m.remove(k));
}

/// The bonded capital of every slot.
pub open spec fn bonds(m: Map<u32, SlotView>) -> Map<u32, u64> {
    m.map_values(|s: SlotView| s.deposited)
}

proof fn lemma_bonds_insert(m: Map<u32, SlotView>, id: u32, s: SlotView)
    requires
        m.dom().finite(),
    ensures
        total(bonds(m.insert(id, s))) + amount_at(bonds(m), id) == total(bonds(m)) + s.deposited,
{
    assert(bonds(m.insert(id, s)) =~= bonds(m).insert(id, s.deposited));
    assert(bonds(m).dom() =~= m.dom());
    lemma_total_insert(bonds(m), id, s.deposited);
}

/// What the slots of a ring, delegators and unbonding delegators may still draw
/// from the stake pool of the ring.
pub open spec fn owed(l: Ledger, ring: RewardsRing) -> int {
    let bonded = total(bonds(readable(ring_slots(l, ring)))) as int;
    match ring {
        RewardsRing::Authority => bonded,
        RewardsRing::Validator => bonded + total(readable(delegations(l))) + total(
            readable(unbondings(l)),
        ),
    }
}

/// What a stake pool holds beyond what it owes.
pub open spec fn surplus(l: Ledger, ring: RewardsRing) -> int {
    l.balance(stake_pool(ring)) - owed(l, ring)
}

/// Whether the registries behind a stake pool can be read and take one more row.
pub open spec fn stake_books_in_order(l: Ledger) -> bool {
    &&& ring_slots(l, RewardsRing::Authority) matches Ok(a) && a.dom().len() < u32::MAX
    &&& ring_slots(l, RewardsRing::Validator) matches Ok(v) && v.dom().len() < u32::MAX
    &&& delegations(l) matches Ok(d) && has_room::<DelegationTable>(d)
    &&& unbondings(l) matches Ok(u) && has_room::<UnbondingTable>(u)
}

/// The money that a genesis allocation gives to an account.
pub open spec fn granted(intent: Intent, x: Address) -> int {
    match intent {
        Intent::GenesisAllocation { allocations } => credit_to(allocations@, x),
        _ => 0,
    }
}

/// Whether an intent is a bridge lock that a stake pool pays.
pub open spec fn locks_pool(intent: Intent, ring: RewardsRing) -> bool {
    match intent {
        Intent::L1Lock { user_address, .. } => user_address == stake_pool(ring),
        _ => false,
    }
}

/// What an intent that succeeds adds to a stake pool through the books.
pub open spec fn booked(l: Ledger, intent: Intent, ring: RewardsRing) -> int {
    match (ring, intent) {
        (RewardsRing::Authority, Intent::DepositAuthorityStake { amount, .. }) => amount as int,
        (RewardsRing::Authority, Intent::WithdrawAuthorityStake { amount, .. }) => {
            -(amount as int)
        },
        (RewardsRing::Authority, Intent::EjectAuthority { authority_id, .. }) => -forfeited(
            l,
            ring,
            authority_id,
        ),
        (RewardsRing::Validator, Intent::DepositValidatorStake { amount, .. }) => amount as int,
        (RewardsRing::Validator, Intent::WithdrawValidatorStake { amount, .. }) => {
            -(amount as int)
        },
        (RewardsRing::Validator, Intent::EjectValidator { validator_id, .. }) => -forfeited(
            l,
            ring,
            validator_id,
        ),
        (RewardsRing::Validator, Intent::Delegate { amount, .. }) => amount as int,
        (RewardsRing::Validator, Intent::UndelegateClaim { from, validator_id }) => {
            match unbondings(l) {
                Ok(u) => -(matured_sum(sorted_rows(u), from, validator_id, l.height) as int),
                Err(_) => 0,
            }
        },
        _ => 0,
    }
}

/// What an ejection takes from a stake pool.
pub open spec fn forfeited(l: Ledger, ring: RewardsRing, id: u32) -> int {
    match row_at(readable(ring_slots(l, ring)), id) {
        Some(slot) => forfeit(l, ring, slot) as int,
        None => 0,
    }
}

proof fn lemma_pool_is_apart(ring: RewardsRing)
    requires
        reserved::apart(),
    ensures
        ({
            let x = stake_pool(ring);
            &&& reserved::is_reserved(&x)
            &&& x != reserved::insurance_pool_address()
            &&& x != reserved::treasury_address()
            &&& x != reserved::bridge_escrow_address()
            &&& x != reserved::sequencer_bond_address()
            &&& x != reserved::safety_bond_address()
            &&& x != reserved::authority_rewards_pool_address()
            &&& x != reserved::validator_rewards_pool_address()
            &&& stake_pool(RewardsRing::Authority) != stake_pool(RewardsRing::Validator)
        }),
{
    reveal(reserved::apart);
    reveal(reserved::protocol_owned);
    let all = reserved::all_owned();
    assert(all[3] == reserved::bridge_escrow_address());
    assert(all[1] == reserved::insurance_pool_address());
    assert(all[2] == reserved::treasury_address());
    assert(all[5] == reserved::sequencer_bond_address());
    assert(all[6] == reserved::safety_bond_address());
    assert(all[13] == reserved::authority_stake_pool_address());
    assert(all[14] == reserved::validator_stake_pool_address());
    assert(all[15] == reserved::authority_rewards_pool_address());
    assert(all[16] == reserved::validator_rewards_pool_address());
}

proof fn lemma_pool_change(l: Ledger, intent: Intent, ring: RewardsRing)
    requires
        reserved::apart(),
        !locks_pool(intent, ring),
    ensures
        protocol_change(l, intent, stake_pool(ring)) == booked(l, intent, ring) + granted(
            intent,
            stake_pool(ring),
        ),
{
    let x = stake_pool(ring);
    lemma_pool_is_apart(ring);
    lemma_still();
    match intent {
        Intent::MintInflation { epoch, authority_share, validator_share, treasury_share } => {
            let a = reserved::authority_rewards_pool_address();
            let v = reserved::validator_rewards_pool_address();
            let t = reserved::treasury_address();
            lemma_one(a, authority_share);
            lemma_push(seq![(a, authority_share)], v, validator_share);
            lemma_push(seq![(a, authority_share)].push((v, validator_share)), t, treasury_share);
            assert(inflation_credits(authority_share, validator_share, treasury_share) =~= seq![
                (a, authority_share),
            ].push((v, validator_share)).push((t, treasury_share)));
        },
        Intent::EjectAuthority { authority_id, proof_ref } => {
            if let Some(slot) = row_at(
                readable(ring_slots(l, RewardsRing::Authority)),
                authority_id,
            ) {
                lemma_shared_net(
                    stake_pool(RewardsRing::Authority),
                    forfeit(l, RewardsRing::Authority, slot),
                    x,
                );
            }
        },
        Intent::EjectValidator { validator_id, proof_ref } => {
            if let Some(slot) = row_at(
                readable(ring_slots(l, RewardsRing::Validator)),
                validator_id,
            ) {
                lemma_shared_net(
                    stake_pool(RewardsRing::Validator),
                    forfeit(l, RewardsRing::Validator, slot),
                    x,
                );
            }
        },
        Intent::SlashSequencer { reason, intent_hash } => {
            match reason {
                SlashReason::MissedForceInclude => {
                    let bond = reserved::sequencer_bond_address();
                    let treasury = reserved::treasury_address();
                    let slash = liveness_slash(l.balance(bond));
                    lemma_shared_net(bond, slash, x);
                    lemma_waterfall_elsewhere(slash, x);
                    match (
                        row_at(readable(obligations(l)), intent_hash),
                        drained(l.balances, bond, waterfall(slash)),
                    ) {
                        (Some(ob), Ok(b)) => {
                            let tip = tip_paid(b, treasury, snitch_bounty(slash));
                            lemma_one(bond, slash);
                            lemma_push(seq![(bond, slash)], treasury, tip);
                            assert(seq![(bond, slash), (treasury, tip)] =~= seq![
                                (bond, slash),
                            ].push((treasury, tip)));
                            lemma_push(waterfall(slash), ob.submitter, tip);
                        },
                        _ => {},
                    }
                },
                SlashReason::Equivocation | SlashReason::InvalidBatch => {
                    let bond = reserved::safety_bond_address();
                    lemma_shared_net(bond, l.balance(bond), x);
                },
                SlashReason::Downtime => {},
            }
        },
        _ => {},
    }
}

/// The slots of a ring after one of them was put in.
proof fn lemma_slot_put(
    l: Ledger,
    l2: Ledger,
    ring: RewardsRing,
    m: Map<u32, SlotView>,
    id: u32,
    slot: SlotView,
)
    requires
        ring_slots(l, ring) == Ok::<Map<u32, SlotView>, ExecutionError>(m),
        m.dom().len() < u32::MAX,
        slot.mldsa.len() <= MAX_MLDSA_PK_BYTES,
        slot.bls.len() <= MAX_BLS_PK_BYTES,
    ensures
        total(bonds(readable(ring_slots(with_slots(l2, ring, m.insert(id, slot)), ring))))
            + amount_at(bonds(m), id) == total(bonds(m)) + slot.deposited,
{
    lemma_parse_keys_fit(l.record(ring_registry(ring)));
    if m.dom().contains(id) {
        assert(m.insert(id, slot).dom() =~= m.dom());
    } else {
        assert(m.insert(id, slot).dom() =~= m.dom().insert(id));
    }
    law_slots_read_back(l2, ring, m.insert(id, slot));
    lemma_bonds_insert(m, id, slot);
}

/// What is bonded in a ring.
pub open spec fn bonded_in(l: Ledger, ring: RewardsRing) -> int {
    total(bonds(readable(ring_slots(l, ring)))) as int
}

proof fn lemma_admit_bonds(
    l: Ledger,
    ring: RewardsRing,
    m: Map<u32, SlotView>,
    id: u32,
    stake: u64,
    mldsa: Seq<u8>,
    bls: Seq<u8>,
)
    requires
        ring_slots(l, ring) == Ok::<Map<u32, SlotView>, ExecutionError>(m),
        m.dom().len() < u32::MAX,
    ensures
        bonded_in(admit_step(l, ring, id, stake, mldsa, bls).ledger, ring) == bonded_in(l, ring),
{
    let slot = SlotView {
        mldsa,
        bls,
        stake,
        deposited: 0,
        exit_height: 0,
        status: AuthorityStatus::Active,
    };
    if mldsa.len() <= MAX_MLDSA_PK_BYTES && bls.len() <= MAX_BLS_PK_BYTES {
        lemma_slot_put(l, l, ring, m, id, slot);
    }
}

proof fn lemma_exit_bonds(l: Ledger, ring: RewardsRing, m: Map<u32, SlotView>, id: u32)
    requires
        ring_slots(l, ring) == Ok::<Map<u32, SlotView>, ExecutionError>(m),
        m.dom().len() < u32::MAX,
    ensures
        bonded_in(exit_step(l, ring, id).ledger, ring) == bonded_in(l, ring),
{
    lemma_parse_keys_fit(l.record(ring_registry(ring)));
    if m.dom().contains(id) {
        lemma_slot_put(
            l,
            l,
            ring,
            m,
            id,
            SlotView { status: AuthorityStatus::Exiting, exit_height: l.height, ..m[id] },
        );
    }
}

proof fn lemma_eject_bonds(l: Ledger, ring: RewardsRing, m: Map<u32, SlotView>, id: u32)
    requires
        ring_slots(l, ring) == Ok::<Map<u32, SlotView>, ExecutionError>(m),
        m.dom().len() < u32::MAX,
    ensures
        ({
            let s = eject_step(l, ring, id);
            s.answer is Ok ==> m.dom().contains(id) && bonded_in(s.ledger, ring) == bonded_in(
                l,
                ring,
            ) - m[id].deposited
        }),
{
    lemma_parse_keys_fit(l.record(ring_registry(ring)));
    let s = eject_step(l, ring, id);
    if m.dom().contains(id) {
        lemma_slot_put(
            l,
            Ledger { balances: s.ledger.balances, ..l },
            ring,
            m,
            id,
            SlotView { status: AuthorityStatus::Ejected, deposited: 0, ..m[id] },
        );
    }
}

proof fn lemma_deposit_bonds(
    l: Ledger,
    ring: RewardsRing,
    m: Map<u32, SlotView>,
    from: Address,
    id: u32,
    amount: Balance,
)
    requires
        ring_slots(l, ring) == Ok::<Map<u32, SlotView>, ExecutionError>(m),
        m.dom().len() < u32::MAX,
    ensures
        ({
            let s = deposit_step(l, ring, from, id, amount);
            s.answer is Ok ==> bonded_in(s.ledger, ring) == bonded_in(l, ring) + amount
        }),
{
    lemma_parse_keys_fit(l.record(ring_registry(ring)));
    let s = deposit_step(l, ring, from, id, amount);
    if m.dom().contains(id) {
        lemma_slot_put(
            l,
            Ledger { balances: s.ledger.balances, ..l },
            ring,
            m,
            id,
            SlotView { deposited: (m[id].deposited + amount) as u64, ..m[id] },
        );
    }
}

proof fn lemma_withdraw_bonds(
    l: Ledger,
    ring: RewardsRing,
    m: Map<u32, SlotView>,
    to: Address,
    id: u32,
    amount: Balance,
)
    requires
        ring_slots(l, ring) == Ok::<Map<u32, SlotView>, ExecutionError>(m),
        m.dom().len() < u32::MAX,
    ensures
        ({
            let s = withdraw_step(l, ring, to, id, amount);
            s.answer is Ok ==> bonded_in(s.ledger, ring) == bonded_in(l, ring) - amount
        }),
{
    lemma_parse_keys_fit(l.record(ring_registry(ring)));
    let s = withdraw_step(l, ring, to, id, amount);
    if m.dom().contains(id) {
        lemma_slot_put(
            l,
            Ledger { balances: s.ledger.balances, ..l },
            ring,
            m,
            id,
            SlotView { deposited: (m[id].deposited - amount) as u64, ..m[id] },
        );
    }
}

/// What is delegated.
pub open spec fn delegated_in(l: Ledger) -> int {
    total(readable(delegations(l))) as int
}

/// What is unbonding.
pub open spec fn unbonding_in(l: Ledger) -> int {
    total(readable(unbondings(l))) as int
}

/// Delegations that were read fit and are not zero.
pub proof fn lemma_delegations_are_positive(l: Ledger, m: Map<(u32, Address), u64>)
    requires
        delegations(l) == Ok::<Map<(u32, Address), u64>, ExecutionError>(m),
    ensures
        fits::<DelegationTable>(m),
        forall|k: (u32, Address)| #[trigger] m.dom().contains(k) ==> m[k] > 0,
{
    let b = l.record(reserved::validator_delegation_registry_address());
    lemma_parsed_table_fits::<DelegationTable>(b);
    assert forall|row: Seq<u8>|
        row.len() == DelegationTable::width() && (#[trigger] DelegationTable::parse_row(
            row,
        )) is Ok implies DelegationTable::stored(
        DelegationTable::parse_row(row)->Ok_0.0,
        DelegationTable::parse_row(row)->Ok_0.1,
    ) by {
        lemma_be_limits();
        lemma_be_value_bound(field(row, 24, 8));
    }
    lemma_parsed_table_stored::<DelegationTable>(b);
    assert forall|k: (u32, Address)| #[trigger] m.dom().contains(k) implies m[k] > 0 by {
        assert(DelegationTable::stored(k, m[k]));
    }
}

/// Unbonding stake that was read fits and is not zero.
pub proof fn lemma_unbondings_are_positive(l: Ledger, m: Map<(u32, Address, u64), u64>)
    requires
        unbondings(l) == Ok::<Map<(u32, Address, u64), u64>, ExecutionError>(m),
    ensures
        fits::<UnbondingTable>(m),
        forall|k: (u32, Address, u64)| #[trigger] m.dom().contains(k) ==> m[k] > 0,
{
    let b = l.record(reserved::validator_unbonding_registry_address());
    lemma_parsed_table_fits::<UnbondingTable>(b);
    assert forall|row: Seq<u8>|
        row.len() == UnbondingTable::width() && (#[trigger] UnbondingTable::parse_row(
            row,
        )) is Ok implies UnbondingTable::stored(
        UnbondingTable::parse_row(row)->Ok_0.0,
        UnbondingTable::parse_row(row)->Ok_0.1,
    ) by {
        lemma_be_limits();
        lemma_be_value_bound(field(row, 32, 8));
    }
    lemma_parsed_table_stored::<UnbondingTable>(b);
    assert forall|k: (u32, Address, u64)| #[trigger] m.dom().contains(k) implies m[k] > 0 by {
        assert(UnbondingTable::stored(k, m[k]));
    }
}

/// Written delegations without zeros are read back as they are.
proof fn lemma_delegations_put(l: Ledger, m: Map<(u32, Address), u64>)
    requires
        fits::<DelegationTable>(m),
        forall|k: (u32, Address)| #[trigger] m.dom().contains(k) ==> m[k] > 0,
    ensures
        delegated_in(with_delegations(l, m)) == total(m),
{
    law_delegations_read_back(l, m);
    assert(stored_part::<DelegationTable>(m) =~= m);
}

/// Written unbonding stake without zeros is read back as it is.
proof fn lemma_unbondings_put(l: Ledger, m: Map<(u32, Address, u64), u64>)
    requires
        fits::<UnbondingTable>(m),
        forall|k: (u32, Address, u64)| #[trigger] m.dom().contains(k) ==> m[k] > 0,
    ensures
        unbonding_in(with_unbondings(l, m)) == total(m),
{
    law_unbondings_read_back(l, m);
    assert(stored_part::<UnbondingTable>(m) =~= m);
}

/// A table with room can take one more row.
pub proof fn lemma_row_added<T: Table>(m: Map<T::Key, T::Value>, k: T::Key, v: T::Value)
    requires
        fits::<T>(m),
        has_room::<T>(m),
    ensures
        fits::<T>(m.insert(k, v)),
{
    if m.dom().contains(k) {
        assert(m.insert(k, v).dom() =~= m.dom());
    } else {
        assert(m.insert(k, v).dom() =~= m.dom().insert(k));
    }
}

/// A table fits after rows were dropped.
pub proof fn lemma_row_dropped<T: Table>(m: Map<T::Key, T::Value>, n: Map<T::Key, T::Value>)
    requires
        fits::<T>(m),
        n.dom().subset_of(m.dom()),
    ensures
        fits::<T>(n),
{
    vstd::set_lib::lemma_len_subset(n.dom(), m.dom());
    assert(n.dom().len() * T::width() <= m.dom().len() * T::width()) by (nonlinear_arith)
        requires
            n.dom().len() <= m.dom().len(),
    ;
}

proof fn lemma_delegate_books(
    l: Ledger,
    m: Map<(u32, Address), u64>,
    from: Address,
    id: u32,
    amount: Balance,
)
    requires
        delegations(l) == Ok::<Map<(u32, Address), u64>, ExecutionError>(m),
        has_room::<DelegationTable>(m),
    ensures
        ({
            let s = delegate_step(l, from, id, amount);
            s.answer is Ok ==> delegated_in(s.ledger) == delegated_in(l) + amount
        }),
{
    let s = delegate_step(l, from, id, amount);
    let key = (id, from);
    lemma_delegations_are_positive(l, m);
    if s.answer is Ok && amount != 0 {
        let v = (amount_at(m, key) + amount) as u64;
        lemma_row_added::<DelegationTable>(m, key, v);
        lemma_total_insert(m, key, v);
        lemma_delegations_put(Ledger { balances: s.ledger.balances, ..l }, m.insert(key, v));
    }
}

proof fn lemma_undelegate_books(
    l: Ledger,
    m: Map<(u32, Address), u64>,
    u: Map<(u32, Address, u64), u64>,
    from: Address,
    id: u32,
    amount: Balance,
)
    requires
        reserved::apart(),
        delegations(l) == Ok::<Map<(u32, Address), u64>, ExecutionError>(m),
        unbondings(l) == Ok::<Map<(u32, Address, u64), u64>, ExecutionError>(u),
        has_room::<DelegationTable>(m),
        has_room::<UnbondingTable>(u),
    ensures
        ({
            let s = undelegate_step(l, from, id, amount);
            s.answer is Ok ==> {
                &&& delegated_in(s.ledger) == delegated_in(l) - amount
                &&& unbonding_in(s.ledger) == unbonding_in(l) + amount
            }
        }),
{
    let s = undelegate_step(l, from, id, amount);
    let key = (id, from);
    let slot = (id, from, l.height);
    lemma_delegations_are_positive(l, m);
    lemma_unbondings_are_positive(l, u);
    lemma_owned_differ(19, 21);
    assert(reserved::all_owned()[19] == reserved::validator_delegation_registry_address());
    assert(reserved::all_owned()[21] == reserved::validator_unbonding_registry_address());
    if s.answer is Ok && amount != 0 {
        let n = shrunk(m, key, amount as u64);
        if amount_at(m, key) == amount {
            lemma_row_dropped::<DelegationTable>(m, n);
            lemma_total_remove(m, key);
        } else {
            lemma_row_added::<DelegationTable>(m, key, (amount_at(m, key) - amount) as u64);
            lemma_total_insert(m, key, (amount_at(m, key) - amount) as u64);
        }
        lemma_delegations_put(l, n);
        let v = (amount_at(u, slot) + amount) as u64;
        lemma_row_added::<UnbondingTable>(u, slot, v);
        lemma_total_insert(u, slot, v);
        lemma_unbondings_put(with_delegations(l, n), u.insert(slot, v));
        assert(s.ledger.record(reserved::validator_delegation_registry_address())
            == with_delegations(l, n).record(reserved::validator_delegation_registry_address()));
    }
}

proof fn lemma_claim_splits(
    rows: Seq<((u32, Address, u64), u64)>,
    from: Address,
    id: u32,
    height: u64,
)
    requires
        ascending(rows),
    ensures
        total(rows_map(rows)) == matured_sum(rows, from, id, height) + total(
            unclaimed(rows_map(rows), from, id, height),
        ),
        unclaimed(rows_map(rows), from, id, height).dom().finite(),
    decreases rows.len(),
{
    lemma_rows_map_dom(rows);
    if rows.len() == 0 {
        assert(unclaimed(rows_map(rows), from, id, height) =~= Map::empty());
    } else {
        let init = rows.drop_last();
        let (k, v) = rows.last();
        let before = rows_map(init);
        assert(ascending(init)) by {
            assert forall|a: int, b: int|
                #![trigger init[a], init[b]]
                0 <= a < b < init.len() implies init[a].0.before(init[b].0) by {
                assert(rows[a].0.before(rows[b].0));
            }
        }
        lemma_claim_splits(init, from, id, height);
        lemma_rows_map_dom(init);
        assert(!before.dom().contains(k)) by {
            if before.dom().contains(k) {
                let j = choose|j: int| 0 <= j < init.len() && (#[trigger] init[j]).0 == k;
                assert(rows[j].0.before(rows[rows.len() - 1].0));
                <(u32, Address, u64)>::lemma_irreflexive(k);
            }
        }
        lemma_total_insert(before, k, v);
        let rest = unclaimed(before, from, id, height);
        if matured(k, from, id, height) {
            assert(unclaimed(rows_map(rows), from, id, height) =~= rest);
        } else {
            lemma_total_insert(rest, k, v);
            assert(unclaimed(rows_map(rows), from, id, height) =~= rest.insert(k, v));
        }
    }
}

proof fn lemma_claim_books(
    l: Ledger,
    u: Map<(u32, Address, u64), u64>,
    from: Address,
    id: u32,
)
    requires
        unbondings(l) == Ok::<Map<(u32, Address, u64), u64>, ExecutionError>(u),
    ensures
        ({
            let s = claim_step(l, from, id);
            s.answer is Ok ==> unbonding_in(s.ledger) == unbonding_in(l) - matured_sum(
                sorted_rows(u),
                from,
                id,
                l.height,
            )
        }),
{
    let s = claim_step(l, from, id);
    lemma_unbondings_are_positive(l, u);
    lemma_sorted_rows(u);
    lemma_claim_splits(sorted_rows(u), from, id, l.height);
    let rest = unclaimed(u, from, id, l.height);
    lemma_row_dropped::<UnbondingTable>(u, rest);
    lemma_unbondings_put(Ledger { balances: s.ledger.balances, ..l }, rest);
}

/// What an intent adds to what is bonded in the Authority Ring.
pub open spec fn authority_bonding(l: Ledger, intent: Intent) -> int {
    match intent {
        Intent::DepositAuthorityStake { amount, .. } => amount as int,
        Intent::WithdrawAuthorityStake { amount, .. } => -(amount as int),
        Intent::EjectAuthority { authority_id, .. } => -(match row_at(
            readable(ring_slots(l, RewardsRing::Authority)),
            authority_id,
        ) {
            Some(slot) => slot.deposited as int,
            None => 0,
        }),
        _ => 0,
    }
}

proof fn lemma_authority_bonding(l: Ledger, intent: Intent, evidence: EvidenceView)
    requires
        reserved::apart(),
        ring_slots(l, RewardsRing::Authority) matches Ok(m) && m.dom().len() < u32::MAX,
        applied(l, intent, evidence).answer is Ok,
    ensures
        bonded_in(applied(l, intent, evidence).ledger, RewardsRing::Authority) == bonded_in(
            l,
            RewardsRing::Authority,
        ) + authority_bonding(l, intent),
{
    let ring = RewardsRing::Authority;
    let m = ring_slots(l, ring)->Ok_0;
    if !writes_authorities(intent) {
        law_only_writers_change_authorities(l, intent, evidence);
    }
    match intent {
        Intent::AdmitAuthority { authority_id, stake_gsx, mldsa_public_key, bls_public_key } => {
            lemma_admit_bonds(
                l,
                ring,
                m,
                authority_id,
                stake_gsx,
                mldsa_public_key@,
                bls_public_key@,
            );
        },
        Intent::ExitAuthority { authority_id } => lemma_exit_bonds(l, ring, m, authority_id),
        Intent::EjectAuthority { authority_id, proof_ref } => {
            lemma_eject_bonds(l, ring, m, authority_id)
        },
        Intent::DepositAuthorityStake { from, authority_id, amount } => {
            lemma_deposit_bonds(l, ring, m, from, authority_id, amount)
        },
        Intent::WithdrawAuthorityStake { to, authority_id, amount } => {
            lemma_withdraw_bonds(l, ring, m, to, authority_id, amount)
        },
        _ => {},
    }
}

/// What an intent adds to what is bonded in the Validator Ring.
pub open spec fn validator_bonding(l: Ledger, intent: Intent) -> int {
    match intent {
        Intent::DepositValidatorStake { amount, .. } => amount as int,
        Intent::WithdrawValidatorStake { amount, .. } => -(amount as int),
        Intent::EjectValidator { validator_id, .. } => -(match row_at(
            readable(ring_slots(l, RewardsRing::Validator)),
            validator_id,
        ) {
            Some(slot) => slot.deposited as int,
            None => 0,
        }),
        _ => 0,
    }
}

proof fn lemma_validator_bonding(l: Ledger, intent: Intent, evidence: EvidenceView)
    requires
        reserved::apart(),
        ring_slots(l, RewardsRing::Validator) matches Ok(m) && m.dom().len() < u32::MAX,
        applied(l, intent, evidence).answer is Ok,
    ensures
        bonded_in(applied(l, intent, evidence).ledger, RewardsRing::Validator) == bonded_in(
            l,
            RewardsRing::Validator,
        ) + validator_bonding(l, intent),
{
    let ring = RewardsRing::Validator;
    let m = ring_slots(l, ring)->Ok_0;
    if !writes_validators(intent) {
        law_only_writers_change_validators(l, intent, evidence);
    }
    match intent {
        Intent::AdmitValidator { validator_id, stake_gsx, mldsa_public_key, bls_public_key } => {
            lemma_admit_bonds(
                l,
                ring,
                m,
                validator_id,
                stake_gsx,
                mldsa_public_key@,
                bls_public_key@,
            );
        },
        Intent::ExitValidator { validator_id } => lemma_exit_bonds(l, ring, m, validator_id),
        Intent::EjectValidator { validator_id, proof_ref } => {
            lemma_eject_bonds(l, ring, m, validator_id)
        },
        Intent::DepositValidatorStake { from, validator_id, amount } => {
            lemma_deposit_bonds(l, ring, m, from, validator_id, amount)
        },
        Intent::WithdrawValidatorStake { to, validator_id, amount } => {
            lemma_withdraw_bonds(l, ring, m, to, validator_id, amount)
        },
        _ => {},
    }
}

/// What an intent adds to what is delegated.
pub open spec fn delegating(intent: Intent) -> int {
    match intent {
        Intent::Delegate { amount, .. } => amount as int,
        Intent::UndelegateBegin { amount, .. } => -(amount as int),
        _ => 0,
    }
}

/// What an intent adds to what is unbonding.
pub open spec fn unbonding(l: Ledger, intent: Intent) -> int {
    match intent {
        Intent::UndelegateBegin { amount, .. } => amount as int,
        Intent::UndelegateClaim { from, validator_id } => match unbondings(l) {
            Ok(u) => -(matured_sum(sorted_rows(u), from, validator_id, l.height) as int),
            Err(_) => 0,
        },
        _ => 0,
    }
}

proof fn lemma_delegating(l: Ledger, intent: Intent, evidence: EvidenceView)
    requires
        reserved::apart(),
        stake_books_in_order(l),
        applied(l, intent, evidence).answer is Ok,
    ensures
        delegated_in(applied(l, intent, evidence).ledger) == delegated_in(l) + delegating(intent),
        unbonding_in(applied(l, intent, evidence).ledger) == unbonding_in(l) + unbonding(
            l,
            intent,
        ),
{
    let d = delegations(l)->Ok_0;
    let u = unbondings(l)->Ok_0;
    if !writes_delegations(intent) {
        law_only_writers_change_delegations(l, intent, evidence);
    }
    if !writes_unbondings(intent) {
        law_only_writers_change_unbondings(l, intent, evidence);
    }
    match intent {
        Intent::Delegate { from, validator_id, amount } => {
            lemma_delegate_books(l, d, from, validator_id, amount)
        },
        Intent::UndelegateBegin { from, validator_id, amount } => {
            lemma_undelegate_books(l, d, u, from, validator_id, amount)
        },
        Intent::UndelegateClaim { from, validator_id } => {
            lemma_claim_books(l, u, from, validator_id)
        },
        _ => {},
    }
}

proof fn lemma_refusal_books(l: Ledger, intent: Intent, evidence: EvidenceView, ring: RewardsRing)
    requires
        reserved::apart(),
        applied(l, intent, evidence).answer is Err,
    ensures
        owed(applied(l, intent, evidence).ledger, ring) == owed(l, ring),
{
    law_intents_are_confined(l, intent, evidence);
    if intent is L2BurnProven {
        law_only_writers_change_authorities(l, intent, evidence);
        law_only_writers_change_validators(l, intent, evidence);
        law_only_writers_change_delegations(l, intent, evidence);
        law_only_writers_change_unbondings(l, intent, evidence);
    }
}

proof fn lemma_bond_is_covered(l: Ledger, ring: RewardsRing, id: u32)
    requires
        ring_slots(l, ring) is Ok,
        surplus(l, ring) >= 0,
    ensures
        forfeited(l, ring, id) == (match row_at(readable(ring_slots(l, ring)), id) {
            Some(slot) => slot.deposited as int,
            None => 0,
        }),
{
    let m = ring_slots(l, ring)->Ok_0;
    lemma_parse_keys_fit(l.record(ring_registry(ring)));
    assert(bonds(m).dom() =~= m.dom());
    lemma_total_remove(bonds(m), id);
}

proof fn lemma_owed_follows(l: Ledger, intent: Intent, evidence: EvidenceView, ring: RewardsRing)
    requires
        reserved::apart(),
        stake_books_in_order(l),
        surplus(l, ring) >= 0,
        applied(l, intent, evidence).answer is Ok,
    ensures
        owed(applied(l, intent, evidence).ledger, ring) == owed(l, ring) + booked(
            l,
            intent,
            ring,
        ),
{
    match ring {
        RewardsRing::Authority => {
            lemma_authority_bonding(l, intent, evidence);
            if let Intent::EjectAuthority { authority_id, proof_ref } = intent {
                lemma_bond_is_covered(l, ring, authority_id);
            }
        },
        RewardsRing::Validator => {
            lemma_validator_bonding(l, intent, evidence);
            lemma_delegating(l, intent, evidence);
            if let Intent::EjectValidator { validator_id, proof_ref } = intent {
                lemma_bond_is_covered(l, ring, validator_id);
            }
        },
    }
}

/// A stake pool that holds at least what it owes goes on doing so: every intent
/// changes what the pool holds by what it changes in the books. Only a genesis
/// allocation to the pool adds to its surplus, and only a bridge lock that names
/// the pool as its payer can touch it.
pub proof fn law_stake_pools_hold_what_they_owe(
    l: Ledger,
    intent: Intent,
    evidence: EvidenceView,
    ring: RewardsRing,
)
    requires
        stake_books_in_order(l),
        surplus(l, ring) >= 0,
        !locks_pool(intent, ring),
    ensures
        ({
            let s = applied(l, intent, evidence);
            reserved::apart() ==> surplus(s.ledger, ring) == surplus(l, ring) + (
            if s.answer is Ok {
                granted(intent, stake_pool(ring))
            } else {
                0
            })
        }),
{
    if reserved::apart() {
        lemma_pool_is_apart(ring);
        law_protocol_accounts_are_guarded(l, intent, evidence, stake_pool(ring));
        if applied(l, intent, evidence).answer is Ok {
            lemma_pool_change(l, intent, ring);
            lemma_owed_follows(l, intent, evidence, ring);
        } else {
            lemma_refusal_books(l, intent, evidence, ring);
        }
    }
}

} // verus!
