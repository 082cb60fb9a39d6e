//! Queries on the state and setup helpers.

use vstd::prelude::*;

use crate::authority_registry::AuthorityRecord;
use crate::burn_nullifier;
use crate::bytes::{same_array, zero_hash};
use crate::delegating::{amount_at, delegations, unbondings};
use crate::eject_registry::EjectionRecord;
use crate::equivocation_registry::EquivocationRecord;
use crate::error::ExecutionError;
use crate::force_include::ForceIncludeObligation;
use crate::intent::{Intent, RewardsRing};
use crate::ledger::{agrees, credited_one, Ledger};
use crate::ordered::{sorted_rows, OrderedMap, OrderedSet};
use crate::reserved;
use crate::rollup::claimed;
use crate::sequencing::{ejections, obligations, offenses};
use crate::slots::views;
use crate::staking::ring_slots;
use crate::substrate::{Address, Balance, InMemorySubstrate, Substrate};
use crate::transfers::{minted_epoch, paid_epoch, read_minted_epoch, read_paid_epoch};
use crate::validator_registry::ValidatorRecord;

verus! {

/// The rows of a registry, none where it cannot be read.
pub open spec fn readable<K, V>(r: Result<Map<K, V>, ExecutionError>) -> Map<K, V> {
    match r {
        Ok(m) => m,
        Err(_) => Map::empty(),
    }
}

/// The row under `k`, if there is one.
pub open spec fn row_at<K, V>(m: Map<K, V>, k: K) -> Option<V> {
    if m.dom().contains(k) {
        Some(m[k])
    } else {
        None
    }
}

/// The claimed burns, none where they cannot be read.
pub open spec fn claimed_or_none(l: Ledger) -> Set<[u8; 32]> {
    match claimed(l) {
        Ok(s) => s,
        Err(_) => Set::empty(),
    }
}

/// The bonded capital of a slot, zero where it is not occupied.
pub open spec fn bonded(l: Ledger, ring: RewardsRing, id: u32) -> u64 {
    match row_at(readable(ring_slots(l, ring)), id) {
        Some(r) => r.deposited,
        None => 0,
    }
}

/// The stake delegated to a validator slot among `rows`.
pub open spec fn delegated_sum(rows: Seq<((u32, Address), u64)>, validator_id: u32) -> nat
    decreases rows.len(),
{
    if rows.len() == 0 {
        0
    } else {
        let here: nat = if rows.last().0.0 == validator_id {
            rows.last().1 as nat
        } else {
            0
        };
        delegated_sum(rows.drop_last(), validator_id) + here
    }
}

/// The unbonding stake of a delegator among `rows`.
pub open spec fn unbonding_sum(
    rows: Seq<((u32, Address, u64), u64)>,
    validator_id: u32,
    delegator: Address,
) -> nat
    decreases rows.len(),
{
    if rows.len() == 0 {
        0
    } else {
        let (k, v) = rows.last();
        let here: nat = if k.0 == validator_id && k.1 == delegator {
            v as nat
        } else {
            0
        };
        unbonding_sum(rows.drop_last(), validator_id, delegator) + here
    }
}

/// The stake delegated to a validator slot in a state.
pub open spec fn delegated_total(l: Ledger, validator_id: u32) -> nat {
    delegated_sum(sorted_rows(readable(delegations(l))), validator_id)
}

/// The unbonding stake of a delegator in a state.
pub open spec fn unbonding_total(l: Ledger, validator_id: u32, delegator: Address) -> nat {
    unbonding_sum(sorted_rows(readable(unbondings(l))), validator_id, delegator)
}

proof fn lemma_delegated_bound(rows: Seq<((u32, Address), u64)>, validator_id: u32)
    ensures
        delegated_sum(rows, validator_id) <= rows.len() * u64::MAX,
    decreases rows.len(),
{
    if rows.len() > 0 {
        lemma_delegated_bound(rows.drop_last(), validator_id);
    }
}

proof fn lemma_unbonding_bound(
    rows: Seq<((u32, Address, u64), u64)>,
    validator_id: u32,
    delegator: Address,
)
    ensures
        unbonding_sum(rows, validator_id, delegator) <= rows.len() * u64::MAX,
    decreases rows.len(),
{
    if rows.len() > 0 {
        lemma_unbonding_bound(rows.drop_last(), validator_id, delegator);
    }
}

impl InMemorySubstrate {
    /// The balance of the bridge escrow.
    pub fn bridge_escrow_balance(&self) -> (v: Balance)
        ensures
            v == self@.balance(reserved::bridge_escrow_address()),
    {
        self.balance_at(&reserved::bridge_escrow_address())
    }

    /// The balance of the sequencer's liveness bond.
    pub fn sequencer_bond_balance(&self) -> (v: Balance)
        ensures
            v == self@.balance(reserved::sequencer_bond_address()),
    {
        self.balance_at(&reserved::sequencer_bond_address())
    }

    /// The balance of the sequencer's safety bond.
    pub fn safety_bond_balance(&self) -> (v: Balance)
        ensures
            v == self@.balance(reserved::safety_bond_address()),
    {
        self.balance_at(&reserved::safety_bond_address())
    }

    /// Credits the sequencer's liveness bond, for setting up a scenario.
    pub fn fund_sequencer_bond(&mut self, amount: Balance) -> (r: Result<(), ExecutionError>)
        ensures
            match credited_one(
                old(self)@.balances,
                reserved::sequencer_bond_address(),
                amount,
            ) {
                Ok(b) => r is Ok && final(self)@ == old(self)@.with_balances(b),
                Err(e) => r == Err::<(), ExecutionError>(e) && final(self)@ == old(self)@,
            },
    {
        self.credit_unchecked(reserved::sequencer_bond_address(), amount)
    }

    /// Credits the sequencer's safety bond, for setting up a scenario.
    pub fn fund_safety_bond(&mut self, amount: Balance) -> (r: Result<(), ExecutionError>)
        ensures
            match credited_one(old(self)@.balances, reserved::safety_bond_address(), amount) {
                Ok(b) => r is Ok && final(self)@ == old(self)@.with_balances(b),
                Err(e) => r == Err::<(), ExecutionError>(e) && final(self)@ == old(self)@,
            },
    {
        self.credit_unchecked(reserved::safety_bond_address(), amount)
    }

    /// Pins the verifying keys of the default chain.
    pub fn pin_l2_verifying_key(
        &mut self,
        aggregation_vk_hash: [u8; 32],
        range_vk_commitment: [u8; 32],
    ) -> (r: Result<(), ExecutionError>)
        ensures
            agrees(
                crate::rollup::pin_step(
                    old(self)@,
                    zero_hash(),
                    aggregation_vk_hash,
                    range_vk_commitment,
                ),
                final(self)@,
                r,
            ),
    {
        self.pin_l2_verifying_key_for_chain(
            zero_hash(),
            aggregation_vk_hash,
            range_vk_commitment,
        )
    }

    /// Pins the verifying keys of a chain.
    pub fn pin_l2_verifying_key_for_chain(
        &mut self,
        chain_id_hash: [u8; 32],
        aggregation_vk_hash: [u8; 32],
        range_vk_commitment: [u8; 32],
    ) -> (r: Result<(), ExecutionError>)
        ensures
            agrees(
                crate::rollup::pin_step(
                    old(self)@,
                    chain_id_hash,
                    aggregation_vk_hash,
                    range_vk_commitment,
                ),
                final(self)@,
                r,
            ),
    {
        self.apply_intent(
            &Intent::SetL2VerifyingKey {
                chain_id_hash,
                new_aggregation_vk: aggregation_vk_hash,
                new_range_commitment: range_vk_commitment,
            },
        )
    }

    /// The obligation under an id; none where the registry cannot be read.
    pub fn force_include_obligation(&self, obligation_id: &[u8; 32]) -> (r: Option<
        ForceIncludeObligation,
    >)
        ensures
            r == row_at(readable(obligations(self@)), *obligation_id),
    {
        match self.load_obligations() {
            Ok(m) => match m.get(obligation_id) {
                Some(ob) => Some(*ob),
                None => None,
            },
            Err(_) => None,
        }
    }

    /// The number of registered obligations of any status.
    pub fn force_include_count(&self) -> (n: usize)
        ensures
            n == readable(obligations(self@)).dom().len(),
    {
        match self.load_obligations() {
            Ok(m) => m.len(),
            Err(_) => 0,
        }
    }

    /// The ejection recorded for an obligation.
    pub fn sequencer_ejection(&self, obligation_id: &[u8; 32]) -> (r: Option<EjectionRecord>)
        ensures
            r == row_at(readable(ejections(self@)), *obligation_id),
    {
        match self.load_ejections() {
            Ok(m) => match m.get(obligation_id) {
                Some(rec) => Some(*rec),
                None => None,
            },
            Err(_) => None,
        }
    }

    /// The number of recorded ejections.
    pub fn sequencer_ejection_count(&self) -> (n: usize)
        ensures
            n == readable(ejections(self@)).dom().len(),
    {
        match self.load_ejections() {
            Ok(m) => m.len(),
            Err(_) => 0,
        }
    }

    fn load_claimed(&self) -> (s: OrderedSet<[u8; 32]>)
        ensures
            s@ == claimed_or_none(self@),
    {
        let bytes: Vec<u8> = self.record_or_empty(&reserved::burn_nullifier_registry_address());
        match burn_nullifier::decode(bytes.as_slice()) {
            Ok(s) => s,
            Err(_) => OrderedSet::new(),
        }
    }

    /// Whether a burn was already claimed.
    pub fn burn_id_claimed(&self, burn_id: &[u8; 32]) -> (r: bool)
        ensures
            r == claimed_or_none(self@).contains(*burn_id),
    {
        self.load_claimed().contains(burn_id)
    }

    /// The number of claimed burns.
    pub fn burn_nullifier_count(&self) -> (n: usize)
        ensures
            n == claimed_or_none(self@).len(),
    {
        self.load_claimed().len()
    }

    /// The offense slashed for a proof.
    pub fn equivocation_record(&self, proof_hash: &[u8; 32]) -> (r: Option<EquivocationRecord>)
        ensures
            r == row_at(readable(offenses(self@)), *proof_hash),
    {
        match self.load_offenses() {
            Ok(m) => match m.get(proof_hash) {
                Some(rec) => Some(*rec),
                None => None,
            },
            Err(_) => None,
        }
    }

    /// The number of slashed offenses.
    pub fn equivocation_count(&self) -> (n: usize)
        ensures
            n == readable(offenses(self@)).dom().len(),
    {
        match self.load_offenses() {
            Ok(m) => m.len(),
            Err(_) => 0,
        }
    }

    /// The occupied slot under an id.
    fn slot_record(&self, ring: RewardsRing, id: u32) -> (r: Option<AuthorityRecord>)
        ensures
            match r {
                Some(rec) => row_at(readable(ring_slots(self@, ring)), id) == Some(rec@),
                None => row_at(readable(ring_slots(self@, ring)), id) is None,
            },
    {
        match self.load_ring(ring) {
            Ok(mut m) => {
                let ghost v = views(m@);
                match m.remove(&id) {
                    Some(rec) => {
                        assert(v.dom().contains(id) && v[id] == rec@);
                        Some(rec)
                    },
                    None => {
                        assert(!v.dom().contains(id));
                        None
                    },
                }
            },
            Err(_) => None,
        }
    }

    /// The number of occupied slots of a ring.
    fn slot_count(&self, ring: RewardsRing) -> (n: usize)
        ensures
            n == readable(ring_slots(self@, ring)).dom().len(),
    {
        match self.load_ring(ring) {
            Ok(m) => {
                assert(views(m@).dom() =~= m@.dom());
                m.len()
            },
            Err(_) => 0,
        }
    }

    /// The authority in a slot.
    pub fn authority_record(&self, authority_id: u32) -> (r: Option<AuthorityRecord>)
        ensures
            match r {
                Some(rec) => row_at(
                    readable(ring_slots(self@, RewardsRing::Authority)),
                    authority_id,
                ) == Some(rec@),
                None => row_at(
                    readable(ring_slots(self@, RewardsRing::Authority)),
                    authority_id,
                ) is None,
            },
    {
        self.slot_record(RewardsRing::Authority, authority_id)
    }

    /// The number of occupied authority slots of any status.
    pub fn authority_count(&self) -> (n: usize)
        ensures
            n == readable(ring_slots(self@, RewardsRing::Authority)).dom().len(),
    {
        self.slot_count(RewardsRing::Authority)
    }

    /// The validator in a slot.
    pub fn validator_record(&self, validator_id: u32) -> (r: Option<ValidatorRecord>)
        ensures
            match r {
                Some(rec) => row_at(
                    readable(ring_slots(self@, RewardsRing::Validator)),
                    validator_id,
                ) == Some(rec@),
                None => row_at(
                    readable(ring_slots(self@, RewardsRing::Validator)),
                    validator_id,
                ) is None,
            },
    {
        self.slot_record(RewardsRing::Validator, validator_id)
    }

    /// The number of occupied validator slots of any status.
    pub fn validator_count(&self) -> (n: usize)
        ensures
            n == readable(ring_slots(self@, RewardsRing::Validator)).dom().len(),
    {
        self.slot_count(RewardsRing::Validator)
    }

    /// The bonded capital of an authority slot.
    pub fn authority_deposited_stake(&self, authority_id: u32) -> (v: u64)
        ensures
            v == bonded(self@, RewardsRing::Authority, authority_id),
    {
        match self.authority_record(authority_id) {
            Some(r) => r.deposited_stake,
            None => 0,
        }
    }

    /// The bonded capital of a validator slot.
    pub fn validator_deposited_stake(&self, validator_id: u32) -> (v: u64)
        ensures
            v == bonded(self@, RewardsRing::Validator, validator_id),
    {
        match self.validator_record(validator_id) {
            Some(r) => r.deposited_stake,
            None => 0,
        }
    }

    /// The last minted epoch, zero for none.
    pub fn last_minted_inflation_epoch(&self) -> (e: u64)
        ensures
            e == minted_epoch(self@.record(reserved::inflation_registry_address())),
    {
        let bytes: Vec<u8> = self.record_or_empty(&reserved::inflation_registry_address());
        read_minted_epoch(bytes.as_slice())
    }

    /// The last paid epoch of a ring, zero for none.
    pub fn last_distributed_rewards_epoch(&self, ring: RewardsRing) -> (e: u64)
        ensures
            e == paid_epoch(
                self@.record(reserved::rewards_distribution_registry_address()),
                ring,
            ),
    {
        let bytes: Vec<u8> = self.record_or_empty(
            &reserved::rewards_distribution_registry_address(),
        );
        read_paid_epoch(bytes.as_slice(), ring)
    }

    /// The stake that a delegator delegates to a validator slot.
    pub fn delegation(&self, validator_id: u32, delegator: Address) -> (v: u64)
        ensures
            v == amount_at(readable(delegations(self@)), (validator_id, delegator)),
    {
        match self.load_delegations() {
            Ok(m) => match m.get(&(validator_id, delegator)) {
                Some(v) => *v,
                None => 0,
            },
            Err(_) => 0,
        }
    }

    /// The unbonding stake of a delegator that began to unbond at a height.
    pub fn unbonding(&self, validator_id: u32, delegator: Address, unbonding_height: u64) -> (v:
        u64)
        ensures
            v == amount_at(
                readable(unbondings(self@)),
                (validator_id, delegator, unbonding_height),
            ),
    {
        match self.load_unbondings() {
            Ok(m) => match m.get(&(validator_id, delegator, unbonding_height)) {
                Some(v) => *v,
                None => 0,
            },
            Err(_) => 0,
        }
    }

    fn sum_delegated(&self, validator_id: u32) -> (total: u128)
        ensures
            total == delegated_total(self@, validator_id),
    {
        let map = match self.load_delegations() {
            Ok(m) => m,
            Err(_) => OrderedMap::new(),
        };
        let rows = map.entries();
        let n: usize = rows.len();
        let mut i: usize = 0;
        let mut total: u128 = 0;
        while i < n
            invariant
                i <= n,
                n == rows@.len(),
                total == delegated_sum(rows@.take(i as int), validator_id),
            decreases n - i,
        {
            let (key, amount) = rows[i];
            proof {
                assert(rows@.take(i + 1).drop_last() =~= rows@.take(i as int));
                assert(rows@.take(i + 1).last() == (key, amount));
                lemma_delegated_bound(rows@.take(i as int), validator_id);
                assert(i * u64::MAX <= 0xffff_ffff_ffff_fffe * u64::MAX) by (nonlinear_arith)
                    requires
                        i <= 0xffff_ffff_ffff_fffe,
                ;
            }
            if key.0 == validator_id {
                total = total + amount as u128;
            }
            i = i + 1;
        }
        assert(rows@.take(n as int) =~= rows@);
        total
    }

    fn sum_unbonding(&self, validator_id: u32, delegator: &Address) -> (total: u128)
        ensures
            total == unbonding_total(self@, validator_id, *delegator),
    {
        let map = match self.load_unbondings() {
            Ok(m) => m,
            Err(_) => OrderedMap::new(),
        };
        let rows = map.entries();
        let n: usize = rows.len();
        let mut i: usize = 0;
        let mut total: u128 = 0;
        while i < n
            invariant
                i <= n,
                n == rows@.len(),
                total == unbonding_sum(rows@.take(i as int), validator_id, *delegator),
            decreases n - i,
        {
            let (key, amount) = rows[i];
            proof {
                assert(rows@.take(i + 1).drop_last() =~= rows@.take(i as int));
                assert(rows@.take(i + 1).last() == (key, amount));
                lemma_unbonding_bound(rows@.take(i as int), validator_id, *delegator);
                assert(i * u64::MAX <= 0xffff_ffff_ffff_fffe * u64::MAX) by (nonlinear_arith)
                    requires
                        i <= 0xffff_ffff_ffff_fffe,
                ;
            }
            if key.0 == validator_id && same_array(&key.1, delegator) {
                total = total + amount as u128;
            }
            i = i + 1;
        }
        assert(rows@.take(n as int) =~= rows@);
        total
    }

    /// The stake delegated to a validator slot, which must fit.
    pub fn total_delegated_to_validator(&self, validator_id: u32) -> (v: u64)
        requires
            delegated_total(self@, validator_id) <= u64::MAX,
        ensures
            v == delegated_total(self@, validator_id),
    {
        self.sum_delegated(validator_id) as u64
    }

    /// The stake delegated to a validator slot, where it fits.
    pub fn checked_total_delegated_to_validator(&self, validator_id: u32) -> (v: Option<u64>)
        ensures
            match v {
                Some(t) => t == delegated_total(self@, validator_id),
                None => delegated_total(self@, validator_id) > u64::MAX,
            },
    {
        if self.sum_delegated(validator_id) > u64::MAX as u128 {
            None
        } else {
            Some(self.total_delegated_to_validator(validator_id))
        }
    }

    /// The unbonding stake of a delegator at any height, which must fit.
    pub fn total_unbonding_for(&self, validator_id: u32, delegator: Address) -> (v: u64)
        requires
            unbonding_total(self@, validator_id, delegator) <= u64::MAX,
        ensures
            v == unbonding_total(self@, validator_id, delegator),
    {
        self.sum_unbonding(validator_id, &delegator) as u64
    }

    /// The unbonding stake of a delegator at any height, where it fits.
    pub fn checked_total_unbonding_for(&self, validator_id: u32, delegator: Address) -> (v: Option<
        u64,
    >)
        ensures
            match v {
                Some(t) => t == unbonding_total(self@, validator_id, delegator),
                None => unbonding_total(self@, validator_id, delegator) > u64::MAX,
            },
    {
        if self.sum_unbonding(validator_id, &delegator) > u64::MAX as u128 {
            None
        } else {
            Some(self.total_unbonding_for(validator_id, delegator))
        }
    }
}

} // verus!
