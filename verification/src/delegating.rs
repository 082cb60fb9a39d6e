//! Delegated stake: delegation, cool-off and claim.

use vstd::prelude::*;

use crate::authority_registry::AuthorityStatus;
use crate::bytes::same_array;
use crate::delegation_registry::{self, DelegationTable};
use crate::error::ExecutionError;
use crate::intent::RewardsRing;
use crate::ledger::{agrees, done, moved, refused, Ledger, Step};
use crate::ordered::{ascending, lemma_rows_map_dom, rows_map, sorted_rows, OrderedKey, OrderedMap};
use crate::reserved;
use crate::slots::views;
use crate::staking::{cooldown_end, cooldown_over_at, ring_slots, slot_inactive, slot_missing};
use crate::substrate::{Address, Balance, InMemorySubstrate};
use crate::table::table_bytes;
use crate::unbonding_registry::{self, UnbondingTable};

verus! {

/// The delegations in a state.
pub open spec fn delegations(l: Ledger) -> Result<Map<(u32, Address), u64>, ExecutionError> {
    delegation_registry::parse(l.record(reserved::validator_delegation_registry_address()))
}

/// The unbonding stake in a state.
pub open spec fn unbondings(l: Ledger) -> Result<Map<(u32, Address, u64), u64>, ExecutionError> {
    unbonding_registry::parse(l.record(reserved::validator_unbonding_registry_address()))
}

/// The amount stored under `k`, zero where there is none.
pub open spec fn amount_at<K>(m: Map<K, u64>, k: K) -> u64 {
    if m.dom().contains(k) {
        m[k]
    } else {
        0
    }
}

/// The state with other delegations.
pub open spec fn with_delegations(l: Ledger, m: Map<(u32, Address), u64>) -> Ledger {
    l.with_record(
        reserved::validator_delegation_registry_address(),
        table_bytes::<DelegationTable>(m),
    )
}

/// The state with other unbonding stake.
pub open spec fn with_unbondings(l: Ledger, m: Map<(u32, Address, u64), u64>) -> Ledger {
    l.with_record(
        reserved::validator_unbonding_registry_address(),
        table_bytes::<UnbondingTable>(m),
    )
}

/// The error for a delegation counter that would overflow.
pub open spec fn stake_overflow(ring: &'static str, validator_id: u32) -> ExecutionError {
    ExecutionError::DepositedStakeOverflow { ring, slot_id: validator_id }
}

/// A delegation to an active validator slot.
pub open spec fn delegate_step(
    l: Ledger,
    from: Address,
    validator_id: u32,
    amount: Balance,
) -> Step {
    let key = (validator_id, from);
    if amount == 0 {
        done(l)
    } else if reserved::is_reserved(&from) {
        refused(l, ExecutionError::ReservedAddressTransferDenied { addr: from })
    } else {
        match ring_slots(l, RewardsRing::Validator) {
            Err(e) => refused(l, e),
            Ok(v) => if !v.dom().contains(validator_id) {
                refused(l, slot_missing(RewardsRing::Validator, validator_id))
            } else if v[validator_id].status != AuthorityStatus::Active {
                refused(
                    l,
                    slot_inactive(RewardsRing::Validator, validator_id, v[validator_id].status),
                )
            } else if amount > u64::MAX {
                refused(l, stake_overflow("delegation", validator_id))
            } else {
                match delegations(l) {
                    Err(e) => refused(l, e),
                    Ok(m) => if amount_at(m, key) + amount > u64::MAX {
                        refused(l, stake_overflow("delegation", validator_id))
                    } else {
                        match moved(
                            l.balances,
                            from,
                            reserved::validator_stake_pool_address(),
                            amount,
                        ) {
                            Err(e) => refused(l, e),
                            Ok(b) => done(
                                with_delegations(
                                    l.with_balances(b),
                                    m.insert(key, (amount_at(m, key) + amount) as u64),
                                ),
                            ),
                        }
                    },
                }
            },
        }
    }
}

/// The delegations after `amount` left `key`.
pub open spec fn shrunk(m: Map<(u32, Address), u64>, key: (u32, Address), amount: u64) -> Map<
    (u32, Address),
    u64,
> {
    if amount_at(m, key) == amount {
        m.remove(key)
    } else {
        m.insert(key, (amount_at(m, key) - amount) as u64)
    }
}

/// The start of a cool-off: the amount leaves the delegation and waits under the
/// current height. Balances do not change.
pub open spec fn undelegate_step(
    l: Ledger,
    from: Address,
    validator_id: u32,
    amount: Balance,
) -> Step {
    let key = (validator_id, from);
    let waiting = (validator_id, from, l.height);
    if amount == 0 {
        done(l)
    } else if reserved::is_reserved(&from) {
        refused(l, ExecutionError::ReservedAddressTransferDenied { addr: from })
    } else if amount > u64::MAX {
        refused(l, stake_overflow("delegation", validator_id))
    } else {
        match delegations(l) {
            Err(e) => refused(l, e),
            Ok(m) => if amount_at(m, key) < amount {
                refused(
                    l,
                    ExecutionError::UndelegationExceedsDelegation {
                        slot_id: validator_id,
                        want: amount,
                        have: amount_at(m, key) as Balance,
                    },
                )
            } else {
                match unbondings(l) {
                    Err(e) => refused(l, e),
                    Ok(u) => if amount_at(u, waiting) + amount > u64::MAX {
                        refused(l, stake_overflow("unbonding", validator_id))
                    } else {
                        done(
                            with_unbondings(
                                with_delegations(l, shrunk(m, key, amount as u64)),
                                u.insert(waiting, (amount_at(u, waiting) + amount) as u64),
                            ),
                        )
                    },
                }
            },
        }
    }
}

/// Whether the cool-off under `key` belongs to the claim and is over.
pub open spec fn matured(
    key: (u32, Address, u64),
    from: Address,
    validator_id: u32,
    height: u64,
) -> bool {
    key.0 == validator_id && key.1 == from && height >= cooldown_end(key.2)
}

/// The stake of a claim among `rows`.
pub open spec fn matured_sum(
    rows: Seq<((u32, Address, u64), u64)>,
    from: Address,
    validator_id: u32,
    height: u64,
) -> nat
    decreases rows.len(),
{
    if rows.len() == 0 {
        0
    } else {
        let here: nat = if matured(rows.last().0, from, validator_id, height) {
            rows.last().1 as nat
        } else {
            0
        };
        matured_sum(rows.drop_last(), from, validator_id, height) + here
    }
}

/// The unbonding stake that a claim leaves.
pub open spec fn unclaimed(
    m: Map<(u32, Address, u64), u64>,
    from: Address,
    validator_id: u32,
    height: u64,
) -> Map<(u32, Address, u64), u64> {
    Map::new(
        |k: (u32, Address, u64)|
            m.dom().contains(k) && !matured(k, from, validator_id, height),
        |k: (u32, Address, u64)| m[k],
    )
}

/// A claim of all stake whose cool-off is over.
pub open spec fn claim_step(l: Ledger, from: Address, validator_id: u32) -> Step {
    if reserved::is_reserved(&from) {
        refused(l, ExecutionError::ReservedAddressTransferDenied { addr: from })
    } else {
        match unbondings(l) {
            Err(e) => refused(l, e),
            Ok(u) => {
                let total = matured_sum(sorted_rows(u), from, validator_id, l.height);
                if total > Balance::MAX {
                    refused(l, stake_overflow("unbonding", validator_id))
                } else if total == 0 {
                    done(l)
                } else {
                    match moved(
                        l.balances,
                        reserved::validator_stake_pool_address(),
                        from,
                        total as Balance,
                    ) {
                        Err(e) => refused(l, e),
                        Ok(b) => done(
                            with_unbondings(
                                l.with_balances(b),
                                unclaimed(u, from, validator_id, l.height),
                            ),
                        ),
                    }
                }
            },
        }
    }
}

proof fn lemma_matured_prefix(
    rows: Seq<((u32, Address, u64), u64)>,
    i: int,
    from: Address,
    validator_id: u32,
    height: u64,
)
    requires
        0 <= i <= rows.len(),
    ensures
        matured_sum(rows.take(i), from, validator_id, height) <= matured_sum(
            rows,
            from,
            validator_id,
            height,
        ),
    decreases rows.len() - i,
{
    if i < rows.len() {
        assert(rows.take(i + 1).drop_last() =~= rows.take(i));
        lemma_matured_prefix(rows, i + 1, from, validator_id, height);
    } else {
        assert(rows.take(i) =~= rows);
    }
}

impl InMemorySubstrate {
    /// Reads the delegations.
    pub(crate) fn load_delegations(&self) -> (r: Result<
        OrderedMap<(u32, Address), u64>,
        ExecutionError,
    >)
        ensures
            match r {
                Ok(m) => delegations(self@) == Ok::<Map<(u32, Address), u64>, ExecutionError>(m@),
                Err(e) => delegations(self@) == Err::<Map<(u32, Address), u64>, ExecutionError>(e),
            },
    {
        let bytes: Vec<u8> = self.record_or_empty(
            &reserved::validator_delegation_registry_address(),
        );
        delegation_registry::decode(bytes.as_slice())
    }

    /// Reads the unbonding stake.
    pub(crate) fn load_unbondings(&self) -> (r: Result<
        OrderedMap<(u32, Address, u64), u64>,
        ExecutionError,
    >)
        ensures
            match r {
                Ok(m) => unbondings(self@) == Ok::<
                    Map<(u32, Address, u64), u64>,
                    ExecutionError,
                >(m@),
                Err(e) => unbondings(self@) == Err::<
                    Map<(u32, Address, u64), u64>,
                    ExecutionError,
                >(e),
            },
    {
        let bytes: Vec<u8> = self.record_or_empty(
            &reserved::validator_unbonding_registry_address(),
        );
        unbonding_registry::decode(bytes.as_slice())
    }

    pub(crate) fn apply_delegate(
        &mut self,
        from: Address,
        validator_id: u32,
        amount: Balance,
    ) -> (r: Result<(), ExecutionError>)
        ensures
            agrees(delegate_step(old(self)@, from, validator_id, amount), final(self)@, r),
    {
        if amount == 0 {
            return Ok(());
        }
        if reserved::is_reserved(&from) {
            return Err(ExecutionError::ReservedAddressTransferDenied { addr: from });
        }
        let slots = match self.load_ring(RewardsRing::Validator) {
            Err(e) => {
                return Err(e);
            },
            Ok(m) => m,
        };
        let ghost v = views(slots@);
        let status = match slots.get(&validator_id) {
            None => {
                assert(!v.dom().contains(validator_id));
                return Err(ExecutionError::ValidatorNotFound { validator_id });
            },
            Some(rec) => {
                assert(v.dom().contains(validator_id) && v[validator_id] == rec@);
                rec.status
            },
        };
        match status {
            AuthorityStatus::Active => {},
            status => {
                return Err(ExecutionError::ValidatorNotActive { validator_id, status });
            },
        }
        if amount > u64::MAX as Balance {
            return Err(
                ExecutionError::DepositedStakeOverflow {
                    ring: "delegation",
                    slot_id: validator_id,
                },
            );
        }
        let mut map = match self.load_delegations() {
            Err(e) => {
                return Err(e);
            },
            Ok(m) => m,
        };
        let key = (validator_id, from);
        let current: u64 = match map.get(&key) {
            Some(v) => *v,
            None => 0,
        };
        let sum: u64 = match current.checked_add(amount as u64) {
            None => {
                return Err(
                    ExecutionError::DepositedStakeOverflow {
                        ring: "delegation",
                        slot_id: validator_id,
                    },
                );
            },
            Some(v) => v,
        };
        match self.transfer_internal(from, reserved::validator_stake_pool_address(), amount) {
            Err(e) => Err(e),
            Ok(()) => {
                map.insert(key, sum);
                let out: Vec<u8> = delegation_registry::encode(&map);
                self.write_bytes_unchecked(
                    reserved::validator_delegation_registry_address(),
                    out,
                );
                Ok(())
            },
        }
    }

    pub(crate) fn apply_undelegate(
        &mut self,
        from: Address,
        validator_id: u32,
        amount: Balance,
    ) -> (r: Result<(), ExecutionError>)
        ensures
            agrees(undelegate_step(old(self)@, from, validator_id, amount), final(self)@, r),
    {
        if amount == 0 {
            return Ok(());
        }
        if reserved::is_reserved(&from) {
            return Err(ExecutionError::ReservedAddressTransferDenied { addr: from });
        }
        if amount > u64::MAX as Balance {
            return Err(
                ExecutionError::DepositedStakeOverflow {
                    ring: "delegation",
                    slot_id: validator_id,
                },
            );
        }
        let height: u64 = self.height();
        let mut map = match self.load_delegations() {
            Err(e) => {
                return Err(e);
            },
            Ok(m) => m,
        };
        let key = (validator_id, from);
        let current: u64 = match map.get(&key) {
            Some(v) => *v,
            None => 0,
        };
        if (current as Balance) < amount {
            return Err(
                ExecutionError::UndelegationExceedsDelegation {
                    slot_id: validator_id,
                    want: amount,
                    have: current as Balance,
                },
            );
        }
        let mut waiting = match self.load_unbondings() {
            Err(e) => {
                return Err(e);
            },
            Ok(m) => m,
        };
        let slot = (validator_id, from, height);
        let prior: u64 = match waiting.get(&slot) {
            Some(v) => *v,
            None => 0,
        };
        let sum: u64 = match prior.checked_add(amount as u64) {
            None => {
                return Err(
                    ExecutionError::DepositedStakeOverflow {
                        ring: "unbonding",
                        slot_id: validator_id,
                    },
                );
            },
            Some(v) => v,
        };
        if current == amount as u64 {
            map.remove(&key);
        } else {
            map.insert(key, current - amount as u64);
        }
        waiting.insert(slot, sum);
        let del: Vec<u8> = delegation_registry::encode(&map);
        self.write_bytes_unchecked(reserved::validator_delegation_registry_address(), del);
        let unb: Vec<u8> = unbonding_registry::encode(&waiting);
        self.write_bytes_unchecked(reserved::validator_unbonding_registry_address(), unb);
        Ok(())
    }

    pub(crate) fn apply_claim(&mut self, from: Address, validator_id: u32) -> (r: Result<
        (),
        ExecutionError,
    >)
        ensures
            agrees(claim_step(old(self)@, from, validator_id), final(self)@, r),
    {
        if reserved::is_reserved(&from) {
            return Err(ExecutionError::ReservedAddressTransferDenied { addr: from });
        }
        let height: u64 = self.height();
        let map = match self.load_unbondings() {
            Err(e) => {
                return Err(e);
            },
            Ok(m) => m,
        };
        let rows = map.entries();
        let n: usize = rows.len();
        let mut total: Balance = 0;
        let mut rest = OrderedMap::<(u32, Address, u64), u64>::new();
        let mut i: usize = 0;
        assert(rows_map(rows@.take(0)) =~= Map::empty());
        assert(rest@ =~= unclaimed(rows_map(rows@.take(0)), from, validator_id, height));
        while i < n
            invariant
                i <= n,
                n == rows@.len(),
                ascending(rows@),
                self@ == old(self)@,
                total == matured_sum(rows@.take(i as int), from, validator_id, height),
                rest@ == unclaimed(rows_map(rows@.take(i as int)), from, validator_id, height),
                unbondings(self@) == Ok::<Map<(u32, Address, u64), u64>, ExecutionError>(map@),
                rows@ == sorted_rows(map@),
                height == self@.height,
                !reserved::is_reserved(&from),
            decreases n - i,
        {
            let (key, amount) = rows[i];
            let ghost before = rows_map(rows@.take(i as int));
            proof {
                assert(rows@.take(i + 1).drop_last() =~= rows@.take(i as int));
                assert(rows@.take(i + 1).last() == (key, amount));
                lemma_rows_map_dom(rows@.take(i as int));
                assert(!before.dom().contains(key)) by {
                    if before.dom().contains(key) {
                        let j = choose|j: int|
                            0 <= j < rows@.take(i as int).len() && (#[trigger] rows@.take(
                                i as int,
                            )[j]).0 == key;
                        assert(rows@[j].0.before(rows@[i as int].0));
                        <(u32, Address, u64)>::lemma_irreflexive(key);
                    }
                }
            }
            if key.0 == validator_id && same_array(&key.1, &from) && height >= cooldown_over_at(
                key.2,
            ) {
                match total.checked_add(amount as Balance) {
                    None => {
                        proof {
                            lemma_matured_prefix(rows@, i + 1, from, validator_id, height);
                        }
                        return Err(
                            ExecutionError::DepositedStakeOverflow {
                                ring: "unbonding",
                                slot_id: validator_id,
                            },
                        );
                    },
                    Some(t) => {
                        total = t;
                    },
                }
                assert(rest@ =~= unclaimed(
                    before.insert(key, amount),
                    from,
                    validator_id,
                    height,
                ));
            } else {
                rest.insert(key, amount);
                assert(rest@ =~= unclaimed(
                    before.insert(key, amount),
                    from,
                    validator_id,
                    height,
                ));
            }
            i = i + 1;
        }
        assert(rows@.take(n as int) =~= rows@);
        if total == 0 {
            return Ok(());
        }
        match self.transfer_internal(reserved::validator_stake_pool_address(), from, total) {
            Err(e) => Err(e),
            Ok(()) => {
                let out: Vec<u8> = unbonding_registry::encode(&rest);
                self.write_bytes_unchecked(
                    reserved::validator_unbonding_registry_address(),
                    out,
                );
                Ok(())
            },
        }
    }
}

} // verus!
