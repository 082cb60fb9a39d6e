//! What intents on balances and bonded stake are answered: exactly when each
//! succeeds, and what each is refused for.

use vstd::prelude::*;

use crate::apply::{applied, EvidenceView};
use crate::authority_registry::AuthorityStatus;
use crate::bytes::{
    be_bytes, be_value, field, lemma_be_bytes_len, lemma_be_limits, lemma_be_round_trip,
    lemma_be_value_bound,
};
use crate::delegating::{amount_at, delegations, unbondings};
use crate::error::ExecutionError;
use crate::intent::{ring_name, Intent, RewardsRing};
use crate::laws::payments::{
    at, can_hold, can_pay, credit_to, law_credits_add_up,
    law_credits_fail_at_the_first_that_does_not_fit, law_credits_need_room,
    law_drain_pays_the_credits, law_drains_need_funds, law_payment_moves_the_amount,
    law_payments_need_funds,
};
use crate::ledger::{credit_sum, refused, Ledger, Step};
use crate::reserved;
use crate::staking::{ring_registry, ring_slots, slot_inactive, slot_missing, slot_occupied, stake_pool};
use crate::substrate::{Address, Balance};
use crate::transfers::{
    first_reserved, inflation_credits, paid_epoch, paid_epochs_bytes, rewards_pool,
    slashing_credits,
};

verus! {

/// Whether only balances changed, by `amount` from `from` to `to`.
pub open spec fn only_paid(l: Ledger, s: Step, from: Address, to: Address, amount: int) -> bool {
    &&& s.ledger.records == l.records
    &&& s.ledger.height == l.height
    &&& s.ledger.pairings == l.pairings
    &&& forall|x: Address| #[trigger]
        s.ledger.balance(x) == l.balance(x) - at(x, from, amount) + at(x, to, amount)
}

/// A transfer succeeds exactly where both accounts belong to users, the sender
/// holds the amount and the receiver can hold it too. It then moves the amount
/// and changes nothing else; a refused one changes nothing.
pub proof fn law_transfers_are_answered(
    l: Ledger,
    from: Address,
    to: Address,
    amount: Balance,
    evidence: EvidenceView,
)
    ensures
        ({
            let s = applied(l, Intent::Transfer { from, to, amount }, evidence);
            let users = !reserved::is_reserved(&from) && !reserved::is_reserved(&to);
            &&& s.answer is Ok <==> users && can_pay(l.balances, from, to, amount)
            &&& s.answer is Ok ==> only_paid(l, s, from, to, amount as int)
            &&& reserved::is_reserved(&from) ==> s == refused(
                l,
                ExecutionError::ReservedAddressTransferDenied { addr: from },
            )
            &&& !reserved::is_reserved(&from) && reserved::is_reserved(&to) ==> s == refused(
                l,
                ExecutionError::ReservedAddressTransferDenied { addr: to },
            )
            &&& users && l.balance(from) < amount ==> s == refused(
                l,
                ExecutionError::InsufficientBalance { from, have: l.balance(from), need: amount },
            )
            &&& users && amount <= l.balance(from) && !can_pay(l.balances, from, to, amount)
                ==> s == refused(l, ExecutionError::BalanceOverflow { to })
        }),
{
    let e = ExecutionError::BalanceOverflow { to };
    law_payments_need_funds(l.balances, from, to, amount, e);
    law_payment_moves_the_amount(l.balances, from, to, amount, e);
}

/// What a payment between a user and a protocol account is answered.
pub open spec fn payment_answered(
    l: Ledger,
    s: Step,
    user: Address,
    from: Address,
    to: Address,
    amount: Balance,
) -> bool {
    &&& s.answer is Ok <==> amount == 0 || !reserved::is_reserved(&user) && can_pay(
        l.balances,
        from,
        to,
        amount,
    )
    &&& s.answer is Ok ==> only_paid(l, s, from, to, amount as int)
    &&& amount != 0 && reserved::is_reserved(&user) ==> s == refused(
        l,
        ExecutionError::ReservedAddressTransferDenied { addr: user },
    )
    &&& !reserved::is_reserved(&user) && l.balance(from) < amount ==> s == refused(
        l,
        ExecutionError::InsufficientBalance { from, have: l.balance(from), need: amount },
    )
    &&& !reserved::is_reserved(&user) && amount <= l.balance(from) && !can_pay(
        l.balances,
        from,
        to,
        amount,
    ) ==> s == refused(l, ExecutionError::DistributionOverflow { to })
}

/// Payments into the two sequencer bonds, out of the treasury and out of the
/// insurance pool succeed exactly where the user's account is no protocol account,
/// the payer holds the amount and the payee can hold it too. They move the amount
/// and change nothing else; a payment of nothing succeeds and changes nothing.
pub proof fn law_bonds_and_pools_are_answered(
    l: Ledger,
    user: Address,
    amount: Balance,
    tag: [u8; 32],
    evidence: EvidenceView,
)
    ensures
        payment_answered(
            l,
            applied(l, Intent::DepositSequencerBond { from: user, amount }, evidence),
            user,
            user,
            reserved::sequencer_bond_address(),
            amount,
        ),
        payment_answered(
            l,
            applied(l, Intent::DepositSafetyBond { from: user, amount }, evidence),
            user,
            user,
            reserved::safety_bond_address(),
            amount,
        ),
        payment_answered(
            l,
            applied(
                l,
                Intent::DisburseTreasury { recipient: user, amount, purpose_tag: tag },
                evidence,
            ),
            user,
            reserved::treasury_address(),
            user,
            amount,
        ),
        payment_answered(
            l,
            applied(
                l,
                Intent::ClaimInsurance { claimant: user, amount, claim_reference: tag },
                evidence,
            ),
            user,
            reserved::insurance_pool_address(),
            user,
            amount,
        ),
{
    lemma_payment(l, user, reserved::sequencer_bond_address(), amount);
    lemma_payment(l, user, reserved::safety_bond_address(), amount);
    lemma_payment(l, reserved::treasury_address(), user, amount);
    lemma_payment(l, reserved::insurance_pool_address(), user, amount);
}

proof fn lemma_payment(l: Ledger, from: Address, to: Address, amount: Balance)
    ensures
        ({
            let e = ExecutionError::DistributionOverflow { to };
            let r = crate::ledger::moved(l.balances, from, to, amount);
            &&& r is Ok <==> can_pay(l.balances, from, to, amount)
            &&& r matches Ok(m) ==> forall|x: Address| #[trigger]
                crate::ledger::balance_of(m, x) == l.balance(x) - at(x, from, amount as int) + at(
                    x,
                    to,
                    amount as int,
                )
            &&& r matches Err(f) ==> f == (if l.balance(from) < amount {
                ExecutionError::InsufficientBalance { from, have: l.balance(from), need: amount }
            } else {
                e
            })
        }),
{
    let e = ExecutionError::DistributionOverflow { to };
    law_payments_need_funds(l.balances, from, to, amount, e);
    law_payment_moves_the_amount(l.balances, from, to, amount, e);
}

/// Whether only balances changed, by `credits`.
pub open spec fn only_credited(l: Ledger, s: Step, credits: Seq<(Address, Balance)>) -> bool {
    &&& s.ledger.records == l.records
    &&& s.ledger.height == l.height
    &&& s.ledger.pairings == l.pairings
    &&& forall|x: Address| #[trigger]
        s.ledger.balance(x) == l.balance(x) + credit_to(credits, x)
}

/// Whether credit `i` is the first that its account cannot hold.
pub open spec fn first_overflow(l: Ledger, credits: Seq<(Address, Balance)>, i: int) -> bool {
    &&& 0 <= i < credits.len()
    &&& can_hold(l.balances, credits.take(i))
    &&& !can_hold(l.balances, credits.take(i + 1))
}

/// The initial supply is allotted exactly where no block was executed yet and
/// every account can hold its part. It adds the allotted amounts and changes
/// nothing else.
pub proof fn law_genesis_is_answered(
    l: Ledger,
    allocations: Vec<(Address, Balance)>,
    i: int,
    evidence: EvidenceView,
)
    ensures
        ({
            let s = applied(l, Intent::GenesisAllocation { allocations }, evidence);
            &&& s.answer is Ok <==> l.height == 0 && can_hold(l.balances, allocations@)
            &&& s.answer is Ok ==> only_credited(l, s, allocations@)
            &&& s.answer is Err ==> s.ledger == l
            &&& l.height != 0 ==> s == refused(
                l,
                ExecutionError::GenesisAfterBootstrap { current_block_height: l.height },
            )
            &&& l.height == 0 && first_overflow(l, allocations@, i) ==> s == refused(
                l,
                ExecutionError::DistributionOverflow { to: allocations@[i].0 },
            )
        }),
{
    if first_overflow(l, allocations@, i) {
        law_credits_fail_at_the_first_that_does_not_fit(l.balances, allocations@, i);
    }
    law_credits_need_room(l.balances, allocations@);
    law_credits_add_up(l.balances, allocations@);
}

/// The first protocol account among payees is the one that has no other before it.
pub proof fn law_first_reserved_comes_first(payees: Seq<(Address, Balance)>)
    ensures
        first_reserved(payees) is None <==> forall|i: int|
            0 <= i < payees.len() ==> !reserved::is_reserved(&(#[trigger] payees[i]).0),
        first_reserved(payees) matches Some(a) ==> exists|i: int|
            {
                &&& 0 <= i < payees.len()
                &&& (#[trigger] payees[i]).0 == a
                &&& reserved::is_reserved(&a)
                &&& forall|j: int| 0 <= j < i ==> !reserved::is_reserved(&(#[trigger] payees[j]).0)
            },
    decreases payees.len(),
{
    if payees.len() > 0 {
        let init = payees.drop_last();
        let last = payees.len() - 1;
        law_first_reserved_comes_first(init);
        assert forall|i: int| 0 <= i < init.len() implies init[i] == #[trigger] payees[i] by {}
        match first_reserved(init) {
            Some(a) => {
                let i = choose|i: int|
                    {
                        &&& 0 <= i < init.len()
                        &&& (#[trigger] init[i]).0 == a
                        &&& reserved::is_reserved(&a)
                        &&& forall|j: int|
                            0 <= j < i ==> !reserved::is_reserved(&(#[trigger] init[j]).0)
                    };
                assert(payees[i].0 == a);
                assert forall|j: int| 0 <= j < i implies !reserved::is_reserved(
                    &(#[trigger] payees[j]).0,
                ) by {
                    assert(!reserved::is_reserved(&init[j].0));
                }
            },
            None => {
                assert forall|i: int| 0 <= i < last implies !reserved::is_reserved(
                    &(#[trigger] payees[i]).0,
                ) by {
                    assert(!reserved::is_reserved(&init[i].0));
                }
                assert(payees[last] == payees.last());
            },
        }
    }
}

/// Slashed funds are distributed exactly where no counterparty is a protocol
/// account and every account can hold its part. Counterparties get what is listed
/// for them, insurance pool and treasury their shares, and nothing else changes.
pub proof fn law_slashed_funds_are_answered(
    l: Ledger,
    slash_event_id: [u8; 32],
    counterparties: Vec<(Address, Balance)>,
    insurance_share: Balance,
    treasury_share: Balance,
    k: int,
    evidence: EvidenceView,
)
    ensures
        ({
            let s = applied(
                l,
                Intent::DistributeSlashedFunds {
                    slash_event_id,
                    counterparties,
                    insurance_share,
                    treasury_share,
                },
                evidence,
            );
            let credits = counterparties@.push(
                (reserved::insurance_pool_address(), insurance_share),
            ).push((reserved::treasury_address(), treasury_share));
            let users = forall|i: int|
                0 <= i < counterparties@.len() ==> !reserved::is_reserved(
                    &(#[trigger] counterparties@[i]).0,
                );
            &&& s.answer is Ok <==> users && can_hold(l.balances, credits)
            &&& s.answer is Ok ==> only_credited(l, s, credits)
            &&& users && first_overflow(l, credits, k) ==> s == refused(
                l,
                ExecutionError::DistributionOverflow { to: credits[k].0 },
            )
            &&& s.answer is Err ==> s.ledger == l
            &&& !users ==> exists|i: int|
                {
                    &&& 0 <= i < counterparties@.len()
                    &&& s == refused(
                        l,
                        ExecutionError::ReservedAddressInCounterparties {
                            addr: (#[trigger] counterparties@[i]).0,
                        },
                    )
                    &&& reserved::is_reserved(&counterparties@[i].0)
                }
        }),
{
    let credits = slashing_credits(counterparties@, insurance_share, treasury_share);
    if first_overflow(l, credits, k) {
        law_credits_fail_at_the_first_that_does_not_fit(l.balances, credits, k);
    }
    law_first_reserved_comes_first(counterparties@);
    law_credits_need_room(l.balances, credits);
    law_credits_add_up(l.balances, credits);
}

/// The epoch that eight bytes spell, zero for no bytes.
pub open spec fn epoch_in(b: Seq<u8>) -> nat {
    if b.len() == 0 {
        0
    } else {
        be_value(b)
    }
}

proof fn lemma_epoch(b: Seq<u8>)
    requires
        b.len() == 8,
    ensures
        be_value(b) as u64 == be_value(b),
{
    lemma_be_value_bound(b);
    lemma_be_limits();
}

/// Inflation is minted exactly where the record of the last minted epoch can be
/// read, the epoch is past it and the three accounts can hold their shares.
pub proof fn law_mints_are_answered(
    l: Ledger,
    epoch: u64,
    authority_share: Balance,
    validator_share: Balance,
    treasury_share: Balance,
    k: int,
    evidence: EvidenceView,
)
    ensures
        ({
            let s = applied(
                l,
                Intent::MintInflation { epoch, authority_share, validator_share, treasury_share },
                evidence,
            );
            let bytes = l.record(reserved::inflation_registry_address());
            let credits = seq![
                (reserved::authority_rewards_pool_address(), authority_share),
                (reserved::validator_rewards_pool_address(), validator_share),
                (reserved::treasury_address(), treasury_share),
            ];
            &&& s.answer is Ok <==> (bytes.len() == 0 || bytes.len() == 8) && epoch > epoch_in(
                bytes,
            ) && can_hold(l.balances, credits)
            &&& s.answer is Ok ==> forall|x: Address| #[trigger]
                s.ledger.balance(x) == l.balance(x) + credit_to(credits, x)
            &&& (bytes.len() == 0 || bytes.len() == 8) && epoch > epoch_in(bytes) && first_overflow(
                l,
                credits,
                k,
            ) ==> s == refused(l, ExecutionError::DistributionOverflow { to: credits[k].0 })
            &&& s.answer is Ok ==> epoch_in(
                s.ledger.record(reserved::inflation_registry_address()),
            ) == epoch && s.ledger.record(reserved::inflation_registry_address()).len() == 8
            &&& forall|a: Address|
                a != reserved::inflation_registry_address() ==> #[trigger] s.ledger.record(a)
                    == l.record(a)
            &&& s.ledger.height == l.height
            &&& s.answer is Err ==> s.ledger == l
            &&& bytes.len() != 0 && bytes.len() != 8 ==> s == refused(
                l,
                ExecutionError::CorruptStateRecord {
                    addr: reserved::inflation_registry_address(),
                    reason: "inflation registry size mismatch",
                },
            )
            &&& (bytes.len() == 0 || bytes.len() == 8) && epoch <= epoch_in(bytes) ==> s
                == refused(
                l,
                ExecutionError::InflationEpochAlreadyMinted {
                    attempted_epoch: epoch,
                    last_minted_epoch: epoch_in(bytes) as u64,
                },
            )
        }),
{
    let bytes = l.record(reserved::inflation_registry_address());
    let credits = inflation_credits(authority_share, validator_share, treasury_share);
    if bytes.len() == 8 {
        lemma_epoch(bytes);
    }
    if first_overflow(l, credits, k) {
        law_credits_fail_at_the_first_that_does_not_fit(l.balances, credits, k);
    }
    lemma_be_limits();
    lemma_be_bytes_len(epoch as nat, 8);
    lemma_be_round_trip(epoch as nat, 8);
    law_credits_need_room(l.balances, credits);
    law_credits_add_up(l.balances, credits);
}

/// Rewards are paid exactly where the record of the last paid epochs can be read,
/// the epoch is past the ring's last one, no recipient is a protocol account, the
/// ring's rewards pool holds the sum, and every recipient can hold its part.
pub proof fn law_rewards_are_answered(
    l: Ledger,
    epoch: u64,
    ring: RewardsRing,
    recipients: Vec<(Address, Balance)>,
    evidence: EvidenceView,
)
    ensures
        ({
            let s = applied(l, Intent::DistributeRewards { epoch, ring, recipients }, evidence);
            let bytes = l.record(reserved::rewards_distribution_registry_address());
            let pool = match ring {
                RewardsRing::Authority => reserved::authority_rewards_pool_address(),
                RewardsRing::Validator => reserved::validator_rewards_pool_address(),
            };
            let last = if bytes.len() == 0 {
                0
            } else {
                match ring {
                    RewardsRing::Authority => be_value(bytes.subrange(0, 8)),
                    RewardsRing::Validator => be_value(bytes.subrange(8, 16)),
                }
            };
            let users = forall|i: int|
                0 <= i < recipients@.len() ==> !reserved::is_reserved(
                    &(#[trigger] recipients@[i]).0,
                );
            let sum = credit_sum(recipients@);
            let payable = sum == 0 || l.balance(pool) >= sum && (forall|x: Address|
                l.balance(x) - at(x, pool, sum as int) + #[trigger] credit_to(recipients@, x)
                    <= Balance::MAX);
            &&& s.answer is Ok <==> (bytes.len() == 0 || bytes.len() == 16) && epoch > last
                && users && payable
            &&& s.answer is Ok ==> forall|x: Address| #[trigger]
                s.ledger.balance(x) == l.balance(x) - at(x, pool, sum as int) + credit_to(
                    recipients@,
                    x,
                )
            &&& s.answer is Ok ==> {
                let after = s.ledger.record(reserved::rewards_distribution_registry_address());
                let (own, other) = match ring {
                    RewardsRing::Authority => (after.subrange(0, 8), after.subrange(8, 16)),
                    RewardsRing::Validator => (after.subrange(8, 16), after.subrange(0, 8)),
                };
                let kept = if bytes.len() == 0 {
                    0
                } else {
                    match ring {
                        RewardsRing::Authority => be_value(bytes.subrange(8, 16)),
                        RewardsRing::Validator => be_value(bytes.subrange(0, 8)),
                    }
                };
                after.len() == 16 && be_value(own) == epoch && be_value(other) == kept
            }
            &&& forall|a: Address|
                a != reserved::rewards_distribution_registry_address()
                    ==> #[trigger] s.ledger.record(a) == l.record(a)
            &&& s.ledger.height == l.height
            &&& s.answer is Err ==> s.ledger == l
            &&& bytes.len() != 0 && bytes.len() != 16 ==> s == refused(
                l,
                ExecutionError::CorruptStateRecord {
                    addr: reserved::rewards_distribution_registry_address(),
                    reason: "rewards distribution registry size mismatch",
                },
            )
            &&& (bytes.len() == 0 || bytes.len() == 16) && epoch <= last ==> s == refused(
                l,
                ExecutionError::RewardsEpochAlreadyDistributed {
                    ring: ring_name(ring),
                    attempted_epoch: epoch,
                    last_distributed_epoch: last as u64,
                },
            )
            &&& (bytes.len() == 0 || bytes.len() == 16) && epoch > last && users && l.balance(pool)
                < sum <= Balance::MAX ==> s == refused(
                l,
                ExecutionError::InsufficientBalance {
                    from: pool,
                    have: l.balance(pool),
                    need: sum as Balance,
                },
            )
            &&& (bytes.len() == 0 || bytes.len() == 16) && epoch > last && !users ==> exists|i: int|
                {
                    &&& 0 <= i < recipients@.len()
                    &&& s == refused(
                        l,
                        ExecutionError::ReservedAddressTransferDenied {
                            addr: (#[trigger] recipients@[i]).0,
                        },
                    )
                    &&& reserved::is_reserved(&recipients@[i].0)
                }
        }),
{
    let bytes = l.record(reserved::rewards_distribution_registry_address());
    let pool = rewards_pool(ring);
    if bytes.len() == 16 {
        lemma_epoch(field(bytes, 0, 8));
        lemma_epoch(field(bytes, 8, 8));
    }
    let auth = if ring == RewardsRing::Authority {
        epoch
    } else {
        paid_epoch(bytes, RewardsRing::Authority)
    };
    let val = if ring == RewardsRing::Validator {
        epoch
    } else {
        paid_epoch(bytes, RewardsRing::Validator)
    };
    let after = paid_epochs_bytes(bytes, ring, epoch);
    lemma_be_limits();
    lemma_be_bytes_len(auth as nat, 8);
    lemma_be_bytes_len(val as nat, 8);
    lemma_be_round_trip(auth as nat, 8);
    lemma_be_round_trip(val as nat, 8);
    assert(after.subrange(0, 8) =~= be_bytes(auth as nat, 8));
    assert(after.subrange(8, 16) =~= be_bytes(val as nat, 8));
    law_first_reserved_comes_first(recipients@);
    law_drains_need_funds(l.balances, pool, recipients@);
    law_drain_pays_the_credits(l.balances, pool, recipients@);
}

/// A delegation of an amount succeeds exactly where the delegator is a user, the
/// validator slot is active, what is then delegated fits in 64 bits, and the
/// delegator can pay the amount into the stake pool.
pub proof fn law_delegations_are_answered(
    l: Ledger,
    from: Address,
    validator_id: u32,
    amount: Balance,
    evidence: EvidenceView,
)
    ensures
        ({
            let s = applied(l, Intent::Delegate { from, validator_id, amount }, evidence);
            let ring = RewardsRing::Validator;
            let pool = reserved::validator_stake_pool_address();
            let active = ring_slots(l, ring) matches Ok(v) && v.dom().contains(validator_id)
                && v[validator_id].status == AuthorityStatus::Active;
            let fitting = delegations(l) matches Ok(m) && amount_at(m, (validator_id, from))
                + amount <= u64::MAX;
            &&& s.answer is Ok <==> amount == 0 || !reserved::is_reserved(&from) && active
                && fitting && can_pay(l.balances, from, pool, amount)
            &&& s.answer is Ok ==> forall|x: Address| #[trigger]
                s.ledger.balance(x) == l.balance(x) - at(x, from, amount as int) + at(
                    x,
                    pool,
                    amount as int,
                )
            &&& s.answer is Err ==> s.ledger == l
            &&& amount == 0 ==> s.ledger == l
            &&& amount != 0 && reserved::is_reserved(&from) ==> s == refused(
                l,
                ExecutionError::ReservedAddressTransferDenied { addr: from },
            )
            &&& amount != 0 && !reserved::is_reserved(&from) && (ring_slots(l, ring) matches Ok(v)
                && !v.dom().contains(validator_id)) ==> s == refused(
                l,
                ExecutionError::ValidatorNotFound { validator_id },
            )
            &&& amount != 0 && !reserved::is_reserved(&from) ==> (ring_slots(l, ring) matches Ok(v)
                ==> (v.dom().contains(validator_id) && v[validator_id].status
                != AuthorityStatus::Active ==> s == refused(
                l,
                ExecutionError::ValidatorNotActive {
                    validator_id,
                    status: v[validator_id].status,
                },
            )))
            &&& amount != 0 && !reserved::is_reserved(&from) ==> (ring_slots(l, ring) matches Err(e)
                ==> s == refused(l, e))
            &&& !reserved::is_reserved(&from) && active && 0 < amount <= u64::MAX ==> (delegations(
                l,
            ) matches Err(e) ==> s == refused(l, e))
            &&& !reserved::is_reserved(&from) && active && fitting && l.balance(from) < amount ==> s
                == refused(
                l,
                ExecutionError::InsufficientBalance { from, have: l.balance(from), need: amount },
            )
            &&& amount != 0 && !reserved::is_reserved(&from) && active && (delegations(
                l,
            ) matches Ok(m) && amount_at(m, (validator_id, from)) + amount > u64::MAX) ==> s
                == refused(
                l,
                ExecutionError::DepositedStakeOverflow { ring: "delegation", slot_id: validator_id },
            )
        }),
{
    lemma_payment(l, from, reserved::validator_stake_pool_address(), amount);
}

/// An undelegation of an amount succeeds exactly where the delegator is a user,
/// both registries can be read, the amount is no more than what is delegated, and
/// what waits under the current height then fits in 64 bits. The status of the
/// slot plays no part.
pub proof fn law_undelegations_are_answered(
    l: Ledger,
    from: Address,
    validator_id: u32,
    amount: Balance,
    evidence: EvidenceView,
)
    ensures
        ({
            let s = applied(l, Intent::UndelegateBegin { from, validator_id, amount }, evidence);
            let covered = delegations(l) matches Ok(m) && amount <= amount_at(
                m,
                (validator_id, from),
            );
            let fitting = unbondings(l) matches Ok(u) && amount_at(
                u,
                (validator_id, from, l.height),
            ) + amount <= u64::MAX;
            &&& s.answer is Ok <==> amount == 0 || !reserved::is_reserved(&from) && covered
                && fitting
            &&& s.answer is Err ==> s.ledger == l
            &&& amount == 0 ==> s.ledger == l
            &&& s.ledger.balances == l.balances
            &&& amount != 0 && reserved::is_reserved(&from) ==> s == refused(
                l,
                ExecutionError::ReservedAddressTransferDenied { addr: from },
            )
            &&& !reserved::is_reserved(&from) && amount > u64::MAX ==> s == refused(
                l,
                ExecutionError::DepositedStakeOverflow { ring: "delegation", slot_id: validator_id },
            )
            &&& !reserved::is_reserved(&from) && amount <= u64::MAX && (delegations(l) matches Ok(m)
                && amount_at(m, (validator_id, from)) < amount) ==> s == refused(
                l,
                ExecutionError::UndelegationExceedsDelegation {
                    slot_id: validator_id,
                    want: amount,
                    have: amount_at(delegations(l)->Ok_0, (validator_id, from)) as Balance,
                },
            )
            &&& !reserved::is_reserved(&from) && 0 < amount <= u64::MAX ==> (delegations(
                l,
            ) matches Err(e) ==> s == refused(l, e))
            &&& amount != 0 && !reserved::is_reserved(&from) && covered ==> (unbondings(
                l,
            ) matches Err(e) ==> s == refused(l, e))
            &&& amount != 0 && !reserved::is_reserved(&from) && covered && (unbondings(
                l,
            ) matches Ok(u) && amount_at(u, (validator_id, from, l.height)) + amount > u64::MAX)
                ==> s == refused(
                l,
                ExecutionError::DepositedStakeOverflow { ring: "unbonding", slot_id: validator_id },
            )
        }),
{
}

/// Nothing but the two registries of delegated stake, the height and the
/// delegator decides an undelegation: two states that agree on them answer alike.
pub proof fn law_only_delegated_stake_decides_undelegations(
    a: Ledger,
    b: Ledger,
    from: Address,
    validator_id: u32,
    amount: Balance,
    evidence: EvidenceView,
)
    requires
        a.height == b.height,
        a.record(reserved::validator_delegation_registry_address()) == b.record(
            reserved::validator_delegation_registry_address(),
        ),
        a.record(reserved::validator_unbonding_registry_address()) == b.record(
            reserved::validator_unbonding_registry_address(),
        ),
    ensures
        applied(a, Intent::UndelegateBegin { from, validator_id, amount }, evidence).answer
            == applied(b, Intent::UndelegateBegin { from, validator_id, amount }, evidence).answer,
{
}

/// The intents on one slot of a ring.
pub open spec fn admission(
    ring: RewardsRing,
    id: u32,
    stake: u64,
    mldsa_public_key: Vec<u8>,
    bls_public_key: Vec<u8>,
) -> Intent {
    match ring {
        RewardsRing::Authority => Intent::AdmitAuthority {
            authority_id: id,
            stake_gsx: stake,
            mldsa_public_key,
            bls_public_key,
        },
        RewardsRing::Validator => Intent::AdmitValidator {
            validator_id: id,
            stake_gsx: stake,
            mldsa_public_key,
            bls_public_key,
        },
    }
}

/// The exit of a slot.
pub open spec fn exit_of(ring: RewardsRing, id: u32) -> Intent {
    match ring {
        RewardsRing::Authority => Intent::ExitAuthority { authority_id: id },
        RewardsRing::Validator => Intent::ExitValidator { validator_id: id },
    }
}

/// The ejection of a slot.
pub open spec fn ejection_of(ring: RewardsRing, id: u32, proof_ref: [u8; 32]) -> Intent {
    match ring {
        RewardsRing::Authority => Intent::EjectAuthority { authority_id: id, proof_ref },
        RewardsRing::Validator => Intent::EjectValidator { validator_id: id, proof_ref },
    }
}

/// A deposit behind a slot.
pub open spec fn deposit_for(ring: RewardsRing, from: Address, id: u32, amount: Balance) -> Intent {
    match ring {
        RewardsRing::Authority => Intent::DepositAuthorityStake { from, authority_id: id, amount },
        RewardsRing::Validator => Intent::DepositValidatorStake { from, validator_id: id, amount },
    }
}

/// A withdrawal from a slot.
pub open spec fn withdrawal_from(
    ring: RewardsRing,
    to: Address,
    id: u32,
    amount: Balance,
) -> Intent {
    match ring {
        RewardsRing::Authority => Intent::WithdrawAuthorityStake { to, authority_id: id, amount },
        RewardsRing::Validator => Intent::WithdrawValidatorStake { to, validator_id: id, amount },
    }
}

/// The stake pool that a ring's bonds are paid into.
pub open spec fn pool_of(ring: RewardsRing) -> Address {
    match ring {
        RewardsRing::Authority => reserved::authority_stake_pool_address(),
        RewardsRing::Validator => reserved::validator_stake_pool_address(),
    }
}

/// An admission succeeds exactly where both keys are within their limits, 2,048
/// and 128 bytes, the ring can be read, and the slot is free.
pub proof fn law_admissions_are_answered(
    l: Ledger,
    ring: RewardsRing,
    id: u32,
    stake: u64,
    mldsa: Vec<u8>,
    bls: Vec<u8>,
    evidence: EvidenceView,
)
    ensures
        ({
            let s = applied(l, admission(ring, id, stake, mldsa, bls), evidence);
            let short = mldsa@.len() <= 2_048 && bls@.len() <= 128;
            &&& s.answer is Ok <==> short && (ring_slots(l, ring) matches Ok(m)
                && !m.dom().contains(id))
            &&& s.answer is Err ==> s.ledger == l
            &&& s.ledger.balances == l.balances
            &&& short && (ring_slots(l, ring) matches Ok(m) && m.dom().contains(id)) ==> s
                == refused(l, slot_occupied(ring, id))
            &&& short ==> (ring_slots(l, ring) matches Err(e) ==> s == refused(l, e))
            &&& ring == RewardsRing::Authority && mldsa@.len() > 2_048 ==> s == refused(
                l,
                ExecutionError::AuthorityFieldTooLong {
                    field: "mldsa_pk",
                    got: mldsa@.len() as usize,
                    max: 2_048,
                },
            )
            &&& ring == RewardsRing::Authority && mldsa@.len() <= 2_048 && bls@.len() > 128 ==> s
                == refused(
                l,
                ExecutionError::AuthorityFieldTooLong {
                    field: "bls_pk",
                    got: bls@.len() as usize,
                    max: 128,
                },
            )
            &&& ring == RewardsRing::Validator && mldsa@.len() > 2_048 ==> s == refused(
                l,
                ExecutionError::ValidatorFieldTooLong {
                    field: "mldsa_pk",
                    got: mldsa@.len() as usize,
                    max: 2_048,
                },
            )
            &&& ring == RewardsRing::Validator && mldsa@.len() <= 2_048 && bls@.len() > 128 ==> s
                == refused(
                l,
                ExecutionError::ValidatorFieldTooLong {
                    field: "bls_pk",
                    got: bls@.len() as usize,
                    max: 128,
                },
            )
        }),
{
}

/// Every ring has its own errors for a slot that is free, taken or not active, and
/// its own name.
pub proof fn law_rings_have_their_own_errors(id: u32, status: AuthorityStatus)
    ensures
        slot_missing(RewardsRing::Authority, id) == (ExecutionError::AuthorityNotFound {
            authority_id: id,
        }),
        slot_missing(RewardsRing::Validator, id) == (ExecutionError::ValidatorNotFound {
            validator_id: id,
        }),
        slot_occupied(RewardsRing::Authority, id) == (
        ExecutionError::AuthoritySlotAlreadyOccupied { authority_id: id }),
        slot_occupied(RewardsRing::Validator, id) == (
        ExecutionError::ValidatorSlotAlreadyOccupied { validator_id: id }),
        slot_inactive(RewardsRing::Authority, id, status) == (ExecutionError::AuthorityNotActive {
            authority_id: id,
            status,
        }),
        slot_inactive(RewardsRing::Validator, id, status) == (ExecutionError::ValidatorNotActive {
            validator_id: id,
            status,
        }),
        ring_name(RewardsRing::Authority) == "authority",
        ring_name(RewardsRing::Validator) == "validator",
        stake_pool(RewardsRing::Authority) == reserved::authority_stake_pool_address(),
        stake_pool(RewardsRing::Validator) == reserved::validator_stake_pool_address(),
        rewards_pool(RewardsRing::Authority) == reserved::authority_rewards_pool_address(),
        rewards_pool(RewardsRing::Validator) == reserved::validator_rewards_pool_address(),
        ring_registry(RewardsRing::Authority) == reserved::authority_registry_address(),
        ring_registry(RewardsRing::Validator) == reserved::validator_registry_address(),
{
}

/// An exit succeeds exactly where the slot is taken and active.
pub proof fn law_exits_are_answered(
    l: Ledger,
    ring: RewardsRing,
    id: u32,
    evidence: EvidenceView,
)
    ensures
        ({
            let s = applied(l, exit_of(ring, id), evidence);
            &&& s.answer is Ok <==> (ring_slots(l, ring) matches Ok(m) && m.dom().contains(id)
                && m[id].status == AuthorityStatus::Active)
            &&& s.answer is Err ==> s.ledger == l
            &&& s.ledger.balances == l.balances
            &&& ring_slots(l, ring) matches Err(e) ==> s == refused(l, e)
            &&& ring_slots(l, ring) matches Ok(m) ==> {
                &&& !m.dom().contains(id) ==> s == refused(l, slot_missing(ring, id))
                &&& m.dom().contains(id) && m[id].status != AuthorityStatus::Active ==> s
                    == refused(l, slot_inactive(ring, id, m[id].status))
            }
        }),
{
}

/// A deposit of an amount succeeds exactly where the payer is a user, the slot is
/// taken and active, its bond then fits in 64 bits, and the payer can pay the
/// amount into the ring's stake pool.
pub proof fn law_deposits_are_answered(
    l: Ledger,
    ring: RewardsRing,
    from: Address,
    id: u32,
    amount: Balance,
    evidence: EvidenceView,
)
    ensures
        ({
            let s = applied(l, deposit_for(ring, from, id, amount), evidence);
            let open = ring_slots(l, ring) matches Ok(m) && m.dom().contains(id) && m[id].status
                == AuthorityStatus::Active && m[id].deposited + amount <= u64::MAX;
            &&& s.answer is Ok <==> amount == 0 || !reserved::is_reserved(&from) && open
                && can_pay(l.balances, from, pool_of(ring), amount)
            &&& s.answer is Ok ==> forall|x: Address| #[trigger]
                s.ledger.balance(x) == l.balance(x) - at(x, from, amount as int) + at(
                    x,
                    pool_of(ring),
                    amount as int,
                )
            &&& s.answer is Err ==> s.ledger == l
            &&& amount == 0 ==> s.ledger == l
            &&& amount != 0 && reserved::is_reserved(&from) ==> s == refused(
                l,
                ExecutionError::ReservedAddressTransferDenied { addr: from },
            )
            &&& amount != 0 && !reserved::is_reserved(&from) ==> (ring_slots(l, ring) matches Ok(m)
                ==> {
                &&& !m.dom().contains(id) ==> s == refused(l, slot_missing(ring, id))
                &&& m.dom().contains(id) && m[id].status != AuthorityStatus::Active ==> s
                    == refused(l, slot_inactive(ring, id, m[id].status))
                &&& m.dom().contains(id) && m[id].status == AuthorityStatus::Active
                    && m[id].deposited + amount > u64::MAX ==> s == refused(
                    l,
                    ExecutionError::DepositedStakeOverflow { ring: ring_name(ring), slot_id: id },
                )
            })
            &&& amount != 0 && !reserved::is_reserved(&from) ==> (ring_slots(l, ring) matches Err(e)
                ==> s == refused(l, e))
            &&& !reserved::is_reserved(&from) && open && l.balance(from) < amount ==> s == refused(
                l,
                ExecutionError::InsufficientBalance { from, have: l.balance(from), need: amount },
            )
        }),
{
    lemma_payment(l, from, stake_pool(ring), amount);
}

/// Whether 2,419,200 blocks have passed since `begun`, or the height can grow no
/// more.
pub open spec fn cooled_off(begun: u64, height: u64) -> bool {
    height >= begun + 2_419_200 || height == u64::MAX
}

/// A withdrawal of an amount succeeds exactly where the payee is a user, the slot
/// is exiting, its cooldown of 2,419,200 blocks is over, the amount is no more
/// than the slot's bond, and the ring's stake pool can pay it.
pub proof fn law_withdrawals_are_answered(
    l: Ledger,
    ring: RewardsRing,
    to: Address,
    id: u32,
    amount: Balance,
    evidence: EvidenceView,
)
    ensures
        ({
            let s = applied(l, withdrawal_from(ring, to, id, amount), evidence);
            let owed = ring_slots(l, ring) matches Ok(m) && m.dom().contains(id) && m[id].status
                == AuthorityStatus::Exiting && cooled_off(m[id].exit_height, l.height) && amount
                <= m[id].deposited;
            &&& s.answer is Ok <==> amount == 0 || !reserved::is_reserved(&to) && owed && can_pay(
                l.balances,
                pool_of(ring),
                to,
                amount,
            )
            &&& s.answer is Ok ==> forall|x: Address| #[trigger]
                s.ledger.balance(x) == l.balance(x) - at(x, pool_of(ring), amount as int) + at(
                    x,
                    to,
                    amount as int,
                )
            &&& s.answer is Err ==> s.ledger == l
            &&& amount == 0 ==> s.ledger == l
            &&& amount != 0 && reserved::is_reserved(&to) ==> s == refused(
                l,
                ExecutionError::ReservedAddressTransferDenied { addr: to },
            )
            &&& amount != 0 && !reserved::is_reserved(&to) ==> (ring_slots(l, ring) matches Ok(m)
                ==> {
                &&& !m.dom().contains(id) ==> s == refused(l, slot_missing(ring, id))
                &&& m.dom().contains(id) && m[id].status == AuthorityStatus::Active ==> s
                    == refused(
                    l,
                    ExecutionError::SlotNotExiting {
                        ring: ring_name(ring),
                        slot_id: id,
                        status: "Active",
                    },
                )
                &&& m.dom().contains(id) && m[id].status == AuthorityStatus::Ejected ==> s
                    == refused(
                    l,
                    ExecutionError::SlotNotExiting {
                        ring: ring_name(ring),
                        slot_id: id,
                        status: "Ejected",
                    },
                )
                &&& m.dom().contains(id) && m[id].status == AuthorityStatus::Exiting && cooled_off(
                    m[id].exit_height,
                    l.height,
                ) && amount > m[id].deposited ==> s == refused(
                    l,
                    ExecutionError::WithdrawalExceedsDeposit {
                        ring: ring_name(ring),
                        slot_id: id,
                        want: amount,
                        have: m[id].deposited as Balance,
                    },
                )
                &&& m.dom().contains(id) && m[id].status == AuthorityStatus::Exiting && !cooled_off(
                    m[id].exit_height,
                    l.height,
                ) ==> s == refused(
                    l,
                    ExecutionError::ExitCooldownNotElapsed {
                        ring: ring_name(ring),
                        slot_id: id,
                        required_block_height: if m[id].exit_height + 2_419_200 <= u64::MAX {
                            (m[id].exit_height + 2_419_200) as u64
                        } else {
                            u64::MAX
                        },
                        current_block_height: l.height,
                    },
                )
            })
            &&& amount != 0 && !reserved::is_reserved(&to) ==> (ring_slots(l, ring) matches Err(e)
                ==> s == refused(l, e))
            &&& !reserved::is_reserved(&to) && owed && l.balance(pool_of(ring)) < amount ==> s
                == refused(
                l,
                ExecutionError::InsufficientBalance {
                    from: pool_of(ring),
                    have: l.balance(pool_of(ring)),
                    need: amount,
                },
            )
        }),
{
    lemma_payment(l, stake_pool(ring), to, amount);
}

} // verus!
