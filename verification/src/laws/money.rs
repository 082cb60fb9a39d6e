//! Where money comes from, who pays, and what protocol-owned accounts hold.

use vstd::prelude::*;

use crate::apply::{applied, EvidenceView};
use crate::delegating::{matured_sum, unbondings};
use crate::intent::{Intent, RewardsRing, SlashReason};
use crate::laws::conduct::law_intents_are_confined;
use crate::laws::flows::{
    eject_flow, flow, follows, law_balances_follow_the_flow, law_waterfall_splits_everything,
    missed_flow, offense_flow, paid, shared, Flow,
};
use crate::laws::payments::{at, credit_to, lemma_one, lemma_push, lemma_still, tip_paid};
use crate::ledger::{credit_sum, supply, Ledger, Step};
use crate::ordered::sorted_rows;
use crate::reserved;
use crate::sequencing::{liveness_slash, snitch_bounty};
use crate::staking::{insurance_part, stake_pool, waterfall};
use crate::substrate::{Address, Balance};
use crate::transfers::{first_reserved, inflation_credits, rewards_pool};

verus! {

/// A state without zero balances and empty records stays so.
pub proof fn law_states_stay_canonical(l: Ledger, intent: Intent, evidence: EvidenceView)
    requires
        l.wf(),
    ensures
        applied(l, intent, evidence).ledger.wf(),
{
    law_intents_are_confined(l, intent, evidence);
    law_balances_follow_the_flow(l, intent, evidence);
}

/// The new money that an intent brings in when it succeeds.
pub open spec fn new_money(intent: Intent) -> nat {
    match intent {
        Intent::GenesisAllocation { allocations } => credit_sum(allocations@),
        Intent::MintInflation { epoch: _, authority_share, validator_share, treasury_share } => {
            authority_share as nat + validator_share as nat + treasury_share as nat
        },
        Intent::DistributeSlashedFunds {
            slash_event_id: _,
            counterparties,
            insurance_share,
            treasury_share,
        } => credit_sum(counterparties@) + insurance_share as nat + treasury_share as nat,
        _ => 0,
    }
}

proof fn lemma_supply_change(l: Ledger, s: Step, intent: Intent)
    requires
        l.wf(),
        follows(l, s, flow(l, intent)),
    ensures
        supply(s.ledger.balances) == supply(l.balances) + (if s.answer is Ok {
            new_money(intent)
        } else {
            0
        }),
{
    lemma_still();
    match intent {
        Intent::MintInflation { epoch, authority_share, validator_share, treasury_share } => {
            let a = reserved::authority_rewards_pool_address();
            let v = reserved::validator_rewards_pool_address();
            let t = reserved::treasury_address();
            lemma_one(a, authority_share);
            lemma_push(seq![(a, authority_share)], v, validator_share);
            lemma_push(seq![(a, authority_share)].push((v, validator_share)), t, treasury_share);
            assert(inflation_credits(authority_share, validator_share, treasury_share) =~= seq![
                (a, authority_share),
            ].push((v, validator_share)).push((t, treasury_share)));
        },
        Intent::DistributeSlashedFunds {
            slash_event_id,
            counterparties,
            insurance_share,
            treasury_share,
        } => {
            let i = reserved::insurance_pool_address();
            let t = reserved::treasury_address();
            lemma_push(counterparties@, i, insurance_share);
            lemma_push(counterparties@.push((i, insurance_share)), t, treasury_share);
        },
        _ => {},
    }
}

/// Genesis allocations, inflation and slashing distributions add exactly their
/// amounts to the supply. No other intent changes the supply, and no refused one.
pub proof fn law_supply_is_conserved(l: Ledger, intent: Intent, evidence: EvidenceView)
    requires
        l.wf(),
    ensures
        ({
            let s = applied(l, intent, evidence);
            supply(s.ledger.balances) == supply(l.balances) + (if s.answer is Ok {
                new_money(intent)
            } else {
                0
            })
        }),
{
    law_balances_follow_the_flow(l, intent, evidence);
    lemma_supply_change(l, applied(l, intent, evidence), intent);
}

/// The user account that an intent debits.
pub open spec fn payer(intent: Intent) -> Option<Address> {
    match intent {
        Intent::Transfer { from, .. } => Some(from),
        Intent::Delegate { from, .. } => Some(from),
        Intent::L1Lock { user_address, .. } => Some(user_address),
        Intent::DepositSequencerBond { from, .. } => Some(from),
        Intent::DepositSafetyBond { from, .. } => Some(from),
        Intent::DepositAuthorityStake { from, .. } => Some(from),
        Intent::DepositValidatorStake { from, .. } => Some(from),
        _ => None,
    }
}

proof fn lemma_pools_are_reserved()
    ensures
        reserved::is_reserved(&reserved::insurance_pool_address()),
        reserved::is_reserved(&reserved::treasury_address()),
        reserved::is_reserved(&reserved::bridge_escrow_address()),
        reserved::is_reserved(&reserved::sequencer_bond_address()),
        reserved::is_reserved(&reserved::safety_bond_address()),
        reserved::is_reserved(&reserved::authority_stake_pool_address()),
        reserved::is_reserved(&reserved::validator_stake_pool_address()),
        reserved::is_reserved(&reserved::authority_rewards_pool_address()),
        reserved::is_reserved(&reserved::validator_rewards_pool_address()),
{
    reveal(reserved::protocol_owned);
}

proof fn lemma_credit_is_positive(credits: Seq<(Address, Balance)>, x: Address)
    ensures
        credit_to(credits, x) >= 0,
    decreases credits.len(),
{
    if credits.len() > 0 {
        lemma_credit_is_positive(credits.drop_last(), x);
    }
}

proof fn lemma_payer(l: Ledger, s: Step, intent: Intent, x: Address)
    requires
        !reserved::is_reserved(&x),
        payer(intent) != Some(x),
        follows(l, s, flow(l, intent)),
    ensures
        s.ledger.balance(x) >= l.balance(x),
{
    let f = flow(l, intent);
    lemma_pools_are_reserved();
    lemma_still();
    lemma_credit_is_positive(f.credits, x);
    if f.debits.len() == 1 {
        let (a, v) = f.debits[0];
        assert(f.debits =~= seq![(a, v)]);
        lemma_one(a, v);
    } else if f.debits.len() == 2 {
        let (a, v) = f.debits[0];
        let (b, w) = f.debits[1];
        assert(f.debits =~= seq![(a, v)].push((b, w)));
        lemma_one(a, v);
        lemma_push(seq![(a, v)], b, w);
    }
}

/// A user account loses money only through an intent that names it as the payer.
pub proof fn law_only_the_payer_pays(
    l: Ledger,
    intent: Intent,
    evidence: EvidenceView,
    x: Address,
)
    requires
        !reserved::is_reserved(&x),
        payer(intent) != Some(x),
    ensures
        applied(l, intent, evidence).ledger.balance(x) >= l.balance(x),
{
    law_balances_follow_the_flow(l, intent, evidence);
    lemma_payer(l, applied(l, intent, evidence), intent, x);
}

/// What an intent that succeeds adds to a protocol-owned account.
pub open spec fn protocol_change(l: Ledger, intent: Intent, x: Address) -> int {
    let treasury = reserved::treasury_address();
    match intent {
        Intent::GenesisAllocation { allocations } => credit_to(allocations@, x),
        Intent::DistributeRewards { epoch: _, ring, recipients } => -at(
            x,
            rewards_pool(ring),
            credit_sum(recipients@) as int,
        ),
        Intent::Delegate { from: _, validator_id: _, amount } => at(
            x,
            reserved::validator_stake_pool_address(),
            amount as int,
        ),
        Intent::UndelegateClaim { from, validator_id } => match unbondings(l) {
            Ok(u) => -at(
                x,
                reserved::validator_stake_pool_address(),
                matured_sum(sorted_rows(u), from, validator_id, l.height) as int,
            ),
            Err(_) => 0,
        },
        Intent::MintInflation { epoch: _, authority_share, validator_share, treasury_share } => {
            credit_to(inflation_credits(authority_share, validator_share, treasury_share), x)
        },
        Intent::EjectAuthority { authority_id, proof_ref: _ } => net(
            eject_flow(l, RewardsRing::Authority, authority_id),
            x,
        ),
        Intent::EjectValidator { validator_id, proof_ref: _ } => net(
            eject_flow(l, RewardsRing::Validator, validator_id),
            x,
        ),
        Intent::L1Lock { user_address, l2_recipient: _, amount, asset_id: _ } => at(
            x,
            reserved::bridge_escrow_address(),
            amount as int,
        ) - at(x, user_address, amount as int),
        Intent::L2BurnProven { amount, .. } => -at(
            x,
            reserved::bridge_escrow_address(),
            amount as int,
        ),
        Intent::SlashSequencer { reason, intent_hash } => match reason {
            SlashReason::MissedForceInclude => net(missed_flow(l, intent_hash), x),
            SlashReason::Equivocation | SlashReason::InvalidBatch => net(offense_flow(l), x),
            SlashReason::Downtime => 0,
        },
        Intent::EjectSequencer { .. } => -at(
            x,
            treasury,
            tip_paid(
                l.balances,
                treasury,
                snitch_bounty(liveness_slash(l.balance(reserved::sequencer_bond_address()))),
            ) as int,
        ),
        Intent::DepositSequencerBond { from: _, amount } => at(
            x,
            reserved::sequencer_bond_address(),
            amount as int,
        ),
        Intent::DepositSafetyBond { from: _, amount } => at(
            x,
            reserved::safety_bond_address(),
            amount as int,
        ),
        Intent::DepositAuthorityStake { amount, .. } => at(
            x,
            stake_pool(RewardsRing::Authority),
            amount as int,
        ),
        Intent::DepositValidatorStake { amount, .. } => at(
            x,
            stake_pool(RewardsRing::Validator),
            amount as int,
        ),
        Intent::WithdrawAuthorityStake { amount, .. } => -at(
            x,
            stake_pool(RewardsRing::Authority),
            amount as int,
        ),
        Intent::WithdrawValidatorStake { amount, .. } => -at(
            x,
            stake_pool(RewardsRing::Validator),
            amount as int,
        ),
        Intent::DisburseTreasury { amount, .. } => -at(x, treasury, amount as int),
        Intent::ClaimInsurance { amount, .. } => -at(
            x,
            reserved::insurance_pool_address(),
            amount as int,
        ),
        Intent::DistributeSlashedFunds { insurance_share, treasury_share, .. } => at(
            x,
            reserved::insurance_pool_address(),
            insurance_share as int,
        ) + at(x, treasury, treasury_share as int),
        _ => 0,
    }
}

/// What a flow adds to an account.
pub open spec fn net(f: Flow, x: Address) -> int {
    credit_to(f.credits, x) - credit_to(f.debits, x)
}

proof fn lemma_users_only(payees: Seq<(Address, Balance)>, x: Address)
    requires
        first_reserved(payees) is None,
        reserved::is_reserved(&x),
    ensures
        credit_to(payees, x) == 0,
    decreases payees.len(),
{
    if payees.len() > 0 {
        lemma_users_only(payees.drop_last(), x);
    }
}

proof fn lemma_paid_net(from: Address, to: Address, amount: Balance, x: Address)
    ensures
        net(paid(from, to, amount), x) == at(x, to, amount as int) - at(x, from, amount as int),
{
    lemma_one(from, amount);
    lemma_one(to, amount);
}

proof fn lemma_payees_are_users(l: Ledger, intent: Intent, evidence: EvidenceView, x: Address)
    requires
        reserved::is_reserved(&x),
        applied(l, intent, evidence).answer is Ok,
    ensures
        match intent {
            Intent::Transfer { from, to, amount } => from != x && to != x,
            Intent::DistributeRewards { epoch: _, ring: _, recipients } => first_reserved(
                recipients@,
            ) is None && credit_sum(recipients@) <= Balance::MAX,
            Intent::DistributeSlashedFunds { counterparties, .. } => first_reserved(
                counterparties@,
            ) is None,
            Intent::Delegate { from, amount, .. } => amount == 0 || from != x,
            Intent::UndelegateClaim { from, validator_id } => {
                &&& from != x
                &&& unbondings(l) matches Ok(u)
                &&& matured_sum(sorted_rows(u), from, validator_id, l.height) <= Balance::MAX
            },
            Intent::L2BurnProven { recipient, amount, .. } => amount == 0 || recipient != x,
            Intent::EjectSequencer { ejector, .. } => ejector != x,
            Intent::DepositSequencerBond { from, amount } => amount == 0 || from != x,
            Intent::DepositSafetyBond { from, amount } => amount == 0 || from != x,
            Intent::DepositAuthorityStake { from, amount, .. } => amount == 0 || from != x,
            Intent::DepositValidatorStake { from, amount, .. } => amount == 0 || from != x,
            Intent::WithdrawAuthorityStake { to, amount, .. } => amount == 0 || to != x,
            Intent::WithdrawValidatorStake { to, amount, .. } => amount == 0 || to != x,
            Intent::DisburseTreasury { recipient, amount, .. } => amount == 0 || recipient != x,
            Intent::ClaimInsurance { claimant, amount, .. } => amount == 0 || claimant != x,
            _ => true,
        },
{
}

/// A protocol-owned account changes only by the payments that the protocol
/// provides for it: no account that an intent names can be one, but for the
/// account that a bridge lock debits and the receivers of a genesis allocation.
pub proof fn law_protocol_accounts_are_guarded(
    l: Ledger,
    intent: Intent,
    evidence: EvidenceView,
    x: Address,
)
    requires
        reserved::is_reserved(&x),
    ensures
        ({
            let s = applied(l, intent, evidence);
            s.ledger.balance(x) == l.balance(x) + (if s.answer is Ok {
                protocol_change(l, intent, x)
            } else {
                0
            })
        }),
{
    let s = applied(l, intent, evidence);
    law_balances_follow_the_flow(l, intent, evidence);
    lemma_still();
    if s.answer is Ok {
        lemma_payees_are_users(l, intent, evidence, x);
        assert(s.ledger.balance(x) == l.balance(x) + net(flow(l, intent), x));
        match intent {
            Intent::Transfer { from, to, amount } => lemma_paid_net(from, to, amount, x),
            Intent::DistributeRewards { epoch, ring, recipients } => {
                lemma_users_only(recipients@, x);
                lemma_one(rewards_pool(ring), credit_sum(recipients@) as Balance);
            },
            Intent::Delegate { from, validator_id, amount } => {
                lemma_paid_net(from, reserved::validator_stake_pool_address(), amount, x)
            },
            Intent::UndelegateClaim { from, validator_id } => {
                if let Ok(u) = unbondings(l) {
                    let total = matured_sum(sorted_rows(u), from, validator_id, l.height);
                    lemma_paid_net(
                        reserved::validator_stake_pool_address(),
                        from,
                        total as Balance,
                        x,
                    );
                }
            },
            Intent::L1Lock { user_address, l2_recipient, amount, asset_id } => {
                lemma_paid_net(user_address, reserved::bridge_escrow_address(), amount, x)
            },
            Intent::L2BurnProven { recipient, amount, .. } => {
                lemma_paid_net(reserved::bridge_escrow_address(), recipient, amount, x)
            },
            Intent::EjectSequencer { obligation_id, ejector } => {
                let treasury = reserved::treasury_address();
                let bounty = snitch_bounty(
                    liveness_slash(l.balance(reserved::sequencer_bond_address())),
                );
                lemma_paid_net(treasury, ejector, tip_paid(l.balances, treasury, bounty), x);
            },
            Intent::DepositSequencerBond { from, amount } => {
                lemma_paid_net(from, reserved::sequencer_bond_address(), amount, x)
            },
            Intent::DepositSafetyBond { from, amount } => {
                lemma_paid_net(from, reserved::safety_bond_address(), amount, x)
            },
            Intent::DepositAuthorityStake { from, authority_id, amount } => {
                lemma_paid_net(from, stake_pool(RewardsRing::Authority), amount, x)
            },
            Intent::DepositValidatorStake { from, validator_id, amount } => {
                lemma_paid_net(from, stake_pool(RewardsRing::Validator), amount, x)
            },
            Intent::WithdrawAuthorityStake { to, authority_id, amount } => {
                lemma_paid_net(stake_pool(RewardsRing::Authority), to, amount, x)
            },
            Intent::WithdrawValidatorStake { to, validator_id, amount } => {
                lemma_paid_net(stake_pool(RewardsRing::Validator), to, amount, x)
            },
            Intent::DisburseTreasury { recipient, amount, purpose_tag } => {
                lemma_paid_net(reserved::treasury_address(), recipient, amount, x)
            },
            Intent::ClaimInsurance { claimant, amount, claim_reference } => {
                lemma_paid_net(reserved::insurance_pool_address(), claimant, amount, x)
            },
            Intent::DistributeSlashedFunds {
                slash_event_id,
                counterparties,
                insurance_share,
                treasury_share,
            } => {
                let i = reserved::insurance_pool_address();
                let t = reserved::treasury_address();
                lemma_users_only(counterparties@, x);
                lemma_push(counterparties@, i, insurance_share);
                lemma_push(counterparties@.push((i, insurance_share)), t, treasury_share);
            },
            _ => {},
        }
    }
}

/// Slashed funds go to the insurance pool and the treasury alone.
pub proof fn lemma_waterfall_elsewhere(amount: Balance, x: Address)
    requires
        x != reserved::insurance_pool_address(),
        x != reserved::treasury_address(),
    ensures
        credit_to(waterfall(amount), x) == 0,
{
    let i = reserved::insurance_pool_address();
    let t = reserved::treasury_address();
    let a = insurance_part(amount);
    let b = (amount - insurance_part(amount)) as Balance;
    lemma_one(i, a);
    lemma_push(seq![(i, a)], t, b);
    assert(waterfall(amount) =~= seq![(i, a)].push((t, b)));
}

/// A slash takes its amount from the slashed account.
pub proof fn lemma_shared_net(from: Address, amount: Balance, x: Address)
    requires
        x != reserved::insurance_pool_address(),
        x != reserved::treasury_address(),
    ensures
        net(shared(from, waterfall(amount)), x) == -at(x, from, amount as int),
{
    lemma_waterfall_elsewhere(amount, x);
    law_waterfall_splits_everything(amount);
    lemma_one(from, amount);
}

} // verus!
