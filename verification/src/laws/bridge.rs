//! Bridge accounting: the escrow holds what was locked and not yet released.

use vstd::prelude::*;

use crate::apply::{applied, EvidenceView};
use crate::block::{after, answer_to};
use crate::intent::{Intent, RewardsRing, SlashReason};
use crate::laws::money::{
    law_protocol_accounts_are_guarded, lemma_shared_net, lemma_waterfall_elsewhere, protocol_change,
};
use crate::laws::payments::{credit_to, lemma_one, lemma_push, lemma_still, tip_paid};
use crate::ledger::{drained, Ledger};
use crate::readers::{readable, row_at};
use crate::reserved;
use crate::sequencing::{liveness_slash, obligations, snitch_bounty};
use crate::staking::{forfeit, ring_slots, stake_pool, waterfall};
use crate::transfers::inflation_credits;

verus! {

/// Distinct addresses keep the escrow apart from all other accounts that the
/// protocol pays into or out of.
proof fn lemma_escrow_is_apart()
    requires
        reserved::apart(),
    ensures
        ({
            let x = reserved::bridge_escrow_address();
            &&& reserved::is_reserved(&x)
            &&& x != reserved::insurance_pool_address()
            &&& x != reserved::treasury_address()
            &&& x != reserved::sequencer_bond_address()
            &&& x != reserved::safety_bond_address()
            &&& x != reserved::authority_stake_pool_address()
            &&& x != reserved::validator_stake_pool_address()
            &&& x != reserved::authority_rewards_pool_address()
            &&& x != reserved::validator_rewards_pool_address()
        }),
{
    reveal(reserved::apart);
    reveal(reserved::protocol_owned);
    let all = reserved::all_owned();
    assert(all[3] == reserved::bridge_escrow_address());
    assert(all[1] == reserved::insurance_pool_address());
    assert(all[2] == reserved::treasury_address());
    assert(all[5] == reserved::sequencer_bond_address());
    assert(all[6] == reserved::safety_bond_address());
    assert(all[13] == reserved::authority_stake_pool_address());
    assert(all[14] == reserved::validator_stake_pool_address());
    assert(all[15] == reserved::authority_rewards_pool_address());
    assert(all[16] == reserved::validator_rewards_pool_address());
}

/// What a payment through the bridge adds to the escrow.
pub open spec fn bridged(intent: Intent) -> int {
    match intent {
        Intent::L1Lock { amount, .. } => amount as int,
        Intent::L2BurnProven { amount, .. } => -(amount as int),
        _ => 0,
    }
}

/// Whether an intent moves money into or out of the escrow past the bridge: a
/// genesis allocation to it, or a lock that the escrow itself pays.
pub open spec fn bypasses_bridge(intent: Intent) -> bool {
    match intent {
        Intent::GenesisAllocation { allocations } => credit_to(
            allocations@,
            reserved::bridge_escrow_address(),
        ) != 0,
        Intent::L1Lock { user_address, .. } => user_address == reserved::bridge_escrow_address(),
        _ => false,
    }
}

proof fn lemma_escrow_change(l: Ledger, intent: Intent)
    requires
        reserved::apart(),
        !bypasses_bridge(intent),
    ensures
        protocol_change(l, intent, reserved::bridge_escrow_address()) == bridged(intent),
{
    let x = reserved::bridge_escrow_address();
    lemma_escrow_is_apart();
    lemma_still();
    match intent {
        Intent::MintInflation { epoch, authority_share, validator_share, treasury_share } => {
            let a = reserved::authority_rewards_pool_address();
            let v = reserved::validator_rewards_pool_address();
            let t = reserved::treasury_address();
            lemma_one(a, authority_share);
            lemma_push(seq![(a, authority_share)], v, validator_share);
            lemma_push(seq![(a, authority_share)].push((v, validator_share)), t, treasury_share);
            assert(inflation_credits(authority_share, validator_share, treasury_share) =~= seq![
                (a, authority_share),
            ].push((v, validator_share)).push((t, treasury_share)));
        },
        Intent::EjectAuthority { authority_id, proof_ref } => {
            if let Some(slot) = row_at(
                readable(ring_slots(l, RewardsRing::Authority)),
                authority_id,
            ) {
                lemma_shared_net(
                    stake_pool(RewardsRing::Authority),
                    forfeit(l, RewardsRing::Authority, slot),
                    x,
                );
            }
        },
        Intent::EjectValidator { validator_id, proof_ref } => {
            if let Some(slot) = row_at(
                readable(ring_slots(l, RewardsRing::Validator)),
                validator_id,
            ) {
                lemma_shared_net(
                    stake_pool(RewardsRing::Validator),
                    forfeit(l, RewardsRing::Validator, slot),
                    x,
                );
            }
        },
        Intent::SlashSequencer { reason, intent_hash } => {
            match reason {
                SlashReason::MissedForceInclude => {
                    let bond = reserved::sequencer_bond_address();
                    let treasury = reserved::treasury_address();
                    let slash = liveness_slash(l.balance(bond));
                    lemma_shared_net(bond, slash, x);
                    lemma_waterfall_elsewhere(slash, x);
                    match (
                        row_at(readable(obligations(l)), intent_hash),
                        drained(l.balances, bond, waterfall(slash)),
                    ) {
                        (Some(ob), Ok(b)) => {
                            let tip = tip_paid(b, treasury, snitch_bounty(slash));
                            lemma_one(bond, slash);
                            lemma_push(seq![(bond, slash)], treasury, tip);
                            assert(seq![(bond, slash), (treasury, tip)] =~= seq![
                                (bond, slash),
                            ].push((treasury, tip)));
                            lemma_push(waterfall(slash), ob.submitter, tip);
                        },
                        _ => {},
                    }
                },
                SlashReason::Equivocation | SlashReason::InvalidBatch => {
                    let bond = reserved::safety_bond_address();
                    lemma_shared_net(bond, l.balance(bond), x);
                },
                SlashReason::Downtime => {},
            }
        },
        _ => {},
    }
}

/// The escrow grows by every lock and shrinks by every burn that succeeds, and
/// nothing else changes it: neither another intent nor a refusal.
pub proof fn law_escrow_follows_the_bridge(l: Ledger, intent: Intent, evidence: EvidenceView)
    requires
        !bypasses_bridge(intent),
    ensures
        ({
            let s = applied(l, intent, evidence);
            let escrow = reserved::bridge_escrow_address();
            reserved::apart() ==> s.ledger.balance(escrow) == l.balance(escrow) + (
            if s.answer is Ok {
                bridged(intent)
            } else {
                0
            })
        }),
{
    if reserved::apart() {
        lemma_escrow_is_apart();
        law_protocol_accounts_are_guarded(
            l,
            intent,
            evidence,
            reserved::bridge_escrow_address(),
        );
        lemma_escrow_change(l, intent);
    }
}

/// What the first `n` intents lock in the escrow and do not release again.
pub open spec fn outstanding(
    l: Ledger,
    intents: Seq<Intent>,
    evidence: Seq<EvidenceView>,
    n: nat,
) -> int
    decreases n,
{
    if n == 0 {
        0
    } else {
        outstanding(l, intents, evidence, (n - 1) as nat) + (if answer_to(
            l,
            intents,
            evidence,
            n - 1,
        ) is Ok {
            bridged(intents[n - 1])
        } else {
            0
        })
    }
}

/// Bridge accounting: after any sequence of intents the escrow holds what it held
/// before and what was locked and not released.
pub proof fn law_escrow_holds_what_is_outstanding(
    l: Ledger,
    intents: Seq<Intent>,
    evidence: Seq<EvidenceView>,
    n: nat,
)
    requires
        n <= intents.len(),
        forall|i: int| 0 <= i < n ==> !bypasses_bridge(#[trigger] intents[i]),
    ensures
        reserved::apart() ==> after(l, intents, evidence, n).balance(
            reserved::bridge_escrow_address(),
        ) == l.balance(reserved::bridge_escrow_address()) + outstanding(l, intents, evidence, n),
    decreases n,
{
    if n > 0 {
        let m = (n - 1) as nat;
        law_escrow_holds_what_is_outstanding(l, intents, evidence, m);
        law_escrow_follows_the_bridge(
            after(l, intents, evidence, m),
            intents[n - 1],
            evidence[n - 1],
        );
    }
}

} // verus!
