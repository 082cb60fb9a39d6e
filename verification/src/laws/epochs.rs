//! Epoch counters: inflation is minted and rewards are paid once per epoch.

use vstd::prelude::*;

use crate::apply::{applied, EvidenceView};
use crate::bytes::{be_bytes, field, lemma_be_bytes_len, lemma_be_limits, lemma_be_round_trip};
use crate::error::ExecutionError;
use crate::intent::{ring_name, Intent, RewardsRing};
use crate::laws::writers::{
    law_only_writers_change_minted, law_only_writers_change_paid, writes_minted, writes_paid,
};
use crate::ledger::{refused, Ledger};
use crate::reserved;
use crate::substrate::{Address, Balance};
use crate::transfers::{mint_step, minted_epoch, paid_epoch, paid_epochs_bytes, rewards_step};

verus! {

/// The last minted epoch in a state.
pub open spec fn last_minted(l: Ledger) -> u64 {
    minted_epoch(l.record(reserved::inflation_registry_address()))
}

/// The last paid epoch of a ring in a state.
pub open spec fn last_paid(l: Ledger, ring: RewardsRing) -> u64 {
    paid_epoch(l.record(reserved::rewards_distribution_registry_address()), ring)
}

/// A tranche that is minted becomes the last minted epoch.
pub proof fn law_minting_records_the_epoch(
    l: Ledger,
    epoch: u64,
    authority: Balance,
    validator: Balance,
    treasury: Balance,
)
    ensures
        ({
            let s = mint_step(l, epoch, authority, validator, treasury);
            if s.answer is Ok {
                last_minted(l) < epoch && last_minted(s.ledger) == epoch
            } else {
                s.ledger == l
            }
        }),
{
    lemma_be_limits();
    lemma_be_round_trip(epoch as nat, 8);
    lemma_be_bytes_len(epoch as nat, 8);
}

/// No epoch is minted twice: after an epoch was minted, that epoch and every
/// earlier one is refused, whatever the shares, and nothing changes.
pub proof fn law_epochs_are_minted_once(
    l: Ledger,
    epoch: u64,
    authority: Balance,
    validator: Balance,
    treasury: Balance,
    replay: u64,
    other_authority: Balance,
    other_validator: Balance,
    other_treasury: Balance,
)
    requires
        mint_step(l, epoch, authority, validator, treasury).answer is Ok,
        replay <= epoch,
    ensures
        ({
            let l2 = mint_step(l, epoch, authority, validator, treasury).ledger;
            mint_step(l2, replay, other_authority, other_validator, other_treasury) == refused(
                l2,
                ExecutionError::InflationEpochAlreadyMinted {
                    attempted_epoch: replay,
                    last_minted_epoch: epoch,
                },
            )
        }),
{
    law_minting_records_the_epoch(l, epoch, authority, validator, treasury);
    lemma_be_bytes_len(epoch as nat, 8);
}

/// Minting goes by epochs in order. Where the counter can be read, an epoch that
/// is not after the last minted one is refused by name; an epoch that is minted
/// becomes the last one, whatever the shares; a refused one leaves the counter. No
/// other intent changes the counter.
pub proof fn law_epochs_are_minted_in_order(l: Ledger, intent: Intent, evidence: EvidenceView)
    ensures
        ({
            let s = applied(l, intent, evidence);
            let last = last_minted(l);
            let size = l.record(reserved::inflation_registry_address()).len();
            match intent {
                Intent::MintInflation { epoch, .. } => {
                    &&& (size == 0 || size == 8) && epoch <= last ==> s == refused(
                        l,
                        ExecutionError::InflationEpochAlreadyMinted {
                            attempted_epoch: epoch,
                            last_minted_epoch: last,
                        },
                    )
                    &&& s.answer is Ok ==> last < epoch && last_minted(s.ledger) == epoch
                    &&& s.answer is Err ==> s.ledger == l && last_minted(s.ledger) == last
                },
                _ => reserved::apart() ==> last_minted(s.ledger) == last,
            }
        }),
{
    match intent {
        Intent::MintInflation { epoch, authority_share, validator_share, treasury_share } => {
            law_minting_records_the_epoch(
                l,
                epoch,
                authority_share,
                validator_share,
                treasury_share,
            );
        },
        _ => {
            law_only_writers_change_minted(l, intent, evidence);
        },
    }
}

/// The last minted epoch never goes back.
pub proof fn law_minted_epochs_only_grow(l: Ledger, intent: Intent, evidence: EvidenceView)
    ensures
        reserved::apart() ==> last_minted(applied(l, intent, evidence).ledger) >= last_minted(l),
{
    if !writes_minted(intent) {
        law_only_writers_change_minted(l, intent, evidence);
    }
    match intent {
        Intent::MintInflation { epoch, authority_share, validator_share, treasury_share } => {
            law_minting_records_the_epoch(
                l,
                epoch,
                authority_share,
                validator_share,
                treasury_share,
            );
        },
        _ => {},
    }
}

/// Rewards that are paid become the last paid epoch of their ring; the other ring
/// keeps its own.
pub proof fn law_rewards_record_the_epoch(
    l: Ledger,
    epoch: u64,
    ring: RewardsRing,
    recipients: Seq<(Address, Balance)>,
)
    ensures
        ({
            let s = rewards_step(l, epoch, ring, recipients);
            if s.answer is Ok {
                &&& last_paid(l, ring) < epoch
                &&& last_paid(s.ledger, ring) == epoch
                &&& forall|other: RewardsRing|
                    other != ring ==> #[trigger] last_paid(s.ledger, other) == last_paid(l, other)
            } else {
                s.ledger == l
            }
        }),
{
    let b = l.record(reserved::rewards_distribution_registry_address());
    let a = if ring == RewardsRing::Authority {
        epoch
    } else {
        paid_epoch(b, RewardsRing::Authority)
    };
    let v = if ring == RewardsRing::Validator {
        epoch
    } else {
        paid_epoch(b, RewardsRing::Validator)
    };
    let out = paid_epochs_bytes(b, ring, epoch);
    lemma_be_limits();
    lemma_be_round_trip(a as nat, 8);
    lemma_be_round_trip(v as nat, 8);
    lemma_be_bytes_len(a as nat, 8);
    lemma_be_bytes_len(v as nat, 8);
    assert(field(out, 0, 8) =~= be_bytes(a as nat, 8));
    assert(field(out, 8, 8) =~= be_bytes(v as nat, 8));
}

/// No epoch of a ring is paid twice: after an epoch was paid, that epoch and every
/// earlier one is refused, whoever is to be paid, and nothing changes.
pub proof fn law_epochs_are_paid_once(
    l: Ledger,
    epoch: u64,
    ring: RewardsRing,
    recipients: Seq<(Address, Balance)>,
    replay: u64,
    others: Seq<(Address, Balance)>,
)
    requires
        rewards_step(l, epoch, ring, recipients).answer is Ok,
        replay <= epoch,
    ensures
        ({
            let l2 = rewards_step(l, epoch, ring, recipients).ledger;
            rewards_step(l2, replay, ring, others) == refused(
                l2,
                ExecutionError::RewardsEpochAlreadyDistributed {
                    ring: ring_name(ring),
                    attempted_epoch: replay,
                    last_distributed_epoch: epoch,
                },
            )
        }),
{
    let b = l.record(reserved::rewards_distribution_registry_address());
    law_rewards_record_the_epoch(l, epoch, ring, recipients);
    lemma_be_bytes_len(paid_epoch(b, RewardsRing::Authority) as nat, 8);
    lemma_be_bytes_len(paid_epoch(b, RewardsRing::Validator) as nat, 8);
    lemma_be_bytes_len(epoch as nat, 8);
}

/// The last paid epoch of a ring never goes back.
pub proof fn law_paid_epochs_only_grow(
    l: Ledger,
    ring: RewardsRing,
    intent: Intent,
    evidence: EvidenceView,
)
    ensures
        reserved::apart() ==> last_paid(applied(l, intent, evidence).ledger, ring) >= last_paid(
            l,
            ring,
        ),
{
    if !writes_paid(intent) {
        law_only_writers_change_paid(l, intent, evidence);
    }
    match intent {
        Intent::DistributeRewards { epoch, ring: paid_ring, recipients } => {
            law_rewards_record_the_epoch(l, epoch, paid_ring, recipients@);
        },
        _ => {},
    }
}

} // verus!
