//! Which intents write which registry.

use vstd::prelude::*;

use crate::apply::{applied, EvidenceView};
use crate::intent::{Intent, SlashReason};
use crate::laws::conduct::{law_intents_are_confined, written};
use crate::ledger::Ledger;
use crate::reserved;
use crate::substrate::Address;

verus! {

/// Protocol-owned accounts at different places of the list are different.
pub proof fn lemma_owned_differ(i: int, j: int)
    requires
        reserved::apart(),
        0 <= i < 22,
        0 <= j < 22,
        i != j,
    ensures
        reserved::all_owned()[i] != reserved::all_owned()[j],
{
    reveal(reserved::apart);
}

/// The addresses of the registries.
pub open spec fn registries() -> Seq<Address> {
    seq![
        reserved::l2_registry_address(),
        reserved::force_include_registry_address(),
        reserved::asset_registry_address(),
        reserved::ejection_registry_address(),
        reserved::burn_nullifier_registry_address(),
        reserved::equivocation_registry_address(),
        reserved::authority_registry_address(),
        reserved::validator_registry_address(),
        reserved::inflation_registry_address(),
        reserved::rewards_distribution_registry_address(),
        reserved::validator_delegation_registry_address(),
        reserved::da_anchor_registry_address(),
        reserved::validator_unbonding_registry_address(),
    ]
}

/// Where the registries stand in the list of protocol-owned accounts.
spec fn places() -> Seq<int> {
    seq![0, 4, 7, 8, 9, 10, 11, 12, 17, 18, 19, 20, 21]
}

/// Registry `i` differs from every other one.
pub proof fn lemma_registries_differ(i: int)
    requires
        reserved::apart(),
        0 <= i < 13,
    ensures
        i != 0 ==> registries()[i] != reserved::l2_registry_address(),
        i != 1 ==> registries()[i] != reserved::force_include_registry_address(),
        i != 2 ==> registries()[i] != reserved::asset_registry_address(),
        i != 3 ==> registries()[i] != reserved::ejection_registry_address(),
        i != 4 ==> registries()[i] != reserved::burn_nullifier_registry_address(),
        i != 5 ==> registries()[i] != reserved::equivocation_registry_address(),
        i != 6 ==> registries()[i] != reserved::authority_registry_address(),
        i != 7 ==> registries()[i] != reserved::validator_registry_address(),
        i != 8 ==> registries()[i] != reserved::inflation_registry_address(),
        i != 9 ==> registries()[i] != reserved::rewards_distribution_registry_address(),
        i != 10 ==> registries()[i] != reserved::validator_delegation_registry_address(),
        i != 11 ==> registries()[i] != reserved::da_anchor_registry_address(),
        i != 12 ==> registries()[i] != reserved::validator_unbonding_registry_address(),
{
    let all = reserved::all_owned();
    let at = places();
    assert(forall|j: int| 0 <= j < 13 ==> 0 <= #[trigger] at[j] < 22);
    assert(forall|j: int, k: int|
        0 <= j < 13 && 0 <= k < 13 && j != k ==> #[trigger] at[j] != #[trigger] at[k]);
    assert(all[0] == registries()[0]);
    assert(all[4] == registries()[1]);
    assert(all[7] == registries()[2]);
    assert(all[8] == registries()[3]);
    assert(all[9] == registries()[4]);
    assert(all[10] == registries()[5]);
    assert(all[11] == registries()[6]);
    assert(all[12] == registries()[7]);
    assert(all[17] == registries()[8]);
    assert(all[18] == registries()[9]);
    assert(all[19] == registries()[10]);
    assert(all[20] == registries()[11]);
    assert(all[21] == registries()[12]);
    assert forall|j: int| 0 <= j < 13 implies all[at[j]] == #[trigger] registries()[j] by {}
    assert forall|j: int| 0 <= j < 13 && j != i implies registries()[i]
        != #[trigger] registries()[j] by {
        lemma_owned_differ(at[i], at[j]);
    }
    assert(registries()[0] == reserved::l2_registry_address());
    assert(registries()[1] == reserved::force_include_registry_address());
    assert(registries()[2] == reserved::asset_registry_address());
    assert(registries()[3] == reserved::ejection_registry_address());
    assert(registries()[4] == reserved::burn_nullifier_registry_address());
    assert(registries()[5] == reserved::equivocation_registry_address());
    assert(registries()[6] == reserved::authority_registry_address());
    assert(registries()[7] == reserved::validator_registry_address());
    assert(registries()[8] == reserved::inflation_registry_address());
    assert(registries()[9] == reserved::rewards_distribution_registry_address());
    assert(registries()[10] == reserved::validator_delegation_registry_address());
    assert(registries()[11] == reserved::da_anchor_registry_address());
    assert(registries()[12] == reserved::validator_unbonding_registry_address());
}

/// Whether an intent may write the L2 registry.
pub open spec fn writes_l2(intent: Intent) -> bool {
    match intent {
        Intent::CommitL2StateRoot { .. }
        | Intent::SetL2VerifyingKey { .. } => true,
        _ => false,
    }
}

proof fn lemma_written_l2(intent: Intent)
    requires
        reserved::apart(),
        written(intent).contains(reserved::l2_registry_address()),
    ensures
        writes_l2(intent),
{
    lemma_registries_differ(0);
}

/// No other intent changes the L2 registry.
pub proof fn law_only_writers_change_l2(l: Ledger, intent: Intent, evidence: EvidenceView)
    requires
        !writes_l2(intent),
    ensures
        reserved::apart() ==> applied(l, intent, evidence).ledger.record(
            reserved::l2_registry_address(),
        ) == l.record(reserved::l2_registry_address()),
{
    law_intents_are_confined(l, intent, evidence);
    if reserved::apart() && written(intent).contains(reserved::l2_registry_address()) {
        lemma_written_l2(intent);
    }
}

/// Whether an intent may write the obligations.
pub open spec fn writes_obligations(intent: Intent) -> bool {
    match intent {
        Intent::L2ForceInclude { .. }
        | Intent::MarkForceIncludeHonored { .. } => true,
        Intent::SlashSequencer { reason, intent_hash: _ } => {
            reason == SlashReason::MissedForceInclude
        },
        _ => false,
    }
}

proof fn lemma_written_obligations(intent: Intent)
    requires
        reserved::apart(),
        written(intent).contains(reserved::force_include_registry_address()),
    ensures
        writes_obligations(intent),
{
    lemma_registries_differ(1);
}

/// No other intent changes the obligations.
pub proof fn law_only_writers_change_obligations(l: Ledger, intent: Intent, evidence: EvidenceView)
    requires
        !writes_obligations(intent),
    ensures
        reserved::apart() ==> applied(l, intent, evidence).ledger.record(
            reserved::force_include_registry_address(),
        ) == l.record(reserved::force_include_registry_address()),
{
    law_intents_are_confined(l, intent, evidence);
    if reserved::apart() && written(intent).contains(reserved::force_include_registry_address()) {
        lemma_written_obligations(intent);
    }
}

/// Whether an intent may write the listed assets.
pub open spec fn writes_assets(intent: Intent) -> bool {
    match intent {
        Intent::AddBridgeAsset { .. }
        | Intent::PauseBridgeAsset { .. }
        | Intent::RemoveBridgeAsset { .. } => true,
        _ => false,
    }
}

proof fn lemma_written_assets(intent: Intent)
    requires
        reserved::apart(),
        written(intent).contains(reserved::asset_registry_address()),
    ensures
        writes_assets(intent),
{
    lemma_registries_differ(2);
}

/// No other intent changes the listed assets.
pub proof fn law_only_writers_change_assets(l: Ledger, intent: Intent, evidence: EvidenceView)
    requires
        !writes_assets(intent),
    ensures
        reserved::apart() ==> applied(l, intent, evidence).ledger.record(
            reserved::asset_registry_address(),
        ) == l.record(reserved::asset_registry_address()),
{
    law_intents_are_confined(l, intent, evidence);
    if reserved::apart() && written(intent).contains(reserved::asset_registry_address()) {
        lemma_written_assets(intent);
    }
}

/// Whether an intent may write the ejections.
pub open spec fn writes_ejections(intent: Intent) -> bool {
    match intent {
        Intent::EjectSequencer { .. } => true,
        _ => false,
    }
}

proof fn lemma_written_ejections(intent: Intent)
    requires
        reserved::apart(),
        written(intent).contains(reserved::ejection_registry_address()),
    ensures
        writes_ejections(intent),
{
    lemma_registries_differ(3);
}

/// No other intent changes the ejections.
pub proof fn law_only_writers_change_ejections(l: Ledger, intent: Intent, evidence: EvidenceView)
    requires
        !writes_ejections(intent),
    ensures
        reserved::apart() ==> applied(l, intent, evidence).ledger.record(
            reserved::ejection_registry_address(),
        ) == l.record(reserved::ejection_registry_address()),
{
    law_intents_are_confined(l, intent, evidence);
    if reserved::apart() && written(intent).contains(reserved::ejection_registry_address()) {
        lemma_written_ejections(intent);
    }
}

/// Whether an intent may write the claimed burns.
pub open spec fn writes_claims(intent: Intent) -> bool {
    match intent {
        Intent::L2BurnProven { .. } => true,
        _ => false,
    }
}

proof fn lemma_written_claims(intent: Intent)
    requires
        reserved::apart(),
        written(intent).contains(reserved::burn_nullifier_registry_address()),
    ensures
        writes_claims(intent),
{
    lemma_registries_differ(4);
}

/// No other intent changes the claimed burns.
pub proof fn law_only_writers_change_claims(l: Ledger, intent: Intent, evidence: EvidenceView)
    requires
        !writes_claims(intent),
    ensures
        reserved::apart() ==> applied(l, intent, evidence).ledger.record(
            reserved::burn_nullifier_registry_address(),
        ) == l.record(reserved::burn_nullifier_registry_address()),
{
    law_intents_are_confined(l, intent, evidence);
    if reserved::apart() && written(intent).contains(reserved::burn_nullifier_registry_address()) {
        lemma_written_claims(intent);
    }
}

/// Whether an intent may write the offenses.
pub open spec fn writes_offenses(intent: Intent) -> bool {
    match intent {
        Intent::SlashSequencer { reason, intent_hash: _ } => {
            reason == SlashReason::Equivocation || reason == SlashReason::InvalidBatch
        },
        _ => false,
    }
}

proof fn lemma_written_offenses(intent: Intent)
    requires
        reserved::apart(),
        written(intent).contains(reserved::equivocation_registry_address()),
    ensures
        writes_offenses(intent),
{
    lemma_registries_differ(5);
}

/// No other intent changes the offenses.
pub proof fn law_only_writers_change_offenses(l: Ledger, intent: Intent, evidence: EvidenceView)
    requires
        !writes_offenses(intent),
    ensures
        reserved::apart() ==> applied(l, intent, evidence).ledger.record(
            reserved::equivocation_registry_address(),
        ) == l.record(reserved::equivocation_registry_address()),
{
    law_intents_are_confined(l, intent, evidence);
    if reserved::apart() && written(intent).contains(reserved::equivocation_registry_address()) {
        lemma_written_offenses(intent);
    }
}

/// Whether an intent may write the authority slots.
pub open spec fn writes_authorities(intent: Intent) -> bool {
    match intent {
        Intent::AdmitAuthority { .. }
        | Intent::ExitAuthority { .. }
        | Intent::EjectAuthority { .. }
        | Intent::DepositAuthorityStake { .. }
        | Intent::WithdrawAuthorityStake { .. } => true,
        _ => false,
    }
}

proof fn lemma_written_authorities(intent: Intent)
    requires
        reserved::apart(),
        written(intent).contains(reserved::authority_registry_address()),
    ensures
        writes_authorities(intent),
{
    lemma_registries_differ(6);
}

/// No other intent changes the authority slots.
pub proof fn law_only_writers_change_authorities(l: Ledger, intent: Intent, evidence: EvidenceView)
    requires
        !writes_authorities(intent),
    ensures
        reserved::apart() ==> applied(l, intent, evidence).ledger.record(
            reserved::authority_registry_address(),
        ) == l.record(reserved::authority_registry_address()),
{
    law_intents_are_confined(l, intent, evidence);
    if reserved::apart() && written(intent).contains(reserved::authority_registry_address()) {
        lemma_written_authorities(intent);
    }
}

/// Whether an intent may write the validator slots.
pub open spec fn writes_validators(intent: Intent) -> bool {
    match intent {
        Intent::AdmitValidator { .. }
        | Intent::ExitValidator { .. }
        | Intent::EjectValidator { .. }
        | Intent::DepositValidatorStake { .. }
        | Intent::WithdrawValidatorStake { .. } => true,
        _ => false,
    }
}

proof fn lemma_written_validators(intent: Intent)
    requires
        reserved::apart(),
        written(intent).contains(reserved::validator_registry_address()),
    ensures
        writes_validators(intent),
{
    lemma_registries_differ(7);
}

/// No other intent changes the validator slots.
pub proof fn law_only_writers_change_validators(l: Ledger, intent: Intent, evidence: EvidenceView)
    requires
        !writes_validators(intent),
    ensures
        reserved::apart() ==> applied(l, intent, evidence).ledger.record(
            reserved::validator_registry_address(),
        ) == l.record(reserved::validator_registry_address()),
{
    law_intents_are_confined(l, intent, evidence);
    if reserved::apart() && written(intent).contains(reserved::validator_registry_address()) {
        lemma_written_validators(intent);
    }
}

/// Whether an intent may write the last minted epoch.
pub open spec fn writes_minted(intent: Intent) -> bool {
    match intent {
        Intent::MintInflation { .. } => true,
        _ => false,
    }
}

proof fn lemma_written_minted(intent: Intent)
    requires
        reserved::apart(),
        written(intent).contains(reserved::inflation_registry_address()),
    ensures
        writes_minted(intent),
{
    lemma_registries_differ(8);
}

/// No other intent changes the last minted epoch.
pub proof fn law_only_writers_change_minted(l: Ledger, intent: Intent, evidence: EvidenceView)
    requires
        !writes_minted(intent),
    ensures
        reserved::apart() ==> applied(l, intent, evidence).ledger.record(
            reserved::inflation_registry_address(),
        ) == l.record(reserved::inflation_registry_address()),
{
    law_intents_are_confined(l, intent, evidence);
    if reserved::apart() && written(intent).contains(reserved::inflation_registry_address()) {
        lemma_written_minted(intent);
    }
}

/// Whether an intent may write the last paid epochs.
pub open spec fn writes_paid(intent: Intent) -> bool {
    match intent {
        Intent::DistributeRewards { .. } => true,
        _ => false,
    }
}

proof fn lemma_written_paid(intent: Intent)
    requires
        reserved::apart(),
        written(intent).contains(reserved::rewards_distribution_registry_address()),
    ensures
        writes_paid(intent),
{
    lemma_registries_differ(9);
}

/// No other intent changes the last paid epochs.
pub proof fn law_only_writers_change_paid(l: Ledger, intent: Intent, evidence: EvidenceView)
    requires
        !writes_paid(intent),
    ensures
        reserved::apart() ==> applied(l, intent, evidence).ledger.record(
            reserved::rewards_distribution_registry_address(),
        ) == l.record(reserved::rewards_distribution_registry_address()),
{
    law_intents_are_confined(l, intent, evidence);
    if reserved::apart() && written(intent).contains(
        reserved::rewards_distribution_registry_address(),
    ) {
        lemma_written_paid(intent);
    }
}

/// Whether an intent may write the delegations.
pub open spec fn writes_delegations(intent: Intent) -> bool {
    match intent {
        Intent::Delegate { .. }
        | Intent::UndelegateBegin { .. } => true,
        _ => false,
    }
}

proof fn lemma_written_delegations(intent: Intent)
    requires
        reserved::apart(),
        written(intent).contains(reserved::validator_delegation_registry_address()),
    ensures
        writes_delegations(intent),
{
    lemma_registries_differ(10);
}

/// No other intent changes the delegations.
pub proof fn law_only_writers_change_delegations(l: Ledger, intent: Intent, evidence: EvidenceView)
    requires
        !writes_delegations(intent),
    ensures
        reserved::apart() ==> applied(l, intent, evidence).ledger.record(
            reserved::validator_delegation_registry_address(),
        ) == l.record(reserved::validator_delegation_registry_address()),
{
    law_intents_are_confined(l, intent, evidence);
    if reserved::apart() && written(intent).contains(
        reserved::validator_delegation_registry_address(),
    ) {
        lemma_written_delegations(intent);
    }
}

/// Whether an intent may write the anchors.
pub open spec fn writes_anchors(intent: Intent) -> bool {
    match intent {
        Intent::PostL2DAv2 { .. } => true,
        _ => false,
    }
}

proof fn lemma_written_anchors(intent: Intent)
    requires
        reserved::apart(),
        written(intent).contains(reserved::da_anchor_registry_address()),
    ensures
        writes_anchors(intent),
{
    lemma_registries_differ(11);
}

/// No other intent changes the anchors.
pub proof fn law_only_writers_change_anchors(l: Ledger, intent: Intent, evidence: EvidenceView)
    requires
        !writes_anchors(intent),
    ensures
        reserved::apart() ==> applied(l, intent, evidence).ledger.record(
            reserved::da_anchor_registry_address(),
        ) == l.record(reserved::da_anchor_registry_address()),
{
    law_intents_are_confined(l, intent, evidence);
    if reserved::apart() && written(intent).contains(reserved::da_anchor_registry_address()) {
        lemma_written_anchors(intent);
    }
}

/// Whether an intent may write the unbonding stake.
pub open spec fn writes_unbondings(intent: Intent) -> bool {
    match intent {
        Intent::UndelegateBegin { .. }
        | Intent::UndelegateClaim { .. } => true,
        _ => false,
    }
}

proof fn lemma_written_unbondings(intent: Intent)
    requires
        reserved::apart(),
        written(intent).contains(reserved::validator_unbonding_registry_address()),
    ensures
        writes_unbondings(intent),
{
    lemma_registries_differ(12);
}

/// No other intent changes the unbonding stake.
pub proof fn law_only_writers_change_unbondings(l: Ledger, intent: Intent, evidence: EvidenceView)
    requires
        !writes_unbondings(intent),
    ensures
        reserved::apart() ==> applied(l, intent, evidence).ledger.record(
            reserved::validator_unbonding_registry_address(),
        ) == l.record(reserved::validator_unbonding_registry_address()),
{
    law_intents_are_confined(l, intent, evidence);
    if reserved::apart() && written(intent).contains(
        reserved::validator_unbonding_registry_address(),
    ) {
        lemma_written_unbondings(intent);
    }
}

} // verus!
