//! Application of intents to the state.

use vstd::prelude::*;

use crate::asset_registry::AssetStatus;
use crate::assets::{list_step, restatus_step};
use crate::delegating::{claim_step, delegate_step, undelegate_step};
use crate::equivocation_registry::OffenseKind;
use crate::error::ExecutionError;
use crate::findings::{finding_on, ProofId, PAIRING_NOT_RUN};
use crate::intent::{Intent, RewardsRing, SlashReason};
use crate::l2_proof::verdict_view;
use crate::ledger::{agrees, done, Ledger, Step};
use crate::reserved;
use crate::rollup::{anchor_step, burn_step, commit_step, lock_step, pin_step};
use crate::sequencing::{honor_step, missed_step, oblige_step, offense_step, oust_step};
use crate::staking::{admit_step, deposit_step, eject_step, exit_step, withdraw_step};
use crate::substrate::InMemorySubstrate;
use crate::transfers::{
    genesis_step, mint_step, pay_in_step, pay_out_step, rewards_step, slashed_funds_step,
    transfer_step,
};

verus! {

/// What the host found out about an intent beyond what the state shows.
#[derive(Debug, PartialEq, Eq)]
pub struct HostEvidence {
    /// What the pairing check said of the proof of an L2 batch.
    pub pairing: Result<(), String>,
}

/// What an intent is applied with: what the pairing check said of its proof, and
/// whether its burn counts as included without a proof, which is for rehearsals.
pub struct EvidenceView {
    pub pairing: Result<(), Seq<char>>,
    pub burn_included: bool,
}

impl View for HostEvidence {
    type V = EvidenceView;

    open spec fn view(&self) -> EvidenceView {
        EvidenceView { pairing: verdict_view(self.pairing), burn_included: false }
    }
}

/// No evidence: no proof passes its pairing check, and every burn must prove its
/// inclusion.
pub open spec fn no_evidence() -> EvidenceView {
    EvidenceView { pairing: Err(PAIRING_NOT_RUN@), burn_included: false }
}

/// What the findings in a state say of an intent. Every burn must prove its
/// inclusion.
pub open spec fn noted(l: Ledger, intent: Intent) -> EvidenceView {
    match intent {
        Intent::CommitL2StateRoot { proof_bytes, public_inputs, vk_hash, .. } => EvidenceView {
            pairing: finding_on(
                l.pairings,
                ProofId {
                    proof_bytes: proof_bytes@,
                    public_inputs: public_inputs@,
                    vk_hash,
                },
            ),
            burn_included: false,
        },
        _ => no_evidence(),
    }
}

impl HostEvidence {
    /// No evidence.
    pub fn none() -> (e: Self)
        ensures
            e@ == no_evidence(),
    {
        HostEvidence { pairing: Err(PAIRING_NOT_RUN.to_owned()) }
    }
}

/// A slash of the sequencer.
pub open spec fn slash_step(l: Ledger, reason: SlashReason, intent_hash: [u8; 32]) -> Step {
    match reason {
        SlashReason::MissedForceInclude => missed_step(l, intent_hash),
        SlashReason::Equivocation => offense_step(l, OffenseKind::Equivocation, intent_hash),
        SlashReason::InvalidBatch => offense_step(l, OffenseKind::InvalidBatch, intent_hash),
        SlashReason::Downtime => done(l),
    }
}

/// What applying an intent leaves behind and answers.
pub open spec fn applied(l: Ledger, intent: Intent, evidence: EvidenceView) -> Step {
    match intent {
        Intent::Transfer { from, to, amount } => transfer_step(l, from, to, amount),
        Intent::GenesisAllocation { allocations } => genesis_step(l, allocations@),
        Intent::DistributeRewards { epoch, ring, recipients } => rewards_step(
            l,
            epoch,
            ring,
            recipients@,
        ),
        Intent::Delegate { from, validator_id, amount } => delegate_step(
            l,
            from,
            validator_id,
            amount,
        ),
        Intent::UndelegateBegin { from, validator_id, amount } => undelegate_step(
            l,
            from,
            validator_id,
            amount,
        ),
        Intent::UndelegateClaim { from, validator_id } => claim_step(l, from, validator_id),
        Intent::MintInflation { epoch, authority_share, validator_share, treasury_share } => {
            mint_step(l, epoch, authority_share, validator_share, treasury_share)
        },
        Intent::AdmitAuthority { authority_id, stake_gsx, mldsa_public_key, bls_public_key } => {
            admit_step(
                l,
                RewardsRing::Authority,
                authority_id,
                stake_gsx,
                mldsa_public_key@,
                bls_public_key@,
            )
        },
        Intent::ExitAuthority { authority_id } => exit_step(
            l,
            RewardsRing::Authority,
            authority_id,
        ),
        Intent::EjectAuthority { authority_id, proof_ref: _ } => eject_step(
            l,
            RewardsRing::Authority,
            authority_id,
        ),
        Intent::AdmitValidator { validator_id, stake_gsx, mldsa_public_key, bls_public_key } => {
            admit_step(
                l,
                RewardsRing::Validator,
                validator_id,
                stake_gsx,
                mldsa_public_key@,
                bls_public_key@,
            )
        },
        Intent::ExitValidator { validator_id } => exit_step(
            l,
            RewardsRing::Validator,
            validator_id,
        ),
        Intent::EjectValidator { validator_id, proof_ref: _ } => eject_step(
            l,
            RewardsRing::Validator,
            validator_id,
        ),
        Intent::CommitL2StateRoot {
            batch_id,
            new_state_root,
            proof_bytes,
            public_inputs,
            vk_hash,
        } => commit_step(
            l,
            batch_id,
            new_state_root,
            proof_bytes@,
            public_inputs@,
            vk_hash,
            evidence.pairing,
        ),
        Intent::SetL2VerifyingKey { chain_id_hash, new_aggregation_vk, new_range_commitment } => {
            pin_step(l, chain_id_hash, new_aggregation_vk, new_range_commitment)
        },
        Intent::L1Lock { user_address, l2_recipient: _, amount, asset_id } => lock_step(
            l,
            user_address,
            amount,
            asset_id,
        ),
        Intent::L2BurnProven {
            batch_id,
            recipient,
            amount,
            merkle_path,
            path_directions,
            asset_id,
            l2_chain_id_hash,
        } => burn_step(
            l,
            batch_id,
            recipient,
            amount,
            merkle_path@,
            path_directions@,
            asset_id,
            l2_chain_id_hash,
            evidence.burn_included,
        ),
        Intent::L2ForceInclude { tx, deadline_l1_height, submitter, l2_nonce } => oblige_step(
            l,
            tx@,
            deadline_l1_height,
            submitter,
            l2_nonce,
        ),
        Intent::SlashSequencer { reason, intent_hash } => slash_step(l, reason, intent_hash),
        Intent::MarkForceIncludeHonored { obligation_id } => honor_step(l, obligation_id),
        Intent::EjectSequencer { obligation_id, ejector } => oust_step(l, obligation_id, ejector),
        Intent::DepositSequencerBond { from, amount } => pay_in_step(
            l,
            from,
            reserved::sequencer_bond_address(),
            amount,
        ),
        Intent::DepositSafetyBond { from, amount } => pay_in_step(
            l,
            from,
            reserved::safety_bond_address(),
            amount,
        ),
        Intent::DepositAuthorityStake { from, authority_id, amount } => deposit_step(
            l,
            RewardsRing::Authority,
            from,
            authority_id,
            amount,
        ),
        Intent::DepositValidatorStake { from, validator_id, amount } => deposit_step(
            l,
            RewardsRing::Validator,
            from,
            validator_id,
            amount,
        ),
        Intent::WithdrawAuthorityStake { to, authority_id, amount } => withdraw_step(
            l,
            RewardsRing::Authority,
            to,
            authority_id,
            amount,
        ),
        Intent::WithdrawValidatorStake { to, validator_id, amount } => withdraw_step(
            l,
            RewardsRing::Validator,
            to,
            validator_id,
            amount,
        ),
        Intent::DisburseTreasury { recipient, amount, purpose_tag: _ } => pay_out_step(
            l,
            reserved::treasury_address(),
            recipient,
            amount,
        ),
        Intent::ClaimInsurance { claimant, amount, claim_reference: _ } => pay_out_step(
            l,
            reserved::insurance_pool_address(),
            claimant,
            amount,
        ),
        Intent::PostL2DA { batch_id: _, da_blob: _ } => done(l),
        Intent::DistributeSlashedFunds {
            slash_event_id: _,
            counterparties,
            insurance_share,
            treasury_share,
        } => slashed_funds_step(l, counterparties@, insurance_share, treasury_share),
        Intent::AddBridgeAsset { source_chain, source_contract, decimals, name, symbol } => {
            list_step(l, source_chain, source_contract@, decimals, name@, symbol@)
        },
        Intent::PauseBridgeAsset { asset_id } => restatus_step(l, asset_id, AssetStatus::Paused),
        Intent::RemoveBridgeAsset { asset_id } => restatus_step(l, asset_id, AssetStatus::Removed),
        Intent::PostL2DAv2 { batch_id, da_blob, l2_chain_id_hash } => anchor_step(
            l,
            batch_id,
            da_blob@,
            l2_chain_id_hash,
        ),
    }
}

impl InMemorySubstrate {
    /// What the findings on proofs say of an intent.
    pub(crate) fn noted_evidence(&self, intent: &Intent) -> (e: HostEvidence)
        ensures
            e@ == noted(self@, *intent),
    {
        match intent {
            Intent::CommitL2StateRoot { proof_bytes, public_inputs, vk_hash, .. } => HostEvidence {
                pairing: self.pairing_of(
                    proof_bytes.as_slice(),
                    public_inputs.as_slice(),
                    vk_hash,
                ),
            },
            _ => HostEvidence::none(),
        }
    }

    /// Applies an intent with what the host found out about it.
    pub fn apply_intent_with(&mut self, intent: &Intent, evidence: &HostEvidence) -> (r: Result<
        (),
        ExecutionError,
    >)
        ensures
            agrees(applied(old(self)@, *intent, evidence@), final(self)@, r),
    {
        self.apply_any(intent, &evidence.pairing, false)
    }

    /// Rehearses an intent on a state whose roots are made up: where `burn_included`
    /// says so, a burn counts as included without a proof. Nothing that runs a chain
    /// goes this way.
    pub fn rehearse_intent(
        &mut self,
        intent: &Intent,
        evidence: &HostEvidence,
        burn_included: bool,
    ) -> (r: Result<(), ExecutionError>)
        ensures
            agrees(
                applied(old(self)@, *intent, (EvidenceView { burn_included, ..evidence@ })),
                final(self)@,
                r,
            ),
    {
        self.apply_any(intent, &evidence.pairing, burn_included)
    }

    fn apply_any(
        &mut self,
        intent: &Intent,
        pairing: &Result<(), String>,
        burn_included: bool,
    ) -> (r: Result<(), ExecutionError>)
        ensures
            agrees(
                applied(
                    old(self)@,
                    *intent,
                    (EvidenceView { pairing: verdict_view(*pairing), burn_included }),
                ),
                final(self)@,
                r,
            ),
    {
        match intent {
            Intent::Transfer { from, to, amount } => self.apply_transfer(*from, *to, *amount),
            Intent::GenesisAllocation { allocations } => self.apply_genesis(
                allocations.as_slice(),
            ),
            Intent::DistributeRewards { epoch, ring, recipients } => self.apply_rewards(
                *epoch,
                *ring,
                recipients.as_slice(),
            ),
            Intent::Delegate { from, validator_id, amount } => self.apply_delegate(
                *from,
                *validator_id,
                *amount,
            ),
            Intent::UndelegateBegin { from, validator_id, amount } => self.apply_undelegate(
                *from,
                *validator_id,
                *amount,
            ),
            Intent::UndelegateClaim { from, validator_id } => self.apply_claim(
                *from,
                *validator_id,
            ),
            Intent::MintInflation { epoch, authority_share, validator_share, treasury_share } => {
                self.apply_mint(*epoch, *authority_share, *validator_share, *treasury_share)
            },
            Intent::AdmitAuthority {
                authority_id,
                stake_gsx,
                mldsa_public_key,
                bls_public_key,
            } => self.apply_admit(
                RewardsRing::Authority,
                *authority_id,
                *stake_gsx,
                mldsa_public_key,
                bls_public_key,
            ),
            Intent::ExitAuthority { authority_id } => self.apply_exit(
                RewardsRing::Authority,
                *authority_id,
            ),
            Intent::EjectAuthority { authority_id, proof_ref: _ } => self.apply_eject(
                RewardsRing::Authority,
                *authority_id,
            ),
            Intent::AdmitValidator {
                validator_id,
                stake_gsx,
                mldsa_public_key,
                bls_public_key,
            } => self.apply_admit(
                RewardsRing::Validator,
                *validator_id,
                *stake_gsx,
                mldsa_public_key,
                bls_public_key,
            ),
            Intent::ExitValidator { validator_id } => self.apply_exit(
                RewardsRing::Validator,
                *validator_id,
            ),
            Intent::EjectValidator { validator_id, proof_ref: _ } => self.apply_eject(
                RewardsRing::Validator,
                *validator_id,
            ),
            Intent::CommitL2StateRoot {
                batch_id,
                new_state_root,
                proof_bytes,
                public_inputs,
                vk_hash,
            } => self.apply_commit(
                *batch_id,
                *new_state_root,
                proof_bytes,
                public_inputs,
                *vk_hash,
                pairing,
            ),
            Intent::SetL2VerifyingKey {
                chain_id_hash,
                new_aggregation_vk,
                new_range_commitment,
            } => self.apply_pin(*chain_id_hash, *new_aggregation_vk, *new_range_commitment),
            Intent::L1Lock { user_address, l2_recipient: _, amount, asset_id } => self.apply_lock(
                *user_address,
                *amount,
                asset_id,
            ),
            Intent::L2BurnProven {
                batch_id,
                recipient,
                amount,
                merkle_path,
                path_directions,
                asset_id,
                l2_chain_id_hash,
            } => self.apply_burn(
                *batch_id,
                *recipient,
                *amount,
                merkle_path,
                path_directions,
                asset_id,
                *l2_chain_id_hash,
                burn_included,
            ),
            Intent::L2ForceInclude { tx, deadline_l1_height, submitter, l2_nonce } => {
                self.apply_oblige(tx, *deadline_l1_height, *submitter, *l2_nonce)
            },
            Intent::SlashSequencer { reason, intent_hash } => match reason {
                SlashReason::MissedForceInclude => self.apply_missed(*intent_hash),
                SlashReason::Equivocation => self.apply_offense(
                    OffenseKind::Equivocation,
                    *intent_hash,
                ),
                SlashReason::InvalidBatch => self.apply_offense(
                    OffenseKind::InvalidBatch,
                    *intent_hash,
                ),
                SlashReason::Downtime => Ok(()),
            },
            Intent::MarkForceIncludeHonored { obligation_id } => self.apply_honor(*obligation_id),
            Intent::EjectSequencer { obligation_id, ejector } => self.apply_oust(
                *obligation_id,
                *ejector,
            ),
            Intent::DepositSequencerBond { from, amount } => self.apply_pay_in(
                *from,
                reserved::sequencer_bond_address(),
                *amount,
            ),
            Intent::DepositSafetyBond { from, amount } => self.apply_pay_in(
                *from,
                reserved::safety_bond_address(),
                *amount,
            ),
            Intent::DepositAuthorityStake { from, authority_id, amount } => self.apply_deposit(
                RewardsRing::Authority,
                *from,
                *authority_id,
                *amount,
            ),
            Intent::DepositValidatorStake { from, validator_id, amount } => self.apply_deposit(
                RewardsRing::Validator,
                *from,
                *validator_id,
                *amount,
            ),
            Intent::WithdrawAuthorityStake { to, authority_id, amount } => self.apply_withdraw(
                RewardsRing::Authority,
                *to,
                *authority_id,
                *amount,
            ),
            Intent::WithdrawValidatorStake { to, validator_id, amount } => self.apply_withdraw(
                RewardsRing::Validator,
                *to,
                *validator_id,
                *amount,
            ),
            Intent::DisburseTreasury { recipient, amount, purpose_tag: _ } => self.apply_pay_out(
                reserved::treasury_address(),
                *recipient,
                *amount,
            ),
            Intent::ClaimInsurance { claimant, amount, claim_reference: _ } => self.apply_pay_out(
                reserved::insurance_pool_address(),
                *claimant,
                *amount,
            ),
            Intent::PostL2DA { batch_id: _, da_blob: _ } => Ok(()),
            Intent::DistributeSlashedFunds {
                slash_event_id: _,
                counterparties,
                insurance_share,
                treasury_share,
            } => self.apply_slashed_funds(
                counterparties.as_slice(),
                *insurance_share,
                *treasury_share,
            ),
            Intent::AddBridgeAsset { source_chain, source_contract, decimals, name, symbol } => {
                self.apply_list(*source_chain, source_contract, *decimals, name, symbol)
            },
            Intent::PauseBridgeAsset { asset_id } => self.apply_restatus(
                *asset_id,
                AssetStatus::Paused,
            ),
            Intent::RemoveBridgeAsset { asset_id } => self.apply_restatus(
                *asset_id,
                AssetStatus::Removed,
            ),
            Intent::PostL2DAv2 { batch_id, da_blob, l2_chain_id_hash } => self.apply_anchor(
                *batch_id,
                da_blob,
                *l2_chain_id_hash,
            ),
        }
    }
}

} // verus!
