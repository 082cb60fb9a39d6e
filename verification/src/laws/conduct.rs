//! What holds of every intent: what it leaves alone, and what a refusal leaves.

use vstd::prelude::*;

use crate::apply::{applied, EvidenceView};
use crate::asset_registry::AssetStatus;
use crate::assets::{list_step, restatus_step};
use crate::burn_nullifier::burn_id_of;
use crate::delegating::{claim_step, delegate_step, undelegate_step};
use crate::equivocation_registry::OffenseKind;
use crate::intent::{Intent, RewardsRing, SlashReason};
use crate::ledger::{no_empties, Ledger, Step};
use crate::reserved;
use crate::rollup::{
    anchor_step, burn_step, claimed, commit_step, lock_step, pin_step, with_claimed,
};
use crate::sequencing::{honor_step, missed_step, oblige_step, offense_step, oust_step};
use crate::staking::{
    admit_step, deposit_step, eject_step, exit_step, ring_registry, withdraw_step,
};
use crate::substrate::{Address, Balance};
use crate::transfers::{
    genesis_step, mint_step, pay_in_step, pay_out_step, rewards_step, slashed_funds_step,
    transfer_step,
};

verus! {

/// The records that an intent may write.
pub open spec fn written(intent: Intent) -> Set<Address> {
    match intent {
        Intent::DistributeRewards { .. } => set![reserved::rewards_distribution_registry_address()],
        Intent::Delegate { .. } => set![reserved::validator_delegation_registry_address()],
        Intent::UndelegateBegin { .. } => {
            set![
                reserved::validator_delegation_registry_address(),
                reserved::validator_unbonding_registry_address(),
            ]
        },
        Intent::UndelegateClaim { .. } => set![reserved::validator_unbonding_registry_address()],
        Intent::MintInflation { .. } => set![reserved::inflation_registry_address()],
        Intent::AdmitAuthority { .. }
        | Intent::ExitAuthority { .. }
        | Intent::EjectAuthority { .. }
        | Intent::DepositAuthorityStake { .. }
        | Intent::WithdrawAuthorityStake { .. } => set![ring_registry(RewardsRing::Authority)],
        Intent::AdmitValidator { .. }
        | Intent::ExitValidator { .. }
        | Intent::EjectValidator { .. }
        | Intent::DepositValidatorStake { .. }
        | Intent::WithdrawValidatorStake { .. } => set![ring_registry(RewardsRing::Validator)],
        Intent::CommitL2StateRoot { .. } | Intent::SetL2VerifyingKey { .. } => {
            set![reserved::l2_registry_address()]
        },
        Intent::L2BurnProven { .. } => set![reserved::burn_nullifier_registry_address()],
        Intent::L2ForceInclude { .. } | Intent::MarkForceIncludeHonored { .. } => {
            set![reserved::force_include_registry_address()]
        },
        Intent::SlashSequencer { reason, intent_hash: _ } => match reason {
            SlashReason::MissedForceInclude => set![reserved::force_include_registry_address()],
            SlashReason::Equivocation | SlashReason::InvalidBatch => {
                set![reserved::equivocation_registry_address()]
            },
            SlashReason::Downtime => Set::empty(),
        },
        Intent::EjectSequencer { .. } => set![reserved::ejection_registry_address()],
        Intent::AddBridgeAsset { .. }
        | Intent::PauseBridgeAsset { .. }
        | Intent::RemoveBridgeAsset { .. } => set![reserved::asset_registry_address()],
        Intent::PostL2DAv2 { .. } => set![reserved::da_anchor_registry_address()],
        _ => Set::empty(),
    }
}

/// Whether a step keeps height and findings, writes only the records in `w` and keeps empty
/// records out, and changes nothing where it is refused.
pub open spec fn confined(l: Ledger, s: Step, w: Set<Address>) -> bool {
    &&& s.ledger.height == l.height
    &&& s.ledger.pairings == l.pairings
    &&& forall|a: Address| #[trigger] s.ledger.record(a) != l.record(a) ==> w.contains(a)
    &&& no_empties(l.records) ==> no_empties(s.ledger.records)
    &&& l.records.dom().finite() ==> s.ledger.records.dom().finite()
    &&& s.answer is Err ==> s.ledger == l
}

proof fn lemma_transfer(
    l: Ledger,
    from: Address,
    to: Address,
    amount: Balance,
)
    ensures
        confined(l, transfer_step(l, from, to, amount), Set::empty()),
{
}

proof fn lemma_pay_in(
    l: Ledger,
    from: Address,
    pool: Address,
    amount: Balance,
)
    ensures
        confined(l, pay_in_step(l, from, pool, amount), Set::empty()),
{
}

proof fn lemma_pay_out(
    l: Ledger,
    pool: Address,
    to: Address,
    amount: Balance,
)
    ensures
        confined(l, pay_out_step(l, pool, to, amount), Set::empty()),
{
}

proof fn lemma_genesis(
    l: Ledger,
    allocations: Seq<(Address, Balance)>,
)
    ensures
        confined(l, genesis_step(l, allocations), Set::empty()),
{
}

proof fn lemma_mint(
    l: Ledger,
    epoch: u64,
    authority: Balance,
    validator: Balance,
    treasury: Balance,
)
    ensures
        confined(
            l,
            mint_step(l, epoch, authority, validator, treasury),
            set![reserved::inflation_registry_address()],
        ),
{
}

proof fn lemma_rewards(
    l: Ledger,
    epoch: u64,
    ring: RewardsRing,
    recipients: Seq<(Address, Balance)>,
)
    ensures
        confined(
            l,
            rewards_step(l, epoch, ring, recipients),
            set![reserved::rewards_distribution_registry_address()],
        ),
{
}

proof fn lemma_slashed_funds(
    l: Ledger,
    counterparties: Seq<(Address, Balance)>,
    insurance: Balance,
    treasury: Balance,
)
    ensures
        confined(l, slashed_funds_step(l, counterparties, insurance, treasury), Set::empty()),
{
}

proof fn lemma_delegate(
    l: Ledger,
    from: Address,
    id: u32,
    amount: Balance,
)
    ensures
        confined(
            l,
            delegate_step(l, from, id, amount),
            set![reserved::validator_delegation_registry_address()],
        ),
{
}

proof fn lemma_undelegate(
    l: Ledger,
    from: Address,
    id: u32,
    amount: Balance,
)
    ensures
        confined(
            l,
            undelegate_step(l, from, id, amount),
            set![
                reserved::validator_delegation_registry_address(),
                reserved::validator_unbonding_registry_address(),
            ],
        ),
{
}

proof fn lemma_claim(
    l: Ledger,
    from: Address,
    id: u32,
)
    ensures
        confined(
            l,
            claim_step(l, from, id),
            set![reserved::validator_unbonding_registry_address()],
        ),
{
}

proof fn lemma_admit(
    l: Ledger,
    ring: RewardsRing,
    id: u32,
    stake: u64,
    mldsa: Seq<u8>,
    bls: Seq<u8>,
)
    ensures
        confined(l, admit_step(l, ring, id, stake, mldsa, bls), set![ring_registry(ring)]),
{
}

proof fn lemma_exit(
    l: Ledger,
    ring: RewardsRing,
    id: u32,
)
    ensures
        confined(l, exit_step(l, ring, id), set![ring_registry(ring)]),
{
}

proof fn lemma_eject(
    l: Ledger,
    ring: RewardsRing,
    id: u32,
)
    ensures
        confined(l, eject_step(l, ring, id), set![ring_registry(ring)]),
{
}

proof fn lemma_deposit(
    l: Ledger,
    ring: RewardsRing,
    from: Address,
    id: u32,
    amount: Balance,
)
    ensures
        confined(l, deposit_step(l, ring, from, id, amount), set![ring_registry(ring)]),
{
}

proof fn lemma_withdraw(
    l: Ledger,
    ring: RewardsRing,
    to: Address,
    id: u32,
    amount: Balance,
)
    ensures
        confined(l, withdraw_step(l, ring, to, id, amount), set![ring_registry(ring)]),
{
}

proof fn lemma_commit(
    l: Ledger,
    batch_id: u64,
    root: [u8; 32],
    proof_bytes: Seq<u8>,
    inputs: Seq<u8>,
    vk: [u8; 32],
    verdict: Result<(), Seq<char>>,
)
    ensures
        confined(
            l,
            commit_step(l, batch_id, root, proof_bytes, inputs, vk, verdict),
            set![reserved::l2_registry_address()],
        ),
{
}

proof fn lemma_pin(
    l: Ledger,
    chain: [u8; 32],
    vk: [u8; 32],
    range: [u8; 32],
)
    ensures
        confined(l, pin_step(l, chain, vk, range), set![reserved::l2_registry_address()]),
{
}

proof fn lemma_lock(
    l: Ledger,
    user: Address,
    amount: Balance,
    asset: Option<[u8; 32]>,
)
    ensures
        confined(l, lock_step(l, user, amount, asset), Set::empty()),
{
}

proof fn lemma_anchor(
    l: Ledger,
    batch_id: u64,
    blob: Seq<u8>,
    chain: [u8; 32],
)
    ensures
        confined(
            l,
            anchor_step(l, batch_id, blob, chain),
            set![reserved::da_anchor_registry_address()],
        ),
{
}

proof fn lemma_oblige(
    l: Ledger,
    tx: Seq<u8>,
    deadline: u64,
    submitter: Address,
    nonce: u64,
)
    ensures
        confined(
            l,
            oblige_step(l, tx, deadline, submitter, nonce),
            set![reserved::force_include_registry_address()],
        ),
{
}

proof fn lemma_honor(
    l: Ledger,
    id: [u8; 32],
)
    ensures
        confined(l, honor_step(l, id), set![reserved::force_include_registry_address()]),
{
}

proof fn lemma_missed(
    l: Ledger,
    id: [u8; 32],
)
    ensures
        confined(l, missed_step(l, id), set![reserved::force_include_registry_address()]),
{
}

proof fn lemma_offense(
    l: Ledger,
    kind: OffenseKind,
    id: [u8; 32],
)
    ensures
        confined(l, offense_step(l, kind, id), set![reserved::equivocation_registry_address()]),
{
}

proof fn lemma_oust(
    l: Ledger,
    id: [u8; 32],
    ejector: Address,
)
    ensures
        confined(l, oust_step(l, id, ejector), set![reserved::ejection_registry_address()]),
{
}

proof fn lemma_list(
    l: Ledger,
    chain: u64,
    contract: Seq<u8>,
    decimals: u8,
    name: Seq<u8>,
    symbol: Seq<u8>,
)
    ensures
        confined(
            l,
            list_step(l, chain, contract, decimals, name, symbol),
            set![reserved::asset_registry_address()],
        ),
{
}

proof fn lemma_restatus(
    l: Ledger,
    id: [u8; 32],
    status: AssetStatus,
)
    ensures
        confined(l, restatus_step(l, id, status), set![reserved::asset_registry_address()]),
{
}

/// A refused burn claim changes nothing, but for the claim itself where the escrow
/// is short.
proof fn lemma_burn(
    l: Ledger,
    batch_id: u64,
    recipient: Address,
    amount: Balance,
    path: Seq<u8>,
    directions: Seq<u8>,
    asset: Option<[u8; 32]>,
    chain: [u8; 32],
    vouched: bool,
)
    ensures
        ({
            let s = burn_step(
                l,
                batch_id,
                recipient,
                amount,
                path,
                directions,
                asset,
                chain,
                vouched,
            );
            &&& s.ledger.height == l.height
            &&& s.ledger.pairings == l.pairings
            &&& forall|a: Address| #[trigger]
                s.ledger.record(a) != l.record(a) ==> a
                    == reserved::burn_nullifier_registry_address()
            &&& no_empties(l.records) ==> no_empties(s.ledger.records)
            &&& l.records.dom().finite() ==> s.ledger.records.dom().finite()
            &&& s.answer is Err ==> s.ledger == l || {
                &&& l.balance(reserved::bridge_escrow_address()) < amount
                &&& claimed(l) matches Ok(c)
                &&& s.ledger == with_claimed(
                    l,
                    c.insert(burn_id_of(chain, batch_id, recipient, amount, path, asset)),
                )
            }
        }),
{
}

/// Whether a refused intent may leave `next`: the state as it was, and for a burn
/// that the escrow is short of, the state with the claim recorded.
pub open spec fn left_by_refusal(l: Ledger, intent: Intent, next: Ledger) -> bool {
    match intent {
        Intent::L2BurnProven {
            batch_id,
            recipient,
            amount,
            merkle_path,
            path_directions,
            asset_id,
            l2_chain_id_hash,
        } => {
            next == l || {
                &&& l.balance(reserved::bridge_escrow_address()) < amount
                &&& claimed(l) matches Ok(c)
                &&& next == with_claimed(
                    l,
                    c.insert(
                        burn_id_of(
                            l2_chain_id_hash,
                            batch_id,
                            recipient,
                            amount,
                            merkle_path@,
                            asset_id,
                        ),
                    ),
                )
            }
        },
        _ => next == l,
    }
}

/// An intent never changes the height nor the findings, writes no record but those
/// that it is about, and changes nothing where it is refused. A burn claim is the one
/// exception: where the escrow is short of the amount, the claim stays recorded and
/// nothing else changes.
pub proof fn law_intents_are_confined(l: Ledger, intent: Intent, evidence: EvidenceView)
    ensures
        ({
            let s = applied(l, intent, evidence);
            &&& s.ledger.height == l.height
            &&& s.ledger.pairings == l.pairings
            &&& forall|a: Address| #[trigger]
                s.ledger.record(a) != l.record(a) ==> written(intent).contains(a)
            &&& no_empties(l.records) ==> no_empties(s.ledger.records)
            &&& l.records.dom().finite() ==> s.ledger.records.dom().finite()
            &&& s.answer is Err ==> left_by_refusal(l, intent, s.ledger)
            &&& s.answer is Err ==> s.ledger.balances == l.balances
        }),
{
    match intent {
        Intent::Transfer { from, to, amount } => lemma_transfer(l, from, to, amount),
        Intent::GenesisAllocation { allocations } => lemma_genesis(l, allocations@),
        Intent::DistributeRewards { epoch, ring, recipients } => {
            lemma_rewards(l, epoch, ring, recipients@)
        },
        Intent::Delegate { from, validator_id, amount } => {
            lemma_delegate(l, from, validator_id, amount)
        },
        Intent::UndelegateBegin { from, validator_id, amount } => {
            lemma_undelegate(l, from, validator_id, amount)
        },
        Intent::UndelegateClaim { from, validator_id } => lemma_claim(l, from, validator_id),
        Intent::MintInflation { epoch, authority_share, validator_share, treasury_share } => {
            lemma_mint(l, epoch, authority_share, validator_share, treasury_share)
        },
        Intent::AdmitAuthority { authority_id, stake_gsx, mldsa_public_key, bls_public_key } => {
            lemma_admit(
                l,
                RewardsRing::Authority,
                authority_id,
                stake_gsx,
                mldsa_public_key@,
                bls_public_key@,
            )
        },
        Intent::ExitAuthority { authority_id } => {
            lemma_exit(l, RewardsRing::Authority, authority_id)
        },
        Intent::EjectAuthority { authority_id, proof_ref } => {
            lemma_eject(l, RewardsRing::Authority, authority_id)
        },
        Intent::AdmitValidator { validator_id, stake_gsx, mldsa_public_key, bls_public_key } => {
            lemma_admit(
                l,
                RewardsRing::Validator,
                validator_id,
                stake_gsx,
                mldsa_public_key@,
                bls_public_key@,
            )
        },
        Intent::ExitValidator { validator_id } => {
            lemma_exit(l, RewardsRing::Validator, validator_id)
        },
        Intent::EjectValidator { validator_id, proof_ref } => {
            lemma_eject(l, RewardsRing::Validator, validator_id)
        },
        Intent::CommitL2StateRoot {
            batch_id,
            new_state_root,
            proof_bytes,
            public_inputs,
            vk_hash,
        } => {
            lemma_commit(
                l,
                batch_id,
                new_state_root,
                proof_bytes@,
                public_inputs@,
                vk_hash,
                evidence.pairing,
            )
        },
        Intent::SetL2VerifyingKey { chain_id_hash, new_aggregation_vk, new_range_commitment } => {
            lemma_pin(l, chain_id_hash, new_aggregation_vk, new_range_commitment)
        },
        Intent::L1Lock { user_address, l2_recipient, amount, asset_id } => {
            lemma_lock(l, user_address, amount, asset_id)
        },
        Intent::L2BurnProven {
            batch_id,
            recipient,
            amount,
            merkle_path,
            path_directions,
            asset_id,
            l2_chain_id_hash,
        } => {
            lemma_burn(
                l,
                batch_id,
                recipient,
                amount,
                merkle_path@,
                path_directions@,
                asset_id,
                l2_chain_id_hash,
                evidence.burn_included,
            )
        },
        Intent::L2ForceInclude { tx, deadline_l1_height, submitter, l2_nonce } => {
            lemma_oblige(l, tx@, deadline_l1_height, submitter, l2_nonce)
        },
        Intent::SlashSequencer { reason, intent_hash } => {
            match reason {
                SlashReason::MissedForceInclude => lemma_missed(l, intent_hash),
                SlashReason::Equivocation => {
                    lemma_offense(l, OffenseKind::Equivocation, intent_hash)
                },
                SlashReason::InvalidBatch => {
                    lemma_offense(l, OffenseKind::InvalidBatch, intent_hash)
                },
                SlashReason::Downtime => {},
            }
        },
        Intent::MarkForceIncludeHonored { obligation_id } => lemma_honor(l, obligation_id),
        Intent::EjectSequencer { obligation_id, ejector } => {
            lemma_oust(l, obligation_id, ejector)
        },
        Intent::DepositSequencerBond { from, amount } => {
            lemma_pay_in(l, from, reserved::sequencer_bond_address(), amount)
        },
        Intent::DepositSafetyBond { from, amount } => {
            lemma_pay_in(l, from, reserved::safety_bond_address(), amount)
        },
        Intent::DepositAuthorityStake { from, authority_id, amount } => {
            lemma_deposit(l, RewardsRing::Authority, from, authority_id, amount)
        },
        Intent::DepositValidatorStake { from, validator_id, amount } => {
            lemma_deposit(l, RewardsRing::Validator, from, validator_id, amount)
        },
        Intent::WithdrawAuthorityStake { to, authority_id, amount } => {
            lemma_withdraw(l, RewardsRing::Authority, to, authority_id, amount)
        },
        Intent::WithdrawValidatorStake { to, validator_id, amount } => {
            lemma_withdraw(l, RewardsRing::Validator, to, validator_id, amount)
        },
        Intent::DisburseTreasury { recipient, amount, purpose_tag } => {
            lemma_pay_out(l, reserved::treasury_address(), recipient, amount)
        },
        Intent::ClaimInsurance { claimant, amount, claim_reference } => {
            lemma_pay_out(l, reserved::insurance_pool_address(), claimant, amount)
        },
        Intent::PostL2DA { batch_id, da_blob } => {},
        Intent::DistributeSlashedFunds {
            slash_event_id,
            counterparties,
            insurance_share,
            treasury_share,
        } => lemma_slashed_funds(l, counterparties@, insurance_share, treasury_share),
        Intent::AddBridgeAsset { source_chain, source_contract, decimals, name, symbol } => {
            lemma_list(l, source_chain, source_contract@, decimals, name@, symbol@)
        },
        Intent::PauseBridgeAsset { asset_id } => {
            lemma_restatus(l, asset_id, AssetStatus::Paused)
        },
        Intent::RemoveBridgeAsset { asset_id } => {
            lemma_restatus(l, asset_id, AssetStatus::Removed)
        },
        Intent::PostL2DAv2 { batch_id, da_blob, l2_chain_id_hash } => {
            lemma_anchor(l, batch_id, da_blob@, l2_chain_id_hash)
        },
    }
}

} // verus!
