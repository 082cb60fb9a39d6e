//! Execution errors.

use vstd::prelude::*;

use crate::asset_registry::AssetStatus;
use crate::authority_registry::AuthorityStatus;
use crate::bridge::BridgeError;
use crate::equivocation_registry::OffenseKind;
use crate::force_include::ObligationStatus;
use crate::substrate::{Address, Balance};
use crate::validator_registry::ValidatorStatus;

verus! {

/// Errors of the block executor and the substrate.
#[derive(Debug, Clone, PartialEq, Eq)]
#[allow(inconsistent_fields)]
pub enum ExecutionError {
    /// The source of a transfer cannot cover it.
    InsufficientBalance {
        /// Source address.
        from: Address,
        /// Available balance.
        have: Balance,
        /// Amount that was asked for.
        need: Balance,
    },
    /// The receiver of a transfer would hold more than fits.
    BalanceOverflow {
        /// Destination address.
        to: Address,
    },
    /// A user intent named a protocol-owned account.
    ReservedAddressTransferDenied {
        /// The account that was named.
        addr: Address,
    },
    /// A slashing distribution named a protocol-owned counterparty.
    ReservedAddressInCounterparties {
        /// The account that was named.
        addr: Address,
    },
    /// A protocol credit would make a balance larger than fits.
    DistributionOverflow {
        /// Destination address.
        to: Address,
    },
    /// The proof of an L2 batch was rejected.
    L2VerifierRejected {
        /// What the verifier said.
        reason: String,
    },
    /// A byte record cannot be decoded.
    CorruptStateRecord {
        /// Address of the record.
        addr: Address,
        /// What is wrong with it.
        reason: &'static str,
    },
    /// The obligation is already registered.
    ForceIncludeAlreadyRegistered {
        /// Obligation id.
        obligation_id: [u8; 32],
    },
    /// No such obligation is registered.
    ForceIncludeNotFound {
        /// Obligation id.
        obligation_id: [u8; 32],
    },
    /// The obligation is already settled.
    ForceIncludeNotPending {
        /// Obligation id.
        obligation_id: [u8; 32],
        /// Current status.
        status: ObligationStatus,
    },
    /// The verifying key of a commit is not the pinned one.
    L2VkPinMismatch {
        /// Pinned aggregation key hash.
        expected: [u8; 32],
        /// Key hash of the commit.
        got: [u8; 32],
    },
    /// Both verifying keys of a rotation are all zeros.
    SetL2VkAllZeros,
    /// The bridge asset is already listed.
    BridgeAssetAlreadyRegistered {
        /// Asset id.
        asset_id: [u8; 32],
    },
    /// No such bridge asset is listed.
    BridgeAssetNotFound {
        /// Asset id.
        asset_id: [u8; 32],
    },
    /// A field of a bridge asset is too long.
    BridgeAssetFieldTooLong {
        /// Name of the field.
        field: &'static str,
        /// Its length.
        got: usize,
        /// The longest accepted.
        max: usize,
    },
    /// The obligation was not slashed.
    ForceIncludeNotSlashed {
        /// Obligation id.
        obligation_id: [u8; 32],
        /// Current status.
        status: ObligationStatus,
    },
    /// The obligation was already ejected.
    SequencerEjectionAlreadyRecorded {
        /// Obligation id.
        obligation_id: [u8; 32],
    },
    /// The bridge asset is paused or removed.
    BridgeAssetNotActive {
        /// Asset id.
        asset_id: [u8; 32],
        /// Current status.
        status: AssetStatus,
    },
    /// No state root is committed for the batch.
    L2BatchNotCommitted {
        /// Chain identifier hash.
        l2_chain_id_hash: [u8; 32],
        /// Batch identifier.
        batch_id: u64,
    },
    /// The burn is not included under the committed state root.
    L2BurnMerkleProofRejected {
        /// What is wrong with the proof.
        reason: BridgeError,
    },
    /// The burn was already claimed.
    L2BurnAlreadyClaimed {
        /// Burn id.
        burn_id: [u8; 32],
    },
    /// A blob is already anchored for the batch.
    DaAnchorAlreadyRecorded {
        /// Chain identifier hash.
        l2_chain_id_hash: [u8; 32],
        /// Batch identifier.
        batch_id: u64,
    },
    /// The offense was already slashed.
    EquivocationAlreadyRecorded {
        /// Digest of the proof.
        proof_hash: [u8; 32],
        /// What it was slashed for.
        kind: OffenseKind,
    },
    /// The authority slot is occupied.
    AuthoritySlotAlreadyOccupied {
        /// Slot id.
        authority_id: u32,
    },
    /// The authority slot is not occupied.
    AuthorityNotFound {
        /// Slot id.
        authority_id: u32,
    },
    /// The authority slot is exiting or ejected.
    AuthorityNotActive {
        /// Slot id.
        authority_id: u32,
        /// Current status.
        status: AuthorityStatus,
    },
    /// A public key of an authority is too long.
    AuthorityFieldTooLong {
        /// Name of the field.
        field: &'static str,
        /// Its length.
        got: usize,
        /// The longest accepted.
        max: usize,
    },
    /// The validator slot is occupied.
    ValidatorSlotAlreadyOccupied {
        /// Slot id.
        validator_id: u32,
    },
    /// The validator slot is not occupied.
    ValidatorNotFound {
        /// Slot id.
        validator_id: u32,
    },
    /// The validator slot is exiting or ejected.
    ValidatorNotActive {
        /// Slot id.
        validator_id: u32,
        /// Current status.
        status: ValidatorStatus,
    },
    /// A public key of a validator is too long.
    ValidatorFieldTooLong {
        /// Name of the field.
        field: &'static str,
        /// Its length.
        got: usize,
        /// The longest accepted.
        max: usize,
    },
    /// Genesis allocations are accepted at height zero only.
    GenesisAfterBootstrap {
        /// Current height.
        current_block_height: u64,
    },
    /// Inflation was already minted for this epoch or a later one.
    InflationEpochAlreadyMinted {
        /// Epoch of the intent.
        attempted_epoch: u64,
        /// Last minted epoch.
        last_minted_epoch: u64,
    },
    /// Rewards were already paid for this epoch or a later one.
    RewardsEpochAlreadyDistributed {
        /// Ring whose pool is drained.
        ring: &'static str,
        /// Epoch of the intent.
        attempted_epoch: u64,
        /// Last paid epoch.
        last_distributed_epoch: u64,
    },
    /// A stake counter would hold more than fits.
    DepositedStakeOverflow {
        /// Counter that would overflow.
        ring: &'static str,
        /// Slot id.
        slot_id: u32,
    },
    /// More is undelegated than is delegated.
    UndelegationExceedsDelegation {
        /// Validator slot id.
        slot_id: u32,
        /// Amount asked for.
        want: Balance,
        /// Amount delegated.
        have: Balance,
    },
    /// Stake is withdrawn from a slot that is not exiting.
    SlotNotExiting {
        /// Ring of the slot.
        ring: &'static str,
        /// Slot id.
        slot_id: u32,
        /// Name of the current status.
        status: &'static str,
    },
    /// Stake is withdrawn before the exit cooldown is over.
    ExitCooldownNotElapsed {
        /// Ring of the slot.
        ring: &'static str,
        /// Slot id.
        slot_id: u32,
        /// First height at which stake can be withdrawn.
        required_block_height: u64,
        /// Current height.
        current_block_height: u64,
    },
    /// More stake is withdrawn than the slot holds.
    WithdrawalExceedsDeposit {
        /// Ring of the slot.
        ring: &'static str,
        /// Slot id.
        slot_id: u32,
        /// Amount asked for.
        want: Balance,
        /// Amount held.
        have: Balance,
    },
}

/// What an error says: the text of a verifier by its characters, everything else
/// as it is.
pub enum ErrorView {
    /// The proof of an L2 batch was rejected with these characters.
    VerifierRejected(Seq<char>),
    /// Any other error.
    Plain(ExecutionError),
}

impl View for ExecutionError {
    type V = ErrorView;

    open spec fn view(&self) -> ErrorView {
        match *self {
            ExecutionError::L2VerifierRejected { reason } => ErrorView::VerifierRejected(reason@),
            e => ErrorView::Plain(e),
        }
    }
}

} // verus!
