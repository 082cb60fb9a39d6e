//! State-mutating intents.

use vstd::prelude::*;

use crate::substrate::{Address, Balance};

verus! {

/// A state-mutating intent.
#[derive(Debug, Clone, PartialEq, Eq, Hash)]
#[allow(inconsistent_fields)]
#[non_exhaustive]
pub enum Intent {
    /// Moves `amount` between two user accounts.
    Transfer {
        /// Source address.
        from: Address,
        /// Destination address.
        to: Address,
        /// Amount.
        amount: Balance,
    },
    /// Credits the initial supply. Accepted at height zero only; may credit
    /// protocol-owned accounts.
    GenesisAllocation {
        /// Accounts and amounts, credited all or not at all.
        allocations: Vec<(Address, Balance)>,
    },
    /// Pays rewards of one epoch out of a ring's pool.
    DistributeRewards {
        /// Epoch, greater than the last paid epoch of the ring.
        epoch: u64,
        /// Pool that is drained.
        ring: RewardsRing,
        /// Accounts and amounts, paid all or not at all.
        recipients: Vec<(Address, Balance)>,
    },
    /// Delegates stake to an active validator slot.
    Delegate {
        /// Address that pays.
        from: Address,
        /// Validator slot.
        validator_id: u32,
        /// Amount.
        amount: Balance,
    },
    /// Moves delegated stake into its cool-off. The funds stay in the pool.
    UndelegateBegin {
        /// Delegator.
        from: Address,
        /// Validator slot.
        validator_id: u32,
        /// Amount.
        amount: Balance,
    },
    /// Pays out all stake of a delegator whose cool-off is over.
    UndelegateClaim {
        /// Delegator.
        from: Address,
        /// Validator slot.
        validator_id: u32,
    },
    /// Mints the inflation of one epoch into three pools.
    MintInflation {
        /// Epoch, greater than the last minted epoch.
        epoch: u64,
        /// Amount for the Authority Ring rewards pool.
        authority_share: Balance,
        /// Amount for the Validator Ring rewards pool.
        validator_share: Balance,
        /// Amount for the treasury.
        treasury_share: Balance,
    },
    /// Admits a member into a free Authority Ring slot.
    AdmitAuthority {
        /// Slot id.
        authority_id: u32,
        /// Declared stake.
        stake_gsx: u64,
        /// ML-DSA-65 public key.
        mldsa_public_key: Vec<u8>,
        /// BLS12-381 public key.
        bls_public_key: Vec<u8>,
    },
    /// Starts the voluntary exit of an active authority.
    ExitAuthority {
        /// Slot id.
        authority_id: u32,
    },
    /// Ejects an authority and forfeits its bonded stake.
    EjectAuthority {
        /// Slot id.
        authority_id: u32,
        /// Reference to the proof of the offense.
        proof_ref: [u8; 32],
    },
    /// Admits a member into a free Validator Ring slot.
    AdmitValidator {
        /// Slot id.
        validator_id: u32,
        /// Declared stake.
        stake_gsx: u64,
        /// ML-DSA-65 public key.
        mldsa_public_key: Vec<u8>,
        /// BLS12-381 public key.
        bls_public_key: Vec<u8>,
    },
    /// Starts the voluntary exit of an active validator.
    ExitValidator {
        /// Slot id.
        validator_id: u32,
    },
    /// Ejects a validator and forfeits its bonded stake.
    EjectValidator {
        /// Slot id.
        validator_id: u32,
        /// Reference to the proof of the offense.
        proof_ref: [u8; 32],
    },
    /// Commits the state root of a proven L2 batch.
    CommitL2StateRoot {
        /// Batch identifier within the chain.
        batch_id: u64,
        /// State root after the batch.
        new_state_root: [u8; 32],
        /// Groth16 proof.
        proof_bytes: Vec<u8>,
        /// Public inputs of the proof.
        public_inputs: Vec<u8>,
        /// Verifying-key hash, which must be the pinned one.
        vk_hash: [u8; 32],
    },
    /// Pins the verifying keys of an L2 chain.
    SetL2VerifyingKey {
        /// Chain identifier hash; all zeros for the default chain.
        chain_id_hash: [u8; 32],
        /// Aggregation verifying-key hash.
        new_aggregation_vk: [u8; 32],
        /// Range-program verifying-key commitment.
        new_range_commitment: [u8; 32],
    },
    /// Locks funds in the bridge escrow for credit on L2.
    L1Lock {
        /// L1 address that pays.
        user_address: Address,
        /// L2 address that is credited.
        l2_recipient: Address,
        /// Amount.
        amount: Balance,
        /// Bridge asset, the native one if absent.
        asset_id: Option<[u8; 32]>,
    },
    /// Releases escrowed funds against a burn in a committed L2 batch.
    L2BurnProven {
        /// Batch whose state root proves the burn.
        batch_id: u64,
        /// L1 address that is paid.
        recipient: Address,
        /// Amount.
        amount: Balance,
        /// Siblings from the leaf upward, 32 bytes each.
        merkle_path: Vec<u8>,
        /// Direction bits, lowest bit first; a clear bit says that the sibling
        /// is the right child.
        path_directions: Vec<u8>,
        /// Bridge asset, the native one if absent.
        asset_id: Option<[u8; 32]>,
        /// Chain identifier hash.
        l2_chain_id_hash: [u8; 32],
    },
    /// Obliges the L2 sequencer to include a transaction by a deadline.
    L2ForceInclude {
        /// L2 transaction.
        tx: Vec<u8>,
        /// Height by which it must be included.
        deadline_l1_height: u64,
        /// Address that registers the obligation.
        submitter: Address,
        /// L2 nonce of the transaction.
        l2_nonce: u64,
    },
    /// Slashes the sequencer for a confirmed offense.
    SlashSequencer {
        /// Offense.
        reason: SlashReason,
        /// Obligation id or digest of the proof.
        intent_hash: [u8; 32],
    },
    /// Settles a pending obligation as honored.
    MarkForceIncludeHonored {
        /// Obligation id.
        obligation_id: [u8; 32],
    },
    /// Records the ejection of the sequencer over a slashed obligation.
    EjectSequencer {
        /// Obligation id.
        obligation_id: [u8; 32],
        /// Address that posts the ejection and receives the bounty.
        ejector: Address,
    },
    /// Pays into the sequencer's liveness bond.
    DepositSequencerBond {
        /// Address that pays.
        from: Address,
        /// Amount.
        amount: Balance,
    },
    /// Pays into the sequencer's safety bond.
    DepositSafetyBond {
        /// Address that pays.
        from: Address,
        /// Amount.
        amount: Balance,
    },
    /// Bonds stake behind an active authority slot.
    DepositAuthorityStake {
        /// Address that pays.
        from: Address,
        /// Slot id.
        authority_id: u32,
        /// Amount.
        amount: Balance,
    },
    /// Bonds stake behind an active validator slot.
    DepositValidatorStake {
        /// Address that pays.
        from: Address,
        /// Slot id.
        validator_id: u32,
        /// Amount.
        amount: Balance,
    },
    /// Withdraws bonded stake of an exiting authority slot after its cooldown.
    WithdrawAuthorityStake {
        /// Address that is paid.
        to: Address,
        /// Slot id.
        authority_id: u32,
        /// Amount.
        amount: Balance,
    },
    /// Withdraws bonded stake of an exiting validator slot after its cooldown.
    WithdrawValidatorStake {
        /// Address that is paid.
        to: Address,
        /// Slot id.
        validator_id: u32,
        /// Amount.
        amount: Balance,
    },
    /// Pays out of the treasury.
    DisburseTreasury {
        /// Address that is paid.
        recipient: Address,
        /// Amount.
        amount: Balance,
        /// Audit tag.
        purpose_tag: [u8; 32],
    },
    /// Pays out of the insurance pool.
    ClaimInsurance {
        /// Address that is paid.
        claimant: Address,
        /// Amount.
        amount: Balance,
        /// Audit tag.
        claim_reference: [u8; 32],
    },
    /// Posts a data-availability blob without anchoring it.
    PostL2DA {
        /// Batch identifier within the chain.
        batch_id: u64,
        /// Blob.
        da_blob: Vec<u8>,
    },
    /// Distributes slashed funds: counterparties, insurance pool, treasury.
    DistributeSlashedFunds {
        /// Reference to the slash.
        slash_event_id: [u8; 32],
        /// Accounts and amounts reimbursed.
        counterparties: Vec<(Address, Balance)>,
        /// Amount for the insurance pool.
        insurance_share: Balance,
        /// Amount for the treasury.
        treasury_share: Balance,
    },
    /// Lists a bridge asset.
    AddBridgeAsset {
        /// Source-chain identifier.
        source_chain: u64,
        /// Contract address on the source chain.
        source_contract: Vec<u8>,
        /// Decimals of the asset.
        decimals: u8,
        /// Human-readable name.
        name: Vec<u8>,
        /// Human-readable symbol.
        symbol: Vec<u8>,
    },
    /// Pauses a listed bridge asset.
    PauseBridgeAsset {
        /// Asset id.
        asset_id: [u8; 32],
    },
    /// Delists a bridge asset; the record stays.
    RemoveBridgeAsset {
        /// Asset id.
        asset_id: [u8; 32],
    },
    /// Posts a data-availability blob and anchors its digest once per batch.
    PostL2DAv2 {
        /// Batch identifier within the chain.
        batch_id: u64,
        /// Blob.
        da_blob: Vec<u8>,
        /// Chain identifier hash.
        l2_chain_id_hash: [u8; 32],
    },
}

/// The place of an intent's kind in the wire order. Kinds are only ever appended:
/// transaction hashes cover this number.
pub open spec fn ordinal_of(intent: Intent) -> u32 {
    match intent {
        Intent::Transfer { .. } => 0,
        Intent::GenesisAllocation { .. } => 1,
        Intent::DistributeRewards { .. } => 2,
        Intent::Delegate { .. } => 3,
        Intent::UndelegateBegin { .. } => 4,
        Intent::UndelegateClaim { .. } => 5,
        Intent::MintInflation { .. } => 6,
        Intent::AdmitAuthority { .. } => 7,
        Intent::ExitAuthority { .. } => 8,
        Intent::EjectAuthority { .. } => 9,
        Intent::AdmitValidator { .. } => 10,
        Intent::ExitValidator { .. } => 11,
        Intent::EjectValidator { .. } => 12,
        Intent::CommitL2StateRoot { .. } => 13,
        Intent::SetL2VerifyingKey { .. } => 14,
        Intent::L1Lock { .. } => 15,
        Intent::L2BurnProven { .. } => 16,
        Intent::L2ForceInclude { .. } => 17,
        Intent::SlashSequencer { .. } => 18,
        Intent::MarkForceIncludeHonored { .. } => 19,
        Intent::EjectSequencer { .. } => 20,
        Intent::DepositSequencerBond { .. } => 21,
        Intent::DepositSafetyBond { .. } => 22,
        Intent::DepositAuthorityStake { .. } => 23,
        Intent::DepositValidatorStake { .. } => 24,
        Intent::WithdrawAuthorityStake { .. } => 25,
        Intent::WithdrawValidatorStake { .. } => 26,
        Intent::DisburseTreasury { .. } => 27,
        Intent::ClaimInsurance { .. } => 28,
        Intent::PostL2DA { .. } => 29,
        Intent::DistributeSlashedFunds { .. } => 30,
        Intent::AddBridgeAsset { .. } => 31,
        Intent::PauseBridgeAsset { .. } => 32,
        Intent::RemoveBridgeAsset { .. } => 33,
        Intent::PostL2DAv2 { .. } => 34,
    }
}

impl Intent {
    /// The place of the kind in the wire order.
    pub fn ordinal(&self) -> (n: u32)
        ensures
            n == ordinal_of(*self),
    {
        match self {
            Intent::Transfer { .. } => 0,
            Intent::GenesisAllocation { .. } => 1,
            Intent::DistributeRewards { .. } => 2,
            Intent::Delegate { .. } => 3,
            Intent::UndelegateBegin { .. } => 4,
            Intent::UndelegateClaim { .. } => 5,
            Intent::MintInflation { .. } => 6,
            Intent::AdmitAuthority { .. } => 7,
            Intent::ExitAuthority { .. } => 8,
            Intent::EjectAuthority { .. } => 9,
            Intent::AdmitValidator { .. } => 10,
            Intent::ExitValidator { .. } => 11,
            Intent::EjectValidator { .. } => 12,
            Intent::CommitL2StateRoot { .. } => 13,
            Intent::SetL2VerifyingKey { .. } => 14,
            Intent::L1Lock { .. } => 15,
            Intent::L2BurnProven { .. } => 16,
            Intent::L2ForceInclude { .. } => 17,
            Intent::SlashSequencer { .. } => 18,
            Intent::MarkForceIncludeHonored { .. } => 19,
            Intent::EjectSequencer { .. } => 20,
            Intent::DepositSequencerBond { .. } => 21,
            Intent::DepositSafetyBond { .. } => 22,
            Intent::DepositAuthorityStake { .. } => 23,
            Intent::DepositValidatorStake { .. } => 24,
            Intent::WithdrawAuthorityStake { .. } => 25,
            Intent::WithdrawValidatorStake { .. } => 26,
            Intent::DisburseTreasury { .. } => 27,
            Intent::ClaimInsurance { .. } => 28,
            Intent::PostL2DA { .. } => 29,
            Intent::DistributeSlashedFunds { .. } => 30,
            Intent::AddBridgeAsset { .. } => 31,
            Intent::PauseBridgeAsset { .. } => 32,
            Intent::RemoveBridgeAsset { .. } => 33,
            Intent::PostL2DAv2 { .. } => 34,
        }
    }
}

/// A ring of bonded members.
#[derive(Debug, Clone, Copy, PartialEq, Eq, Hash, Structural)]
#[non_exhaustive]
pub enum RewardsRing {
    /// The Authority Ring.
    Authority,
    /// The Validator Ring.
    Validator,
}

/// The name of a ring.
pub open spec fn ring_name(ring: RewardsRing) -> &'static str {
    match ring {
        RewardsRing::Authority => "authority",
        RewardsRing::Validator => "validator",
    }
}

impl RewardsRing {
    /// The name of the ring.
    pub fn as_str(&self) -> (s: &'static str)
        ensures
            s == ring_name(*self),
    {
        match self {
            RewardsRing::Authority => "authority",
            RewardsRing::Validator => "validator",
        }
    }
}

/// What the sequencer is slashed for.
#[derive(Debug, Clone, Copy, PartialEq, Eq, Hash, Structural)]
#[non_exhaustive]
pub enum SlashReason {
    /// A force-include deadline was missed: part of the liveness bond.
    MissedForceInclude,
    /// Two conflicting batches were signed: all of the safety bond.
    Equivocation,
    /// A proven batch broke a consensus rule: all of the safety bond.
    InvalidBatch,
    /// The service level was missed: settled elsewhere.
    Downtime,
}

} // verus!
