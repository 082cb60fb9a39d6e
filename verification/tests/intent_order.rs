use gsx_dag::intent::{Intent, RewardsRing, SlashReason};
use gsx_dag::substrate::Address;

fn addr(seed: u8) -> Address {
    [seed; 20]
}

#[test]
fn intent_bincode_discriminants_are_pinned() {
    let cases: &[(u32, Intent)] = &[
        (
            0,
            Intent::Transfer {
                from: addr(1),
                to: addr(2),
                amount: 1,
            },
        ),
        (
            1,
            Intent::GenesisAllocation {
                allocations: vec![(addr(1), 1)],
            },
        ),
        (
            2,
            Intent::DistributeRewards {
                epoch: 1,
                ring: RewardsRing::Authority,
                recipients: vec![(addr(1), 1)],
            },
        ),
        (
            3,
            Intent::Delegate {
                from: addr(1),
                validator_id: 0,
                amount: 1,
            },
        ),
        (
            4,
            Intent::UndelegateBegin {
                from: addr(1),
                validator_id: 0,
                amount: 1,
            },
        ),
        (
            5,
            Intent::UndelegateClaim {
                from: addr(1),
                validator_id: 0,
            },
        ),
        (
            6,
            Intent::MintInflation {
                epoch: 1,
                authority_share: 1,
                validator_share: 1,
                treasury_share: 1,
            },
        ),
        (
            7,
            Intent::AdmitAuthority {
                authority_id: 0,
                stake_gsx: 1,
                mldsa_public_key: vec![],
                bls_public_key: vec![],
            },
        ),
        (8, Intent::ExitAuthority { authority_id: 0 }),
        (
            9,
            Intent::EjectAuthority {
                authority_id: 0,
                proof_ref: [0u8; 32],
            },
        ),
        (
            10,
            Intent::AdmitValidator {
                validator_id: 0,
                stake_gsx: 1,
                mldsa_public_key: vec![],
                bls_public_key: vec![],
            },
        ),
        (11, Intent::ExitValidator { validator_id: 0 }),
        (
            12,
            Intent::EjectValidator {
                validator_id: 0,
                proof_ref: [0u8; 32],
            },
        ),
        (
            13,
            Intent::CommitL2StateRoot {
                batch_id: 1,
                new_state_root: [0u8; 32],
                proof_bytes: vec![],
                public_inputs: vec![],
                vk_hash: [0u8; 32],
            },
        ),
        (
            14,
            Intent::SetL2VerifyingKey {
                chain_id_hash: [0u8; 32],
                new_aggregation_vk: [0u8; 32],
                new_range_commitment: [0u8; 32],
            },
        ),
        (
            15,
            Intent::L1Lock {
                user_address: addr(1),
                l2_recipient: addr(2),
                amount: 1,
                asset_id: None,
            },
        ),
        (
            16,
            Intent::L2BurnProven {
                batch_id: 1,
                recipient: addr(1),
                amount: 1,
                merkle_path: vec![],
                path_directions: vec![],
                asset_id: None,
                l2_chain_id_hash: [0u8; 32],
            },
        ),
        (
            17,
            Intent::L2ForceInclude {
                tx: vec![],
                deadline_l1_height: 1,
                submitter: addr(1),
                l2_nonce: 0,
            },
        ),
        (
            18,
            Intent::SlashSequencer {
                reason: SlashReason::MissedForceInclude,
                intent_hash: [0u8; 32],
            },
        ),
        (
            19,
            Intent::MarkForceIncludeHonored {
                obligation_id: [0u8; 32],
            },
        ),
        (
            20,
            Intent::EjectSequencer {
                obligation_id: [0u8; 32],
                ejector: addr(1),
            },
        ),
        (
            21,
            Intent::DepositSequencerBond {
                from: addr(1),
                amount: 1,
            },
        ),
        (
            22,
            Intent::DepositSafetyBond {
                from: addr(1),
                amount: 1,
            },
        ),
        (
            23,
            Intent::DepositAuthorityStake {
                from: addr(1),
                authority_id: 0,
                amount: 1,
            },
        ),
        (
            24,
            Intent::DepositValidatorStake {
                from: addr(1),
                validator_id: 0,
                amount: 1,
            },
        ),
        (
            25,
            Intent::WithdrawAuthorityStake {
                to: addr(1),
                authority_id: 0,
                amount: 1,
            },
        ),
        (
            26,
            Intent::WithdrawValidatorStake {
                to: addr(1),
                validator_id: 0,
                amount: 1,
            },
        ),
        (
            27,
            Intent::DisburseTreasury {
                recipient: addr(1),
                amount: 1,
                purpose_tag: [0u8; 32],
            },
        ),
        (
            28,
            Intent::ClaimInsurance {
                claimant: addr(1),
                amount: 1,
                claim_reference: [0u8; 32],
            },
        ),
        (
            29,
            Intent::PostL2DA {
                batch_id: 1,
                da_blob: vec![],
            },
        ),
        (
            30,
            Intent::DistributeSlashedFunds {
                slash_event_id: [0u8; 32],
                counterparties: vec![],
                insurance_share: 1,
                treasury_share: 1,
            },
        ),
        (
            31,
            Intent::AddBridgeAsset {
                source_chain: 1,
                source_contract: vec![],
                decimals: 0,
                name: vec![],
                symbol: vec![],
            },
        ),
        (
            32,
            Intent::PauseBridgeAsset {
                asset_id: [0u8; 32],
            },
        ),
        (
            33,
            Intent::RemoveBridgeAsset {
                asset_id: [0u8; 32],
            },
        ),
        (
            34,
            Intent::PostL2DAv2 {
                batch_id: 1,
                da_blob: vec![],
                l2_chain_id_hash: [0u8; 32],
            },
        ),
    ];
    for (expected, intent) in cases {
        assert_eq!(intent.ordinal(), *expected);
    }
    assert_eq!(cases.len(), 35);
}
