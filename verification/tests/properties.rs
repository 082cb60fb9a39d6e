use gsx_dag::apply::HostEvidence;
use gsx_dag::asset_registry::{asset_id, AssetStatus};
use gsx_dag::authority_registry::AuthorityStatus;
use gsx_dag::block::{execute_block, execute_block_on, execute_block_with, Block};
use gsx_dag::bridge::{hash_inner_node, verify_burn_inclusion, BridgeError, BurnLeaf};
use gsx_dag::da_anchor_registry::da_blob_hash;
use gsx_dag::delegation_registry;
use gsx_dag::equivocation_registry::{self, EquivocationRecord, OffenseKind};
use gsx_dag::error::ExecutionError;
use gsx_dag::findings::PairingFinding;
use gsx_dag::force_include::{self, obligation_id, ForceIncludeObligation, ObligationStatus};
use gsx_dag::hash::digest;
use gsx_dag::intent::{Intent, RewardsRing, SlashReason};
use gsx_dag::l2_state::{ChainVks, L2BatchKey};
use gsx_dag::ordered::{OrderedMap, OrderedSet};
use gsx_dag::reserved;
use gsx_dag::sequencing::{liveness_slash_amount, snitch_bounty_amount, SNITCH_BOUNTY_CAP};
use gsx_dag::staking::{cooldown_over_at, split_insurance, EXIT_COOLDOWN_BLOCKS};
use gsx_dag::substrate::{Address, Balance, InMemorySubstrate, Substrate};
use gsx_dag::validator_registry;

fn addr(seed: u8) -> Address {
    [seed; 20]
}

fn seat(s: &mut InMemorySubstrate, ring: RewardsRing, id: u32) {
    let intent = match ring {
        RewardsRing::Authority => Intent::AdmitAuthority {
            authority_id: id,
            stake_gsx: 7,
            mldsa_public_key: vec![1],
            bls_public_key: vec![2],
        },
        _ => Intent::AdmitValidator {
            validator_id: id,
            stake_gsx: 7,
            mldsa_public_key: vec![1],
            bls_public_key: vec![2],
        },
    };
    s.apply_intent(&intent).unwrap();
}

fn deposit_validator(id: u32, amount: Balance) -> Intent {
    Intent::DepositValidatorStake {
        from: addr(1),
        validator_id: id,
        amount,
    }
}

fn lock(user: Address, amount: Balance) -> Intent {
    Intent::L1Lock {
        user_address: user,
        l2_recipient: addr(9),
        amount,
        asset_id: None,
    }
}

fn burn(to: Address, amount: Balance, seed: u8) -> Intent {
    Intent::L2BurnProven {
        batch_id: 1,
        recipient: to,
        amount,
        merkle_path: vec![seed; 32],
        path_directions: vec![0],
        asset_id: None,
        l2_chain_id_hash: [0; 32],
    }
}

fn proven() -> HostEvidence {
    HostEvidence { pairing: Ok(()) }
}

fn commit(batch_id: u64) -> Intent {
    Intent::CommitL2StateRoot {
        batch_id,
        new_state_root: [7; 32],
        proof_bytes: vec![batch_id as u8; 260],
        public_inputs: vec![0; 240],
        vk_hash: [4; 32],
    }
}

fn finding(batch_id: u64, verdict: Result<(), String>) -> PairingFinding {
    PairingFinding {
        proof_bytes: vec![batch_id as u8; 260],
        public_inputs: vec![0; 240],
        vk_hash: [4; 32],
        verdict,
    }
}

#[test]
fn digest_of_nothing_is_the_known_value() {
    let known: [u8; 32] = [
        0xaf, 0x13, 0x49, 0xb9, 0xf5, 0xf9, 0xa1, 0xa6, 0xa0, 0x40, 0x4d, 0xea, 0x36, 0xdc, 0xc9,
        0x49, 0x9b, 0xcb, 0x25, 0xc9, 0xad, 0xc1, 0x12, 0xb7, 0xcc, 0x9a, 0x93, 0xca, 0xe4, 0x1f,
        0x32, 0x62,
    ];
    assert_eq!(digest(b""), known);
    assert_eq!(da_blob_hash(b""), known);
}

#[test]
fn reserved_addresses_are_apart() {
    assert!(reserved::addresses_are_apart());
    assert!(reserved::is_reserved(
        &reserved::validator_unbonding_registry_address()
    ));
}

#[test]
fn state_root_is_the_tagged_digest_of_its_parts() {
    let mut s = InMemorySubstrate::from_balances(&[(addr(2), 20), (addr(1), 10)]);
    s.apply_intent(&Intent::MintInflation {
        epoch: 3,
        authority_share: 0,
        validator_share: 0,
        treasury_share: 0,
    })
    .unwrap();
    let mut balances = b"GSX-BALANCES-V1".to_vec();
    for (a, b) in [(addr(1), 10u128), (addr(2), 20u128)] {
        balances.extend_from_slice(&a);
        balances.extend_from_slice(&b.to_be_bytes());
    }
    let mut records = b"GSX-BYTES-STATE-V1".to_vec();
    records.extend_from_slice(&reserved::inflation_registry_address());
    records.extend_from_slice(&8u32.to_be_bytes());
    records.extend_from_slice(&3u64.to_be_bytes());
    let mut root = b"GSX-STATE-ROOT-V2".to_vec();
    root.extend_from_slice(blake3::hash(&balances).as_bytes());
    root.extend_from_slice(blake3::hash(&records).as_bytes());
    assert_eq!(s.state_root(), *blake3::hash(&root).as_bytes());
}

#[test]
fn state_root_ignores_the_height() {
    let mut s = InMemorySubstrate::from_balances(&[(addr(1), 10)]);
    let root = s.state_root();
    s.set_current_block_height(99);
    assert_eq!(s.current_block_height(), 99);
    assert_eq!(s.state_root(), root);
}

#[test]
fn refused_intents_change_nothing() {
    let mut s = InMemorySubstrate::from_balances(&[(addr(1), 10)]);
    let root = s.state_root();
    let refused = [
        Intent::Transfer {
            from: addr(1),
            to: addr(2),
            amount: 11,
        },
        lock(addr(1), 11),
        Intent::ExitValidator { validator_id: 1 },
        deposit_validator(1, 5),
        Intent::Delegate {
            from: addr(1),
            validator_id: 1,
            amount: 5,
        },
        Intent::UndelegateBegin {
            from: addr(1),
            validator_id: 1,
            amount: 5,
        },
        Intent::PauseBridgeAsset { asset_id: [1; 32] },
        Intent::MarkForceIncludeHonored {
            obligation_id: [1; 32],
        },
    ];
    for intent in refused {
        assert!(s.apply_intent(&intent).is_err());
        assert_eq!(s.state_root(), root);
    }
}

#[test]
fn an_unpaid_claim_stays_claimed() {
    let mut s = InMemorySubstrate::from_balances(&[(addr(1), 10)]);
    s.pin_l2_state_root_for_test([0; 32], 1);
    s.apply_intent(&lock(addr(1), 5)).unwrap();
    let claim = burn(addr(2), 6, 1);
    assert_eq!(
        s.rehearse_intent(&claim, &proven(), true),
        Err(ExecutionError::InsufficientBalance {
            from: reserved::bridge_escrow_address(),
            have: 5,
            need: 6,
        })
    );
    assert_eq!(s.burn_nullifier_count(), 1);
    assert_eq!(s.bridge_escrow_balance(), 5);
    s.apply_intent(&lock(addr(1), 5)).unwrap();
    assert!(matches!(
        s.rehearse_intent(&claim, &proven(), true),
        Err(ExecutionError::L2BurnAlreadyClaimed { .. })
    ));
    assert_eq!(s.balance(&addr(2)), 0);
}

#[test]
fn escrow_holds_what_is_outstanding() {
    let mut s = InMemorySubstrate::from_balances(&[(addr(1), 1_000)]);
    s.pin_l2_state_root_for_test([0; 32], 1);
    for (i, (amount, out)) in [(100u128, 30u128), (50, 20), (7, 107)].iter().enumerate() {
        s.apply_intent(&lock(addr(1), *amount)).unwrap();
        s.rehearse_intent(&burn(addr(2), *out, i as u8), &proven(), true)
            .unwrap();
    }
    assert_eq!(s.bridge_escrow_balance(), 157 - 157);
    assert_eq!(s.balance(&addr(2)), 157);
    assert_eq!(s.total_supply(), 1_000);
}

#[test]
fn supply_grows_only_by_new_money() {
    let mut s = InMemorySubstrate::new();
    s.apply_intent(&Intent::GenesisAllocation {
        allocations: vec![(addr(1), 500), (addr(2), 0)],
    })
    .unwrap();
    assert_eq!(s.total_supply(), 500);
    s.apply_intent(&Intent::MintInflation {
        epoch: 1,
        authority_share: 10,
        validator_share: 20,
        treasury_share: 30,
    })
    .unwrap();
    assert_eq!(s.total_supply(), 560);
    s.apply_intent(&Intent::DistributeSlashedFunds {
        slash_event_id: [0; 32],
        counterparties: vec![(addr(3), 1)],
        insurance_share: 2,
        treasury_share: 3,
    })
    .unwrap();
    assert_eq!(s.total_supply(), 566);
    s.apply_intent(&Intent::DisburseTreasury {
        recipient: addr(4),
        amount: 33,
        purpose_tag: [0; 32],
    })
    .unwrap();
    s.apply_intent(&lock(addr(1), 100)).unwrap();
    assert_eq!(s.total_supply(), 566);
}

#[test]
fn stake_pool_covers_bonds_delegations_and_unbonding() {
    let mut s = InMemorySubstrate::from_balances(&[(addr(1), 1_000)]);
    seat(&mut s, RewardsRing::Validator, 4);
    s.apply_intent(&deposit_validator(4, 100)).unwrap();
    for amount in [40u128, 60] {
        s.apply_intent(&Intent::Delegate {
            from: addr(1),
            validator_id: 4,
            amount,
        })
        .unwrap();
    }
    s.apply_intent(&Intent::UndelegateBegin {
        from: addr(1),
        validator_id: 4,
        amount: 25,
    })
    .unwrap();
    let pool = s.balance(&reserved::validator_stake_pool_address());
    let owed = s.validator_deposited_stake(4)
        + s.checked_total_delegated_to_validator(4).unwrap()
        + s.checked_total_unbonding_for(4, addr(1)).unwrap();
    assert_eq!(pool, 200);
    assert_eq!(owed, 200);
    s.apply_intent(&Intent::EjectValidator {
        validator_id: 4,
        proof_ref: [0; 32],
    })
    .unwrap();
    assert_eq!(s.balance(&reserved::validator_stake_pool_address()), 100);
    assert_eq!(s.validator_deposited_stake(4), 0);
    assert_eq!(s.balance(&reserved::insurance_pool_address()), 70);
    assert_eq!(s.balance(&reserved::treasury_address()), 30);
}

#[test]
fn totals_that_do_not_fit_are_not_given() {
    let mut s = InMemorySubstrate::from_balances(&[(addr(1), Balance::MAX / 2), (addr(2), 10)]);
    seat(&mut s, RewardsRing::Validator, 1);
    s.apply_intent(&Intent::Delegate {
        from: addr(1),
        validator_id: 1,
        amount: u64::MAX as Balance,
    })
    .unwrap();
    assert_eq!(s.total_delegated_to_validator(1), u64::MAX);
    assert_eq!(
        s.checked_total_delegated_to_validator(1),
        Some(u64::MAX)
    );
    s.apply_intent(&Intent::Delegate {
        from: addr(2),
        validator_id: 1,
        amount: 1,
    })
    .unwrap();
    assert_eq!(s.checked_total_delegated_to_validator(1), None);
    s.apply_intent(&Intent::UndelegateBegin {
        from: addr(1),
        validator_id: 1,
        amount: u64::MAX as Balance,
    })
    .unwrap();
    s.set_current_block_height(5);
    assert_eq!(s.total_unbonding_for(1, addr(1)), u64::MAX);
    assert_eq!(s.total_unbonding_for(1, addr(2)), 0);
    s.apply_intent(&Intent::Delegate {
        from: addr(1),
        validator_id: 1,
        amount: 3,
    })
    .unwrap();
    s.apply_intent(&Intent::UndelegateBegin {
        from: addr(1),
        validator_id: 1,
        amount: 3,
    })
    .unwrap();
    assert_eq!(s.unbonding(1, addr(1), 5), 3);
    assert_eq!(s.checked_total_unbonding_for(1, addr(1)), None);
}

#[test]
fn stake_counters_do_not_overflow() {
    let mut s = InMemorySubstrate::from_balances(&[(addr(1), Balance::MAX)]);
    seat(&mut s, RewardsRing::Validator, 1);
    s.apply_intent(&deposit_validator(1, u64::MAX as Balance)).unwrap();
    assert_eq!(
        s.apply_intent(&deposit_validator(1, 1)),
        Err(ExecutionError::DepositedStakeOverflow {
            ring: "validator",
            slot_id: 1,
        })
    );
    let delegate = |amount: Balance| Intent::Delegate {
        from: addr(1),
        validator_id: 1,
        amount,
    };
    assert_eq!(
        s.apply_intent(&delegate(u64::MAX as Balance + 1)),
        Err(ExecutionError::DepositedStakeOverflow {
            ring: "delegation",
            slot_id: 1,
        })
    );
    let undelegate = |amount: Balance| Intent::UndelegateBegin {
        from: addr(1),
        validator_id: 1,
        amount,
    };
    s.apply_intent(&delegate(u64::MAX as Balance)).unwrap();
    s.apply_intent(&undelegate(u64::MAX as Balance)).unwrap();
    s.apply_intent(&delegate(1)).unwrap();
    assert_eq!(
        s.apply_intent(&undelegate(1)),
        Err(ExecutionError::DepositedStakeOverflow {
            ring: "unbonding",
            slot_id: 1,
        })
    );
}

#[test]
fn slots_go_one_way() {
    let mut s = InMemorySubstrate::new();
    seat(&mut s, RewardsRing::Authority, 3);
    s.set_current_block_height(12);
    s.apply_intent(&Intent::ExitAuthority { authority_id: 3 }).unwrap();
    let rec = s.authority_record(3).unwrap();
    assert_eq!(rec.status, AuthorityStatus::Exiting);
    assert_eq!(rec.exit_block_height, 12);
    assert_eq!(
        s.apply_intent(&Intent::ExitAuthority { authority_id: 3 }),
        Err(ExecutionError::AuthorityNotActive {
            authority_id: 3,
            status: AuthorityStatus::Exiting,
        })
    );
    s.apply_intent(&Intent::EjectAuthority {
        authority_id: 3,
        proof_ref: [0; 32],
    })
    .unwrap();
    let rec = s.authority_record(3).unwrap();
    assert_eq!(rec.status, AuthorityStatus::Ejected);
    assert_eq!(rec.mldsa_public_key, vec![1]);
    assert_eq!(rec.exit_block_height, 12);
}

#[test]
fn the_cooldown_ends_on_its_block() {
    assert_eq!(cooldown_over_at(5), 5 + EXIT_COOLDOWN_BLOCKS);
    assert_eq!(cooldown_over_at(u64::MAX), u64::MAX);
    let mut s = InMemorySubstrate::from_balances(&[(addr(1), 100)]);
    seat(&mut s, RewardsRing::Validator, 1);
    s.apply_intent(&deposit_validator(1, 100)).unwrap();
    s.set_current_block_height(10);
    s.apply_intent(&Intent::ExitValidator { validator_id: 1 }).unwrap();
    let withdraw = Intent::WithdrawValidatorStake {
        to: addr(2),
        validator_id: 1,
        amount: 60,
    };
    s.set_current_block_height(9 + EXIT_COOLDOWN_BLOCKS);
    assert_eq!(
        s.apply_intent(&withdraw),
        Err(ExecutionError::ExitCooldownNotElapsed {
            ring: "validator",
            slot_id: 1,
            required_block_height: 10 + EXIT_COOLDOWN_BLOCKS,
            current_block_height: 9 + EXIT_COOLDOWN_BLOCKS,
        })
    );
    s.set_current_block_height(10 + EXIT_COOLDOWN_BLOCKS);
    s.apply_intent(&withdraw).unwrap();
    assert_eq!(s.balance(&addr(2)), 60);
    assert_eq!(s.validator_deposited_stake(1), 40);
}

#[test]
fn epochs_are_counted_per_ring() {
    let mut s = InMemorySubstrate::new();
    s.apply_intent(&Intent::MintInflation {
        epoch: 4,
        authority_share: 50,
        validator_share: 50,
        treasury_share: 0,
    })
    .unwrap();
    assert_eq!(s.last_minted_inflation_epoch(), 4);
    let pay = |epoch: u64, ring: RewardsRing| Intent::DistributeRewards {
        epoch,
        ring,
        recipients: vec![(addr(1), 1)],
    };
    s.apply_intent(&pay(3, RewardsRing::Validator)).unwrap();
    s.apply_intent(&pay(9, RewardsRing::Authority)).unwrap();
    assert_eq!(s.last_distributed_rewards_epoch(RewardsRing::Validator), 3);
    assert_eq!(s.last_distributed_rewards_epoch(RewardsRing::Authority), 9);
    assert_eq!(
        s.apply_intent(&pay(3, RewardsRing::Validator)),
        Err(ExecutionError::RewardsEpochAlreadyDistributed {
            ring: "validator",
            attempted_epoch: 3,
            last_distributed_epoch: 3,
        })
    );
}

#[test]
fn retired_assets_stay_retired() {
    let mut s = InMemorySubstrate::new();
    s.apply_intent(&Intent::AddBridgeAsset {
        source_chain: 1,
        source_contract: vec![7; 20],
        decimals: 6,
        name: b"USD Coin".to_vec(),
        symbol: b"USDC".to_vec(),
    })
    .unwrap();
    let id = asset_id(1, &[7; 20]);
    s.apply_intent(&Intent::RemoveBridgeAsset { asset_id: id }).unwrap();
    s.apply_intent(&Intent::PauseBridgeAsset { asset_id: id }).unwrap();
    assert_eq!(s.bridge_asset(&id).unwrap().status, AssetStatus::Removed);
    assert_eq!(
        s.apply_intent(&Intent::AddBridgeAsset {
            source_chain: 1,
            source_contract: vec![7; 20],
            decimals: 6,
            name: vec![],
            symbol: vec![],
        }),
        Err(ExecutionError::BridgeAssetAlreadyRegistered { asset_id: id })
    );
    assert!(matches!(
        s.apply_intent(&Intent::L1Lock {
            user_address: addr(1),
            l2_recipient: addr(1),
            amount: 1,
            asset_id: Some(id),
        }),
        Err(ExecutionError::BridgeAssetNotActive { .. })
    ));
}

#[test]
fn blocks_run_in_order_and_past_failures() {
    let transfer = |from: u8, to: u8, amount: Balance| Intent::Transfer {
        from: addr(from),
        to: addr(to),
        amount,
    };
    let block = Block {
        round: 8,
        intents: vec![transfer(1, 2, 60), transfer(1, 2, 60), transfer(2, 3, 50)],
    };
    let mut s = InMemorySubstrate::from_balances(&[(addr(1), 100)]);
    let report = execute_block(&mut s, &block);
    assert_eq!(report.round, 8);
    assert_eq!(s.current_block_height(), 8);
    assert_eq!(report.results.len(), 3);
    assert!(report.results[0].is_ok());
    assert_eq!(
        report.results[1],
        Err(ExecutionError::InsufficientBalance {
            from: addr(1),
            have: 40,
            need: 60,
        })
    );
    assert!(report.results[2].is_ok());
    assert_eq!(s.balance(&addr(3)), 50);
    assert_eq!(report.state_root, s.state_root());
}

#[test]
fn splitting_a_block_changes_nothing() {
    let intents: Vec<Intent> = (0..6u8)
        .map(|i| Intent::Transfer {
            from: addr(i % 3),
            to: addr((i + 1) % 3),
            amount: 10 + i as Balance,
        })
        .collect();
    let start = InMemorySubstrate::from_balances(&[(addr(0), 40), (addr(1), 5)]);
    let mut whole = start.clone();
    execute_block(
        &mut whole,
        &Block {
            round: 2,
            intents: intents.clone(),
        },
    );
    let mut parts = start.clone();
    for chunk in intents.chunks(2) {
        execute_block(
            &mut parts,
            &Block {
                round: 2,
                intents: chunk.to_vec(),
            },
        );
    }
    assert_eq!(whole.state_root(), parts.state_root());
    assert_eq!(whole.entries(), parts.entries());
}

#[test]
fn evidence_lets_a_block_commit() {
    let mut s = InMemorySubstrate::new();
    s.pin_l2_verifying_key_for_chain([0; 32], [4; 32], [5; 32]).unwrap();
    let block = Block {
        round: 1,
        intents: vec![Intent::CommitL2StateRoot {
            batch_id: 9,
            new_state_root: [7; 32],
            proof_bytes: vec![1; 260],
            public_inputs: vec![0; 240],
            vk_hash: [4; 32],
        }],
    };
    let report = execute_block(&mut s, &block);
    assert_eq!(
        report.results[0],
        Err(ExecutionError::L2VerifierRejected {
            reason: "pairing was not run".to_string(),
        })
    );
    assert_eq!(s.l2_commit_count(), 0);
    let report = execute_block_with(&mut s, &block, &vec![proven()]);
    assert!(report.results[0].is_ok());
    let key = L2BatchKey {
        l2_chain_id_hash: [0; 32],
        batch_id: 9,
    };
    assert_eq!(s.l2_state_root_record(&key).unwrap().state_root, [7; 32]);
    assert_eq!(
        s.l2_registry().chain_vks.get(&[0; 32]),
        Some(&ChainVks {
            aggregation_vk_hash: [4; 32],
            range_vk_commitment: [5; 32],
        })
    );
}

#[test]
fn a_failed_pairing_is_reported() {
    let mut s = InMemorySubstrate::new();
    let commit = Intent::CommitL2StateRoot {
        batch_id: 9,
        new_state_root: [7; 32],
        proof_bytes: vec![1; 260],
        public_inputs: vec![0; 240],
        vk_hash: [4; 32],
    };
    let evidence = HostEvidence {
        pairing: Err("pairing does not hold".to_string()),
    };
    assert_eq!(
        s.apply_intent_with(&commit, &evidence),
        Err(ExecutionError::L2VerifierRejected {
            reason: "pairing does not hold".to_string(),
        })
    );
}

#[test]
fn burn_paths_are_checked_level_by_level() {
    let recipient = addr(1);
    let leaf = BurnLeaf {
        l2_chain_id_hash: &[3; 32],
        batch_id: 7,
        recipient: &recipient,
        amount: 5,
        asset_id: None,
    };
    let mut root = leaf.hash();
    let mut path = vec![];
    let mut directions = vec![0u8; 2];
    for level in 0..9u8 {
        let sibling = [level; 32];
        path.extend_from_slice(&sibling);
        if level % 2 == 1 {
            directions[level as usize / 8] |= 1 << (level % 8);
            root = hash_inner_node(&sibling, &root);
        } else {
            root = hash_inner_node(&root, &sibling);
        }
    }
    assert_eq!(verify_burn_inclusion(&leaf, &path, &directions, &root), Ok(()));
    assert_eq!(
        verify_burn_inclusion(&leaf, &path, &directions[..1], &root),
        Err(BridgeError::PathDirectionsLength {
            expected: 2,
            got: 1,
        })
    );
    assert_eq!(
        verify_burn_inclusion(&leaf, &path[..33], &directions, &root),
        Err(BridgeError::MerklePathAlignment { got: 33 })
    );
    let mut padded = directions.clone();
    padded[1] |= 0x80;
    assert_eq!(
        verify_burn_inclusion(&leaf, &path, &padded, &root),
        Err(BridgeError::PathDirectionsPadding)
    );
    assert_eq!(
        verify_burn_inclusion(&leaf, &path, &directions, &[0; 32]),
        Err(BridgeError::MerkleRootMismatch)
    );
}

#[test]
fn slash_formulas_round_down() {
    assert_eq!(liveness_slash_amount(19), 0);
    assert_eq!(liveness_slash_amount(20), 1);
    assert_eq!(liveness_slash_amount(Balance::MAX), Balance::MAX / 20);
    assert_eq!(snitch_bounty_amount(19), 1);
    assert_eq!(snitch_bounty_amount(10_000_000), SNITCH_BOUNTY_CAP);
    assert_eq!(snitch_bounty_amount(Balance::MAX), SNITCH_BOUNTY_CAP);
    assert_eq!(split_insurance(99), 69);
    assert_eq!(split_insurance(100), 70);
    let big = Balance::MAX;
    assert_eq!(split_insurance(big), big / 100 * 70 + (big % 100) * 70 / 100);
}

#[test]
fn obligations_settle_once() {
    let mut s = InMemorySubstrate::new();
    s.apply_intent(&Intent::L2ForceInclude {
        tx: b"tx".to_vec(),
        deadline_l1_height: 5,
        submitter: addr(2),
        l2_nonce: 0,
    })
    .unwrap();
    let id = obligation_id(b"tx", 5, &addr(2), 0);
    s.apply_intent(&Intent::MarkForceIncludeHonored { obligation_id: id })
        .unwrap();
    assert_eq!(
        s.apply_intent(&Intent::SlashSequencer {
            reason: SlashReason::MissedForceInclude,
            intent_hash: id,
        }),
        Err(ExecutionError::ForceIncludeNotPending {
            obligation_id: id,
            status: ObligationStatus::Honored,
        })
    );
    let ob = s.force_include_obligation(&id).unwrap();
    assert_eq!(ob.tx_hash, digest(b"tx"));
    assert_eq!(ob.status, ObligationStatus::Honored);
}

#[test]
fn delegation_codec_drops_zeros_and_rejects_them() {
    let mut m = OrderedMap::new();
    m.insert((1, addr(1)), 0u64);
    m.insert((2, addr(1)), 9u64);
    let bytes = delegation_registry::encode(&m);
    assert_eq!(bytes.len(), 8 + 32);
    let read = delegation_registry::decode(&bytes).unwrap();
    assert_eq!(read.get(&(1, addr(1))), None);
    assert_eq!(read.get(&(2, addr(1))), Some(&9));
    let mut zeroed = bytes.clone();
    zeroed[39] = 0;
    assert!(delegation_registry::decode(&zeroed).is_err());
    let mut doubled = bytes.clone();
    doubled.extend_from_slice(&bytes[8..]);
    doubled[7] = 2;
    assert!(delegation_registry::decode(&doubled).is_err());
}

#[test]
fn offense_codec_reads_back_and_rejects_kinds() {
    let mut m = OrderedMap::new();
    let rec = EquivocationRecord {
        kind: OffenseKind::InvalidBatch,
        slashed_at_l1_height: 77,
    };
    m.insert([4; 32], rec);
    let mut bytes = equivocation_registry::encode(&m);
    assert_eq!(equivocation_registry::decode(&bytes).unwrap(), m);
    bytes[8 + 32] = 9;
    assert!(matches!(
        equivocation_registry::decode(&bytes),
        Err(ExecutionError::CorruptStateRecord { .. })
    ));
}

#[test]
fn obligation_codec_reads_back() {
    let mut m = OrderedMap::new();
    for (i, status) in [
        ObligationStatus::Pending,
        ObligationStatus::Honored,
        ObligationStatus::Slashed,
    ]
    .into_iter()
    .enumerate()
    {
        m.insert(
            [i as u8; 32],
            ForceIncludeObligation {
                tx_hash: [9; 32],
                deadline_l1_height: 1 << 40,
                submitter: addr(3),
                l2_nonce: u64::MAX,
                status,
            },
        );
    }
    let bytes = force_include::encode_map(&m);
    assert_eq!(force_include::decode_map(&bytes).unwrap(), m);
    assert!(force_include::decode_map(&bytes[..bytes.len() - 1]).is_err());
    assert!(force_include::decode_map(&[]).unwrap().is_empty());
}

#[test]
fn validator_codec_keeps_stake_counters() {
    let mut s = InMemorySubstrate::from_balances(&[(addr(1), 100)]);
    seat(&mut s, RewardsRing::Validator, 1);
    seat(&mut s, RewardsRing::Validator, 2);
    let record = |s: &InMemorySubstrate| {
        s.read_bytes(&reserved::validator_registry_address()).unwrap()
    };
    let plain = record(&s);
    s.apply_intent(&deposit_validator(2, 30)).unwrap();
    let metered = record(&s);
    assert_eq!(metered.len(), plain.len() + 2 * 16);
    let read = validator_registry::decode(&metered).unwrap();
    assert_eq!(read.get(&2).unwrap().deposited_stake, 30);
    assert_eq!(validator_registry::encode(&read), metered);
    let read = validator_registry::decode(&plain).unwrap();
    assert_eq!(read.len(), 2);
    assert_eq!(read.get(&2).unwrap().deposited_stake, 0);
}

#[test]
fn ordered_maps_keep_their_keys_in_order() {
    let mut m = OrderedMap::new();
    for k in [5u32, 1, 9, 5] {
        m.insert(k, k * 10);
    }
    assert_eq!(m.entries(), &vec![(1, 10), (5, 50), (9, 90)]);
    assert_eq!(m.insert(9, 7), Some(90));
    assert_eq!(m.remove(&1), Some(10));
    assert_eq!(m.remove(&1), None);
    assert_eq!(m.len(), 2);
    let mut set = OrderedSet::new();
    assert!(set.insert([2u8; 4]));
    assert!(!set.insert([2u8; 4]));
    assert!(set.contains(&[2; 4]));
    assert!(!set.is_empty());
}

#[test]
fn debits_and_transfers_are_exact() {
    let mut s = InMemorySubstrate::from_balances(&[(addr(1), 10)]);
    s.debit_unchecked(addr(1), 4).unwrap();
    assert_eq!(s.balance(&addr(1)), 6);
    assert_eq!(
        s.debit_unchecked(addr(1), 7),
        Err(ExecutionError::InsufficientBalance {
            from: addr(1),
            have: 6,
            need: 7,
        })
    );
    s.transfer_internal(addr(1), addr(2), 6).unwrap();
    assert_eq!(s.entries(), &vec![(addr(2), 6)]);
}

#[test]
fn a_boxed_substrate_is_a_substrate() {
    let mut s: Box<dyn Substrate> = Box::new(InMemorySubstrate::from_balances(&[(addr(1), 10)]));
    let mut plain = InMemorySubstrate::from_balances(&[(addr(1), 10)]);
    let pay = Intent::Transfer {
        from: addr(1),
        to: addr(2),
        amount: 4,
    };
    s.set_current_block_height(6);
    s.apply_intent(&pay).unwrap();
    plain.apply_intent(&pay).unwrap();
    assert_eq!(s.current_block_height(), 6);
    assert_eq!(s.balance(&addr(2)), 4);
    assert_eq!(s.read_bytes(&reserved::l2_registry_address()), None);
    assert_eq!(s.l2_registry().state_roots.len(), 0);
    assert_eq!(s.state_root(), plain.state_root());
}

#[test]
fn a_burn_that_the_recipient_cannot_hold_changes_nothing() {
    let recipient = addr(2);
    let leaf = BurnLeaf {
        l2_chain_id_hash: &[0; 32],
        batch_id: 1,
        recipient: &recipient,
        amount: 5,
        asset_id: None,
    };
    let sibling = [7; 32];
    let root = hash_inner_node(&leaf.hash(), &sibling);
    let mut s = InMemorySubstrate::from_balances(&[
        (addr(1), 10),
        (addr(2), Balance::MAX - 4),
        (addr(3), 1),
    ]);
    s.pin_l2_state_root_for_test_with_root([0; 32], 1, root);
    s.apply_intent(&lock(addr(1), 10)).unwrap();
    let claim = Intent::L2BurnProven {
        batch_id: 1,
        recipient,
        amount: 5,
        merkle_path: sibling.to_vec(),
        path_directions: vec![0],
        asset_id: None,
        l2_chain_id_hash: [0; 32],
    };
    let before = s.state_root();
    for _ in 0..2 {
        assert_eq!(
            s.apply_intent(&claim),
            Err(ExecutionError::DistributionOverflow { to: addr(2) })
        );
        assert_eq!(s.state_root(), before);
        assert_eq!(s.burn_nullifier_count(), 0);
    }
    s.apply_intent(&Intent::Transfer {
        from: addr(2),
        to: addr(4),
        amount: 1,
    })
    .unwrap();
    s.apply_intent(&claim).unwrap();
    assert_eq!(s.balance(&addr(2)), Balance::MAX);
    assert_eq!(s.bridge_escrow_balance(), 5);
    assert_eq!(s.burn_nullifier_count(), 1);
    assert!(matches!(
        s.apply_intent(&claim),
        Err(ExecutionError::L2BurnAlreadyClaimed { .. })
    ));
    assert_eq!(s.burn_nullifier_count(), 1);
}

#[test]
fn settled_obligations_and_removed_assets_survive_what_follows() {
    let mut s = InMemorySubstrate::from_balances(&[(addr(1), 100)]);
    s.apply_intent(&Intent::L2ForceInclude {
        tx: b"tx".to_vec(),
        deadline_l1_height: 5,
        submitter: addr(2),
        l2_nonce: 0,
    })
    .unwrap();
    let id = obligation_id(b"tx", 5, &addr(2), 0);
    s.apply_intent(&Intent::MarkForceIncludeHonored { obligation_id: id })
        .unwrap();
    s.apply_intent(&Intent::AddBridgeAsset {
        source_chain: 1,
        source_contract: vec![7; 20],
        decimals: 6,
        name: b"USD Coin".to_vec(),
        symbol: b"USDC".to_vec(),
    })
    .unwrap();
    let asset = asset_id(1, &[7; 20]);
    s.apply_intent(&Intent::RemoveBridgeAsset { asset_id: asset })
        .unwrap();
    let obligation = s.force_include_obligation(&id);
    let record = s.bridge_asset(&asset);
    let later = Block {
        round: 3,
        intents: vec![
            Intent::MarkForceIncludeHonored { obligation_id: id },
            Intent::SlashSequencer {
                reason: SlashReason::MissedForceInclude,
                intent_hash: id,
            },
            Intent::PauseBridgeAsset { asset_id: asset },
            Intent::L2ForceInclude {
                tx: b"other".to_vec(),
                deadline_l1_height: 6,
                submitter: addr(2),
                l2_nonce: 1,
            },
            lock(addr(1), 10),
        ],
    };
    let report = execute_block(&mut s, &later);
    let settled = Err(ExecutionError::ForceIncludeNotPending {
        obligation_id: id,
        status: ObligationStatus::Honored,
    });
    assert_eq!(report.results[0], settled);
    assert_eq!(report.results[1], settled);
    assert_eq!(s.force_include_obligation(&id), obligation);
    assert_eq!(s.bridge_asset(&asset), record);
    assert_eq!(record.unwrap().status, AssetStatus::Removed);
}

#[test]
fn an_undelegation_moves_its_amount() {
    let mut s = InMemorySubstrate::from_balances(&[(addr(1), 100), (addr(2), 100)]);
    seat(&mut s, RewardsRing::Validator, 1);
    for who in [1, 2] {
        s.apply_intent(&Intent::Delegate {
            from: addr(who),
            validator_id: 1,
            amount: 50,
        })
        .unwrap();
    }
    for (height, amount) in [(3u64, 20u128), (4, 30)] {
        s.set_current_block_height(height);
        s.apply_intent(&Intent::UndelegateBegin {
            from: addr(1),
            validator_id: 1,
            amount,
        })
        .unwrap();
    }
    assert_eq!(s.delegation(1, addr(1)), 0);
    assert_eq!(s.total_unbonding_for(1, addr(1)), 50);
    assert_eq!(s.delegation(1, addr(2)), 50);
    assert_eq!(s.total_unbonding_for(1, addr(2)), 0);
    assert_eq!(s.total_delegated_to_validator(1), 50);
}

#[test]
fn minting_goes_by_epochs_in_order() {
    let mut s = InMemorySubstrate::from_balances(&[(reserved::treasury_address(), Balance::MAX)]);
    let mint = |epoch: u64, treasury_share: Balance| Intent::MintInflation {
        epoch,
        authority_share: 0,
        validator_share: 0,
        treasury_share,
    };
    assert!(s.apply_intent(&mint(2, 1)).is_err());
    assert_eq!(s.last_minted_inflation_epoch(), 0);
    s.apply_intent(&mint(2, 0)).unwrap();
    assert_eq!(s.last_minted_inflation_epoch(), 2);
    assert_eq!(
        s.apply_intent(&mint(2, 0)),
        Err(ExecutionError::InflationEpochAlreadyMinted {
            attempted_epoch: 2,
            last_minted_epoch: 2,
        })
    );
}

#[test]
fn a_box_runs_blocks_like_what_is_in_it() {
    let block = Block {
        round: 4,
        intents: vec![
            Intent::Transfer {
                from: addr(1),
                to: addr(2),
                amount: 6,
            },
            Intent::Transfer {
                from: addr(1),
                to: addr(2),
                amount: 6,
            },
        ],
    };
    let mut plain = InMemorySubstrate::from_balances(&[(addr(1), 10)]);
    let mut boxed: Box<dyn Substrate> = Box::new(plain.clone());
    let report = execute_block(&mut plain, &block);
    assert_eq!(execute_block_on(&mut boxed, &block), report);
    assert_eq!(boxed.current_block_height(), 4);
    assert_eq!(boxed.state_root(), plain.state_root());
    assert!(report.results[0].is_ok() && report.results[1].is_err());
}

#[test]
fn only_balances_that_are_not_zero_are_listed() {
    let mut s = InMemorySubstrate::from_balances(&[(addr(3), 5), (addr(1), 0), (addr(2), 7)]);
    assert_eq!(s.entries(), &vec![(addr(2), 7), (addr(3), 5)]);
    s.apply_intent(&Intent::Transfer {
        from: addr(2),
        to: addr(1),
        amount: 7,
    })
    .unwrap();
    assert_eq!(s.entries(), &vec![(addr(1), 7), (addr(3), 5)]);
}

#[test]
fn table_headers_hold_version_and_count() {
    assert_eq!(
        gsx_dag::eject_registry::encode(&OrderedMap::new()).len(),
        gsx_dag::eject_registry::ENCODED_HEADER_BYTES
    );
    assert_eq!(
        gsx_dag::burn_nullifier::encode(&OrderedSet::new()).len(),
        gsx_dag::burn_nullifier::ENCODED_HEADER_BYTES
    );
    assert_eq!(
        gsx_dag::da_anchor_registry::encode(&OrderedMap::new()).len(),
        gsx_dag::da_anchor_registry::ENCODED_HEADER_BYTES
    );
    assert_eq!(
        gsx_dag::unbonding_registry::encode(&OrderedMap::new()).len(),
        gsx_dag::unbonding_registry::ENCODED_HEADER_BYTES
    );
}

#[test]
fn a_commit_goes_by_what_was_found_of_its_proof() {
    let mut s = InMemorySubstrate::new();
    s.pin_l2_verifying_key_for_chain([0; 32], [4; 32], [5; 32]).unwrap();
    let rejected = |reason: &str| {
        Err(ExecutionError::L2VerifierRejected {
            reason: reason.to_string(),
        })
    };
    assert_eq!(s.apply_intent(&commit(1)), rejected("pairing was not run"));
    let root = s.state_root();
    s.set_pairings(vec![
        finding(1, Err("too early".to_string())),
        finding(2, Err("pairing does not hold".to_string())),
        finding(1, Ok(())),
    ]);
    assert_eq!(s.state_root(), root);
    assert_eq!(s.apply_intent(&commit(2)), rejected("pairing does not hold"));
    assert_eq!(s.apply_intent(&commit(3)), rejected("pairing was not run"));
    let mut copy = s.clone();
    for state in [&mut s, &mut copy] {
        state.apply_intent(&commit(1)).unwrap();
        let key = L2BatchKey {
            l2_chain_id_hash: [0; 32],
            batch_id: 1,
        };
        assert_eq!(
            state.l2_state_root_record(&key).unwrap().state_root,
            [7; 32]
        );
        assert_eq!(state.l2_commit_count(), 1);
    }
    s.set_pairings(vec![]);
    assert_eq!(s.apply_intent(&commit(1)), rejected("pairing was not run"));
}

#[test]
fn blocks_commit_what_was_found_to_hold() {
    let block = Block {
        round: 3,
        intents: vec![commit(1), commit(2)],
    };
    let mut s = InMemorySubstrate::new();
    s.pin_l2_verifying_key_for_chain([0; 32], [4; 32], [5; 32]).unwrap();
    s.set_pairings(vec![finding(2, Ok(()))]);
    let mut boxed: Box<dyn Substrate> = Box::new(s.clone());
    let report = execute_block(&mut s, &block);
    assert!(report.results[0].is_err());
    assert!(report.results[1].is_ok());
    assert_eq!(s.l2_commit_count(), 1);
    assert_eq!(execute_block_on(&mut boxed, &block), report);
}

#[test]
fn a_rehearsal_without_the_switch_asks_for_a_proof() {
    let mut s = InMemorySubstrate::from_balances(&[(addr(1), 10)]);
    s.pin_l2_state_root_for_test([0; 32], 1);
    s.apply_intent(&lock(addr(1), 5)).unwrap();
    let claim = burn(addr(2), 5, 1);
    for r in [
        s.rehearse_intent(&claim, &proven(), false),
        s.apply_intent_with(&claim, &proven()),
        s.apply_intent(&claim),
    ] {
        assert_eq!(
            r,
            Err(ExecutionError::L2BurnMerkleProofRejected {
                reason: BridgeError::MerkleRootMismatch,
            })
        );
    }
    s.rehearse_intent(&claim, &proven(), true).unwrap();
    assert_eq!(s.balance(&addr(2)), 5);
}
