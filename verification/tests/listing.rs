use gsx_dag::apply::HostEvidence;
use gsx_dag::asset_registry::{
    AssetStatus,
    MAX_ASSET_NAME_BYTES,
    MAX_ASSET_SYMBOL_BYTES,
    MAX_SOURCE_CONTRACT_BYTES,
    asset_id,
};
use gsx_dag::error::ExecutionError;
use gsx_dag::force_include::obligation_id;
use gsx_dag::intent::{Intent, SlashReason};
use gsx_dag::reserved;
use gsx_dag::sequencing::{SNITCH_BOUNTY_CAP, snitch_bounty_amount};
use gsx_dag::substrate::{Address, InMemorySubstrate, Substrate};

fn evidence(proven: bool) -> HostEvidence {
    let pairing = if proven { Ok(()) } else { Err("pairing was not run".to_string()) };
    HostEvidence { pairing }
}

fn addr(seed: u8) -> Address {
    [seed; 20]
}

fn register_active_usdc(s: &mut InMemorySubstrate) -> [u8; 32] {
    s.apply_intent(&Intent::AddBridgeAsset {
        source_chain: 1,
        source_contract: vec![0xaa; 20],
        decimals: 6,
        name: b"USD Coin".to_vec(),
        symbol: b"USDC".to_vec(),
    })
    .unwrap();
    asset_id(1, &[0xaa; 20])
}

#[test]
fn add_bridge_asset_registers_active_record() {
    let mut s = InMemorySubstrate::new();
    let intent = Intent::AddBridgeAsset {
        source_chain: 1,
        source_contract: vec![0xab; 20],
        decimals: 6,
        name: b"USD Coin".to_vec(),
        symbol: b"USDC".to_vec(),
    };
    s.apply_intent(&intent).unwrap();

    let id = asset_id(1, &[0xab; 20]);
    let rec = s.bridge_asset(&id).expect("asset registered");
    assert_eq!(rec.status, AssetStatus::Active);
    assert_eq!(rec.decimals, 6);
    assert_eq!(rec.name, b"USD Coin");
    assert_eq!(rec.symbol, b"USDC");
    assert_eq!(s.bridge_asset_count(), 1);
}

#[test]
fn add_bridge_asset_replay_rejected() {
    let mut s = InMemorySubstrate::new();
    let intent = Intent::AddBridgeAsset {
        source_chain: 1,
        source_contract: vec![0xab; 20],
        decimals: 6,
        name: b"USD Coin".to_vec(),
        symbol: b"USDC".to_vec(),
    };
    s.apply_intent(&intent).unwrap();
    let err = s.apply_intent(&intent);
    assert!(matches!(
        err,
        Err(ExecutionError::BridgeAssetAlreadyRegistered { .. })
    ));
}

#[test]
fn add_bridge_asset_multi_chain_isolation() {
    let mut s = InMemorySubstrate::new();
    s.apply_intent(&Intent::AddBridgeAsset {
        source_chain: 1,
        source_contract: vec![0xab; 20],
        decimals: 6,
        name: b"USD Coin".to_vec(),
        symbol: b"USDC".to_vec(),
    })
    .unwrap();
    s.apply_intent(&Intent::AddBridgeAsset {
        source_chain: 101,
        source_contract: vec![0xab; 20],
        decimals: 6,
        name: b"USD Coin".to_vec(),
        symbol: b"USDC".to_vec(),
    })
    .unwrap();
    assert_eq!(s.bridge_asset_count(), 2);
}

#[test]
fn pause_bridge_asset_flips_status() {
    let mut s = InMemorySubstrate::new();
    s.apply_intent(&Intent::AddBridgeAsset {
        source_chain: 1,
        source_contract: vec![0xab; 20],
        decimals: 6,
        name: b"USD Coin".to_vec(),
        symbol: b"USDC".to_vec(),
    })
    .unwrap();
    let id = asset_id(1, &[0xab; 20]);
    s.apply_intent(&Intent::PauseBridgeAsset { asset_id: id })
        .unwrap();
    assert_eq!(s.bridge_asset(&id).unwrap().status, AssetStatus::Paused);
    assert_eq!(s.bridge_asset_count(), 1);
}

#[test]
fn remove_bridge_asset_flips_status() {
    let mut s = InMemorySubstrate::new();
    s.apply_intent(&Intent::AddBridgeAsset {
        source_chain: 1,
        source_contract: vec![0xab; 20],
        decimals: 6,
        name: b"USD Coin".to_vec(),
        symbol: b"USDC".to_vec(),
    })
    .unwrap();
    let id = asset_id(1, &[0xab; 20]);
    s.apply_intent(&Intent::RemoveBridgeAsset { asset_id: id })
        .unwrap();
    assert_eq!(s.bridge_asset(&id).unwrap().status, AssetStatus::Removed);
    assert_eq!(s.bridge_asset_count(), 1);
}

#[test]
fn pause_remove_unknown_asset_rejected() {
    let mut s = InMemorySubstrate::new();
    let err = s.apply_intent(&Intent::PauseBridgeAsset {
        asset_id: [0xff; 32],
    });
    assert!(matches!(
        err,
        Err(ExecutionError::BridgeAssetNotFound { .. })
    ));
    let err = s.apply_intent(&Intent::RemoveBridgeAsset {
        asset_id: [0xff; 32],
    });
    assert!(matches!(
        err,
        Err(ExecutionError::BridgeAssetNotFound { .. })
    ));
}

#[test]
fn add_bridge_asset_rejects_oversized_fields() {
    let mut s = InMemorySubstrate::new();
    let err = s.apply_intent(&Intent::AddBridgeAsset {
        source_chain: 1,
        source_contract: vec![0xab; MAX_SOURCE_CONTRACT_BYTES + 1],
        decimals: 6,
        name: b"USD Coin".to_vec(),
        symbol: b"USDC".to_vec(),
    });
    assert!(matches!(
        err,
        Err(ExecutionError::BridgeAssetFieldTooLong {
            field: "source_contract",
            ..
        })
    ));
    let err = s.apply_intent(&Intent::AddBridgeAsset {
        source_chain: 1,
        source_contract: vec![0xab; 20],
        decimals: 6,
        name: vec![0x41; MAX_ASSET_NAME_BYTES + 1],
        symbol: b"USDC".to_vec(),
    });
    assert!(matches!(
        err,
        Err(ExecutionError::BridgeAssetFieldTooLong { field: "name", .. })
    ));
    let err = s.apply_intent(&Intent::AddBridgeAsset {
        source_chain: 1,
        source_contract: vec![0xab; 20],
        decimals: 6,
        name: b"USD Coin".to_vec(),
        symbol: vec![0x42; MAX_ASSET_SYMBOL_BYTES + 1],
    });
    assert!(matches!(
        err,
        Err(ExecutionError::BridgeAssetFieldTooLong {
            field: "symbol",
            ..
        })
    ));
}

#[test]
fn asset_registry_changes_shift_state_root() {
    let mut s = InMemorySubstrate::new();
    let r0 = s.state_root();
    s.apply_intent(&Intent::AddBridgeAsset {
        source_chain: 1,
        source_contract: vec![0xab; 20],
        decimals: 6,
        name: b"USD Coin".to_vec(),
        symbol: b"USDC".to_vec(),
    })
    .unwrap();
    let r1 = s.state_root();
    assert_ne!(r0, r1);

    let id = asset_id(1, &[0xab; 20]);
    s.apply_intent(&Intent::PauseBridgeAsset { asset_id: id })
        .unwrap();
    let r2 = s.state_root();
    assert_ne!(r1, r2);

    s.apply_intent(&Intent::RemoveBridgeAsset { asset_id: id })
        .unwrap();
    let r3 = s.state_root();
    assert_ne!(r2, r3);
}

#[test]
fn snitch_bounty_amount_is_10pct_below_cap() {
    assert_eq!(snitch_bounty_amount(0), 0);
    assert_eq!(snitch_bounty_amount(1_000), 100);
    assert_eq!(snitch_bounty_amount(50_000), 5_000);
    assert_eq!(snitch_bounty_amount(9_999_999), 999_999);
}

#[test]
fn snitch_bounty_amount_caps_at_1m() {
    assert_eq!(snitch_bounty_amount(10_000_000), SNITCH_BOUNTY_CAP);
    assert_eq!(snitch_bounty_amount(100_000_000), SNITCH_BOUNTY_CAP);
    assert_eq!(snitch_bounty_amount(u128::MAX / 100), SNITCH_BOUNTY_CAP);
}

#[test]
fn slash_sequencer_caps_snitch_bounty_at_1m() {
    let mut s = InMemorySubstrate::new();
    s.fund_sequencer_bond(1_000_000_000).unwrap();
    let tx = b"huge".to_vec();
    s.apply_intent(&Intent::L2ForceInclude {
        tx: tx.clone(),
        deadline_l1_height: 200,
        submitter: addr(8),
        l2_nonce: 1,
    })
    .unwrap();
    let id = obligation_id(&tx, 200, &addr(8), 1);

    s.apply_intent(&Intent::SlashSequencer {
        reason: SlashReason::MissedForceInclude,
        intent_hash: id,
    })
    .unwrap();

    assert_eq!(s.sequencer_bond_balance(), 950_000_000);
    assert_eq!(s.balance(&reserved::insurance_pool_address()), 35_000_000);
    assert_eq!(s.balance(&reserved::treasury_address()), 14_000_000);
    assert_eq!(s.balance(&addr(8)), SNITCH_BOUNTY_CAP);
}

#[test]
fn slash_sequencer_empty_bond_pays_no_bounty() {
    let mut s = InMemorySubstrate::new();
    let tx = b"nobond".to_vec();
    s.apply_intent(&Intent::L2ForceInclude {
        tx: tx.clone(),
        deadline_l1_height: 50,
        submitter: addr(9),
        l2_nonce: 1,
    })
    .unwrap();
    let id = obligation_id(&tx, 50, &addr(9), 1);

    s.apply_intent(&Intent::SlashSequencer {
        reason: SlashReason::MissedForceInclude,
        intent_hash: id,
    })
    .unwrap();

    assert_eq!(s.balance(&reserved::treasury_address()), 0);
    assert_eq!(s.balance(&addr(9)), 0);
}

#[test]
fn slash_sequencer_skips_bounty_to_reserved_submitter() {
    let mut s = InMemorySubstrate::new();
    s.fund_sequencer_bond(1_000_000).unwrap();
    let tx = b"reserved-snitch".to_vec();
    let bad_submitter = reserved::treasury_address();
    s.apply_intent(&Intent::L2ForceInclude {
        tx: tx.clone(),
        deadline_l1_height: 100,
        submitter: bad_submitter,
        l2_nonce: 1,
    })
    .unwrap();
    let id = obligation_id(&tx, 100, &bad_submitter, 1);

    s.apply_intent(&Intent::SlashSequencer {
        reason: SlashReason::MissedForceInclude,
        intent_hash: id,
    })
    .unwrap();

    assert_eq!(s.sequencer_bond_balance(), 950_000);
    assert_eq!(s.balance(&reserved::insurance_pool_address()), 35_000);
    assert_eq!(s.balance(&reserved::treasury_address()), 15_000);
}

#[test]
fn slash_sequencer_partial_bounty_when_treasury_shallow() {
    let mut s = InMemorySubstrate::new();
    s.fund_sequencer_bond(1_000_000).unwrap();

    let tx1 = b"first".to_vec();
    s.apply_intent(&Intent::L2ForceInclude {
        tx: tx1.clone(),
        deadline_l1_height: 100,
        submitter: addr(10),
        l2_nonce: 1,
    })
    .unwrap();
    let id1 = obligation_id(&tx1, 100, &addr(10), 1);
    s.apply_intent(&Intent::SlashSequencer {
        reason: SlashReason::MissedForceInclude,
        intent_hash: id1,
    })
    .unwrap();
    assert_eq!(s.balance(&reserved::treasury_address()), 10_000);
    assert_eq!(s.balance(&addr(10)), 5_000);

    let tx2 = b"second".to_vec();
    s.apply_intent(&Intent::L2ForceInclude {
        tx: tx2.clone(),
        deadline_l1_height: 200,
        submitter: addr(10),
        l2_nonce: 2,
    })
    .unwrap();
    let id2 = obligation_id(&tx2, 200, &addr(10), 2);
    s.apply_intent(&Intent::SlashSequencer {
        reason: SlashReason::MissedForceInclude,
        intent_hash: id2,
    })
    .unwrap();
    assert_eq!(s.sequencer_bond_balance(), 902_500);
    assert_eq!(s.balance(&reserved::insurance_pool_address()), 68_250);
    assert_eq!(s.balance(&reserved::treasury_address()), 19_500);
    assert_eq!(s.balance(&addr(10)), 9_750);
}

#[test]
fn l1_lock_with_active_asset_succeeds() {
    let mut s = InMemorySubstrate::from_balances(&[(addr(1), 1_000)]);
    let id = register_active_usdc(&mut s);
    s.apply_intent(&Intent::L1Lock {
        user_address: addr(1),
        l2_recipient: addr(2),
        amount: 250,
        asset_id: Some(id),
    })
    .unwrap();
    assert_eq!(s.balance(&addr(1)), 750);
    assert_eq!(s.bridge_escrow_balance(), 250);
}

#[test]
fn l1_lock_unknown_asset_rejected() {
    let mut s = InMemorySubstrate::from_balances(&[(addr(1), 1_000)]);
    let before = s.state_root();
    let err = s.apply_intent(&Intent::L1Lock {
        user_address: addr(1),
        l2_recipient: addr(2),
        amount: 250,
        asset_id: Some([0xde; 32]),
    });
    assert!(matches!(
        err,
        Err(ExecutionError::BridgeAssetNotFound { .. })
    ));
    assert_eq!(s.balance(&addr(1)), 1_000);
    assert_eq!(s.bridge_escrow_balance(), 0);
    assert_eq!(s.state_root(), before, "rejection must roll back state");
}

#[test]
fn l1_lock_paused_asset_rejected() {
    let mut s = InMemorySubstrate::from_balances(&[(addr(1), 1_000)]);
    let id = register_active_usdc(&mut s);
    s.apply_intent(&Intent::PauseBridgeAsset { asset_id: id })
        .unwrap();

    let err = s.apply_intent(&Intent::L1Lock {
        user_address: addr(1),
        l2_recipient: addr(2),
        amount: 250,
        asset_id: Some(id),
    });
    assert!(matches!(
        err,
        Err(ExecutionError::BridgeAssetNotActive { .. })
    ));
    assert_eq!(s.balance(&addr(1)), 1_000);
    assert_eq!(s.bridge_escrow_balance(), 0);
}

#[test]
fn l1_lock_removed_asset_rejected() {
    let mut s = InMemorySubstrate::from_balances(&[(addr(1), 1_000)]);
    let id = register_active_usdc(&mut s);
    s.apply_intent(&Intent::RemoveBridgeAsset { asset_id: id })
        .unwrap();

    let err = s.apply_intent(&Intent::L1Lock {
        user_address: addr(1),
        l2_recipient: addr(2),
        amount: 250,
        asset_id: Some(id),
    });
    assert!(matches!(
        err,
        Err(ExecutionError::BridgeAssetNotActive { .. })
    ));
}

#[test]
fn l2_burn_proven_unknown_asset_rejected() {
    let mut s = InMemorySubstrate::from_balances(&[(addr(1), 1_000)]);
    s.apply_intent(&Intent::L1Lock {
        user_address: addr(1),
        l2_recipient: addr(2),
        amount: 500,
        asset_id: None,
    })
    .unwrap();

    let err = s.apply_intent(&Intent::L2BurnProven {
        batch_id: 7,
        recipient: addr(3),
        amount: 100,
        merkle_path: vec![0xab; 32],
        path_directions: vec![],
        asset_id: Some([0xde; 32]),
        l2_chain_id_hash: [0u8; 32],
    });
    assert!(matches!(
        err,
        Err(ExecutionError::BridgeAssetNotFound { .. })
    ));
    assert_eq!(s.bridge_escrow_balance(), 500);
}

#[test]
fn l2_burn_proven_paused_asset_rejected() {
    let mut s = InMemorySubstrate::from_balances(&[(addr(1), 1_000)]);
    let id = register_active_usdc(&mut s);
    s.apply_intent(&Intent::L1Lock {
        user_address: addr(1),
        l2_recipient: addr(2),
        amount: 250,
        asset_id: Some(id),
    })
    .unwrap();
    s.apply_intent(&Intent::PauseBridgeAsset { asset_id: id })
        .unwrap();

    let err = s.apply_intent(&Intent::L2BurnProven {
        batch_id: 7,
        recipient: addr(3),
        amount: 100,
        merkle_path: vec![0xab; 32],
        path_directions: vec![],
        asset_id: Some(id),
        l2_chain_id_hash: [0u8; 32],
    });
    assert!(matches!(
        err,
        Err(ExecutionError::BridgeAssetNotActive { .. })
    ));
}

#[test]
fn bridge_round_trip_with_active_asset() {
    let mut s = InMemorySubstrate::from_balances(&[(addr(1), 1_000)]);
    let id = register_active_usdc(&mut s);
    s.rehearse_intent(&Intent::L1Lock {
        user_address: addr(1),
        l2_recipient: addr(2),
        amount: 400,
        asset_id: Some(id),
    }, &evidence(false), true)
    .unwrap();
    assert_eq!(s.bridge_escrow_balance(), 400);
    s.pin_l2_state_root_for_test([0u8; 32], 1);

    s.rehearse_intent(&Intent::L2BurnProven {
        batch_id: 1,
        recipient: addr(3),
        amount: 400,
        merkle_path: vec![0xab; 32],
        path_directions: vec![],
        asset_id: Some(id),
        l2_chain_id_hash: [0u8; 32],
    }, &evidence(false), true)
    .unwrap();
    assert_eq!(s.bridge_escrow_balance(), 0);
    assert_eq!(s.balance(&addr(3)), 400);
}

#[test]
fn l1_lock_native_gsx_path_unaffected() {
    let mut s = InMemorySubstrate::from_balances(&[(addr(1), 1_000)]);
    assert_eq!(s.bridge_asset_count(), 0);
    s.apply_intent(&Intent::L1Lock {
        user_address: addr(1),
        l2_recipient: addr(2),
        amount: 250,
        asset_id: None,
    })
    .unwrap();
    assert_eq!(s.balance(&addr(1)), 750);
    assert_eq!(s.bridge_escrow_balance(), 250);
}
