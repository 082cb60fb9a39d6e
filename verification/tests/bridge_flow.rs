use gsx_dag::apply::HostEvidence;
use gsx_dag::error::ExecutionError;
use gsx_dag::intent::Intent;
use gsx_dag::reserved;
use gsx_dag::substrate::{Address, Balance, InMemorySubstrate, Substrate};

fn evidence(proven: bool) -> HostEvidence {
    let pairing = if proven { Ok(()) } else { Err("pairing was not run".to_string()) };
    HostEvidence { pairing }
}

fn addr(seed: u8) -> Address {
    [seed; 20]
}

#[test]
fn l1_lock_debits_user_credits_escrow() {
    let mut s = InMemorySubstrate::from_balances(&[(addr(1), 100)]);
    let intent = Intent::L1Lock {
        user_address: addr(1),
        l2_recipient: addr(2),
        amount: 25,
        asset_id: None,
    };
    assert!(s.apply_intent(&intent).is_ok());
    assert_eq!(s.balance(&addr(1)), 75);
    assert_eq!(s.bridge_escrow_balance(), 25);
}

#[test]
fn l1_lock_insufficient_balance_atomic_reject() {
    let mut s = InMemorySubstrate::from_balances(&[(addr(1), 10)]);
    let before = s.state_root();
    let intent = Intent::L1Lock {
        user_address: addr(1),
        l2_recipient: addr(2),
        amount: 25,
        asset_id: None,
    };
    assert!(matches!(
        s.apply_intent(&intent),
        Err(ExecutionError::InsufficientBalance { .. })
    ));
    assert_eq!(s.state_root(), before, "state must roll back on reject");
}

#[test]
fn l1_lock_zero_amount_is_noop() {
    let mut s = InMemorySubstrate::from_balances(&[(addr(1), 100)]);
    let before = s.state_root();
    assert!(s
        .apply_intent(&Intent::L1Lock {
            user_address: addr(1),
            l2_recipient: addr(2),
            amount: 0,
            asset_id: None,
        })
        .is_ok());
    assert_eq!(s.state_root(), before);
}

#[test]
fn l2_burn_proven_drains_escrow() {
    let mut s = InMemorySubstrate::from_balances(&[(addr(1), 100)]);
    s.rehearse_intent(&Intent::L1Lock {
        user_address: addr(1),
        l2_recipient: addr(2),
        amount: 25,
        asset_id: None,
    }, &evidence(false), true)
    .unwrap();
    assert_eq!(s.bridge_escrow_balance(), 25);
    s.pin_l2_state_root_for_test([0u8; 32], 7);
    s.rehearse_intent(&Intent::L2BurnProven {
        batch_id: 7,
        recipient: addr(1),
        amount: 25,
        merkle_path: vec![0xab; 256],
        path_directions: vec![],
        asset_id: None,
        l2_chain_id_hash: [0u8; 32],
    }, &evidence(false), true)
    .unwrap();
    assert_eq!(s.bridge_escrow_balance(), 0);
    assert_eq!(s.balance(&addr(1)), 100, "round-trip conserves balance");
}

#[test]
fn l2_burn_proven_insufficient_escrow_rejected() {
    let mut s = InMemorySubstrate::from_balances(&[(addr(1), 100)]);
    s.pin_l2_state_root_for_test([0u8; 32], 7);
    let intent = Intent::L2BurnProven {
        batch_id: 7,
        recipient: addr(1),
        amount: 25,
        merkle_path: vec![0xab; 256],
        path_directions: vec![],
        asset_id: None,
        l2_chain_id_hash: [0u8; 32],
    };
    assert!(matches!(
        s.rehearse_intent(&intent, &evidence(false), true),
        Err(ExecutionError::InsufficientBalance { .. })
    ));
}

#[test]
fn l2_burn_proven_reserved_recipient_rejected() {
    let mut s = InMemorySubstrate::from_balances(&[(addr(1), 100)]);
    s.rehearse_intent(&Intent::L1Lock {
        user_address: addr(1),
        l2_recipient: addr(2),
        amount: 25,
        asset_id: None,
    }, &evidence(false), true)
    .unwrap();
    s.pin_l2_state_root_for_test([0u8; 32], 7);
    let intent = Intent::L2BurnProven {
        batch_id: 7,
        recipient: reserved::treasury_address(),
        amount: 25,
        merkle_path: vec![0xab; 256],
        path_directions: vec![],
        asset_id: None,
        l2_chain_id_hash: [0u8; 32],
    };
    assert!(matches!(
        s.rehearse_intent(&intent, &evidence(false), true),
        Err(ExecutionError::ReservedAddressTransferDenied { .. })
    ));
}

#[test]
fn bridge_accounting_invariant_holds_across_sequence() {
    let mut s = InMemorySubstrate::from_balances(&[(addr(1), 1000), (addr(2), 500)]);
    s.rehearse_intent(&Intent::L1Lock {
        user_address: addr(1),
        l2_recipient: addr(3),
        amount: 100,
        asset_id: None,
    }, &evidence(false), true)
    .unwrap();
    assert_eq!(s.bridge_escrow_balance(), 100);
    s.rehearse_intent(&Intent::L1Lock {
        user_address: addr(2),
        l2_recipient: addr(4),
        amount: 50,
        asset_id: None,
    }, &evidence(false), true)
    .unwrap();
    assert_eq!(s.bridge_escrow_balance(), 150);
    s.pin_l2_state_root_for_test([0u8; 32], 1);
    s.pin_l2_state_root_for_test([0u8; 32], 2);
    s.rehearse_intent(&Intent::L2BurnProven {
        batch_id: 1,
        recipient: addr(5),
        amount: 70,
        merkle_path: vec![0xab; 32],
        path_directions: vec![],
        asset_id: None,
        l2_chain_id_hash: [0u8; 32],
    }, &evidence(false), true)
    .unwrap();
    assert_eq!(s.bridge_escrow_balance(), 80);
    assert_eq!(s.balance(&addr(5)), 70);
    s.rehearse_intent(&Intent::L2BurnProven {
        batch_id: 2,
        recipient: addr(6),
        amount: 80,
        merkle_path: vec![0xab; 32],
        path_directions: vec![],
        asset_id: None,
        l2_chain_id_hash: [0u8; 32],
    }, &evidence(false), true)
    .unwrap();
    assert_eq!(s.bridge_escrow_balance(), 0);
    assert_eq!(s.balance(&addr(6)), 80);
    let total: Balance = s.entries().iter().map(|(_, b)| *b).sum();
    assert_eq!(
        total, 1500,
        "total supply preserved across bridge round-trip"
    );
}
