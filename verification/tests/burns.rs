use gsx_dag::apply::HostEvidence;
use gsx_dag::bridge::{BurnLeaf, hash_inner_node};
use gsx_dag::error::ExecutionError;
use gsx_dag::intent::Intent;
use gsx_dag::reserved;
use gsx_dag::substrate::{Address, InMemorySubstrate, Substrate};

fn evidence(proven: bool) -> HostEvidence {
    let pairing = if proven { Ok(()) } else { Err("pairing was not run".to_string()) };
    HostEvidence { pairing }
}

fn addr(seed: u8) -> Address {
    [seed; 20]
}

fn depth_one_tree(leaf_hash: [u8; 32], sibling: [u8; 32]) -> ([u8; 32], Vec<u8>, Vec<u8>) {
    let root = hash_inner_node(&leaf_hash, &sibling);
    (root, sibling.to_vec(), vec![0u8])
}

#[test]
fn l2_burn_proven_uncommitted_batch_rejected() {
    let mut s = InMemorySubstrate::from_balances(&[(addr(1), 1_000)]);
    s.apply_intent(&Intent::L1Lock {
        user_address: addr(1),
        l2_recipient: addr(2),
        amount: 500,
        asset_id: None,
    })
    .unwrap();
    let err = s.apply_intent(&Intent::L2BurnProven {
        batch_id: 99,
        recipient: addr(3),
        amount: 100,
        merkle_path: vec![0xab; 32],
        path_directions: vec![],
        asset_id: None,
        l2_chain_id_hash: [0u8; 32],
    });
    assert!(matches!(
        err,
        Err(ExecutionError::L2BatchNotCommitted { .. })
    ));
    assert_eq!(s.bridge_escrow_balance(), 500);
    assert_eq!(s.balance(&addr(3)), 0);
}

#[test]
fn l2_burn_proven_committed_batch_succeeds() {
    let mut s = InMemorySubstrate::from_balances(&[(addr(1), 1_000)]);
    s.rehearse_intent(&Intent::L1Lock {
        user_address: addr(1),
        l2_recipient: addr(2),
        amount: 500,
        asset_id: None,
    }, &evidence(false), true)
    .unwrap();
    s.pin_l2_state_root_for_test([0u8; 32], 42);

    s.rehearse_intent(&Intent::L2BurnProven {
        batch_id: 42,
        recipient: addr(3),
        amount: 100,
        merkle_path: vec![0xab; 32],
        path_directions: vec![],
        asset_id: None,
        l2_chain_id_hash: [0u8; 32],
    }, &evidence(false), true)
    .unwrap();

    assert_eq!(s.bridge_escrow_balance(), 400);
    assert_eq!(s.balance(&addr(3)), 100);
}

#[test]
fn l2_burn_proven_wrong_chain_hash_rejected() {
    let mut s = InMemorySubstrate::from_balances(&[(addr(1), 1_000)]);
    s.rehearse_intent(&Intent::L1Lock {
        user_address: addr(1),
        l2_recipient: addr(2),
        amount: 500,
        asset_id: None,
    }, &evidence(false), true)
    .unwrap();
    let chain_a = [0xaa; 32];
    let chain_b = [0xbb; 32];
    s.pin_l2_state_root_for_test(chain_a, 42);

    let err = s.rehearse_intent(&Intent::L2BurnProven {
        batch_id: 42,
        recipient: addr(3),
        amount: 100,
        merkle_path: vec![0xab; 32],
        path_directions: vec![],
        asset_id: None,
        l2_chain_id_hash: chain_b,
    }, &evidence(false), true);
    assert!(matches!(
        err,
        Err(ExecutionError::L2BatchNotCommitted { .. })
    ));

    s.rehearse_intent(&Intent::L2BurnProven {
        batch_id: 42,
        recipient: addr(3),
        amount: 100,
        merkle_path: vec![0xab; 32],
        path_directions: vec![],
        asset_id: None,
        l2_chain_id_hash: chain_a,
    }, &evidence(false), true)
    .unwrap();
    assert_eq!(s.balance(&addr(3)), 100);
}

#[test]
fn l2_burn_proven_uncommitted_rejects_before_balance_check() {
    let mut s = InMemorySubstrate::from_balances(&[(addr(1), 1_000)]);
    let before = s.state_root();
    let err = s.apply_intent(&Intent::L2BurnProven {
        batch_id: 1,
        recipient: addr(3),
        amount: 100,
        merkle_path: vec![],
        path_directions: vec![],
        asset_id: None,
        l2_chain_id_hash: [0u8; 32],
    });
    assert!(matches!(
        err,
        Err(ExecutionError::L2BatchNotCommitted { .. })
    ));
    assert_eq!(s.state_root(), before);
}

#[test]
fn l2_burn_proven_zero_amount_skips_gate() {
    let mut s = InMemorySubstrate::new();
    let before = s.state_root();
    s.apply_intent(&Intent::L2BurnProven {
        batch_id: 999,
        recipient: addr(1),
        amount: 0,
        merkle_path: vec![],
        path_directions: vec![],
        asset_id: None,
        l2_chain_id_hash: [0u8; 32],
    })
    .unwrap();
    assert_eq!(s.state_root(), before);
}

#[test]
fn pin_l2_state_root_for_test_round_trips() {
    let mut s = InMemorySubstrate::new();
    assert_eq!(s.l2_commit_count(), 0);
    s.pin_l2_state_root_for_test([0xab; 32], 7);
    assert_eq!(s.l2_commit_count(), 1);
    let key = gsx_dag::l2_state::L2BatchKey {
        l2_chain_id_hash: [0xab; 32],
        batch_id: 7,
    };
    assert!(s.l2_state_root_record(&key).is_some());
    let other = gsx_dag::l2_state::L2BatchKey {
        l2_chain_id_hash: [0xcd; 32],
        batch_id: 7,
    };
    assert!(s.l2_state_root_record(&other).is_none());
}

#[test]
fn deposit_sequencer_bond_credits_bond() {
    let mut s = InMemorySubstrate::from_balances(&[(addr(1), 5_000_000)]);
    s.apply_intent(&Intent::DepositSequencerBond {
        from: addr(1),
        amount: 3_000_000,
    })
    .unwrap();
    assert_eq!(s.balance(&addr(1)), 2_000_000);
    assert_eq!(s.sequencer_bond_balance(), 3_000_000);
    assert_eq!(s.safety_bond_balance(), 0);
}

#[test]
fn deposit_sequencer_bond_insufficient_balance_atomic() {
    let mut s = InMemorySubstrate::from_balances(&[(addr(1), 100)]);
    let before = s.state_root();
    let err = s.apply_intent(&Intent::DepositSequencerBond {
        from: addr(1),
        amount: 1_000,
    });
    assert!(matches!(
        err,
        Err(ExecutionError::InsufficientBalance { .. })
    ));
    assert_eq!(s.balance(&addr(1)), 100);
    assert_eq!(s.sequencer_bond_balance(), 0);
    assert_eq!(s.state_root(), before);
}

#[test]
fn deposit_sequencer_bond_zero_amount_is_noop() {
    let mut s = InMemorySubstrate::from_balances(&[(addr(1), 1_000)]);
    let before = s.state_root();
    s.apply_intent(&Intent::DepositSequencerBond {
        from: addr(1),
        amount: 0,
    })
    .unwrap();
    assert_eq!(s.balance(&addr(1)), 1_000);
    assert_eq!(s.sequencer_bond_balance(), 0);
    assert_eq!(s.state_root(), before);
}

#[test]
fn deposit_sequencer_bond_reserved_from_rejected() {
    let mut s = InMemorySubstrate::new();
    s.credit_unchecked(reserved::treasury_address(), 1_000)
        .unwrap();
    let err = s.apply_intent(&Intent::DepositSequencerBond {
        from: reserved::treasury_address(),
        amount: 500,
    });
    assert!(matches!(
        err,
        Err(ExecutionError::ReservedAddressTransferDenied { .. })
    ));
    assert_eq!(s.balance(&reserved::treasury_address()), 1_000);
}

#[test]
fn deposit_safety_bond_credits_bond() {
    let mut s = InMemorySubstrate::from_balances(&[(addr(1), 20_000_000)]);
    s.apply_intent(&Intent::DepositSafetyBond {
        from: addr(1),
        amount: 15_000_000,
    })
    .unwrap();
    assert_eq!(s.balance(&addr(1)), 5_000_000);
    assert_eq!(s.safety_bond_balance(), 15_000_000);
    assert_eq!(s.sequencer_bond_balance(), 0);
}

#[test]
fn deposit_safety_bond_insufficient_balance_atomic() {
    let mut s = InMemorySubstrate::from_balances(&[(addr(1), 100)]);
    let err = s.apply_intent(&Intent::DepositSafetyBond {
        from: addr(1),
        amount: 1_000,
    });
    assert!(matches!(
        err,
        Err(ExecutionError::InsufficientBalance { .. })
    ));
    assert_eq!(s.balance(&addr(1)), 100);
    assert_eq!(s.safety_bond_balance(), 0);
}

#[test]
fn deposit_safety_bond_zero_amount_is_noop() {
    let mut s = InMemorySubstrate::from_balances(&[(addr(1), 1_000)]);
    s.apply_intent(&Intent::DepositSafetyBond {
        from: addr(1),
        amount: 0,
    })
    .unwrap();
    assert_eq!(s.balance(&addr(1)), 1_000);
    assert_eq!(s.safety_bond_balance(), 0);
}

#[test]
fn deposit_safety_bond_reserved_from_rejected() {
    let mut s = InMemorySubstrate::new();
    s.credit_unchecked(reserved::insurance_pool_address(), 1_000)
        .unwrap();
    let err = s.apply_intent(&Intent::DepositSafetyBond {
        from: reserved::insurance_pool_address(),
        amount: 500,
    });
    assert!(matches!(
        err,
        Err(ExecutionError::ReservedAddressTransferDenied { .. })
    ));
}

#[test]
fn deposit_to_both_bonds_separate() {
    let mut s = InMemorySubstrate::from_balances(&[(addr(1), 20_000_000)]);
    s.apply_intent(&Intent::DepositSequencerBond {
        from: addr(1),
        amount: 3_000_000,
    })
    .unwrap();
    s.apply_intent(&Intent::DepositSafetyBond {
        from: addr(1),
        amount: 15_000_000,
    })
    .unwrap();
    assert_eq!(s.balance(&addr(1)), 2_000_000);
    assert_eq!(s.sequencer_bond_balance(), 3_000_000);
    assert_eq!(s.safety_bond_balance(), 15_000_000);
}

#[test]
fn deposit_sequencer_bond_multi_depositor_accumulates() {
    let mut s = InMemorySubstrate::from_balances(&[
        (addr(1), 1_000_000),
        (addr(2), 1_000_000),
        (addr(3), 1_000_000),
    ]);
    for i in 1..=3 {
        s.apply_intent(&Intent::DepositSequencerBond {
            from: addr(i),
            amount: 500_000,
        })
        .unwrap();
    }
    assert_eq!(s.sequencer_bond_balance(), 1_500_000);
    assert_eq!(s.balance(&addr(1)), 500_000);
    assert_eq!(s.balance(&addr(2)), 500_000);
    assert_eq!(s.balance(&addr(3)), 500_000);
}

#[test]
fn l2_burn_proven_records_burn_id_on_success() {
    let mut s = InMemorySubstrate::from_balances(&[(addr(1), 1_000)]);
    s.rehearse_intent(&Intent::L1Lock {
        user_address: addr(1),
        l2_recipient: addr(2),
        amount: 500,
        asset_id: None,
    }, &evidence(false), true)
    .unwrap();
    s.pin_l2_state_root_for_test([0u8; 32], 1);

    assert_eq!(s.burn_nullifier_count(), 0);

    s.rehearse_intent(&Intent::L2BurnProven {
        batch_id: 1,
        recipient: addr(3),
        amount: 100,
        merkle_path: vec![0xab; 32],
        path_directions: vec![],
        asset_id: None,
        l2_chain_id_hash: [0u8; 32],
    }, &evidence(false), true)
    .unwrap();

    assert_eq!(s.burn_nullifier_count(), 1);
    let id = gsx_dag::burn_nullifier::burn_id(&[0u8; 32], 1, &addr(3), 100, &[0xab; 32], &None);
    assert!(s.burn_id_claimed(&id));
}

#[test]
fn l2_burn_proven_double_spend_rejected() {
    let mut s = InMemorySubstrate::from_balances(&[(addr(1), 1_000)]);
    s.rehearse_intent(&Intent::L1Lock {
        user_address: addr(1),
        l2_recipient: addr(2),
        amount: 500,
        asset_id: None,
    }, &evidence(false), true)
    .unwrap();
    s.pin_l2_state_root_for_test([0u8; 32], 1);

    let intent = Intent::L2BurnProven {
        batch_id: 1,
        recipient: addr(3),
        amount: 100,
        merkle_path: vec![0xab; 32],
        path_directions: vec![],
        asset_id: None,
        l2_chain_id_hash: [0u8; 32],
    };

    s.rehearse_intent(&intent, &evidence(false), true).unwrap();
    let escrow_after_first = s.bridge_escrow_balance();
    let recipient_after_first = s.balance(&addr(3));

    let err = s.rehearse_intent(&intent, &evidence(false), true);
    assert!(matches!(
        err,
        Err(ExecutionError::L2BurnAlreadyClaimed { .. })
    ));

    assert_eq!(s.bridge_escrow_balance(), escrow_after_first);
    assert_eq!(s.balance(&addr(3)), recipient_after_first);
}

#[test]
fn l2_burn_proven_distinct_burns_in_same_batch_both_succeed() {
    let mut s = InMemorySubstrate::from_balances(&[(addr(1), 10_000)]);
    s.rehearse_intent(&Intent::L1Lock {
        user_address: addr(1),
        l2_recipient: addr(2),
        amount: 5_000,
        asset_id: None,
    }, &evidence(false), true)
    .unwrap();
    s.pin_l2_state_root_for_test([0u8; 32], 1);

    s.rehearse_intent(&Intent::L2BurnProven {
        batch_id: 1,
        recipient: addr(3),
        amount: 100,
        merkle_path: vec![0xab; 32],
        path_directions: vec![],
        asset_id: None,
        l2_chain_id_hash: [0u8; 32],
    }, &evidence(false), true)
    .unwrap();
    s.rehearse_intent(&Intent::L2BurnProven {
        batch_id: 1,
        recipient: addr(4),
        amount: 200,
        merkle_path: vec![0xcd; 32],
        path_directions: vec![],
        asset_id: None,
        l2_chain_id_hash: [0u8; 32],
    }, &evidence(false), true)
    .unwrap();

    assert_eq!(s.burn_nullifier_count(), 2);
    assert_eq!(s.balance(&addr(3)), 100);
    assert_eq!(s.balance(&addr(4)), 200);
}

#[test]
fn l2_burn_proven_uncommitted_burn_does_not_pollute_nullifier() {
    let mut s = InMemorySubstrate::from_balances(&[(addr(1), 1_000)]);
    s.apply_intent(&Intent::L1Lock {
        user_address: addr(1),
        l2_recipient: addr(2),
        amount: 500,
        asset_id: None,
    })
    .unwrap();
    let _ = s.apply_intent(&Intent::L2BurnProven {
        batch_id: 1,
        recipient: addr(3),
        amount: 100,
        merkle_path: vec![0xab; 32],
        path_directions: vec![],
        asset_id: None,
        l2_chain_id_hash: [0u8; 32],
    });
    assert_eq!(s.burn_nullifier_count(), 0);
}

#[test]
fn l2_burn_proven_insufficient_escrow_state_root_drift() {
    let mut s = InMemorySubstrate::from_balances(&[(addr(1), 1_000)]);
    s.pin_l2_state_root_for_test([0u8; 32], 1);
    let before = s.state_root();
    let err = s.rehearse_intent(&Intent::L2BurnProven {
        batch_id: 1,
        recipient: addr(3),
        amount: 100,
        merkle_path: vec![0xab; 32],
        path_directions: vec![],
        asset_id: None,
        l2_chain_id_hash: [0u8; 32],
    }, &evidence(false), true);
    assert!(matches!(
        err,
        Err(ExecutionError::InsufficientBalance { .. })
    ));
    assert_ne!(s.state_root(), before);
    assert_eq!(s.burn_nullifier_count(), 1);
}

#[test]
fn l2_burn_proven_different_chains_independent_nullifiers() {
    let mut s = InMemorySubstrate::from_balances(&[(addr(1), 10_000)]);
    s.rehearse_intent(&Intent::L1Lock {
        user_address: addr(1),
        l2_recipient: addr(2),
        amount: 5_000,
        asset_id: None,
    }, &evidence(false), true)
    .unwrap();
    let chain_a = [0xaa; 32];
    let chain_b = [0xbb; 32];
    s.pin_l2_state_root_for_test(chain_a, 1);
    s.pin_l2_state_root_for_test(chain_b, 1);

    let make_intent = |chain: [u8; 32]| Intent::L2BurnProven {
        batch_id: 1,
        recipient: addr(3),
        amount: 100,
        merkle_path: vec![0xab; 32],
        path_directions: vec![],
        asset_id: None,
        l2_chain_id_hash: chain,
    };
    s.rehearse_intent(&make_intent(chain_a), &evidence(false), true).unwrap();
    s.rehearse_intent(&make_intent(chain_b), &evidence(false), true).unwrap();

    assert_eq!(s.burn_nullifier_count(), 2);
    assert_eq!(s.balance(&addr(3)), 200);
}

#[test]
fn l2_burn_proven_burn_id_independent_per_substrate() {
    let mut s1 = InMemorySubstrate::new();
    let mut s2 = InMemorySubstrate::new();
    assert_eq!(s1.burn_nullifier_count(), 0);
    assert_eq!(s2.burn_nullifier_count(), 0);
    let _ = (&mut s1, &mut s2);
}

#[test]
fn l2_burn_proven_merkle_depth_zero_accepts() {
    let mut s = InMemorySubstrate::from_balances(&[(addr(1), 1_000)]);
    s.apply_intent(&Intent::L1Lock {
        user_address: addr(1),
        l2_recipient: addr(2),
        amount: 100,
        asset_id: None,
    })
    .unwrap();

    let recipient = addr(3);
    let leaf = BurnLeaf {
        l2_chain_id_hash: &[0u8; 32],
        batch_id: 7,
        recipient: &recipient,
        amount: 100,
        asset_id: None,
    };
    let root = leaf.hash();
    s.pin_l2_state_root_for_test_with_root([0u8; 32], 7, root);

    s.apply_intent(&Intent::L2BurnProven {
        batch_id: 7,
        recipient,
        amount: 100,
        merkle_path: vec![],
        path_directions: vec![],
        asset_id: None,
        l2_chain_id_hash: [0u8; 32],
    })
    .expect("depth-0 burn against the leaf-hash root must commit");

    assert_eq!(s.bridge_escrow_balance(), 0);
    assert_eq!(s.balance(&recipient), 100);
}

#[test]
fn l2_burn_proven_merkle_depth_one_accepts() {
    let mut s = InMemorySubstrate::from_balances(&[(addr(1), 1_000)]);
    s.apply_intent(&Intent::L1Lock {
        user_address: addr(1),
        l2_recipient: addr(2),
        amount: 100,
        asset_id: None,
    })
    .unwrap();

    let recipient = addr(3);
    let leaf = BurnLeaf {
        l2_chain_id_hash: &[0u8; 32],
        batch_id: 7,
        recipient: &recipient,
        amount: 100,
        asset_id: None,
    };
    let sibling = [0xa5u8; 32];
    let (root, path, directions) = depth_one_tree(leaf.hash(), sibling);
    s.pin_l2_state_root_for_test_with_root([0u8; 32], 7, root);

    s.apply_intent(&Intent::L2BurnProven {
        batch_id: 7,
        recipient,
        amount: 100,
        merkle_path: path,
        path_directions: directions,
        asset_id: None,
        l2_chain_id_hash: [0u8; 32],
    })
    .expect("depth-1 burn with the matching path must commit");

    assert_eq!(s.bridge_escrow_balance(), 0);
    assert_eq!(s.balance(&recipient), 100);
}

#[test]
fn l2_burn_proven_merkle_forged_path_rejects() {
    let mut s = InMemorySubstrate::from_balances(&[(addr(1), 1_000)]);
    s.apply_intent(&Intent::L1Lock {
        user_address: addr(1),
        l2_recipient: addr(2),
        amount: 100,
        asset_id: None,
    })
    .unwrap();

    let recipient = addr(3);
    let real_leaf = BurnLeaf {
        l2_chain_id_hash: &[0u8; 32],
        batch_id: 7,
        recipient: &recipient,
        amount: 100,
        asset_id: None,
    };
    let sibling = [0xa5u8; 32];
    let (root, _real_path, _real_dirs) = depth_one_tree(real_leaf.hash(), sibling);
    s.pin_l2_state_root_for_test_with_root([0u8; 32], 7, root);

    let forged_path = vec![0xffu8; 32];
    let err = s
        .apply_intent(&Intent::L2BurnProven {
            batch_id: 7,
            recipient,
            amount: 100,
            merkle_path: forged_path,
            path_directions: vec![0u8],
            asset_id: None,
            l2_chain_id_hash: [0u8; 32],
        })
        .expect_err("forged merkle path must reject");
    assert!(
        matches!(err, ExecutionError::L2BurnMerkleProofRejected { .. }),
        "wrong reject variant: {err:?}"
    );
    assert_eq!(s.bridge_escrow_balance(), 100);
    assert_eq!(s.balance(&recipient), 0);
}

#[test]
fn l2_burn_proven_merkle_wrong_recipient_rejects() {
    let mut s = InMemorySubstrate::from_balances(&[(addr(1), 1_000)]);
    s.apply_intent(&Intent::L1Lock {
        user_address: addr(1),
        l2_recipient: addr(2),
        amount: 100,
        asset_id: None,
    })
    .unwrap();

    let real_recipient = addr(3);
    let attacker_recipient = addr(99);
    let leaf = BurnLeaf {
        l2_chain_id_hash: &[0u8; 32],
        batch_id: 7,
        recipient: &real_recipient,
        amount: 100,
        asset_id: None,
    };
    let sibling = [0xa5u8; 32];
    let (root, path, directions) = depth_one_tree(leaf.hash(), sibling);
    s.pin_l2_state_root_for_test_with_root([0u8; 32], 7, root);

    let err = s
        .apply_intent(&Intent::L2BurnProven {
            batch_id: 7,
            recipient: attacker_recipient,
            amount: 100,
            merkle_path: path,
            path_directions: directions,
            asset_id: None,
            l2_chain_id_hash: [0u8; 32],
        })
        .expect_err("recipient swap must reject");
    assert!(matches!(
        err,
        ExecutionError::L2BurnMerkleProofRejected { .. }
    ));
    assert_eq!(s.bridge_escrow_balance(), 100);
    assert_eq!(s.balance(&attacker_recipient), 0);
}

#[test]
fn l2_burn_proven_merkle_wrong_amount_rejects() {
    let mut s = InMemorySubstrate::from_balances(&[(addr(1), 1_000)]);
    s.apply_intent(&Intent::L1Lock {
        user_address: addr(1),
        l2_recipient: addr(2),
        amount: 500,
        asset_id: None,
    })
    .unwrap();

    let recipient = addr(3);
    let leaf = BurnLeaf {
        l2_chain_id_hash: &[0u8; 32],
        batch_id: 7,
        recipient: &recipient,
        amount: 100,
        asset_id: None,
    };
    let sibling = [0xa5u8; 32];
    let (root, path, directions) = depth_one_tree(leaf.hash(), sibling);
    s.pin_l2_state_root_for_test_with_root([0u8; 32], 7, root);

    let err = s
        .apply_intent(&Intent::L2BurnProven {
            batch_id: 7,
            recipient,
            amount: 200,
            merkle_path: path,
            path_directions: directions,
            asset_id: None,
            l2_chain_id_hash: [0u8; 32],
        })
        .expect_err("amount swap must reject");
    assert!(matches!(
        err,
        ExecutionError::L2BurnMerkleProofRejected { .. }
    ));
    assert_eq!(s.bridge_escrow_balance(), 500);
    assert_eq!(s.balance(&recipient), 0);
}

#[test]
fn l2_burn_proven_merkle_flipped_direction_rejects() {
    let mut s = InMemorySubstrate::from_balances(&[(addr(1), 1_000)]);
    s.apply_intent(&Intent::L1Lock {
        user_address: addr(1),
        l2_recipient: addr(2),
        amount: 100,
        asset_id: None,
    })
    .unwrap();

    let recipient = addr(3);
    let leaf = BurnLeaf {
        l2_chain_id_hash: &[0u8; 32],
        batch_id: 7,
        recipient: &recipient,
        amount: 100,
        asset_id: None,
    };
    let sibling = [0xa5u8; 32];
    let (root, path, _directions_left) = depth_one_tree(leaf.hash(), sibling);
    s.pin_l2_state_root_for_test_with_root([0u8; 32], 7, root);

    let err = s
        .apply_intent(&Intent::L2BurnProven {
            batch_id: 7,
            recipient,
            amount: 100,
            merkle_path: path,
            path_directions: vec![0b0000_0001],
            asset_id: None,
            l2_chain_id_hash: [0u8; 32],
        })
        .expect_err("flipped direction bit must reject");
    assert!(matches!(
        err,
        ExecutionError::L2BurnMerkleProofRejected { .. }
    ));
    assert_eq!(s.bridge_escrow_balance(), 100);
    assert_eq!(s.balance(&recipient), 0);
}

#[test]
fn l2_burn_proven_merkle_replay_after_real_proof_still_dedupes() {
    let mut s = InMemorySubstrate::from_balances(&[(addr(1), 1_000)]);
    s.apply_intent(&Intent::L1Lock {
        user_address: addr(1),
        l2_recipient: addr(2),
        amount: 200,
        asset_id: None,
    })
    .unwrap();

    let recipient = addr(3);
    let leaf = BurnLeaf {
        l2_chain_id_hash: &[0u8; 32],
        batch_id: 7,
        recipient: &recipient,
        amount: 100,
        asset_id: None,
    };
    let sibling = [0xa5u8; 32];
    let (root, path, directions) = depth_one_tree(leaf.hash(), sibling);
    s.pin_l2_state_root_for_test_with_root([0u8; 32], 7, root);

    let intent = Intent::L2BurnProven {
        batch_id: 7,
        recipient,
        amount: 100,
        merkle_path: path,
        path_directions: directions,
        asset_id: None,
        l2_chain_id_hash: [0u8; 32],
    };
    s.apply_intent(&intent).expect("first commit");
    let err = s.apply_intent(&intent).expect_err("replay must reject");
    assert!(matches!(err, ExecutionError::L2BurnAlreadyClaimed { .. }));
    assert_eq!(s.bridge_escrow_balance(), 100);
    assert_eq!(s.balance(&recipient), 100);
}

#[test]
fn disburse_treasury_credits_recipient() {
    let mut s = InMemorySubstrate::new();
    s.credit_unchecked(reserved::treasury_address(), 10_000_000)
        .unwrap();
    s.apply_intent(&Intent::DisburseTreasury {
        recipient: addr(1),
        amount: 1_500_000,
        purpose_tag: [0xde; 32],
    })
    .unwrap();
    assert_eq!(s.balance(&addr(1)), 1_500_000);
    assert_eq!(s.balance(&reserved::treasury_address()), 8_500_000);
}
