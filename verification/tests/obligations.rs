use gsx_dag::error::ExecutionError;
use gsx_dag::force_include::{ObligationStatus, obligation_id};
use gsx_dag::intent::{Intent, SlashReason};
use gsx_dag::reserved;
use gsx_dag::sequencing::liveness_slash_amount;
use gsx_dag::substrate::{Address, InMemorySubstrate, Substrate};

fn addr(seed: u8) -> Address {
    [seed; 20]
}

#[test]
fn l2_force_include_registers_pending_obligation() {
    let mut s = InMemorySubstrate::new();
    let tx = b"deadbeef".to_vec();
    let intent = Intent::L2ForceInclude {
        tx: tx.clone(),
        deadline_l1_height: 1_234_567,
        submitter: addr(1),
        l2_nonce: 5,
    };
    s.apply_intent(&intent).unwrap();

    let id = obligation_id(&tx, 1_234_567, &addr(1), 5);
    let ob = s
        .force_include_obligation(&id)
        .expect("obligation registered");
    assert_eq!(ob.status, ObligationStatus::Pending);
    assert_eq!(ob.deadline_l1_height, 1_234_567);
    assert_eq!(ob.submitter, addr(1));
    assert_eq!(ob.l2_nonce, 5);
    assert_eq!(s.force_include_count(), 1);

    let err = s.apply_intent(&Intent::L2ForceInclude {
        tx,
        deadline_l1_height: 1_234_567,
        submitter: addr(1),
        l2_nonce: 5,
    });
    assert!(matches!(
        err,
        Err(ExecutionError::ForceIncludeAlreadyRegistered { .. })
    ));
    assert_eq!(s.force_include_count(), 1);
}

#[test]
fn l2_force_include_different_nonces_register_independently() {
    let mut s = InMemorySubstrate::new();
    for nonce in 0..3 {
        s.apply_intent(&Intent::L2ForceInclude {
            tx: b"deadbeef".to_vec(),
            deadline_l1_height: 1_000,
            submitter: addr(1),
            l2_nonce: nonce,
        })
        .unwrap();
    }
    assert_eq!(s.force_include_count(), 3);
}

#[test]
fn slash_sequencer_missed_force_include_drains_bond() {
    let mut s = InMemorySubstrate::new();
    s.fund_sequencer_bond(1_000_000).unwrap();
    assert_eq!(s.sequencer_bond_balance(), 1_000_000);

    let tx = b"censored".to_vec();
    s.apply_intent(&Intent::L2ForceInclude {
        tx: tx.clone(),
        deadline_l1_height: 100,
        submitter: addr(7),
        l2_nonce: 1,
    })
    .unwrap();
    let id = obligation_id(&tx, 100, &addr(7), 1);

    s.apply_intent(&Intent::SlashSequencer {
        reason: SlashReason::MissedForceInclude,
        intent_hash: id,
    })
    .unwrap();

    assert_eq!(s.sequencer_bond_balance(), 950_000);
    assert_eq!(s.balance(&reserved::insurance_pool_address()), 35_000);
    assert_eq!(s.balance(&reserved::treasury_address()), 10_000);
    assert_eq!(s.balance(&addr(7)), 5_000);

    let ob = s.force_include_obligation(&id).unwrap();
    assert_eq!(ob.status, ObligationStatus::Slashed);
}

#[test]
fn slash_sequencer_double_slash_rejected() {
    let mut s = InMemorySubstrate::new();
    s.fund_sequencer_bond(1_000_000).unwrap();
    let tx = b"once".to_vec();
    s.apply_intent(&Intent::L2ForceInclude {
        tx: tx.clone(),
        deadline_l1_height: 100,
        submitter: addr(7),
        l2_nonce: 1,
    })
    .unwrap();
    let id = obligation_id(&tx, 100, &addr(7), 1);

    s.apply_intent(&Intent::SlashSequencer {
        reason: SlashReason::MissedForceInclude,
        intent_hash: id,
    })
    .unwrap();
    let before_state_root = s.state_root();

    let err = s.apply_intent(&Intent::SlashSequencer {
        reason: SlashReason::MissedForceInclude,
        intent_hash: id,
    });
    assert!(matches!(
        err,
        Err(ExecutionError::ForceIncludeNotPending { .. })
    ));
    assert_eq!(s.state_root(), before_state_root);
}

#[test]
fn slash_sequencer_unknown_obligation_rejected() {
    let mut s = InMemorySubstrate::new();
    s.fund_sequencer_bond(1_000_000).unwrap();
    let err = s.apply_intent(&Intent::SlashSequencer {
        reason: SlashReason::MissedForceInclude,
        intent_hash: [0xff; 32],
    });
    assert!(matches!(
        err,
        Err(ExecutionError::ForceIncludeNotFound { .. })
    ));
}

#[test]
fn slash_sequencer_with_empty_bond_is_noop_economically() {
    let mut s = InMemorySubstrate::new();
    let tx = b"freebie".to_vec();
    s.apply_intent(&Intent::L2ForceInclude {
        tx: tx.clone(),
        deadline_l1_height: 100,
        submitter: addr(7),
        l2_nonce: 1,
    })
    .unwrap();
    let id = obligation_id(&tx, 100, &addr(7), 1);
    s.apply_intent(&Intent::SlashSequencer {
        reason: SlashReason::MissedForceInclude,
        intent_hash: id,
    })
    .unwrap();
    assert_eq!(s.sequencer_bond_balance(), 0);
    assert_eq!(s.balance(&reserved::insurance_pool_address()), 0);
    assert_eq!(s.balance(&reserved::treasury_address()), 0);
}

#[test]
fn slash_sequencer_downtime_variant_noop_at_substrate() {
    let mut s = InMemorySubstrate::from_balances(&[(addr(1), 100)]);
    let before = s.state_root();
    s.apply_intent(&Intent::SlashSequencer {
        reason: SlashReason::Downtime,
        intent_hash: [0x42; 32],
    })
    .unwrap();
    assert_eq!(s.state_root(), before);
}

#[test]
fn liveness_slash_amount_math() {
    assert_eq!(liveness_slash_amount(0), 0);
    assert_eq!(liveness_slash_amount(10_000), 500); // 5%
    assert_eq!(liveness_slash_amount(1_000_000), 50_000);
    assert_eq!(liveness_slash_amount(3_000_000), 150_000); // 5% of Tier B self-stake
}

#[test]
fn post_l2_da_stub_is_accepted() {
    let mut s = InMemorySubstrate::from_balances(&[(addr(1), 100)]);
    let before = s.state_root();
    let intent = Intent::PostL2DA {
        batch_id: 42,
        da_blob: vec![0xcd; 1024],
    };
    assert!(s.apply_intent(&intent).is_ok());
    assert_eq!(s.state_root(), before);
}
