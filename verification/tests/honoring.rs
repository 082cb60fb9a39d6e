use gsx_dag::error::ExecutionError;
use gsx_dag::force_include::{ObligationStatus, obligation_id};
use gsx_dag::intent::{Intent, SlashReason};
use gsx_dag::reserved;
use gsx_dag::substrate::{Address, InMemorySubstrate, Substrate};

fn addr(seed: u8) -> Address {
    [seed; 20]
}

#[test]
fn mark_force_include_honored_flips_pending_to_honored() {
    let mut s = InMemorySubstrate::new();
    s.fund_sequencer_bond(1_000_000).unwrap();
    let tx = b"included".to_vec();
    s.apply_intent(&Intent::L2ForceInclude {
        tx: tx.clone(),
        deadline_l1_height: 500,
        submitter: addr(3),
        l2_nonce: 1,
    })
    .unwrap();
    let id = obligation_id(&tx, 500, &addr(3), 1);
    assert_eq!(
        s.force_include_obligation(&id).unwrap().status,
        ObligationStatus::Pending
    );

    s.apply_intent(&Intent::MarkForceIncludeHonored { obligation_id: id })
        .unwrap();

    assert_eq!(
        s.force_include_obligation(&id).unwrap().status,
        ObligationStatus::Honored
    );
    assert_eq!(s.sequencer_bond_balance(), 1_000_000);
    assert_eq!(s.balance(&reserved::insurance_pool_address()), 0);
    assert_eq!(s.balance(&reserved::treasury_address()), 0);
    assert_eq!(s.balance(&addr(3)), 0);
}

#[test]
fn mark_force_include_honored_unknown_obligation_rejected() {
    let mut s = InMemorySubstrate::new();
    let err = s.apply_intent(&Intent::MarkForceIncludeHonored {
        obligation_id: [0xaa; 32],
    });
    assert!(matches!(
        err,
        Err(ExecutionError::ForceIncludeNotFound { .. })
    ));
}

#[test]
fn mark_force_include_honored_double_honor_rejected() {
    let mut s = InMemorySubstrate::new();
    let tx = b"twice".to_vec();
    s.apply_intent(&Intent::L2ForceInclude {
        tx: tx.clone(),
        deadline_l1_height: 100,
        submitter: addr(4),
        l2_nonce: 1,
    })
    .unwrap();
    let id = obligation_id(&tx, 100, &addr(4), 1);

    s.apply_intent(&Intent::MarkForceIncludeHonored { obligation_id: id })
        .unwrap();

    let err = s.apply_intent(&Intent::MarkForceIncludeHonored { obligation_id: id });
    assert!(matches!(
        err,
        Err(ExecutionError::ForceIncludeNotPending { .. })
    ));
}

#[test]
fn mark_force_include_honored_after_slash_rejected() {
    let mut s = InMemorySubstrate::new();
    s.fund_sequencer_bond(1_000_000).unwrap();
    let tx = b"too-late".to_vec();
    s.apply_intent(&Intent::L2ForceInclude {
        tx: tx.clone(),
        deadline_l1_height: 100,
        submitter: addr(5),
        l2_nonce: 1,
    })
    .unwrap();
    let id = obligation_id(&tx, 100, &addr(5), 1);

    s.apply_intent(&Intent::SlashSequencer {
        reason: SlashReason::MissedForceInclude,
        intent_hash: id,
    })
    .unwrap();

    let err = s.apply_intent(&Intent::MarkForceIncludeHonored { obligation_id: id });
    assert!(matches!(
        err,
        Err(ExecutionError::ForceIncludeNotPending { .. })
    ));
}

#[test]
fn slash_sequencer_after_honor_rejected() {
    let mut s = InMemorySubstrate::new();
    s.fund_sequencer_bond(1_000_000).unwrap();
    let tx = b"already-honored".to_vec();
    s.apply_intent(&Intent::L2ForceInclude {
        tx: tx.clone(),
        deadline_l1_height: 100,
        submitter: addr(6),
        l2_nonce: 1,
    })
    .unwrap();
    let id = obligation_id(&tx, 100, &addr(6), 1);

    s.apply_intent(&Intent::MarkForceIncludeHonored { obligation_id: id })
        .unwrap();

    let err = s.apply_intent(&Intent::SlashSequencer {
        reason: SlashReason::MissedForceInclude,
        intent_hash: id,
    });
    assert!(matches!(
        err,
        Err(ExecutionError::ForceIncludeNotPending { .. })
    ));
}

#[test]
fn honor_shifts_state_root() {
    let mut s = InMemorySubstrate::new();
    let tx = b"observable".to_vec();
    s.apply_intent(&Intent::L2ForceInclude {
        tx: tx.clone(),
        deadline_l1_height: 100,
        submitter: addr(2),
        l2_nonce: 1,
    })
    .unwrap();
    let id = obligation_id(&tx, 100, &addr(2), 1);
    let before = s.state_root();

    s.apply_intent(&Intent::MarkForceIncludeHonored { obligation_id: id })
        .unwrap();
    let after = s.state_root();
    assert_ne!(before, after);
}

#[test]
fn slash_sequencer_equivocation_drains_safety_bond_100pct() {
    let mut s = InMemorySubstrate::new();
    s.fund_sequencer_bond(1_000_000).unwrap();
    s.fund_safety_bond(15_000_000).unwrap();
    let proof_hash = [0x77; 32];

    s.apply_intent(&Intent::SlashSequencer {
        reason: SlashReason::Equivocation,
        intent_hash: proof_hash,
    })
    .unwrap();

    assert_eq!(s.safety_bond_balance(), 0);
    assert_eq!(s.sequencer_bond_balance(), 1_000_000);
    assert_eq!(s.balance(&reserved::insurance_pool_address()), 10_500_000);
    assert_eq!(s.balance(&reserved::treasury_address()), 4_500_000);
}

#[test]
fn slash_sequencer_invalid_batch_drains_safety_bond_100pct() {
    let mut s = InMemorySubstrate::new();
    s.fund_safety_bond(10_000_000).unwrap();
    let batch_hash = [0x88; 32];

    s.apply_intent(&Intent::SlashSequencer {
        reason: SlashReason::InvalidBatch,
        intent_hash: batch_hash,
    })
    .unwrap();

    assert_eq!(s.safety_bond_balance(), 0);
    assert_eq!(s.balance(&reserved::insurance_pool_address()), 7_000_000);
    assert_eq!(s.balance(&reserved::treasury_address()), 3_000_000);
}

#[test]
fn slash_sequencer_equivocation_empty_bond_records_in_registry() {
    let mut s = InMemorySubstrate::new();
    let before = s.state_root();
    s.apply_intent(&Intent::SlashSequencer {
        reason: SlashReason::Equivocation,
        intent_hash: [0x55; 32],
    })
    .unwrap();
    assert_eq!(s.safety_bond_balance(), 0);
    assert_eq!(s.balance(&reserved::insurance_pool_address()), 0);
    assert_eq!(s.balance(&reserved::treasury_address()), 0);
    assert_ne!(s.state_root(), before);
    assert!(s.equivocation_record(&[0x55; 32]).is_some());
}

#[test]
fn slash_sequencer_equivocation_replay_rejected_after_refill() {
    let mut s = InMemorySubstrate::new();
    s.fund_safety_bond(10_000_000).unwrap();

    s.apply_intent(&Intent::SlashSequencer {
        reason: SlashReason::Equivocation,
        intent_hash: [0x77; 32],
    })
    .unwrap();
    assert_eq!(s.safety_bond_balance(), 0);
    assert!(s.equivocation_record(&[0x77; 32]).is_some());

    s.fund_safety_bond(10_000_000).unwrap();
    assert_eq!(s.safety_bond_balance(), 10_000_000);

    let err = s.apply_intent(&Intent::SlashSequencer {
        reason: SlashReason::Equivocation,
        intent_hash: [0x77; 32],
    });
    assert!(matches!(
        err,
        Err(ExecutionError::EquivocationAlreadyRecorded { .. })
    ));
    assert_eq!(s.safety_bond_balance(), 10_000_000);
}

#[test]
fn slash_sequencer_equivocation_independent_of_force_include() {
    let mut s = InMemorySubstrate::new();
    s.fund_safety_bond(10_000_000).unwrap();
    let tx = b"unrelated".to_vec();
    s.apply_intent(&Intent::L2ForceInclude {
        tx: tx.clone(),
        deadline_l1_height: 100,
        submitter: addr(5),
        l2_nonce: 1,
    })
    .unwrap();
    let id = obligation_id(&tx, 100, &addr(5), 1);

    s.apply_intent(&Intent::SlashSequencer {
        reason: SlashReason::Equivocation,
        intent_hash: [0x77; 32],
    })
    .unwrap();

    assert_eq!(s.safety_bond_balance(), 0);
    assert_eq!(s.force_include_count(), 1);
    assert_eq!(
        s.force_include_obligation(&id).unwrap().status,
        gsx_dag::force_include::ObligationStatus::Pending,
    );
}

#[test]
fn slash_sequencer_downtime_is_noop() {
    let mut s = InMemorySubstrate::new();
    s.fund_safety_bond(10_000_000).unwrap();
    s.fund_sequencer_bond(1_000_000).unwrap();
    let before = s.state_root();
    s.apply_intent(&Intent::SlashSequencer {
        reason: SlashReason::Downtime,
        intent_hash: [0; 32],
    })
    .unwrap();
    assert_eq!(s.safety_bond_balance(), 10_000_000);
    assert_eq!(s.sequencer_bond_balance(), 1_000_000);
    assert_eq!(s.state_root(), before);
}
