use gsx_dag::error::ExecutionError;
use gsx_dag::force_include::obligation_id;
use gsx_dag::intent::{Intent, SlashReason};
use gsx_dag::reserved;
use gsx_dag::substrate::{Address, Balance, InMemorySubstrate, Substrate};

fn addr(seed: u8) -> Address {
    [seed; 20]
}

fn slashed_obligation(s: &mut InMemorySubstrate, seed: u8, fund: Balance) -> [u8; 32] {
    s.fund_sequencer_bond(fund).unwrap();
    let tx = vec![seed; 32];
    s.apply_intent(&Intent::L2ForceInclude {
        tx: tx.clone(),
        deadline_l1_height: 100,
        submitter: addr(seed),
        l2_nonce: 1,
    })
    .unwrap();
    let id = obligation_id(&tx, 100, &addr(seed), 1);
    s.apply_intent(&Intent::SlashSequencer {
        reason: SlashReason::MissedForceInclude,
        intent_hash: id,
    })
    .unwrap();
    id
}

#[test]
fn eject_sequencer_happy_path() {
    let mut s = InMemorySubstrate::new();
    let id = slashed_obligation(&mut s, 7, 1_000_000);
    assert_eq!(s.balance(&reserved::treasury_address()), 10_000);
    assert_eq!(s.balance(&addr(7)), 5_000);
    assert!(s.sequencer_ejection(&id).is_none());

    s.apply_intent(&Intent::EjectSequencer {
        obligation_id: id,
        ejector: addr(20),
    })
    .unwrap();

    let rec = s.sequencer_ejection(&id).unwrap();
    assert_eq!(rec.ejector, addr(20));
    assert_eq!(s.sequencer_ejection_count(), 1);

    assert_eq!(s.balance(&addr(20)), 4_750);
    assert_eq!(s.balance(&reserved::treasury_address()), 5_250);
}

#[test]
fn eject_sequencer_pending_obligation_rejected() {
    let mut s = InMemorySubstrate::new();
    let tx = b"pending".to_vec();
    s.apply_intent(&Intent::L2ForceInclude {
        tx: tx.clone(),
        deadline_l1_height: 100,
        submitter: addr(5),
        l2_nonce: 1,
    })
    .unwrap();
    let id = obligation_id(&tx, 100, &addr(5), 1);
    let err = s.apply_intent(&Intent::EjectSequencer {
        obligation_id: id,
        ejector: addr(20),
    });
    assert!(matches!(
        err,
        Err(ExecutionError::ForceIncludeNotSlashed { .. })
    ));
}

#[test]
fn eject_sequencer_honored_obligation_rejected() {
    let mut s = InMemorySubstrate::new();
    let tx = b"honored".to_vec();
    s.apply_intent(&Intent::L2ForceInclude {
        tx: tx.clone(),
        deadline_l1_height: 100,
        submitter: addr(5),
        l2_nonce: 1,
    })
    .unwrap();
    let id = obligation_id(&tx, 100, &addr(5), 1);
    s.apply_intent(&Intent::MarkForceIncludeHonored { obligation_id: id })
        .unwrap();

    let err = s.apply_intent(&Intent::EjectSequencer {
        obligation_id: id,
        ejector: addr(20),
    });
    assert!(matches!(
        err,
        Err(ExecutionError::ForceIncludeNotSlashed { .. })
    ));
}

#[test]
fn eject_sequencer_unknown_obligation_rejected() {
    let mut s = InMemorySubstrate::new();
    let err = s.apply_intent(&Intent::EjectSequencer {
        obligation_id: [0xde; 32],
        ejector: addr(20),
    });
    assert!(matches!(
        err,
        Err(ExecutionError::ForceIncludeNotFound { .. })
    ));
}

#[test]
fn eject_sequencer_reserved_ejector_rejected() {
    let mut s = InMemorySubstrate::new();
    let id = slashed_obligation(&mut s, 7, 1_000_000);
    let err = s.apply_intent(&Intent::EjectSequencer {
        obligation_id: id,
        ejector: reserved::treasury_address(),
    });
    assert!(matches!(
        err,
        Err(ExecutionError::ReservedAddressTransferDenied { .. })
    ));
}

#[test]
fn eject_sequencer_double_eject_rejected() {
    let mut s = InMemorySubstrate::new();
    let id = slashed_obligation(&mut s, 7, 1_000_000);
    s.apply_intent(&Intent::EjectSequencer {
        obligation_id: id,
        ejector: addr(20),
    })
    .unwrap();
    let err = s.apply_intent(&Intent::EjectSequencer {
        obligation_id: id,
        ejector: addr(21),
    });
    assert!(matches!(
        err,
        Err(ExecutionError::SequencerEjectionAlreadyRecorded { .. })
    ));
    let rec = s.sequencer_ejection(&id).unwrap();
    assert_eq!(rec.ejector, addr(20));
}

#[test]
fn eject_sequencer_empty_treasury_still_records() {
    let mut s = InMemorySubstrate::new();
    let tx = b"poor-treasury".to_vec();
    s.apply_intent(&Intent::L2ForceInclude {
        tx: tx.clone(),
        deadline_l1_height: 100,
        submitter: addr(5),
        l2_nonce: 1,
    })
    .unwrap();
    let id = obligation_id(&tx, 100, &addr(5), 1);
    s.apply_intent(&Intent::SlashSequencer {
        reason: SlashReason::MissedForceInclude,
        intent_hash: id,
    })
    .unwrap();
    assert_eq!(s.balance(&reserved::treasury_address()), 0);

    s.apply_intent(&Intent::EjectSequencer {
        obligation_id: id,
        ejector: addr(20),
    })
    .unwrap();

    assert!(s.sequencer_ejection(&id).is_some());
    assert_eq!(s.balance(&addr(20)), 0);
}

#[test]
fn eject_sequencer_shifts_state_root() {
    let mut s = InMemorySubstrate::new();
    let id = slashed_obligation(&mut s, 7, 1_000_000);
    let before = s.state_root();
    s.apply_intent(&Intent::EjectSequencer {
        obligation_id: id,
        ejector: addr(20),
    })
    .unwrap();
    let after = s.state_root();
    assert_ne!(before, after);
}
