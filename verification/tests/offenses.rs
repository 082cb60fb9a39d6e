use gsx_dag::equivocation_registry::OffenseKind;
use gsx_dag::error::ExecutionError;
use gsx_dag::force_include::obligation_id;
use gsx_dag::intent::{Intent, SlashReason};
use gsx_dag::substrate::{Address, InMemorySubstrate, Substrate};

fn addr(seed: u8) -> Address {
    [seed; 20]
}

#[test]
fn equivocation_registry_records_offense_kind() {
    let mut s = InMemorySubstrate::new();
    s.fund_safety_bond(10_000_000).unwrap();
    s.apply_intent(&Intent::SlashSequencer {
        reason: SlashReason::Equivocation,
        intent_hash: [0xa1; 32],
    })
    .unwrap();

    s.fund_safety_bond(10_000_000).unwrap();
    s.apply_intent(&Intent::SlashSequencer {
        reason: SlashReason::InvalidBatch,
        intent_hash: [0xb1; 32],
    })
    .unwrap();

    assert_eq!(s.equivocation_count(), 2);
    assert_eq!(
        s.equivocation_record(&[0xa1; 32]).unwrap().kind,
        OffenseKind::Equivocation
    );
    assert_eq!(
        s.equivocation_record(&[0xb1; 32]).unwrap().kind,
        OffenseKind::InvalidBatch
    );
}

#[test]
fn equivocation_cross_kind_replay_rejected() {
    let mut s = InMemorySubstrate::new();
    s.fund_safety_bond(10_000_000).unwrap();
    s.apply_intent(&Intent::SlashSequencer {
        reason: SlashReason::Equivocation,
        intent_hash: [0xab; 32],
    })
    .unwrap();

    s.fund_safety_bond(10_000_000).unwrap();
    let err = s.apply_intent(&Intent::SlashSequencer {
        reason: SlashReason::InvalidBatch,
        intent_hash: [0xab; 32],
    });
    assert!(matches!(
        err,
        Err(ExecutionError::EquivocationAlreadyRecorded { .. })
    ));
}

#[test]
fn equivocation_distinct_hashes_both_succeed() {
    let mut s = InMemorySubstrate::new();
    s.fund_safety_bond(10_000_000).unwrap();
    s.apply_intent(&Intent::SlashSequencer {
        reason: SlashReason::Equivocation,
        intent_hash: [0x11; 32],
    })
    .unwrap();

    s.fund_safety_bond(10_000_000).unwrap();
    s.apply_intent(&Intent::SlashSequencer {
        reason: SlashReason::Equivocation,
        intent_hash: [0x22; 32],
    })
    .unwrap();

    assert_eq!(s.equivocation_count(), 2);
}

#[test]
fn equivocation_empty_bond_still_blocks_replay() {
    let mut s = InMemorySubstrate::new();
    s.apply_intent(&Intent::SlashSequencer {
        reason: SlashReason::Equivocation,
        intent_hash: [0x42; 32],
    })
    .unwrap();
    assert_eq!(s.equivocation_count(), 1);

    s.fund_safety_bond(10_000_000).unwrap();
    let err = s.apply_intent(&Intent::SlashSequencer {
        reason: SlashReason::Equivocation,
        intent_hash: [0x42; 32],
    });
    assert!(matches!(
        err,
        Err(ExecutionError::EquivocationAlreadyRecorded { .. })
    ));
    assert_eq!(s.safety_bond_balance(), 10_000_000);
}

#[test]
fn equivocation_registry_untouched_by_downtime_slash() {
    let mut s = InMemorySubstrate::new();
    s.apply_intent(&Intent::SlashSequencer {
        reason: SlashReason::Downtime,
        intent_hash: [0xff; 32],
    })
    .unwrap();
    assert_eq!(s.equivocation_count(), 0);
}

#[test]
fn equivocation_registry_untouched_by_missed_force_include() {
    let mut s = InMemorySubstrate::new();
    s.fund_sequencer_bond(1_000_000).unwrap();
    let tx = b"unrelated-fi".to_vec();
    s.apply_intent(&Intent::L2ForceInclude {
        tx: tx.clone(),
        deadline_l1_height: 100,
        submitter: addr(5),
        l2_nonce: 1,
    })
    .unwrap();
    let id = obligation_id(&tx, 100, &addr(5), 1);
    s.apply_intent(&Intent::SlashSequencer {
        reason: SlashReason::MissedForceInclude,
        intent_hash: id,
    })
    .unwrap();
    assert_eq!(s.equivocation_count(), 0);
}
