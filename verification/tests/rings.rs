use gsx_dag::authority_registry::AuthorityStatus;
use gsx_dag::error::ExecutionError;
use gsx_dag::intent::Intent;
use gsx_dag::substrate::{InMemorySubstrate, Substrate};
use gsx_dag::validator_registry::ValidatorStatus;

#[test]
fn admit_authority_inserts_active_record() {
    let mut s = InMemorySubstrate::new();
    s.apply_intent(&Intent::AdmitAuthority {
        authority_id: 0,
        stake_gsx: 15_000_000,
        mldsa_public_key: vec![0xaa; 1952],
        bls_public_key: vec![0xbb; 48],
    })
    .unwrap();
    let rec = s.authority_record(0).unwrap();
    assert_eq!(rec.status, AuthorityStatus::Active);
    assert_eq!(rec.stake_gsx, 15_000_000);
    assert_eq!(rec.mldsa_public_key.len(), 1952);
    assert_eq!(s.authority_count(), 1);
}

#[test]
fn admit_authority_duplicate_slot_rejected() {
    let mut s = InMemorySubstrate::new();
    s.apply_intent(&Intent::AdmitAuthority {
        authority_id: 7,
        stake_gsx: 15_000_000,
        mldsa_public_key: vec![0xaa; 1952],
        bls_public_key: vec![0xbb; 48],
    })
    .unwrap();
    let err = s.apply_intent(&Intent::AdmitAuthority {
        authority_id: 7,
        stake_gsx: 20_000_000,
        mldsa_public_key: vec![0xcc; 1952],
        bls_public_key: vec![0xdd; 48],
    });
    assert!(matches!(
        err,
        Err(ExecutionError::AuthoritySlotAlreadyOccupied { authority_id: 7 })
    ));
    let rec = s.authority_record(7).unwrap();
    assert_eq!(rec.stake_gsx, 15_000_000);
}

#[test]
fn admit_authority_oversized_mldsa_pk_rejected() {
    let mut s = InMemorySubstrate::new();
    let err = s.apply_intent(&Intent::AdmitAuthority {
        authority_id: 0,
        stake_gsx: 15_000_000,
        mldsa_public_key: vec![0xaa; 3000],
        bls_public_key: vec![0xbb; 48],
    });
    assert!(matches!(
        err,
        Err(ExecutionError::AuthorityFieldTooLong {
            field: "mldsa_pk",
            ..
        })
    ));
}

#[test]
fn admit_authority_oversized_bls_pk_rejected() {
    let mut s = InMemorySubstrate::new();
    let err = s.apply_intent(&Intent::AdmitAuthority {
        authority_id: 0,
        stake_gsx: 15_000_000,
        mldsa_public_key: vec![0xaa; 1952],
        bls_public_key: vec![0xbb; 256],
    });
    assert!(matches!(
        err,
        Err(ExecutionError::AuthorityFieldTooLong {
            field: "bls_pk",
            ..
        })
    ));
}

#[test]
fn exit_authority_flips_active_to_exiting() {
    let mut s = InMemorySubstrate::new();
    s.apply_intent(&Intent::AdmitAuthority {
        authority_id: 0,
        stake_gsx: 1_000,
        mldsa_public_key: vec![0xaa; 1952],
        bls_public_key: vec![0xbb; 48],
    })
    .unwrap();
    s.apply_intent(&Intent::ExitAuthority { authority_id: 0 })
        .unwrap();
    let rec = s.authority_record(0).unwrap();
    assert_eq!(rec.status, AuthorityStatus::Exiting);
}

#[test]
fn exit_authority_unknown_slot_rejected() {
    let mut s = InMemorySubstrate::new();
    let err = s.apply_intent(&Intent::ExitAuthority { authority_id: 42 });
    assert!(matches!(
        err,
        Err(ExecutionError::AuthorityNotFound { authority_id: 42 })
    ));
}

#[test]
fn exit_authority_double_exit_rejected() {
    let mut s = InMemorySubstrate::new();
    s.apply_intent(&Intent::AdmitAuthority {
        authority_id: 0,
        stake_gsx: 1_000,
        mldsa_public_key: vec![0xaa; 1952],
        bls_public_key: vec![0xbb; 48],
    })
    .unwrap();
    s.apply_intent(&Intent::ExitAuthority { authority_id: 0 })
        .unwrap();
    let err = s.apply_intent(&Intent::ExitAuthority { authority_id: 0 });
    assert!(matches!(
        err,
        Err(ExecutionError::AuthorityNotActive { .. })
    ));
}

#[test]
fn eject_authority_flips_to_ejected() {
    let mut s = InMemorySubstrate::new();
    s.apply_intent(&Intent::AdmitAuthority {
        authority_id: 0,
        stake_gsx: 1_000,
        mldsa_public_key: vec![0xaa; 1952],
        bls_public_key: vec![0xbb; 48],
    })
    .unwrap();
    s.apply_intent(&Intent::EjectAuthority {
        authority_id: 0,
        proof_ref: [0xee; 32],
    })
    .unwrap();
    let rec = s.authority_record(0).unwrap();
    assert_eq!(rec.status, AuthorityStatus::Ejected);
}

#[test]
fn eject_authority_exiting_validator_succeeds() {
    let mut s = InMemorySubstrate::new();
    s.apply_intent(&Intent::AdmitAuthority {
        authority_id: 0,
        stake_gsx: 1_000,
        mldsa_public_key: vec![0xaa; 1952],
        bls_public_key: vec![0xbb; 48],
    })
    .unwrap();
    s.apply_intent(&Intent::ExitAuthority { authority_id: 0 })
        .unwrap();
    s.apply_intent(&Intent::EjectAuthority {
        authority_id: 0,
        proof_ref: [0xee; 32],
    })
    .unwrap();
    let rec = s.authority_record(0).unwrap();
    assert_eq!(rec.status, AuthorityStatus::Ejected);
}

#[test]
fn eject_authority_unknown_slot_rejected() {
    let mut s = InMemorySubstrate::new();
    let err = s.apply_intent(&Intent::EjectAuthority {
        authority_id: 99,
        proof_ref: [0; 32],
    });
    assert!(matches!(
        err,
        Err(ExecutionError::AuthorityNotFound { authority_id: 99 })
    ));
}

#[test]
fn multiple_authorities_independent() {
    let mut s = InMemorySubstrate::new();
    for i in 0..5 {
        s.apply_intent(&Intent::AdmitAuthority {
            authority_id: i,
            stake_gsx: 1_000 + i as u64,
            mldsa_public_key: vec![i as u8; 1952],
            bls_public_key: vec![i as u8; 48],
        })
        .unwrap();
    }
    assert_eq!(s.authority_count(), 5);
    s.apply_intent(&Intent::ExitAuthority { authority_id: 2 })
        .unwrap();
    s.apply_intent(&Intent::EjectAuthority {
        authority_id: 3,
        proof_ref: [0xff; 32],
    })
    .unwrap();
    assert_eq!(
        s.authority_record(0).unwrap().status,
        AuthorityStatus::Active
    );
    assert_eq!(
        s.authority_record(1).unwrap().status,
        AuthorityStatus::Active
    );
    assert_eq!(
        s.authority_record(2).unwrap().status,
        AuthorityStatus::Exiting
    );
    assert_eq!(
        s.authority_record(3).unwrap().status,
        AuthorityStatus::Ejected
    );
    assert_eq!(
        s.authority_record(4).unwrap().status,
        AuthorityStatus::Active
    );
}

#[test]
fn admit_authority_shifts_state_root() {
    let mut s = InMemorySubstrate::new();
    let before = s.state_root();
    s.apply_intent(&Intent::AdmitAuthority {
        authority_id: 0,
        stake_gsx: 1,
        mldsa_public_key: vec![0xaa; 1952],
        bls_public_key: vec![0xbb; 48],
    })
    .unwrap();
    assert_ne!(s.state_root(), before);
}

#[test]
fn admit_validator_inserts_active_record() {
    let mut s = InMemorySubstrate::new();
    s.apply_intent(&Intent::AdmitValidator {
        validator_id: 0,
        stake_gsx: 3_000_000,
        mldsa_public_key: vec![0xaa; 1952],
        bls_public_key: vec![0xbb; 48],
    })
    .unwrap();
    let rec = s.validator_record(0).unwrap();
    assert_eq!(rec.status, ValidatorStatus::Active);
    assert_eq!(rec.stake_gsx, 3_000_000);
    assert_eq!(s.validator_count(), 1);
}

#[test]
fn admit_validator_duplicate_slot_rejected() {
    let mut s = InMemorySubstrate::new();
    s.apply_intent(&Intent::AdmitValidator {
        validator_id: 42,
        stake_gsx: 3_000_000,
        mldsa_public_key: vec![0xaa; 1952],
        bls_public_key: vec![0xbb; 48],
    })
    .unwrap();
    let err = s.apply_intent(&Intent::AdmitValidator {
        validator_id: 42,
        stake_gsx: 5_000_000,
        mldsa_public_key: vec![0xcc; 1952],
        bls_public_key: vec![0xdd; 48],
    });
    assert!(matches!(
        err,
        Err(ExecutionError::ValidatorSlotAlreadyOccupied { validator_id: 42 })
    ));
    assert_eq!(s.validator_record(42).unwrap().stake_gsx, 3_000_000);
}

#[test]
fn admit_validator_oversized_mldsa_pk_rejected() {
    let mut s = InMemorySubstrate::new();
    let err = s.apply_intent(&Intent::AdmitValidator {
        validator_id: 0,
        stake_gsx: 1,
        mldsa_public_key: vec![0xaa; 3000],
        bls_public_key: vec![0xbb; 48],
    });
    assert!(matches!(
        err,
        Err(ExecutionError::ValidatorFieldTooLong {
            field: "mldsa_pk",
            ..
        })
    ));
}

#[test]
fn admit_validator_oversized_bls_pk_rejected() {
    let mut s = InMemorySubstrate::new();
    let err = s.apply_intent(&Intent::AdmitValidator {
        validator_id: 0,
        stake_gsx: 1,
        mldsa_public_key: vec![0xaa; 1952],
        bls_public_key: vec![0xbb; 256],
    });
    assert!(matches!(
        err,
        Err(ExecutionError::ValidatorFieldTooLong {
            field: "bls_pk",
            ..
        })
    ));
}

#[test]
fn exit_validator_flips_active_to_exiting() {
    let mut s = InMemorySubstrate::new();
    s.apply_intent(&Intent::AdmitValidator {
        validator_id: 0,
        stake_gsx: 1_000,
        mldsa_public_key: vec![0xaa; 1952],
        bls_public_key: vec![0xbb; 48],
    })
    .unwrap();
    s.apply_intent(&Intent::ExitValidator { validator_id: 0 })
        .unwrap();
    let rec = s.validator_record(0).unwrap();
    assert_eq!(rec.status, ValidatorStatus::Exiting);
}

#[test]
fn exit_validator_unknown_slot_rejected() {
    let mut s = InMemorySubstrate::new();
    let err = s.apply_intent(&Intent::ExitValidator { validator_id: 42 });
    assert!(matches!(
        err,
        Err(ExecutionError::ValidatorNotFound { validator_id: 42 })
    ));
}

#[test]
fn exit_validator_double_exit_rejected() {
    let mut s = InMemorySubstrate::new();
    s.apply_intent(&Intent::AdmitValidator {
        validator_id: 0,
        stake_gsx: 1_000,
        mldsa_public_key: vec![0xaa; 1952],
        bls_public_key: vec![0xbb; 48],
    })
    .unwrap();
    s.apply_intent(&Intent::ExitValidator { validator_id: 0 })
        .unwrap();
    let err = s.apply_intent(&Intent::ExitValidator { validator_id: 0 });
    assert!(matches!(
        err,
        Err(ExecutionError::ValidatorNotActive { .. })
    ));
}

#[test]
fn eject_validator_flips_to_ejected() {
    let mut s = InMemorySubstrate::new();
    s.apply_intent(&Intent::AdmitValidator {
        validator_id: 0,
        stake_gsx: 1_000,
        mldsa_public_key: vec![0xaa; 1952],
        bls_public_key: vec![0xbb; 48],
    })
    .unwrap();
    s.apply_intent(&Intent::EjectValidator {
        validator_id: 0,
        proof_ref: [0xee; 32],
    })
    .unwrap();
    assert_eq!(
        s.validator_record(0).unwrap().status,
        ValidatorStatus::Ejected
    );
}

#[test]
fn authority_and_validator_id_namespaces_independent() {
    let mut s = InMemorySubstrate::new();
    s.apply_intent(&Intent::AdmitAuthority {
        authority_id: 0,
        stake_gsx: 15_000_000,
        mldsa_public_key: vec![0xaa; 1952],
        bls_public_key: vec![0xbb; 48],
    })
    .unwrap();
    s.apply_intent(&Intent::AdmitValidator {
        validator_id: 0,
        stake_gsx: 3_000_000,
        mldsa_public_key: vec![0xcc; 1952],
        bls_public_key: vec![0xdd; 48],
    })
    .unwrap();

    assert_eq!(
        s.authority_record(0).unwrap().status,
        AuthorityStatus::Active
    );
    assert_eq!(
        s.validator_record(0).unwrap().status,
        ValidatorStatus::Active
    );
    s.apply_intent(&Intent::EjectAuthority {
        authority_id: 0,
        proof_ref: [0; 32],
    })
    .unwrap();
    assert_eq!(
        s.authority_record(0).unwrap().status,
        AuthorityStatus::Ejected
    );
    assert_eq!(
        s.validator_record(0).unwrap().status,
        ValidatorStatus::Active
    );
}
