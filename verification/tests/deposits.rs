use gsx_dag::error::ExecutionError;
use gsx_dag::intent::Intent;
use gsx_dag::reserved;
use gsx_dag::substrate::{Address, InMemorySubstrate, Substrate};
use gsx_dag::validator_registry::ValidatorStatus;

fn addr(seed: u8) -> Address {
    [seed; 20]
}

#[test]
fn multiple_validators_independent() {
    let mut s = InMemorySubstrate::new();
    for i in 0..10 {
        s.apply_intent(&Intent::AdmitValidator {
            validator_id: i,
            stake_gsx: 3_000_000 + i as u64,
            mldsa_public_key: vec![i as u8; 1952],
            bls_public_key: vec![i as u8; 48],
        })
        .unwrap();
    }
    assert_eq!(s.validator_count(), 10);
    s.apply_intent(&Intent::ExitValidator { validator_id: 5 })
        .unwrap();
    s.apply_intent(&Intent::EjectValidator {
        validator_id: 7,
        proof_ref: [0xff; 32],
    })
    .unwrap();
    assert_eq!(
        s.validator_record(0).unwrap().status,
        ValidatorStatus::Active
    );
    assert_eq!(
        s.validator_record(5).unwrap().status,
        ValidatorStatus::Exiting
    );
    assert_eq!(
        s.validator_record(7).unwrap().status,
        ValidatorStatus::Ejected
    );
    assert_eq!(
        s.validator_record(9).unwrap().status,
        ValidatorStatus::Active
    );
}

#[test]
fn deposit_authority_stake_happy_path() {
    let mut s = InMemorySubstrate::from_balances(&[(addr(1), 20_000_000)]);
    s.apply_intent(&Intent::AdmitAuthority {
        authority_id: 0,
        stake_gsx: 15_000_000,
        mldsa_public_key: vec![0xaa; 1952],
        bls_public_key: vec![0xbb; 48],
    })
    .unwrap();

    s.apply_intent(&Intent::DepositAuthorityStake {
        from: addr(1),
        authority_id: 0,
        amount: 15_000_000,
    })
    .unwrap();
    assert_eq!(s.balance(&addr(1)), 5_000_000);
    assert_eq!(
        s.balance(&reserved::authority_stake_pool_address()),
        15_000_000
    );
}

#[test]
fn deposit_authority_stake_reserved_from_rejected() {
    let mut s = InMemorySubstrate::new();
    s.apply_intent(&Intent::AdmitAuthority {
        authority_id: 0,
        stake_gsx: 1,
        mldsa_public_key: vec![0xaa; 1952],
        bls_public_key: vec![0xbb; 48],
    })
    .unwrap();
    let err = s.apply_intent(&Intent::DepositAuthorityStake {
        from: reserved::treasury_address(),
        authority_id: 0,
        amount: 1_000,
    });
    assert!(matches!(
        err,
        Err(ExecutionError::ReservedAddressTransferDenied { .. })
    ));
}

#[test]
fn deposit_authority_stake_insufficient_balance_atomic() {
    let mut s = InMemorySubstrate::from_balances(&[(addr(1), 100)]);
    s.apply_intent(&Intent::AdmitAuthority {
        authority_id: 0,
        stake_gsx: 1,
        mldsa_public_key: vec![0xaa; 1952],
        bls_public_key: vec![0xbb; 48],
    })
    .unwrap();
    let before = s.state_root();
    let err = s.apply_intent(&Intent::DepositAuthorityStake {
        from: addr(1),
        authority_id: 0,
        amount: 1_000,
    });
    assert!(matches!(
        err,
        Err(ExecutionError::InsufficientBalance { .. })
    ));
    assert_eq!(s.balance(&addr(1)), 100);
    assert_eq!(s.balance(&reserved::authority_stake_pool_address()), 0);
    assert_eq!(s.state_root(), before);
}

#[test]
fn deposit_authority_stake_unknown_slot_rejected() {
    let mut s = InMemorySubstrate::from_balances(&[(addr(1), 1_000)]);
    let err = s.apply_intent(&Intent::DepositAuthorityStake {
        from: addr(1),
        authority_id: 42,
        amount: 500,
    });
    assert!(matches!(
        err,
        Err(ExecutionError::AuthorityNotFound { authority_id: 42 })
    ));
    assert_eq!(s.balance(&addr(1)), 1_000);
}

#[test]
fn deposit_authority_stake_non_active_slot_rejected() {
    let mut s = InMemorySubstrate::from_balances(&[(addr(1), 1_000_000)]);
    s.apply_intent(&Intent::AdmitAuthority {
        authority_id: 0,
        stake_gsx: 1,
        mldsa_public_key: vec![0xaa; 1952],
        bls_public_key: vec![0xbb; 48],
    })
    .unwrap();
    s.apply_intent(&Intent::ExitAuthority { authority_id: 0 })
        .unwrap();
    let err = s.apply_intent(&Intent::DepositAuthorityStake {
        from: addr(1),
        authority_id: 0,
        amount: 500_000,
    });
    assert!(matches!(
        err,
        Err(ExecutionError::AuthorityNotActive { .. })
    ));
}

#[test]
fn deposit_authority_stake_zero_amount_is_noop() {
    let mut s = InMemorySubstrate::from_balances(&[(addr(1), 100)]);
    s.apply_intent(&Intent::AdmitAuthority {
        authority_id: 0,
        stake_gsx: 1,
        mldsa_public_key: vec![0xaa; 1952],
        bls_public_key: vec![0xbb; 48],
    })
    .unwrap();
    let before = s.state_root();
    s.apply_intent(&Intent::DepositAuthorityStake {
        from: addr(1),
        authority_id: 0,
        amount: 0,
    })
    .unwrap();
    assert_eq!(s.state_root(), before);
}

#[test]
fn deposit_authority_stake_multi_slot_pools_together() {
    let mut s =
        InMemorySubstrate::from_balances(&[(addr(1), 20_000_000), (addr(2), 20_000_000)]);
    for i in 0..2 {
        s.apply_intent(&Intent::AdmitAuthority {
            authority_id: i,
            stake_gsx: 1,
            mldsa_public_key: vec![i as u8; 1952],
            bls_public_key: vec![i as u8; 48],
        })
        .unwrap();
    }
    s.apply_intent(&Intent::DepositAuthorityStake {
        from: addr(1),
        authority_id: 0,
        amount: 15_000_000,
    })
    .unwrap();
    s.apply_intent(&Intent::DepositAuthorityStake {
        from: addr(2),
        authority_id: 1,
        amount: 15_000_000,
    })
    .unwrap();
    assert_eq!(
        s.balance(&reserved::authority_stake_pool_address()),
        30_000_000
    );
}

#[test]
fn deposit_validator_stake_happy_path() {
    let mut s = InMemorySubstrate::from_balances(&[(addr(1), 5_000_000)]);
    s.apply_intent(&Intent::AdmitValidator {
        validator_id: 0,
        stake_gsx: 3_000_000,
        mldsa_public_key: vec![0xaa; 1952],
        bls_public_key: vec![0xbb; 48],
    })
    .unwrap();
    s.apply_intent(&Intent::DepositValidatorStake {
        from: addr(1),
        validator_id: 0,
        amount: 3_000_000,
    })
    .unwrap();
    assert_eq!(s.balance(&addr(1)), 2_000_000);
    assert_eq!(
        s.balance(&reserved::validator_stake_pool_address()),
        3_000_000
    );
}

#[test]
fn deposit_validator_stake_unknown_slot_rejected() {
    let mut s = InMemorySubstrate::from_balances(&[(addr(1), 1_000)]);
    let err = s.apply_intent(&Intent::DepositValidatorStake {
        from: addr(1),
        validator_id: 42,
        amount: 500,
    });
    assert!(matches!(
        err,
        Err(ExecutionError::ValidatorNotFound { validator_id: 42 })
    ));
}

#[test]
fn deposit_validator_stake_non_active_slot_rejected() {
    let mut s = InMemorySubstrate::from_balances(&[(addr(1), 1_000)]);
    s.apply_intent(&Intent::AdmitValidator {
        validator_id: 0,
        stake_gsx: 1,
        mldsa_public_key: vec![0xaa; 1952],
        bls_public_key: vec![0xbb; 48],
    })
    .unwrap();
    s.apply_intent(&Intent::EjectValidator {
        validator_id: 0,
        proof_ref: [0; 32],
    })
    .unwrap();
    let err = s.apply_intent(&Intent::DepositValidatorStake {
        from: addr(1),
        validator_id: 0,
        amount: 500,
    });
    assert!(matches!(
        err,
        Err(ExecutionError::ValidatorNotActive { .. })
    ));
}

#[test]
fn authority_and_validator_stake_pools_independent() {
    let mut s = InMemorySubstrate::from_balances(&[(addr(1), 30_000_000)]);
    s.apply_intent(&Intent::AdmitAuthority {
        authority_id: 0,
        stake_gsx: 1,
        mldsa_public_key: vec![0xaa; 1952],
        bls_public_key: vec![0xbb; 48],
    })
    .unwrap();
    s.apply_intent(&Intent::AdmitValidator {
        validator_id: 0,
        stake_gsx: 1,
        mldsa_public_key: vec![0xcc; 1952],
        bls_public_key: vec![0xdd; 48],
    })
    .unwrap();
    s.apply_intent(&Intent::DepositAuthorityStake {
        from: addr(1),
        authority_id: 0,
        amount: 15_000_000,
    })
    .unwrap();
    s.apply_intent(&Intent::DepositValidatorStake {
        from: addr(1),
        validator_id: 0,
        amount: 3_000_000,
    })
    .unwrap();
    assert_eq!(
        s.balance(&reserved::authority_stake_pool_address()),
        15_000_000
    );
    assert_eq!(
        s.balance(&reserved::validator_stake_pool_address()),
        3_000_000
    );
    assert_eq!(s.balance(&addr(1)), 12_000_000);
}

#[test]
fn deposit_authority_stake_bumps_per_slot_deposited_stake() {
    let mut s = InMemorySubstrate::from_balances(&[(addr(1), 10_000_000)]);
    s.apply_intent(&Intent::AdmitAuthority {
        authority_id: 0,
        stake_gsx: 1,
        mldsa_public_key: vec![0xaa; 1952],
        bls_public_key: vec![0xbb; 48],
    })
    .unwrap();
    assert_eq!(s.authority_deposited_stake(0), 0);
    s.apply_intent(&Intent::DepositAuthorityStake {
        from: addr(1),
        authority_id: 0,
        amount: 7_500_000,
    })
    .unwrap();
    assert_eq!(s.authority_deposited_stake(0), 7_500_000);
}

#[test]
fn deposit_authority_stake_accumulates_per_slot() {
    let mut s = InMemorySubstrate::from_balances(&[(addr(1), 10_000_000)]);
    s.apply_intent(&Intent::AdmitAuthority {
        authority_id: 0,
        stake_gsx: 1,
        mldsa_public_key: vec![0xaa; 1952],
        bls_public_key: vec![0xbb; 48],
    })
    .unwrap();
    for amt in [1_000_000u128, 2_000_000, 3_000_000] {
        s.apply_intent(&Intent::DepositAuthorityStake {
            from: addr(1),
            authority_id: 0,
            amount: amt,
        })
        .unwrap();
    }
    assert_eq!(s.authority_deposited_stake(0), 6_000_000);
    assert_eq!(s.balance(&addr(1)), 4_000_000);
    assert_eq!(
        s.balance(&reserved::authority_stake_pool_address()),
        6_000_000
    );
}

#[test]
fn deposit_authority_stake_per_slot_tracking_is_independent() {
    let mut s =
        InMemorySubstrate::from_balances(&[(addr(1), 20_000_000), (addr(2), 20_000_000)]);
    for i in 0..2 {
        s.apply_intent(&Intent::AdmitAuthority {
            authority_id: i,
            stake_gsx: 1,
            mldsa_public_key: vec![i as u8; 1952],
            bls_public_key: vec![i as u8; 48],
        })
        .unwrap();
    }
    s.apply_intent(&Intent::DepositAuthorityStake {
        from: addr(1),
        authority_id: 0,
        amount: 4_000_000,
    })
    .unwrap();
    s.apply_intent(&Intent::DepositAuthorityStake {
        from: addr(2),
        authority_id: 1,
        amount: 11_000_000,
    })
    .unwrap();
    assert_eq!(s.authority_deposited_stake(0), 4_000_000);
    assert_eq!(s.authority_deposited_stake(1), 11_000_000);
    assert_eq!(
        s.balance(&reserved::authority_stake_pool_address()),
        15_000_000
    );
}

#[test]
fn deposit_authority_stake_rejected_leaves_deposited_stake_unchanged() {
    let mut s = InMemorySubstrate::from_balances(&[(addr(1), 100)]);
    s.apply_intent(&Intent::AdmitAuthority {
        authority_id: 0,
        stake_gsx: 1,
        mldsa_public_key: vec![0xaa; 1952],
        bls_public_key: vec![0xbb; 48],
    })
    .unwrap();
    let _ = s.apply_intent(&Intent::DepositAuthorityStake {
        from: addr(1),
        authority_id: 0,
        amount: 1_000,
    });
    assert_eq!(s.authority_deposited_stake(0), 0);
}

#[test]
fn deposit_validator_stake_bumps_per_slot_deposited_stake() {
    let mut s = InMemorySubstrate::from_balances(&[(addr(1), 10_000_000)]);
    s.apply_intent(&Intent::AdmitValidator {
        validator_id: 0,
        stake_gsx: 1,
        mldsa_public_key: vec![0xaa; 1952],
        bls_public_key: vec![0xbb; 48],
    })
    .unwrap();
    assert_eq!(s.validator_deposited_stake(0), 0);
    s.apply_intent(&Intent::DepositValidatorStake {
        from: addr(1),
        validator_id: 0,
        amount: 4_200_000,
    })
    .unwrap();
    assert_eq!(s.validator_deposited_stake(0), 4_200_000);
}

#[test]
fn deposit_validator_stake_accumulates_per_slot() {
    let mut s = InMemorySubstrate::from_balances(&[(addr(1), 10_000_000)]);
    s.apply_intent(&Intent::AdmitValidator {
        validator_id: 0,
        stake_gsx: 1,
        mldsa_public_key: vec![0xaa; 1952],
        bls_public_key: vec![0xbb; 48],
    })
    .unwrap();
    for amt in [500_000u128, 1_500_000, 2_000_000] {
        s.apply_intent(&Intent::DepositValidatorStake {
            from: addr(1),
            validator_id: 0,
            amount: amt,
        })
        .unwrap();
    }
    assert_eq!(s.validator_deposited_stake(0), 4_000_000);
}

#[test]
fn deposited_stake_helpers_return_zero_for_unknown_slots() {
    let s = InMemorySubstrate::new();
    assert_eq!(s.authority_deposited_stake(0), 0);
    assert_eq!(s.validator_deposited_stake(0), 0);
    assert_eq!(s.authority_deposited_stake(99_999), 0);
    assert_eq!(s.validator_deposited_stake(99_999), 0);
}

#[test]
fn eject_authority_drains_deposited_stake_to_waterfall() {
    let mut s = InMemorySubstrate::from_balances(&[(addr(1), 10_000_000)]);
    s.apply_intent(&Intent::AdmitAuthority {
        authority_id: 0,
        stake_gsx: 1,
        mldsa_public_key: vec![0xaa; 1952],
        bls_public_key: vec![0xbb; 48],
    })
    .unwrap();
    s.apply_intent(&Intent::DepositAuthorityStake {
        from: addr(1),
        authority_id: 0,
        amount: 10_000_000,
    })
    .unwrap();
    assert_eq!(s.authority_deposited_stake(0), 10_000_000);
    assert_eq!(
        s.balance(&reserved::authority_stake_pool_address()),
        10_000_000
    );

    s.apply_intent(&Intent::EjectAuthority {
        authority_id: 0,
        proof_ref: [0xee; 32],
    })
    .unwrap();

    assert_eq!(s.authority_deposited_stake(0), 0);
    assert_eq!(s.balance(&reserved::authority_stake_pool_address()), 0);
    assert_eq!(s.balance(&reserved::insurance_pool_address()), 7_000_000);
    assert_eq!(s.balance(&reserved::treasury_address()), 3_000_000);
    assert_eq!(
        s.authority_record(0).unwrap().status,
        gsx_dag::authority_registry::AuthorityStatus::Ejected
    );
}

#[test]
fn eject_authority_zero_deposit_is_status_only() {
    let mut s = InMemorySubstrate::new();
    s.apply_intent(&Intent::AdmitAuthority {
        authority_id: 0,
        stake_gsx: 1,
        mldsa_public_key: vec![0xaa; 1952],
        bls_public_key: vec![0xbb; 48],
    })
    .unwrap();
    s.apply_intent(&Intent::EjectAuthority {
        authority_id: 0,
        proof_ref: [0; 32],
    })
    .unwrap();
    assert_eq!(s.balance(&reserved::authority_stake_pool_address()), 0);
    assert_eq!(s.balance(&reserved::insurance_pool_address()), 0);
    assert_eq!(s.balance(&reserved::treasury_address()), 0);
    assert_eq!(
        s.authority_record(0).unwrap().status,
        gsx_dag::authority_registry::AuthorityStatus::Ejected
    );
}

#[test]
fn eject_authority_drain_is_per_slot_independent() {
    let mut s =
        InMemorySubstrate::from_balances(&[(addr(1), 20_000_000), (addr(2), 20_000_000)]);
    for i in 0..2 {
        s.apply_intent(&Intent::AdmitAuthority {
            authority_id: i,
            stake_gsx: 1,
            mldsa_public_key: vec![i as u8; 1952],
            bls_public_key: vec![i as u8; 48],
        })
        .unwrap();
    }
    s.apply_intent(&Intent::DepositAuthorityStake {
        from: addr(1),
        authority_id: 0,
        amount: 6_000_000,
    })
    .unwrap();
    s.apply_intent(&Intent::DepositAuthorityStake {
        from: addr(2),
        authority_id: 1,
        amount: 14_000_000,
    })
    .unwrap();

    s.apply_intent(&Intent::EjectAuthority {
        authority_id: 0,
        proof_ref: [0; 32],
    })
    .unwrap();

    assert_eq!(s.authority_deposited_stake(0), 0);
    assert_eq!(s.authority_deposited_stake(1), 14_000_000);
    assert_eq!(
        s.balance(&reserved::authority_stake_pool_address()),
        14_000_000
    );
    assert_eq!(s.balance(&reserved::insurance_pool_address()), 4_200_000);
    assert_eq!(s.balance(&reserved::treasury_address()), 1_800_000);
}

#[test]
fn eject_authority_from_exiting_still_slashes() {
    let mut s = InMemorySubstrate::from_balances(&[(addr(1), 10_000_000)]);
    s.apply_intent(&Intent::AdmitAuthority {
        authority_id: 0,
        stake_gsx: 1,
        mldsa_public_key: vec![0xaa; 1952],
        bls_public_key: vec![0xbb; 48],
    })
    .unwrap();
    s.apply_intent(&Intent::DepositAuthorityStake {
        from: addr(1),
        authority_id: 0,
        amount: 5_000_000,
    })
    .unwrap();
    s.apply_intent(&Intent::ExitAuthority { authority_id: 0 })
        .unwrap();
    s.apply_intent(&Intent::EjectAuthority {
        authority_id: 0,
        proof_ref: [0; 32],
    })
    .unwrap();
    assert_eq!(s.authority_deposited_stake(0), 0);
    assert_eq!(s.balance(&reserved::authority_stake_pool_address()), 0);
    assert_eq!(s.balance(&reserved::insurance_pool_address()), 3_500_000);
    assert_eq!(s.balance(&reserved::treasury_address()), 1_500_000);
}

#[test]
fn eject_validator_drains_deposited_stake_to_waterfall() {
    let mut s = InMemorySubstrate::from_balances(&[(addr(1), 5_000_000)]);
    s.apply_intent(&Intent::AdmitValidator {
        validator_id: 0,
        stake_gsx: 1,
        mldsa_public_key: vec![0xaa; 1952],
        bls_public_key: vec![0xbb; 48],
    })
    .unwrap();
    s.apply_intent(&Intent::DepositValidatorStake {
        from: addr(1),
        validator_id: 0,
        amount: 5_000_000,
    })
    .unwrap();
    s.apply_intent(&Intent::EjectValidator {
        validator_id: 0,
        proof_ref: [0xee; 32],
    })
    .unwrap();
    assert_eq!(s.validator_deposited_stake(0), 0);
    assert_eq!(s.balance(&reserved::validator_stake_pool_address()), 0);
    assert_eq!(s.balance(&reserved::insurance_pool_address()), 3_500_000);
    assert_eq!(s.balance(&reserved::treasury_address()), 1_500_000);
    assert_eq!(
        s.validator_record(0).unwrap().status,
        gsx_dag::validator_registry::ValidatorStatus::Ejected
    );
}

#[test]
fn eject_authority_does_not_touch_validator_pool() {
    let mut s = InMemorySubstrate::from_balances(&[(addr(1), 20_000_000)]);
    s.apply_intent(&Intent::AdmitAuthority {
        authority_id: 0,
        stake_gsx: 1,
        mldsa_public_key: vec![0xaa; 1952],
        bls_public_key: vec![0xbb; 48],
    })
    .unwrap();
    s.apply_intent(&Intent::AdmitValidator {
        validator_id: 0,
        stake_gsx: 1,
        mldsa_public_key: vec![0xcc; 1952],
        bls_public_key: vec![0xdd; 48],
    })
    .unwrap();
    s.apply_intent(&Intent::DepositAuthorityStake {
        from: addr(1),
        authority_id: 0,
        amount: 8_000_000,
    })
    .unwrap();
    s.apply_intent(&Intent::DepositValidatorStake {
        from: addr(1),
        validator_id: 0,
        amount: 2_000_000,
    })
    .unwrap();
    s.apply_intent(&Intent::EjectAuthority {
        authority_id: 0,
        proof_ref: [0; 32],
    })
    .unwrap();
    assert_eq!(s.balance(&reserved::authority_stake_pool_address()), 0);
    assert_eq!(
        s.balance(&reserved::validator_stake_pool_address()),
        2_000_000
    );
    assert_eq!(s.validator_deposited_stake(0), 2_000_000);
}

#[test]
fn eject_validator_never_deposited_is_status_only() {
    let mut s = InMemorySubstrate::new();
    s.apply_intent(&Intent::AdmitValidator {
        validator_id: 0,
        stake_gsx: 1,
        mldsa_public_key: vec![0xaa; 1952],
        bls_public_key: vec![0xbb; 48],
    })
    .unwrap();
    s.apply_intent(&Intent::EjectValidator {
        validator_id: 0,
        proof_ref: [0; 32],
    })
    .unwrap();
    assert_eq!(s.balance(&reserved::validator_stake_pool_address()), 0);
    assert_eq!(s.balance(&reserved::insurance_pool_address()), 0);
    assert_eq!(s.balance(&reserved::treasury_address()), 0);
    assert_eq!(s.validator_deposited_stake(0), 0);
}
