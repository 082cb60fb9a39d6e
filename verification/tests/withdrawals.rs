use gsx_dag::block::{Block, execute_block};
use gsx_dag::error::ExecutionError;
use gsx_dag::intent::Intent;
use gsx_dag::reserved;
use gsx_dag::staking::EXIT_COOLDOWN_BLOCKS;
use gsx_dag::substrate::{Address, Balance, InMemorySubstrate, Substrate};

fn addr(seed: u8) -> Address {
    [seed; 20]
}

fn admit_and_exit_authority(s: &mut InMemorySubstrate, src: Address, amount: Balance) {
    s.apply_intent(&Intent::AdmitAuthority {
        authority_id: 0,
        stake_gsx: 1,
        mldsa_public_key: vec![0xaa; 1952],
        bls_public_key: vec![0xbb; 48],
    })
    .unwrap();
    s.apply_intent(&Intent::DepositAuthorityStake {
        from: src,
        authority_id: 0,
        amount,
    })
    .unwrap();
    s.apply_intent(&Intent::ExitAuthority { authority_id: 0 })
        .unwrap();
    s.set_current_block_height(EXIT_COOLDOWN_BLOCKS + 1);
}

fn admit_and_exit_validator(s: &mut InMemorySubstrate, src: Address, amount: Balance) {
    s.apply_intent(&Intent::AdmitValidator {
        validator_id: 0,
        stake_gsx: 1,
        mldsa_public_key: vec![0xaa; 1952],
        bls_public_key: vec![0xbb; 48],
    })
    .unwrap();
    s.apply_intent(&Intent::DepositValidatorStake {
        from: src,
        validator_id: 0,
        amount,
    })
    .unwrap();
    s.apply_intent(&Intent::ExitValidator { validator_id: 0 })
        .unwrap();
    s.set_current_block_height(EXIT_COOLDOWN_BLOCKS + 1);
}

#[test]
fn withdraw_authority_stake_happy_path() {
    let mut s = InMemorySubstrate::from_balances(&[(addr(1), 10_000_000)]);
    admit_and_exit_authority(&mut s, addr(1), 7_000_000);
    s.apply_intent(&Intent::WithdrawAuthorityStake {
        to: addr(2),
        authority_id: 0,
        amount: 7_000_000,
    })
    .unwrap();
    assert_eq!(s.authority_deposited_stake(0), 0);
    assert_eq!(s.balance(&reserved::authority_stake_pool_address()), 0);
    assert_eq!(s.balance(&addr(2)), 7_000_000);
}

#[test]
fn withdraw_authority_stake_partial() {
    let mut s = InMemorySubstrate::from_balances(&[(addr(1), 10_000_000)]);
    admit_and_exit_authority(&mut s, addr(1), 8_000_000);
    s.apply_intent(&Intent::WithdrawAuthorityStake {
        to: addr(2),
        authority_id: 0,
        amount: 3_000_000,
    })
    .unwrap();
    assert_eq!(s.authority_deposited_stake(0), 5_000_000);
    assert_eq!(
        s.balance(&reserved::authority_stake_pool_address()),
        5_000_000
    );
    assert_eq!(s.balance(&addr(2)), 3_000_000);
}

#[test]
fn withdraw_authority_stake_active_slot_rejected() {
    let mut s = InMemorySubstrate::from_balances(&[(addr(1), 10_000_000)]);
    s.apply_intent(&Intent::AdmitAuthority {
        authority_id: 0,
        stake_gsx: 1,
        mldsa_public_key: vec![0xaa; 1952],
        bls_public_key: vec![0xbb; 48],
    })
    .unwrap();
    s.apply_intent(&Intent::DepositAuthorityStake {
        from: addr(1),
        authority_id: 0,
        amount: 5_000_000,
    })
    .unwrap();
    let before = s.state_root();
    let err = s.apply_intent(&Intent::WithdrawAuthorityStake {
        to: addr(2),
        authority_id: 0,
        amount: 1_000_000,
    });
    assert!(matches!(
        err,
        Err(ExecutionError::SlotNotExiting {
            ring: "authority",
            slot_id: 0,
            ..
        })
    ));
    assert_eq!(s.state_root(), before);
}

#[test]
fn withdraw_authority_stake_ejected_slot_rejected() {
    let mut s = InMemorySubstrate::from_balances(&[(addr(1), 10_000_000)]);
    s.apply_intent(&Intent::AdmitAuthority {
        authority_id: 0,
        stake_gsx: 1,
        mldsa_public_key: vec![0xaa; 1952],
        bls_public_key: vec![0xbb; 48],
    })
    .unwrap();
    s.apply_intent(&Intent::EjectAuthority {
        authority_id: 0,
        proof_ref: [0; 32],
    })
    .unwrap();
    let err = s.apply_intent(&Intent::WithdrawAuthorityStake {
        to: addr(2),
        authority_id: 0,
        amount: 1,
    });
    assert!(matches!(
        err,
        Err(ExecutionError::SlotNotExiting {
            ring: "authority",
            slot_id: 0,
            ..
        })
    ));
}

#[test]
fn withdraw_authority_stake_over_deposit_rejected_atomically() {
    let mut s = InMemorySubstrate::from_balances(&[(addr(1), 10_000_000)]);
    admit_and_exit_authority(&mut s, addr(1), 4_000_000);
    let before = s.state_root();
    let err = s.apply_intent(&Intent::WithdrawAuthorityStake {
        to: addr(2),
        authority_id: 0,
        amount: 5_000_000,
    });
    assert!(matches!(
        err,
        Err(ExecutionError::WithdrawalExceedsDeposit {
            ring: "authority",
            slot_id: 0,
            want: 5_000_000,
            have: 4_000_000,
        })
    ));
    assert_eq!(s.state_root(), before);
}

#[test]
fn withdraw_authority_stake_reserved_destination_rejected() {
    let mut s = InMemorySubstrate::from_balances(&[(addr(1), 10_000_000)]);
    admit_and_exit_authority(&mut s, addr(1), 4_000_000);
    let err = s.apply_intent(&Intent::WithdrawAuthorityStake {
        to: reserved::treasury_address(),
        authority_id: 0,
        amount: 1_000_000,
    });
    assert!(matches!(
        err,
        Err(ExecutionError::ReservedAddressTransferDenied { .. })
    ));
}

#[test]
fn withdraw_authority_stake_unknown_slot_rejected() {
    let mut s = InMemorySubstrate::new();
    let err = s.apply_intent(&Intent::WithdrawAuthorityStake {
        to: addr(2),
        authority_id: 42,
        amount: 1_000_000,
    });
    assert!(matches!(
        err,
        Err(ExecutionError::AuthorityNotFound { authority_id: 42 })
    ));
}

#[test]
fn withdraw_authority_stake_zero_amount_is_noop() {
    let mut s = InMemorySubstrate::from_balances(&[(addr(1), 10_000_000)]);
    admit_and_exit_authority(&mut s, addr(1), 4_000_000);
    let before = s.state_root();
    s.apply_intent(&Intent::WithdrawAuthorityStake {
        to: addr(2),
        authority_id: 0,
        amount: 0,
    })
    .unwrap();
    assert_eq!(s.state_root(), before);
    assert_eq!(s.authority_deposited_stake(0), 4_000_000);
}

#[test]
fn withdraw_validator_stake_happy_path() {
    let mut s = InMemorySubstrate::from_balances(&[(addr(1), 5_000_000)]);
    admit_and_exit_validator(&mut s, addr(1), 3_000_000);
    s.apply_intent(&Intent::WithdrawValidatorStake {
        to: addr(2),
        validator_id: 0,
        amount: 3_000_000,
    })
    .unwrap();
    assert_eq!(s.validator_deposited_stake(0), 0);
    assert_eq!(s.balance(&reserved::validator_stake_pool_address()), 0);
    assert_eq!(s.balance(&addr(2)), 3_000_000);
}

#[test]
fn withdraw_validator_stake_partial() {
    let mut s = InMemorySubstrate::from_balances(&[(addr(1), 5_000_000)]);
    admit_and_exit_validator(&mut s, addr(1), 4_000_000);
    s.apply_intent(&Intent::WithdrawValidatorStake {
        to: addr(2),
        validator_id: 0,
        amount: 1_500_000,
    })
    .unwrap();
    assert_eq!(s.validator_deposited_stake(0), 2_500_000);
    assert_eq!(
        s.balance(&reserved::validator_stake_pool_address()),
        2_500_000
    );
    assert_eq!(s.balance(&addr(2)), 1_500_000);
}

#[test]
fn withdraw_validator_stake_active_slot_rejected() {
    let mut s = InMemorySubstrate::from_balances(&[(addr(1), 5_000_000)]);
    s.apply_intent(&Intent::AdmitValidator {
        validator_id: 0,
        stake_gsx: 1,
        mldsa_public_key: vec![0xaa; 1952],
        bls_public_key: vec![0xbb; 48],
    })
    .unwrap();
    s.apply_intent(&Intent::DepositValidatorStake {
        from: addr(1),
        validator_id: 0,
        amount: 3_000_000,
    })
    .unwrap();
    let err = s.apply_intent(&Intent::WithdrawValidatorStake {
        to: addr(2),
        validator_id: 0,
        amount: 1,
    });
    assert!(matches!(
        err,
        Err(ExecutionError::SlotNotExiting {
            ring: "validator",
            slot_id: 0,
            ..
        })
    ));
}

#[test]
fn withdraw_authority_does_not_touch_validator_pool() {
    let mut s = InMemorySubstrate::from_balances(&[(addr(1), 20_000_000)]);
    admit_and_exit_authority(&mut s, addr(1), 5_000_000);
    s.apply_intent(&Intent::AdmitValidator {
        validator_id: 0,
        stake_gsx: 1,
        mldsa_public_key: vec![0xcc; 1952],
        bls_public_key: vec![0xdd; 48],
    })
    .unwrap();
    s.apply_intent(&Intent::DepositValidatorStake {
        from: addr(1),
        validator_id: 0,
        amount: 4_000_000,
    })
    .unwrap();
    s.apply_intent(&Intent::WithdrawAuthorityStake {
        to: addr(2),
        authority_id: 0,
        amount: 5_000_000,
    })
    .unwrap();
    assert_eq!(s.balance(&reserved::authority_stake_pool_address()), 0);
    assert_eq!(
        s.balance(&reserved::validator_stake_pool_address()),
        4_000_000
    );
    assert_eq!(s.validator_deposited_stake(0), 4_000_000);
}

#[test]
fn exit_authority_anchors_exit_block_height() {
    let mut s = InMemorySubstrate::from_balances(&[(addr(1), 1_000_000)]);
    s.set_current_block_height(42);
    s.apply_intent(&Intent::AdmitAuthority {
        authority_id: 0,
        stake_gsx: 1,
        mldsa_public_key: vec![0xaa; 1952],
        bls_public_key: vec![0xbb; 48],
    })
    .unwrap();
    s.apply_intent(&Intent::ExitAuthority { authority_id: 0 })
        .unwrap();
    assert_eq!(s.authority_record(0).unwrap().exit_block_height, 42);
}

#[test]
fn withdraw_authority_inside_cooldown_rejected_atomically() {
    let mut s = InMemorySubstrate::from_balances(&[(addr(1), 10_000_000)]);
    s.set_current_block_height(100);
    s.apply_intent(&Intent::AdmitAuthority {
        authority_id: 0,
        stake_gsx: 1,
        mldsa_public_key: vec![0xaa; 1952],
        bls_public_key: vec![0xbb; 48],
    })
    .unwrap();
    s.apply_intent(&Intent::DepositAuthorityStake {
        from: addr(1),
        authority_id: 0,
        amount: 5_000_000,
    })
    .unwrap();
    s.apply_intent(&Intent::ExitAuthority { authority_id: 0 })
        .unwrap();
    s.set_current_block_height(100 + EXIT_COOLDOWN_BLOCKS - 1);
    let before = s.state_root();
    let err = s.apply_intent(&Intent::WithdrawAuthorityStake {
        to: addr(2),
        authority_id: 0,
        amount: 1_000_000,
    });
    assert!(matches!(
        err,
        Err(ExecutionError::ExitCooldownNotElapsed {
            ring: "authority",
            slot_id: 0,
            ..
        })
    ));
    assert_eq!(s.state_root(), before);
}

#[test]
fn withdraw_authority_at_cooldown_boundary_succeeds() {
    let mut s = InMemorySubstrate::from_balances(&[(addr(1), 10_000_000)]);
    s.set_current_block_height(7);
    s.apply_intent(&Intent::AdmitAuthority {
        authority_id: 0,
        stake_gsx: 1,
        mldsa_public_key: vec![0xaa; 1952],
        bls_public_key: vec![0xbb; 48],
    })
    .unwrap();
    s.apply_intent(&Intent::DepositAuthorityStake {
        from: addr(1),
        authority_id: 0,
        amount: 5_000_000,
    })
    .unwrap();
    s.apply_intent(&Intent::ExitAuthority { authority_id: 0 })
        .unwrap();
    s.set_current_block_height(7 + EXIT_COOLDOWN_BLOCKS);
    s.apply_intent(&Intent::WithdrawAuthorityStake {
        to: addr(2),
        authority_id: 0,
        amount: 5_000_000,
    })
    .unwrap();
    assert_eq!(s.authority_deposited_stake(0), 0);
    assert_eq!(s.balance(&addr(2)), 5_000_000);
}

#[test]
fn withdraw_validator_inside_cooldown_rejected() {
    let mut s = InMemorySubstrate::from_balances(&[(addr(1), 5_000_000)]);
    s.set_current_block_height(100);
    s.apply_intent(&Intent::AdmitValidator {
        validator_id: 0,
        stake_gsx: 1,
        mldsa_public_key: vec![0xaa; 1952],
        bls_public_key: vec![0xbb; 48],
    })
    .unwrap();
    s.apply_intent(&Intent::DepositValidatorStake {
        from: addr(1),
        validator_id: 0,
        amount: 1_000_000,
    })
    .unwrap();
    s.apply_intent(&Intent::ExitValidator { validator_id: 0 })
        .unwrap();
    s.set_current_block_height(100 + EXIT_COOLDOWN_BLOCKS / 2);
    let err = s.apply_intent(&Intent::WithdrawValidatorStake {
        to: addr(2),
        validator_id: 0,
        amount: 100,
    });
    assert!(matches!(
        err,
        Err(ExecutionError::ExitCooldownNotElapsed {
            ring: "validator",
            slot_id: 0,
            ..
        })
    ));
}

#[test]
fn execute_block_propagates_round_to_substrate() {
    let mut s = InMemorySubstrate::new();
    let block = Block {
        round: 12345,
        intents: vec![],
    };
    let _ = execute_block(&mut s, &block);
    assert_eq!(s.current_block_height(), 12345);
}

#[test]
fn genesis_allocation_credits_all_at_block_zero() {
    let mut s = InMemorySubstrate::new();
    assert_eq!(s.current_block_height(), 0);
    s.apply_intent(&Intent::GenesisAllocation {
        allocations: vec![
            (addr(1), 100_000_000),
            (addr(2), 50_000_000),
            (addr(3), 25_000_000),
        ],
    })
    .unwrap();
    assert_eq!(s.balance(&addr(1)), 100_000_000);
    assert_eq!(s.balance(&addr(2)), 50_000_000);
    assert_eq!(s.balance(&addr(3)), 25_000_000);
}

#[test]
fn genesis_allocation_is_additive_across_intents() {
    let mut s = InMemorySubstrate::new();
    s.apply_intent(&Intent::GenesisAllocation {
        allocations: vec![(addr(1), 10_000_000)],
    })
    .unwrap();
    s.apply_intent(&Intent::GenesisAllocation {
        allocations: vec![(addr(1), 5_000_000)],
    })
    .unwrap();
    assert_eq!(s.balance(&addr(1)), 15_000_000);
}

#[test]
fn genesis_allocation_can_credit_reserved_addresses() {
    let mut s = InMemorySubstrate::new();
    s.apply_intent(&Intent::GenesisAllocation {
        allocations: vec![
            (reserved::treasury_address(), 200_000_000_000),
            (reserved::insurance_pool_address(), 100_000_000_000),
        ],
    })
    .unwrap();
    assert_eq!(s.balance(&reserved::treasury_address()), 200_000_000_000);
    assert_eq!(
        s.balance(&reserved::insurance_pool_address()),
        100_000_000_000
    );
}

#[test]
fn genesis_allocation_after_bootstrap_rejected() {
    let mut s = InMemorySubstrate::new();
    s.set_current_block_height(1);
    let before = s.state_root();
    let err = s.apply_intent(&Intent::GenesisAllocation {
        allocations: vec![(addr(1), 100)],
    });
    assert!(matches!(
        err,
        Err(ExecutionError::GenesisAfterBootstrap {
            current_block_height: 1,
        })
    ));
    assert_eq!(s.state_root(), before);
}
