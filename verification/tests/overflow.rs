use gsx_dag::error::ExecutionError;
use gsx_dag::intent::{Intent, RewardsRing};
use gsx_dag::reserved;
use gsx_dag::staking::EXIT_COOLDOWN_BLOCKS;
use gsx_dag::substrate::{Address, Balance, InMemorySubstrate, Substrate};

fn addr(seed: u8) -> Address {
    [seed; 20]
}

fn admit_and_exit_authority(s: &mut InMemorySubstrate, src: Address, amount: Balance) {
    s.apply_intent(&Intent::AdmitAuthority {
        authority_id: 0,
        stake_gsx: 1,
        mldsa_public_key: vec![0xaa; 1952],
        bls_public_key: vec![0xbb; 48],
    })
    .unwrap();
    s.apply_intent(&Intent::DepositAuthorityStake {
        from: src,
        authority_id: 0,
        amount,
    })
    .unwrap();
    s.apply_intent(&Intent::ExitAuthority { authority_id: 0 })
        .unwrap();
    s.set_current_block_height(EXIT_COOLDOWN_BLOCKS + 1);
}

fn fill_authority_pool(s: &mut InMemorySubstrate, epoch: u64, amount: Balance) {
    s.apply_intent(&Intent::MintInflation {
        epoch,
        authority_share: amount,
        validator_share: 0,
        treasury_share: 0,
    })
    .unwrap();
}

#[test]
fn mint_inflation_overflow_rolls_back_atomically() {
    let mut s = InMemorySubstrate::new();
    s.apply_intent(&Intent::GenesisAllocation {
        allocations: vec![(reserved::treasury_address(), Balance::MAX)],
    })
    .unwrap();
    let before = s.state_root();
    let err = s.apply_intent(&Intent::MintInflation {
        epoch: 1,
        authority_share: 100,
        validator_share: 200,
        treasury_share: 1,
    });
    assert!(matches!(
        err,
        Err(ExecutionError::DistributionOverflow { .. })
    ));
    assert_eq!(s.state_root(), before);
    assert_eq!(s.balance(&reserved::authority_rewards_pool_address()), 0);
    assert_eq!(s.balance(&reserved::validator_rewards_pool_address()), 0);
    assert_eq!(s.last_minted_inflation_epoch(), 0);
}

#[test]
fn genesis_allocation_entry_overflow_rolls_back_atomically() {
    let mut s = InMemorySubstrate::new();
    let before = s.state_root();
    let err = s.apply_intent(&Intent::GenesisAllocation {
        allocations: vec![
            (addr(1), 100),
            (addr(2), 200),
            (addr(3), Balance::MAX),
            (addr(3), 1),
        ],
    });
    assert!(matches!(
        err,
        Err(ExecutionError::DistributionOverflow { .. })
    ));
    assert_eq!(s.state_root(), before);
    assert_eq!(s.balance(&addr(1)), 0);
    assert_eq!(s.balance(&addr(2)), 0);
    assert_eq!(s.balance(&addr(3)), 0);
}

#[test]
fn distribute_rewards_recipient_overflow_rolls_back_atomically() {
    let mut s = InMemorySubstrate::new();
    fill_authority_pool(&mut s, 1, 500);
    s.apply_intent(&Intent::GenesisAllocation {
        allocations: vec![(addr(2), Balance::MAX)],
    })
    .unwrap();
    let before = s.state_root();
    let err = s.apply_intent(&Intent::DistributeRewards {
        epoch: 1,
        ring: RewardsRing::Authority,
        recipients: vec![(addr(1), 100), (addr(2), 1)],
    });
    assert!(matches!(
        err,
        Err(ExecutionError::DistributionOverflow { .. })
    ));
    assert_eq!(s.state_root(), before);
    assert_eq!(s.balance(&addr(1)), 0);
    assert_eq!(s.balance(&reserved::authority_rewards_pool_address()), 500);
    assert_eq!(s.last_distributed_rewards_epoch(RewardsRing::Authority), 0);
}

#[test]
fn deposit_authority_stake_pool_overflow_rolls_back_atomically() {
    let mut s = InMemorySubstrate::from_balances(&[(addr(1), 1_000)]);
    s.apply_intent(&Intent::AdmitAuthority {
        authority_id: 0,
        stake_gsx: 1,
        mldsa_public_key: vec![0xaa; 1952],
        bls_public_key: vec![0xbb; 48],
    })
    .unwrap();
    s.apply_intent(&Intent::GenesisAllocation {
        allocations: vec![(reserved::authority_stake_pool_address(), Balance::MAX)],
    })
    .unwrap();
    let before = s.state_root();
    let err = s.apply_intent(&Intent::DepositAuthorityStake {
        from: addr(1),
        authority_id: 0,
        amount: 100,
    });
    assert!(matches!(
        err,
        Err(ExecutionError::DistributionOverflow { .. })
    ));
    assert_eq!(s.state_root(), before);
    assert_eq!(s.balance(&addr(1)), 1_000);
    assert_eq!(s.authority_deposited_stake(0), 0);
}

#[test]
fn withdraw_authority_stake_recipient_overflow_rolls_back_atomically() {
    let mut s = InMemorySubstrate::from_balances(&[(addr(1), 10_000_000)]);
    admit_and_exit_authority(&mut s, addr(1), 5_000_000);
    s.credit_unchecked(addr(2), Balance::MAX).unwrap();
    let before = s.state_root();
    let err = s.apply_intent(&Intent::WithdrawAuthorityStake {
        to: addr(2),
        authority_id: 0,
        amount: 1,
    });
    assert!(matches!(
        err,
        Err(ExecutionError::DistributionOverflow { .. })
    ));
    assert_eq!(s.state_root(), before);
    assert_eq!(s.authority_deposited_stake(0), 5_000_000);
}

#[test]
fn eject_authority_waterfall_overflow_rolls_back_atomically() {
    let mut s = InMemorySubstrate::from_balances(&[(addr(1), 10_000_000)]);
    s.apply_intent(&Intent::AdmitAuthority {
        authority_id: 0,
        stake_gsx: 1,
        mldsa_public_key: vec![0xaa; 1952],
        bls_public_key: vec![0xbb; 48],
    })
    .unwrap();
    s.apply_intent(&Intent::DepositAuthorityStake {
        from: addr(1),
        authority_id: 0,
        amount: 1_000_000,
    })
    .unwrap();
    s.credit_unchecked(reserved::insurance_pool_address(), Balance::MAX).unwrap();
    let before = s.state_root();
    let err = s.apply_intent(&Intent::EjectAuthority {
        authority_id: 0,
        proof_ref: [0xee; 32],
    });
    assert!(matches!(
        err,
        Err(ExecutionError::DistributionOverflow { .. })
    ));
    assert_eq!(s.state_root(), before);
    assert_eq!(
        s.authority_record(0).unwrap().status,
        gsx_dag::authority_registry::AuthorityStatus::Active
    );
    assert_eq!(s.authority_deposited_stake(0), 1_000_000);
}
