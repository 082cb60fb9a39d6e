use gsx_dag::error::ExecutionError;
use gsx_dag::intent::{Intent, RewardsRing};
use gsx_dag::reserved;
use gsx_dag::substrate::{Address, Balance, InMemorySubstrate, Substrate};

fn addr(seed: u8) -> Address {
    [seed; 20]
}

fn fill_authority_pool(s: &mut InMemorySubstrate, epoch: u64, amount: Balance) {
    s.apply_intent(&Intent::MintInflation {
        epoch,
        authority_share: amount,
        validator_share: 0,
        treasury_share: 0,
    })
    .unwrap();
}

fn fill_validator_pool(s: &mut InMemorySubstrate, epoch: u64, amount: Balance) {
    s.apply_intent(&Intent::MintInflation {
        epoch,
        authority_share: 0,
        validator_share: amount,
        treasury_share: 0,
    })
    .unwrap();
}

#[test]
fn genesis_allocation_zero_amount_entry_is_skipped() {
    let mut s = InMemorySubstrate::new();
    s.apply_intent(&Intent::GenesisAllocation {
        allocations: vec![(addr(1), 0), (addr(2), 1_000)],
    })
    .unwrap();
    assert_eq!(s.balance(&addr(1)), 0);
    assert_eq!(s.balance(&addr(2)), 1_000);
}

#[test]
fn genesis_allocation_empty_is_noop() {
    let mut s = InMemorySubstrate::new();
    let before = s.state_root();
    s.apply_intent(&Intent::GenesisAllocation {
        allocations: vec![],
    })
    .unwrap();
    assert_eq!(s.state_root(), before);
}

#[test]
fn genesis_allocation_state_root_independent_of_entry_order() {
    let mut s1 = InMemorySubstrate::new();
    s1.apply_intent(&Intent::GenesisAllocation {
        allocations: vec![(addr(1), 100), (addr(2), 200), (addr(3), 300)],
    })
    .unwrap();
    let mut s2 = InMemorySubstrate::new();
    s2.apply_intent(&Intent::GenesisAllocation {
        allocations: vec![(addr(3), 300), (addr(1), 100), (addr(2), 200)],
    })
    .unwrap();
    assert_eq!(s1.state_root(), s2.state_root());
}

#[test]
fn mint_inflation_credits_three_pools() {
    let mut s = InMemorySubstrate::new();
    s.apply_intent(&Intent::MintInflation {
        epoch: 1,
        authority_share: 10_000,
        validator_share: 20_000,
        treasury_share: 5_000,
    })
    .unwrap();
    assert_eq!(
        s.balance(&reserved::authority_rewards_pool_address()),
        10_000
    );
    assert_eq!(
        s.balance(&reserved::validator_rewards_pool_address()),
        20_000
    );
    assert_eq!(s.balance(&reserved::treasury_address()), 5_000);
    assert_eq!(s.last_minted_inflation_epoch(), 1);
}

#[test]
fn mint_inflation_replay_same_epoch_rejected() {
    let mut s = InMemorySubstrate::new();
    s.apply_intent(&Intent::MintInflation {
        epoch: 5,
        authority_share: 1_000,
        validator_share: 1_000,
        treasury_share: 1_000,
    })
    .unwrap();
    let before = s.state_root();
    let err = s.apply_intent(&Intent::MintInflation {
        epoch: 5,
        authority_share: 1_000,
        validator_share: 1_000,
        treasury_share: 1_000,
    });
    assert!(matches!(
        err,
        Err(ExecutionError::InflationEpochAlreadyMinted {
            attempted_epoch: 5,
            last_minted_epoch: 5,
        })
    ));
    assert_eq!(s.state_root(), before);
}

#[test]
fn mint_inflation_earlier_epoch_rejected() {
    let mut s = InMemorySubstrate::new();
    s.apply_intent(&Intent::MintInflation {
        epoch: 10,
        authority_share: 1,
        validator_share: 1,
        treasury_share: 1,
    })
    .unwrap();
    let err = s.apply_intent(&Intent::MintInflation {
        epoch: 9,
        authority_share: 1,
        validator_share: 1,
        treasury_share: 1,
    });
    assert!(matches!(
        err,
        Err(ExecutionError::InflationEpochAlreadyMinted {
            attempted_epoch: 9,
            last_minted_epoch: 10,
        })
    ));
}

#[test]
fn mint_inflation_sequential_epochs_accumulate() {
    let mut s = InMemorySubstrate::new();
    for e in 1..=3 {
        s.apply_intent(&Intent::MintInflation {
            epoch: e,
            authority_share: 100,
            validator_share: 200,
            treasury_share: 50,
        })
        .unwrap();
    }
    assert_eq!(s.balance(&reserved::authority_rewards_pool_address()), 300);
    assert_eq!(s.balance(&reserved::validator_rewards_pool_address()), 600);
    assert_eq!(s.balance(&reserved::treasury_address()), 150);
    assert_eq!(s.last_minted_inflation_epoch(), 3);
}

#[test]
fn mint_inflation_epoch_zero_rejected() {
    let mut s = InMemorySubstrate::new();
    let err = s.apply_intent(&Intent::MintInflation {
        epoch: 0,
        authority_share: 1,
        validator_share: 1,
        treasury_share: 1,
    });
    assert!(matches!(
        err,
        Err(ExecutionError::InflationEpochAlreadyMinted {
            attempted_epoch: 0,
            last_minted_epoch: 0,
        })
    ));
}

#[test]
fn mint_inflation_sparse_epochs_succeed() {
    let mut s = InMemorySubstrate::new();
    s.apply_intent(&Intent::MintInflation {
        epoch: 1,
        authority_share: 10,
        validator_share: 10,
        treasury_share: 10,
    })
    .unwrap();
    s.apply_intent(&Intent::MintInflation {
        epoch: 100,
        authority_share: 20,
        validator_share: 20,
        treasury_share: 20,
    })
    .unwrap();
    assert_eq!(s.last_minted_inflation_epoch(), 100);
}

#[test]
fn mint_inflation_zero_shares_skip_credits_but_bump_counter() {
    let mut s = InMemorySubstrate::new();
    let before_treasury = s.balance(&reserved::treasury_address());
    s.apply_intent(&Intent::MintInflation {
        epoch: 7,
        authority_share: 0,
        validator_share: 0,
        treasury_share: 0,
    })
    .unwrap();
    assert_eq!(s.balance(&reserved::treasury_address()), before_treasury);
    assert_eq!(s.last_minted_inflation_epoch(), 7);
}

#[test]
fn last_minted_inflation_epoch_initially_zero() {
    let s = InMemorySubstrate::new();
    assert_eq!(s.last_minted_inflation_epoch(), 0);
}

#[test]
fn distribute_authority_rewards_happy_path() {
    let mut s = InMemorySubstrate::new();
    fill_authority_pool(&mut s, 1, 1_000);
    s.apply_intent(&Intent::DistributeRewards {
        epoch: 1,
        ring: RewardsRing::Authority,
        recipients: vec![(addr(1), 500), (addr(2), 300), (addr(3), 200)],
    })
    .unwrap();
    assert_eq!(s.balance(&reserved::authority_rewards_pool_address()), 0);
    assert_eq!(s.balance(&addr(1)), 500);
    assert_eq!(s.balance(&addr(2)), 300);
    assert_eq!(s.balance(&addr(3)), 200);
    assert_eq!(s.last_distributed_rewards_epoch(RewardsRing::Authority), 1);
}

#[test]
fn distribute_validator_rewards_happy_path() {
    let mut s = InMemorySubstrate::new();
    fill_validator_pool(&mut s, 1, 400);
    s.apply_intent(&Intent::DistributeRewards {
        epoch: 1,
        ring: RewardsRing::Validator,
        recipients: vec![(addr(1), 100), (addr(2), 300)],
    })
    .unwrap();
    assert_eq!(s.balance(&reserved::validator_rewards_pool_address()), 0);
    assert_eq!(s.balance(&addr(1)), 100);
    assert_eq!(s.balance(&addr(2)), 300);
    assert_eq!(s.last_distributed_rewards_epoch(RewardsRing::Validator), 1);
}

#[test]
fn distribute_rewards_replay_defense_is_per_ring() {
    let mut s = InMemorySubstrate::new();
    fill_authority_pool(&mut s, 5, 100);
    s.apply_intent(&Intent::DistributeRewards {
        epoch: 5,
        ring: RewardsRing::Authority,
        recipients: vec![(addr(1), 100)],
    })
    .unwrap();
    fill_validator_pool(&mut s, 6, 100);
    s.apply_intent(&Intent::DistributeRewards {
        epoch: 1,
        ring: RewardsRing::Validator,
        recipients: vec![(addr(2), 100)],
    })
    .unwrap();
    assert_eq!(s.last_distributed_rewards_epoch(RewardsRing::Authority), 5);
    assert_eq!(s.last_distributed_rewards_epoch(RewardsRing::Validator), 1);
}

#[test]
fn distribute_rewards_same_epoch_replay_rejected() {
    let mut s = InMemorySubstrate::new();
    fill_authority_pool(&mut s, 1, 200);
    s.apply_intent(&Intent::DistributeRewards {
        epoch: 1,
        ring: RewardsRing::Authority,
        recipients: vec![(addr(1), 100)],
    })
    .unwrap();
    let err = s.apply_intent(&Intent::DistributeRewards {
        epoch: 1,
        ring: RewardsRing::Authority,
        recipients: vec![(addr(2), 100)],
    });
    assert!(matches!(
        err,
        Err(ExecutionError::RewardsEpochAlreadyDistributed {
            ring: "authority",
            attempted_epoch: 1,
            last_distributed_epoch: 1,
        })
    ));
}

#[test]
fn distribute_rewards_reserved_recipient_rejected_atomically() {
    let mut s = InMemorySubstrate::new();
    fill_authority_pool(&mut s, 1, 200);
    let before = s.state_root();
    let err = s.apply_intent(&Intent::DistributeRewards {
        epoch: 1,
        ring: RewardsRing::Authority,
        recipients: vec![(addr(1), 50), (reserved::treasury_address(), 100)],
    });
    assert!(matches!(
        err,
        Err(ExecutionError::ReservedAddressTransferDenied { .. })
    ));
    assert_eq!(s.state_root(), before);
}

#[test]
fn distribute_rewards_overshoots_pool_rejects() {
    let mut s = InMemorySubstrate::new();
    fill_authority_pool(&mut s, 1, 100);
    let err = s.apply_intent(&Intent::DistributeRewards {
        epoch: 1,
        ring: RewardsRing::Authority,
        recipients: vec![(addr(1), 200)],
    });
    assert!(matches!(
        err,
        Err(ExecutionError::InsufficientBalance { .. })
    ));
}

#[test]
fn distribute_authority_rewards_does_not_drain_validator_pool() {
    let mut s = InMemorySubstrate::new();
    fill_authority_pool(&mut s, 1, 100);
    fill_validator_pool(&mut s, 2, 999);
    s.apply_intent(&Intent::DistributeRewards {
        epoch: 1,
        ring: RewardsRing::Authority,
        recipients: vec![(addr(1), 100)],
    })
    .unwrap();
    assert_eq!(s.balance(&reserved::validator_rewards_pool_address()), 999);
}

#[test]
fn distribute_rewards_zero_entries_skip_credits_but_bump_counter() {
    let mut s = InMemorySubstrate::new();
    fill_authority_pool(&mut s, 1, 50);
    s.apply_intent(&Intent::DistributeRewards {
        epoch: 1,
        ring: RewardsRing::Authority,
        recipients: vec![(addr(1), 0)],
    })
    .unwrap();
    assert_eq!(s.balance(&addr(1)), 0);
    assert_eq!(s.balance(&reserved::authority_rewards_pool_address()), 50);
    assert_eq!(s.last_distributed_rewards_epoch(RewardsRing::Authority), 1);
}
