use gsx_dag::error::ExecutionError;
use gsx_dag::intent::Intent;
use gsx_dag::substrate::{Address, Balance, InMemorySubstrate, Substrate};

fn addr(seed: u8) -> Address {
    [seed; 20]
}

#[test]
fn empty_substrate_zero_balance() {
    let s = InMemorySubstrate::new();
    assert_eq!(s.balance(&addr(1)), 0);
    assert_eq!(s.total_supply(), 0);
}

#[test]
fn transfer_atomic_on_insufficient_balance() {
    let mut s = InMemorySubstrate::from_balances(&[(addr(1), 50)]);
    let before_root = s.state_root();
    let err = s.apply_intent(&Intent::Transfer {
        from: addr(1),
        to: addr(2),
        amount: 100,
    });
    assert!(matches!(
        err,
        Err(ExecutionError::InsufficientBalance { .. })
    ));
    assert_eq!(s.state_root(), before_root, "state changed despite error");
}

#[test]
fn transfer_drains_source_to_zero() {
    let mut s = InMemorySubstrate::from_balances(&[(addr(1), 50)]);
    s.apply_intent(&Intent::Transfer {
        from: addr(1),
        to: addr(2),
        amount: 50,
    })
    .unwrap();
    assert_eq!(s.balance(&addr(1)), 0);
    assert_eq!(s.balance(&addr(2)), 50);
}

#[test]
fn transfer_zero_is_noop() {
    let mut s = InMemorySubstrate::from_balances(&[(addr(1), 50)]);
    let before = s.state_root();
    s.apply_intent(&Intent::Transfer {
        from: addr(1),
        to: addr(2),
        amount: 0,
    })
    .unwrap();
    assert_eq!(s.state_root(), before);
}

#[test]
fn state_root_independent_of_insertion_order() {
    let s1 = InMemorySubstrate::from_balances(&[(addr(1), 10), (addr(2), 20)]);
    let s2 = InMemorySubstrate::from_balances(&[(addr(2), 20), (addr(1), 10)]);
    assert_eq!(s1.state_root(), s2.state_root());
}

#[test]
fn overflow_rejected_atomically() {
    let mut s = InMemorySubstrate::from_balances(&[(addr(1), 1), (addr(2), Balance::MAX)]);
    let before = s.state_root();
    let err = s.apply_intent(&Intent::Transfer {
        from: addr(1),
        to: addr(2),
        amount: 1,
    });
    assert!(matches!(err, Err(ExecutionError::BalanceOverflow { .. })));
    assert_eq!(s.state_root(), before);
}
