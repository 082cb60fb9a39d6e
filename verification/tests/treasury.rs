use gsx_dag::error::ExecutionError;
use gsx_dag::force_include::obligation_id;
use gsx_dag::intent::{Intent, SlashReason};
use gsx_dag::reserved;
use gsx_dag::substrate::{Address, InMemorySubstrate, Substrate};

fn addr(seed: u8) -> Address {
    [seed; 20]
}

#[test]
fn disburse_treasury_insufficient_balance_rejected() {
    let mut s = InMemorySubstrate::new();
    s.credit_unchecked(reserved::treasury_address(), 100)
        .unwrap();
    let before = s.state_root();
    let err = s.apply_intent(&Intent::DisburseTreasury {
        recipient: addr(1),
        amount: 1_000,
        purpose_tag: [0; 32],
    });
    assert!(matches!(
        err,
        Err(ExecutionError::InsufficientBalance { .. })
    ));
    assert_eq!(s.balance(&reserved::treasury_address()), 100);
    assert_eq!(s.balance(&addr(1)), 0);
    assert_eq!(s.state_root(), before);
}

#[test]
fn disburse_treasury_reserved_recipient_rejected() {
    let mut s = InMemorySubstrate::new();
    s.credit_unchecked(reserved::treasury_address(), 1_000_000)
        .unwrap();
    let err = s.apply_intent(&Intent::DisburseTreasury {
        recipient: reserved::insurance_pool_address(),
        amount: 100_000,
        purpose_tag: [0; 32],
    });
    assert!(matches!(
        err,
        Err(ExecutionError::ReservedAddressTransferDenied { .. })
    ));
    assert_eq!(s.balance(&reserved::treasury_address()), 1_000_000);
}

#[test]
fn disburse_treasury_zero_amount_is_noop() {
    let mut s = InMemorySubstrate::new();
    s.credit_unchecked(reserved::treasury_address(), 1_000)
        .unwrap();
    let before = s.state_root();
    s.apply_intent(&Intent::DisburseTreasury {
        recipient: addr(1),
        amount: 0,
        purpose_tag: [0; 32],
    })
    .unwrap();
    assert_eq!(s.state_root(), before);
}

#[test]
fn disburse_treasury_multiple_to_same_recipient_accumulates() {
    let mut s = InMemorySubstrate::new();
    s.credit_unchecked(reserved::treasury_address(), 10_000_000)
        .unwrap();
    for i in 0..5 {
        s.apply_intent(&Intent::DisburseTreasury {
            recipient: addr(1),
            amount: 100_000,
            purpose_tag: [i as u8; 32],
        })
        .unwrap();
    }
    assert_eq!(s.balance(&addr(1)), 500_000);
    assert_eq!(s.balance(&reserved::treasury_address()), 9_500_000);
}

#[test]
fn disburse_treasury_purpose_tag_is_opaque() {
    let mut s = InMemorySubstrate::new();
    s.credit_unchecked(reserved::treasury_address(), 1_000_000)
        .unwrap();
    s.apply_intent(&Intent::DisburseTreasury {
        recipient: addr(1),
        amount: 100_000,
        purpose_tag: [0xaa; 32],
    })
    .unwrap();
    s.apply_intent(&Intent::DisburseTreasury {
        recipient: addr(1),
        amount: 100_000,
        purpose_tag: [0xbb; 32],
    })
    .unwrap();
    assert_eq!(s.balance(&addr(1)), 200_000);
}

#[test]
fn disburse_treasury_integrates_with_slashing() {
    let mut s = InMemorySubstrate::new();
    s.fund_sequencer_bond(1_000_000).unwrap();
    let tx = b"slashed".to_vec();
    s.apply_intent(&Intent::L2ForceInclude {
        tx: tx.clone(),
        deadline_l1_height: 100,
        submitter: addr(9),
        l2_nonce: 1,
    })
    .unwrap();
    let id = obligation_id(&tx, 100, &addr(9), 1);
    s.apply_intent(&Intent::SlashSequencer {
        reason: SlashReason::MissedForceInclude,
        intent_hash: id,
    })
    .unwrap();
    assert_eq!(s.balance(&reserved::treasury_address()), 10_000);
    s.apply_intent(&Intent::DisburseTreasury {
        recipient: addr(20),
        amount: 8_000,
        purpose_tag: [0xab; 32],
    })
    .unwrap();
    assert_eq!(s.balance(&addr(20)), 8_000);
    assert_eq!(s.balance(&reserved::treasury_address()), 2_000);
}

#[test]
fn disburse_treasury_shifts_state_root() {
    let mut s = InMemorySubstrate::new();
    s.credit_unchecked(reserved::treasury_address(), 1_000_000)
        .unwrap();
    let before = s.state_root();
    s.apply_intent(&Intent::DisburseTreasury {
        recipient: addr(1),
        amount: 100,
        purpose_tag: [0; 32],
    })
    .unwrap();
    assert_ne!(s.state_root(), before);
}

#[test]
fn claim_insurance_credits_claimant() {
    let mut s = InMemorySubstrate::new();
    s.credit_unchecked(reserved::insurance_pool_address(), 5_000_000)
        .unwrap();
    s.apply_intent(&Intent::ClaimInsurance {
        claimant: addr(1),
        amount: 1_000_000,
        claim_reference: [0xc1; 32],
    })
    .unwrap();
    assert_eq!(s.balance(&addr(1)), 1_000_000);
    assert_eq!(s.balance(&reserved::insurance_pool_address()), 4_000_000);
}

#[test]
fn claim_insurance_insufficient_balance_rejected() {
    let mut s = InMemorySubstrate::new();
    s.credit_unchecked(reserved::insurance_pool_address(), 100)
        .unwrap();
    let before = s.state_root();
    let err = s.apply_intent(&Intent::ClaimInsurance {
        claimant: addr(1),
        amount: 500,
        claim_reference: [0; 32],
    });
    assert!(matches!(
        err,
        Err(ExecutionError::InsufficientBalance { .. })
    ));
    assert_eq!(s.balance(&reserved::insurance_pool_address()), 100);
    assert_eq!(s.balance(&addr(1)), 0);
    assert_eq!(s.state_root(), before);
}

#[test]
fn claim_insurance_reserved_claimant_rejected() {
    let mut s = InMemorySubstrate::new();
    s.credit_unchecked(reserved::insurance_pool_address(), 1_000_000)
        .unwrap();
    let err = s.apply_intent(&Intent::ClaimInsurance {
        claimant: reserved::treasury_address(),
        amount: 100_000,
        claim_reference: [0; 32],
    });
    assert!(matches!(
        err,
        Err(ExecutionError::ReservedAddressTransferDenied { .. })
    ));
    assert_eq!(s.balance(&reserved::insurance_pool_address()), 1_000_000);
}

#[test]
fn claim_insurance_zero_amount_is_noop() {
    let mut s = InMemorySubstrate::new();
    s.credit_unchecked(reserved::insurance_pool_address(), 1_000)
        .unwrap();
    let before = s.state_root();
    s.apply_intent(&Intent::ClaimInsurance {
        claimant: addr(1),
        amount: 0,
        claim_reference: [0; 32],
    })
    .unwrap();
    assert_eq!(s.state_root(), before);
}

#[test]
fn claim_insurance_claim_reference_is_opaque() {
    let mut s = InMemorySubstrate::new();
    s.credit_unchecked(reserved::insurance_pool_address(), 1_000_000)
        .unwrap();
    s.apply_intent(&Intent::ClaimInsurance {
        claimant: addr(1),
        amount: 100_000,
        claim_reference: [0xaa; 32],
    })
    .unwrap();
    s.apply_intent(&Intent::ClaimInsurance {
        claimant: addr(1),
        amount: 100_000,
        claim_reference: [0xbb; 32],
    })
    .unwrap();
    assert_eq!(s.balance(&addr(1)), 200_000);
}

#[test]
fn claim_insurance_integrates_with_slashing() {
    let mut s = InMemorySubstrate::new();
    s.fund_sequencer_bond(1_000_000).unwrap();
    let tx = b"slashed-for-insurance".to_vec();
    s.apply_intent(&Intent::L2ForceInclude {
        tx: tx.clone(),
        deadline_l1_height: 100,
        submitter: addr(9),
        l2_nonce: 1,
    })
    .unwrap();
    let id = obligation_id(&tx, 100, &addr(9), 1);
    s.apply_intent(&Intent::SlashSequencer {
        reason: SlashReason::MissedForceInclude,
        intent_hash: id,
    })
    .unwrap();
    assert_eq!(s.balance(&reserved::insurance_pool_address()), 35_000);
    s.apply_intent(&Intent::ClaimInsurance {
        claimant: addr(20),
        amount: 20_000,
        claim_reference: [0xcc; 32],
    })
    .unwrap();
    assert_eq!(s.balance(&addr(20)), 20_000);
    assert_eq!(s.balance(&reserved::insurance_pool_address()), 15_000);
}

#[test]
fn claim_insurance_shifts_state_root() {
    let mut s = InMemorySubstrate::new();
    s.credit_unchecked(reserved::insurance_pool_address(), 1_000_000)
        .unwrap();
    let before = s.state_root();
    s.apply_intent(&Intent::ClaimInsurance {
        claimant: addr(1),
        amount: 100,
        claim_reference: [0; 32],
    })
    .unwrap();
    assert_ne!(s.state_root(), before);
}
