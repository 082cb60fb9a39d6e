use gsx_dag::da_anchor_registry::{da_blob_hash, decode};
use gsx_dag::error::ExecutionError;
use gsx_dag::intent::{Intent, SlashReason};
use gsx_dag::l2_state::L2BatchKey;
use gsx_dag::reserved;
use gsx_dag::substrate::{Address, InMemorySubstrate, Substrate};

fn addr(seed: u8) -> Address {
    [seed; 20]
}

#[test]
fn post_l2_da_v2_records_blob_hash() {
    let mut s = InMemorySubstrate::from_balances(&[(addr(1), 100)]);
    let da_blob = vec![0xcd; 1024];
    let l2_chain_id_hash = [0xa1; 32];
    let intent = Intent::PostL2DAv2 {
        batch_id: 7,
        da_blob: da_blob.clone(),
        l2_chain_id_hash,
    };
    s.apply_intent(&intent).unwrap();

    let registry_bytes = s
        .read_bytes(&reserved::da_anchor_registry_address())
        .expect("registry must exist after PostL2DAv2");
    let registry = decode(&registry_bytes).unwrap();
    let key = L2BatchKey {
        l2_chain_id_hash,
        batch_id: 7,
    };
    assert_eq!(registry.get(&key), Some(&da_blob_hash(&da_blob)));
}

#[test]
fn post_l2_da_v2_replay_rejected() {
    let mut s = InMemorySubstrate::from_balances(&[(addr(1), 100)]);
    let intent = Intent::PostL2DAv2 {
        batch_id: 7,
        da_blob: vec![0xcd; 1024],
        l2_chain_id_hash: [0xa1; 32],
    };
    s.apply_intent(&intent).unwrap();
    let err = s
        .apply_intent(&Intent::PostL2DAv2 {
            batch_id: 7,
            da_blob: vec![0xee; 2048], // different bytes, same key
            l2_chain_id_hash: [0xa1; 32],
        })
        .unwrap_err();
    assert!(matches!(
        err,
        ExecutionError::DaAnchorAlreadyRecorded { batch_id: 7, .. }
    ));
}

#[test]
fn post_l2_da_v2_multi_batch_independent() {
    let mut s = InMemorySubstrate::from_balances(&[(addr(1), 100)]);
    for batch_id in 0..3u64 {
        s.apply_intent(&Intent::PostL2DAv2 {
            batch_id,
            da_blob: vec![batch_id as u8; 64],
            l2_chain_id_hash: [0xa1; 32],
        })
        .unwrap();
    }
    let registry = decode(
        &s.read_bytes(&reserved::da_anchor_registry_address())
            .unwrap(),
    )
    .unwrap();
    assert_eq!(registry.len(), 3);
}

#[test]
fn post_l2_da_v2_multi_chain_namespacing() {
    let mut s = InMemorySubstrate::from_balances(&[(addr(1), 100)]);
    s.apply_intent(&Intent::PostL2DAv2 {
        batch_id: 0,
        da_blob: vec![0x01; 64],
        l2_chain_id_hash: [0xa1; 32],
    })
    .unwrap();
    s.apply_intent(&Intent::PostL2DAv2 {
        batch_id: 0,
        da_blob: vec![0x02; 64],
        l2_chain_id_hash: [0xb1; 32],
    })
    .unwrap();
}

#[test]
fn post_l2_da_v2_empty_blob_still_anchors() {
    let mut s = InMemorySubstrate::from_balances(&[(addr(1), 100)]);
    s.apply_intent(&Intent::PostL2DAv2 {
        batch_id: 7,
        da_blob: vec![],
        l2_chain_id_hash: [0xa1; 32],
    })
    .unwrap();
    let err = s
        .apply_intent(&Intent::PostL2DAv2 {
            batch_id: 7,
            da_blob: vec![],
            l2_chain_id_hash: [0xa1; 32],
        })
        .unwrap_err();
    assert!(matches!(
        err,
        ExecutionError::DaAnchorAlreadyRecorded { .. }
    ));
}

#[test]
fn slash_reason_variants_are_distinct() {
    let variants = [
        SlashReason::MissedForceInclude,
        SlashReason::Equivocation,
        SlashReason::InvalidBatch,
        SlashReason::Downtime,
    ];
    for (i, a) in variants.iter().enumerate() {
        for (j, b) in variants.iter().enumerate() {
            if i != j {
                assert_ne!(a, b, "SlashReason variants {i} and {j} alias");
            }
        }
    }
}

#[test]
fn transfer_to_reserved_address_is_rejected() {
    let mut s = InMemorySubstrate::from_balances(&[(addr(1), 100)]);
    let err = s.apply_intent(&Intent::Transfer {
        from: addr(1),
        to: reserved::insurance_pool_address(),
        amount: 10,
    });
    assert!(matches!(
        err,
        Err(ExecutionError::ReservedAddressTransferDenied { .. })
    ));
}

#[test]
fn transfer_from_reserved_address_is_rejected() {
    let mut s = InMemorySubstrate::new();
    let err = s.apply_intent(&Intent::Transfer {
        from: reserved::treasury_address(),
        to: addr(2),
        amount: 10,
    });
    assert!(matches!(
        err,
        Err(ExecutionError::ReservedAddressTransferDenied { .. })
    ));
}

#[test]
fn distribute_slashed_funds_to_counterparties_only() {
    let mut s = InMemorySubstrate::new();
    let intent = Intent::DistributeSlashedFunds {
        slash_event_id: [0xaa; 32],
        counterparties: vec![(addr(1), 30), (addr(2), 70)],
        insurance_share: 0,
        treasury_share: 0,
    };
    s.apply_intent(&intent).unwrap();
    assert_eq!(s.balance(&addr(1)), 30);
    assert_eq!(s.balance(&addr(2)), 70);
    assert_eq!(s.balance(&reserved::insurance_pool_address()), 0);
    assert_eq!(s.balance(&reserved::treasury_address()), 0);
}

#[test]
fn distribute_slashed_funds_insurance_and_treasury() {
    let mut s = InMemorySubstrate::new();
    let intent = Intent::DistributeSlashedFunds {
        slash_event_id: [0xbb; 32],
        counterparties: vec![],
        insurance_share: 1_000_000,
        treasury_share: 500_000,
    };
    s.apply_intent(&intent).unwrap();
    assert_eq!(s.balance(&reserved::insurance_pool_address()), 1_000_000);
    assert_eq!(s.balance(&reserved::treasury_address()), 500_000);
}

#[test]
fn distribute_slashed_funds_full_waterfall() {
    let mut s = InMemorySubstrate::new();
    let intent = Intent::DistributeSlashedFunds {
        slash_event_id: [0xcc; 32],
        counterparties: vec![(addr(1), 100)],
        insurance_share: 200,
        treasury_share: 300,
    };
    s.apply_intent(&intent).unwrap();
    assert_eq!(s.balance(&addr(1)), 100);
    assert_eq!(s.balance(&reserved::insurance_pool_address()), 200);
    assert_eq!(s.balance(&reserved::treasury_address()), 300);
}

#[test]
fn distribute_rejects_reserved_counterparty() {
    let mut s = InMemorySubstrate::new();
    let err = s.apply_intent(&Intent::DistributeSlashedFunds {
        slash_event_id: [0xdd; 32],
        counterparties: vec![(reserved::treasury_address(), 100)],
        insurance_share: 0,
        treasury_share: 0,
    });
    assert!(matches!(
        err,
        Err(ExecutionError::ReservedAddressInCounterparties { .. })
    ));
}

#[test]
fn distribute_zero_shares_are_noops() {
    let mut s = InMemorySubstrate::from_balances(&[(addr(9), 1)]);
    let before = s.state_root();
    s.apply_intent(&Intent::DistributeSlashedFunds {
        slash_event_id: [0xee; 32],
        counterparties: vec![(addr(1), 0)],
        insurance_share: 0,
        treasury_share: 0,
    })
    .unwrap();
    assert_eq!(
        s.state_root(),
        before,
        "zero-share distributions MUST NOT mutate state"
    );
}

#[test]
fn distribute_is_additive() {
    let mut s = InMemorySubstrate::new();
    for _ in 0..3 {
        s.apply_intent(&Intent::DistributeSlashedFunds {
            slash_event_id: [0x01; 32],
            counterparties: vec![(addr(5), 100)],
            insurance_share: 50,
            treasury_share: 25,
        })
        .unwrap();
    }
    assert_eq!(s.balance(&addr(5)), 300);
    assert_eq!(s.balance(&reserved::insurance_pool_address()), 150);
    assert_eq!(s.balance(&reserved::treasury_address()), 75);
}
