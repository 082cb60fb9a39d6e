use gsx_dag::bridge::{
    BridgeError,
    L1LockPayload,
    L2BurnProvenPayload,
    DUST_THRESHOLD_GSX,
    MAX_MERKLE_PATH_BYTES,
};
use gsx_dag::substrate::Address;

fn addr(b: u8) -> Address {
    [b; 20]
}

#[test]
fn l1_lock_valid_passes() {
    let p = L1LockPayload {
        user_address: addr(1),
        l2_recipient: addr(2),
        amount: 1_000_000,
    };
    assert_eq!(p.validate(), Ok(None));
}

#[test]
fn l1_lock_zero_amount_rejected() {
    let p = L1LockPayload {
        user_address: addr(1),
        l2_recipient: addr(2),
        amount: 0,
    };
    assert_eq!(p.validate(), Err(BridgeError::ZeroAmount));
}

#[test]
fn l1_lock_dust_returns_soft_warning() {
    let p = L1LockPayload {
        user_address: addr(1),
        l2_recipient: addr(2),
        amount: DUST_THRESHOLD_GSX - 1,
    };
    let result = p.validate();
    assert!(matches!(
        result,
        Ok(Some(BridgeError::BelowDustThreshold { .. }))
    ));
}

#[test]
fn l1_lock_at_dust_threshold_passes_clean() {
    let p = L1LockPayload {
        user_address: addr(1),
        l2_recipient: addr(2),
        amount: DUST_THRESHOLD_GSX,
    };
    assert_eq!(p.validate(), Ok(None));
}

#[test]
fn l2_burn_valid_passes() {
    let p = L2BurnProvenPayload {
        batch_id: 7,
        recipient: addr(3),
        amount: 1_000_000,
        merkle_path: vec![0u8; 320], // 10 levels × 32 B
    };
    assert!(p.validate().is_ok());
}

#[test]
fn l2_burn_zero_amount_rejected() {
    let p = L2BurnProvenPayload {
        batch_id: 7,
        recipient: addr(3),
        amount: 0,
        merkle_path: vec![0u8; 320],
    };
    assert_eq!(p.validate(), Err(BridgeError::ZeroAmount));
}

#[test]
fn l2_burn_empty_merkle_path_rejected() {
    let p = L2BurnProvenPayload {
        batch_id: 7,
        recipient: addr(3),
        amount: 1_000_000,
        merkle_path: vec![],
    };
    assert_eq!(p.validate(), Err(BridgeError::EmptyMerklePath));
}

#[test]
fn l2_burn_oversized_merkle_path_rejected() {
    let p = L2BurnProvenPayload {
        batch_id: 7,
        recipient: addr(3),
        amount: 1_000_000,
        merkle_path: vec![0u8; MAX_MERKLE_PATH_BYTES + 32],
    };
    assert!(matches!(
        p.validate(),
        Err(BridgeError::MerklePathTooLong { .. })
    ));
}

#[test]
fn l2_burn_misaligned_merkle_path_rejected() {
    let p = L2BurnProvenPayload {
        batch_id: 7,
        recipient: addr(3),
        amount: 1_000_000,
        merkle_path: vec![0u8; 333], // not a multiple of 32
    };
    assert!(matches!(
        p.validate(),
        Err(BridgeError::MerklePathAlignment { got: 333 })
    ));
}

#[test]
fn l2_burn_at_max_merkle_path_passes() {
    let p = L2BurnProvenPayload {
        batch_id: 7,
        recipient: addr(3),
        amount: 1_000_000,
        merkle_path: vec![0u8; MAX_MERKLE_PATH_BYTES],
    };
    assert!(p.validate().is_ok());
}

#[test]
fn l2_burn_minimum_merkle_path_passes() {
    let p = L2BurnProvenPayload {
        batch_id: 7,
        recipient: addr(3),
        amount: 1_000_000,
        merkle_path: vec![0u8; 32],
    };
    assert!(p.validate().is_ok());
}
