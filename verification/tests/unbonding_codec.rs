use gsx_dag::error::ExecutionError;
use gsx_dag::substrate::Address;
use gsx_dag::unbonding_registry::{decode, encode, UnbondingMap, UNBONDING_REGISTRY_VERSION};

fn d(seed: u8) -> Address {
    [seed; 20]
}

#[test]
fn unbonding_registry_empty_round_trip() {
    let m = UnbondingMap::new();
    assert_eq!(decode(&encode(&m)).unwrap(), m);
}

#[test]
fn unbonding_registry_single_entry_round_trip() {
    let mut m = UnbondingMap::new();
    m.insert((7, d(1), 12345), 1_000_000);
    let decoded = decode(&encode(&m)).unwrap();
    assert_eq!(decoded.get(&(7, d(1), 12345)), Some(&1_000_000));
}

#[test]
fn multiple_unbondings_same_pair_different_heights_coexist() {
    let mut m = UnbondingMap::new();
    m.insert((0, d(1), 100), 50);
    m.insert((0, d(1), 200), 75);
    m.insert((0, d(1), 300), 100);
    let decoded = decode(&encode(&m)).unwrap();
    assert_eq!(decoded.len(), 3);
    assert_eq!(decoded.get(&(0, d(1), 100)), Some(&50));
    assert_eq!(decoded.get(&(0, d(1), 200)), Some(&75));
    assert_eq!(decoded.get(&(0, d(1), 300)), Some(&100));
}

#[test]
fn zero_amount_entries_are_dropped_on_encode() {
    let mut m = UnbondingMap::new();
    m.insert((1, d(1), 100), 0);
    m.insert((1, d(1), 200), 5);
    let bytes = encode(&m);
    assert_eq!(bytes.len(), 48);
    let decoded = decode(&bytes).unwrap();
    assert_eq!(decoded.get(&(1, d(1), 100)), None);
    assert_eq!(decoded.get(&(1, d(1), 200)), Some(&5));
}

#[test]
fn unbonding_registry_decode_rejects_version_mismatch() {
    let mut bytes = vec![];
    bytes.extend_from_slice(&999u32.to_be_bytes());
    bytes.extend_from_slice(&0u32.to_be_bytes());
    assert!(matches!(
        decode(&bytes),
        Err(ExecutionError::CorruptStateRecord { .. })
    ));
}

#[test]
fn unbonding_registry_decode_rejects_size_mismatch() {
    let mut bytes = vec![];
    bytes.extend_from_slice(&UNBONDING_REGISTRY_VERSION.to_be_bytes());
    bytes.extend_from_slice(&1u32.to_be_bytes());
    assert!(matches!(
        decode(&bytes),
        Err(ExecutionError::CorruptStateRecord { .. })
    ));
}

#[test]
fn unbonding_registry_decode_rejects_trailing_bytes() {
    let mut bytes = encode(&UnbondingMap::new());
    bytes.push(0xff);
    assert!(matches!(
        decode(&bytes),
        Err(ExecutionError::CorruptStateRecord { .. })
    ));
}
