use gsx_dag::da_anchor_registry::{da_blob_hash, decode, encode, DA_ANCHOR_REGISTRY_VERSION};
use gsx_dag::error::ExecutionError;
use gsx_dag::l2_state::L2BatchKey;
use gsx_dag::ordered::OrderedMap;

fn key(chain: u8, batch_id: u64) -> L2BatchKey {
    L2BatchKey {
        l2_chain_id_hash: [chain; 32],
        batch_id,
    }
}

#[test]
fn da_anchor_registry_empty_round_trip() {
    let m: OrderedMap<L2BatchKey, [u8; 32]> = OrderedMap::new();
    assert_eq!(decode(&encode(&m)).unwrap(), m);
}

#[test]
fn da_anchor_registry_single_record_round_trip() {
    let mut m = OrderedMap::new();
    m.insert(key(0, 7), [0xaa; 32]);
    assert_eq!(decode(&encode(&m)).unwrap(), m);
}

#[test]
fn da_anchor_registry_multi_record_round_trip_deterministic_order() {
    let mut m1 = OrderedMap::new();
    m1.insert(key(1, 0), [0xa1; 32]);
    m1.insert(key(2, 0), [0xa2; 32]);
    m1.insert(key(2, 5), [0xb2; 32]);

    let mut m2 = OrderedMap::new();
    m2.insert(key(2, 5), [0xb2; 32]);
    m2.insert(key(1, 0), [0xa1; 32]);
    m2.insert(key(2, 0), [0xa2; 32]);

    assert_eq!(encode(&m1), encode(&m2));
    assert_eq!(decode(&encode(&m1)).unwrap(), m1);
}

#[test]
fn da_blob_hash_is_deterministic() {
    let a = da_blob_hash(b"hello");
    let b = da_blob_hash(b"hello");
    assert_eq!(a, b);
}

#[test]
fn da_blob_hash_distinguishes_inputs() {
    assert_ne!(da_blob_hash(b"hello"), da_blob_hash(b"world"));
    assert_ne!(da_blob_hash(b""), da_blob_hash(b"\x00"));
}

#[test]
fn da_blob_hash_matches_plain_blake3() {
    let plain = *blake3::hash(b"hello").as_bytes();
    let anchored = da_blob_hash(b"hello");
    assert_eq!(anchored, plain);
}

#[test]
fn da_anchor_registry_decode_rejects_short_header() {
    assert!(matches!(
        decode(&[0u8; 4]),
        Err(ExecutionError::CorruptStateRecord { .. })
    ));
}

#[test]
fn da_anchor_registry_decode_rejects_version_mismatch() {
    let mut bytes = vec![];
    bytes.extend_from_slice(&999u32.to_be_bytes());
    bytes.extend_from_slice(&0u32.to_be_bytes());
    assert!(matches!(
        decode(&bytes),
        Err(ExecutionError::CorruptStateRecord { .. })
    ));
}

#[test]
fn da_anchor_registry_decode_rejects_size_mismatch() {
    let mut bytes = vec![];
    bytes.extend_from_slice(&DA_ANCHOR_REGISTRY_VERSION.to_be_bytes());
    bytes.extend_from_slice(&1u32.to_be_bytes());
    assert!(matches!(
        decode(&bytes),
        Err(ExecutionError::CorruptStateRecord { .. })
    ));
}

#[test]
fn decode_rejects_huge_count_without_panic() {
    let mut bytes = Vec::new();
    bytes.extend_from_slice(&DA_ANCHOR_REGISTRY_VERSION.to_be_bytes());
    bytes.extend_from_slice(&u32::MAX.to_be_bytes());
    assert!(matches!(
        decode(&bytes),
        Err(ExecutionError::CorruptStateRecord { .. })
    ));
}
