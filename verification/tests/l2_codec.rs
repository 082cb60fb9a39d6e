use gsx_dag::error::ExecutionError;
use gsx_dag::l2_state::{
    decode,
    encode,
    L2BatchKey,
    L2Registry,
    L2StateRootRecord,
    ENCODED_CHAIN_VKS_ENTRY_BYTES,
    ENCODED_STATE_ROOT_ENTRY_BYTES,
    L2_STATE_ROOT_RECORD_BYTES,
};

fn record(seed: u8) -> L2StateRootRecord {
    L2StateRootRecord {
        state_root: [seed; 32],
        committed_at_l1_height: 100 + seed as u64,
        vk_hash: [seed.wrapping_add(1); 32],
        da_commitment: [seed.wrapping_add(2); 32],
    }
}

fn key(chain_seed: u8, batch_id: u64) -> L2BatchKey {
    L2BatchKey {
        l2_chain_id_hash: [chain_seed; 32],
        batch_id,
    }
}

fn empty_registry() -> L2Registry {
    L2Registry::default()
}

#[test]
fn empty_registry_round_trips() {
    let r = empty_registry();
    let bytes = encode(&r);
    assert_eq!(bytes.len(), 12);
    let r2 = decode(&bytes).unwrap();
    assert_eq!(r, r2);
}

#[test]
fn empty_bytes_decodes_to_empty_registry() {
    let r = decode(&[]).unwrap();
    assert!(r.state_roots.is_empty());
    assert!(r.chain_vks.is_empty());
}

#[test]
fn single_chain_vk_round_trips() {
    let mut r = L2Registry::default();
    r.set_chain_vks([0u8; 32], [0xab; 32], [0xcd; 32]);
    let bytes = encode(&r);
    let r2 = decode(&bytes).unwrap();
    assert_eq!(r, r2);
    assert_eq!(r2.aggregation_vk_hash(&[0u8; 32]), [0xab; 32]);
    assert_eq!(r2.range_vk_commitment(&[0u8; 32]), [0xcd; 32]);
}

#[test]
fn multi_chain_vks_round_trip() {
    let mut r = L2Registry::default();
    r.set_chain_vks([0u8; 32], [0xa1; 32], [0xa2; 32]);
    r.set_chain_vks([0xff; 32], [0xb1; 32], [0xb2; 32]);
    let bytes = encode(&r);
    let r2 = decode(&bytes).unwrap();
    assert_eq!(r, r2);
    assert_eq!(r2.aggregation_vk_hash(&[0u8; 32]), [0xa1; 32]);
    assert_eq!(r2.aggregation_vk_hash(&[0xff; 32]), [0xb1; 32]);
    assert_eq!(r2.aggregation_vk_hash(&[0x55; 32]), [0u8; 32]);
}

#[test]
fn single_state_root_round_trips() {
    let mut r = empty_registry();
    r.state_roots.insert(key(0x01, 5), record(0xab));
    let bytes = encode(&r);
    assert_eq!(bytes.len(), 12 + ENCODED_STATE_ROOT_ENTRY_BYTES);
    let r2 = decode(&bytes).unwrap();
    assert_eq!(r, r2);
}

#[test]
fn chain_vks_and_state_roots_round_trip_together() {
    let mut r = L2Registry::default();
    r.set_chain_vks([0u8; 32], [0xa0; 32], [0xa1; 32]);
    r.set_chain_vks([0xff; 32], [0xb0; 32], [0xb1; 32]);
    r.state_roots.insert(key(0x01, 0), record(0xa1));
    r.state_roots.insert(key(0x02, 7), record(0xb2));
    let bytes = encode(&r);
    let expected = 12 + 2 * ENCODED_CHAIN_VKS_ENTRY_BYTES + 2 * ENCODED_STATE_ROOT_ENTRY_BYTES;
    assert_eq!(bytes.len(), expected);
    let r2 = decode(&bytes).unwrap();
    assert_eq!(r, r2);
}

#[test]
fn encoding_is_deterministic_across_runs() {
    let mut r = empty_registry();
    r.set_chain_vks([0u8; 32], [0xa1; 32], [0xa2; 32]);
    r.state_roots.insert(key(0x01, 1), record(0xab));
    r.state_roots.insert(key(0x02, 2), record(0xcd));
    assert_eq!(encode(&r), encode(&r));
}

#[test]
fn v1_bytes_decode_to_v2_registry() {
    let mut bytes = vec![0, 0, 0, 1]; // version = 1
    bytes.extend_from_slice(&[0xab; 32]); // agg_vk
    bytes.extend_from_slice(&[0xcd; 32]); // range_vk
    bytes.extend_from_slice(&[0, 0, 0, 0]); // state_root count = 0

    let r = decode(&bytes).unwrap();
    assert_eq!(r.chain_vks.len(), 1);
    assert_eq!(r.aggregation_vk_hash(&[0u8; 32]), [0xab; 32]);
    assert_eq!(r.range_vk_commitment(&[0u8; 32]), [0xcd; 32]);
    assert!(r.state_roots.is_empty());
}

#[test]
fn v1_empty_vks_decode_to_empty_chain_vks() {
    let mut bytes = vec![0, 0, 0, 1];
    bytes.extend_from_slice(&[0u8; 32]);
    bytes.extend_from_slice(&[0u8; 32]);
    bytes.extend_from_slice(&[0, 0, 0, 0]);
    let r = decode(&bytes).unwrap();
    assert!(r.chain_vks.is_empty());
}

#[test]
fn v1_state_roots_preserved_on_decode() {
    let mut bytes = vec![0, 0, 0, 1];
    bytes.extend_from_slice(&[0xab; 32]);
    bytes.extend_from_slice(&[0xcd; 32]);
    bytes.extend_from_slice(&[0, 0, 0, 1]); // 1 state root
    bytes.extend_from_slice(&[0u8; 32]);
    bytes.extend_from_slice(&[0, 0, 0, 0, 0, 0, 0, 5]); // batch_id = 5
    bytes.extend_from_slice(&[0x11; 32]);
    bytes.extend_from_slice(&[0, 0, 0, 0, 0, 0, 0, 100]);
    bytes.extend_from_slice(&[0xab; 32]);
    bytes.extend_from_slice(&[0xee; 32]);

    let r = decode(&bytes).unwrap();
    assert_eq!(r.state_roots.len(), 1);
    let key = L2BatchKey {
        l2_chain_id_hash: [0u8; 32],
        batch_id: 5,
    };
    let rec = r.state_roots.get(&key).unwrap();
    assert_eq!(rec.state_root, [0x11; 32]);
    assert_eq!(rec.committed_at_l1_height, 100);
    assert_eq!(rec.vk_hash, [0xab; 32]);
    assert_eq!(rec.da_commitment, [0xee; 32]);
}

#[test]
fn l2_state_decode_rejects_size_mismatch() {
    let mut bytes = vec![0, 0, 0, 2]; // version
    bytes.extend_from_slice(&[0, 0, 0, 0]); // chain_vk count = 0
    bytes.extend_from_slice(&[0, 0, 0, 2]); // state_root count = 2
    bytes.extend_from_slice(&[0u8; ENCODED_STATE_ROOT_ENTRY_BYTES]); // only 1 entry
    assert!(matches!(
        decode(&bytes),
        Err(ExecutionError::CorruptStateRecord { .. })
    ));
}

#[test]
fn l2_state_decode_rejects_short_header() {
    assert!(matches!(
        decode(&[0u8; 8]),
        Err(ExecutionError::CorruptStateRecord { .. })
    ));
}

#[test]
fn decode_rejects_wrong_version() {
    let mut bytes = vec![0, 0, 0, 99]; // version = 99
    bytes.extend_from_slice(&[0u8; 8]);
    assert!(matches!(
        decode(&bytes),
        Err(ExecutionError::CorruptStateRecord { .. })
    ));
}

#[test]
fn entry_size_constants_match_packed_layout() {
    assert_eq!(L2_STATE_ROOT_RECORD_BYTES, 32 + 8 + 32 + 32);
    assert_eq!(
        ENCODED_STATE_ROOT_ENTRY_BYTES,
        32 + 8 + L2_STATE_ROOT_RECORD_BYTES
    );
    assert_eq!(ENCODED_CHAIN_VKS_ENTRY_BYTES, 32 + 32 + 32);
}
