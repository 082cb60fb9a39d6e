use gsx_dag::authority_registry::{
    decode,
    encode,
    AuthorityRecord,
    AuthorityStatus,
    AUTHORITY_REGISTRY_VERSION,
    MAX_MLDSA_PK_BYTES,
};
use gsx_dag::error::ExecutionError;
use gsx_dag::ordered::OrderedMap;

fn rec(stake: u64, status: AuthorityStatus) -> AuthorityRecord {
    AuthorityRecord {
        mldsa_public_key: vec![0xaa; 1952],
        bls_public_key: vec![0xbb; 48],
        stake_gsx: stake,
        deposited_stake: 0,
        exit_block_height: 0,
        status,
    }
}

#[test]
fn authority_registry_empty_round_trip() {
    let m: OrderedMap<u32, AuthorityRecord> = OrderedMap::new();
    assert_eq!(decode(&encode(&m)).unwrap(), m);
}

#[test]
fn authority_registry_single_record_round_trip() {
    let mut m = OrderedMap::new();
    m.insert(0, rec(15_000_000, AuthorityStatus::Active));
    assert_eq!(decode(&encode(&m)).unwrap(), m);
}

#[test]
fn authority_registry_multi_record_round_trip_deterministic_order() {
    let mut m1 = OrderedMap::new();
    m1.insert(0, rec(1, AuthorityStatus::Active));
    m1.insert(5, rec(2, AuthorityStatus::Exiting));
    m1.insert(99, rec(3, AuthorityStatus::Ejected));

    let mut m2 = OrderedMap::new();
    m2.insert(99, rec(3, AuthorityStatus::Ejected));
    m2.insert(0, rec(1, AuthorityStatus::Active));
    m2.insert(5, rec(2, AuthorityStatus::Exiting));

    assert_eq!(encode(&m1), encode(&m2));
    assert_eq!(decode(&encode(&m1)).unwrap(), m1);
}

#[test]
fn statuses_round_trip() {
    let mut m = OrderedMap::new();
    m.insert(0, rec(1, AuthorityStatus::Active));
    m.insert(1, rec(2, AuthorityStatus::Exiting));
    m.insert(2, rec(3, AuthorityStatus::Ejected));
    let decoded = decode(&encode(&m)).unwrap();
    assert_eq!(decoded.get(&0).unwrap().status, AuthorityStatus::Active);
    assert_eq!(decoded.get(&1).unwrap().status, AuthorityStatus::Exiting);
    assert_eq!(decoded.get(&2).unwrap().status, AuthorityStatus::Ejected);
}

#[test]
fn authority_registry_decode_rejects_short_header() {
    assert!(matches!(
        decode(&[0u8; 4]),
        Err(ExecutionError::CorruptStateRecord { .. })
    ));
}

#[test]
fn authority_registry_decode_rejects_version_mismatch() {
    let mut bytes = vec![];
    bytes.extend_from_slice(&999u32.to_be_bytes());
    bytes.extend_from_slice(&0u32.to_be_bytes());
    assert!(matches!(
        decode(&bytes),
        Err(ExecutionError::CorruptStateRecord { .. })
    ));
}

#[test]
fn authority_registry_decode_rejects_size_mismatch() {
    let mut bytes = vec![];
    bytes.extend_from_slice(&AUTHORITY_REGISTRY_VERSION.to_be_bytes());
    bytes.extend_from_slice(&1u32.to_be_bytes());
    assert!(matches!(
        decode(&bytes),
        Err(ExecutionError::CorruptStateRecord { .. })
    ));
}

#[test]
fn decode_rejects_oversized_mldsa_pk() {
    let mut bytes = vec![];
    bytes.extend_from_slice(&AUTHORITY_REGISTRY_VERSION.to_be_bytes());
    bytes.extend_from_slice(&1u32.to_be_bytes());
    bytes.extend_from_slice(&0u32.to_be_bytes()); // authority_id
    bytes.extend_from_slice(&0u64.to_be_bytes()); // stake
    bytes.push(0); // Active
    bytes.extend_from_slice(&((MAX_MLDSA_PK_BYTES + 1) as u32).to_be_bytes());
    assert!(matches!(
        decode(&bytes),
        Err(ExecutionError::CorruptStateRecord { .. })
    ));
}

#[test]
fn authority_registry_decode_rejects_trailing_bytes() {
    let m: OrderedMap<u32, AuthorityRecord> = OrderedMap::new();
    let mut bytes = encode(&m);
    bytes.push(0xff);
    assert!(matches!(
        decode(&bytes),
        Err(ExecutionError::CorruptStateRecord { .. })
    ));
}
