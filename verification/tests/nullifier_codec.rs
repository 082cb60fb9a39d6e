use gsx_dag::burn_nullifier::{burn_id, decode, encode, BURN_NULLIFIER_VERSION};
use gsx_dag::error::ExecutionError;
use gsx_dag::ordered::OrderedSet;
use gsx_dag::substrate::Address;

fn addr(b: u8) -> Address {
    [b; 20]
}

#[test]
fn burn_id_deterministic() {
    let id1 = burn_id(&[0u8; 32], 1, &addr(1), 100, &[0xab; 32], &None);
    let id2 = burn_id(&[0u8; 32], 1, &addr(1), 100, &[0xab; 32], &None);
    assert_eq!(id1, id2);
}

#[test]
fn burn_id_distinct_for_different_fields() {
    let base = burn_id(&[0u8; 32], 1, &addr(1), 100, &[0xab; 32], &None);
    assert_ne!(
        base,
        burn_id(&[0u8; 32], 2, &addr(1), 100, &[0xab; 32], &None)
    );
    assert_ne!(
        base,
        burn_id(&[0u8; 32], 1, &addr(2), 100, &[0xab; 32], &None)
    );
    assert_ne!(
        base,
        burn_id(&[0u8; 32], 1, &addr(1), 200, &[0xab; 32], &None)
    );
    assert_ne!(
        base,
        burn_id(&[0u8; 32], 1, &addr(1), 100, &[0xcd; 32], &None)
    );
    assert_ne!(
        base,
        burn_id(&[0xaa; 32], 1, &addr(1), 100, &[0xab; 32], &None)
    );
    assert_ne!(
        base,
        burn_id(&[0u8; 32], 1, &addr(1), 100, &[0xab; 32], &Some([0xde; 32]))
    );
    assert_ne!(
        burn_id(&[0u8; 32], 1, &addr(1), 100, &[0xab; 32], &Some([0xde; 32])),
        burn_id(&[0u8; 32], 1, &addr(1), 100, &[0xab; 32], &Some([0xfe; 32])),
    );
}

#[test]
fn burn_id_length_prefix_defense() {
    let a = burn_id(&[0u8; 32], 1, &addr(1), 100, &[0x01], &None);
    let b = burn_id(&[0u8; 32], 1, &addr(1), 100, &[0x01, 0x02], &None);
    assert_ne!(a, b);
}

#[test]
fn empty_set_round_trip() {
    let s: OrderedSet<[u8; 32]> = OrderedSet::new();
    let bytes = encode(&s);
    assert_eq!(decode(&bytes).unwrap(), s);
}

#[test]
fn burn_nullifier_single_entry_round_trip() {
    let mut s = OrderedSet::new();
    s.insert([0xaa; 32]);
    let bytes = encode(&s);
    assert_eq!(decode(&bytes).unwrap(), s);
}

#[test]
fn multi_entry_round_trip_deterministic_order() {
    let mut s1 = OrderedSet::new();
    s1.insert([0x01; 32]);
    s1.insert([0x02; 32]);
    s1.insert([0x03; 32]);

    let mut s2 = OrderedSet::new();
    s2.insert([0x03; 32]);
    s2.insert([0x01; 32]);
    s2.insert([0x02; 32]);

    assert_eq!(encode(&s1), encode(&s2));
    assert_eq!(decode(&encode(&s1)).unwrap(), s1);
}

#[test]
fn burn_nullifier_decode_rejects_short_header() {
    let bytes = vec![0u8; 4];
    assert!(matches!(
        decode(&bytes),
        Err(ExecutionError::CorruptStateRecord { .. })
    ));
}

#[test]
fn burn_nullifier_decode_rejects_version_mismatch() {
    let mut bytes = vec![];
    bytes.extend_from_slice(&999u32.to_be_bytes());
    bytes.extend_from_slice(&0u32.to_be_bytes());
    assert!(matches!(
        decode(&bytes),
        Err(ExecutionError::CorruptStateRecord { .. })
    ));
}

#[test]
fn burn_nullifier_decode_rejects_size_mismatch() {
    let mut bytes = vec![];
    bytes.extend_from_slice(&BURN_NULLIFIER_VERSION.to_be_bytes());
    bytes.extend_from_slice(&1u32.to_be_bytes());
    assert!(matches!(
        decode(&bytes),
        Err(ExecutionError::CorruptStateRecord { .. })
    ));
}
