use gsx_dag::fastpath::cert::{AuthorityId, CertHash, FastPathTx, OwnedObjectId, OwnerAddress};
use gsx_dag::fastpath::quorum::{certify, fast_path_quorum_size, FastPathError};
use gsx_dag::ordered::OrderedSet;

fn first_ids(n: u32) -> OrderedSet<AuthorityId> {
    let mut ids = OrderedSet::new();
    for i in 0..n {
        ids.insert(i);
    }
    ids
}

fn dummy_tx() -> FastPathTx {
    FastPathTx {
        object: OwnedObjectId([1; 32]),
        owner: OwnerAddress([2; 32]),
        nonce: 0,
        lineage: CertHash::from([3; 32]),
        lineage_round: 0,
        payload_digest: [4; 32],
    }
}

#[test]
fn quorum_size_matches_canonical_bft() {
    assert_eq!(fast_path_quorum_size(0), 1); // defensive
    assert_eq!(fast_path_quorum_size(1), 1);
    assert_eq!(fast_path_quorum_size(4), 3);
    assert_eq!(fast_path_quorum_size(7), 5);
    assert_eq!(fast_path_quorum_size(10), 7);
    assert_eq!(fast_path_quorum_size(30), 21);
    assert_eq!(fast_path_quorum_size(50), 34);

    for n in 1u32..=64 {
        let q = fast_path_quorum_size(n);
        assert!(3 * q > 2 * n, "n={n}: q={q} fails strict 2/3 majority");
        assert!(q <= n, "n={n}: q={q} exceeds committee");
    }
}

#[test]
fn certify_below_quorum_fails() {
    let signers = first_ids(20);
    let err = certify(dummy_tx(), signers, 30);
    assert!(matches!(err, Err(FastPathError::BelowQuorum { .. })));
}

#[test]
fn certify_at_quorum_succeeds() {
    let signers = first_ids(21);
    let cert = certify(dummy_tx(), signers, 30).unwrap();
    assert_eq!(cert.signers.len(), 21);
}

#[test]
fn certify_with_out_of_bounds_signer_fails() {
    let mut signers = first_ids(21);
    signers.insert(99);
    let err = certify(dummy_tx(), signers, 30);
    assert!(matches!(err, Err(FastPathError::UnknownSigner(99))));
}
