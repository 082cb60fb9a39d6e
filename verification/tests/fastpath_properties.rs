use gsx_dag::fastpath::binding::{is_main_lane_consistent, MainLaneTx, FAST_PATH_CONFIRMATION_K};
use gsx_dag::fastpath::cert::{
    AuthorityId,
    CertHash,
    FastPathTx,
    OwnedObjectId,
    OwnerAddress,
    Round,
};
use gsx_dag::fastpath::equivocation::detect_fast_path_equivocation;
use gsx_dag::fastpath::quorum::{certify, fast_path_quorum_size, FastPathError};
use gsx_dag::fastpath::ring::{
    AdmissionError, AuthorityMember, AuthorityRegistry, AUTHORITY_STAKE_THRESHOLD_GSX,
};
use gsx_dag::fastpath::slashing::slash_fast_path_signers;
use gsx_dag::ordered::OrderedSet;

const SEEDS: [u8; 5] = [0, 1, 7, 254, 255];
const ROUNDS: [u64; 4] = [0, 1, 57, 100];

fn build_tx(object_seed: u8, lineage_round: Round, payload_seed: u8) -> FastPathTx {
    FastPathTx {
        object: OwnedObjectId([object_seed; 32]),
        owner: OwnerAddress([0xAA; 32]),
        nonce: 0,
        lineage: CertHash([0xBB; 32]),
        lineage_round,
        payload_digest: [payload_seed; 32],
    }
}

fn first_ids(n: u32) -> OrderedSet<AuthorityId> {
    let mut ids = OrderedSet::new();
    for i in 0..n {
        ids.insert(i);
    }
    ids
}

fn seat_all(registry: &mut AuthorityRegistry, n: u32) {
    for i in 0..n {
        registry
            .seat(AuthorityMember {
                id: i,
                stake_gsx: AUTHORITY_STAKE_THRESHOLD_GSX,
                public_key_bytes: vec![i as u8; 32],
            })
            .unwrap();
    }
}

#[test]
fn fast_path_tx_constructs() {
    let tx = FastPathTx {
        object: OwnedObjectId([0xAB; 32]),
        owner: OwnerAddress([0xCD; 32]),
        nonce: 42,
        lineage: CertHash([0xEF; 32]),
        lineage_round: 7,
        payload_digest: [0x11; 32],
    };
    assert_eq!(tx.nonce, 42);
    assert_eq!(tx.lineage_round, 7);
    assert_eq!(CertHash::from([0xEF; 32]), tx.lineage);
}

#[test]
fn confirmation_k_matches_paper() {
    assert_eq!(FAST_PATH_CONFIRMATION_K, 4);
}

#[test]
fn fast_path_main_lane_consistency() {
    for n in 3u32..=50 {
        for seed in SEEDS {
            for lineage_round in ROUNDS {
                let q = fast_path_quorum_size(n);
                let tx = build_tx(seed, lineage_round, seed.wrapping_mul(3));
                let cert = certify(tx.clone(), first_ids(q), n).expect("at-quorum certify");
                let mut main_lane = Vec::new();
                for i in 0..(seed as usize % 21) {
                    main_lane.push(MainLaneTx {
                        round: lineage_round + 1 + (i as u64 % FAST_PATH_CONFIRMATION_K as u64),
                        object: OwnedObjectId([seed.wrapping_add(1); 32]),
                        payload_digest: [seed ^ 0x55; 32],
                        lineage: CertHash([0xCC; 32]),
                    });
                }
                main_lane.push(MainLaneTx {
                    round: lineage_round + 1,
                    object: tx.object,
                    payload_digest: tx.payload_digest,
                    lineage: CertHash([0xDD; 32]),
                });
                assert!(is_main_lane_consistent(&cert, &main_lane));
            }
        }
    }
}

#[test]
fn conflict_within_k_rounds_breaks_binding() {
    for n in 3u32..=50 {
        for seed in SEEDS {
            for lineage_round in ROUNDS {
                for offset in 1..=FAST_PATH_CONFIRMATION_K {
                    let q = fast_path_quorum_size(n);
                    let tx = build_tx(seed, lineage_round, seed);
                    let cert = certify(tx.clone(), first_ids(q), n).unwrap();
                    let main_lane = vec![MainLaneTx {
                        round: lineage_round + offset as u64,
                        object: tx.object,
                        payload_digest: [seed.wrapping_add(1); 32],
                        lineage: CertHash([0xCC; 32]),
                    }];
                    assert!(!is_main_lane_consistent(&cert, &main_lane));
                }
            }
        }
    }
}

#[test]
fn conflict_beyond_k_rounds_preserves_binding() {
    for n in [3u32, 4, 31, 50] {
        for seed in SEEDS {
            for lineage_round in ROUNDS {
                for offset in (FAST_PATH_CONFIRMATION_K + 1)..=20 {
                    let q = fast_path_quorum_size(n);
                    let tx = build_tx(seed, lineage_round, seed);
                    let cert = certify(tx.clone(), first_ids(q), n).unwrap();
                    let main_lane = vec![MainLaneTx {
                        round: lineage_round + offset as u64,
                        object: tx.object,
                        payload_digest: [seed.wrapping_add(1); 32],
                        lineage: CertHash([0xCC; 32]),
                    }];
                    assert!(is_main_lane_consistent(&cert, &main_lane));
                }
            }
        }
    }
}

#[test]
fn conflict_at_the_lineage_round_preserves_binding() {
    let tx = build_tx(1, 10, 1);
    let cert = certify(tx.clone(), first_ids(3), 4).unwrap();
    let main_lane = vec![MainLaneTx {
        round: 10,
        object: tx.object,
        payload_digest: [2; 32],
        lineage: CertHash([0xCC; 32]),
    }];
    assert!(is_main_lane_consistent(&cert, &main_lane));
}

#[test]
fn fast_path_equivocation_full_slash() {
    for n in 3u32..=50 {
        for seed in [0u8, 255] {
            for offset in 1..=FAST_PATH_CONFIRMATION_K {
                let q = fast_path_quorum_size(n);
                let signers = first_ids(q);
                let tx = build_tx(seed, 57, seed);
                let cert = certify(tx.clone(), signers.clone(), n).unwrap();
                let main_lane = vec![MainLaneTx {
                    round: 57 + offset as u64,
                    object: tx.object,
                    payload_digest: [seed.wrapping_add(1); 32],
                    lineage: CertHash([0xCC; 32]),
                }];
                let proof = detect_fast_path_equivocation(&cert, &main_lane)
                    .expect("conflicting main-lane tx must yield a proof");
                assert_eq!(proof.cert.signers.len(), q as usize);
                assert_eq!(proof.conflicting_tx.object, tx.object);
                assert_ne!(proof.conflicting_tx.payload_digest, tx.payload_digest);

                let mut registry = AuthorityRegistry::new();
                seat_all(&mut registry, n);
                let outcome = slash_fast_path_signers(&mut registry, &proof);
                assert_eq!(outcome.slashed.len() as u32, q);
                assert!(outcome.missing.is_empty());
                for (_id, slash) in &outcome.slashed {
                    assert_eq!(slash.stake_lost, AUTHORITY_STAKE_THRESHOLD_GSX);
                    assert!(slash.expelled);
                }
                assert_eq!(
                    outcome.total_stake_lost(),
                    (q as u64) * AUTHORITY_STAKE_THRESHOLD_GSX
                );
                for (s, _) in signers.as_rows().entries() {
                    assert!(!registry.contains(*s));
                }
            }
        }
    }
}

#[test]
fn honest_consistency_produces_no_proof() {
    for n in 3u32..=50 {
        for seed in SEEDS {
            let q = fast_path_quorum_size(n);
            let tx = build_tx(seed, 100, seed);
            let cert = certify(tx, first_ids(q), n).unwrap();
            let main_lane = vec![MainLaneTx {
                round: 101,
                object: OwnedObjectId([seed.wrapping_add(1); 32]),
                payload_digest: [seed ^ 0x55; 32],
                lineage: CertHash([0xCC; 32]),
            }];
            assert!(detect_fast_path_equivocation(&cert, &main_lane).is_none());
        }
    }
}

#[test]
fn the_first_conflict_makes_the_proof() {
    let tx = build_tx(1, 10, 1);
    let cert = certify(tx.clone(), first_ids(3), 4).unwrap();
    let seen = |round: u64, payload: u8| MainLaneTx {
        round,
        object: tx.object,
        payload_digest: [payload; 32],
        lineage: CertHash([0; 32]),
    };
    let main_lane = vec![seen(9, 5), seen(11, 1), seen(14, 6), seen(12, 7)];
    let proof = detect_fast_path_equivocation(&cert, &main_lane).unwrap();
    assert_eq!(proof.conflicting_tx, main_lane[2]);
    assert_eq!(proof.cert, cert);
}

#[test]
fn non_signers_are_unaffected() {
    for n in 5u32..=50 {
        let q = fast_path_quorum_size(n);
        let tx = build_tx(0, 3, 9);
        let cert = certify(tx.clone(), first_ids(q), n).unwrap();
        let main_lane = vec![MainLaneTx {
            round: 4,
            object: tx.object,
            payload_digest: [10; 32],
            lineage: CertHash([0xCC; 32]),
        }];
        let proof = detect_fast_path_equivocation(&cert, &main_lane).unwrap();
        let mut registry = AuthorityRegistry::new();
        seat_all(&mut registry, n);
        slash_fast_path_signers(&mut registry, &proof);
        for non_signer in q..n {
            assert!(registry.contains(non_signer));
        }
    }
}

#[test]
fn repeat_slashing_is_idempotent() {
    for n in 3u32..=10 {
        let q = fast_path_quorum_size(n);
        let tx = build_tx(0, 3, 9);
        let cert = certify(tx.clone(), first_ids(q), n).unwrap();
        let main_lane = vec![MainLaneTx {
            round: 4,
            object: tx.object,
            payload_digest: [10; 32],
            lineage: CertHash([0xCC; 32]),
        }];
        let proof = detect_fast_path_equivocation(&cert, &main_lane).unwrap();
        let mut registry = AuthorityRegistry::new();
        seat_all(&mut registry, n);
        let first = slash_fast_path_signers(&mut registry, &proof);
        let second = slash_fast_path_signers(&mut registry, &proof);
        assert_eq!(first.slashed.len() as u32, q);
        assert!(second.slashed.is_empty());
        assert_eq!(second.missing.len() as u32, q);
    }
}

#[test]
fn certification_errors_name_what_is_wrong() {
    assert_eq!(
        certify(build_tx(1, 0, 1), first_ids(2), 4).unwrap_err(),
        FastPathError::BelowQuorum { have: 2, need: 3 }
    );
    let mut signers = first_ids(3);
    signers.insert(9);
    signers.insert(6);
    assert_eq!(
        certify(build_tx(1, 0, 1), signers, 4).unwrap_err(),
        FastPathError::UnknownSigner(6)
    );
    assert_eq!(
        certify(build_tx(1, 0, 1), OrderedSet::new(), 0).unwrap_err(),
        FastPathError::BelowQuorum { have: 0, need: 1 }
    );
}

#[test]
fn two_quorums_share_an_honest_member() {
    for n in 1u32..=200 {
        let q = fast_path_quorum_size(n);
        let faulty = (n - 1) / 3;
        assert!(2 * q > n + faulty);
    }
}

#[test]
fn seats_need_stake_and_are_taken_once() {
    let member = |id: u32, stake: u64| AuthorityMember {
        id,
        stake_gsx: stake,
        public_key_bytes: vec![],
    };
    let mut registry = AuthorityRegistry::new();
    assert_eq!(
        registry.seat(member(1, AUTHORITY_STAKE_THRESHOLD_GSX - 1)),
        Err(AdmissionError::StakeBelowThreshold {
            have: AUTHORITY_STAKE_THRESHOLD_GSX - 1,
            need: AUTHORITY_STAKE_THRESHOLD_GSX,
        })
    );
    assert!(!registry.contains(1));
    assert_eq!(registry.seat(member(1, AUTHORITY_STAKE_THRESHOLD_GSX)), Ok(()));
    assert_eq!(
        registry.seat(member(1, AUTHORITY_STAKE_THRESHOLD_GSX + 5)),
        Err(AdmissionError::AlreadySeated(1))
    );
    assert!(registry.contains(1));
}
