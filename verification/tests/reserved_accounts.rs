use gsx_dag::reserved::{
    asset_registry_address,
    authority_registry_address,
    authority_rewards_pool_address,
    authority_stake_pool_address,
    bridge_escrow_address,
    burn_nullifier_registry_address,
    da_anchor_registry_address,
    ejection_registry_address,
    equivocation_registry_address,
    force_include_registry_address,
    inflation_registry_address,
    insurance_pool_address,
    is_reserved,
    l2_registry_address,
    rewards_distribution_registry_address,
    safety_bond_address,
    sequencer_bond_address,
    treasury_address,
    validator_delegation_registry_address,
    validator_registry_address,
    validator_rewards_pool_address,
    validator_stake_pool_address,
    L2_REGISTRY_DOMAIN,
};

#[test]
fn twenty_one_reserved_addresses_are_distinct() {
    let all = [
        l2_registry_address(),
        insurance_pool_address(),
        treasury_address(),
        bridge_escrow_address(),
        force_include_registry_address(),
        sequencer_bond_address(),
        safety_bond_address(),
        asset_registry_address(),
        ejection_registry_address(),
        burn_nullifier_registry_address(),
        equivocation_registry_address(),
        authority_registry_address(),
        validator_registry_address(),
        authority_stake_pool_address(),
        validator_stake_pool_address(),
        authority_rewards_pool_address(),
        validator_rewards_pool_address(),
        inflation_registry_address(),
        rewards_distribution_registry_address(),
        validator_delegation_registry_address(),
        da_anchor_registry_address(),
    ];
    for (i, a) in all.iter().enumerate() {
        for (j, b) in all.iter().enumerate() {
            if i != j {
                assert_ne!(a, b, "reserved addresses {i} and {j} collide");
            }
        }
    }
}

#[test]
fn derivation_is_deterministic() {
    assert_eq!(l2_registry_address(), l2_registry_address());
    assert_eq!(insurance_pool_address(), insurance_pool_address());
    assert_eq!(treasury_address(), treasury_address());
    assert_eq!(bridge_escrow_address(), bridge_escrow_address());
    assert_eq!(
        force_include_registry_address(),
        force_include_registry_address()
    );
    assert_eq!(sequencer_bond_address(), sequencer_bond_address());
    assert_eq!(safety_bond_address(), safety_bond_address());
    assert_eq!(asset_registry_address(), asset_registry_address());
    assert_eq!(ejection_registry_address(), ejection_registry_address());
    assert_eq!(
        burn_nullifier_registry_address(),
        burn_nullifier_registry_address()
    );
    assert_eq!(
        equivocation_registry_address(),
        equivocation_registry_address()
    );
    assert_eq!(authority_registry_address(), authority_registry_address());
    assert_eq!(validator_registry_address(), validator_registry_address());
    assert_eq!(
        authority_stake_pool_address(),
        authority_stake_pool_address()
    );
    assert_eq!(
        validator_stake_pool_address(),
        validator_stake_pool_address()
    );
}

#[test]
fn is_reserved_matches_all_fifteen() {
    assert!(is_reserved(&l2_registry_address()));
    assert!(is_reserved(&insurance_pool_address()));
    assert!(is_reserved(&treasury_address()));
    assert!(is_reserved(&bridge_escrow_address()));
    assert!(is_reserved(&force_include_registry_address()));
    assert!(is_reserved(&sequencer_bond_address()));
    assert!(is_reserved(&safety_bond_address()));
    assert!(is_reserved(&asset_registry_address()));
    assert!(is_reserved(&ejection_registry_address()));
    assert!(is_reserved(&burn_nullifier_registry_address()));
    assert!(is_reserved(&equivocation_registry_address()));
    assert!(is_reserved(&authority_registry_address()));
    assert!(is_reserved(&validator_registry_address()));
    assert!(is_reserved(&authority_stake_pool_address()));
    assert!(is_reserved(&validator_stake_pool_address()));
}

#[test]
fn is_reserved_rejects_arbitrary_address() {
    assert!(!is_reserved(&[0u8; 20]));
    assert!(!is_reserved(&[0xffu8; 20]));
    assert!(!is_reserved(&[0xabu8; 20]));
}

#[test]
fn known_blake3_truncation() {
    let addr = l2_registry_address();
    let expected = {
        let mut h = blake3::Hasher::new();
        h.update(L2_REGISTRY_DOMAIN.as_bytes());
        let mut out = [0u8; 20];
        out.copy_from_slice(&h.finalize().as_bytes()[..20]);
        out
    };
    assert_eq!(addr, expected);
}
