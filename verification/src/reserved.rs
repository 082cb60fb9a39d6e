//! Protocol-owned accounts.
//!
//! Each reserved address is the leading 20 bytes of the BLAKE3 digest of a
//! pinned domain tag. No user transfer may name one: only the dedicated arms of
//! the substrate write to these accounts.

use vstd::prelude::*;
use vstd::string::StringSliceAdditionalSpecFns;

use crate::bytes::{array_of, read_array, same_array};
use crate::hash::{blake3_digest, digest};
use crate::substrate::Address;

verus! {

/// Domain tag of the L2 state-root registry.
pub const L2_REGISTRY_DOMAIN: &'static str = "gsx-l2-registry-v1";

/// Domain tag of the insurance pool.
pub const INSURANCE_POOL_DOMAIN: &'static str = "gsx-insurance-pool-v1";

/// Domain tag of the protocol treasury.
pub const TREASURY_DOMAIN: &'static str = "gsx-treasury-v1";

/// Domain tag of the L1-L2 bridge escrow.
pub const BRIDGE_ESCROW_DOMAIN: &'static str = "gsx-bridge-escrow-v1";

/// Domain tag of the force-include obligation registry.
pub const FORCE_INCLUDE_REGISTRY_DOMAIN: &'static str = "gsx-force-include-registry-v1";

/// Domain tag of the sequencer's liveness bond.
pub const SEQUENCER_BOND_DOMAIN: &'static str = "gsx-sequencer-bond-v1";

/// Domain tag of the sequencer's safety bond.
pub const SAFETY_BOND_DOMAIN: &'static str = "gsx-safety-bond-v1";

/// Domain tag of the bridge-asset registry.
pub const ASSET_REGISTRY_DOMAIN: &'static str = "gsx-asset-registry-v1";

/// Domain tag of the sequencer-ejection registry.
pub const EJECTION_REGISTRY_DOMAIN: &'static str = "gsx-ejection-registry-v1";

/// Domain tag of the L2 burn-nullifier registry.
pub const BURN_NULLIFIER_REGISTRY_DOMAIN: &'static str = "gsx-burn-nullifier-registry-v1";

/// Domain tag of the equivocation registry.
pub const EQUIVOCATION_REGISTRY_DOMAIN: &'static str = "gsx-equivocation-registry-v1";

/// Domain tag of the Authority Ring registry.
pub const AUTHORITY_REGISTRY_DOMAIN: &'static str = "gsx-authority-registry-v1";

/// Domain tag of the Validator Ring registry.
pub const VALIDATOR_REGISTRY_DOMAIN: &'static str = "gsx-validator-registry-v1";

/// Domain tag of the Authority Ring stake pool.
pub const AUTHORITY_STAKE_POOL_DOMAIN: &'static str = "gsx-authority-stake-pool-v1";

/// Domain tag of the Validator Ring stake pool.
pub const VALIDATOR_STAKE_POOL_DOMAIN: &'static str = "gsx-validator-stake-pool-v1";

/// Domain tag of the Authority Ring rewards pool.
pub const AUTHORITY_REWARDS_POOL_DOMAIN: &'static str = "gsx-authority-rewards-pool-v1";

/// Domain tag of the Validator Ring rewards pool.
pub const VALIDATOR_REWARDS_POOL_DOMAIN: &'static str = "gsx-validator-rewards-pool-v1";

/// Domain tag of the inflation registry, which holds the last minted epoch.
pub const INFLATION_REGISTRY_DOMAIN: &'static str = "gsx-inflation-registry-v1";

/// Domain tag of the rewards-distribution registry, which holds the last paid epoch of each ring.
pub const REWARDS_DISTRIBUTION_REGISTRY_DOMAIN: &'static str = "gsx-rewards-distribution-registry-v1";

/// Domain tag of the validator-delegation registry.
pub const VALIDATOR_DELEGATION_REGISTRY_DOMAIN: &'static str = "gsx-validator-delegation-registry-v1";

/// Domain tag of the data-availability anchor registry.
pub const DA_ANCHOR_REGISTRY_DOMAIN: &'static str = "gsx-da-anchor-registry-v1";

/// Domain tag of the validator-unbonding registry.
pub const VALIDATOR_UNBONDING_REGISTRY_DOMAIN: &'static str = "gsx-validator-unbonding-registry-v1";

/// The leading 20 bytes of the digest of `domain`.
pub open spec fn derived(domain: &str) -> Address {
    array_of::<20>(blake3_digest(domain.spec_bytes()).subrange(0, 20))
}

/// Whether `addr` is one of the protocol-owned accounts.
#[verifier::opaque]
pub open spec fn protocol_owned(addr: Address) -> bool {
    ||| addr == derived(L2_REGISTRY_DOMAIN)
    ||| addr == derived(INSURANCE_POOL_DOMAIN)
    ||| addr == derived(TREASURY_DOMAIN)
    ||| addr == derived(BRIDGE_ESCROW_DOMAIN)
    ||| addr == derived(FORCE_INCLUDE_REGISTRY_DOMAIN)
    ||| addr == derived(SEQUENCER_BOND_DOMAIN)
    ||| addr == derived(SAFETY_BOND_DOMAIN)
    ||| addr == derived(ASSET_REGISTRY_DOMAIN)
    ||| addr == derived(EJECTION_REGISTRY_DOMAIN)
    ||| addr == derived(BURN_NULLIFIER_REGISTRY_DOMAIN)
    ||| addr == derived(EQUIVOCATION_REGISTRY_DOMAIN)
    ||| addr == derived(AUTHORITY_REGISTRY_DOMAIN)
    ||| addr == derived(VALIDATOR_REGISTRY_DOMAIN)
    ||| addr == derived(AUTHORITY_STAKE_POOL_DOMAIN)
    ||| addr == derived(VALIDATOR_STAKE_POOL_DOMAIN)
    ||| addr == derived(AUTHORITY_REWARDS_POOL_DOMAIN)
    ||| addr == derived(VALIDATOR_REWARDS_POOL_DOMAIN)
    ||| addr == derived(INFLATION_REGISTRY_DOMAIN)
    ||| addr == derived(REWARDS_DISTRIBUTION_REGISTRY_DOMAIN)
    ||| addr == derived(VALIDATOR_DELEGATION_REGISTRY_DOMAIN)
    ||| addr == derived(DA_ANCHOR_REGISTRY_DOMAIN)
    ||| addr == derived(VALIDATOR_UNBONDING_REGISTRY_DOMAIN)
}

/// All protocol-owned accounts.
pub open spec fn all_owned() -> Seq<Address> {
    seq![
        derived(L2_REGISTRY_DOMAIN),
        derived(INSURANCE_POOL_DOMAIN),
        derived(TREASURY_DOMAIN),
        derived(BRIDGE_ESCROW_DOMAIN),
        derived(FORCE_INCLUDE_REGISTRY_DOMAIN),
        derived(SEQUENCER_BOND_DOMAIN),
        derived(SAFETY_BOND_DOMAIN),
        derived(ASSET_REGISTRY_DOMAIN),
        derived(EJECTION_REGISTRY_DOMAIN),
        derived(BURN_NULLIFIER_REGISTRY_DOMAIN),
        derived(EQUIVOCATION_REGISTRY_DOMAIN),
        derived(AUTHORITY_REGISTRY_DOMAIN),
        derived(VALIDATOR_REGISTRY_DOMAIN),
        derived(AUTHORITY_STAKE_POOL_DOMAIN),
        derived(VALIDATOR_STAKE_POOL_DOMAIN),
        derived(AUTHORITY_REWARDS_POOL_DOMAIN),
        derived(VALIDATOR_REWARDS_POOL_DOMAIN),
        derived(INFLATION_REGISTRY_DOMAIN),
        derived(REWARDS_DISTRIBUTION_REGISTRY_DOMAIN),
        derived(VALIDATOR_DELEGATION_REGISTRY_DOMAIN),
        derived(DA_ANCHOR_REGISTRY_DOMAIN),
        derived(VALIDATOR_UNBONDING_REGISTRY_DOMAIN),
    ]
}

/// Whether no two protocol-owned accounts have the same address. The addresses
/// are digests, so this is a fact about BLAKE3 that a program can test.
#[verifier::opaque]
pub open spec fn apart() -> bool {
    all_owned().no_duplicates()
}

fn derive(domain: &'static str) -> (addr: Address)
    ensures
        addr == derived(domain),
{
    let d = digest(domain.as_bytes());
    read_array::<20>(d.as_slice(), 0)
}

/// Address of the L2 state-root registry.
#[verifier::allow_in_spec]
pub fn l2_registry_address() -> Address
    returns
        derived(L2_REGISTRY_DOMAIN),
{
    derive(L2_REGISTRY_DOMAIN)
}

/// Address of the insurance pool.
#[verifier::allow_in_spec]
pub fn insurance_pool_address() -> Address
    returns
        derived(INSURANCE_POOL_DOMAIN),
{
    derive(INSURANCE_POOL_DOMAIN)
}

/// Address of the protocol treasury.
#[verifier::allow_in_spec]
pub fn treasury_address() -> Address
    returns
        derived(TREASURY_DOMAIN),
{
    derive(TREASURY_DOMAIN)
}

/// Address of the L1-L2 bridge escrow.
#[verifier::allow_in_spec]
pub fn bridge_escrow_address() -> Address
    returns
        derived(BRIDGE_ESCROW_DOMAIN),
{
    derive(BRIDGE_ESCROW_DOMAIN)
}

/// Address of the force-include obligation registry.
#[verifier::allow_in_spec]
pub fn force_include_registry_address() -> Address
    returns
        derived(FORCE_INCLUDE_REGISTRY_DOMAIN),
{
    derive(FORCE_INCLUDE_REGISTRY_DOMAIN)
}

/// Address of the sequencer's liveness bond.
#[verifier::allow_in_spec]
pub fn sequencer_bond_address() -> Address
    returns
        derived(SEQUENCER_BOND_DOMAIN),
{
    derive(SEQUENCER_BOND_DOMAIN)
}

/// Address of the sequencer's safety bond.
#[verifier::allow_in_spec]
pub fn safety_bond_address() -> Address
    returns
        derived(SAFETY_BOND_DOMAIN),
{
    derive(SAFETY_BOND_DOMAIN)
}

/// Address of the bridge-asset registry.
#[verifier::allow_in_spec]
pub fn asset_registry_address() -> Address
    returns
        derived(ASSET_REGISTRY_DOMAIN),
{
    derive(ASSET_REGISTRY_DOMAIN)
}

/// Address of the sequencer-ejection registry.
#[verifier::allow_in_spec]
pub fn ejection_registry_address() -> Address
    returns
        derived(EJECTION_REGISTRY_DOMAIN),
{
    derive(EJECTION_REGISTRY_DOMAIN)
}

/// Address of the L2 burn-nullifier registry.
#[verifier::allow_in_spec]
pub fn burn_nullifier_registry_address() -> Address
    returns
        derived(BURN_NULLIFIER_REGISTRY_DOMAIN),
{
    derive(BURN_NULLIFIER_REGISTRY_DOMAIN)
}

/// Address of the equivocation registry.
#[verifier::allow_in_spec]
pub fn equivocation_registry_address() -> Address
    returns
        derived(EQUIVOCATION_REGISTRY_DOMAIN),
{
    derive(EQUIVOCATION_REGISTRY_DOMAIN)
}

/// Address of the Authority Ring registry.
#[verifier::allow_in_spec]
pub fn authority_registry_address() -> Address
    returns
        derived(AUTHORITY_REGISTRY_DOMAIN),
{
    derive(AUTHORITY_REGISTRY_DOMAIN)
}

/// Address of the Validator Ring registry.
#[verifier::allow_in_spec]
pub fn validator_registry_address() -> Address
    returns
        derived(VALIDATOR_REGISTRY_DOMAIN),
{
    derive(VALIDATOR_REGISTRY_DOMAIN)
}

/// Address of the Authority Ring stake pool.
#[verifier::allow_in_spec]
pub fn authority_stake_pool_address() -> Address
    returns
        derived(AUTHORITY_STAKE_POOL_DOMAIN),
{
    derive(AUTHORITY_STAKE_POOL_DOMAIN)
}

/// Address of the Validator Ring stake pool.
#[verifier::allow_in_spec]
pub fn validator_stake_pool_address() -> Address
    returns
        derived(VALIDATOR_STAKE_POOL_DOMAIN),
{
    derive(VALIDATOR_STAKE_POOL_DOMAIN)
}

/// Address of the Authority Ring rewards pool.
#[verifier::allow_in_spec]
pub fn authority_rewards_pool_address() -> Address
    returns
        derived(AUTHORITY_REWARDS_POOL_DOMAIN),
{
    derive(AUTHORITY_REWARDS_POOL_DOMAIN)
}

/// Address of the Validator Ring rewards pool.
#[verifier::allow_in_spec]
pub fn validator_rewards_pool_address() -> Address
    returns
        derived(VALIDATOR_REWARDS_POOL_DOMAIN),
{
    derive(VALIDATOR_REWARDS_POOL_DOMAIN)
}

/// Address of the inflation registry, which holds the last minted epoch.
#[verifier::allow_in_spec]
pub fn inflation_registry_address() -> Address
    returns
        derived(INFLATION_REGISTRY_DOMAIN),
{
    derive(INFLATION_REGISTRY_DOMAIN)
}

/// Address of the rewards-distribution registry, which holds the last paid epoch of each ring.
#[verifier::allow_in_spec]
pub fn rewards_distribution_registry_address() -> Address
    returns
        derived(REWARDS_DISTRIBUTION_REGISTRY_DOMAIN),
{
    derive(REWARDS_DISTRIBUTION_REGISTRY_DOMAIN)
}

/// Address of the validator-delegation registry.
#[verifier::allow_in_spec]
pub fn validator_delegation_registry_address() -> Address
    returns
        derived(VALIDATOR_DELEGATION_REGISTRY_DOMAIN),
{
    derive(VALIDATOR_DELEGATION_REGISTRY_DOMAIN)
}

/// Address of the data-availability anchor registry.
#[verifier::allow_in_spec]
pub fn da_anchor_registry_address() -> Address
    returns
        derived(DA_ANCHOR_REGISTRY_DOMAIN),
{
    derive(DA_ANCHOR_REGISTRY_DOMAIN)
}

/// Address of the validator-unbonding registry.
#[verifier::allow_in_spec]
pub fn validator_unbonding_registry_address() -> Address
    returns
        derived(VALIDATOR_UNBONDING_REGISTRY_DOMAIN),
{
    derive(VALIDATOR_UNBONDING_REGISTRY_DOMAIN)
}

/// Whether `addr` is a protocol-owned account.
#[verifier::allow_in_spec]
pub fn is_reserved(addr: &Address) -> bool
    returns
        protocol_owned(*addr),
{
    proof {
        reveal(protocol_owned);
    }
    same_array(addr, &l2_registry_address())
        || same_array(addr, &insurance_pool_address())
        || same_array(addr, &treasury_address())
        || same_array(addr, &bridge_escrow_address())
        || same_array(addr, &force_include_registry_address())
        || same_array(addr, &sequencer_bond_address())
        || same_array(addr, &safety_bond_address())
        || same_array(addr, &asset_registry_address())
        || same_array(addr, &ejection_registry_address())
        || same_array(addr, &burn_nullifier_registry_address())
        || same_array(addr, &equivocation_registry_address())
        || same_array(addr, &authority_registry_address())
        || same_array(addr, &validator_registry_address())
        || same_array(addr, &authority_stake_pool_address())
        || same_array(addr, &validator_stake_pool_address())
        || same_array(addr, &authority_rewards_pool_address())
        || same_array(addr, &validator_rewards_pool_address())
        || same_array(addr, &inflation_registry_address())
        || same_array(addr, &rewards_distribution_registry_address())
        || same_array(addr, &validator_delegation_registry_address())
        || same_array(addr, &da_anchor_registry_address())
        || same_array(addr, &validator_unbonding_registry_address())
}

/// Tests whether no two protocol-owned accounts have the same address.
pub fn addresses_are_apart() -> (r: bool)
    ensures
        r == apart(),
{
    proof {
        reveal(apart);
    }
    let all: [Address; 22] = [
        l2_registry_address(),
        insurance_pool_address(),
        treasury_address(),
        bridge_escrow_address(),
        force_include_registry_address(),
        sequencer_bond_address(),
        safety_bond_address(),
        asset_registry_address(),
        ejection_registry_address(),
        burn_nullifier_registry_address(),
        equivocation_registry_address(),
        authority_registry_address(),
        validator_registry_address(),
        authority_stake_pool_address(),
        validator_stake_pool_address(),
        authority_rewards_pool_address(),
        validator_rewards_pool_address(),
        inflation_registry_address(),
        rewards_distribution_registry_address(),
        validator_delegation_registry_address(),
        da_anchor_registry_address(),
        validator_unbonding_registry_address(),
    ];
    assert(all@ =~= all_owned());
    let mut i: usize = 0;
    while i < 22
        invariant
            i <= 22,
            all@ == all_owned(),
            apart() == all_owned().no_duplicates(),
            forall|a: int, b: int|
                #![trigger all@[a], all@[b]]
                0 <= a < b < 22 && a < i ==> all@[a] != all@[b],
        decreases 22 - i,
    {
        let mut j: usize = i + 1;
        while j < 22
            invariant
                i < 22,
                i < j <= 22,
                all@ == all_owned(),
                apart() == all_owned().no_duplicates(),
                forall|b: int| i < b < j ==> all@[i as int] != #[trigger] all@[b],
            decreases 22 - j,
        {
            if same_array(&all[i], &all[j]) {
                assert(all_owned()[i as int] == all_owned()[j as int]);
                return false;
            }
            j = j + 1;
        }
        i = i + 1;
    }
    assert(all_owned().no_duplicates()) by {
        assert forall|a: int, b: int|
            0 <= a < all_owned().len() && 0 <= b < all_owned().len() && a
                != b implies all_owned()[a] != all_owned()[b] by {
            assert(all@[a] == all_owned()[a] && all@[b] == all_owned()[b]);
        }
    }
    true
}

} // verus!
