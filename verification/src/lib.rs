//! Deterministic execution substrate of the GSX settlement chain.

use vstd::prelude::*;

pub mod apply;
pub mod asset_registry;
pub mod assets;
pub mod authority_registry;
pub mod blob;
pub mod block;
pub mod bridge;
pub mod burn_nullifier;
pub mod bytes;
pub mod da_anchor_registry;
pub mod database;
pub mod delegating;
pub mod delegation_registry;
pub mod eject_registry;
pub mod equivocation_registry;
pub mod error;
pub mod fastpath;
pub mod findings;
pub mod force_include;
pub mod hash;
pub mod indexer;
pub mod intent;
pub mod l2_proof;
pub mod l2_state;
pub mod laws;
pub mod ledger;
pub mod ordered;
pub mod readers;
pub mod reserved;
pub mod rollup;
pub mod sequencing;
pub mod slots;
pub mod staking;
pub mod state_root;
pub mod substrate;
pub mod table;
pub mod transfers;
pub mod unbonding_registry;
pub mod validator_registry;

verus! {

/// Rounds between two co-signed checkpoints.
pub const DEFAULT_CHECKPOINT_CADENCE_ROUNDS: u32 = 1;

} // verus!
