//! Authority Ring registry.
//!
//! Slot id to record, in one byte record at the reserved registry address.
//! Slots are admitted `Active`, leave voluntarily through `Exiting`, and are
//! `Ejected` on a confirmed offense.
//!
//! ```text
//! u32(version) || u32(count) ||
//!   for each slot in ascending id order:
//!     u32(id) || u64(stake) ||
//!     [version 2: u64(deposited stake) || u64(exit height)] ||
//!     u8(status) || u32(len) || ML-DSA key || u32(len) || BLS key
//! ```
//!
//! Version 1 carries no stake counters and is what a registry is written as
//! while all of them are zero; its slots read back with both counters zero.

use vstd::prelude::*;

use crate::error::ExecutionError;
use crate::ordered::OrderedMap;
use crate::reserved;
use crate::slots::{self, Flaw};

verus! {

/// Encoding version of a registry without stake counters.
pub const AUTHORITY_REGISTRY_VERSION: u32 = 1;

/// Encoding version of a registry with stake counters.
pub const AUTHORITY_REGISTRY_VERSION_METERED: u32 = 2;

/// Longest ML-DSA public key accepted.
pub const MAX_MLDSA_PK_BYTES: usize = 2048;

/// Longest BLS public key accepted.
pub const MAX_BLS_PK_BYTES: usize = 128;

/// Bytes before the first slot.
pub const ENCODED_HEADER_BYTES: usize = 8;

/// Bytes of a version 1 slot besides its two keys.
pub const ENTRY_FIXED_BYTES: usize = 21;

/// Bytes of a version 2 slot besides its two keys.
pub const METERED_ENTRY_FIXED_BYTES: usize = 37;

/// Lifecycle status of a slot.
#[derive(Debug, Clone, Copy, PartialEq, Eq, Hash, Structural)]
#[non_exhaustive]
pub enum AuthorityStatus {
    /// Full voting weight.
    Active,
    /// Leaving voluntarily.
    Exiting,
    /// Removed on a confirmed offense.
    Ejected,
}

/// One occupied slot.
#[derive(Debug, Clone, PartialEq, Eq)]
pub struct AuthorityRecord {
    /// ML-DSA-65 public key.
    pub mldsa_public_key: Vec<u8>,
    /// BLS12-381 public key.
    pub bls_public_key: Vec<u8>,
    /// Stake declared at admission.
    pub stake_gsx: u64,
    /// Bonded capital held for this slot.
    pub deposited_stake: u64,
    /// Height at which the slot began to exit.
    pub exit_block_height: u64,
    /// Lifecycle status.
    pub status: AuthorityStatus,
}

/// The contents of a slot record.
pub struct SlotView {
    pub mldsa: Seq<u8>,
    pub bls: Seq<u8>,
    pub stake: u64,
    pub deposited: u64,
    pub exit_height: u64,
    pub status: AuthorityStatus,
}

impl View for AuthorityRecord {
    type V = SlotView;

    open spec fn view(&self) -> SlotView {
        SlotView {
            mldsa: self.mldsa_public_key@,
            bls: self.bls_public_key@,
            stake: self.stake_gsx,
            deposited: self.deposited_stake,
            exit_height: self.exit_block_height,
            status: self.status,
        }
    }
}

/// What is said of a flaw in an Authority Ring record.
pub open spec fn authority_reason(flaw: Flaw) -> &'static str {
    match flaw {
        Flaw::Header => "authority registry header missing",
        Flaw::Version => "authority registry version mismatch",
        Flaw::Truncated => "authority registry entry truncated",
        Flaw::Status => "authority status out of range",
        Flaw::MldsaLength => "authority mldsa_pk length invalid",
        Flaw::BlsMissing => "authority bls_pk length missing",
        Flaw::BlsLength => "authority bls_pk length invalid",
        Flaw::Duplicate => "authority registry has duplicate authority_id",
        Flaw::Trailing => "authority registry trailing bytes",
    }
}

fn reason_for(flaw: Flaw) -> (r: &'static str)
    ensures
        r == authority_reason(flaw),
{
    match flaw {
        Flaw::Header => "authority registry header missing",
        Flaw::Version => "authority registry version mismatch",
        Flaw::Truncated => "authority registry entry truncated",
        Flaw::Status => "authority status out of range",
        Flaw::MldsaLength => "authority mldsa_pk length invalid",
        Flaw::BlsMissing => "authority bls_pk length missing",
        Flaw::BlsLength => "authority bls_pk length invalid",
        Flaw::Duplicate => "authority registry has duplicate authority_id",
        Flaw::Trailing => "authority registry trailing bytes",
    }
}

/// The slots that a record spells, or the error that reading it gives.
pub open spec fn parse(b: Seq<u8>) -> Result<Map<u32, SlotView>, ExecutionError> {
    match slots::parse(b) {
        Ok(m) => Ok(m),
        Err(flaw) => Err(
            ExecutionError::CorruptStateRecord {
                addr: reserved::authority_registry_address(),
                reason: authority_reason(flaw),
            },
        ),
    }
}

/// Encodes the registry.
pub fn encode(map: &OrderedMap<u32, AuthorityRecord>) -> (out: Vec<u8>)
    ensures
        out@ == slots::ring_bytes(slots::views(map@)),
{
    slots::encode(map)
}

/// Decodes the registry.
pub fn decode(bytes: &[u8]) -> (r: Result<OrderedMap<u32, AuthorityRecord>, ExecutionError>)
    ensures
        match r {
            Ok(m) => parse(bytes@) == Ok::<Map<u32, SlotView>, ExecutionError>(slots::views(m@)),
            Err(e) => parse(bytes@) == Err::<Map<u32, SlotView>, ExecutionError>(e),
        },
{
    match slots::decode(bytes) {
        Ok(m) => Ok(m),
        Err(flaw) => Err(
            ExecutionError::CorruptStateRecord {
                addr: reserved::authority_registry_address(),
                reason: reason_for(flaw),
            },
        ),
    }
}

} // verus!
