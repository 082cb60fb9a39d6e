//! Validator Ring registry.
//!
//! The same records, lifecycle and layout as the Authority Ring registry, at a
//! reserved address of its own.

use vstd::prelude::*;

use crate::authority_registry::{AuthorityRecord, AuthorityStatus, SlotView};
use crate::error::ExecutionError;
use crate::ordered::OrderedMap;
use crate::reserved;
use crate::slots::{self, Flaw};

verus! {

/// Lifecycle status of a validator slot.
pub type ValidatorStatus = AuthorityStatus;

/// One occupied validator slot.
pub type ValidatorRecord = AuthorityRecord;

/// What is said of a flaw in a Validator Ring record.
pub open spec fn validator_reason(flaw: Flaw) -> &'static str {
    match flaw {
        Flaw::Header => "validator registry header missing",
        Flaw::Version => "validator registry version mismatch",
        Flaw::Truncated => "validator registry entry truncated",
        Flaw::Status => "validator status out of range",
        Flaw::MldsaLength => "validator mldsa_pk length invalid",
        Flaw::BlsMissing => "validator bls_pk length missing",
        Flaw::BlsLength => "validator bls_pk length invalid",
        Flaw::Duplicate => "validator registry has duplicate validator_id",
        Flaw::Trailing => "validator registry trailing bytes",
    }
}

fn reason_for(flaw: Flaw) -> (r: &'static str)
    ensures
        r == validator_reason(flaw),
{
    match flaw {
        Flaw::Header => "validator registry header missing",
        Flaw::Version => "validator registry version mismatch",
        Flaw::Truncated => "validator registry entry truncated",
        Flaw::Status => "validator status out of range",
        Flaw::MldsaLength => "validator mldsa_pk length invalid",
        Flaw::BlsMissing => "validator bls_pk length missing",
        Flaw::BlsLength => "validator bls_pk length invalid",
        Flaw::Duplicate => "validator registry has duplicate validator_id",
        Flaw::Trailing => "validator registry trailing bytes",
    }
}

/// The slots that a record spells, or the error that reading it gives.
pub open spec fn parse(b: Seq<u8>) -> Result<Map<u32, SlotView>, ExecutionError> {
    match slots::parse(b) {
        Ok(m) => Ok(m),
        Err(flaw) => Err(
            ExecutionError::CorruptStateRecord {
                addr: reserved::validator_registry_address(),
                reason: validator_reason(flaw),
            },
        ),
    }
}

/// Encodes the registry.
pub fn encode(map: &OrderedMap<u32, ValidatorRecord>) -> (out: Vec<u8>)
    ensures
        out@ == slots::ring_bytes(slots::views(map@)),
{
    slots::encode(map)
}

/// Decodes the registry.
pub fn decode(bytes: &[u8]) -> (r: Result<OrderedMap<u32, ValidatorRecord>, ExecutionError>)
    ensures
        match r {
            Ok(m) => parse(bytes@) == Ok::<Map<u32, SlotView>, ExecutionError>(slots::views(m@)),
            Err(e) => parse(bytes@) == Err::<Map<u32, SlotView>, ExecutionError>(e),
        },
{
    match slots::decode(bytes) {
        Ok(m) => Ok(m),
        Err(flaw) => Err(
            ExecutionError::CorruptStateRecord {
                addr: reserved::validator_registry_address(),
                reason: reason_for(flaw),
            },
        ),
    }
}

} // verus!
