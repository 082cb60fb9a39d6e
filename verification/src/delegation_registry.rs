//! Validator delegation registry.
//!
//! Active delegated stake, by validator slot and delegator.
//!
//! ```text
//! u32(version) || u32(count) ||
//!   for each row in ascending order:
//!     u32(validator id) || delegator (20) || u64(amount)
//! ```
//!
//! Rows with a zero amount are not written and not accepted.

use vstd::prelude::*;

use crate::bytes::{
    array_of, be_bytes, be_value, field, lemma_array_of, lemma_be_bytes_len, lemma_be_limits,
    lemma_be_round_trip, push_all, push_be, read_array, read_be,
};
use crate::error::ExecutionError;
use crate::ordered::OrderedMap;
use crate::reserved;
use crate::substrate::Address;
use crate::table::{decode_table, encode_table, parse_table, table_bytes, RowFormat, Table};

verus! {

/// Current encoding version.
pub const DELEGATION_REGISTRY_VERSION: u32 = 1;

/// Validator slot and delegator to amount.
pub type DelegationMap = OrderedMap<(u32, Address), u64>;

/// Rows of the delegation registry.
pub struct DelegationTable;

impl RowFormat for DelegationTable {
    type Key = (u32, Address);

    type Value = u64;

    open spec fn width() -> nat {
        32
    }

    open spec fn stored(key: (u32, Address), value: u64) -> bool {
        value > 0
    }

    open spec fn row_bytes(key: (u32, Address), value: u64) -> Seq<u8> {
        be_bytes(key.0 as nat, 4) + key.1@ + be_bytes(value as nat, 8)
    }

    open spec fn parse_row(b: Seq<u8>) -> Result<((u32, Address), u64), &'static str> {
        if be_value(field(b, 24, 8)) == 0 {
            Err("delegation registry has zero-amount entry")
        } else {
            Ok(
                (
                    (be_value(field(b, 0, 4)) as u32, array_of::<20>(field(b, 4, 20))),
                    be_value(field(b, 24, 8)) as u64,
                ),
            )
        }
    }

    open spec fn duplicate_reason() -> Option<&'static str> {
        Some("delegation registry has duplicate (vid, delegator) pair")
    }

    proof fn lemma_width() {
    }

    proof fn lemma_row_len(key: (u32, Address), value: u64) {
        lemma_be_bytes_len(key.0 as nat, 4);
        lemma_be_bytes_len(value as nat, 8);
    }

    proof fn lemma_row_round_trip(key: (u32, Address), value: u64) {
        let b = Self::row_bytes(key, value);
        lemma_be_limits();
        lemma_be_round_trip(key.0 as nat, 4);
        lemma_array_of(key.1);
        lemma_be_round_trip(value as nat, 8);
        assert(field(b, 0, 4) =~= be_bytes(key.0 as nat, 4));
        assert(field(b, 4, 20) =~= key.1@);
        assert(field(b, 24, 8) =~= be_bytes(value as nat, 8));
    }

    fn row_width() -> (w: usize) {
        32
    }

    fn is_stored(key: &(u32, Address), value: &u64) -> (r: bool) {
        *value > 0
    }

    fn push_row(out: &mut Vec<u8>, key: &(u32, Address), value: &u64) {
        push_be(out, key.0 as u128, 4);
        push_all(out, key.1.as_slice());
        push_be(out, *value as u128, 8);
        assert(out@ =~= old(out)@ + Self::row_bytes(*key, *value));
    }

    fn read_row(b: &[u8], at: usize) -> (r: Result<((u32, Address), u64), &'static str>) {
        let len: usize = b.len();
        let ghost row = field(b@, at as int, 32);
        proof {
            lemma_be_limits();
        }
        assert(field(row, 0, 4) =~= field(b@, at + 0, 4));
        assert(field(row, 4, 20) =~= field(b@, at + 4, 20));
        assert(field(row, 24, 8) =~= field(b@, at + 24, 8));
        let validator_id: u32 = read_be(b, at, 4) as u32;
        let delegator: Address = read_array::<20>(b, at + 4);
        let amount: u64 = read_be(b, at + 24, 8) as u64;
        if amount == 0 {
            Err("delegation registry has zero-amount entry")
        } else {
            Ok(((validator_id, delegator), amount))
        }
    }

    fn on_duplicate() -> (r: Option<&'static str>) {
        Some("delegation registry has duplicate (vid, delegator) pair")
    }
}

impl Table for DelegationTable {
    open spec fn version() -> u32 {
        DELEGATION_REGISTRY_VERSION
    }

    open spec fn header_reason() -> &'static str {
        "delegation registry header missing"
    }

    open spec fn version_reason() -> &'static str {
        "delegation registry version mismatch"
    }

    open spec fn overflow_reason() -> &'static str {
        "delegation registry length mismatch"
    }

    open spec fn size_reason() -> &'static str {
        "delegation registry length mismatch"
    }

    fn table_version() -> (v: u32) {
        DELEGATION_REGISTRY_VERSION
    }

    fn on_header() -> (r: &'static str) {
        "delegation registry header missing"
    }

    fn on_version() -> (r: &'static str) {
        "delegation registry version mismatch"
    }

    fn on_overflow() -> (r: &'static str) {
        "delegation registry length mismatch"
    }

    fn on_size() -> (r: &'static str) {
        "delegation registry length mismatch"
    }
}

/// The registry that a record spells, or the error that reading it gives.
pub open spec fn parse(b: Seq<u8>) -> Result<Map<(u32, Address), u64>, ExecutionError> {
    match parse_table::<DelegationTable>(b) {
        Ok(m) => Ok(m),
        Err(reason) => Err(
            ExecutionError::CorruptStateRecord {
                addr: reserved::validator_delegation_registry_address(),
                reason,
            },
        ),
    }
}

/// Encodes the registry.
pub fn encode(map: &DelegationMap) -> (out: Vec<u8>)
    ensures
        out@ == table_bytes::<DelegationTable>(map@),
{
    encode_table::<DelegationTable>(map)
}

/// Decodes the registry.
pub fn decode(bytes: &[u8]) -> (r: Result<DelegationMap, ExecutionError>)
    ensures
        match r {
            Ok(m) => parse(bytes@) == Ok::<Map<(u32, Address), u64>, ExecutionError>(m@),
            Err(e) => parse(bytes@) == Err::<Map<(u32, Address), u64>, ExecutionError>(e),
        },
{
    match decode_table::<DelegationTable>(bytes) {
        Ok(m) => Ok(m),
        Err(reason) => Err(
            ExecutionError::CorruptStateRecord {
                addr: reserved::validator_delegation_registry_address(),
                reason,
            },
        ),
    }
}

} // verus!
