//! Equivocation registry.
//!
//! Proof digest to the offense that was slashed for it. A proof is slashed at
//! most once.
//!
//! ```text
//! u32(version) || u32(count) ||
//!   for each row in ascending order:
//!     proof digest (32) || u8(kind) || u64(height)
//! ```

use vstd::prelude::*;

use crate::bytes::{
    array_of, be_bytes, be_value, field, lemma_array_of, lemma_be_bytes_len, lemma_be_limits,
    lemma_be_round_trip, push_all, push_be, read_array, read_be,
};
use crate::error::ExecutionError;
use crate::ordered::OrderedMap;
use crate::reserved;
use crate::table::{decode_table, encode_table, parse_table, table_bytes, RowFormat, Table};

verus! {

/// Current encoding version.
pub const EQUIVOCATION_REGISTRY_VERSION: u32 = 1;

/// What was slashed.
#[derive(Debug, Clone, Copy, PartialEq, Eq, Hash, Structural)]
#[non_exhaustive]
pub enum OffenseKind {
    /// Two conflicting batches were signed.
    Equivocation,
    /// A proven batch broke a consensus rule.
    InvalidBatch,
}

/// One slashed offense.
#[derive(Debug, Clone, Copy, PartialEq, Eq, Structural)]
pub struct EquivocationRecord {
    /// What was slashed.
    pub kind: OffenseKind,
    /// Height at which it was slashed.
    pub slashed_at_l1_height: u64,
}

/// The byte of an offense.
pub open spec fn kind_byte(kind: OffenseKind) -> u8 {
    match kind {
        OffenseKind::Equivocation => 0,
        OffenseKind::InvalidBatch => 1,
    }
}

/// The offense of a byte.
pub open spec fn kind_of(b: u8) -> Option<OffenseKind> {
    if b == 0 {
        Some(OffenseKind::Equivocation)
    } else if b == 1 {
        Some(OffenseKind::InvalidBatch)
    } else {
        None
    }
}

fn kind_to_byte(kind: OffenseKind) -> (b: u8)
    ensures
        b == kind_byte(kind),
{
    match kind {
        OffenseKind::Equivocation => 0,
        OffenseKind::InvalidBatch => 1,
    }
}

fn kind_from_byte(b: u8) -> (r: Option<OffenseKind>)
    ensures
        r == kind_of(b),
{
    match b {
        0 => Some(OffenseKind::Equivocation),
        1 => Some(OffenseKind::InvalidBatch),
        _ => None,
    }
}

/// Rows of the equivocation registry.
pub struct OffenseTable;

impl RowFormat for OffenseTable {
    type Key = [u8; 32];

    type Value = EquivocationRecord;

    open spec fn width() -> nat {
        41
    }

    open spec fn stored(key: [u8; 32], value: EquivocationRecord) -> bool {
        true
    }

    open spec fn row_bytes(key: [u8; 32], value: EquivocationRecord) -> Seq<u8> {
        key@ + seq![kind_byte(value.kind)] + be_bytes(value.slashed_at_l1_height as nat, 8)
    }

    open spec fn parse_row(b: Seq<u8>) -> Result<([u8; 32], EquivocationRecord), &'static str> {
        match kind_of(b[32]) {
            None => Err("equivocation kind out of range"),
            Some(kind) => Ok(
                (
                    array_of::<32>(field(b, 0, 32)),
                    EquivocationRecord {
                        kind: kind,
                        slashed_at_l1_height: be_value(field(b, 33, 8)) as u64,
                    },
                ),
            ),
        }
    }

    open spec fn duplicate_reason() -> Option<&'static str> {
        Some("equivocation registry has duplicate proof_hash")
    }

    proof fn lemma_width() {
    }

    proof fn lemma_row_len(key: [u8; 32], value: EquivocationRecord) {
        lemma_be_bytes_len(value.slashed_at_l1_height as nat, 8);
    }

    proof fn lemma_row_round_trip(key: [u8; 32], value: EquivocationRecord) {
        let b = Self::row_bytes(key, value);
        lemma_be_limits();
        lemma_array_of(key);
        lemma_be_round_trip(value.slashed_at_l1_height as nat, 8);
        assert(field(b, 0, 32) =~= key@);
        assert(b[32] == kind_byte(value.kind));
        assert(field(b, 33, 8) =~= be_bytes(value.slashed_at_l1_height as nat, 8));
    }

    fn row_width() -> (w: usize) {
        41
    }

    fn is_stored(key: &[u8; 32], value: &EquivocationRecord) -> (r: bool) {
        true
    }

    fn push_row(out: &mut Vec<u8>, key: &[u8; 32], value: &EquivocationRecord) {
        push_all(out, key.as_slice());
        out.push(kind_to_byte(value.kind));
        push_be(out, value.slashed_at_l1_height as u128, 8);
        assert(out@ =~= old(out)@ + Self::row_bytes(*key, *value));
    }

    fn read_row(b: &[u8], at: usize) -> (r: Result<([u8; 32], EquivocationRecord), &'static str>) {
        let len: usize = b.len();
        let ghost row = field(b@, at as int, 41);
        proof {
            lemma_be_limits();
        }
        assert(field(row, 0, 32) =~= field(b@, at + 0, 32));
        assert(row[32] == b@[at + 32]);
        assert(field(row, 33, 8) =~= field(b@, at + 33, 8));
        let proof_hash: [u8; 32] = read_array::<32>(b, at);
        let slashed_at_l1_height: u64 = read_be(b, at + 33, 8) as u64;
        match kind_from_byte(b[at + 32]) {
            None => Err("equivocation kind out of range"),
            Some(kind) => Ok((proof_hash, EquivocationRecord { kind, slashed_at_l1_height })),
        }
    }

    fn on_duplicate() -> (r: Option<&'static str>) {
        Some("equivocation registry has duplicate proof_hash")
    }
}

impl Table for OffenseTable {
    open spec fn version() -> u32 {
        EQUIVOCATION_REGISTRY_VERSION
    }

    open spec fn header_reason() -> &'static str {
        "equivocation registry header missing"
    }

    open spec fn version_reason() -> &'static str {
        "equivocation registry version mismatch"
    }

    open spec fn overflow_reason() -> &'static str {
        "equivocation registry size mismatch"
    }

    open spec fn size_reason() -> &'static str {
        "equivocation registry size mismatch"
    }

    fn table_version() -> (v: u32) {
        EQUIVOCATION_REGISTRY_VERSION
    }

    fn on_header() -> (r: &'static str) {
        "equivocation registry header missing"
    }

    fn on_version() -> (r: &'static str) {
        "equivocation registry version mismatch"
    }

    fn on_overflow() -> (r: &'static str) {
        "equivocation registry size mismatch"
    }

    fn on_size() -> (r: &'static str) {
        "equivocation registry size mismatch"
    }
}

/// The registry that a record spells, or the error that reading it gives.
pub open spec fn parse(b: Seq<u8>) -> Result<Map<[u8; 32], EquivocationRecord>, ExecutionError> {
    match parse_table::<OffenseTable>(b) {
        Ok(m) => Ok(m),
        Err(reason) => Err(
            ExecutionError::CorruptStateRecord {
                addr: reserved::equivocation_registry_address(),
                reason,
            },
        ),
    }
}

/// Encodes the registry.
pub fn encode(map: &OrderedMap<[u8; 32], EquivocationRecord>) -> (out: Vec<u8>)
    ensures
        out@ == table_bytes::<OffenseTable>(map@),
{
    encode_table::<OffenseTable>(map)
}

/// Decodes the registry.
pub fn decode(bytes: &[u8]) -> (r: Result<OrderedMap<[u8; 32], EquivocationRecord>, ExecutionError>)
    ensures
        match r {
            Ok(m) => parse(bytes@) == Ok::<Map<[u8; 32], EquivocationRecord>, ExecutionError>(m@),
            Err(e) => parse(bytes@) == Err::<Map<[u8; 32], EquivocationRecord>, ExecutionError>(e),
        },
{
    match decode_table::<OffenseTable>(bytes) {
        Ok(m) => Ok(m),
        Err(reason) => Err(
            ExecutionError::CorruptStateRecord {
                addr: reserved::equivocation_registry_address(),
                reason,
            },
        ),
    }
}

} // verus!
