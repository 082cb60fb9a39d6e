//! Sequencer-ejection registry.
//!
//! Obligation id to the address that posted the ejection. An obligation is
//! ejected at most once, and only after it was slashed.
//!
//! ```text
//! u32(version) || u32(count) ||
//!   for each row in ascending order: obligation id (32) || ejector (20)
//! ```

use vstd::prelude::*;

use crate::bytes::{array_of, field, lemma_array_of, push_all, read_array};
use crate::error::ExecutionError;
use crate::ordered::OrderedMap;
use crate::reserved;
use crate::substrate::Address;
use crate::table::{
    decode_table, encode_table, parse_table, table_bytes, RowFormat, Table, TABLE_HEADER_BYTES,
};

verus! {

/// Current encoding version.
pub const EJECTION_REGISTRY_VERSION: u32 = 1;

/// Bytes of the header: version and row count.
pub const ENCODED_HEADER_BYTES: usize = TABLE_HEADER_BYTES;

/// Bytes of a row.
pub const ENTRY_BYTES: usize = 52;

/// One recorded ejection.
#[derive(Debug, Clone, Copy, PartialEq, Eq)]
pub struct EjectionRecord {
    /// Address that posted the ejection.
    pub ejector: Address,
}

/// Rows of the ejection registry.
pub struct EjectionTable;

impl RowFormat for EjectionTable {
    type Key = [u8; 32];

    type Value = EjectionRecord;

    open spec fn width() -> nat {
        ENTRY_BYTES as nat
    }

    open spec fn stored(key: [u8; 32], value: EjectionRecord) -> bool {
        true
    }

    open spec fn row_bytes(key: [u8; 32], value: EjectionRecord) -> Seq<u8> {
        key@ + value.ejector@
    }

    open spec fn parse_row(b: Seq<u8>) -> Result<([u8; 32], EjectionRecord), &'static str> {
        Ok(
            (
                array_of::<32>(field(b, 0, 32)),
                EjectionRecord { ejector: array_of::<20>(field(b, 32, 20)) },
            ),
        )
    }

    open spec fn duplicate_reason() -> Option<&'static str> {
        None
    }

    proof fn lemma_width() {
    }

    proof fn lemma_row_len(key: [u8; 32], value: EjectionRecord) {
    }

    proof fn lemma_row_round_trip(key: [u8; 32], value: EjectionRecord) {
        let b = Self::row_bytes(key, value);
        lemma_array_of(key);
        lemma_array_of(value.ejector);
        assert(field(b, 0, 32) =~= key@);
        assert(field(b, 32, 20) =~= value.ejector@);
    }

    fn row_width() -> (w: usize) {
        ENTRY_BYTES
    }

    fn is_stored(key: &[u8; 32], value: &EjectionRecord) -> (r: bool) {
        true
    }

    fn push_row(out: &mut Vec<u8>, key: &[u8; 32], value: &EjectionRecord) {
        push_all(out, key.as_slice());
        push_all(out, value.ejector.as_slice());
        assert(out@ =~= old(out)@ + Self::row_bytes(*key, *value));
    }

    fn read_row(b: &[u8], at: usize) -> (r: Result<([u8; 32], EjectionRecord), &'static str>) {
        let len: usize = b.len();
        let ghost row = field(b@, at as int, 52);
        assert(field(row, 0, 32) =~= field(b@, at + 0, 32));
        assert(field(row, 32, 20) =~= field(b@, at + 32, 20));
        let id: [u8; 32] = read_array::<32>(b, at);
        let ejector: Address = read_array::<20>(b, at + 32);
        Ok((id, EjectionRecord { ejector }))
    }

    fn on_duplicate() -> (r: Option<&'static str>) {
        None
    }
}

impl Table for EjectionTable {
    open spec fn version() -> u32 {
        EJECTION_REGISTRY_VERSION
    }

    open spec fn header_reason() -> &'static str {
        "ejection registry header missing"
    }

    open spec fn version_reason() -> &'static str {
        "ejection registry version mismatch"
    }

    open spec fn overflow_reason() -> &'static str {
        "ejection registry size mismatch"
    }

    open spec fn size_reason() -> &'static str {
        "ejection registry size mismatch"
    }

    fn table_version() -> (v: u32) {
        EJECTION_REGISTRY_VERSION
    }

    fn on_header() -> (r: &'static str) {
        "ejection registry header missing"
    }

    fn on_version() -> (r: &'static str) {
        "ejection registry version mismatch"
    }

    fn on_overflow() -> (r: &'static str) {
        "ejection registry size mismatch"
    }

    fn on_size() -> (r: &'static str) {
        "ejection registry size mismatch"
    }
}

/// The registry that a record spells, or the error that reading it gives.
pub open spec fn parse(b: Seq<u8>) -> Result<Map<[u8; 32], EjectionRecord>, ExecutionError> {
    match parse_table::<EjectionTable>(b) {
        Ok(m) => Ok(m),
        Err(reason) => Err(
            ExecutionError::CorruptStateRecord {
                addr: reserved::ejection_registry_address(),
                reason,
            },
        ),
    }
}

/// Encodes the registry.
pub fn encode(map: &OrderedMap<[u8; 32], EjectionRecord>) -> (out: Vec<u8>)
    ensures
        out@ == table_bytes::<EjectionTable>(map@),
{
    encode_table::<EjectionTable>(map)
}

/// Decodes the registry.
pub fn decode(bytes: &[u8]) -> (r: Result<OrderedMap<[u8; 32], EjectionRecord>, ExecutionError>)
    ensures
        match r {
            Ok(m) => parse(bytes@) == Ok::<Map<[u8; 32], EjectionRecord>, ExecutionError>(m@),
            Err(e) => parse(bytes@) == Err::<Map<[u8; 32], EjectionRecord>, ExecutionError>(e),
        },
{
    match decode_table::<EjectionTable>(bytes) {
        Ok(m) => Ok(m),
        Err(reason) => Err(
            ExecutionError::CorruptStateRecord {
                addr: reserved::ejection_registry_address(),
                reason,
            },
        ),
    }
}

} // verus!
