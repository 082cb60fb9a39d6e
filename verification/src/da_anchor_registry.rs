//! Data-availability anchor registry.
//!
//! The digest of each anchored blob, by chain and batch. An anchor is set once
//! and never replaced, so that auditors find one commitment per batch.
//!
//! ```text
//! u32(version) || u32(count) ||
//!   for each row in ascending order:
//!     chain id hash (32) || u64(batch id) || blob digest (32)
//! ```

use vstd::prelude::*;

use crate::bytes::{
    array_of, be_bytes, be_value, field, lemma_array_of, lemma_be_bytes_len, lemma_be_limits,
    lemma_be_round_trip, push_all, push_be, read_array, read_be,
};
use crate::error::ExecutionError;
use crate::hash::{digest, digest_of};
use crate::l2_state::L2BatchKey;
use crate::ordered::OrderedMap;
use crate::reserved;
use crate::table::{
    decode_table, encode_table, parse_table, table_bytes, RowFormat, Table, TABLE_HEADER_BYTES,
};

verus! {

/// Current encoding version.
pub const DA_ANCHOR_REGISTRY_VERSION: u32 = 1;

/// Bytes of the header: version and row count.
pub const ENCODED_HEADER_BYTES: usize = TABLE_HEADER_BYTES;

/// Bytes of a row.
pub const ENTRY_BYTES: usize = 72;

/// Rows of the anchor registry.
pub struct AnchorTable;

impl RowFormat for AnchorTable {
    type Key = L2BatchKey;

    type Value = [u8; 32];

    open spec fn width() -> nat {
        ENTRY_BYTES as nat
    }

    open spec fn stored(key: L2BatchKey, value: [u8; 32]) -> bool {
        true
    }

    open spec fn row_bytes(key: L2BatchKey, value: [u8; 32]) -> Seq<u8> {
        key.l2_chain_id_hash@ + be_bytes(key.batch_id as nat, 8) + value@
    }

    open spec fn parse_row(b: Seq<u8>) -> Result<(L2BatchKey, [u8; 32]), &'static str> {
        Ok(
            (
                L2BatchKey {
                    l2_chain_id_hash: array_of::<32>(field(b, 0, 32)),
                    batch_id: be_value(field(b, 32, 8)) as u64,
                },
                array_of::<32>(field(b, 40, 32)),
            ),
        )
    }

    open spec fn duplicate_reason() -> Option<&'static str> {
        Some("DA anchor registry has duplicate keys")
    }

    proof fn lemma_width() {
    }

    proof fn lemma_row_len(key: L2BatchKey, value: [u8; 32]) {
        lemma_be_bytes_len(key.batch_id as nat, 8);
    }

    proof fn lemma_row_round_trip(key: L2BatchKey, value: [u8; 32]) {
        let b = Self::row_bytes(key, value);
        lemma_be_limits();
        lemma_array_of(key.l2_chain_id_hash);
        lemma_be_round_trip(key.batch_id as nat, 8);
        lemma_array_of(value);
        assert(field(b, 0, 32) =~= key.l2_chain_id_hash@);
        assert(field(b, 32, 8) =~= be_bytes(key.batch_id as nat, 8));
        assert(field(b, 40, 32) =~= value@);
    }

    fn row_width() -> (w: usize) {
        ENTRY_BYTES
    }

    fn is_stored(key: &L2BatchKey, value: &[u8; 32]) -> (r: bool) {
        true
    }

    fn push_row(out: &mut Vec<u8>, key: &L2BatchKey, value: &[u8; 32]) {
        push_all(out, key.l2_chain_id_hash.as_slice());
        push_be(out, key.batch_id as u128, 8);
        push_all(out, value.as_slice());
        assert(out@ =~= old(out)@ + Self::row_bytes(*key, *value));
    }

    fn read_row(b: &[u8], at: usize) -> (r: Result<(L2BatchKey, [u8; 32]), &'static str>) {
        let len: usize = b.len();
        let ghost row = field(b@, at as int, 72);
        proof {
            lemma_be_limits();
        }
        assert(field(row, 0, 32) =~= field(b@, at + 0, 32));
        assert(field(row, 32, 8) =~= field(b@, at + 32, 8));
        assert(field(row, 40, 32) =~= field(b@, at + 40, 32));
        let l2_chain_id_hash: [u8; 32] = read_array::<32>(b, at);
        let batch_id: u64 = read_be(b, at + 32, 8) as u64;
        let blob_hash: [u8; 32] = read_array::<32>(b, at + 40);
        Ok((L2BatchKey { l2_chain_id_hash, batch_id }, blob_hash))
    }

    fn on_duplicate() -> (r: Option<&'static str>) {
        Some("DA anchor registry has duplicate keys")
    }
}

impl Table for AnchorTable {
    open spec fn version() -> u32 {
        DA_ANCHOR_REGISTRY_VERSION
    }

    open spec fn header_reason() -> &'static str {
        "DA anchor registry header missing"
    }

    open spec fn version_reason() -> &'static str {
        "DA anchor registry version mismatch"
    }

    open spec fn overflow_reason() -> &'static str {
        "DA anchor registry count overflows usize"
    }

    open spec fn size_reason() -> &'static str {
        "DA anchor registry size mismatch"
    }

    fn table_version() -> (v: u32) {
        DA_ANCHOR_REGISTRY_VERSION
    }

    fn on_header() -> (r: &'static str) {
        "DA anchor registry header missing"
    }

    fn on_version() -> (r: &'static str) {
        "DA anchor registry version mismatch"
    }

    fn on_overflow() -> (r: &'static str) {
        "DA anchor registry count overflows usize"
    }

    fn on_size() -> (r: &'static str) {
        "DA anchor registry size mismatch"
    }
}

/// The registry that a record spells, or the error that reading it gives.
pub open spec fn parse(b: Seq<u8>) -> Result<Map<L2BatchKey, [u8; 32]>, ExecutionError> {
    match parse_table::<AnchorTable>(b) {
        Ok(m) => Ok(m),
        Err(reason) => Err(
            ExecutionError::CorruptStateRecord {
                addr: reserved::da_anchor_registry_address(),
                reason,
            },
        ),
    }
}

/// Encodes the registry.
pub fn encode(map: &OrderedMap<L2BatchKey, [u8; 32]>) -> (out: Vec<u8>)
    ensures
        out@ == table_bytes::<AnchorTable>(map@),
{
    encode_table::<AnchorTable>(map)
}

/// Decodes the registry.
pub fn decode(bytes: &[u8]) -> (r: Result<OrderedMap<L2BatchKey, [u8; 32]>, ExecutionError>)
    ensures
        match r {
            Ok(m) => parse(bytes@) == Ok::<Map<L2BatchKey, [u8; 32]>, ExecutionError>(m@),
            Err(e) => parse(bytes@) == Err::<Map<L2BatchKey, [u8; 32]>, ExecutionError>(e),
        },
{
    match decode_table::<AnchorTable>(bytes) {
        Ok(m) => Ok(m),
        Err(reason) => Err(
            ExecutionError::CorruptStateRecord {
                addr: reserved::da_anchor_registry_address(),
                reason,
            },
        ),
    }
}

/// The anchor of a blob: its plain BLAKE3 digest, which is also what the
/// sequencer commits to.
pub fn da_blob_hash(da_blob: &[u8]) -> (h: [u8; 32])
    ensures
        h == digest_of(da_blob@),
{
    digest(da_blob)
}

} // verus!
