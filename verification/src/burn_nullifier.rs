//! L2 burn-nullifier registry.
//!
//! The set of burns that were already paid out. A burn is identified by a digest
//! over everything that tells it from another, so a replayed claim is found.
//!
//! ```text
//! u32(version) || u32(count) || for each id in ascending order: id (32)
//! ```

use vstd::prelude::*;
use vstd::string::StringSliceAdditionalSpecFns;

use crate::bytes::{array_of, be_bytes, field, lemma_array_of, push_all, push_be, read_array};
use crate::error::ExecutionError;
use crate::hash::{digest, digest_of};
use crate::ordered::{unit_map, OrderedSet};
use crate::reserved;
use crate::substrate::{Address, Balance};
use crate::table::{
    decode_table, encode_table, parse_table, table_bytes, RowFormat, Table, TABLE_HEADER_BYTES,
};

verus! {

/// Current encoding version.
pub const BURN_NULLIFIER_VERSION: u32 = 1;

/// Bytes of the header: version and row count.
pub const ENCODED_HEADER_BYTES: usize = TABLE_HEADER_BYTES;

/// Bytes of a row.
pub const ENTRY_BYTES: usize = 32;

/// Domain tag of burn ids.
pub const BURN_DOMAIN: &'static str = "gsx-burn-v1";

/// A flag byte, and the asset id where there is one.
pub open spec fn asset_bytes(asset_id: Option<[u8; 32]>) -> Seq<u8> {
    match asset_id {
        Some(id) => seq![1u8] + id@,
        None => seq![0u8],
    }
}

/// What is hashed into a burn id.
pub open spec fn burn_preimage(
    l2_chain_id_hash: [u8; 32],
    batch_id: u64,
    recipient: Address,
    amount: Balance,
    merkle_path: Seq<u8>,
    asset_id: Option<[u8; 32]>,
) -> Seq<u8> {
    BURN_DOMAIN.spec_bytes() + l2_chain_id_hash@ + be_bytes(batch_id as nat, 8) + recipient@
        + be_bytes(amount as nat, 16) + be_bytes(merkle_path.len(), 4) + merkle_path
        + asset_bytes(asset_id)
}

/// The id of a burn.
pub open spec fn burn_id_of(
    l2_chain_id_hash: [u8; 32],
    batch_id: u64,
    recipient: Address,
    amount: Balance,
    merkle_path: Seq<u8>,
    asset_id: Option<[u8; 32]>,
) -> [u8; 32] {
    digest_of(
        burn_preimage(l2_chain_id_hash, batch_id, recipient, amount, merkle_path, asset_id),
    )
}

/// Appends the flag byte and the asset id where there is one.
pub fn push_asset(out: &mut Vec<u8>, asset_id: &Option<[u8; 32]>)
    ensures
        final(out)@ == old(out)@ + asset_bytes(*asset_id),
{
    match asset_id {
        Some(id) => {
            out.push(1);
            push_all(out, id.as_slice());
        },
        None => {
            out.push(0);
        },
    }
    assert(out@ =~= old(out)@ + asset_bytes(*asset_id));
}

/// The id of a burn: a domain-tagged digest over chain, batch, recipient,
/// amount, witness and asset.
pub fn burn_id(
    l2_chain_id_hash: &[u8; 32],
    batch_id: u64,
    recipient: &Address,
    amount: Balance,
    merkle_path: &[u8],
    asset_id: &Option<[u8; 32]>,
) -> (id: [u8; 32])
    ensures
        id == burn_id_of(
            *l2_chain_id_hash,
            batch_id,
            *recipient,
            amount,
            merkle_path@,
            *asset_id,
        ),
{
    let mut buf: Vec<u8> = Vec::new();
    push_all(&mut buf, BURN_DOMAIN.as_bytes());
    push_all(&mut buf, l2_chain_id_hash.as_slice());
    push_be(&mut buf, batch_id as u128, 8);
    push_all(&mut buf, recipient.as_slice());
    push_be(&mut buf, amount, 16);
    push_be(&mut buf, merkle_path.len() as u128, 4);
    push_all(&mut buf, merkle_path);
    push_asset(&mut buf, asset_id);
    assert(buf@ =~= burn_preimage(
        *l2_chain_id_hash,
        batch_id,
        *recipient,
        amount,
        merkle_path@,
        *asset_id,
    ));
    digest(buf.as_slice())
}

/// Rows of the nullifier registry.
pub struct NullifierTable;

impl RowFormat for NullifierTable {
    type Key = [u8; 32];

    type Value = ();

    open spec fn width() -> nat {
        ENTRY_BYTES as nat
    }

    open spec fn stored(key: [u8; 32], value: ()) -> bool {
        true
    }

    open spec fn row_bytes(key: [u8; 32], value: ()) -> Seq<u8> {
        key@
    }

    open spec fn parse_row(b: Seq<u8>) -> Result<([u8; 32], ()), &'static str> {
        Ok((array_of::<32>(field(b, 0, 32)), ()))
    }

    open spec fn duplicate_reason() -> Option<&'static str> {
        None
    }

    proof fn lemma_width() {
    }

    proof fn lemma_row_len(key: [u8; 32], value: ()) {
    }

    proof fn lemma_row_round_trip(key: [u8; 32], value: ()) {
        let b = Self::row_bytes(key, value);
        lemma_array_of(key);
        assert(field(b, 0, 32) =~= key@);
    }

    fn row_width() -> (w: usize) {
        ENTRY_BYTES
    }

    fn is_stored(key: &[u8; 32], value: &()) -> (r: bool) {
        true
    }

    fn push_row(out: &mut Vec<u8>, key: &[u8; 32], value: &()) {
        push_all(out, key.as_slice());
        assert(out@ =~= old(out)@ + Self::row_bytes(*key, *value));
    }

    fn read_row(b: &[u8], at: usize) -> (r: Result<([u8; 32], ()), &'static str>) {
        let len: usize = b.len();
        let ghost row = field(b@, at as int, 32);
        assert(field(row, 0, 32) =~= field(b@, at + 0, 32));
        let id: [u8; 32] = read_array::<32>(b, at);
        Ok((id, ()))
    }

    fn on_duplicate() -> (r: Option<&'static str>) {
        None
    }
}

impl Table for NullifierTable {
    open spec fn version() -> u32 {
        BURN_NULLIFIER_VERSION
    }

    open spec fn header_reason() -> &'static str {
        "burn nullifier header missing"
    }

    open spec fn version_reason() -> &'static str {
        "burn nullifier version mismatch"
    }

    open spec fn overflow_reason() -> &'static str {
        "burn nullifier size mismatch"
    }

    open spec fn size_reason() -> &'static str {
        "burn nullifier size mismatch"
    }

    fn table_version() -> (v: u32) {
        BURN_NULLIFIER_VERSION
    }

    fn on_header() -> (r: &'static str) {
        "burn nullifier header missing"
    }

    fn on_version() -> (r: &'static str) {
        "burn nullifier version mismatch"
    }

    fn on_overflow() -> (r: &'static str) {
        "burn nullifier size mismatch"
    }

    fn on_size() -> (r: &'static str) {
        "burn nullifier size mismatch"
    }
}

/// The set that a record spells, or the error that reading it gives.
pub open spec fn parse(b: Seq<u8>) -> Result<Set<[u8; 32]>, ExecutionError> {
    match parse_table::<NullifierTable>(b) {
        Ok(m) => Ok(m.dom()),
        Err(reason) => Err(
            ExecutionError::CorruptStateRecord {
                addr: reserved::burn_nullifier_registry_address(),
                reason,
            },
        ),
    }
}

/// The canonical encoding of a set of burn ids.
pub open spec fn nullifier_bytes(set: Set<[u8; 32]>) -> Seq<u8> {
    table_bytes::<NullifierTable>(unit_map(set))
}

/// Encodes the set.
pub fn encode(set: &OrderedSet<[u8; 32]>) -> (out: Vec<u8>)
    ensures
        out@ == nullifier_bytes(set@),
{
    encode_table::<NullifierTable>(set.as_rows())
}

/// Decodes the set.
pub fn decode(bytes: &[u8]) -> (r: Result<OrderedSet<[u8; 32]>, ExecutionError>)
    ensures
        match r {
            Ok(s) => parse(bytes@) == Ok::<Set<[u8; 32]>, ExecutionError>(s@),
            Err(e) => parse(bytes@) == Err::<Set<[u8; 32]>, ExecutionError>(e),
        },
{
    match decode_table::<NullifierTable>(bytes) {
        Ok(m) => Ok(OrderedSet::from_rows(m)),
        Err(reason) => Err(
            ExecutionError::CorruptStateRecord {
                addr: reserved::burn_nullifier_registry_address(),
                reason,
            },
        ),
    }
}

} // verus!
