//! Force-include obligation registry.
//!
//! Each obligation asks the L2 sequencer to include a transaction by a deadline.
//! It starts `Pending` and ends `Honored` or `Slashed`.
//!
//! ```text
//! u32(version) || u32(count) ||
//!   for each row in ascending order:
//!     obligation id (32) || transaction digest (32) || u64(deadline) ||
//!     submitter (20) || u64(L2 nonce) || u8(status)
//! ```

use vstd::prelude::*;
use vstd::string::StringSliceAdditionalSpecFns;

use crate::bytes::{
    array_of, be_bytes, be_value, field, lemma_array_of, lemma_be_bytes_len, lemma_be_limits,
    lemma_be_round_trip, push_all, push_be, read_array, read_be,
};
use crate::error::ExecutionError;
use crate::hash::{digest, digest_of};
use crate::ordered::OrderedMap;
use crate::reserved;
use crate::substrate::Address;
use crate::table::{decode_table, encode_table, parse_table, table_bytes, RowFormat, Table};

verus! {

/// Current encoding version.
pub const FORCE_INCLUDE_VERSION: u32 = 1;

/// Domain tag of obligation ids.
pub const OBLIGATION_DOMAIN: &'static str = "gsx-force-include-v1";

/// Lifecycle status of an obligation.
#[derive(Debug, Clone, Copy, PartialEq, Eq, Hash, Structural)]
#[non_exhaustive]
pub enum ObligationStatus {
    /// Registered and not yet settled.
    Pending,
    /// The transaction was included in time.
    Honored,
    /// The deadline was missed and the sequencer was slashed.
    Slashed,
}

/// One registered obligation.
#[derive(Debug, Clone, Copy, PartialEq, Eq)]
pub struct ForceIncludeObligation {
    /// Digest of the transaction.
    pub tx_hash: [u8; 32],
    /// Height by which the transaction must be included.
    pub deadline_l1_height: u64,
    /// Address that registered the obligation.
    pub submitter: Address,
    /// L2 nonce of the transaction.
    pub l2_nonce: u64,
    /// Lifecycle status.
    pub status: ObligationStatus,
}

/// The byte of a status.
pub open spec fn status_byte(status: ObligationStatus) -> u8 {
    match status {
        ObligationStatus::Pending => 0,
        ObligationStatus::Honored => 1,
        ObligationStatus::Slashed => 2,
    }
}

/// The status of a byte.
pub open spec fn status_of(b: u8) -> Option<ObligationStatus> {
    if b == 0 {
        Some(ObligationStatus::Pending)
    } else if b == 1 {
        Some(ObligationStatus::Honored)
    } else if b == 2 {
        Some(ObligationStatus::Slashed)
    } else {
        None
    }
}

fn status_to_byte(status: ObligationStatus) -> (b: u8)
    ensures
        b == status_byte(status),
{
    match status {
        ObligationStatus::Pending => 0,
        ObligationStatus::Honored => 1,
        ObligationStatus::Slashed => 2,
    }
}

fn status_from_byte(b: u8) -> (r: Option<ObligationStatus>)
    ensures
        r == status_of(b),
{
    match b {
        0 => Some(ObligationStatus::Pending),
        1 => Some(ObligationStatus::Honored),
        2 => Some(ObligationStatus::Slashed),
        _ => None,
    }
}

/// What is hashed into an obligation id.
pub open spec fn obligation_preimage(
    tx: Seq<u8>,
    deadline_l1_height: u64,
    submitter: Address,
    l2_nonce: u64,
) -> Seq<u8> {
    OBLIGATION_DOMAIN.spec_bytes() + be_bytes(tx.len(), 4) + tx + be_bytes(
        deadline_l1_height as nat,
        8,
    ) + submitter@ + be_bytes(l2_nonce as nat, 8)
}

/// The id of an obligation: a domain-tagged digest over everything that tells
/// one obligation from another.
pub fn obligation_id(
    tx: &[u8],
    deadline_l1_height: u64,
    submitter: &Address,
    l2_nonce: u64,
) -> (id: [u8; 32])
    ensures
        id == digest_of(obligation_preimage(tx@, deadline_l1_height, *submitter, l2_nonce)),
{
    let mut buf: Vec<u8> = Vec::new();
    push_all(&mut buf, OBLIGATION_DOMAIN.as_bytes());
    push_be(&mut buf, tx.len() as u128, 4);
    push_all(&mut buf, tx);
    push_be(&mut buf, deadline_l1_height as u128, 8);
    push_all(&mut buf, submitter.as_slice());
    push_be(&mut buf, l2_nonce as u128, 8);
    assert(buf@ =~= obligation_preimage(tx@, deadline_l1_height, *submitter, l2_nonce));
    digest(buf.as_slice())
}

/// The digest of a transaction.
pub fn tx_hash(tx: &[u8]) -> (h: [u8; 32])
    ensures
        h == digest_of(tx@),
{
    digest(tx)
}

/// Rows of the force-include registry.
pub struct ObligationTable;

impl RowFormat for ObligationTable {
    type Key = [u8; 32];

    type Value = ForceIncludeObligation;

    open spec fn width() -> nat {
        101
    }

    open spec fn stored(key: [u8; 32], value: ForceIncludeObligation) -> bool {
        true
    }

    open spec fn row_bytes(key: [u8; 32], value: ForceIncludeObligation) -> Seq<u8> {
        key@ + value.tx_hash@ + be_bytes(value.deadline_l1_height as nat, 8) + value.submitter@
            + be_bytes(value.l2_nonce as nat, 8) + seq![status_byte(value.status)]
    }

    open spec fn parse_row(b: Seq<u8>) -> Result<([u8; 32], ForceIncludeObligation), &'static str> {
        match status_of(b[100]) {
            None => Err("force-include status out of range"),
            Some(status) => Ok(
                (
                    array_of::<32>(field(b, 0, 32)),
                    ForceIncludeObligation {
                        tx_hash: array_of::<32>(field(b, 32, 32)),
                        deadline_l1_height: be_value(field(b, 64, 8)) as u64,
                        submitter: array_of::<20>(field(b, 72, 20)),
                        l2_nonce: be_value(field(b, 92, 8)) as u64,
                        status,
                    },
                ),
            ),
        }
    }

    open spec fn duplicate_reason() -> Option<&'static str> {
        Some("force-include registry has duplicate obligation_id")
    }

    proof fn lemma_width() {
    }

    proof fn lemma_row_len(key: [u8; 32], value: ForceIncludeObligation) {
        lemma_be_bytes_len(value.deadline_l1_height as nat, 8);
        lemma_be_bytes_len(value.l2_nonce as nat, 8);
    }

    proof fn lemma_row_round_trip(key: [u8; 32], value: ForceIncludeObligation) {
        let b = Self::row_bytes(key, value);
        lemma_be_limits();
        lemma_array_of(key);
        lemma_array_of(value.tx_hash);
        lemma_be_round_trip(value.deadline_l1_height as nat, 8);
        lemma_array_of(value.submitter);
        lemma_be_round_trip(value.l2_nonce as nat, 8);
        assert(field(b, 0, 32) =~= key@);
        assert(field(b, 32, 32) =~= value.tx_hash@);
        assert(field(b, 64, 8) =~= be_bytes(value.deadline_l1_height as nat, 8));
        assert(field(b, 72, 20) =~= value.submitter@);
        assert(field(b, 92, 8) =~= be_bytes(value.l2_nonce as nat, 8));
        assert(b[100] == status_byte(value.status));
    }

    fn row_width() -> (w: usize) {
        101
    }

    fn is_stored(key: &[u8; 32], value: &ForceIncludeObligation) -> (r: bool) {
        true
    }

    fn push_row(out: &mut Vec<u8>, key: &[u8; 32], value: &ForceIncludeObligation) {
        push_all(out, key.as_slice());
        push_all(out, value.tx_hash.as_slice());
        push_be(out, value.deadline_l1_height as u128, 8);
        push_all(out, value.submitter.as_slice());
        push_be(out, value.l2_nonce as u128, 8);
        out.push(status_to_byte(value.status));
        assert(out@ =~= old(out)@ + Self::row_bytes(*key, *value));
    }

    fn read_row(b: &[u8], at: usize) -> (r: Result<
        ([u8; 32], ForceIncludeObligation),
        &'static str,
    >) {
        let len: usize = b.len();
        let ghost row = field(b@, at as int, 101);
        proof {
            lemma_be_limits();
        }
        assert(field(row, 0, 32) =~= field(b@, at + 0, 32));
        assert(field(row, 32, 32) =~= field(b@, at + 32, 32));
        assert(field(row, 64, 8) =~= field(b@, at + 64, 8));
        assert(field(row, 72, 20) =~= field(b@, at + 72, 20));
        assert(field(row, 92, 8) =~= field(b@, at + 92, 8));
        assert(row[100] == b@[at + 100]);
        let id: [u8; 32] = read_array::<32>(b, at);
        let tx_hash: [u8; 32] = read_array::<32>(b, at + 32);
        let deadline_l1_height: u64 = read_be(b, at + 64, 8) as u64;
        let submitter: Address = read_array::<20>(b, at + 72);
        let l2_nonce: u64 = read_be(b, at + 92, 8) as u64;
        match status_from_byte(b[at + 100]) {
            None => Err("force-include status out of range"),
            Some(status) => Ok((
            id,
            ForceIncludeObligation { tx_hash, deadline_l1_height, submitter, l2_nonce, status },
        )),
        }
    }

    fn on_duplicate() -> (r: Option<&'static str>) {
        Some("force-include registry has duplicate obligation_id")
    }
}

impl Table for ObligationTable {
    open spec fn version() -> u32 {
        FORCE_INCLUDE_VERSION
    }

    open spec fn header_reason() -> &'static str {
        "force-include registry header missing"
    }

    open spec fn version_reason() -> &'static str {
        "force-include registry version mismatch"
    }

    open spec fn overflow_reason() -> &'static str {
        "force-include registry size mismatch"
    }

    open spec fn size_reason() -> &'static str {
        "force-include registry size mismatch"
    }

    fn table_version() -> (v: u32) {
        FORCE_INCLUDE_VERSION
    }

    fn on_header() -> (r: &'static str) {
        "force-include registry header missing"
    }

    fn on_version() -> (r: &'static str) {
        "force-include registry version mismatch"
    }

    fn on_overflow() -> (r: &'static str) {
        "force-include registry size mismatch"
    }

    fn on_size() -> (r: &'static str) {
        "force-include registry size mismatch"
    }
}

/// The registry that a record spells, or the error that reading it gives.
pub open spec fn parse(b: Seq<u8>) -> Result<
    Map<[u8; 32], ForceIncludeObligation>,
    ExecutionError,
> {
    match parse_table::<ObligationTable>(b) {
        Ok(m) => Ok(m),
        Err(reason) => Err(
            ExecutionError::CorruptStateRecord {
                addr: reserved::force_include_registry_address(),
                reason,
            },
        ),
    }
}

/// Encodes the registry.
pub fn encode_map(map: &OrderedMap<[u8; 32], ForceIncludeObligation>) -> (out: Vec<u8>)
    ensures
        out@ == table_bytes::<ObligationTable>(map@),
{
    encode_table::<ObligationTable>(map)
}

/// Decodes the registry.
pub fn decode_map(bytes: &[u8]) -> (r: Result<
    OrderedMap<[u8; 32], ForceIncludeObligation>,
    ExecutionError,
>)
    ensures
        match r {
            Ok(m) => parse(bytes@) == Ok::<Map<[u8; 32], ForceIncludeObligation>, ExecutionError>(
                m@,
            ),
            Err(e) => parse(bytes@) == Err::<Map<[u8; 32], ForceIncludeObligation>, ExecutionError>(
                e,
            ),
        },
{
    match decode_table::<ObligationTable>(bytes) {
        Ok(m) => Ok(m),
        Err(reason) => Err(
            ExecutionError::CorruptStateRecord {
                addr: reserved::force_include_registry_address(),
                reason,
            },
        ),
    }
}

} // verus!
