//! L2 registry: pinned verifying keys and committed state roots.
//!
//! ```text
//! u32(version 2) ||
//! u32(chain count) ||
//!   for each chain in ascending order:
//!     chain id hash (32) || aggregation vk hash (32) || range vk commitment (32)
//! u32(root count) ||
//!   for each batch in ascending order:
//!     chain id hash (32) || u64(batch id) || state root (32) ||
//!     u64(L1 height) || vk hash (32) || data-availability commitment (32)
//! ```
//!
//! Version 1 held one pair of keys for the only chain. It is still read: a pair
//! that is not all zeros becomes the pair of the all-zeros chain. Version 2 is
//! what is written.

use vstd::prelude::*;

use crate::bytes::{
    array_of, be_bytes, be_value, field, lemma_array_of, lemma_be_bytes_len, lemma_be_limits,
    lemma_be_round_trip, push_all, push_be, read_array, read_be, same_array, zero_hash,
};
use crate::error::ExecutionError;
use crate::ordered::{lemma_sorted_rows, sorted_rows, OrderedKey, OrderedMap, Place};
use crate::reserved;
use crate::table::{
    lemma_all_stored, lemma_parse_rows, lemma_rows_bytes_len, parse_rows, push_rows, read_rows,
    rows_bytes, RowFormat,
};

verus! {

/// Current encoding version.
pub const L2_REGISTRY_VERSION: u32 = 2;

/// Encoding version with one pair of keys, read but no longer written.
pub const L2_REGISTRY_VERSION_V1: u32 = 1;

/// Bytes of an encoded state-root record.
pub const L2_STATE_ROOT_RECORD_BYTES: usize = 104;

/// Bytes of a row of the state-root table.
pub const ENCODED_STATE_ROOT_ENTRY_BYTES: usize = 144;

/// Bytes of a row of the verifying-key table.
pub const ENCODED_CHAIN_VKS_ENTRY_BYTES: usize = 96;

/// Bytes before the rows of a version 1 registry.
pub const V1_HEADER_BYTES: usize = 72;

/// Verifying keys pinned for one L2 chain.
#[derive(Debug, Clone, Copy, PartialEq, Eq)]
pub struct ChainVks {
    /// Hash of the aggregation verifying key.
    pub aggregation_vk_hash: [u8; 32],
    /// Commitment to the range-program verifying key.
    pub range_vk_commitment: [u8; 32],
}

/// What stands for the keys of a chain that has none pinned.
pub open spec fn unpinned() -> ChainVks {
    ChainVks { aggregation_vk_hash: zero_hash(), range_vk_commitment: zero_hash() }
}

impl Default for ChainVks {
    fn default() -> (v: Self)
        ensures
            v == unpinned(),
    {
        ChainVks { aggregation_vk_hash: zero_hash(), range_vk_commitment: zero_hash() }
    }
}

/// A committed L2 state root.
#[derive(Debug, Clone, Copy, PartialEq, Eq)]
pub struct L2StateRootRecord {
    /// State root of the batch.
    pub state_root: [u8; 32],
    /// L1 height that the batch is anchored at.
    pub committed_at_l1_height: u64,
    /// Verifying-key hash of the proof.
    pub vk_hash: [u8; 32],
    /// Commitment to the data-availability blob of the batch.
    pub da_commitment: [u8; 32],
}

/// A batch of an L2 chain.
#[derive(Debug, Clone, Copy, PartialEq, Eq, PartialOrd, Ord)]
pub struct L2BatchKey {
    /// Chain identifier hash.
    pub l2_chain_id_hash: [u8; 32],
    /// Batch identifier within the chain.
    pub batch_id: u64,
}

/// Batches are ordered by chain, then by identifier.
impl OrderedKey for L2BatchKey {
    open spec fn before(self, other: L2BatchKey) -> bool {
        self.l2_chain_id_hash.before(other.l2_chain_id_hash) || (self.l2_chain_id_hash
            == other.l2_chain_id_hash && self.batch_id < other.batch_id)
    }

    proof fn lemma_irreflexive(a: L2BatchKey) {
        <[u8; 32]>::lemma_irreflexive(a.l2_chain_id_hash);
    }

    proof fn lemma_transitive(a: L2BatchKey, b: L2BatchKey, c: L2BatchKey) {
        let (x, y, z) = (a.l2_chain_id_hash, b.l2_chain_id_hash, c.l2_chain_id_hash);
        if x.before(y) && y.before(z) {
            <[u8; 32]>::lemma_transitive(x, y, z);
        }
    }

    proof fn lemma_total(a: L2BatchKey, b: L2BatchKey) {
        <[u8; 32]>::lemma_total(a.l2_chain_id_hash, b.l2_chain_id_hash);
    }

    fn place(&self, other: &L2BatchKey) -> (p: Place) {
        match self.l2_chain_id_hash.place(&other.l2_chain_id_hash) {
            Place::Same => if self.batch_id < other.batch_id {
                Place::Before
            } else if self.batch_id == other.batch_id {
                Place::Same
            } else {
                Place::After
            },
            p => p,
        }
    }
}

/// The whole L2 registry.
#[derive(Debug, Clone, PartialEq, Eq)]
pub struct L2Registry {
    /// Verifying keys by chain.
    pub chain_vks: OrderedMap<[u8; 32], ChainVks>,
    /// Committed state roots by batch.
    pub state_roots: OrderedMap<L2BatchKey, L2StateRootRecord>,
}

/// The contents of the L2 registry.
#[verifier::ext_equal]
pub struct L2View {
    pub chain_vks: Map<[u8; 32], ChainVks>,
    pub state_roots: Map<L2BatchKey, L2StateRootRecord>,
}

impl View for L2Registry {
    type V = L2View;

    open spec fn view(&self) -> L2View {
        L2View { chain_vks: self.chain_vks@, state_roots: self.state_roots@ }
    }
}

impl L2View {
    /// The empty registry.
    pub open spec fn empty() -> L2View {
        L2View { chain_vks: Map::empty(), state_roots: Map::empty() }
    }

    /// The keys pinned for a chain, all zeros where none are.
    pub open spec fn vks(self, chain_id_hash: [u8; 32]) -> ChainVks {
        if self.chain_vks.dom().contains(chain_id_hash) {
            self.chain_vks[chain_id_hash]
        } else {
            unpinned()
        }
    }
}

impl Default for L2Registry {
    fn default() -> (r: Self)
        ensures
            r@ == L2View::empty(),
    {
        L2Registry { chain_vks: OrderedMap::new(), state_roots: OrderedMap::new() }
    }
}

impl L2Registry {
    /// The aggregation verifying-key hash pinned for a chain, all zeros if none is.
    pub fn aggregation_vk_hash(&self, chain_id_hash: &[u8; 32]) -> (h: [u8; 32])
        ensures
            h == self@.vks(*chain_id_hash).aggregation_vk_hash,
    {
        match self.chain_vks.get(chain_id_hash) {
            Some(v) => v.aggregation_vk_hash,
            None => zero_hash(),
        }
    }

    /// The range-program commitment pinned for a chain, all zeros if none is.
    pub fn range_vk_commitment(&self, chain_id_hash: &[u8; 32]) -> (h: [u8; 32])
        ensures
            h == self@.vks(*chain_id_hash).range_vk_commitment,
    {
        match self.chain_vks.get(chain_id_hash) {
            Some(v) => v.range_vk_commitment,
            None => zero_hash(),
        }
    }

    /// Pins the verifying keys of one chain, replacing what was pinned.
    pub fn set_chain_vks(
        &mut self,
        chain_id_hash: [u8; 32],
        aggregation_vk_hash: [u8; 32],
        range_vk_commitment: [u8; 32],
    )
        ensures
            final(self)@.chain_vks == old(self)@.chain_vks.insert(
                chain_id_hash,
                ChainVks { aggregation_vk_hash, range_vk_commitment },
            ),
            final(self)@.state_roots == old(self)@.state_roots,
    {
        self.chain_vks.insert(
            chain_id_hash,
            ChainVks { aggregation_vk_hash, range_vk_commitment },
        );
    }
}

/// Rows of the verifying-key table.
pub struct ChainVksTable;

impl RowFormat for ChainVksTable {
    type Key = [u8; 32];

    type Value = ChainVks;

    open spec fn width() -> nat {
        96
    }

    open spec fn stored(key: [u8; 32], value: ChainVks) -> bool {
        true
    }

    open spec fn row_bytes(key: [u8; 32], value: ChainVks) -> Seq<u8> {
        key@ + value.aggregation_vk_hash@ + value.range_vk_commitment@
    }

    open spec fn parse_row(b: Seq<u8>) -> Result<([u8; 32], ChainVks), &'static str> {
        Ok(
            (
                array_of::<32>(field(b, 0, 32)),
                ChainVks {
                    aggregation_vk_hash: array_of::<32>(field(b, 32, 32)),
                    range_vk_commitment: array_of::<32>(field(b, 64, 32)),
                },
            ),
        )
    }

    open spec fn duplicate_reason() -> Option<&'static str> {
        Some("L2 registry has duplicate chain_vks")
    }

    proof fn lemma_width() {
    }

    proof fn lemma_row_len(key: [u8; 32], value: ChainVks) {
    }

    proof fn lemma_row_round_trip(key: [u8; 32], value: ChainVks) {
        let b = Self::row_bytes(key, value);
        lemma_array_of(key);
        lemma_array_of(value.aggregation_vk_hash);
        lemma_array_of(value.range_vk_commitment);
        assert(field(b, 0, 32) =~= key@);
        assert(field(b, 32, 32) =~= value.aggregation_vk_hash@);
        assert(field(b, 64, 32) =~= value.range_vk_commitment@);
    }

    fn row_width() -> (w: usize) {
        96
    }

    fn is_stored(key: &[u8; 32], value: &ChainVks) -> (r: bool) {
        true
    }

    fn push_row(out: &mut Vec<u8>, key: &[u8; 32], value: &ChainVks) {
        push_all(out, key.as_slice());
        push_all(out, value.aggregation_vk_hash.as_slice());
        push_all(out, value.range_vk_commitment.as_slice());
        assert(out@ =~= old(out)@ + Self::row_bytes(*key, *value));
    }

    fn read_row(b: &[u8], at: usize) -> (r: Result<([u8; 32], ChainVks), &'static str>) {
        let len: usize = b.len();
        let ghost row = field(b@, at as int, 96);
        assert(field(row, 0, 32) =~= field(b@, at + 0, 32));
        assert(field(row, 32, 32) =~= field(b@, at + 32, 32));
        assert(field(row, 64, 32) =~= field(b@, at + 64, 32));
        let chain: [u8; 32] = read_array::<32>(b, at);
        let aggregation_vk_hash: [u8; 32] = read_array::<32>(b, at + 32);
        let range_vk_commitment: [u8; 32] = read_array::<32>(b, at + 64);
        Ok((chain, ChainVks { aggregation_vk_hash, range_vk_commitment }))
    }

    fn on_duplicate() -> (r: Option<&'static str>) {
        Some("L2 registry has duplicate chain_vks")
    }
}

/// Rows of the state-root table.
pub struct StateRootTable;

impl RowFormat for StateRootTable {
    type Key = L2BatchKey;

    type Value = L2StateRootRecord;

    open spec fn width() -> nat {
        144
    }

    open spec fn stored(key: L2BatchKey, value: L2StateRootRecord) -> bool {
        true
    }

    open spec fn row_bytes(key: L2BatchKey, value: L2StateRootRecord) -> Seq<u8> {
        key.l2_chain_id_hash@ + be_bytes(key.batch_id as nat, 8) + value.state_root@
            + be_bytes(value.committed_at_l1_height as nat, 8) + value.vk_hash@
            + value.da_commitment@
    }

    open spec fn parse_row(b: Seq<u8>) -> Result<(L2BatchKey, L2StateRootRecord), &'static str> {
        Ok((
            L2BatchKey {
                l2_chain_id_hash: array_of::<32>(field(b, 0, 32)),
                batch_id: be_value(field(b, 32, 8)) as u64,
            },
            L2StateRootRecord {
                state_root: array_of::<32>(field(b, 40, 32)),
                committed_at_l1_height: be_value(field(b, 72, 8)) as u64,
                vk_hash: array_of::<32>(field(b, 80, 32)),
                da_commitment: array_of::<32>(field(b, 112, 32)),
            },
        ))
    }

    open spec fn duplicate_reason() -> Option<&'static str> {
        Some("L2 registry has duplicate keys")
    }

    proof fn lemma_width() {
    }

    proof fn lemma_row_len(key: L2BatchKey, value: L2StateRootRecord) {
        lemma_be_bytes_len(key.batch_id as nat, 8);
        lemma_be_bytes_len(value.committed_at_l1_height as nat, 8);
    }

    proof fn lemma_row_round_trip(key: L2BatchKey, value: L2StateRootRecord) {
        let b = Self::row_bytes(key, value);
        lemma_be_limits();
        lemma_array_of(key.l2_chain_id_hash);
        lemma_be_round_trip(key.batch_id as nat, 8);
        lemma_array_of(value.state_root);
        lemma_be_round_trip(value.committed_at_l1_height as nat, 8);
        lemma_array_of(value.vk_hash);
        lemma_array_of(value.da_commitment);
        assert(field(b, 0, 32) =~= key.l2_chain_id_hash@);
        assert(field(b, 32, 8) =~= be_bytes(key.batch_id as nat, 8));
        assert(field(b, 40, 32) =~= value.state_root@);
        assert(field(b, 72, 8) =~= be_bytes(value.committed_at_l1_height as nat, 8));
        assert(field(b, 80, 32) =~= value.vk_hash@);
        assert(field(b, 112, 32) =~= value.da_commitment@);
    }

    fn row_width() -> (w: usize) {
        144
    }

    fn is_stored(key: &L2BatchKey, value: &L2StateRootRecord) -> (r: bool) {
        true
    }

    fn push_row(out: &mut Vec<u8>, key: &L2BatchKey, value: &L2StateRootRecord) {
        push_all(out, key.l2_chain_id_hash.as_slice());
        push_be(out, key.batch_id as u128, 8);
        push_all(out, value.state_root.as_slice());
        push_be(out, value.committed_at_l1_height as u128, 8);
        push_all(out, value.vk_hash.as_slice());
        push_all(out, value.da_commitment.as_slice());
        assert(out@ =~= old(out)@ + Self::row_bytes(*key, *value));
    }

    fn read_row(b: &[u8], at: usize) -> (r: Result<(L2BatchKey, L2StateRootRecord), &'static str>) {
        let len: usize = b.len();
        let ghost row = field(b@, at as int, 144);
        proof {
            lemma_be_limits();
        }
        assert(field(row, 0, 32) =~= field(b@, at + 0, 32));
        assert(field(row, 32, 8) =~= field(b@, at + 32, 8));
        assert(field(row, 40, 32) =~= field(b@, at + 40, 32));
        assert(field(row, 72, 8) =~= field(b@, at + 72, 8));
        assert(field(row, 80, 32) =~= field(b@, at + 80, 32));
        assert(field(row, 112, 32) =~= field(b@, at + 112, 32));
        let l2_chain_id_hash: [u8; 32] = read_array::<32>(b, at);
        let batch_id: u64 = read_be(b, at + 32, 8) as u64;
        let state_root: [u8; 32] = read_array::<32>(b, at + 40);
        let committed_at_l1_height: u64 = read_be(b, at + 72, 8) as u64;
        let vk_hash: [u8; 32] = read_array::<32>(b, at + 80);
        let da_commitment: [u8; 32] = read_array::<32>(b, at + 112);
        Ok((
            L2BatchKey { l2_chain_id_hash, batch_id },
            L2StateRootRecord { state_root, committed_at_l1_height, vk_hash, da_commitment },
        ))
    }

    fn on_duplicate() -> (r: Option<&'static str>) {
        Some("L2 registry has duplicate keys")
    }
}

/// The canonical encoding of a registry.
pub open spec fn registry_bytes(v: L2View) -> Seq<u8> {
    be_bytes(L2_REGISTRY_VERSION as nat, 4) + be_bytes(v.chain_vks.dom().len(), 4) + rows_bytes::<
        ChainVksTable,
    >(sorted_rows(v.chain_vks)) + be_bytes(v.state_roots.dom().len(), 4) + rows_bytes::<
        StateRootTable,
    >(sorted_rows(v.state_roots))
}

/// The verifying keys that a version 1 registry pins.
pub open spec fn lifted_vks(aggregation_vk_hash: [u8; 32], range_vk_commitment: [u8; 32]) -> Map<
    [u8; 32],
    ChainVks,
> {
    if aggregation_vk_hash == zero_hash() && range_vk_commitment == zero_hash() {
        Map::empty()
    } else {
        Map::empty().insert(zero_hash(), ChainVks { aggregation_vk_hash, range_vk_commitment })
    }
}

/// The contents of a version 2 record, or what is wrong with it.
pub open spec fn parse_v2(b: Seq<u8>) -> Result<L2View, &'static str> {
    if b.len() < 8 {
        Err("L2 registry v2 header missing")
    } else {
        let n = be_value(field(b, 4, 4));
        let at = 8 + n * ENCODED_CHAIN_VKS_ENTRY_BYTES;
        if n * ENCODED_CHAIN_VKS_ENTRY_BYTES > usize::MAX {
            Err("L2 registry chain_vks size overflow")
        } else if b.len() < at + 4 {
            Err("L2 registry chain_vks truncated")
        } else {
            match parse_rows::<ChainVksTable>(b, 8, n) {
                Err(e) => Err(e),
                Ok(chain_vks) => {
                    let k = be_value(field(b, at, 4));
                    if k * ENCODED_STATE_ROOT_ENTRY_BYTES > usize::MAX {
                        Err("L2 registry state_roots size overflow")
                    } else if b.len() != at + 4 + k * ENCODED_STATE_ROOT_ENTRY_BYTES {
                        Err("L2 registry size mismatch")
                    } else {
                        match parse_rows::<StateRootTable>(b, at + 4, k) {
                            Err(e) => Err(e),
                            Ok(state_roots) => Ok(L2View { chain_vks, state_roots }),
                        }
                    }
                },
            }
        }
    }
}

/// The contents of a version 1 record, or what is wrong with it.
pub open spec fn parse_v1(b: Seq<u8>) -> Result<L2View, &'static str> {
    if b.len() < V1_HEADER_BYTES {
        Err("L2 registry v1 header missing")
    } else {
        let k = be_value(field(b, 68, 4));
        if k * ENCODED_STATE_ROOT_ENTRY_BYTES > usize::MAX {
            Err("L2 registry v1 state_roots size overflow")
        } else if b.len() != V1_HEADER_BYTES + k * ENCODED_STATE_ROOT_ENTRY_BYTES {
            Err("L2 registry v1 size mismatch")
        } else {
            match parse_rows::<StateRootTable>(b, V1_HEADER_BYTES as int, k) {
                Err(e) => Err(e),
                Ok(state_roots) => Ok(
                    L2View {
                        chain_vks: lifted_vks(
                            array_of::<32>(field(b, 4, 32)),
                            array_of::<32>(field(b, 36, 32)),
                        ),
                        state_roots,
                    },
                ),
            }
        }
    }
}

/// The contents of a record, or what is wrong with it.
pub open spec fn parse_registry(b: Seq<u8>) -> Result<L2View, &'static str> {
    if b.len() == 0 {
        Ok(L2View::empty())
    } else if b.len() < 4 {
        Err("L2 registry header missing")
    } else {
        let version = be_value(field(b, 0, 4));
        if version == L2_REGISTRY_VERSION {
            parse_v2(b)
        } else if version == L2_REGISTRY_VERSION_V1 {
            parse_v1(b)
        } else {
            Err("L2 registry version mismatch")
        }
    }
}

/// The registry that a record spells, or the error that reading it gives.
pub open spec fn parse(b: Seq<u8>) -> Result<L2View, ExecutionError> {
    match parse_registry(b) {
        Ok(v) => Ok(v),
        Err(reason) => Err(
            ExecutionError::CorruptStateRecord { addr: reserved::l2_registry_address(), reason },
        ),
    }
}

/// Reading back a written registry gives its contents.
pub proof fn lemma_registry_round_trip(v: L2View)
    requires
        v.chain_vks.dom().finite(),
        v.state_roots.dom().finite(),
        v.chain_vks.dom().len() <= u32::MAX,
        v.state_roots.dom().len() <= u32::MAX,
        registry_bytes(v).len() <= usize::MAX,
    ensures
        parse_registry(registry_bytes(v)) == Ok::<L2View, &'static str>(v),
{
    let b = registry_bytes(v);
    let n = v.chain_vks.dom().len();
    let k = v.state_roots.dom().len();
    let vks = rows_bytes::<ChainVksTable>(sorted_rows(v.chain_vks));
    let roots = rows_bytes::<StateRootTable>(sorted_rows(v.state_roots));
    lemma_sorted_rows(v.chain_vks);
    lemma_sorted_rows(v.state_roots);
    lemma_all_stored::<ChainVksTable>(v.chain_vks);
    lemma_all_stored::<StateRootTable>(v.state_roots);
    lemma_rows_bytes_len::<ChainVksTable>(sorted_rows(v.chain_vks));
    lemma_rows_bytes_len::<StateRootTable>(sorted_rows(v.state_roots));
    lemma_be_limits();
    lemma_be_round_trip(L2_REGISTRY_VERSION as nat, 4);
    lemma_be_round_trip(n, 4);
    lemma_be_round_trip(k, 4);
    let at = 8int + vks.len();
    assert(field(b, 0, 4) =~= be_bytes(L2_REGISTRY_VERSION as nat, 4));
    assert(field(b, 4, 4) =~= be_bytes(n, 4));
    assert(b.subrange(8, at) =~= vks);
    assert(field(b, at, 4) =~= be_bytes(k, 4));
    assert(b.subrange(at + 4, at + 4 + roots.len()) =~= roots);
    lemma_parse_rows::<ChainVksTable>(b, 8, sorted_rows(v.chain_vks));
    lemma_parse_rows::<StateRootTable>(b, at + 4, sorted_rows(v.state_roots));
}

/// Encodes the registry.
pub fn encode(reg: &L2Registry) -> (out: Vec<u8>)
    ensures
        out@ == registry_bytes(reg@),
{
    let mut out: Vec<u8> = Vec::new();
    push_be(&mut out, L2_REGISTRY_VERSION as u128, 4);
    let n: usize = reg.chain_vks.len();
    push_be(&mut out, n as u128, 4);
    push_rows::<ChainVksTable>(&mut out, &reg.chain_vks);
    let k: usize = reg.state_roots.len();
    push_be(&mut out, k as u128, 4);
    push_rows::<StateRootTable>(&mut out, &reg.state_roots);
    assert(out@ =~= registry_bytes(reg@));
    out
}

fn decode_v2(b: &[u8]) -> (r: Result<L2Registry, &'static str>)
    ensures
        match r {
            Ok(reg) => parse_v2(b@) == Ok::<L2View, &'static str>(reg@),
            Err(e) => parse_v2(b@) == Err::<L2View, &'static str>(e),
        },
{
    let len: usize = b.len();
    if len < 8 {
        return Err("L2 registry v2 header missing");
    }
    proof {
        lemma_be_limits();
    }
    let n: u128 = read_be(b, 4, 4);
    let rows: u128 = n * ENCODED_CHAIN_VKS_ENTRY_BYTES as u128;
    if rows > usize::MAX as u128 {
        return Err("L2 registry chain_vks size overflow");
    }
    if (len as u128) < 8 + rows + 4 {
        return Err("L2 registry chain_vks truncated");
    }
    let at: usize = 8 + rows as usize;
    let chain_vks = match read_rows::<ChainVksTable>(b, 8, n as usize) {
        Err(e) => {
            return Err(e);
        },
        Ok(m) => m,
    };
    let k: u128 = read_be(b, at, 4);
    let roots: u128 = k * ENCODED_STATE_ROOT_ENTRY_BYTES as u128;
    if roots > usize::MAX as u128 {
        return Err("L2 registry state_roots size overflow");
    }
    if len as u128 != at as u128 + 4 + roots {
        return Err("L2 registry size mismatch");
    }
    match read_rows::<StateRootTable>(b, at + 4, k as usize) {
        Err(e) => Err(e),
        Ok(state_roots) => Ok(L2Registry { chain_vks, state_roots }),
    }
}

fn decode_v1(b: &[u8]) -> (r: Result<L2Registry, &'static str>)
    ensures
        match r {
            Ok(reg) => parse_v1(b@) == Ok::<L2View, &'static str>(reg@),
            Err(e) => parse_v1(b@) == Err::<L2View, &'static str>(e),
        },
{
    let len: usize = b.len();
    if len < V1_HEADER_BYTES {
        return Err("L2 registry v1 header missing");
    }
    let aggregation_vk_hash: [u8; 32] = read_array::<32>(b, 4);
    let range_vk_commitment: [u8; 32] = read_array::<32>(b, 36);
    proof {
        lemma_be_limits();
    }
    let k: u128 = read_be(b, 68, 4);
    let roots: u128 = k * ENCODED_STATE_ROOT_ENTRY_BYTES as u128;
    if roots > usize::MAX as u128 {
        return Err("L2 registry v1 state_roots size overflow");
    }
    if len as u128 != V1_HEADER_BYTES as u128 + roots {
        return Err("L2 registry v1 size mismatch");
    }
    let zero: [u8; 32] = zero_hash();
    let mut chain_vks = OrderedMap::<[u8; 32], ChainVks>::new();
    if !(same_array(&aggregation_vk_hash, &zero) && same_array(&range_vk_commitment, &zero)) {
        chain_vks.insert(zero, ChainVks { aggregation_vk_hash, range_vk_commitment });
    }
    match read_rows::<StateRootTable>(b, V1_HEADER_BYTES, k as usize) {
        Err(e) => Err(e),
        Ok(state_roots) => Ok(L2Registry { chain_vks, state_roots }),
    }
}

/// Decodes the registry. An empty record is an empty registry.
pub fn decode(bytes: &[u8]) -> (r: Result<L2Registry, ExecutionError>)
    ensures
        match r {
            Ok(reg) => parse(bytes@) == Ok::<L2View, ExecutionError>(reg@),
            Err(e) => parse(bytes@) == Err::<L2View, ExecutionError>(e),
        },
{
    let len: usize = bytes.len();
    let r: Result<L2Registry, &'static str> = if len == 0 {
        Ok(L2Registry::default())
    } else if len < 4 {
        Err("L2 registry header missing")
    } else {
        let version: u128 = read_be(bytes, 0, 4);
        if version == L2_REGISTRY_VERSION as u128 {
            decode_v2(bytes)
        } else if version == L2_REGISTRY_VERSION_V1 as u128 {
            decode_v1(bytes)
        } else {
            Err("L2 registry version mismatch")
        }
    };
    match r {
        Ok(reg) => Ok(reg),
        Err(reason) => Err(
            ExecutionError::CorruptStateRecord { addr: reserved::l2_registry_address(), reason },
        ),
    }
}

} // verus!
