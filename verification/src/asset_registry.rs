//! Bridge-asset registry.
//!
//! Assets of other chains that may cross the bridge. An asset is listed
//! `Active`; pausing or removing it stops bridge operations and keeps the record.
//!
//! ```text
//! u32(version) || u32(count) ||
//!   for each asset in ascending id order:
//!     asset id (32) || u64(source chain) || u8(decimals) || u8(status) ||
//!     u32(len) || source contract || u32(len) || name || u32(len) || symbol
//! ```

use vstd::prelude::*;
use vstd::string::StringSliceAdditionalSpecFns;

use crate::blob::{blob_at, blob_bytes, lemma_blob_round_trip, push_blob, read_blob};
use crate::bytes::{
    array_of, be_bytes, be_value, field, lemma_array_of, lemma_be_bytes_len, lemma_be_limits,
    lemma_be_round_trip, lemma_be_value_bound, push_all, push_be, read_array, read_be,
};
use crate::error::ExecutionError;
use crate::hash::{digest, digest_of};
use crate::ordered::{
    ascending, lemma_rows_map_dom, lemma_rows_map_get, lemma_sorted_rows, lemma_view_rows,
    row_views, rows_map, sorted_rows, value_views, OrderedKey, OrderedMap,
};
use crate::reserved;

verus! {

/// Current encoding version.
pub const ASSET_REGISTRY_VERSION: u32 = 1;

/// Longest asset name accepted.
pub const MAX_ASSET_NAME_BYTES: usize = 64;

/// Longest asset symbol accepted.
pub const MAX_ASSET_SYMBOL_BYTES: usize = 16;

/// Longest source-chain contract address accepted.
pub const MAX_SOURCE_CONTRACT_BYTES: usize = 64;

/// Bytes before the first asset.
pub const ENCODED_HEADER_BYTES: usize = 8;

/// Bytes of an asset before its first byte string.
pub const ENTRY_FIXED_BYTES: usize = 42;

/// Domain tag of asset ids.
pub const ASSET_DOMAIN: &'static str = "gsx-bridge-asset-v1";

/// Lifecycle status of an asset.
#[derive(Debug, Clone, Copy, PartialEq, Eq, Hash, Structural)]
#[non_exhaustive]
pub enum AssetStatus {
    /// Bridge operations are accepted.
    Active,
    /// Bridge operations are stopped.
    Paused,
    /// The asset is delisted; the record stays for audit.
    Removed,
}

/// One listed asset.
#[derive(Debug, Clone, PartialEq, Eq)]
pub struct AssetRecord {
    /// Source-chain identifier.
    pub source_chain: u64,
    /// Contract address on the source chain.
    pub source_contract: Vec<u8>,
    /// Decimals of the asset.
    pub decimals: u8,
    /// Human-readable name.
    pub name: Vec<u8>,
    /// Human-readable symbol.
    pub symbol: Vec<u8>,
    /// Lifecycle status.
    pub status: AssetStatus,
}

/// The contents of an asset record.
pub struct AssetView {
    pub source_chain: u64,
    pub source_contract: Seq<u8>,
    pub decimals: u8,
    pub name: Seq<u8>,
    pub symbol: Seq<u8>,
    pub status: AssetStatus,
}

impl View for AssetRecord {
    type V = AssetView;

    open spec fn view(&self) -> AssetView {
        AssetView {
            source_chain: self.source_chain,
            source_contract: self.source_contract@,
            decimals: self.decimals,
            name: self.name@,
            symbol: self.symbol@,
            status: self.status,
        }
    }
}

/// All listed assets.
#[derive(Debug, Clone, PartialEq, Eq)]
pub struct AssetRegistry {
    /// Assets by id.
    pub assets: OrderedMap<[u8; 32], AssetRecord>,
}

impl View for AssetRegistry {
    type V = Map<[u8; 32], AssetView>;

    open spec fn view(&self) -> Map<[u8; 32], AssetView> {
        value_views(self.assets@)
    }
}

impl Default for AssetRegistry {
    fn default() -> (r: Self)
        ensures
            r@ == Map::<[u8; 32], AssetView>::empty(),
    {
        let r = AssetRegistry { assets: OrderedMap::new() };
        assert(r@ =~= Map::empty());
        r
    }
}

/// What is hashed into an asset id.
pub open spec fn asset_preimage(source_chain: u64, source_contract: Seq<u8>) -> Seq<u8> {
    ASSET_DOMAIN.spec_bytes() + be_bytes(source_chain as nat, 8) + blob_bytes(source_contract)
}

/// The id of an asset: a domain-tagged digest over its source chain and contract.
pub fn asset_id(source_chain: u64, source_contract: &[u8]) -> (id: [u8; 32])
    ensures
        id == digest_of(asset_preimage(source_chain, source_contract@)),
{
    let mut buf: Vec<u8> = Vec::new();
    push_all(&mut buf, ASSET_DOMAIN.as_bytes());
    push_be(&mut buf, source_chain as u128, 8);
    push_blob(&mut buf, source_contract);
    assert(buf@ =~= asset_preimage(source_chain, source_contract@));
    digest(buf.as_slice())
}

/// The byte of a status.
pub open spec fn status_byte(status: AssetStatus) -> u8 {
    match status {
        AssetStatus::Active => 0,
        AssetStatus::Paused => 1,
        AssetStatus::Removed => 2,
    }
}

/// The status of a byte.
pub open spec fn status_of(b: u8) -> Option<AssetStatus> {
    if b == 0 {
        Some(AssetStatus::Active)
    } else if b == 1 {
        Some(AssetStatus::Paused)
    } else if b == 2 {
        Some(AssetStatus::Removed)
    } else {
        None
    }
}

/// The bytes of an asset.
pub open spec fn asset_bytes(id: [u8; 32], a: AssetView) -> Seq<u8> {
    id@ + be_bytes(a.source_chain as nat, 8) + seq![a.decimals, status_byte(a.status)]
        + blob_bytes(a.source_contract) + blob_bytes(a.name) + blob_bytes(a.symbol)
}

/// The bytes of assets, one after the other.
pub open spec fn assets_bytes(rows: Seq<([u8; 32], AssetView)>) -> Seq<u8>
    decreases rows.len(),
{
    if rows.len() == 0 {
        Seq::empty()
    } else {
        assets_bytes(rows.drop_last()) + asset_bytes(rows.last().0, rows.last().1)
    }
}

/// The canonical encoding of the registry.
pub open spec fn registry_bytes(m: Map<[u8; 32], AssetView>) -> Seq<u8> {
    be_bytes(ASSET_REGISTRY_VERSION as nat, 4) + be_bytes(m.dom().len(), 4) + assets_bytes(
        sorted_rows(m),
    )
}

/// An asset read at some place, and the place right after it.
pub struct AssetAt {
    pub id: [u8; 32],
    pub asset: AssetView,
    pub end: int,
}

/// The byte string at `at`, where its length and its bytes are there.
pub open spec fn string_at(b: Seq<u8>, at: int, cap: usize) -> Option<Seq<u8>> {
    if at + 4 > b.len() {
        None
    } else {
        blob_at(b, at, cap as nat)
    }
}

/// The asset at `at`, or what is wrong there.
pub open spec fn parse_asset(b: Seq<u8>, at: int) -> Result<AssetAt, &'static str> {
    if at + ENTRY_FIXED_BYTES > b.len() {
        Err("asset registry entry truncated")
    } else {
        match status_of(b[at + 41]) {
            None => Err("asset status out of range"),
            Some(status) => match string_at(b, at + 42, MAX_SOURCE_CONTRACT_BYTES) {
                None => Err("asset source_contract length invalid"),
                Some(source_contract) => {
                    let n = at + 46 + source_contract.len();
                    match string_at(b, n, MAX_ASSET_NAME_BYTES) {
                        None => Err("asset name length invalid"),
                        Some(name) => {
                            let s = n + 4 + name.len();
                            match string_at(b, s, MAX_ASSET_SYMBOL_BYTES) {
                                None => Err("asset symbol length invalid"),
                                Some(symbol) => Ok(
                                    AssetAt {
                                        id: array_of::<32>(field(b, at, 32)),
                                        asset: AssetView {
                                            source_chain: be_value(field(b, at + 32, 8)) as u64,
                                            source_contract,
                                            decimals: b[at + 40],
                                            name,
                                            symbol,
                                            status,
                                        },
                                        end: s + 4 + symbol.len(),
                                    },
                                ),
                            }
                        },
                    }
                },
            },
        }
    }
}

/// The first `n` assets of a record and the place right after them.
pub open spec fn parse_assets(b: Seq<u8>, n: nat) -> Result<
    (Map<[u8; 32], AssetView>, int),
    &'static str,
>
    decreases n,
{
    if n == 0 {
        Ok((Map::empty(), ENCODED_HEADER_BYTES as int))
    } else {
        match parse_assets(b, (n - 1) as nat) {
            Err(e) => Err(e),
            Ok((m, at)) => match parse_asset(b, at) {
                Err(e) => Err(e),
                Ok(a) => if m.dom().contains(a.id) {
                    Err("asset registry has duplicate asset_id")
                } else {
                    Ok((m.insert(a.id, a.asset), a.end))
                },
            },
        }
    }
}

/// The assets that a record spells, or what is wrong with it.
pub open spec fn parse_registry(b: Seq<u8>) -> Result<Map<[u8; 32], AssetView>, &'static str> {
    if b.len() == 0 {
        Ok(Map::empty())
    } else if b.len() < ENCODED_HEADER_BYTES {
        Err("asset registry header missing")
    } else if be_value(field(b, 0, 4)) != ASSET_REGISTRY_VERSION {
        Err("asset registry version mismatch")
    } else {
        match parse_assets(b, be_value(field(b, 4, 4))) {
            Err(e) => Err(e),
            Ok((m, at)) => if at != b.len() {
                Err("asset registry trailing bytes")
            } else {
                Ok(m)
            },
        }
    }
}

/// The assets that a record spells, or the error that reading it gives.
pub open spec fn parse(b: Seq<u8>) -> Result<Map<[u8; 32], AssetView>, ExecutionError> {
    match parse_registry(b) {
        Ok(m) => Ok(m),
        Err(reason) => Err(
            ExecutionError::CorruptStateRecord { addr: reserved::asset_registry_address(), reason },
        ),
    }
}

/// Whether the byte strings of an asset are within their limits.
pub open spec fn strings_fit(a: AssetView) -> bool {
    &&& a.source_contract.len() <= MAX_SOURCE_CONTRACT_BYTES
    &&& a.name.len() <= MAX_ASSET_NAME_BYTES
    &&& a.symbol.len() <= MAX_ASSET_SYMBOL_BYTES
}

proof fn lemma_parsed_assets(b: Seq<u8>, n: nat)
    ensures
        parse_assets(b, n) matches Ok(r) ==> {
            &&& r.1 >= 0
            &&& r.0.dom().finite()
            &&& r.0.dom().len() <= n
            &&& forall|id: [u8; 32]| #[trigger] r.0.dom().contains(id) ==> strings_fit(r.0[id])
        },
    decreases n,
{
    if n > 0 {
        lemma_parsed_assets(b, (n - 1) as nat);
    }
}

/// Every asset that reading gives has byte strings within their limits.
pub proof fn lemma_parsed_assets_fit(b: Seq<u8>)
    ensures
        parse_registry(b) matches Ok(m) ==> {
            &&& m.dom().finite()
            &&& m.dom().len() <= u32::MAX
            &&& forall|id: [u8; 32]| #[trigger] m.dom().contains(id) ==> strings_fit(m[id])
        },
{
    lemma_be_limits();
    lemma_be_value_bound(field(b, 4, 4));
    lemma_parsed_assets(b, be_value(field(b, 4, 4)));
}

#[verifier::rlimit(40)]
proof fn lemma_asset_round_trip(b: Seq<u8>, at: int, id: [u8; 32], a: AssetView)
    requires
        0 <= at,
        strings_fit(a),
        at + asset_bytes(id, a).len() <= b.len(),
        field(b, at, asset_bytes(id, a).len() as int) == asset_bytes(id, a),
    ensures
        parse_asset(b, at) == Ok::<AssetAt, &'static str>(
            AssetAt { id, asset: a, end: at + asset_bytes(id, a).len() },
        ),
{
    let whole = asset_bytes(id, a);
    let f = field(b, at, whole.len() as int);
    lemma_be_limits();
    lemma_be_round_trip(a.source_chain as nat, 8);
    lemma_array_of(id);
    lemma_be_bytes_len(a.source_contract.len(), 4);
    lemma_be_bytes_len(a.name.len(), 4);
    lemma_be_bytes_len(a.symbol.len(), 4);
    assert(field(b, at, 32) =~= id@) by {
        assert(field(b, at, 32) =~= f.subrange(0, 32));
        assert(whole.subrange(0, 32) =~= id@);
    }
    assert(field(b, at + 32, 8) =~= be_bytes(a.source_chain as nat, 8)) by {
        assert(field(b, at + 32, 8) =~= f.subrange(32, 40));
        assert(whole.subrange(32, 40) =~= be_bytes(a.source_chain as nat, 8));
    }
    assert(b[at + 40] == f[40] && f[40] == a.decimals);
    assert(b[at + 41] == f[41] && f[41] == status_byte(a.status));
    let c = blob_bytes(a.source_contract).len() as int;
    let n = blob_bytes(a.name).len() as int;
    let s = blob_bytes(a.symbol).len() as int;
    assert(field(b, at + 42, c) =~= blob_bytes(a.source_contract)) by {
        assert(field(b, at + 42, c) =~= f.subrange(42, 42 + c));
        assert(whole.subrange(42, 42 + c) =~= blob_bytes(a.source_contract));
    }
    lemma_blob_round_trip(b, at + 42, a.source_contract, MAX_SOURCE_CONTRACT_BYTES as nat);
    assert(field(b, at + 42 + c, n) =~= blob_bytes(a.name)) by {
        assert(field(b, at + 42 + c, n) =~= f.subrange(42 + c, 42 + c + n));
        assert(whole.subrange(42 + c, 42 + c + n) =~= blob_bytes(a.name));
    }
    lemma_blob_round_trip(b, at + 42 + c, a.name, MAX_ASSET_NAME_BYTES as nat);
    assert(field(b, at + 42 + c + n, s) =~= blob_bytes(a.symbol)) by {
        assert(field(b, at + 42 + c + n, s) =~= f.subrange(42 + c + n, 42 + c + n + s));
        assert(whole.subrange(42 + c + n, 42 + c + n + s) =~= blob_bytes(a.symbol));
    }
    lemma_blob_round_trip(b, at + 42 + c + n, a.symbol, MAX_ASSET_SYMBOL_BYTES as nat);
}

spec fn rows_fit(rows: Seq<([u8; 32], AssetView)>) -> bool {
    forall|i: int| 0 <= i < rows.len() ==> strings_fit((#[trigger] rows[i]).1)
}

proof fn lemma_parse_assets(b: Seq<u8>, rows: Seq<([u8; 32], AssetView)>)
    requires
        ascending(rows),
        rows_fit(rows),
        ENCODED_HEADER_BYTES + assets_bytes(rows).len() <= b.len(),
        field(b, ENCODED_HEADER_BYTES as int, assets_bytes(rows).len() as int) == assets_bytes(
            rows,
        ),
    ensures
        parse_assets(b, rows.len()) == Ok::<(Map<[u8; 32], AssetView>, int), &'static str>(
            (rows_map(rows), ENCODED_HEADER_BYTES + assets_bytes(rows).len()),
        ),
    decreases rows.len(),
{
    if rows.len() > 0 {
        let init = rows.drop_last();
        let (id, a) = rows.last();
        let whole = assets_bytes(rows);
        let part = assets_bytes(init);
        let h = ENCODED_HEADER_BYTES as int;
        assert forall|x: int, y: int|
            #![trigger init[x], init[y]]
            0 <= x < y < init.len() implies init[x].0.before(init[y].0) by {
            assert(rows[x].0.before(rows[y].0));
        }
        assert forall|i: int| 0 <= i < init.len() implies strings_fit((#[trigger] init[i]).1) by {
            assert(init[i] == rows[i]);
        }
        assert(field(b, h, part.len() as int) =~= part) by {
            assert(field(b, h, part.len() as int) =~= field(b, h, whole.len() as int).subrange(
                0,
                part.len() as int,
            ));
            assert(whole.subrange(0, part.len() as int) =~= part);
        }
        lemma_parse_assets(b, init);
        let one = asset_bytes(id, a);
        assert(rows[rows.len() - 1] == (id, a));
        assert(field(b, h + part.len(), one.len() as int) =~= one) by {
            assert(field(b, h + part.len(), one.len() as int) =~= field(
                b,
                h,
                whole.len() as int,
            ).subrange(part.len() as int, whole.len() as int));
            assert(whole.subrange(part.len() as int, whole.len() as int) =~= one);
        }
        lemma_asset_round_trip(b, h + part.len(), id, a);
        lemma_rows_map_dom(init);
        assert(!rows_map(init).dom().contains(id)) by {
            if rows_map(init).dom().contains(id) {
                let i = choose|i: int| 0 <= i < init.len() && (#[trigger] init[i]).0 == id;
                assert(rows[i].0.before(rows[rows.len() - 1].0));
                <[u8; 32]>::lemma_irreflexive(id);
            }
        }
    }
}

/// Reading back a written registry gives its assets.
pub proof fn lemma_registry_round_trip(m: Map<[u8; 32], AssetView>)
    requires
        m.dom().finite(),
        m.dom().len() <= u32::MAX,
        forall|id: [u8; 32]| #[trigger] m.dom().contains(id) ==> strings_fit(m[id]),
    ensures
        parse_registry(registry_bytes(m)) == Ok::<Map<[u8; 32], AssetView>, &'static str>(m),
{
    let rows = sorted_rows(m);
    let b = registry_bytes(m);
    let body = assets_bytes(rows);
    lemma_sorted_rows(m);
    lemma_be_limits();
    lemma_be_round_trip(ASSET_REGISTRY_VERSION as nat, 4);
    lemma_be_round_trip(m.dom().len(), 4);
    assert(field(b, 0, 4) =~= be_bytes(ASSET_REGISTRY_VERSION as nat, 4));
    assert(field(b, 4, 4) =~= be_bytes(m.dom().len(), 4));
    assert(field(b, 8, body.len() as int) =~= body);
    assert forall|i: int| 0 <= i < rows.len() implies strings_fit((#[trigger] rows[i]).1) by {
        lemma_rows_map_get(rows, i);
        assert(m.dom().contains(rows[i].0));
    }
    lemma_parse_assets(b, rows);
}

fn status_to_byte(status: AssetStatus) -> (b: u8)
    ensures
        b == status_byte(status),
{
    match status {
        AssetStatus::Active => 0,
        AssetStatus::Paused => 1,
        AssetStatus::Removed => 2,
    }
}

fn status_from_byte(b: u8) -> (r: Option<AssetStatus>)
    ensures
        r == status_of(b),
{
    match b {
        0 => Some(AssetStatus::Active),
        1 => Some(AssetStatus::Paused),
        2 => Some(AssetStatus::Removed),
        _ => None,
    }
}

fn push_asset(out: &mut Vec<u8>, id: &[u8; 32], a: &AssetRecord)
    ensures
        final(out)@ == old(out)@ + asset_bytes(*id, a@),
{
    push_all(out, id.as_slice());
    push_be(out, a.source_chain as u128, 8);
    out.push(a.decimals);
    out.push(status_to_byte(a.status));
    push_blob(out, a.source_contract.as_slice());
    push_blob(out, a.name.as_slice());
    push_blob(out, a.symbol.as_slice());
    assert(out@ =~= old(out)@ + asset_bytes(*id, a@));
}

/// Encodes the registry.
pub fn encode(reg: &AssetRegistry) -> (out: Vec<u8>)
    ensures
        out@ == registry_bytes(reg@),
{
    let rows = reg.assets.entries();
    let n: usize = rows.len();
    let mut out: Vec<u8> = Vec::new();
    push_be(&mut out, ASSET_REGISTRY_VERSION as u128, 4);
    push_be(&mut out, n as u128, 4);
    let ghost head = out@;
    proof {
        lemma_view_rows(rows@);
        assert(reg@.dom() =~= reg.assets@.dom());
    }
    assert(out@ =~= head + assets_bytes(row_views(rows@).take(0)));
    let mut i: usize = 0;
    while i < n
        invariant
            i <= n,
            n == rows@.len(),
            out@ == head + assets_bytes(row_views(rows@).take(i as int)),
        decreases n - i,
    {
        proof {
            let v = row_views(rows@);
            assert(v.take(i + 1).drop_last() =~= v.take(i as int));
            assert(v.take(i + 1).last() == v[i as int]);
        }
        push_asset(&mut out, &rows[i].0, &rows[i].1);
        i = i + 1;
        assert(out@ =~= head + assets_bytes(row_views(rows@).take(i as int)));
    }
    assert(row_views(rows@).take(n as int) =~= row_views(rows@));
    assert(out@ =~= registry_bytes(reg@));
    out
}

fn read_string(b: &[u8], at: usize, cap: usize) -> (r: Option<Vec<u8>>)
    requires
        at <= b@.len(),
    ensures
        match r {
            Some(v) => string_at(b@, at as int, cap) == Some(v@) && at + 4 + v@.len() <= b@.len(),
            None => string_at(b@, at as int, cap) is None,
        },
{
    let len: usize = b.len();
    if len - at < 4 {
        None
    } else {
        read_blob(b, at, cap)
    }
}

fn read_asset(b: &[u8], at: usize) -> (r: Result<([u8; 32], AssetRecord, usize), &'static str>)
    requires
        at <= b@.len(),
    ensures
        match r {
            Ok(a) => parse_asset(b@, at as int) == Ok::<AssetAt, &'static str>(
                AssetAt { id: a.0, asset: a.1@, end: a.2 as int },
            ) && a.2 <= b@.len(),
            Err(e) => parse_asset(b@, at as int) == Err::<AssetAt, &'static str>(e),
        },
{
    let len: usize = b.len();
    if len - at < ENTRY_FIXED_BYTES {
        return Err("asset registry entry truncated");
    }
    proof {
        lemma_be_limits();
    }
    let id: [u8; 32] = read_array::<32>(b, at);
    let source_chain: u128 = read_be(b, at + 32, 8);
    let decimals: u8 = b[at + 40];
    let status = match status_from_byte(b[at + 41]) {
        None => {
            return Err("asset status out of range");
        },
        Some(s) => s,
    };
    let source_contract = match read_string(b, at + 42, MAX_SOURCE_CONTRACT_BYTES) {
        None => {
            return Err("asset source_contract length invalid");
        },
        Some(v) => v,
    };
    let n: usize = at + 46 + source_contract.len();
    let name = match read_string(b, n, MAX_ASSET_NAME_BYTES) {
        None => {
            return Err("asset name length invalid");
        },
        Some(v) => v,
    };
    let s: usize = n + 4 + name.len();
    let symbol = match read_string(b, s, MAX_ASSET_SYMBOL_BYTES) {
        None => {
            return Err("asset symbol length invalid");
        },
        Some(v) => v,
    };
    let end: usize = s + 4 + symbol.len();
    let rec = AssetRecord {
        source_chain: source_chain as u64,
        source_contract,
        decimals,
        name,
        symbol,
        status,
    };
    Ok((id, rec, end))
}

proof fn lemma_assets_error(b: Seq<u8>, i: nat, n: nat, e: &'static str)
    requires
        i <= n,
        parse_assets(b, i) == Err::<(Map<[u8; 32], AssetView>, int), &'static str>(e),
    ensures
        parse_assets(b, n) == Err::<(Map<[u8; 32], AssetView>, int), &'static str>(e),
    decreases n,
{
    if i < n {
        lemma_assets_error(b, i, (n - 1) as nat, e);
    }
}

fn decode_registry(b: &[u8]) -> (r: Result<AssetRegistry, &'static str>)
    ensures
        match r {
            Ok(reg) => parse_registry(b@) == Ok::<Map<[u8; 32], AssetView>, &'static str>(reg@),
            Err(e) => parse_registry(b@) == Err::<Map<[u8; 32], AssetView>, &'static str>(e),
        },
{
    let len: usize = b.len();
    let mut reg = AssetRegistry::default();
    if len == 0 {
        return Ok(reg);
    }
    if len < ENCODED_HEADER_BYTES {
        return Err("asset registry header missing");
    }
    proof {
        lemma_be_limits();
    }
    let version: u128 = read_be(b, 0, 4);
    if version != ASSET_REGISTRY_VERSION as u128 {
        return Err("asset registry version mismatch");
    }
    let n: u128 = read_be(b, 4, 4);
    let mut at: usize = ENCODED_HEADER_BYTES;
    let mut i: u128 = 0;
    while i < n
        invariant
            i <= n,
            len == b@.len(),
            at <= len,
            parse_assets(b@, i as nat) == Ok::<(Map<[u8; 32], AssetView>, int), &'static str>(
                (reg@, at as int),
            ),
            parse_registry(b@) == (match parse_assets(b@, n as nat) {
                Err(e) => Err::<Map<[u8; 32], AssetView>, &'static str>(e),
                Ok((m, at)) => if at != b@.len() {
                    Err("asset registry trailing bytes")
                } else {
                    Ok(m)
                },
            }),
        decreases n - i,
    {
        match read_asset(b, at) {
            Err(e) => {
                proof {
                    lemma_assets_error(b@, (i + 1) as nat, n as nat, e);
                }
                return Err(e);
            },
            Ok((id, rec, end)) => {
                let ghost before = reg@;
                let ghost asset = rec@;
                if reg.assets.contains_key(&id) {
                    proof {
                        assert(reg@.dom().contains(id));
                        lemma_assets_error(
                            b@,
                            (i + 1) as nat,
                            n as nat,
                            "asset registry has duplicate asset_id",
                        );
                    }
                    return Err("asset registry has duplicate asset_id");
                }
                reg.assets.insert(id, rec);
                assert(!before.dom().contains(id));
                assert(reg@ =~= before.insert(id, asset));
                at = end;
            },
        }
        i = i + 1;
    }
    if at != len {
        return Err("asset registry trailing bytes");
    }
    Ok(reg)
}

/// Decodes the registry.
pub fn decode(bytes: &[u8]) -> (r: Result<AssetRegistry, ExecutionError>)
    ensures
        match r {
            Ok(reg) => parse(bytes@) == Ok::<Map<[u8; 32], AssetView>, ExecutionError>(reg@),
            Err(e) => parse(bytes@) == Err::<Map<[u8; 32], AssetView>, ExecutionError>(e),
        },
{
    match decode_registry(bytes) {
        Ok(reg) => Ok(reg),
        Err(reason) => Err(
            ExecutionError::CorruptStateRecord { addr: reserved::asset_registry_address(), reason },
        ),
    }
}

} // verus!
