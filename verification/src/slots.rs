//! The record layout that both ring registries share.

use vstd::prelude::*;

use crate::authority_registry::{
    AuthorityRecord, AuthorityStatus, SlotView, AUTHORITY_REGISTRY_VERSION,
    AUTHORITY_REGISTRY_VERSION_METERED, ENCODED_HEADER_BYTES, ENTRY_FIXED_BYTES, MAX_BLS_PK_BYTES,
    MAX_MLDSA_PK_BYTES, METERED_ENTRY_FIXED_BYTES,
};
use crate::blob::{blob_at, blob_bytes, lemma_blob_round_trip, push_blob, read_blob};
use crate::bytes::{
    be_bytes, be_value, field, lemma_be_bytes_len, lemma_be_limits, lemma_be_round_trip,
    lemma_be_value_bound, push_be, read_be,
};
use crate::ordered::{
    ascending, lemma_rows_map_dom, lemma_rows_map_get, lemma_sorted_rows, lemma_view_rows,
    row_views, rows_map, sorted_rows, value_views, OrderedKey, OrderedMap,
};

verus! {

/// What can be wrong with a ring record.
#[derive(Debug, Clone, Copy, PartialEq, Eq, Structural)]
pub enum Flaw {
    /// Shorter than the header.
    Header,
    /// Unknown version.
    Version,
    /// A slot is cut short.
    Truncated,
    /// Unknown status byte.
    Status,
    /// The ML-DSA key is too long or cut short.
    MldsaLength,
    /// The BLS key length is cut short.
    BlsMissing,
    /// The BLS key is too long or cut short.
    BlsLength,
    /// A slot id occurs twice.
    Duplicate,
    /// Bytes follow the last slot.
    Trailing,
}

/// The contents of every slot.
pub open spec fn views(m: Map<u32, AuthorityRecord>) -> Map<u32, SlotView> {
    value_views(m)
}

/// The byte of a status.
pub open spec fn status_byte(status: AuthorityStatus) -> u8 {
    match status {
        AuthorityStatus::Active => 0,
        AuthorityStatus::Exiting => 1,
        AuthorityStatus::Ejected => 2,
    }
}

/// The status of a byte.
pub open spec fn status_of(b: u8) -> Option<AuthorityStatus> {
    if b == 0 {
        Some(AuthorityStatus::Active)
    } else if b == 1 {
        Some(AuthorityStatus::Exiting)
    } else if b == 2 {
        Some(AuthorityStatus::Ejected)
    } else {
        None
    }
}

/// Whether some slot has bonded capital or an exit height.
pub open spec fn tracks_stake(m: Map<u32, SlotView>) -> bool {
    exists|id: u32| #[trigger] m.dom().contains(id) && slot_metered(m[id])
}

/// Whether a slot has bonded capital or an exit height.
pub open spec fn slot_metered(r: SlotView) -> bool {
    r.deposited != 0 || r.exit_height != 0
}

/// The version that a registry is written in.
pub open spec fn version_for(metered: bool) -> u32 {
    if metered {
        AUTHORITY_REGISTRY_VERSION_METERED
    } else {
        AUTHORITY_REGISTRY_VERSION
    }
}

/// The bytes of the two stake counters.
pub open spec fn counter_bytes(metered: bool, r: SlotView) -> Seq<u8> {
    if metered {
        be_bytes(r.deposited as nat, 8) + be_bytes(r.exit_height as nat, 8)
    } else {
        Seq::empty()
    }
}

/// The bytes of a slot.
pub open spec fn slot_bytes(metered: bool, id: u32, r: SlotView) -> Seq<u8> {
    be_bytes(id as nat, 4) + be_bytes(r.stake as nat, 8) + counter_bytes(metered, r) + seq![
        status_byte(r.status),
    ] + blob_bytes(r.mldsa) + blob_bytes(r.bls)
}

/// The bytes of slots, one after the other.
pub open spec fn slots_bytes(metered: bool, rows: Seq<(u32, SlotView)>) -> Seq<u8>
    decreases rows.len(),
{
    if rows.len() == 0 {
        Seq::empty()
    } else {
        slots_bytes(metered, rows.drop_last()) + slot_bytes(metered, rows.last().0, rows.last().1)
    }
}

/// The canonical encoding of a ring registry.
pub open spec fn ring_bytes(m: Map<u32, SlotView>) -> Seq<u8> {
    let metered = tracks_stake(m);
    be_bytes(version_for(metered) as nat, 4) + be_bytes(m.dom().len(), 4) + slots_bytes(
        metered,
        sorted_rows(m),
    )
}

/// A slot read at some place, and the place right after it.
pub struct SlotAt {
    pub id: u32,
    pub slot: SlotView,
    pub end: int,
}

/// Bytes of a slot before its first key's length.
pub open spec fn head_bytes(metered: bool) -> int {
    if metered {
        29
    } else {
        13
    }
}

/// The slot at `at`, or what is wrong there.
pub open spec fn parse_slot(metered: bool, b: Seq<u8>, at: int) -> Result<SlotAt, Flaw> {
    let fixed = if metered { METERED_ENTRY_FIXED_BYTES } else { ENTRY_FIXED_BYTES };
    let head = head_bytes(metered);
    if at + fixed > b.len() {
        Err(Flaw::Truncated)
    } else {
        match status_of(b[at + head - 1]) {
            None => Err(Flaw::Status),
            Some(status) => match blob_at(b, at + head, MAX_MLDSA_PK_BYTES as nat) {
                None => Err(Flaw::MldsaLength),
                Some(mldsa) => {
                    let next = at + head + 4 + mldsa.len();
                    if next + 4 > b.len() {
                        Err(Flaw::BlsMissing)
                    } else {
                        match blob_at(b, next, MAX_BLS_PK_BYTES as nat) {
                            None => Err(Flaw::BlsLength),
                            Some(bls) => Ok(
                                SlotAt {
                                    id: be_value(field(b, at, 4)) as u32,
                                    slot: SlotView {
                                        mldsa,
                                        bls,
                                        stake: be_value(field(b, at + 4, 8)) as u64,
                                        deposited: if metered {
                                            be_value(field(b, at + 12, 8)) as u64
                                        } else {
                                            0
                                        },
                                        exit_height: if metered {
                                            be_value(field(b, at + 20, 8)) as u64
                                        } else {
                                            0
                                        },
                                        status,
                                    },
                                    end: next + 4 + bls.len(),
                                },
                            ),
                        }
                    }
                },
            },
        }
    }
}

/// The first `n` slots of a record and the place right after them.
pub open spec fn parse_slots(metered: bool, b: Seq<u8>, n: nat) -> Result<
    (Map<u32, SlotView>, int),
    Flaw,
>
    decreases n,
{
    if n == 0 {
        Ok((Map::empty(), ENCODED_HEADER_BYTES as int))
    } else {
        match parse_slots(metered, b, (n - 1) as nat) {
            Err(e) => Err(e),
            Ok((m, at)) => match parse_slot(metered, b, at) {
                Err(e) => Err(e),
                Ok(s) => if m.dom().contains(s.id) {
                    Err(Flaw::Duplicate)
                } else {
                    Ok((m.insert(s.id, s.slot), s.end))
                },
            },
        }
    }
}

/// The slots that a record spells, or what is wrong with it.
pub open spec fn parse(b: Seq<u8>) -> Result<Map<u32, SlotView>, Flaw> {
    if b.len() == 0 {
        Ok(Map::empty())
    } else if b.len() < ENCODED_HEADER_BYTES {
        Err(Flaw::Header)
    } else {
        let version = be_value(field(b, 0, 4));
        if version != AUTHORITY_REGISTRY_VERSION && version != AUTHORITY_REGISTRY_VERSION_METERED {
            Err(Flaw::Version)
        } else {
            match parse_slots(
                version == AUTHORITY_REGISTRY_VERSION_METERED,
                b,
                be_value(field(b, 4, 4)),
            ) {
                Err(e) => Err(e),
                Ok((m, at)) => if at != b.len() {
                    Err(Flaw::Trailing)
                } else {
                    Ok(m)
                },
            }
        }
    }
}

/// Whether the keys of every slot are within their limits.
pub open spec fn keys_fit(m: Map<u32, SlotView>) -> bool {
    forall|id: u32| #[trigger]
        m.dom().contains(id) ==> m[id].mldsa.len() <= MAX_MLDSA_PK_BYTES && m[id].bls.len()
            <= MAX_BLS_PK_BYTES
}

proof fn lemma_slot_bytes_len(metered: bool, id: u32, r: SlotView)
    ensures
        slot_bytes(metered, id, r).len() == head_bytes(metered) + 8 + r.mldsa.len() + r.bls.len(),
{
    lemma_be_bytes_len(id as nat, 4);
    lemma_be_bytes_len(r.stake as nat, 8);
    lemma_be_bytes_len(r.deposited as nat, 8);
    lemma_be_bytes_len(r.exit_height as nat, 8);
    lemma_be_bytes_len(r.mldsa.len(), 4);
    lemma_be_bytes_len(r.bls.len(), 4);
}

#[verifier::rlimit(40)]
proof fn lemma_slot_round_trip(metered: bool, b: Seq<u8>, at: int, id: u32, r: SlotView)
    requires
        0 <= at,
        r.mldsa.len() <= MAX_MLDSA_PK_BYTES,
        r.bls.len() <= MAX_BLS_PK_BYTES,
        at + slot_bytes(metered, id, r).len() <= b.len(),
        field(b, at, slot_bytes(metered, id, r).len() as int) == slot_bytes(metered, id, r),
        metered || !slot_metered(r),
    ensures
        parse_slot(metered, b, at) == Ok::<SlotAt, Flaw>(
            SlotAt { id, slot: r, end: at + slot_bytes(metered, id, r).len() },
        ),
{
    let whole = slot_bytes(metered, id, r);
    let f = field(b, at, whole.len() as int);
    let head = head_bytes(metered);
    lemma_slot_bytes_len(metered, id, r);
    lemma_be_limits();
    lemma_be_round_trip(id as nat, 4);
    lemma_be_round_trip(r.stake as nat, 8);
    lemma_be_round_trip(r.deposited as nat, 8);
    lemma_be_round_trip(r.exit_height as nat, 8);
    lemma_be_bytes_len(r.mldsa.len(), 4);
    lemma_be_bytes_len(r.bls.len(), 4);
    assert(field(b, at, 4) =~= be_bytes(id as nat, 4)) by {
        assert(field(b, at, 4) =~= f.subrange(0, 4));
        assert(whole.subrange(0, 4) =~= be_bytes(id as nat, 4));
    }
    assert(field(b, at + 4, 8) =~= be_bytes(r.stake as nat, 8)) by {
        assert(field(b, at + 4, 8) =~= f.subrange(4, 12));
        assert(whole.subrange(4, 12) =~= be_bytes(r.stake as nat, 8));
    }
    if metered {
        assert(field(b, at + 12, 8) =~= be_bytes(r.deposited as nat, 8)) by {
            assert(field(b, at + 12, 8) =~= f.subrange(12, 20));
            assert(whole.subrange(12, 20) =~= be_bytes(r.deposited as nat, 8));
        }
        assert(field(b, at + 20, 8) =~= be_bytes(r.exit_height as nat, 8)) by {
            assert(field(b, at + 20, 8) =~= f.subrange(20, 28));
            assert(whole.subrange(20, 28) =~= be_bytes(r.exit_height as nat, 8));
        }
    }
    assert(b[at + head - 1] == status_byte(r.status)) by {
        assert(f[head - 1] == b[at + head - 1]);
        assert(whole[head - 1] == status_byte(r.status));
    }
    let m = blob_bytes(r.mldsa).len() as int;
    let k = blob_bytes(r.bls).len() as int;
    assert(field(b, at + head, m) =~= blob_bytes(r.mldsa)) by {
        assert(field(b, at + head, m) =~= f.subrange(head, head + m));
        assert(whole.subrange(head, head + m) =~= blob_bytes(r.mldsa));
    }
    lemma_blob_round_trip(b, at + head, r.mldsa, MAX_MLDSA_PK_BYTES as nat);
    assert(field(b, at + head + m, k) =~= blob_bytes(r.bls)) by {
        assert(field(b, at + head + m, k) =~= f.subrange(head + m, head + m + k));
        assert(whole.subrange(head + m, head + m + k) =~= blob_bytes(r.bls));
    }
    lemma_blob_round_trip(b, at + head + m, r.bls, MAX_BLS_PK_BYTES as nat);
}

spec fn rows_fit(metered: bool, rows: Seq<(u32, SlotView)>) -> bool {
    forall|i: int|
        0 <= i < rows.len() ==> {
            &&& (#[trigger] rows[i]).1.mldsa.len() <= MAX_MLDSA_PK_BYTES
            &&& rows[i].1.bls.len() <= MAX_BLS_PK_BYTES
            &&& metered || !slot_metered(rows[i].1)
        }
}

proof fn lemma_parse_slots(metered: bool, b: Seq<u8>, rows: Seq<(u32, SlotView)>)
    requires
        ascending(rows),
        rows_fit(metered, rows),
        ENCODED_HEADER_BYTES + slots_bytes(metered, rows).len() <= b.len(),
        field(b, ENCODED_HEADER_BYTES as int, slots_bytes(metered, rows).len() as int)
            == slots_bytes(metered, rows),
    ensures
        parse_slots(metered, b, rows.len()) == Ok::<(Map<u32, SlotView>, int), Flaw>(
            (rows_map(rows), ENCODED_HEADER_BYTES + slots_bytes(metered, rows).len()),
        ),
    decreases rows.len(),
{
    if rows.len() > 0 {
        let init = rows.drop_last();
        let (id, r) = rows.last();
        let whole = slots_bytes(metered, rows);
        let part = slots_bytes(metered, init);
        let h = ENCODED_HEADER_BYTES as int;
        assert forall|x: int, y: int|
            #![trigger init[x], init[y]]
            0 <= x < y < init.len() implies init[x].0.before(init[y].0) by {
            assert(rows[x].0.before(rows[y].0));
        }
        assert(rows_fit(metered, init)) by {
            assert forall|i: int| 0 <= i < init.len() implies {
                &&& (#[trigger] init[i]).1.mldsa.len() <= MAX_MLDSA_PK_BYTES
                &&& init[i].1.bls.len() <= MAX_BLS_PK_BYTES
                &&& metered || !slot_metered(init[i].1)
            } by {
                assert(init[i] == rows[i]);
            }
        }
        assert(field(b, h, part.len() as int) =~= part) by {
            assert(field(b, h, part.len() as int) =~= field(b, h, whole.len() as int).subrange(
                0,
                part.len() as int,
            ));
            assert(whole.subrange(0, part.len() as int) =~= part);
        }
        lemma_parse_slots(metered, b, init);
        let one = slot_bytes(metered, id, r);
        assert(rows[rows.len() - 1] == (id, r));
        assert(field(b, h + part.len(), one.len() as int) =~= one) by {
            assert(field(b, h + part.len(), one.len() as int) =~= field(
                b,
                h,
                whole.len() as int,
            ).subrange(part.len() as int, whole.len() as int));
            assert(whole.subrange(part.len() as int, whole.len() as int) =~= one);
        }
        lemma_slot_round_trip(metered, b, h + part.len(), id, r);
        lemma_rows_map_dom(init);
        assert(!rows_map(init).dom().contains(id)) by {
            if rows_map(init).dom().contains(id) {
                let i = choose|i: int| 0 <= i < init.len() && (#[trigger] init[i]).0 == id;
                assert(rows[i].0.before(rows[rows.len() - 1].0));
            }
        }
    }
}

/// Reading back a written ring registry gives its slots.
pub proof fn lemma_ring_round_trip(m: Map<u32, SlotView>)
    requires
        m.dom().finite(),
        m.dom().len() <= u32::MAX,
        keys_fit(m),
    ensures
        parse(ring_bytes(m)) == Ok::<Map<u32, SlotView>, Flaw>(m),
{
    let metered = tracks_stake(m);
    let rows = sorted_rows(m);
    let b = ring_bytes(m);
    let body = slots_bytes(metered, rows);
    lemma_sorted_rows(m);
    lemma_be_limits();
    lemma_be_round_trip(version_for(metered) as nat, 4);
    lemma_be_round_trip(m.dom().len(), 4);
    assert(field(b, 0, 4) =~= be_bytes(version_for(metered) as nat, 4));
    assert(field(b, 4, 4) =~= be_bytes(m.dom().len(), 4));
    assert(field(b, 8, body.len() as int) =~= body);
    assert(rows_fit(metered, rows)) by {
        assert forall|i: int| 0 <= i < rows.len() implies {
            &&& (#[trigger] rows[i]).1.mldsa.len() <= MAX_MLDSA_PK_BYTES
            &&& rows[i].1.bls.len() <= MAX_BLS_PK_BYTES
            &&& metered || !slot_metered(rows[i].1)
        } by {
            lemma_rows_map_get(rows, i);
            assert(m.dom().contains(rows[i].0));
        }
    }
    lemma_parse_slots(metered, b, rows);
}

/// Every slot that reading gives has keys within their limits.
pub proof fn lemma_parse_keys_fit(b: Seq<u8>)
    ensures
        parse(b) matches Ok(m) ==> keys_fit(m) && m.dom().finite() && m.dom().len() <= u32::MAX,
{
    if b.len() >= ENCODED_HEADER_BYTES {
        let version = be_value(field(b, 0, 4));
        lemma_parse_slots_fit(
            version == AUTHORITY_REGISTRY_VERSION_METERED,
            b,
            be_value(field(b, 4, 4)),
        );
        lemma_be_value_bound(field(b, 4, 4));
        lemma_be_limits();
    }
}

proof fn lemma_parse_slots_fit(metered: bool, b: Seq<u8>, n: nat)
    ensures
        parse_slots(metered, b, n) matches Ok(r) ==> {
            &&& keys_fit(r.0)
            &&& r.0.dom().finite()
            &&& r.0.dom().len() <= n
            &&& r.1 >= 0
        },
    decreases n,
{
    if n > 0 {
        lemma_parse_slots_fit(metered, b, (n - 1) as nat);
        if let Ok(r) = parse_slots(metered, b, (n - 1) as nat) {
            if let Ok(s) = parse_slot(metered, b, r.1) {
                let head = head_bytes(metered);
                let k = be_value(field(b, r.1 + head, 4));
                assert(s.slot.mldsa.len() == k);
                assert(s.slot.mldsa.len() <= MAX_MLDSA_PK_BYTES);
                assert(s.slot.bls.len() <= MAX_BLS_PK_BYTES);
            }
        }
    }
}

fn status_to_byte(status: AuthorityStatus) -> (b: u8)
    ensures
        b == status_byte(status),
{
    match status {
        AuthorityStatus::Active => 0,
        AuthorityStatus::Exiting => 1,
        AuthorityStatus::Ejected => 2,
    }
}

fn status_from_byte(b: u8) -> (r: Option<AuthorityStatus>)
    ensures
        r == status_of(b),
{
    match b {
        0 => Some(AuthorityStatus::Active),
        1 => Some(AuthorityStatus::Exiting),
        2 => Some(AuthorityStatus::Ejected),
        _ => None,
    }
}

fn any_metered(map: &OrderedMap<u32, AuthorityRecord>) -> (r: bool)
    ensures
        r == tracks_stake(views(map@)),
{
    let rows = map.entries();
    let n: usize = rows.len();
    let mut i: usize = 0;
    while i < n
        invariant
            i <= n,
            n == rows@.len(),
            ascending(rows@),
            rows_map(rows@) == map@,
            forall|j: int| 0 <= j < i ==> !slot_metered((#[trigger] rows@[j]).1@),
        decreases n - i,
    {
        if rows[i].1.deposited_stake != 0 || rows[i].1.exit_block_height != 0 {
            proof {
                lemma_rows_map_get(rows@, i as int);
                let id = rows@[i as int].0;
                assert(views(map@).dom().contains(id) && slot_metered(views(map@)[id]));
            }
            return true;
        }
        i = i + 1;
    }
    proof {
        lemma_rows_map_dom(rows@);
        assert forall|id: u32| #[trigger] views(map@).dom().contains(id) implies !slot_metered(
            views(map@)[id],
        ) by {
            assert(map@.dom().contains(id));
            let j = choose|j: int| 0 <= j < rows@.len() && (#[trigger] rows@[j]).0 == id;
            lemma_rows_map_get(rows@, j);
        }
    }
    false
}

fn push_slot(out: &mut Vec<u8>, metered: bool, id: u32, r: &AuthorityRecord)
    ensures
        final(out)@ == old(out)@ + slot_bytes(metered, id, r@),
{
    push_be(out, id as u128, 4);
    push_be(out, r.stake_gsx as u128, 8);
    if metered {
        push_be(out, r.deposited_stake as u128, 8);
        push_be(out, r.exit_block_height as u128, 8);
    }
    out.push(status_to_byte(r.status));
    push_blob(out, r.mldsa_public_key.as_slice());
    push_blob(out, r.bls_public_key.as_slice());
    assert(out@ =~= old(out)@ + slot_bytes(metered, id, r@));
}

/// Encodes a ring registry.
pub fn encode(map: &OrderedMap<u32, AuthorityRecord>) -> (out: Vec<u8>)
    ensures
        out@ == ring_bytes(views(map@)),
{
    let metered: bool = any_metered(map);
    let rows = map.entries();
    let n: usize = rows.len();
    let mut out: Vec<u8> = Vec::new();
    let version: u32 = if metered {
        AUTHORITY_REGISTRY_VERSION_METERED
    } else {
        AUTHORITY_REGISTRY_VERSION
    };
    push_be(&mut out, version as u128, 4);
    push_be(&mut out, n as u128, 4);
    let ghost head = out@;
    let mut i: usize = 0;
    proof {
        lemma_view_rows(rows@);
        assert(views(map@).dom() =~= map@.dom());
    }
    assert(out@ =~= head + slots_bytes(metered, row_views(rows@).take(0)));
    while i < n
        invariant
            i <= n,
            n == rows@.len(),
            out@ == head + slots_bytes(metered, row_views(rows@).take(i as int)),
        decreases n - i,
    {
        proof {
            let v = row_views(rows@);
            assert(v.take(i + 1).drop_last() =~= v.take(i as int));
            assert(v.take(i + 1).last() == v[i as int]);
        }
        push_slot(&mut out, metered, rows[i].0, &rows[i].1);
        i = i + 1;
        assert(out@ =~= head + slots_bytes(metered, row_views(rows@).take(i as int)));
    }
    assert(row_views(rows@).take(n as int) =~= row_views(rows@));
    assert(out@ =~= ring_bytes(views(map@)));
    out
}

fn read_slot(metered: bool, b: &[u8], at: usize) -> (r: Result<
    (u32, AuthorityRecord, usize),
    Flaw,
>)
    requires
        at <= b@.len(),
    ensures
        match r {
            Ok(s) => parse_slot(metered, b@, at as int) == Ok::<SlotAt, Flaw>(
                SlotAt { id: s.0, slot: s.1@, end: s.2 as int },
            ) && s.2 <= b@.len(),
            Err(e) => parse_slot(metered, b@, at as int) == Err::<SlotAt, Flaw>(e),
        },
{
    let len: usize = b.len();
    let fixed: usize = if metered {
        METERED_ENTRY_FIXED_BYTES
    } else {
        ENTRY_FIXED_BYTES
    };
    let head: usize = if metered {
        29
    } else {
        13
    };
    if len - at < fixed {
        return Err(Flaw::Truncated);
    }
    proof {
        lemma_be_limits();
    }
    let id: u128 = read_be(b, at, 4);
    let stake: u128 = read_be(b, at + 4, 8);
    let mut deposited: u128 = 0;
    let mut exit_height: u128 = 0;
    if metered {
        deposited = read_be(b, at + 12, 8);
        exit_height = read_be(b, at + 20, 8);
    }
    let status = match status_from_byte(b[at + head - 1]) {
        None => {
            return Err(Flaw::Status);
        },
        Some(s) => s,
    };
    let mldsa = match read_blob(b, at + head, MAX_MLDSA_PK_BYTES) {
        None => {
            return Err(Flaw::MldsaLength);
        },
        Some(v) => v,
    };
    let next: usize = at + head + 4 + mldsa.len();
    if len - next < 4 {
        return Err(Flaw::BlsMissing);
    }
    let bls = match read_blob(b, next, MAX_BLS_PK_BYTES) {
        None => {
            return Err(Flaw::BlsLength);
        },
        Some(v) => v,
    };
    let end: usize = next + 4 + bls.len();
    let rec = AuthorityRecord {
        mldsa_public_key: mldsa,
        bls_public_key: bls,
        stake_gsx: stake as u64,
        deposited_stake: deposited as u64,
        exit_block_height: exit_height as u64,
        status,
    };
    Ok((id as u32, rec, end))
}

proof fn lemma_slots_error(metered: bool, b: Seq<u8>, i: nat, n: nat, e: Flaw)
    requires
        i <= n,
        parse_slots(metered, b, i) == Err::<(Map<u32, SlotView>, int), Flaw>(e),
    ensures
        parse_slots(metered, b, n) == Err::<(Map<u32, SlotView>, int), Flaw>(e),
    decreases n,
{
    if i < n {
        lemma_slots_error(metered, b, i, (n - 1) as nat, e);
    }
}

/// Decodes a ring registry.
pub fn decode(b: &[u8]) -> (r: Result<OrderedMap<u32, AuthorityRecord>, Flaw>)
    ensures
        match r {
            Ok(m) => parse(b@) == Ok::<Map<u32, SlotView>, Flaw>(views(m@)),
            Err(e) => parse(b@) == Err::<Map<u32, SlotView>, Flaw>(e),
        },
{
    let len: usize = b.len();
    let mut map = OrderedMap::<u32, AuthorityRecord>::new();
    assert(views(map@) =~= Map::empty());
    if len == 0 {
        return Ok(map);
    }
    if len < ENCODED_HEADER_BYTES {
        return Err(Flaw::Header);
    }
    proof {
        lemma_be_limits();
    }
    let version: u128 = read_be(b, 0, 4);
    if version != AUTHORITY_REGISTRY_VERSION as u128 && version
        != AUTHORITY_REGISTRY_VERSION_METERED as u128 {
        return Err(Flaw::Version);
    }
    let metered: bool = version == AUTHORITY_REGISTRY_VERSION_METERED as u128;
    let n: u128 = read_be(b, 4, 4);
    let mut at: usize = ENCODED_HEADER_BYTES;
    let mut i: u128 = 0;
    while i < n
        invariant
            i <= n,
            len == b@.len(),
            at <= len,
            parse_slots(metered, b@, i as nat) == Ok::<(Map<u32, SlotView>, int), Flaw>(
                (views(map@), at as int),
            ),
            parse(b@) == (match parse_slots(metered, b@, n as nat) {
                Err(e) => Err::<Map<u32, SlotView>, Flaw>(e),
                Ok((m, at)) => if at != b@.len() {
                    Err(Flaw::Trailing)
                } else {
                    Ok(m)
                },
            }),
        decreases n - i,
    {
        match read_slot(metered, b, at) {
            Err(e) => {
                proof {
                    lemma_slots_error(metered, b@, (i + 1) as nat, n as nat, e);
                }
                return Err(e);
            },
            Ok((id, rec, end)) => {
                let ghost before = map@;
                let ghost slot = rec@;
                if map.contains_key(&id) {
                    proof {
                        assert(views(map@).dom().contains(id));
                        lemma_slots_error(
                            metered,
                            b@,
                            (i + 1) as nat,
                            n as nat,
                            Flaw::Duplicate,
                        );
                    }
                    return Err(Flaw::Duplicate);
                }
                map.insert(id, rec);
                assert(!views(before).dom().contains(id));
                assert(views(map@) =~= views(before).insert(id, slot));
                at = end;
            },
        }
        i = i + 1;
    }
    if at != len {
        return Err(Flaw::Trailing);
    }
    Ok(map)
}

} // verus!
