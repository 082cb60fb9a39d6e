//! Where everything stands in the records and in what is hashed.

use vstd::prelude::*;
use vstd::string::StringSliceAdditionalSpecFns;

use crate::asset_registry::{self, asset_preimage, AssetStatus, AssetView};
use crate::authority_registry::{AuthorityStatus, SlotView};
use crate::blob::blob_bytes;
use crate::bridge::{leaf_hash, leaf_preimage, node_hash};
use crate::burn_nullifier::{burn_id_of, burn_preimage, NullifierTable};
use crate::bytes::{
    array_of, be_bytes, be_value, lemma_be_bytes_len, lemma_be_limits, lemma_be_round_trip,
};
use crate::da_anchor_registry::AnchorTable;
use crate::delegation_registry::DelegationTable;
use crate::eject_registry::{EjectionRecord, EjectionTable};
use crate::equivocation_registry::{EquivocationRecord, OffenseKind, OffenseTable};
use crate::force_include::{
    obligation_preimage, ForceIncludeObligation, ObligationStatus, ObligationTable,
};
use crate::hash::{blake3_digest, digest_of};
use crate::l2_state::{
    self, ChainVks, ChainVksTable, L2BatchKey, L2StateRootRecord, L2View, StateRootTable,
};
use crate::ordered::{
    ascending, first_below, lemma_rows_map_get, lemma_sorted_rows, sorted_rows, OrderedKey,
};
use crate::reserved;
use crate::slots::{ring_bytes, slot_bytes, slots_bytes};
use crate::state_root::{balance_rows, record_rows, root_of};
use crate::substrate::{Address, Balance};
use crate::table::{
    fits, has_room, lemma_rows_bytes_len, parse_table, rows_bytes, stored_count, table_bytes, RowFormat, Table,
};
use crate::unbonding_registry::UnbondingTable;

verus! {

/// Integers are written with the most significant byte first: a further byte
/// counts once, and all bytes before it 256 times as much as before. An integer
/// that fits is written in as many bytes as asked for and read back.
pub proof fn law_integers_are_big_endian(s: Seq<u8>, b: u8, v: nat)
    ensures
        be_value(s.push(b)) == 256 * be_value(s) + b,
        be_value(Seq::<u8>::empty()) == 0,
        forall|w: nat| #[trigger] be_bytes(v, w).len() == w,
        v <= u32::MAX ==> be_value(be_bytes(v, 4)) == v,
        v <= u64::MAX ==> be_value(be_bytes(v, 8)) == v,
        v <= u128::MAX ==> be_value(be_bytes(v, 16)) == v,
{
    assert(s.push(b).drop_last() =~= s);
    assert forall|w: nat| #[trigger] be_bytes(v, w).len() == w by {
        lemma_be_bytes_len(v, w);
    }
    lemma_be_limits();
    if v <= u32::MAX {
        lemma_be_round_trip(v, 4);
    }
    if v <= u64::MAX {
        lemma_be_round_trip(v, 8);
    }
    if v <= u128::MAX {
        lemma_be_round_trip(v, 16);
    }
}

/// Byte strings in a key compare by their first differing byte.
pub proof fn law_arrays_compare_by_their_first_difference<const N: usize>(
    a: [u8; N],
    b: [u8; N],
    i: int,
)
    requires
        0 <= i < N,
        forall|j: int| 0 <= j < i ==> #[trigger] a@[j] == b@[j],
        a@[i] < b@[i],
    ensures
        a.before(b),
        !b.before(a),
{
    assert(first_below(a@, b@, i));
    if b.before(a) {
        <[u8; N]>::lemma_transitive(a, b, a);
        <[u8; N]>::lemma_irreflexive(a);
    }
}

/// Keys of several parts compare by their first part that differs.
pub proof fn law_keys_compare_by_their_first_difference(
    a: (u32, Address, u64),
    b: (u32, Address, u64),
    c: L2BatchKey,
    d: L2BatchKey,
)
    ensures
        a.0 < b.0 ==> a.before(b) && (a.0, a.1).before((b.0, b.1)),
        a.0 == b.0 && a.1.before(b.1) ==> a.before(b) && (a.0, a.1).before((b.0, b.1)),
        a.0 == b.0 && a.1 == b.1 && a.2 < b.2 ==> a.before(b),
        c.l2_chain_id_hash.before(d.l2_chain_id_hash) ==> c.before(d),
        c.l2_chain_id_hash == d.l2_chain_id_hash && c.batch_id < d.batch_id ==> c.before(d),
        a.2 < b.2 ==> a.2.before(b.2),
        a.0 < b.0 ==> a.0.before(b.0),
{
}

proof fn lemma_rows_in_place<T: RowFormat>(rows: Seq<(T::Key, T::Value)>, i: int)
    requires
        forall|j: int| 0 <= j < rows.len() ==> T::stored((#[trigger] rows[j]).0, rows[j].1),
        0 <= i < rows.len(),
    ensures
        rows_bytes::<T>(rows).len() == rows.len() * T::width(),
        0 <= i * T::width() <= (i + 1) * T::width() <= rows.len() * T::width(),
        rows_bytes::<T>(rows).subrange(i * T::width(), (i + 1) * T::width()) == T::row_bytes(
            rows[i].0,
            rows[i].1,
        ),
    decreases rows.len(),
{
    let init = rows.drop_last();
    let n = rows.len() as int;
    let w = T::width() as int;
    let (k, v) = rows.last();
    assert(rows[n - 1] == (k, v));
    T::lemma_row_len(k, v);
    lemma_all_stored_len::<T>(rows);
    assert forall|j: int| 0 <= j < init.len() implies T::stored(
        (#[trigger] init[j]).0,
        init[j].1,
    ) by {
        assert(init[j] == rows[j]);
    }
    lemma_all_stored_len::<T>(init);
    assert(0 <= i * w <= (i + 1) * w <= n * w && (i + 1) * w == i * w + w && n * w == (n - 1) * w
        + w) by (nonlinear_arith)
        requires
            0 <= i < n,
            0 <= w,
    ;
    let whole = rows_bytes::<T>(rows);
    let part = rows_bytes::<T>(init);
    assert(whole == part + T::row_bytes(k, v));
    if i < n - 1 {
        lemma_rows_in_place::<T>(init, i);
        assert(whole.subrange(i * w, (i + 1) * w) =~= part.subrange(i * w, (i + 1) * w));
    } else {
        assert(whole.subrange(i * w, (i + 1) * w) =~= T::row_bytes(k, v));
    }
}

proof fn lemma_all_stored_len<T: RowFormat>(rows: Seq<(T::Key, T::Value)>)
    requires
        forall|j: int| 0 <= j < rows.len() ==> T::stored((#[trigger] rows[j]).0, rows[j].1),
    ensures
        stored_count::<T>(rows) == rows.len(),
        rows_bytes::<T>(rows).len() == rows.len() * T::width(),
    decreases rows.len(),
{
    lemma_rows_bytes_len::<T>(rows);
    if rows.len() > 0 {
        let init = rows.drop_last();
        assert forall|j: int| 0 <= j < init.len() implies T::stored(
            (#[trigger] init[j]).0,
            init[j].1,
        ) by {
            assert(init[j] == rows[j]);
        }
        lemma_all_stored_len::<T>(init);
        assert(rows[rows.len() - 1] == rows.last());
    }
}

/// A table is its version in four bytes, its number of rows in four bytes, and its
/// rows one after the other by ascending key.
pub proof fn law_tables_list_their_rows<T: Table>(m: Map<T::Key, T::Value>, i: int)
    requires
        m.dom().finite(),
        m.dom().len() <= u32::MAX,
        forall|k: T::Key| #[trigger] m.dom().contains(k) ==> T::stored(k, m[k]),
    ensures
        ({
            let b = table_bytes::<T>(m);
            let n = m.dom().len();
            let w = T::width();
            let rows = sorted_rows(m);
            &&& b.len() == 8 + n * w
            &&& be_value(b.subrange(0, 4)) == T::version()
            &&& be_value(b.subrange(4, 8)) == n
            &&& rows.len() == n
            &&& ascending(rows)
            &&& 0 <= i < n ==> {
                &&& m.dom().contains(rows[i].0)
                &&& rows[i].1 == m[rows[i].0]
                &&& b.subrange(8 + i * w, 8 + (i + 1) * w) == T::row_bytes(rows[i].0, rows[i].1)
            }
        }),
{
    let b = table_bytes::<T>(m);
    let rows = sorted_rows(m);
    let n = m.dom().len();
    let w = T::width() as int;
    lemma_sorted_rows(m);
    assert forall|j: int| 0 <= j < rows.len() implies T::stored(
        (#[trigger] rows[j]).0,
        rows[j].1,
    ) by {
        lemma_rows_map_get(rows, j);
    }
    lemma_all_stored_len::<T>(rows);
    lemma_be_limits();
    lemma_be_round_trip(T::version() as nat, 4);
    lemma_be_round_trip(n, 4);
    lemma_be_bytes_len(T::version() as nat, 4);
    lemma_be_bytes_len(n, 4);
    let body = rows_bytes::<T>(rows);
    assert(b.subrange(0, 4) =~= be_bytes(T::version() as nat, 4));
    assert(b.subrange(4, 8) =~= be_bytes(n, 4));
    if 0 <= i < n {
        lemma_rows_map_get(rows, i);
        lemma_rows_in_place::<T>(rows, i);
        assert(b.subrange(8 + i * w, 8 + (i + 1) * w) =~= body.subrange(i * w, (i + 1) * w));
    }
}

/// A record is read as a table only where it is empty, or its version is right and
/// it is exactly as long as its number of rows asks.
pub proof fn law_tables_are_read_whole<T: Table>(b: Seq<u8>)
    ensures
        parse_table::<T>(b) is Ok ==> b.len() == 0 || {
            &&& b.len() >= 8
            &&& be_value(b.subrange(0, 4)) == T::version()
            &&& b.len() == 8 + be_value(b.subrange(4, 8)) * T::width()
        },
        parse_table::<T>(Seq::empty()) == Ok::<Map<T::Key, T::Value>, &'static str>(Map::empty()),
        0 < b.len() < 8 ==> parse_table::<T>(b) == Err::<Map<T::Key, T::Value>, &'static str>(
            T::header_reason(),
        ),
        b.len() >= 8 && be_value(b.subrange(0, 4)) != T::version() ==> parse_table::<T>(b) == Err::<
            Map<T::Key, T::Value>,
            &'static str,
        >(T::version_reason()),
{
}

/// All tables are of version 1, and their rows have 32, 40, 32, 72, 52, 41 and 101
/// bytes: delegations, waiting stake, claimed burns, anchors, ejections, offenses
/// and obligations. Only delegated and waiting stake of nothing is left out.
pub proof fn law_tables_have_fixed_rows(amount: u64)
    ensures
        DelegationTable::version() == 1 && DelegationTable::width() == 32,
        UnbondingTable::version() == 1 && UnbondingTable::width() == 40,
        NullifierTable::version() == 1 && NullifierTable::width() == 32,
        AnchorTable::version() == 1 && AnchorTable::width() == 72,
        EjectionTable::version() == 1 && EjectionTable::width() == 52,
        OffenseTable::version() == 1 && OffenseTable::width() == 41,
        ObligationTable::version() == 1 && ObligationTable::width() == 101,
        forall|k: (u32, Address)| #[trigger] DelegationTable::stored(k, amount) <==> amount != 0,
        forall|k: (u32, Address, u64)| #[trigger]
            UnbondingTable::stored(k, amount) <==> amount != 0,
{
}

/// A delegation is its slot in four bytes, the delegator, and the amount in eight.
/// Waiting stake is its slot, the delegator, the height in eight bytes, and the
/// amount in eight.
pub proof fn law_delegated_stake_is_laid_out(k: (u32, Address, u64), amount: u64)
    ensures
        ({
            let d = DelegationTable::row_bytes((k.0, k.1), amount);
            let u = UnbondingTable::row_bytes(k, amount);
            &&& d.len() == 32
            &&& be_value(d.subrange(0, 4)) == k.0
            &&& d.subrange(4, 24) == k.1@
            &&& be_value(d.subrange(24, 32)) == amount
            &&& u.len() == 40
            &&& be_value(u.subrange(0, 4)) == k.0
            &&& u.subrange(4, 24) == k.1@
            &&& be_value(u.subrange(24, 32)) == k.2
            &&& be_value(u.subrange(32, 40)) == amount
        }),
{
    let d = DelegationTable::row_bytes((k.0, k.1), amount);
    let u = UnbondingTable::row_bytes(k, amount);
    lemma_be_limits();
    lemma_be_bytes_len(k.0 as nat, 4);
    lemma_be_bytes_len(k.2 as nat, 8);
    lemma_be_bytes_len(amount as nat, 8);
    lemma_be_round_trip(k.0 as nat, 4);
    lemma_be_round_trip(k.2 as nat, 8);
    lemma_be_round_trip(amount as nat, 8);
    assert(d.subrange(0, 4) =~= be_bytes(k.0 as nat, 4));
    assert(d.subrange(4, 24) =~= k.1@);
    assert(d.subrange(24, 32) =~= be_bytes(amount as nat, 8));
    assert(u.subrange(0, 4) =~= be_bytes(k.0 as nat, 4));
    assert(u.subrange(4, 24) =~= k.1@);
    assert(u.subrange(24, 32) =~= be_bytes(k.2 as nat, 8));
    assert(u.subrange(32, 40) =~= be_bytes(amount as nat, 8));
}

/// A claimed burn is its id, an ejection the obligation and the ejector, an anchor
/// the chain, the batch in eight bytes and the digest, and an offense the proof,
/// one byte for its kind and the height in eight bytes.
pub proof fn law_claims_and_offenses_are_laid_out(
    id: [u8; 32],
    e: EjectionRecord,
    k: L2BatchKey,
    o: EquivocationRecord,
)
    ensures
        ({
            let claim = NullifierTable::row_bytes(id, ());
            let ejection = EjectionTable::row_bytes(id, e);
            let anchor = AnchorTable::row_bytes(k, id);
            let offense = OffenseTable::row_bytes(id, o);
            &&& claim == id@
            &&& ejection.len() == 52
            &&& ejection.subrange(0, 32) == id@
            &&& ejection.subrange(32, 52) == e.ejector@
            &&& anchor.len() == 72
            &&& anchor.subrange(0, 32) == k.l2_chain_id_hash@
            &&& be_value(anchor.subrange(32, 40)) == k.batch_id
            &&& anchor.subrange(40, 72) == id@
            &&& offense.len() == 41
            &&& offense.subrange(0, 32) == id@
            &&& offense[32] == 0 <==> o.kind == OffenseKind::Equivocation
            &&& offense[32] == 1 <==> o.kind == OffenseKind::InvalidBatch
            &&& be_value(offense.subrange(33, 41)) == o.slashed_at_l1_height
        }),
{
    let ejection = EjectionTable::row_bytes(id, e);
    let anchor = AnchorTable::row_bytes(k, id);
    let offense = OffenseTable::row_bytes(id, o);
    lemma_be_limits();
    lemma_be_bytes_len(k.batch_id as nat, 8);
    lemma_be_round_trip(k.batch_id as nat, 8);
    lemma_be_bytes_len(o.slashed_at_l1_height as nat, 8);
    lemma_be_round_trip(o.slashed_at_l1_height as nat, 8);
    assert(ejection.subrange(0, 32) =~= id@);
    assert(ejection.subrange(32, 52) =~= e.ejector@);
    assert(anchor.subrange(0, 32) =~= k.l2_chain_id_hash@);
    assert(anchor.subrange(32, 40) =~= be_bytes(k.batch_id as nat, 8));
    assert(anchor.subrange(40, 72) =~= id@);
    assert(offense.subrange(0, 32) =~= id@);
    assert(offense.subrange(33, 41) =~= be_bytes(o.slashed_at_l1_height as nat, 8));
}

/// An obligation is its id, the digest of the transaction, the deadline in eight
/// bytes, the submitter, the nonce in eight bytes, and one byte for its status.
pub proof fn law_obligations_are_laid_out(id: [u8; 32], o: ForceIncludeObligation)
    ensures
        ({
            let b = ObligationTable::row_bytes(id, o);
            &&& b.len() == 101
            &&& b.subrange(0, 32) == id@
            &&& b.subrange(32, 64) == o.tx_hash@
            &&& be_value(b.subrange(64, 72)) == o.deadline_l1_height
            &&& b.subrange(72, 92) == o.submitter@
            &&& be_value(b.subrange(92, 100)) == o.l2_nonce
            &&& b[100] == 0 <==> o.status == ObligationStatus::Pending
            &&& b[100] == 1 <==> o.status == ObligationStatus::Honored
            &&& b[100] == 2 <==> o.status == ObligationStatus::Slashed
        }),
{
    let b = ObligationTable::row_bytes(id, o);
    lemma_be_limits();
    lemma_be_bytes_len(o.deadline_l1_height as nat, 8);
    lemma_be_round_trip(o.deadline_l1_height as nat, 8);
    lemma_be_bytes_len(o.l2_nonce as nat, 8);
    lemma_be_round_trip(o.l2_nonce as nat, 8);
    assert(b.subrange(0, 32) =~= id@);
    assert(b.subrange(32, 64) =~= o.tx_hash@);
    assert(b.subrange(64, 72) =~= be_bytes(o.deadline_l1_height as nat, 8));
    assert(b.subrange(72, 92) =~= o.submitter@);
    assert(b.subrange(92, 100) =~= be_bytes(o.l2_nonce as nat, 8));
}

/// A slot is its number in four bytes, the declared stake in eight, where bonds are
/// kept the bond and the exit height in eight each, one byte for its status, and
/// the two keys, each behind its length in four bytes.
pub proof fn law_slots_are_laid_out(metered: bool, id: u32, r: SlotView)
    requires
        r.mldsa.len() <= u32::MAX,
        r.bls.len() <= u32::MAX,
    ensures
        ({
            let b = slot_bytes(metered, id, r);
            let at = if metered {
                28int
            } else {
                12
            };
            let mid = at + 5 + r.mldsa.len();
            &&& b.len() == mid + 4 + r.bls.len()
            &&& be_value(b.subrange(0, 4)) == id
            &&& be_value(b.subrange(4, 12)) == r.stake
            &&& metered ==> be_value(b.subrange(12, 20)) == r.deposited
            &&& metered ==> be_value(b.subrange(20, 28)) == r.exit_height
            &&& b[at] == 0 <==> r.status == AuthorityStatus::Active
            &&& b[at] == 1 <==> r.status == AuthorityStatus::Exiting
            &&& b[at] == 2 <==> r.status == AuthorityStatus::Ejected
            &&& be_value(b.subrange(at + 1, at + 5)) == r.mldsa.len()
            &&& b.subrange(at + 5, mid) == r.mldsa
            &&& be_value(b.subrange(mid, mid + 4)) == r.bls.len()
            &&& b.subrange(mid + 4, mid + 4 + r.bls.len()) == r.bls
        }),
{
    let b = slot_bytes(metered, id, r);
    let at = if metered {
        28int
    } else {
        12
    };
    let mid = at + 5 + r.mldsa.len();
    lemma_be_limits();
    lemma_be_bytes_len(id as nat, 4);
    lemma_be_bytes_len(r.stake as nat, 8);
    lemma_be_bytes_len(r.deposited as nat, 8);
    lemma_be_bytes_len(r.exit_height as nat, 8);
    lemma_be_bytes_len(r.mldsa.len(), 4);
    lemma_be_bytes_len(r.bls.len(), 4);
    lemma_be_round_trip(id as nat, 4);
    lemma_be_round_trip(r.stake as nat, 8);
    lemma_be_round_trip(r.deposited as nat, 8);
    lemma_be_round_trip(r.exit_height as nat, 8);
    lemma_be_round_trip(r.mldsa.len(), 4);
    lemma_be_round_trip(r.bls.len(), 4);
    assert(b.subrange(0, 4) =~= be_bytes(id as nat, 4));
    assert(b.subrange(4, 12) =~= be_bytes(r.stake as nat, 8));
    if metered {
        assert(b.subrange(12, 20) =~= be_bytes(r.deposited as nat, 8));
        assert(b.subrange(20, 28) =~= be_bytes(r.exit_height as nat, 8));
    }
    assert(b.subrange(at + 1, at + 5) =~= be_bytes(r.mldsa.len(), 4));
    assert(b.subrange(at + 5, mid) =~= r.mldsa);
    assert(b.subrange(mid, mid + 4) =~= be_bytes(r.bls.len(), 4));
    assert(b.subrange(mid + 4, mid + 4 + r.bls.len()) =~= r.bls);
}

/// A ring is its version in four bytes, its number of slots in four bytes, and its
/// slots one after the other by ascending number. The version is 2 where some slot
/// has a bond or an exit height, and 1 otherwise; only version 2 keeps them.
pub proof fn law_rings_list_their_slots(
    m: Map<u32, SlotView>,
    metered: bool,
    rows: Seq<(u32, SlotView)>,
    id: u32,
    r: SlotView,
)
    requires
        m.dom().len() <= u32::MAX,
    ensures
        ({
            let b = ring_bytes(m);
            let kept = exists|k: u32| #[trigger]
                m.dom().contains(k) && (m[k].deposited != 0 || m[k].exit_height != 0);
            &&& be_value(b.subrange(0, 4)) == 2 <==> kept
            &&& be_value(b.subrange(0, 4)) == 1 <==> !kept
            &&& be_value(b.subrange(4, 8)) == m.dom().len()
            &&& b.subrange(8, b.len() as int) == slots_bytes(kept, sorted_rows(m))
            &&& slots_bytes(metered, Seq::empty()).len() == 0
            &&& slots_bytes(metered, rows.push((id, r))) == slots_bytes(metered, rows) + slot_bytes(
                metered,
                id,
                r,
            )
        }),
{
    let b = ring_bytes(m);
    lemma_be_limits();
    lemma_be_bytes_len(1, 4);
    lemma_be_bytes_len(2, 4);
    lemma_be_round_trip(1, 4);
    lemma_be_round_trip(2, 4);
    lemma_be_bytes_len(m.dom().len(), 4);
    lemma_be_round_trip(m.dom().len(), 4);
    let kept = exists|k: u32| #[trigger]
        m.dom().contains(k) && (m[k].deposited != 0 || m[k].exit_height != 0);
    if kept {
        let k = choose|k: u32| #[trigger]
            m.dom().contains(k) && (m[k].deposited != 0 || m[k].exit_height != 0);
        assert(crate::slots::slot_metered(m[k]));
        assert(crate::slots::tracks_stake(m));
        assert(b.subrange(0, 4) =~= be_bytes(2, 4));
    } else {
        assert(!crate::slots::tracks_stake(m)) by {
            if crate::slots::tracks_stake(m) {
                let k = choose|k: u32| #[trigger]
                    m.dom().contains(k) && crate::slots::slot_metered(m[k]);
                assert(m[k].deposited != 0 || m[k].exit_height != 0);
            }
        }
        assert(b.subrange(0, 4) =~= be_bytes(1, 4));
    }
    assert(b.subrange(4, 8) =~= be_bytes(m.dom().len(), 4));
    assert(b.subrange(8, b.len() as int) =~= slots_bytes(kept, sorted_rows(m)));
    assert(rows.push((id, r)).drop_last() =~= rows);
}

/// An asset is its id, the source chain in eight bytes, one byte for its decimals,
/// one for its status, and contract, name and symbol, each behind its length in four
/// bytes. The registry is version 1 in four bytes, the number of assets in four
/// bytes, and the assets one after the other by ascending id.
pub proof fn law_assets_are_laid_out(
    m: Map<[u8; 32], AssetView>,
    rows: Seq<([u8; 32], AssetView)>,
    id: [u8; 32],
    a: AssetView,
)
    requires
        m.dom().len() <= u32::MAX,
    ensures
        ({
            let b = asset_registry::asset_bytes(id, a);
            let all = asset_registry::registry_bytes(m);
            &&& b.subrange(0, 32) == id@
            &&& be_value(b.subrange(32, 40)) == a.source_chain
            &&& b[40] == a.decimals
            &&& b[41] == 0 <==> a.status == AssetStatus::Active
            &&& b[41] == 1 <==> a.status == AssetStatus::Paused
            &&& b[41] == 2 <==> a.status == AssetStatus::Removed
            &&& b.subrange(42, b.len() as int) == blob_bytes(a.source_contract) + blob_bytes(a.name)
                + blob_bytes(a.symbol)
            &&& be_value(all.subrange(0, 4)) == 1
            &&& be_value(all.subrange(4, 8)) == m.dom().len()
            &&& all.subrange(8, all.len() as int) == asset_registry::assets_bytes(sorted_rows(m))
            &&& asset_registry::assets_bytes(Seq::empty()).len() == 0
            &&& asset_registry::assets_bytes(rows.push((id, a))) == asset_registry::assets_bytes(
                rows,
            ) + b
        }),
{
    let b = asset_registry::asset_bytes(id, a);
    let all = asset_registry::registry_bytes(m);
    lemma_be_limits();
    lemma_be_bytes_len(a.source_chain as nat, 8);
    lemma_be_round_trip(a.source_chain as nat, 8);
    lemma_be_bytes_len(1, 4);
    lemma_be_round_trip(1, 4);
    lemma_be_bytes_len(m.dom().len(), 4);
    lemma_be_round_trip(m.dom().len(), 4);
    assert(b.subrange(0, 32) =~= id@);
    assert(b.subrange(32, 40) =~= be_bytes(a.source_chain as nat, 8));
    assert(b.subrange(42, b.len() as int) =~= blob_bytes(a.source_contract) + blob_bytes(a.name)
        + blob_bytes(a.symbol));
    assert(all.subrange(0, 4) =~= be_bytes(1, 4));
    assert(all.subrange(4, 8) =~= be_bytes(m.dom().len(), 4));
    assert(all.subrange(8, all.len() as int) =~= asset_registry::assets_bytes(sorted_rows(m)));
    assert(rows.push((id, a)).drop_last() =~= rows);
}

/// A byte string is its length in four bytes and then its bytes.
pub proof fn law_byte_strings_follow_their_length(data: Seq<u8>)
    requires
        data.len() <= u32::MAX,
    ensures
        blob_bytes(data).len() == 4 + data.len(),
        be_value(blob_bytes(data).subrange(0, 4)) == data.len(),
        blob_bytes(data).subrange(4, 4int + data.len()) == data,
{
    lemma_be_limits();
    lemma_be_bytes_len(data.len(), 4);
    lemma_be_round_trip(data.len(), 4);
    assert(blob_bytes(data).subrange(0, 4) =~= be_bytes(data.len(), 4));
    assert(blob_bytes(data).subrange(4, 4int + data.len()) =~= data);
}

/// A pinned pair of keys is the chain, the aggregation key and the range commitment.
/// A committed batch is the chain, its number in eight bytes, the state root, the
/// L1 height in eight bytes, the key and the data commitment.
pub proof fn law_batches_are_laid_out(
    chain: [u8; 32],
    keys: ChainVks,
    k: L2BatchKey,
    r: L2StateRootRecord,
)
    ensures
        ({
            let p = ChainVksTable::row_bytes(chain, keys);
            let b = StateRootTable::row_bytes(k, r);
            &&& p.len() == 96 && ChainVksTable::width() == 96
            &&& p.subrange(0, 32) == chain@
            &&& p.subrange(32, 64) == keys.aggregation_vk_hash@
            &&& p.subrange(64, 96) == keys.range_vk_commitment@
            &&& b.len() == 144 && StateRootTable::width() == 144
            &&& b.subrange(0, 32) == k.l2_chain_id_hash@
            &&& be_value(b.subrange(32, 40)) == k.batch_id
            &&& b.subrange(40, 72) == r.state_root@
            &&& be_value(b.subrange(72, 80)) == r.committed_at_l1_height
            &&& b.subrange(80, 112) == r.vk_hash@
            &&& b.subrange(112, 144) == r.da_commitment@
        }),
{
    let p = ChainVksTable::row_bytes(chain, keys);
    let b = StateRootTable::row_bytes(k, r);
    lemma_be_limits();
    lemma_be_bytes_len(k.batch_id as nat, 8);
    lemma_be_round_trip(k.batch_id as nat, 8);
    lemma_be_bytes_len(r.committed_at_l1_height as nat, 8);
    lemma_be_round_trip(r.committed_at_l1_height as nat, 8);
    assert(p.subrange(0, 32) =~= chain@);
    assert(p.subrange(32, 64) =~= keys.aggregation_vk_hash@);
    assert(p.subrange(64, 96) =~= keys.range_vk_commitment@);
    assert(b.subrange(0, 32) =~= k.l2_chain_id_hash@);
    assert(b.subrange(32, 40) =~= be_bytes(k.batch_id as nat, 8));
    assert(b.subrange(40, 72) =~= r.state_root@);
    assert(b.subrange(72, 80) =~= be_bytes(r.committed_at_l1_height as nat, 8));
    assert(b.subrange(80, 112) =~= r.vk_hash@);
    assert(b.subrange(112, 144) =~= r.da_commitment@);
}

/// The L2 registry is version 2 in four bytes, the number of chains in four, the
/// pinned keys one after the other by ascending chain, the number of batches in four
/// bytes, and the batches one after the other by ascending chain and number.
pub proof fn law_l2_registries_list_chains_and_batches(v: L2View)
    requires
        v.chain_vks.dom().finite(),
        v.state_roots.dom().finite(),
        v.chain_vks.dom().len() <= u32::MAX,
        v.state_roots.dom().len() <= u32::MAX,
    ensures
        ({
            let b = l2_state::registry_bytes(v);
            let mid: int = 8int + 96 * v.chain_vks.dom().len();
            &&& b.len() == mid + 4 + 144 * v.state_roots.dom().len()
            &&& be_value(b.subrange(0, 4)) == 2
            &&& be_value(b.subrange(4, 8)) == v.chain_vks.dom().len()
            &&& b.subrange(8, mid) == rows_bytes::<ChainVksTable>(sorted_rows(v.chain_vks))
            &&& be_value(b.subrange(mid, mid + 4)) == v.state_roots.dom().len()
            &&& b.subrange(mid + 4, b.len() as int) == rows_bytes::<StateRootTable>(
                sorted_rows(v.state_roots),
            )
        }),
{
    let b = l2_state::registry_bytes(v);
    let n = v.chain_vks.dom().len();
    let k = v.state_roots.dom().len();
    let mid: int = 8int + 96 * n;
    lemma_be_limits();
    lemma_be_bytes_len(2, 4);
    lemma_be_round_trip(2, 4);
    lemma_be_bytes_len(n, 4);
    lemma_be_round_trip(n, 4);
    lemma_be_bytes_len(k, 4);
    lemma_be_round_trip(k, 4);
    lemma_sorted_rows(v.chain_vks);
    lemma_sorted_rows(v.state_roots);
    lemma_all_stored_len::<ChainVksTable>(sorted_rows(v.chain_vks));
    lemma_all_stored_len::<StateRootTable>(sorted_rows(v.state_roots));
    assert(b.subrange(0, 4) =~= be_bytes(2, 4));
    assert(b.subrange(4, 8) =~= be_bytes(n, 4));
    assert(b.subrange(8, mid) =~= rows_bytes::<ChainVksTable>(sorted_rows(v.chain_vks)));
    assert(b.subrange(mid, mid + 4) =~= be_bytes(k, 4));
    assert(b.subrange(mid + 4, b.len() as int) =~= rows_bytes::<StateRootTable>(
        sorted_rows(v.state_roots),
    ));
}

/// A burn id hashes its tag, the chain, the batch in eight bytes, the recipient, the
/// amount in sixteen, the path behind its length in four bytes, and the asset: one
/// byte 1 and its id, or one byte 0 for the native one. A burn leaf hashes its own
/// tag and the same without the path.
pub proof fn law_burns_are_hashed_in_order(
    chain: [u8; 32],
    batch_id: u64,
    recipient: Address,
    amount: Balance,
    path: Seq<u8>,
    asset: Option<[u8; 32]>,
)
    ensures
        ({
            let what = chain@ + be_bytes(batch_id as nat, 8) + recipient@ + be_bytes(
                amount as nat,
                16,
            );
            let end = match asset {
                Some(id) => seq![1u8] + id@,
                None => seq![0u8],
            };
            let id = "gsx-burn-v1".spec_bytes() + what + be_bytes(path.len(), 4) + path + end;
            let leaf = "gsx-burn-leaf-v1".spec_bytes() + what + end;
            &&& burn_id_of(chain, batch_id, recipient, amount, path, asset) == array_of::<32>(
                blake3_digest(id),
            )
            &&& leaf_hash(chain, batch_id, recipient, amount, asset) == array_of::<32>(
                blake3_digest(leaf),
            )
        }),
{
    let what = chain@ + be_bytes(batch_id as nat, 8) + recipient@ + be_bytes(amount as nat, 16);
    let end = match asset {
        Some(id) => seq![1u8] + id@,
        None => seq![0u8],
    };
    let id = "gsx-burn-v1".spec_bytes() + what + be_bytes(path.len(), 4) + path + end;
    let leaf = "gsx-burn-leaf-v1".spec_bytes() + what + end;
    assert(burn_preimage(chain, batch_id, recipient, amount, path, asset) =~= id);
    assert(leaf_preimage(chain, batch_id, recipient, amount, asset) =~= leaf);
}

/// An inner node hashes its tag, the left and then the right child. An obligation id
/// hashes its tag, the transaction behind its length in four bytes, the deadline in
/// eight, the submitter and the nonce in eight. An asset id hashes its tag, the
/// source chain in eight bytes, and the contract behind its length in four.
pub proof fn law_identifiers_are_hashed_in_order(
    left: [u8; 32],
    right: [u8; 32],
    tx: Seq<u8>,
    deadline: u64,
    submitter: Address,
    nonce: u64,
    source_chain: u64,
)
    ensures
        node_hash(left, right) == array_of::<32>(
            blake3_digest("gsx-burn-node-v1".spec_bytes() + left@ + right@),
        ),
        digest_of(obligation_preimage(tx, deadline, submitter, nonce)) == array_of::<32>(
            blake3_digest(
                "gsx-force-include-v1".spec_bytes() + be_bytes(tx.len(), 4) + tx + be_bytes(
                    deadline as nat,
                    8,
                ) + submitter@ + be_bytes(nonce as nat, 8),
            ),
        ),
        digest_of(asset_preimage(source_chain, tx)) == array_of::<32>(
            blake3_digest(
                "gsx-bridge-asset-v1".spec_bytes() + be_bytes(source_chain as nat, 8) + be_bytes(
                    tx.len(),
                    4,
                ) + tx,
            ),
        ),
{
    assert(asset_preimage(source_chain, tx) =~= "gsx-bridge-asset-v1".spec_bytes() + be_bytes(
        source_chain as nat,
        8,
    ) + be_bytes(tx.len(), 4) + tx);
}

/// The state root hashes its tag over two digests: one over the balances, each as its
/// address and its amount in sixteen bytes, and one over the records, each as its
/// address and its bytes behind their length in four, both by ascending address.
pub proof fn law_roots_hash_balances_and_records(
    b: Map<Address, Balance>,
    r: Map<Address, Seq<u8>>,
    balances: Seq<(Address, Balance)>,
    records: Seq<(Address, Seq<u8>)>,
    a: Address,
    amount: Balance,
    bytes: Seq<u8>,
)
    ensures
        root_of(b, r) == digest_of(
            "GSX-STATE-ROOT-V2".spec_bytes() + digest_of(
                "GSX-BALANCES-V1".spec_bytes() + balance_rows(sorted_rows(b)),
            )@ + digest_of(
                "GSX-BYTES-STATE-V1".spec_bytes() + record_rows(sorted_rows(r)),
            )@,
        ),
        balance_rows(Seq::empty()).len() == 0,
        balance_rows(balances.push((a, amount))) == balance_rows(balances) + a@ + be_bytes(
            amount as nat,
            16,
        ),
        record_rows(Seq::empty()).len() == 0,
        record_rows(records.push((a, bytes))) == record_rows(records) + a@ + be_bytes(
            bytes.len(),
            4,
        ) + bytes,
{
    assert(balances.push((a, amount)).drop_last() =~= balances);
    assert(records.push((a, bytes)).drop_last() =~= records);
    assert(record_rows(records.push((a, bytes))) =~= record_rows(records) + a@ + be_bytes(
        bytes.len(),
        4,
    ) + bytes);
}

/// Whether `a` is the leading 20 bytes of the digest of `tag`.
pub open spec fn tagged(tag: &str, a: Address) -> bool {
    a == array_of::<20>(blake3_digest(tag.spec_bytes()).subrange(0, 20))
}

/// Every protocol account is the leading 20 bytes of the digest of its own tag.
pub proof fn law_protocol_accounts_are_tagged()
    ensures
        tagged("gsx-l2-registry-v1", reserved::l2_registry_address()),
        tagged("gsx-insurance-pool-v1", reserved::insurance_pool_address()),
        tagged("gsx-treasury-v1", reserved::treasury_address()),
        tagged("gsx-bridge-escrow-v1", reserved::bridge_escrow_address()),
        tagged("gsx-force-include-registry-v1", reserved::force_include_registry_address()),
        tagged("gsx-sequencer-bond-v1", reserved::sequencer_bond_address()),
        tagged("gsx-safety-bond-v1", reserved::safety_bond_address()),
        tagged("gsx-asset-registry-v1", reserved::asset_registry_address()),
        tagged("gsx-ejection-registry-v1", reserved::ejection_registry_address()),
        tagged("gsx-burn-nullifier-registry-v1", reserved::burn_nullifier_registry_address()),
        tagged("gsx-equivocation-registry-v1", reserved::equivocation_registry_address()),
        tagged("gsx-authority-registry-v1", reserved::authority_registry_address()),
        tagged("gsx-validator-registry-v1", reserved::validator_registry_address()),
        tagged("gsx-authority-stake-pool-v1", reserved::authority_stake_pool_address()),
        tagged("gsx-validator-stake-pool-v1", reserved::validator_stake_pool_address()),
        tagged("gsx-authority-rewards-pool-v1", reserved::authority_rewards_pool_address()),
        tagged("gsx-validator-rewards-pool-v1", reserved::validator_rewards_pool_address()),
        tagged("gsx-inflation-registry-v1", reserved::inflation_registry_address()),
        tagged(
            "gsx-rewards-distribution-registry-v1",
            reserved::rewards_distribution_registry_address(),
        ),
        tagged(
            "gsx-validator-delegation-registry-v1",
            reserved::validator_delegation_registry_address(),
        ),
        tagged("gsx-da-anchor-registry-v1", reserved::da_anchor_registry_address()),
        tagged(
            "gsx-validator-unbonding-registry-v1",
            reserved::validator_unbonding_registry_address(),
        ),
{
}

/// An account is closed to user transfers exactly where it is one of the protocol
/// accounts.
pub proof fn law_only_protocol_accounts_are_reserved(a: Address)
    ensures
        reserved::is_reserved(&a) <==> {
            ||| a == reserved::l2_registry_address()
            ||| a == reserved::insurance_pool_address()
            ||| a == reserved::treasury_address()
            ||| a == reserved::bridge_escrow_address()
            ||| a == reserved::force_include_registry_address()
            ||| a == reserved::sequencer_bond_address()
            ||| a == reserved::safety_bond_address()
            ||| a == reserved::asset_registry_address()
            ||| a == reserved::ejection_registry_address()
            ||| a == reserved::burn_nullifier_registry_address()
            ||| a == reserved::equivocation_registry_address()
            ||| a == reserved::authority_registry_address()
            ||| a == reserved::validator_registry_address()
            ||| a == reserved::authority_stake_pool_address()
            ||| a == reserved::validator_stake_pool_address()
            ||| a == reserved::authority_rewards_pool_address()
            ||| a == reserved::validator_rewards_pool_address()
            ||| a == reserved::inflation_registry_address()
            ||| a == reserved::rewards_distribution_registry_address()
            ||| a == reserved::validator_delegation_registry_address()
            ||| a == reserved::da_anchor_registry_address()
            ||| a == reserved::validator_unbonding_registry_address()
        },
{
    reveal(reserved::protocol_owned);
}

/// The protocol accounts are told apart exactly where no two of the 22 have the same
/// address.
pub proof fn law_accounts_are_apart_where_all_differ()
    ensures
        reserved::apart() <==> forall|i: int, j: int|
            0 <= i < j < 22 ==> #[trigger] reserved::all_owned()[i]
                != #[trigger] reserved::all_owned()[j],
        reserved::all_owned().len() == 22,
        forall|i: int|
            0 <= i < 22 ==> reserved::is_reserved(&#[trigger] reserved::all_owned()[i]),
{
    reveal(reserved::apart);
    reveal(reserved::protocol_owned);
    let all = reserved::all_owned();
    if reserved::apart() {
        assert forall|i: int, j: int| 0 <= i < j < 22 implies #[trigger] all[i]
            != #[trigger] all[j] by {}
    } else {
        let (i, j) = choose|i: int, j: int|
            0 <= i < all.len() && 0 <= j < all.len() && i != j && all[i] == all[j];
        if i < j {
            assert(all[i] == all[j]);
        } else {
            assert(all[j] == all[i]);
        }
    }
}

/// A table has room for another row exactly where its rows can then be counted in 32
/// bits and addressed.
pub proof fn law_tables_have_room_while_they_can_be_addressed<T: Table>(
    m: Map<T::Key, T::Value>,
)
    ensures
        has_room::<T>(m) <==> m.dom().len() < u32::MAX && 8 + (m.dom().len() + 1) * T::width()
            <= usize::MAX,
        fits::<T>(m) <==> m.dom().finite() && m.dom().len() <= u32::MAX && 8 + m.dom().len()
            * T::width() <= usize::MAX,
{
}

} // verus!
