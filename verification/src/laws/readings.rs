//! Which records can be read, and what is read from them.

use vstd::prelude::*;

use crate::asset_registry::{self, parse_asset, parse_assets, AssetStatus, AssetView};
use crate::assets::listed;
use crate::authority_registry::{AuthorityStatus, SlotView};
use crate::blob::blob_at;
use crate::burn_nullifier::NullifierTable;
use crate::bytes::{
    array_of, be_value, field, lemma_be_limits, lemma_be_value_bound, zero_hash,
};
use crate::da_anchor_registry::AnchorTable;
use crate::delegating::{delegations, unbondings};
use crate::delegation_registry::DelegationTable;
use crate::eject_registry::EjectionTable;
use crate::equivocation_registry::{kind_of, OffenseKind, OffenseTable};
use crate::error::ExecutionError;
use crate::force_include::{self, ObligationStatus, ObligationTable};
use crate::intent::RewardsRing;
use crate::l2_state::{parse_registry, ChainVksTable, L2View, StateRootTable};
use crate::ledger::Ledger;
use crate::reserved;
use crate::rollup::{anchors, claimed, l2_contents};
use crate::sequencing::{ejections, obligations, offenses};
use crate::slots::{self, parse_slot, parse_slots, Flaw};
use crate::staking::ring_slots;
use crate::table::{parse_rows, parse_table, RowFormat, Table};
use crate::unbonding_registry::UnbondingTable;

verus! {

/// The bytes of row `i` of a table.
pub open spec fn row_of<T: RowFormat>(b: Seq<u8>, start: int, i: int) -> Seq<u8> {
    b.subrange(start + i * T::width(), start + i * T::width() + T::width())
}

proof fn lemma_rows_read<T: RowFormat>(b: Seq<u8>, start: int, n: nat)
    ensures
        parse_rows::<T>(b, start, n) matches Ok(m) ==> {
            &&& m.dom().finite()
            &&& forall|i: int|
                0 <= i < n ==> (T::parse_row(#[trigger] row_of::<T>(b, start, i)) matches Ok(r)
                    && m.dom().contains(r.0) && (T::duplicate_reason() is Some ==> m[r.0] == r.1))
            &&& forall|k: T::Key| #[trigger]
                m.dom().contains(k) ==> exists|i: int|
                    0 <= i < n && (T::parse_row(#[trigger] row_of::<T>(b, start, i)) matches Ok(r)
                        && r.0 == k && r.1 == m[k])
            &&& T::duplicate_reason() is Some ==> m.dom().len() == n
        },
    decreases n,
{
    if n > 0 && parse_rows::<T>(b, start, n) is Ok {
        let last = n - 1;
        lemma_rows_read::<T>(b, start, last as nat);
        let before = parse_rows::<T>(b, start, last as nat)->Ok_0;
        let m = parse_rows::<T>(b, start, n)->Ok_0;
        let row = row_of::<T>(b, start, last);
        let (k, v) = T::parse_row(row)->Ok_0;
        assert(row == field(b, start + last * T::width(), T::width() as int));
        assert(m == before.insert(k, v));
        assert forall|i: int| 0 <= i < n implies (T::parse_row(
            #[trigger] row_of::<T>(b, start, i),
        ) matches Ok(r) && m.dom().contains(r.0) && (T::duplicate_reason() is Some ==> m[r.0]
            == r.1)) by {
            if i < last {
                let r = T::parse_row(row_of::<T>(b, start, i))->Ok_0;
                assert(before.dom().contains(r.0));
            }
        }
        assert forall|j: T::Key| #[trigger] m.dom().contains(j) implies exists|i: int|
            0 <= i < n && (T::parse_row(#[trigger] row_of::<T>(b, start, i)) matches Ok(r) && r.0
                == j && r.1 == m[j]) by {
            if j == k {
                assert(T::parse_row(row_of::<T>(b, start, last)) matches Ok(r) && r.0 == j && r.1
                    == m[j]);
            } else {
                assert(before.dom().contains(j));
                let i = choose|i: int|
                    0 <= i < last && (T::parse_row(
                        #[trigger] row_of::<T>(b, start, i),
                    ) matches Ok(r) && r.0 == j && r.1 == before[j]);
                assert(T::parse_row(row_of::<T>(b, start, i)) matches Ok(r) && r.0 == j && r.1
                    == m[j]);
            }
        }
    }
}

/// A table that can be read holds exactly what its rows say. Where a repeated key is
/// an error, no two rows have the same.
pub proof fn law_tables_hold_what_their_rows_say<T: Table>(b: Seq<u8>, i: int, k: T::Key)
    requires
        parse_table::<T>(b) is Ok,
        b.len() > 0,
    ensures
        ({
            let m = parse_table::<T>(b)->Ok_0;
            let n = be_value(b.subrange(4, 8));
            &&& 0 <= i < n ==> (T::parse_row(row_of::<T>(b, 8, i)) matches Ok(r) && m.dom().contains(
                r.0,
            ) && (T::duplicate_reason() is Some ==> m[r.0] == r.1))
            &&& m.dom().contains(k) ==> exists|j: int|
                0 <= j < n && (T::parse_row(#[trigger] row_of::<T>(b, 8, j)) matches Ok(r) && r.0
                    == k && r.1 == m[k])
            &&& T::duplicate_reason() is Some ==> m.dom().len() == n
        }),
{
    let n = be_value(field(b, 4, 4));
    lemma_rows_read::<T>(b, 8, n);
    if 0 <= i < n {
        let row = row_of::<T>(b, 8, i);
        assert(T::parse_row(row) is Ok);
    }
}

/// A repeated key is an error among delegations, waiting stake, anchors, offenses,
/// obligations, pinned keys and batches; a repeated claim or ejection is not.
pub proof fn law_most_tables_refuse_repeats()
    ensures
        DelegationTable::duplicate_reason() is Some,
        UnbondingTable::duplicate_reason() is Some,
        AnchorTable::duplicate_reason() is Some,
        OffenseTable::duplicate_reason() is Some,
        ObligationTable::duplicate_reason() is Some,
        ChainVksTable::duplicate_reason() is Some,
        StateRootTable::duplicate_reason() is Some,
        NullifierTable::duplicate_reason() is None,
        EjectionTable::duplicate_reason() is None,
{
}

/// Stake of nothing is not read, nor is an offense or an obligation with an unknown
/// byte for its kind or status. Any other row is.
pub proof fn law_odd_rows_are_refused(b: Seq<u8>)
    ensures
        b.len() == 32 ==> (DelegationTable::parse_row(b) is Ok <==> be_value(b.subrange(24, 32))
            != 0),
        b.len() == 40 ==> (UnbondingTable::parse_row(b) is Ok <==> be_value(b.subrange(32, 40))
            != 0),
        b.len() == 41 ==> (OffenseTable::parse_row(b) is Ok <==> b[32] <= 1),
        b.len() == 101 ==> (ObligationTable::parse_row(b) is Ok <==> b[100] <= 2),
        AnchorTable::parse_row(b) is Ok,
        EjectionTable::parse_row(b) is Ok,
        NullifierTable::parse_row(b) is Ok,
{
}

/// Rows that are read say what their bytes do, place by place.
pub proof fn law_rows_are_read_in_place(b: Seq<u8>)
    ensures
        b.len() == 32 ==> (DelegationTable::parse_row(b) matches Ok(r) ==> r.0.0 == be_value(
            b.subrange(0, 4),
        ) && r.0.1 == array_of::<20>(b.subrange(4, 24)) && r.1 == be_value(b.subrange(24, 32))),
        b.len() == 40 ==> (UnbondingTable::parse_row(b) matches Ok(r) ==> r.0.0 == be_value(
            b.subrange(0, 4),
        ) && r.0.1 == array_of::<20>(b.subrange(4, 24)) && r.0.2 == be_value(b.subrange(24, 32))
            && r.1 == be_value(b.subrange(32, 40))),
        b.len() == 52 ==> (EjectionTable::parse_row(b) matches Ok(r) ==> r.0 == array_of::<32>(
            b.subrange(0, 32),
        ) && r.1.ejector == array_of::<20>(b.subrange(32, 52))),
        b.len() == 72 ==> (AnchorTable::parse_row(b) matches Ok(r) ==> r.0.l2_chain_id_hash
            == array_of::<32>(b.subrange(0, 32)) && r.0.batch_id == be_value(b.subrange(32, 40))
            && r.1 == array_of::<32>(b.subrange(40, 72))),
        b.len() == 41 ==> (OffenseTable::parse_row(b) matches Ok(r) ==> r.0 == array_of::<32>(
            b.subrange(0, 32),
        ) && r.1.slashed_at_l1_height == be_value(b.subrange(33, 41)) && (r.1.kind
            == OffenseKind::Equivocation <==> b[32] == 0)),
        b.len() == 101 ==> (ObligationTable::parse_row(b) matches Ok(r) ==> {
            &&& r.0 == array_of::<32>(b.subrange(0, 32))
            &&& r.1.tx_hash == array_of::<32>(b.subrange(32, 64))
            &&& r.1.deadline_l1_height == be_value(b.subrange(64, 72))
            &&& r.1.submitter == array_of::<20>(b.subrange(72, 92))
            &&& r.1.l2_nonce == be_value(b.subrange(92, 100))
            &&& r.1.status == ObligationStatus::Pending <==> b[100] == 0
            &&& r.1.status == ObligationStatus::Honored <==> b[100] == 1
        }),
{
    lemma_be_limits();
    if b.len() == 32 {
        lemma_be_value_bound(field(b, 0, 4));
        lemma_be_value_bound(field(b, 24, 8));
    }
    if b.len() == 40 {
        lemma_be_value_bound(field(b, 0, 4));
        lemma_be_value_bound(field(b, 24, 8));
        lemma_be_value_bound(field(b, 32, 8));
    }
    if b.len() == 72 {
        lemma_be_value_bound(field(b, 32, 8));
    }
    if b.len() == 41 {
        lemma_be_value_bound(field(b, 33, 8));
    }
    if b.len() == 101 {
        lemma_be_value_bound(field(b, 64, 8));
        lemma_be_value_bound(field(b, 92, 8));
    }
}

/// The bytes 0, 1 and 2 stand for the three statuses of a slot, of an asset and of an
/// obligation in their order, and 0 and 1 for the two offenses; no other byte stands
/// for any.
pub proof fn law_status_bytes_count_up(b: u8)
    ensures
        slots::status_of(b) == (if b == 0 {
            Some(AuthorityStatus::Active)
        } else if b == 1 {
            Some(AuthorityStatus::Exiting)
        } else if b == 2 {
            Some(AuthorityStatus::Ejected)
        } else {
            None
        }),
        asset_registry::status_of(b) == (if b == 0 {
            Some(AssetStatus::Active)
        } else if b == 1 {
            Some(AssetStatus::Paused)
        } else if b == 2 {
            Some(AssetStatus::Removed)
        } else {
            None
        }),
        force_include::status_of(b) == (if b == 0 {
            Some(ObligationStatus::Pending)
        } else if b == 1 {
            Some(ObligationStatus::Honored)
        } else if b == 2 {
            Some(ObligationStatus::Slashed)
        } else {
            None
        }),
        kind_of(b) == (if b == 0 {
            Some(OffenseKind::Equivocation)
        } else if b == 1 {
            Some(OffenseKind::InvalidBatch)
        } else {
            None
        }),
{
}

proof fn lemma_longer(b: Seq<u8>, more: Seq<u8>, at: int, n: int)
    requires
        0 <= at,
        0 <= n,
        at + n <= b.len(),
    ensures
        field(b + more, at, n) == field(b, at, n),
{
    assert(field(b + more, at, n) =~= field(b, at, n));
}

proof fn lemma_longer_blob(b: Seq<u8>, more: Seq<u8>, at: int, cap: nat)
    requires
        0 <= at,
        at + 4 <= b.len(),
        blob_at(b, at, cap) is Some,
    ensures
        blob_at(b + more, at, cap) == blob_at(b, at, cap),
        at + 4 + blob_at(b, at, cap)->Some_0.len() <= b.len(),
{
    let n = be_value(field(b, at, 4));
    lemma_longer(b, more, at, 4);
    lemma_longer(b, more, at + 4, n as int);
}

proof fn lemma_longer_slot(metered: bool, b: Seq<u8>, more: Seq<u8>, at: int)
    requires
        0 <= at,
        parse_slot(metered, b, at) is Ok,
    ensures
        parse_slot(metered, b + more, at) == parse_slot(metered, b, at),
        at < parse_slot(metered, b, at)->Ok_0.end <= b.len(),
{
    let head = slots::head_bytes(metered);
    let first = crate::authority_registry::MAX_MLDSA_PK_BYTES as nat;
    let second = crate::authority_registry::MAX_BLS_PK_BYTES as nat;
    lemma_longer_blob(b, more, at + head, first);
    let next = at + head + 4 + blob_at(b, at + head, first)->Some_0.len();
    lemma_longer_blob(b, more, next, second);
    assert((b + more)[at + head - 1] == b[at + head - 1]);
    lemma_longer(b, more, at, 4);
    lemma_longer(b, more, at + 4, 8);
    if metered {
        lemma_longer(b, more, at + 12, 8);
        lemma_longer(b, more, at + 20, 8);
    }
}

proof fn lemma_longer_slots(metered: bool, b: Seq<u8>, more: Seq<u8>, n: nat)
    requires
        b.len() >= 8,
        parse_slots(metered, b, n) is Ok,
    ensures
        parse_slots(metered, b + more, n) == parse_slots(metered, b, n),
        8 <= parse_slots(metered, b, n)->Ok_0.1 <= b.len(),
        parse_slots(metered, b, n)->Ok_0.0.dom().finite(),
        parse_slots(metered, b, n)->Ok_0.0.dom().len() == n,
    decreases n,
{
    if n > 0 {
        lemma_longer_slots(metered, b, more, (n - 1) as nat);
        let (m, at) = parse_slots(metered, b, (n - 1) as nat)->Ok_0;
        lemma_longer_slot(metered, b, more, at);
    }
}

/// A ring record is read only where it is empty, or of version 1 or 2 with as many
/// different slots as it says, and nothing behind them: a record that can be read
/// cannot be read any more once something is added to it.
pub proof fn law_rings_are_read_whole(b: Seq<u8>, more: Seq<u8>)
    ensures
        slots::parse(Seq::empty()) == Ok::<Map<u32, SlotView>, Flaw>(Map::empty()),
        slots::parse(b) matches Ok(m) ==> b.len() == 0 || {
            &&& b.len() >= 8
            &&& be_value(b.subrange(0, 4)) == 1 || be_value(b.subrange(0, 4)) == 2
            &&& m.dom().len() == be_value(b.subrange(4, 8))
        },
        slots::parse(b) is Ok && b.len() > 0 && more.len() > 0 ==> slots::parse(b + more) == Err::<
            Map<u32, SlotView>,
            Flaw,
        >(Flaw::Trailing),
        0 < b.len() < 8 ==> slots::parse(b) == Err::<Map<u32, SlotView>, Flaw>(Flaw::Header),
        b.len() >= 8 && be_value(b.subrange(0, 4)) != 1 && be_value(b.subrange(0, 4)) != 2
            ==> slots::parse(b) == Err::<Map<u32, SlotView>, Flaw>(Flaw::Version),
{
    if slots::parse(b) is Ok && b.len() > 0 {
        let version = be_value(field(b, 0, 4));
        let n = be_value(field(b, 4, 4));
        lemma_longer(b, more, 0, 4);
        lemma_longer(b, more, 4, 4);
        lemma_longer_slots(version == 2, b, more, n);
    }
}

/// A slot is read as its bytes say, place by place; without bonds and exit heights in
/// the record they are zero. It is refused where it is cut short, where its status
/// byte is unknown, and where a key is longer than 2,048 or 128 bytes.
pub proof fn law_slots_are_read_in_place(metered: bool, b: Seq<u8>, at: int)
    requires
        0 <= at,
    ensures
        parse_slot(metered, b, at) matches Ok(s) ==> {
            let head = if metered {
                at + 28
            } else {
                at + 12
            };
            let mid = head + 5 + s.slot.mldsa.len();
            &&& s.end == mid + 4 + s.slot.bls.len()
            &&& s.end <= b.len()
            &&& s.id == be_value(b.subrange(at, at + 4))
            &&& s.slot.stake == be_value(b.subrange(at + 4, at + 12))
            &&& metered ==> s.slot.deposited == be_value(b.subrange(at + 12, at + 20))
            &&& metered ==> s.slot.exit_height == be_value(b.subrange(at + 20, at + 28))
            &&& !metered ==> s.slot.deposited == 0 && s.slot.exit_height == 0
            &&& b[head] == 0 <==> s.slot.status == AuthorityStatus::Active
            &&& b[head] == 1 <==> s.slot.status == AuthorityStatus::Exiting
            &&& b[head] == 2 <==> s.slot.status == AuthorityStatus::Ejected
            &&& s.slot.mldsa.len() == be_value(b.subrange(head + 1, head + 5)) <= 2_048
            &&& s.slot.mldsa == b.subrange(head + 5, mid)
            &&& s.slot.bls.len() == be_value(b.subrange(mid, mid + 4)) <= 128
            &&& s.slot.bls == b.subrange(mid + 4, mid + 4 + s.slot.bls.len())
        },
{
    if parse_slot(metered, b, at) is Ok {
        lemma_longer_slot(metered, b, Seq::empty(), at);
        lemma_be_limits();
        lemma_be_value_bound(field(b, at, 4));
        lemma_be_value_bound(field(b, at + 4, 8));
        if metered {
            lemma_be_value_bound(field(b, at + 12, 8));
            lemma_be_value_bound(field(b, at + 20, 8));
        }
    }
}

proof fn lemma_longer_asset(b: Seq<u8>, more: Seq<u8>, at: int)
    requires
        0 <= at,
        parse_asset(b, at) is Ok,
    ensures
        parse_asset(b + more, at) == parse_asset(b, at),
        at < parse_asset(b, at)->Ok_0.end <= b.len(),
{
    let (first, second, third) = (
        asset_registry::MAX_SOURCE_CONTRACT_BYTES as nat,
        asset_registry::MAX_ASSET_NAME_BYTES as nat,
        asset_registry::MAX_ASSET_SYMBOL_BYTES as nat,
    );
    lemma_longer_blob(b, more, at + 42, first);
    let n = at + 46 + blob_at(b, at + 42, first)->Some_0.len();
    lemma_longer_blob(b, more, n, second);
    let s = n + 4 + blob_at(b, n, second)->Some_0.len();
    lemma_longer_blob(b, more, s, third);
    assert((b + more)[at + 40] == b[at + 40]);
    assert((b + more)[at + 41] == b[at + 41]);
    lemma_longer(b, more, at, 32);
    lemma_longer(b, more, at + 32, 8);
}

proof fn lemma_longer_assets(b: Seq<u8>, more: Seq<u8>, n: nat)
    requires
        b.len() >= 8,
        parse_assets(b, n) is Ok,
    ensures
        parse_assets(b + more, n) == parse_assets(b, n),
        8 <= parse_assets(b, n)->Ok_0.1 <= b.len(),
        parse_assets(b, n)->Ok_0.0.dom().finite(),
        parse_assets(b, n)->Ok_0.0.dom().len() == n,
    decreases n,
{
    if n > 0 {
        lemma_longer_assets(b, more, (n - 1) as nat);
        let (m, at) = parse_assets(b, (n - 1) as nat)->Ok_0;
        lemma_longer_asset(b, more, at);
    }
}

/// An asset record is read only where it is empty, or of version 1 with as many
/// different assets as it says, and nothing behind them.
pub proof fn law_assets_are_read_whole(b: Seq<u8>, more: Seq<u8>)
    ensures
        asset_registry::parse_registry(Seq::empty()) == Ok::<
            Map<[u8; 32], AssetView>,
            &'static str,
        >(Map::empty()),
        asset_registry::parse_registry(b) matches Ok(m) ==> b.len() == 0 || {
            &&& b.len() >= 8
            &&& be_value(b.subrange(0, 4)) == 1
            &&& m.dom().len() == be_value(b.subrange(4, 8))
        },
        asset_registry::parse_registry(b) is Ok && b.len() > 0 && more.len() > 0
            ==> asset_registry::parse_registry(b + more) is Err,
{
    if asset_registry::parse_registry(b) is Ok && b.len() > 0 {
        let n = be_value(field(b, 4, 4));
        lemma_longer(b, more, 0, 4);
        lemma_longer(b, more, 4, 4);
        lemma_longer_assets(b, more, n);
    }
}

/// An asset is read as its bytes say, place by place. It is refused where its status
/// byte is unknown, and where its contract or name is longer than 64 bytes or its
/// symbol longer than 16.
pub proof fn law_assets_are_read_in_place(b: Seq<u8>, at: int)
    requires
        0 <= at,
    ensures
        parse_asset(b, at) matches Ok(s) ==> {
            let n = at + 46 + s.asset.source_contract.len();
            let m = n + 4 + s.asset.name.len();
            &&& s.end == m + 4 + s.asset.symbol.len()
            &&& s.end <= b.len()
            &&& s.id == array_of::<32>(b.subrange(at, at + 32))
            &&& s.asset.source_chain == be_value(b.subrange(at + 32, at + 40))
            &&& s.asset.decimals == b[at + 40]
            &&& b[at + 41] == 0 <==> s.asset.status == AssetStatus::Active
            &&& b[at + 41] == 1 <==> s.asset.status == AssetStatus::Paused
            &&& b[at + 41] == 2 <==> s.asset.status == AssetStatus::Removed
            &&& s.asset.source_contract.len() == be_value(b.subrange(at + 42, at + 46)) <= 64
            &&& s.asset.source_contract == b.subrange(at + 46, n)
            &&& s.asset.name.len() == be_value(b.subrange(n, n + 4)) <= 64
            &&& s.asset.name == b.subrange(n + 4, m)
            &&& s.asset.symbol.len() == be_value(b.subrange(m, m + 4)) <= 16
            &&& s.asset.symbol == b.subrange(m + 4, s.end)
        },
{
    if parse_asset(b, at) is Ok {
        lemma_longer_asset(b, Seq::empty(), at);
        lemma_be_limits();
        lemma_be_value_bound(field(b, at + 32, 8));
    }
}

/// An L2 record is read only where it is empty, or of version 2 or 1 and exactly as
/// long as its counts ask. A record of version 1 pins its one pair of keys for the
/// chain of all zeros, unless both are all zeros.
pub proof fn law_l2_records_are_read_whole(b: Seq<u8>, chain: [u8; 32])
    ensures
        parse_registry(Seq::empty()) == Ok::<L2View, &'static str>(L2View::empty()),
        parse_registry(b) matches Ok(v) ==> b.len() == 0 || be_value(b.subrange(0, 4)) == 2
            || be_value(b.subrange(0, 4)) == 1,
        parse_registry(b) matches Ok(v) ==> (b.len() > 0 && be_value(b.subrange(0, 4)) == 2 ==> {
            let mid = 8 + 96 * be_value(b.subrange(4, 8)) as int;
            &&& b.len() == mid + 4 + 144 * be_value(b.subrange(mid, mid + 4))
            &&& v.chain_vks.dom().len() == be_value(b.subrange(4, 8))
            &&& v.state_roots.dom().len() == be_value(b.subrange(mid, mid + 4))
        }),
        parse_registry(b) matches Ok(v) ==> (b.len() > 0 && be_value(b.subrange(0, 4)) == 1 ==> {
            let agg = array_of::<32>(b.subrange(4, 36));
            let range = array_of::<32>(b.subrange(36, 68));
            &&& b.len() == 72 + 144 * be_value(b.subrange(68, 72))
            &&& v.state_roots.dom().len() == be_value(b.subrange(68, 72))
            &&& v.chain_vks.dom().contains(chain) <==> chain == zero_hash() && !(agg == zero_hash()
                && range == zero_hash())
            &&& v.chain_vks.dom().contains(chain) ==> v.chain_vks[chain].aggregation_vk_hash == agg
                && v.chain_vks[chain].range_vk_commitment == range
        }),
{
    let n = be_value(field(b, 4, 4));
    let at = 8 + 96 * n as int;
    lemma_rows_read::<ChainVksTable>(b, 8, n);
    lemma_rows_read::<StateRootTable>(b, at + 4, be_value(field(b, at, 4)));
    lemma_rows_read::<StateRootTable>(b, 72, be_value(field(b, 68, 4)));
}

/// The keys of a chain are those pinned for it, and all zeros where none are.
pub proof fn law_unpinned_chains_have_zero_keys(v: L2View, chain: [u8; 32])
    ensures
        v.chain_vks.dom().contains(chain) ==> v.vks(chain) == v.chain_vks[chain],
        !v.chain_vks.dom().contains(chain) ==> v.vks(chain).aggregation_vk_hash == zero_hash()
            && v.vks(chain).range_vk_commitment == zero_hash(),
{
}

/// Whether an error says that the record at `a` cannot be read.
pub open spec fn unreadable(e: ExecutionError, a: crate::substrate::Address) -> bool {
    e matches ExecutionError::CorruptStateRecord { addr, reason } && addr == a
}

/// A registry that cannot be read is named by the error, each by its own address; an
/// empty record is a registry without rows.
pub proof fn law_unreadable_registries_are_named(l: Ledger)
    ensures
        l2_contents(l) matches Err(e) ==> unreadable(e, reserved::l2_registry_address()),
        obligations(l) matches Err(e) ==> unreadable(e, reserved::force_include_registry_address()),
        listed(l) matches Err(e) ==> unreadable(e, reserved::asset_registry_address()),
        ejections(l) matches Err(e) ==> unreadable(e, reserved::ejection_registry_address()),
        claimed(l) matches Err(e) ==> unreadable(e, reserved::burn_nullifier_registry_address()),
        offenses(l) matches Err(e) ==> unreadable(e, reserved::equivocation_registry_address()),
        ring_slots(l, RewardsRing::Authority) matches Err(e) ==> unreadable(
            e,
            reserved::authority_registry_address(),
        ),
        ring_slots(l, RewardsRing::Validator) matches Err(e) ==> unreadable(
            e,
            reserved::validator_registry_address(),
        ),
        delegations(l) matches Err(e) ==> unreadable(
            e,
            reserved::validator_delegation_registry_address(),
        ),
        anchors(l) matches Err(e) ==> unreadable(e, reserved::da_anchor_registry_address()),
        unbondings(l) matches Err(e) ==> unreadable(
            e,
            reserved::validator_unbonding_registry_address(),
        ),
        l.record(reserved::force_include_registry_address()).len() == 0 ==> (obligations(
            l,
        ) matches Ok(m) && m.dom().len() == 0),
        l.record(reserved::authority_registry_address()).len() == 0 ==> (ring_slots(
            l,
            RewardsRing::Authority,
        ) matches Ok(m) && m.dom().len() == 0),
        l.record(reserved::validator_registry_address()).len() == 0 ==> (ring_slots(
            l,
            RewardsRing::Validator,
        ) matches Ok(m) && m.dom().len() == 0),
        l.record(reserved::validator_delegation_registry_address()).len() == 0 ==> (delegations(
            l,
        ) matches Ok(m) && m.dom().len() == 0),
        l.record(reserved::validator_unbonding_registry_address()).len() == 0 ==> (unbondings(
            l,
        ) matches Ok(m) && m.dom().len() == 0),
        l.record(reserved::asset_registry_address()).len() == 0 ==> (listed(l) matches Ok(m)
            && m.dom().len() == 0),
{
}

} // verus!
