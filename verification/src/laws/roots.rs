//! The state root commits to balances and records and to nothing else.

use vstd::prelude::*;
use vstd::string::StringSliceAdditionalSpecFns;

use crate::blob::blob_bytes;
use crate::bytes::{be_bytes, lemma_be_bytes_len, lemma_be_limits, lemma_be_round_trip};
use crate::hash::digest_of;
use crate::ledger::{lemma_same_balances, Ledger};
use crate::ordered::{lemma_sorted_rows, sorted_rows};
use crate::state_root::{
    balance_rows, balances_preimage, record_rows, records_preimage, root_of, BALANCES_DOMAIN,
    RECORDS_DOMAIN, STATE_ROOT_DOMAIN,
};
use crate::substrate::{Address, Balance};

verus! {

/// States in which every account holds the same and every record is the same have
/// the same root, whatever their heights and however they came about.
pub proof fn law_roots_ignore_everything_else(a: Ledger, b: Ledger)
    requires
        a.wf(),
        b.wf(),
        forall|x: Address| #[trigger] a.balance(x) == b.balance(x),
        forall|x: Address| #[trigger] a.record(x) == b.record(x),
    ensures
        root_of(a.balances, a.records) == root_of(b.balances, b.records),
{
    assert forall|x: Address| #[trigger]
        crate::ledger::balance_of(a.balances, x) == crate::ledger::balance_of(b.balances, x) by {
        assert(a.balance(x) == b.balance(x));
    }
    lemma_same_balances(a.balances, b.balances);
    assert forall|x: Address| a.records.dom().contains(x) <==> b.records.dom().contains(x) by {
        assert(a.record(x) == b.record(x));
    }
    assert forall|x: Address| #[trigger] a.records.dom().contains(x) implies a.records[x]
        == b.records[x] by {
        assert(a.record(x) == b.record(x));
    }
    assert(a.records =~= b.records);
}

proof fn lemma_balance_rows_len(rows: Seq<(Address, Balance)>)
    ensures
        balance_rows(rows).len() == 36 * rows.len(),
    decreases rows.len(),
{
    if rows.len() > 0 {
        lemma_balance_rows_len(rows.drop_last());
        lemma_be_bytes_len(rows.last().1 as nat, 16);
    }
}

proof fn lemma_balance_rows_differ(a: Seq<(Address, Balance)>, b: Seq<(Address, Balance)>)
    requires
        balance_rows(a) == balance_rows(b),
    ensures
        a == b,
    decreases a.len(),
{
    lemma_balance_rows_len(a);
    lemma_balance_rows_len(b);
    if a.len() > 0 {
        let n = balance_rows(a).len() as int;
        let x = a.last();
        let y = b.last();
        lemma_balance_rows_len(a.drop_last());
        lemma_balance_rows_len(b.drop_last());
        lemma_be_limits();
        lemma_be_round_trip(x.1 as nat, 16);
        lemma_be_round_trip(y.1 as nat, 16);
        lemma_be_bytes_len(x.1 as nat, 16);
        lemma_be_bytes_len(y.1 as nat, 16);
        assert(balance_rows(a).subrange(n - 36, n - 16) =~= x.0@);
        assert(balance_rows(b).subrange(n - 36, n - 16) =~= y.0@);
        assert(balance_rows(a).subrange(n - 16, n) =~= be_bytes(x.1 as nat, 16));
        assert(balance_rows(b).subrange(n - 16, n) =~= be_bytes(y.1 as nat, 16));
        assert(balance_rows(a).subrange(0, n - 36) =~= balance_rows(a.drop_last()));
        assert(balance_rows(b).subrange(0, n - 36) =~= balance_rows(b.drop_last()));
        assert(x.0 =~= y.0);
        lemma_balance_rows_differ(a.drop_last(), b.drop_last());
        assert(a =~= a.drop_last().push(x));
        assert(b =~= b.drop_last().push(y));
    } else {
        assert(a =~= b);
    }
}

/// Different balances are hashed from different bytes.
pub proof fn law_balances_are_hashed_apart(a: Map<Address, Balance>, b: Map<Address, Balance>)
    requires
        a.dom().finite(),
        b.dom().finite(),
        balances_preimage(a) == balances_preimage(b),
    ensures
        a == b,
{
    let d = BALANCES_DOMAIN.spec_bytes();
    let x = balance_rows(sorted_rows(a));
    let y = balance_rows(sorted_rows(b));
    assert((d + x).subrange(d.len() as int, (d + x).len() as int) =~= x);
    assert((d + y).subrange(d.len() as int, (d + y).len() as int) =~= y);
    lemma_balance_rows_differ(sorted_rows(a), sorted_rows(b));
    lemma_sorted_rows(a);
    lemma_sorted_rows(b);
}

/// The bytes of one record.
spec fn record_bytes(row: (Address, Seq<u8>)) -> Seq<u8> {
    row.0@ + blob_bytes(row.1)
}

proof fn lemma_first_record(rows: Seq<(Address, Seq<u8>)>)
    requires
        rows.len() > 0,
    ensures
        record_rows(rows) == record_bytes(rows[0]) + record_rows(rows.skip(1)),
    decreases rows.len(),
{
    if rows.len() == 1 {
        assert(rows.drop_last() =~= Seq::empty());
        assert(rows.skip(1) =~= Seq::empty());
        assert(record_rows(rows) =~= record_bytes(rows[0]) + record_rows(rows.skip(1)));
    } else {
        lemma_first_record(rows.drop_last());
        assert(rows.skip(1).drop_last() =~= rows.drop_last().skip(1));
        assert(rows.skip(1).last() == rows.last());
        assert(record_rows(rows) =~= record_bytes(rows[0]) + record_rows(rows.skip(1)));
    }
}

proof fn lemma_record_rows_differ(a: Seq<(Address, Seq<u8>)>, b: Seq<(Address, Seq<u8>)>)
    requires
        record_rows(a) == record_rows(b),
        forall|i: int| 0 <= i < a.len() ==> (#[trigger] a[i]).1.len() <= u32::MAX,
        forall|i: int| 0 <= i < b.len() ==> (#[trigger] b[i]).1.len() <= u32::MAX,
    ensures
        a == b,
    decreases a.len(),
{
    if a.len() > 0 {
        lemma_first_record(a);
        lemma_be_bytes_len(a[0].1.len(), 4);
        assert(record_rows(a).len() >= record_bytes(a[0]).len() >= 24);
    }
    if b.len() > 0 {
        lemma_first_record(b);
        lemma_be_bytes_len(b[0].1.len(), 4);
        assert(record_rows(b).len() >= record_bytes(b[0]).len() >= 24);
    }
    if a.len() == 0 || b.len() == 0 {
        assert(a =~= b);
    } else {
        let s = record_rows(a);
        let x = a[0];
        let y = b[0];
        lemma_be_limits();
        lemma_be_round_trip(x.1.len(), 4);
        lemma_be_round_trip(y.1.len(), 4);
        assert(s.subrange(0, 20) =~= x.0@);
        assert(s.subrange(0, 20) =~= y.0@);
        assert(x.0 =~= y.0);
        assert(s.subrange(20, 24) =~= be_bytes(x.1.len(), 4));
        assert(s.subrange(20, 24) =~= be_bytes(y.1.len(), 4));
        let n = x.1.len() as int;
        assert(s.subrange(24, 24 + n) =~= x.1);
        assert(s.subrange(24, 24 + n) =~= y.1);
        assert(s.subrange(24 + n, s.len() as int) =~= record_rows(a.skip(1)));
        assert(s.subrange(24 + n, s.len() as int) =~= record_rows(b.skip(1)));
        lemma_record_rows_differ(a.skip(1), b.skip(1));
        assert(a =~= seq![x] + a.skip(1));
        assert(b =~= seq![y] + b.skip(1));
    }
}

/// Whether every record is short enough for its length to be written.
pub open spec fn lengths_fit(r: Map<Address, Seq<u8>>) -> bool {
    forall|x: Address| #[trigger] r.dom().contains(x) ==> r[x].len() <= u32::MAX
}

/// Different records are hashed from different bytes.
pub proof fn law_records_are_hashed_apart(a: Map<Address, Seq<u8>>, b: Map<Address, Seq<u8>>)
    requires
        a.dom().finite(),
        b.dom().finite(),
        lengths_fit(a),
        lengths_fit(b),
        records_preimage(a) == records_preimage(b),
    ensures
        a == b,
{
    let d = RECORDS_DOMAIN.spec_bytes();
    let ra = sorted_rows(a);
    let rb = sorted_rows(b);
    let x = record_rows(ra);
    let y = record_rows(rb);
    lemma_sorted_rows(a);
    lemma_sorted_rows(b);
    assert((d + x).subrange(d.len() as int, (d + x).len() as int) =~= x);
    assert((d + y).subrange(d.len() as int, (d + y).len() as int) =~= y);
    assert forall|i: int| 0 <= i < ra.len() implies (#[trigger] ra[i]).1.len() <= u32::MAX by {
        crate::ordered::lemma_rows_map_get(ra, i);
        assert(a.dom().contains(ra[i].0));
    }
    assert forall|i: int| 0 <= i < rb.len() implies (#[trigger] rb[i]).1.len() <= u32::MAX by {
        crate::ordered::lemma_rows_map_get(rb, i);
        assert(b.dom().contains(rb[i].0));
    }
    lemma_record_rows_differ(ra, rb);
}

/// Whether two different inputs have the same digest.
pub open spec fn collide(x: Seq<u8>, y: Seq<u8>) -> bool {
    x != y && digest_of(x) == digest_of(y)
}

/// States with the same root hold the same balances and records, unless two
/// different inputs have the same digest.
pub proof fn law_roots_tell_states_apart(a: Ledger, b: Ledger)
    requires
        a.wf(),
        b.wf(),
        lengths_fit(a.records),
        lengths_fit(b.records),
        root_of(a.balances, a.records) == root_of(b.balances, b.records),
    ensures
        (a.balances == b.balances && a.records == b.records) || exists|x: Seq<u8>, y: Seq<u8>|
            collide(x, y),
{
    let d = STATE_ROOT_DOMAIN.spec_bytes();
    let ab = balances_preimage(a.balances);
    let bb = balances_preimage(b.balances);
    let ar = records_preimage(a.records);
    let br = records_preimage(b.records);
    let x = d + digest_of(ab)@ + digest_of(ar)@;
    let y = d + digest_of(bb)@ + digest_of(br)@;
    if x != y {
        assert(collide(x, y));
    } else {
        let n = d.len() as int;
        assert(x.subrange(n, n + 32) =~= digest_of(ab)@);
        assert(y.subrange(n, n + 32) =~= digest_of(bb)@);
        assert(x.subrange(n + 32, n + 64) =~= digest_of(ar)@);
        assert(y.subrange(n + 32, n + 64) =~= digest_of(br)@);
        assert(digest_of(ab) =~= digest_of(bb));
        assert(digest_of(ar) =~= digest_of(br));
        if ab != bb {
            assert(collide(ab, bb));
        } else if ar != br {
            assert(collide(ar, br));
        } else {
            law_balances_are_hashed_apart(a.balances, b.balances);
            law_records_are_hashed_apart(a.records, b.records);
        }
    }
}

} // verus!
