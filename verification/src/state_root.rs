//! The canonical state root.
//!
//! ```text
//! balances root = BLAKE3("GSX-BALANCES-V1" ||
//!     for each balance in ascending address order: address (20) || u128(balance))
//! records root = BLAKE3("GSX-BYTES-STATE-V1" ||
//!     for each record in ascending address order: address (20) || u32(len) || bytes)
//! state root = BLAKE3("GSX-STATE-ROOT-V2" || balances root || records root)
//! ```

use vstd::prelude::*;
use vstd::string::StringSliceAdditionalSpecFns;

use crate::blob::{blob_bytes, push_blob};
use crate::bytes::{be_bytes, push_all, push_be};
use crate::hash::{digest, digest_of};
use crate::ordered::{row_views, sorted_rows};
use crate::substrate::{Address, Balance, InMemorySubstrate};

verus! {

/// Domain tag of the balances root.
pub const BALANCES_DOMAIN: &'static str = "GSX-BALANCES-V1";

/// Domain tag of the records root.
pub const RECORDS_DOMAIN: &'static str = "GSX-BYTES-STATE-V1";

/// Domain tag of the state root.
pub const STATE_ROOT_DOMAIN: &'static str = "GSX-STATE-ROOT-V2";

/// The bytes of balances, one after the other.
pub open spec fn balance_rows(rows: Seq<(Address, Balance)>) -> Seq<u8>
    decreases rows.len(),
{
    if rows.len() == 0 {
        Seq::empty()
    } else {
        balance_rows(rows.drop_last()) + rows.last().0@ + be_bytes(rows.last().1 as nat, 16)
    }
}

/// The bytes of records, one after the other.
pub open spec fn record_rows(rows: Seq<(Address, Seq<u8>)>) -> Seq<u8>
    decreases rows.len(),
{
    if rows.len() == 0 {
        Seq::empty()
    } else {
        record_rows(rows.drop_last()) + rows.last().0@ + blob_bytes(rows.last().1)
    }
}

/// What is hashed into the balances root.
pub open spec fn balances_preimage(b: Map<Address, Balance>) -> Seq<u8> {
    BALANCES_DOMAIN.spec_bytes() + balance_rows(sorted_rows(b))
}

/// What is hashed into the records root.
pub open spec fn records_preimage(r: Map<Address, Seq<u8>>) -> Seq<u8> {
    RECORDS_DOMAIN.spec_bytes() + record_rows(sorted_rows(r))
}

/// The state root of balances and records.
pub open spec fn root_of(b: Map<Address, Balance>, r: Map<Address, Seq<u8>>) -> [u8; 32] {
    digest_of(
        STATE_ROOT_DOMAIN.spec_bytes() + digest_of(balances_preimage(b))@ + digest_of(
            records_preimage(r),
        )@,
    )
}

fn balances_root(s: &InMemorySubstrate) -> (h: [u8; 32])
    ensures
        h == digest_of(balances_preimage(s@.balances)),
{
    let mut buf: Vec<u8> = Vec::new();
    push_all(&mut buf, BALANCES_DOMAIN.as_bytes());
    let ghost head = buf@;
    let rows = s.entries();
    let n: usize = rows.len();
    let mut i: usize = 0;
    assert(buf@ =~= head + balance_rows(rows@.take(0)));
    while i < n
        invariant
            i <= n,
            n == rows@.len(),
            buf@ == head + balance_rows(rows@.take(i as int)),
        decreases n - i,
    {
        assert(rows@.take(i + 1).drop_last() =~= rows@.take(i as int));
        assert(rows@.take(i + 1).last() == rows@[i as int]);
        push_all(&mut buf, rows[i].0.as_slice());
        push_be(&mut buf, rows[i].1, 16);
        i = i + 1;
        assert(buf@ =~= head + balance_rows(rows@.take(i as int)));
    }
    assert(rows@.take(n as int) =~= rows@);
    assert(buf@ =~= balances_preimage(s@.balances));
    digest(buf.as_slice())
}

fn records_root(s: &InMemorySubstrate) -> (h: [u8; 32])
    ensures
        h == digest_of(records_preimage(s@.records)),
{
    let mut buf: Vec<u8> = Vec::new();
    push_all(&mut buf, RECORDS_DOMAIN.as_bytes());
    let ghost head = buf@;
    let rows = s.record_rows();
    let n: usize = rows.len();
    let mut i: usize = 0;
    let ghost v = row_views(rows@);
    assert(buf@ =~= head + record_rows(v.take(0)));
    while i < n
        invariant
            i <= n,
            n == rows@.len(),
            v == row_views(rows@),
            buf@ == head + record_rows(v.take(i as int)),
        decreases n - i,
    {
        assert(v.take(i + 1).drop_last() =~= v.take(i as int));
        assert(v.take(i + 1).last() == v[i as int]);
        push_all(&mut buf, rows[i].0.as_slice());
        push_blob(&mut buf, rows[i].1.as_slice());
        i = i + 1;
        assert(buf@ =~= head + record_rows(v.take(i as int)));
    }
    assert(v.take(n as int) =~= v);
    assert(buf@ =~= records_preimage(s@.records));
    digest(buf.as_slice())
}

/// Computes the state root.
pub fn compute_root(s: &InMemorySubstrate) -> (h: [u8; 32])
    ensures
        h == root_of(s@.balances, s@.records),
{
    let balances = balances_root(s);
    let records = records_root(s);
    let mut buf: Vec<u8> = Vec::new();
    push_all(&mut buf, STATE_ROOT_DOMAIN.as_bytes());
    push_all(&mut buf, balances.as_slice());
    push_all(&mut buf, records.as_slice());
    assert(buf@ =~= STATE_ROOT_DOMAIN.spec_bytes() + balances@ + records@);
    digest(buf.as_slice())
}

} // verus!
