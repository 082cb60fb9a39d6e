//! Length-prefixed byte strings inside a record.

use vstd::prelude::*;

use crate::bytes::{
    be_bytes, be_value, field, lemma_be_limits, lemma_be_round_trip, push_all, push_be, read_be,
    read_vec,
};

verus! {

/// The length of `data` as a 32-bit integer, then `data`.
pub open spec fn blob_bytes(data: Seq<u8>) -> Seq<u8> {
    be_bytes(data.len(), 4) + data
}

/// The byte string at `at`, unless it is longer than `cap` or runs past the end.
pub open spec fn blob_at(b: Seq<u8>, at: int, cap: nat) -> Option<Seq<u8>> {
    let n = be_value(field(b, at, 4));
    if n > cap || at + 4 + n > b.len() {
        None
    } else {
        Some(field(b, at + 4, n as int))
    }
}

/// Reading back a written byte string gives it again.
pub proof fn lemma_blob_round_trip(b: Seq<u8>, at: int, data: Seq<u8>, cap: nat)
    requires
        0 <= at,
        data.len() <= cap <= u32::MAX,
        at + blob_bytes(data).len() <= b.len(),
        field(b, at, blob_bytes(data).len() as int) == blob_bytes(data),
    ensures
        blob_at(b, at, cap) == Some(data),
        blob_bytes(data).len() == 4 + data.len(),
{
    let whole = blob_bytes(data);
    lemma_be_limits();
    lemma_be_round_trip(data.len(), 4);
    assert(field(b, at, 4) =~= be_bytes(data.len(), 4)) by {
        assert(field(b, at, 4) =~= field(b, at, whole.len() as int).subrange(0, 4));
        assert(whole.subrange(0, 4) =~= be_bytes(data.len(), 4));
    }
    assert(field(b, at + 4, data.len() as int) =~= data) by {
        assert(field(b, at + 4, data.len() as int) =~= field(
            b,
            at,
            whole.len() as int,
        ).subrange(4, whole.len() as int));
        assert(whole.subrange(4, whole.len() as int) =~= data);
    }
}

/// Appends a length-prefixed byte string.
pub fn push_blob(out: &mut Vec<u8>, data: &[u8])
    ensures
        final(out)@ == old(out)@ + blob_bytes(data@),
{
    push_be(out, data.len() as u128, 4);
    push_all(out, data);
    assert(out@ =~= old(out)@ + blob_bytes(data@));
}

/// Reads the byte string at `at`.
pub fn read_blob(b: &[u8], at: usize, cap: usize) -> (r: Option<Vec<u8>>)
    requires
        at + 4 <= b@.len(),
    ensures
        match r {
            Some(v) => blob_at(b@, at as int, cap as nat) == Some(v@) && at + 4 + v@.len()
                <= b@.len(),
            None => blob_at(b@, at as int, cap as nat) is None,
        },
{
    let len: usize = b.len();
    proof {
        lemma_be_limits();
    }
    let n: u128 = read_be(b, at, 4);
    if n > cap as u128 || n > (len - at - 4) as u128 {
        None
    } else {
        Some(read_vec(b, at + 4, n as usize))
    }
}

} // verus!
