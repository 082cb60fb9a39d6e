//! Big-endian integers and fixed-width fields inside byte sequences.

use vstd::prelude::*;

verus! {

/// `width` bytes of `v`, most significant first.
pub open spec fn be_bytes(v: nat, width: nat) -> Seq<u8>
    decreases width,
{
    if width == 0 {
        Seq::empty()
    } else {
        be_bytes(v / 256, (width - 1) as nat).push((v % 256) as u8)
    }
}

/// The integer that `s` spells, most significant byte first.
pub open spec fn be_value(s: Seq<u8>) -> nat
    decreases s.len(),
{
    if s.len() == 0 {
        0
    } else {
        be_value(s.drop_last()) * 256 + s.last() as nat
    }
}

/// One more than the largest integer that fits in `width` bytes.
pub open spec fn be_limit(width: nat) -> nat
    decreases width,
{
    if width == 0 {
        1
    } else {
        be_limit((width - 1) as nat) * 256
    }
}

/// `width` bytes of `s` from `at` on.
pub open spec fn field(s: Seq<u8>, at: int, width: int) -> Seq<u8> {
    s.subrange(at, at + width)
}

/// The array of `N` bytes whose contents are `s`.
pub open spec fn array_of<const N: usize>(s: Seq<u8>) -> [u8; N] {
    choose|a: [u8; N]| #[trigger] a@ == s
}

pub proof fn lemma_be_bytes_len(v: nat, width: nat)
    ensures
        be_bytes(v, width).len() == width,
    decreases width,
{
    if width > 0 {
        lemma_be_bytes_len(v / 256, (width - 1) as nat);
    }
}

pub proof fn lemma_be_value_bound(s: Seq<u8>)
    ensures
        be_value(s) < be_limit(s.len()),
    decreases s.len(),
{
    if s.len() > 0 {
        lemma_be_value_bound(s.drop_last());
    }
}

pub proof fn lemma_be_limits()
    ensures
        be_limit(1) == 0x100,
        be_limit(4) == 0x1_0000_0000,
        be_limit(8) == 0x1_0000_0000_0000_0000,
        be_limit(16) == 0x1_0000_0000_0000_0000_0000_0000_0000_0000,
{
    reveal_with_fuel(be_limit, 17);
}

pub proof fn lemma_be_limit_monotone(a: nat, b: nat)
    requires
        a <= b,
    ensures
        be_limit(a) <= be_limit(b),
    decreases b,
{
    if a < b {
        lemma_be_limit_monotone(a, (b - 1) as nat);
    }
}

/// Reading back what was written gives the integer again.
pub proof fn lemma_be_round_trip(v: nat, width: nat)
    requires
        v < be_limit(width),
    ensures
        be_value(be_bytes(v, width)) == v,
        be_bytes(v, width).len() == width,
    decreases width,
{
    if width > 0 {
        let w = (width - 1) as nat;
        lemma_be_round_trip(v / 256, w);
        assert(be_bytes(v, width).drop_last() =~= be_bytes(v / 256, w));
    }
}

/// Two arrays with the same contents are the same array.
pub proof fn lemma_array_of<const N: usize>(a: [u8; N])
    ensures
        array_of::<N>(a@) == a,
{
    let b = array_of::<N>(a@);
    assert(b@ == a@);
    assert forall|i: int| 0 <= i < N implies b[i] == a[i] by {
        assert(b@[i] == a@[i]);
    }
    assert(b =~= a);
}

/// Appends `width` bytes of `v`, most significant first.
pub fn push_be(out: &mut Vec<u8>, v: u128, width: usize)
    ensures
        final(out)@ == old(out)@ + be_bytes(v as nat, width as nat),
    decreases width,
{
    if width > 0 {
        push_be(out, v / 256, width - 1);
        out.push((v % 256) as u8);
        assert(out@ =~= old(out)@ + be_bytes(v as nat, width as nat));
    } else {
        assert(out@ =~= old(out)@ + be_bytes(v as nat, width as nat));
    }
}

/// Reads `width` bytes from `at` on as one integer.
pub fn read_be(b: &[u8], at: usize, width: usize) -> (v: u128)
    requires
        at + width <= b@.len(),
        width <= 16,
    ensures
        v == be_value(field(b@, at as int, width as int)),
        v < be_limit(width as nat),
    decreases width,
{
    assert(at + width <= b.len());
    let ghost s = field(b@, at as int, width as int);
    proof {
        lemma_be_value_bound(s);
        lemma_be_limit_monotone(width as nat, 16);
        lemma_be_limits();
    }
    if width == 0 {
        0
    } else {
        let high: u128 = read_be(b, at, width - 1);
        assert(s.drop_last() =~= field(b@, at as int, width - 1));
        assert(s.last() == b@[at + width - 1]);
        high * 256 + b[at + width - 1] as u128
    }
}

/// Appends a run of bytes.
pub fn push_all(out: &mut Vec<u8>, data: &[u8])
    ensures
        final(out)@ == old(out)@ + data@,
{
    let n: usize = data.len();
    let mut i: usize = 0;
    while i < n
        invariant
            i <= n,
            n == data@.len(),
            out@ == old(out)@ + data@.take(i as int),
        decreases n - i,
    {
        out.push(data[i]);
        i = i + 1;
        assert(out@ =~= old(out)@ + data@.take(i as int));
    }
    assert(data@.take(n as int) =~= data@);
}

/// Copies `N` bytes from `at` on into an array.
pub fn read_array<const N: usize>(b: &[u8], at: usize) -> (a: [u8; N])
    requires
        at + N <= b@.len(),
    ensures
        a@ == field(b@, at as int, N as int),
        a == array_of::<N>(field(b@, at as int, N as int)),
{
    let n: usize = b.len();
    let mut a: [u8; N] = [0u8; N];
    let mut i: usize = 0;
    while i < N
        invariant
            i <= N,
            at + N <= n,
            n == b@.len(),
            forall|j: int| 0 <= j < i ==> a@[j] == b@[at + j],
        decreases N - i,
    {
        a[i] = b[at + i];
        i = i + 1;
    }
    proof {
        assert(a@ =~= field(b@, at as int, N as int));
        lemma_array_of(a);
    }
    a
}

/// Copies `len` bytes from `at` on into a vector.
pub fn read_vec(b: &[u8], at: usize, len: usize) -> (v: Vec<u8>)
    requires
        at + len <= b@.len(),
    ensures
        v@ == field(b@, at as int, len as int),
{
    let n: usize = b.len();
    let mut v: Vec<u8> = Vec::new();
    let mut i: usize = 0;
    while i < len
        invariant
            i <= len,
            at + len <= n,
            n == b@.len(),
            v@ == field(b@, at as int, i as int),
        decreases len - i,
    {
        v.push(b[at + i]);
        i = i + 1;
        assert(v@ =~= field(b@, at as int, i as int));
    }
    v
}

/// A copy of a byte vector.
pub fn copy_bytes(data: &[u8]) -> (v: Vec<u8>)
    ensures
        v@ == data@,
{
    let v: Vec<u8> = read_vec(data, 0, data.len());
    assert(v@ =~= data@);
    v
}

/// 32 bytes of `b`.
#[verifier::allow_in_spec]
pub fn filled(b: u8) -> [u8; 32]
    returns
        array_of::<32>(Seq::new(32, |i: int| b)),
{
    let mut a: [u8; 32] = [0u8; 32];
    let mut i: usize = 0;
    while i < 32
        invariant
            i <= 32,
            forall|j: int| 0 <= j < i ==> a@[j] == b,
        decreases 32 - i,
    {
        a[i] = b;
        i = i + 1;
    }
    proof {
        assert(a@ =~= Seq::new(32, |i: int| b));
        lemma_array_of(a);
    }
    a
}

/// 32 zero bytes.
#[verifier::allow_in_spec]
pub fn zero_hash() -> [u8; 32]
    returns
        filled(0),
{
    filled(0)
}

/// Whether two arrays hold the same bytes.
pub fn same_array<const N: usize>(a: &[u8; N], b: &[u8; N]) -> (r: bool)
    ensures
        r == (*a == *b),
{
    let mut i: usize = 0;
    while i < N
        invariant
            i <= N,
            forall|j: int| 0 <= j < i ==> a@[j] == b@[j],
        decreases N - i,
    {
        if a[i] != b[i] {
            assert(a@[i as int] != b@[i as int]);
            return false;
        }
        i = i + 1;
    }
    assert(*a =~= *b);
    true
}

} // verus!
