//! Maps and sets that keep their keys in ascending order.
//!
//! The canonical encodings list their entries in key order, so the containers
//! hold their rows in one vector whose keys strictly ascend.

use vstd::prelude::*;

verus! {

/// Where one key stands relative to another.
#[derive(Clone, Copy, Debug, PartialEq, Eq, Structural)]
pub enum Place {
    /// The first key comes first.
    Before,
    /// The keys are the same.
    Same,
    /// The first key comes last.
    After,
}

/// A key type with a strict total order.
pub trait OrderedKey: Sized {
    /// Whether `self` stands before `other`.
    spec fn before(self, other: Self) -> bool;

    proof fn lemma_irreflexive(a: Self)
        ensures
            !a.before(a),
    ;

    proof fn lemma_transitive(a: Self, b: Self, c: Self)
        requires
            a.before(b),
            b.before(c),
        ensures
            a.before(c),
    ;

    proof fn lemma_total(a: Self, b: Self)
        ensures
            a == b || a.before(b) || b.before(a),
    ;

    /// Where `self` stands relative to `other`.
    fn place(&self, other: &Self) -> (p: Place)
        ensures
            match p {
                Place::Before => self.before(*other),
                Place::Same => *self == *other,
                Place::After => other.before(*self),
            },
    ;
}

impl OrderedKey for u32 {
    open spec fn before(self, other: u32) -> bool {
        self < other
    }

    proof fn lemma_irreflexive(a: u32) {
    }

    proof fn lemma_transitive(a: u32, b: u32, c: u32) {
    }

    proof fn lemma_total(a: u32, b: u32) {
    }

    fn place(&self, other: &u32) -> (p: Place) {
        if *self < *other {
            Place::Before
        } else if *self == *other {
            Place::Same
        } else {
            Place::After
        }
    }
}

impl OrderedKey for u64 {
    open spec fn before(self, other: u64) -> bool {
        self < other
    }

    proof fn lemma_irreflexive(a: u64) {
    }

    proof fn lemma_transitive(a: u64, b: u64, c: u64) {
    }

    proof fn lemma_total(a: u64, b: u64) {
    }

    fn place(&self, other: &u64) -> (p: Place) {
        if *self < *other {
            Place::Before
        } else if *self == *other {
            Place::Same
        } else {
            Place::After
        }
    }
}

/// Whether `a` and `b` agree below `i` and `a` is smaller at `i`.
pub open spec fn first_below(a: Seq<u8>, b: Seq<u8>, i: int) -> bool {
    &&& 0 <= i < a.len()
    &&& i < b.len()
    &&& a[i] < b[i]
    &&& forall|j: int| 0 <= j < i ==> a[j] == b[j]
}

proof fn lemma_first_difference<const N: usize>(a: [u8; N], b: [u8; N], n: nat)
    requires
        n <= N,
        exists|i: int| 0 <= i < n && a@[i] != b@[i],
    ensures
        exists|i: int| first_below(a@, b@, i) || first_below(b@, a@, i),
    decreases n,
{
    if exists|i: int| 0 <= i < n - 1 && a@[i] != b@[i] {
        lemma_first_difference(a, b, (n - 1) as nat);
    } else {
        let k = n - 1;
        assert(first_below(a@, b@, k) || first_below(b@, a@, k));
    }
}

/// Byte arrays are ordered by their first differing byte.
impl<const N: usize> OrderedKey for [u8; N] {
    open spec fn before(self, other: [u8; N]) -> bool {
        exists|i: int| first_below(self@, other@, i)
    }

    proof fn lemma_irreflexive(a: [u8; N]) {
    }

    proof fn lemma_transitive(a: [u8; N], b: [u8; N], c: [u8; N]) {
        let i = choose|i: int| first_below(a@, b@, i);
        let j = choose|j: int| first_below(b@, c@, j);
        let k = if i < j { i } else { j };
        assert(first_below(a@, c@, k));
    }

    proof fn lemma_total(a: [u8; N], b: [u8; N]) {
        if a != b {
            if forall|i: int| 0 <= i < N ==> a@[i] == b@[i] {
                assert(a =~= b);
            }
            lemma_first_difference(a, b, N as nat);
        }
    }

    fn place(&self, other: &[u8; N]) -> (p: Place) {
        let mut i: usize = 0;
        while i < N
            invariant
                i <= N,
                forall|j: int| 0 <= j < i ==> self@[j] == other@[j],
            decreases N - i,
        {
            if self[i] < other[i] {
                assert(first_below(self@, other@, i as int));
                return Place::Before;
            }
            if other[i] < self[i] {
                assert(first_below(other@, self@, i as int));
                return Place::After;
            }
            i = i + 1;
        }
        assert(*self =~= *other);
        Place::Same
    }
}

/// Pairs are ordered by their first part, then by their second.
impl<A: OrderedKey, B: OrderedKey> OrderedKey for (A, B) {
    open spec fn before(self, other: (A, B)) -> bool {
        self.0.before(other.0) || (self.0 == other.0 && self.1.before(other.1))
    }

    proof fn lemma_irreflexive(a: (A, B)) {
        A::lemma_irreflexive(a.0);
        B::lemma_irreflexive(a.1);
    }

    proof fn lemma_transitive(a: (A, B), b: (A, B), c: (A, B)) {
        if a.0.before(b.0) && b.0.before(c.0) {
            A::lemma_transitive(a.0, b.0, c.0);
        }
        if a.1.before(b.1) && b.1.before(c.1) {
            B::lemma_transitive(a.1, b.1, c.1);
        }
    }

    proof fn lemma_total(a: (A, B), b: (A, B)) {
        A::lemma_total(a.0, b.0);
        B::lemma_total(a.1, b.1);
    }

    fn place(&self, other: &(A, B)) -> (p: Place) {
        match self.0.place(&other.0) {
            Place::Same => self.1.place(&other.1),
            p => p,
        }
    }
}

/// Triples are ordered part by part.
impl<A: OrderedKey, B: OrderedKey, C: OrderedKey> OrderedKey for (A, B, C) {
    open spec fn before(self, other: (A, B, C)) -> bool {
        ||| self.0.before(other.0)
        ||| self.0 == other.0 && self.1.before(other.1)
        ||| self.0 == other.0 && self.1 == other.1 && self.2.before(other.2)
    }

    proof fn lemma_irreflexive(a: (A, B, C)) {
        A::lemma_irreflexive(a.0);
        B::lemma_irreflexive(a.1);
        C::lemma_irreflexive(a.2);
    }

    proof fn lemma_transitive(a: (A, B, C), b: (A, B, C), c: (A, B, C)) {
        if a.0.before(b.0) && b.0.before(c.0) {
            A::lemma_transitive(a.0, b.0, c.0);
        }
        if a.1.before(b.1) && b.1.before(c.1) {
            B::lemma_transitive(a.1, b.1, c.1);
        }
        if a.2.before(b.2) && b.2.before(c.2) {
            C::lemma_transitive(a.2, b.2, c.2);
        }
    }

    proof fn lemma_total(a: (A, B, C), b: (A, B, C)) {
        A::lemma_total(a.0, b.0);
        B::lemma_total(a.1, b.1);
        C::lemma_total(a.2, b.2);
    }

    fn place(&self, other: &(A, B, C)) -> (p: Place) {
        match self.0.place(&other.0) {
            Place::Same => match self.1.place(&other.1) {
                Place::Same => self.2.place(&other.2),
                p => p,
            },
            p => p,
        }
    }
}

/// Whether the keys of `rows` strictly ascend.
pub open spec fn ascending<K: OrderedKey, V>(rows: Seq<(K, V)>) -> bool {
    forall|i: int, j: int|
        #![trigger rows[i], rows[j]]
        0 <= i < j < rows.len() ==> rows[i].0.before(rows[j].0)
}

/// The map that `rows` spell, a later row replacing an earlier one.
pub open spec fn rows_map<K, V>(rows: Seq<(K, V)>) -> Map<K, V>
    decreases rows.len(),
{
    if rows.len() == 0 {
        Map::empty()
    } else {
        rows_map(rows.drop_last()).insert(rows.last().0, rows.last().1)
    }
}

/// The rows of `m` in ascending key order.
pub open spec fn sorted_rows<K: OrderedKey, V>(m: Map<K, V>) -> Seq<(K, V)> {
    choose|rows: Seq<(K, V)>| #[trigger] ascending(rows) && rows_map(rows) == m
}

/// The keys of the map are the keys of the rows.
pub proof fn lemma_rows_map_dom<K, V>(rows: Seq<(K, V)>)
    ensures
        forall|k: K| #[trigger]
            rows_map(rows).dom().contains(k) <==> exists|i: int|
                0 <= i < rows.len() && (#[trigger] rows[i]).0 == k,
        rows_map(rows).dom().finite(),
    decreases rows.len(),
{
    if rows.len() > 0 {
        let init = rows.drop_last();
        lemma_rows_map_dom(init);
        assert forall|k: K| #[trigger] rows_map(rows).dom().contains(k) implies exists|i: int|
            0 <= i < rows.len() && (#[trigger] rows[i]).0 == k by {
            if k == rows.last().0 {
                assert(rows[rows.len() - 1].0 == k);
            } else {
                assert(rows_map(init).dom().contains(k));
                let i = choose|i: int| 0 <= i < init.len() && (#[trigger] init[i]).0 == k;
                assert(rows[i].0 == k);
            }
        }
        assert forall|k: K|
            (exists|i: int| 0 <= i < rows.len() && (#[trigger] rows[i]).0 == k) implies #[trigger]
            rows_map(rows).dom().contains(k) by {
            let i = choose|i: int| 0 <= i < rows.len() && (#[trigger] rows[i]).0 == k;
            if i < init.len() {
                assert(init[i].0 == k);
            }
        }
    }
}

/// With ascending keys every row is found in the map under its key.
pub proof fn lemma_rows_map_get<K: OrderedKey, V>(rows: Seq<(K, V)>, i: int)
    requires
        ascending(rows),
        0 <= i < rows.len(),
    ensures
        rows_map(rows).dom().contains(rows[i].0),
        rows_map(rows)[rows[i].0] == rows[i].1,
    decreases rows.len(),
{
    let init = rows.drop_last();
    if i < init.len() {
        assert(ascending(init)) by {
            assert forall|a: int, b: int|
                #![trigger init[a], init[b]]
                0 <= a < b < init.len() implies init[a].0.before(init[b].0) by {
                assert(rows[a].0.before(rows[b].0));
            }
        }
        lemma_rows_map_get(init, i);
        assert(rows[i].0.before(rows[rows.len() - 1].0));
        K::lemma_irreflexive(rows[i].0);
    }
}

/// Ascending rows are determined by the map that they spell.
pub proof fn lemma_ascending_unique<K: OrderedKey, V>(a: Seq<(K, V)>, b: Seq<(K, V)>)
    requires
        ascending(a),
        ascending(b),
        rows_map(a) == rows_map(b),
    ensures
        a == b,
    decreases a.len(),
{
    lemma_rows_map_dom(a);
    lemma_rows_map_dom(b);
    if a.len() == 0 {
        if b.len() > 0 {
            assert(rows_map(b).dom().contains(b[0].0));
            assert(rows_map(a).dom().contains(b[0].0));
            assert(false);
        }
        assert(a =~= b);
    } else {
        let la = a[a.len() - 1];
        assert(rows_map(a).dom().contains(la.0));
        let i = choose|i: int| 0 <= i < b.len() && (#[trigger] b[i]).0 == la.0;
        let lb = b[b.len() - 1];
        assert(rows_map(b).dom().contains(lb.0));
        let j = choose|j: int| 0 <= j < a.len() && (#[trigger] a[j]).0 == lb.0;
        if la.0 != lb.0 {
            assert(b[i].0.before(lb.0));
            assert(a[j].0.before(la.0));
            K::lemma_transitive(la.0, lb.0, la.0);
            K::lemma_irreflexive(la.0);
        }
        lemma_rows_map_get(a, a.len() - 1);
        lemma_rows_map_get(b, b.len() - 1);
        let ia = a.drop_last();
        let ib = b.drop_last();
        assert(ascending(ia)) by {
            assert forall|x: int, y: int|
                #![trigger ia[x], ia[y]]
                0 <= x < y < ia.len() implies ia[x].0.before(ia[y].0) by {
                assert(a[x].0.before(a[y].0));
            }
        }
        assert(ascending(ib)) by {
            assert forall|x: int, y: int|
                #![trigger ib[x], ib[y]]
                0 <= x < y < ib.len() implies ib[x].0.before(ib[y].0) by {
                assert(b[x].0.before(b[y].0));
            }
        }
        lemma_rows_map_dom(ia);
        lemma_rows_map_dom(ib);
        assert(!rows_map(ia).dom().contains(la.0)) by {
            if rows_map(ia).dom().contains(la.0) {
                let x = choose|x: int| 0 <= x < ia.len() && (#[trigger] ia[x]).0 == la.0;
                assert(a[x].0.before(la.0));
                K::lemma_irreflexive(la.0);
            }
        }
        assert(!rows_map(ib).dom().contains(la.0)) by {
            if rows_map(ib).dom().contains(la.0) {
                let x = choose|x: int| 0 <= x < ib.len() && (#[trigger] ib[x]).0 == la.0;
                assert(b[x].0.before(lb.0));
                K::lemma_irreflexive(la.0);
            }
        }
        assert(rows_map(ia) =~= rows_map(a).remove(la.0));
        assert(rows_map(ib) =~= rows_map(b).remove(la.0));
        lemma_ascending_unique(ia, ib);
        assert(a =~= ia.push(la));
        assert(b =~= ib.push(lb));
    }
}

/// Ascending rows are the sorted rows of the map that they spell.
pub proof fn lemma_sorted_rows_of<K: OrderedKey, V>(rows: Seq<(K, V)>)
    requires
        ascending(rows),
    ensures
        sorted_rows(rows_map(rows)) == rows,
{
    let s = sorted_rows(rows_map(rows));
    assert(ascending(s) && rows_map(s) == rows_map(rows));
    lemma_ascending_unique(s, rows);
}

/// Ascending rows spell `m` when they hold exactly its keys with their values.
proof fn lemma_rows_map_is<K: OrderedKey, V>(rows: Seq<(K, V)>, m: Map<K, V>)
    requires
        ascending(rows),
        forall|k: K| #[trigger]
            m.dom().contains(k) ==> exists|i: int|
                0 <= i < rows.len() && (#[trigger] rows[i]).0 == k,
        forall|i: int|
            0 <= i < rows.len() ==> m.dom().contains((#[trigger] rows[i]).0) && m[rows[i].0]
                == rows[i].1,
    ensures
        rows_map(rows) == m,
{
    lemma_rows_map_dom(rows);
    assert forall|k: K| #[trigger] rows_map(rows).dom().contains(k) implies m.dom().contains(k)
        && m[k] == rows_map(rows)[k] by {
        let i = choose|i: int| 0 <= i < rows.len() && (#[trigger] rows[i]).0 == k;
        lemma_rows_map_get(rows, i);
    }
    assert forall|k: K| #[trigger] m.dom().contains(k) implies rows_map(rows).dom().contains(k) by {
        let i = choose|i: int| 0 <= i < rows.len() && (#[trigger] rows[i]).0 == k;
    }
    assert(rows_map(rows) =~= m);
}

/// Whether `p` is the place at which `k` belongs among `rows`.
spec fn slot_for<K: OrderedKey, V>(rows: Seq<(K, V)>, p: int, k: K) -> bool {
    &&& 0 <= p <= rows.len()
    &&& forall|i: int| 0 <= i < p ==> (#[trigger] rows[i]).0.before(k)
    &&& forall|i: int| p <= i < rows.len() ==> k.before((#[trigger] rows[i]).0)
}

proof fn lemma_insert_row<K: OrderedKey, V>(rows: Seq<(K, V)>, p: int, k: K, v: V)
    requires
        ascending(rows),
        slot_for(rows, p, k),
    ensures
        ascending(rows.insert(p, (k, v))),
        rows_map(rows.insert(p, (k, v))) == rows_map(rows).insert(k, v),
        !rows_map(rows).dom().contains(k),
{
    let out = rows.insert(p, (k, v));
    let m = rows_map(rows);
    lemma_rows_map_dom(rows);
    assert forall|i: int, j: int|
        #![trigger out[i], out[j]]
        0 <= i < j < out.len() implies out[i].0.before(out[j].0) by {
        let a = if i < p { i } else { i - 1 };
        let b = if j < p { j } else { j - 1 };
        if i == p {
            assert(out[j] == rows[b]);
        } else if j == p {
            assert(out[i] == rows[a]);
        } else {
            assert(out[i] == rows[a] && out[j] == rows[b]);
        }
    }
    assert(!m.dom().contains(k)) by {
        if m.dom().contains(k) {
            let i = choose|i: int| 0 <= i < rows.len() && (#[trigger] rows[i]).0 == k;
            K::lemma_irreflexive(k);
        }
    }
    assert forall|x: K| #[trigger] m.insert(k, v).dom().contains(x) implies exists|i: int|
        0 <= i < out.len() && (#[trigger] out[i]).0 == x by {
        if x == k {
            assert(out[p].0 == x);
        } else {
            let i = choose|i: int| 0 <= i < rows.len() && (#[trigger] rows[i]).0 == x;
            let q = if i < p { i } else { i + 1 };
            assert(out[q] == rows[i]);
        }
    }
    assert forall|i: int| 0 <= i < out.len() implies m.insert(k, v).dom().contains(
        (#[trigger] out[i]).0,
    ) && m.insert(k, v)[out[i].0] == out[i].1 by {
        if i != p {
            let a = if i < p { i } else { i - 1 };
            assert(out[i] == rows[a]);
            lemma_rows_map_get(rows, a);
        }
    }
    lemma_rows_map_is(out, m.insert(k, v));
}

proof fn lemma_remove_row<K: OrderedKey, V>(rows: Seq<(K, V)>, p: int)
    requires
        ascending(rows),
        0 <= p < rows.len(),
    ensures
        ascending(rows.remove(p)),
        rows_map(rows.remove(p)) == rows_map(rows).remove(rows[p].0),
        slot_for(rows.remove(p), p, rows[p].0),
{
    let out = rows.remove(p);
    let k = rows[p].0;
    let m = rows_map(rows);
    lemma_rows_map_dom(rows);
    assert forall|i: int, j: int|
        #![trigger out[i], out[j]]
        0 <= i < j < out.len() implies out[i].0.before(out[j].0) by {
        let a = if i < p { i } else { i + 1 };
        let b = if j < p { j } else { j + 1 };
        assert(out[i] == rows[a] && out[j] == rows[b]);
    }
    assert forall|i: int| 0 <= i < p implies (#[trigger] out[i]).0.before(k) by {
        assert(out[i] == rows[i]);
    }
    assert forall|i: int| p <= i < out.len() implies k.before((#[trigger] out[i]).0) by {
        assert(out[i] == rows[i + 1]);
    }
    assert forall|x: K| #[trigger] m.remove(k).dom().contains(x) implies exists|i: int|
        0 <= i < out.len() && (#[trigger] out[i]).0 == x by {
        let i = choose|i: int| 0 <= i < rows.len() && (#[trigger] rows[i]).0 == x;
        let q = if i < p { i } else { i - 1 };
        assert(out[q] == rows[i]);
    }
    assert forall|i: int| 0 <= i < out.len() implies m.remove(k).dom().contains(
        (#[trigger] out[i]).0,
    ) && m.remove(k)[out[i].0] == out[i].1 by {
        let a = if i < p { i } else { i + 1 };
        assert(out[i] == rows[a]);
        lemma_rows_map_get(rows, a);
        K::lemma_irreflexive(k);
    }
    lemma_rows_map_is(out, m.remove(k));
}

proof fn lemma_slot_exists<K: OrderedKey, V>(rows: Seq<(K, V)>, k: K) -> (p: int)
    requires
        ascending(rows),
        forall|i: int| 0 <= i < rows.len() ==> (#[trigger] rows[i]).0 != k,
    ensures
        slot_for(rows, p, k),
    decreases rows.len(),
{
    if rows.len() == 0 {
        0
    } else {
        let last = rows[rows.len() - 1];
        K::lemma_total(last.0, k);
        if last.0.before(k) {
            assert forall|i: int| 0 <= i < rows.len() implies (#[trigger] rows[i]).0.before(k) by {
                if i < rows.len() - 1 {
                    K::lemma_transitive(rows[i].0, last.0, k);
                }
            }
            rows.len() as int
        } else {
            let init = rows.drop_last();
            lemma_remove_row(rows, rows.len() - 1);
            assert(init =~= rows.remove(rows.len() - 1));
            assert forall|i: int| 0 <= i < init.len() implies (#[trigger] init[i]).0 != k by {
                assert(init[i] == rows[i]);
            }
            let p = lemma_slot_exists(init, k);
            assert forall|i: int| 0 <= i < p implies (#[trigger] rows[i]).0.before(k) by {
                assert(init[i] == rows[i]);
            }
            assert forall|i: int| p <= i < rows.len() implies k.before((#[trigger] rows[i]).0) by {
                if i < rows.len() - 1 {
                    assert(init[i] == rows[i]);
                }
            }
            p
        }
    }
}

/// Every finite map has sorted rows.
pub proof fn lemma_sorted_rows<K: OrderedKey, V>(m: Map<K, V>)
    requires
        m.dom().finite(),
    ensures
        ascending(sorted_rows(m)),
        rows_map(sorted_rows(m)) == m,
        sorted_rows(m).len() == m.dom().len(),
    decreases m.dom().len(),
{
    if m.dom().len() == 0 {
        let rows = Seq::<(K, V)>::empty();
        assert(m.dom() =~= Set::empty());
        assert(rows_map(rows) =~= m);
        assert(ascending(rows));
        lemma_sorted_rows_of(rows);
    } else {
        let k = m.dom().choose();
        let rest = m.remove(k);
        lemma_sorted_rows(rest);
        let rows = sorted_rows(rest);
        lemma_rows_map_dom(rows);
        assert forall|i: int| 0 <= i < rows.len() implies (#[trigger] rows[i]).0 != k by {
            assert(rows_map(rows).dom().contains(rows[i].0));
        }
        let p = lemma_slot_exists(rows, k);
        lemma_insert_row(rows, p, k, m[k]);
        assert(rest.insert(k, m[k]) =~= m);
        lemma_sorted_rows_of(rows.insert(p, (k, m[k])));
    }
}

/// The map with every value replaced by its view.
pub open spec fn value_views<K, V: View>(m: Map<K, V>) -> Map<K, V::V> {
    m.map_values(|v: V| v@)
}

/// The rows with every value replaced by its view.
pub open spec fn row_views<K, V: View>(rows: Seq<(K, V)>) -> Seq<(K, V::V)> {
    Seq::new(rows.len(), |i: int| (rows[i].0, rows[i].1@))
}

proof fn lemma_view_map<K, V: View>(rows: Seq<(K, V)>)
    ensures
        rows_map(row_views(rows)) == value_views(rows_map(rows)),
    decreases rows.len(),
{
    if rows.len() > 0 {
        let init = rows.drop_last();
        lemma_view_map(init);
        assert(row_views(rows).drop_last() =~= row_views(init));
    }
    assert(rows_map(row_views(rows)) =~= value_views(rows_map(rows)));
}

/// Viewing the values changes neither the order of the rows nor what they spell.
pub proof fn lemma_view_rows<K: OrderedKey, V: View>(rows: Seq<(K, V)>)
    requires
        ascending(rows),
    ensures
        sorted_rows(value_views(rows_map(rows))) == row_views(rows),
        ascending(row_views(rows)),
        rows_map(row_views(rows)) == value_views(rows_map(rows)),
{
    let out = row_views(rows);
    assert forall|x: int, y: int|
        #![trigger out[x], out[y]]
        0 <= x < y < out.len() implies out[x].0.before(out[y].0) by {
        assert(rows[x].0.before(rows[y].0));
    }
    lemma_view_map(rows);
    lemma_sorted_rows_of(out);
}

/// A map that keeps its rows in ascending key order.
#[derive(Debug, PartialEq, Eq)]
pub struct OrderedMap<K: OrderedKey, V> {
    rows: Vec<(K, V)>,
}

impl<K: OrderedKey, V> View for OrderedMap<K, V> {
    type V = Map<K, V>;

    closed spec fn view(&self) -> Map<K, V> {
        rows_map(self.rows@)
    }
}

impl<K: OrderedKey, V> OrderedMap<K, V> {
    #[verifier::type_invariant]
    spec fn wf(&self) -> bool {
        ascending(self.rows@)
    }

    /// An empty map.
    pub fn new() -> (m: Self)
        ensures
            m@ == Map::<K, V>::empty(),
    {
        OrderedMap { rows: Vec::new() }
    }

    /// The number of rows.
    pub fn len(&self) -> (n: usize)
        ensures
            n == self@.dom().len(),
            self@.dom().finite(),
    {
        proof {
            use_type_invariant(self);
            lemma_rows_map_dom(self.rows@);
            lemma_sorted_rows_of(self.rows@);
            lemma_sorted_rows(rows_map(self.rows@));
        }
        self.rows.len()
    }

    /// Whether the map has no row.
    pub fn is_empty(&self) -> (r: bool)
        ensures
            r == (self@ == Map::<K, V>::empty()),
    {
        let n: usize = self.len();
        proof {
            if n == 0 {
                assert(self@.dom() =~= Set::empty());
                assert(self@ =~= Map::empty());
            }
        }
        n == 0
    }

    /// All rows in ascending key order.
    pub fn entries(&self) -> (r: &Vec<(K, V)>)
        ensures
            r@ == sorted_rows(self@),
            ascending(r@),
            rows_map(r@) == self@,
            self@.dom().finite(),
            r@.len() == self@.dom().len(),
    {
        proof {
            use_type_invariant(self);
            lemma_rows_map_dom(self.rows@);
            lemma_sorted_rows_of(self.rows@);
            lemma_sorted_rows(rows_map(self.rows@));
        }
        &self.rows
    }

    /// The place of `key` among the rows, and whether it is there.
    fn locate(&self, key: &K) -> (r: (usize, bool))
        ensures
            r.1 ==> r.0 < self.rows@.len() && self.rows@[r.0 as int].0 == *key,
            !r.1 ==> slot_for(self.rows@, r.0 as int, *key),
    {
        proof {
            use_type_invariant(self);
        }
        let mut lo: usize = 0;
        let mut hi: usize = self.rows.len();
        while lo < hi
            invariant
                ascending(self.rows@),
                lo <= hi <= self.rows@.len(),
                forall|i: int| 0 <= i < lo ==> (#[trigger] self.rows@[i]).0.before(*key),
                forall|i: int| hi <= i < self.rows@.len() ==> key.before(
                    (#[trigger] self.rows@[i]).0,
                ),
            decreases hi - lo,
        {
            let mid: usize = lo + (hi - lo) / 2;
            match self.rows[mid].0.place(key) {
                Place::Same => {
                    return (mid, true);
                },
                Place::Before => {
                    proof {
                        let m = self.rows@[mid as int].0;
                        assert forall|i: int| 0 <= i < mid + 1 implies (
                        #[trigger] self.rows@[i]).0.before(*key) by {
                            if i < mid {
                                K::lemma_transitive(self.rows@[i].0, m, *key);
                            }
                        }
                    }
                    lo = mid + 1;
                },
                Place::After => {
                    proof {
                        let m = self.rows@[mid as int].0;
                        assert forall|i: int| mid <= i < self.rows@.len() implies key.before(
                            (#[trigger] self.rows@[i]).0,
                        ) by {
                            if mid < i {
                                K::lemma_transitive(*key, m, self.rows@[i].0);
                            }
                        }
                    }
                    hi = mid;
                },
            }
        }
        (lo, false)
    }

    /// The value stored under `key`.
    pub fn get(&self, key: &K) -> (r: Option<&V>)
        ensures
            match r {
                Some(v) => self@.dom().contains(*key) && *v == self@[*key],
                None => !self@.dom().contains(*key),
            },
    {
        let (i, found) = self.locate(key);
        proof {
            use_type_invariant(self);
        }
        if found {
            proof {
                lemma_rows_map_get(self.rows@, i as int);
            }
            Some(&self.rows[i].1)
        } else {
            proof {
                lemma_absent(self.rows@, i as int, *key);
            }
            None
        }
    }

    /// Whether a value is stored under `key`.
    pub fn contains_key(&self, key: &K) -> (r: bool)
        ensures
            r == self@.dom().contains(*key),
    {
        match self.get(key) {
            Some(_) => true,
            None => false,
        }
    }

    /// Stores `value` under `key` and hands back what was there.
    pub fn insert(&mut self, key: K, value: V) -> (prior: Option<V>)
        ensures
            final(self)@ == old(self)@.insert(key, value),
            match prior {
                Some(v) => old(self)@.dom().contains(key) && v == old(self)@[key],
                None => !old(self)@.dom().contains(key),
            },
    {
        let (i, found) = self.locate(&key);
        proof {
            use_type_invariant(&*self);
        }
        let mut rows: Vec<(K, V)> = Vec::new();
        std::mem::swap(&mut rows, &mut self.rows);
        let ghost before = rows@;
        if found {
            let prior = rows.remove(i);
            proof {
                lemma_rows_map_get(before, i as int);
                lemma_remove_row(before, i as int);
                lemma_insert_row(rows@, i as int, key, value);
                assert(rows_map(before).remove(key).insert(key, value) =~= rows_map(
                    before,
                ).insert(key, value));
            }
            rows.insert(i, (key, value));
            self.rows = rows;
            Some(prior.1)
        } else {
            proof {
                lemma_insert_row(before, i as int, key, value);
            }
            rows.insert(i, (key, value));
            self.rows = rows;
            None
        }
    }

    /// Takes out what is stored under `key`.
    pub fn remove(&mut self, key: &K) -> (prior: Option<V>)
        ensures
            final(self)@ == old(self)@.remove(*key),
            match prior {
                Some(v) => old(self)@.dom().contains(*key) && v == old(self)@[*key],
                None => !old(self)@.dom().contains(*key),
            },
    {
        let (i, found) = self.locate(key);
        proof {
            use_type_invariant(&*self);
        }
        if found {
            let mut rows: Vec<(K, V)> = Vec::new();
            std::mem::swap(&mut rows, &mut self.rows);
            let ghost before = rows@;
            proof {
                lemma_rows_map_get(before, i as int);
                lemma_remove_row(before, i as int);
            }
            let prior = rows.remove(i);
            self.rows = rows;
            Some(prior.1)
        } else {
            proof {
                lemma_absent(self.rows@, i as int, *key);
                assert(self@.remove(*key) =~= self@);
            }
            None
        }
    }
}

proof fn lemma_absent<K: OrderedKey, V>(rows: Seq<(K, V)>, p: int, k: K)
    requires
        slot_for(rows, p, k),
    ensures
        !rows_map(rows).dom().contains(k),
{
    lemma_rows_map_dom(rows);
    if rows_map(rows).dom().contains(k) {
        let i = choose|i: int| 0 <= i < rows.len() && (#[trigger] rows[i]).0 == k;
        K::lemma_irreflexive(k);
    }
}

impl<K: OrderedKey, V> Default for OrderedMap<K, V> {
    fn default() -> (m: Self)
        ensures
            m@ == Map::<K, V>::empty(),
    {
        OrderedMap::new()
    }
}

impl<K: OrderedKey + Copy, V: Clone> Clone for OrderedMap<K, V> {
    fn clone(&self) -> (m: Self)
        ensures
            m@.dom() == self@.dom(),
            forall|k: K| #[trigger]
                self@.dom().contains(k) ==> vstd::pervasive::cloned(self@[k], m@[k]),
    {
        proof {
            use_type_invariant(self);
        }
        let mut rows: Vec<(K, V)> = Vec::new();
        let n: usize = self.rows.len();
        let mut i: usize = 0;
        while i < n
            invariant
                i <= n,
                n == self.rows@.len(),
                rows@.len() == i,
                forall|j: int|
                    0 <= j < i ==> (#[trigger] rows@[j]).0 == self.rows@[j].0
                        && vstd::pervasive::cloned(self.rows@[j].1, rows@[j].1),
            decreases n - i,
        {
            let v = self.rows[i].1.clone();
            rows.push((self.rows[i].0, v));
            i = i + 1;
        }
        proof {
            let a = self.rows@;
            let b = rows@;
            assert forall|x: int, y: int|
                #![trigger b[x], b[y]]
                0 <= x < y < b.len() implies b[x].0.before(b[y].0) by {
                assert(a[x].0.before(a[y].0));
            }
            lemma_rows_map_dom(a);
            lemma_rows_map_dom(b);
            assert forall|k: K| #[trigger] rows_map(a).dom().contains(k) implies rows_map(
                b,
            ).dom().contains(k) && vstd::pervasive::cloned(rows_map(a)[k], rows_map(b)[k]) by {
                let x = choose|x: int| 0 <= x < a.len() && (#[trigger] a[x]).0 == k;
                lemma_rows_map_get(a, x);
                assert(b[x].0 == k);
                lemma_rows_map_get(b, x);
            }
            assert forall|k: K| #[trigger] rows_map(b).dom().contains(k) implies rows_map(
                a,
            ).dom().contains(k) by {
                let x = choose|x: int| 0 <= x < b.len() && (#[trigger] b[x]).0 == k;
                assert(a[x].0 == k);
            }
            assert(rows_map(a).dom() =~= rows_map(b).dom());
        }
        OrderedMap { rows }
    }
}

/// A set that keeps its members in ascending order.
#[derive(Debug, PartialEq, Eq)]
pub struct OrderedSet<K: OrderedKey> {
    members: OrderedMap<K, ()>,
}

impl<K: OrderedKey> View for OrderedSet<K> {
    type V = Set<K>;

    closed spec fn view(&self) -> Set<K> {
        self.members@.dom()
    }
}

/// The map that sends every member of `s` to the unit value.
pub open spec fn unit_map<K>(s: Set<K>) -> Map<K, ()> {
    Map::new(|k: K| s.contains(k), |k: K| ())
}

impl<K: OrderedKey> OrderedSet<K> {
    /// An empty set.
    pub fn new() -> (s: Self)
        ensures
            s@ == Set::<K>::empty(),
    {
        let s = OrderedSet { members: OrderedMap::new() };
        assert(s@ =~= Set::empty());
        s
    }

    /// The number of members.
    pub fn len(&self) -> (n: usize)
        ensures
            n == self@.len(),
            self@.finite(),
    {
        self.members.len()
    }

    /// Whether the set has no member.
    pub fn is_empty(&self) -> (r: bool)
        ensures
            r == (self@ == Set::<K>::empty()),
    {
        let n: usize = self.len();
        proof {
            if n == 0 {
                assert(self@ =~= Set::empty());
            }
        }
        n == 0
    }

    /// Whether `key` is a member.
    pub fn contains(&self, key: &K) -> (r: bool)
        ensures
            r == self@.contains(*key),
    {
        self.members.contains_key(key)
    }

    /// Adds `key` and says whether it is new.
    pub fn insert(&mut self, key: K) -> (fresh: bool)
        ensures
            final(self)@ == old(self)@.insert(key),
            fresh == !old(self)@.contains(key),
    {
        let prior = self.members.insert(key, ());
        assert(self@ =~= old(self)@.insert(key));
        prior.is_none()
    }

    /// The members as rows of a map, in ascending order.
    pub fn as_rows(&self) -> (m: &OrderedMap<K, ()>)
        ensures
            m@ == unit_map(self@),
            m@.dom() == self@,
    {
        assert(self.members@ =~= unit_map(self@));
        &self.members
    }

    /// The set of the keys of `m`.
    pub fn from_rows(m: OrderedMap<K, ()>) -> (s: Self)
        ensures
            s@ == m@.dom(),
    {
        OrderedSet { members: m }
    }
}

impl<K: OrderedKey + Copy> Clone for OrderedSet<K> {
    fn clone(&self) -> (s: Self)
        ensures
            s@ == self@,
    {
        OrderedSet { members: self.members.clone() }
    }
}

impl<K: OrderedKey> Default for OrderedSet<K> {
    fn default() -> (s: Self)
        ensures
            s@ == Set::<K>::empty(),
    {
        OrderedSet::new()
    }
}

} // verus!
