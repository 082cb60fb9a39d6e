//! Fixed-width tables inside a record.
//!
//! A table is a version, a row count and then the rows in ascending key order,
//! all integers big-endian:
//!
//! ```text
//! u32(version) || u32(count) || row || row || ...
//! ```

use vstd::prelude::*;

use crate::bytes::{
    be_bytes, be_value, field, lemma_be_bytes_len, lemma_be_limits, lemma_be_round_trip,
    lemma_be_value_bound, push_be, read_be,
};
use crate::ordered::{
    ascending, lemma_rows_map_dom, lemma_sorted_rows, rows_map, sorted_rows,
    OrderedKey, OrderedMap,
};

verus! {

/// Bytes before the first row: the version and the row count.
pub const TABLE_HEADER_BYTES: usize = 8;

/// The rows of one kind of table.
pub trait RowFormat {
    /// Row keys.
    type Key: OrderedKey;

    /// Row values.
    type Value;

    /// The number of bytes in a row.
    spec fn width() -> nat;

    /// Whether a row is written at all.
    spec fn stored(key: Self::Key, value: Self::Value) -> bool;

    /// The bytes of a row.
    spec fn row_bytes(key: Self::Key, value: Self::Value) -> Seq<u8>;

    /// The row that `b` spells, or what is wrong with it.
    spec fn parse_row(b: Seq<u8>) -> Result<(Self::Key, Self::Value), &'static str>;

    /// What is said of a key that occurs twice, where that is an error.
    spec fn duplicate_reason() -> Option<&'static str>;

    proof fn lemma_width()
        ensures
            0 < Self::width() <= 1024,
    ;

    proof fn lemma_row_len(key: Self::Key, value: Self::Value)
        ensures
            Self::row_bytes(key, value).len() == Self::width(),
    ;

    proof fn lemma_row_round_trip(key: Self::Key, value: Self::Value)
        requires
            Self::stored(key, value),
        ensures
            Self::parse_row(Self::row_bytes(key, value)) == Ok::<
                (Self::Key, Self::Value),
                &'static str,
            >((key, value)),
    ;

    fn row_width() -> (w: usize)
        ensures
            w == Self::width(),
    ;

    fn is_stored(key: &Self::Key, value: &Self::Value) -> (r: bool)
        ensures
            r == Self::stored(*key, *value),
    ;

    fn push_row(out: &mut Vec<u8>, key: &Self::Key, value: &Self::Value)
        ensures
            final(out)@ == old(out)@ + Self::row_bytes(*key, *value),
    ;

    fn read_row(b: &[u8], at: usize) -> (r: Result<(Self::Key, Self::Value), &'static str>)
        requires
            at + Self::width() <= b@.len(),
        ensures
            r == Self::parse_row(field(b@, at as int, Self::width() as int)),
    ;

    fn on_duplicate() -> (r: Option<&'static str>)
        ensures
            r == Self::duplicate_reason(),
    ;
}

/// A record that holds one table.
pub trait Table: RowFormat {
    /// The encoding version.
    spec fn version() -> u32;

    /// What is said of a record shorter than its header.
    spec fn header_reason() -> &'static str;

    /// What is said of another version.
    spec fn version_reason() -> &'static str;

    /// What is said of a row count whose rows cannot be addressed.
    spec fn overflow_reason() -> &'static str;

    /// What is said of a record that is not as long as its row count asks.
    spec fn size_reason() -> &'static str;

    fn table_version() -> (v: u32)
        ensures
            v == Self::version(),
    ;

    fn on_header() -> (r: &'static str)
        ensures
            r == Self::header_reason(),
    ;

    fn on_version() -> (r: &'static str)
        ensures
            r == Self::version_reason(),
    ;

    fn on_overflow() -> (r: &'static str)
        ensures
            r == Self::overflow_reason(),
    ;

    fn on_size() -> (r: &'static str)
        ensures
            r == Self::size_reason(),
    ;
}

/// How many of `rows` are written.
pub open spec fn stored_count<T: RowFormat>(rows: Seq<(T::Key, T::Value)>) -> nat
    decreases rows.len(),
{
    if rows.len() == 0 {
        0
    } else {
        let here: nat = if T::stored(rows.last().0, rows.last().1) { 1 } else { 0 };
        stored_count::<T>(rows.drop_last()) + here
    }
}

/// The bytes of those of `rows` that are written, one after the other.
pub open spec fn rows_bytes<T: RowFormat>(rows: Seq<(T::Key, T::Value)>) -> Seq<u8>
    decreases rows.len(),
{
    if rows.len() == 0 {
        Seq::empty()
    } else {
        let (k, v) = rows.last();
        let here = if T::stored(k, v) { T::row_bytes(k, v) } else { Seq::empty() };
        rows_bytes::<T>(rows.drop_last()) + here
    }
}

/// The map that the first `n` rows of `b` from `start` on spell. A row that
/// cannot be read is an error, and so is a repeated key where the table says so.
pub open spec fn parse_rows<T: RowFormat>(b: Seq<u8>, start: int, n: nat) -> Result<
    Map<T::Key, T::Value>,
    &'static str,
>
    decreases n,
{
    if n == 0 {
        Ok(Map::empty())
    } else {
        match parse_rows::<T>(b, start, (n - 1) as nat) {
            Err(e) => Err(e),
            Ok(m) => match T::parse_row(
                field(b, start + (n - 1) * T::width(), T::width() as int),
            ) {
                Err(e) => Err(e),
                Ok((k, v)) => match T::duplicate_reason() {
                    Some(e) => if m.dom().contains(k) {
                        Err(e)
                    } else {
                        Ok(m.insert(k, v))
                    },
                    None => Ok(m.insert(k, v)),
                },
            },
        }
    }
}

/// The canonical encoding of `m`.
pub open spec fn table_bytes<T: Table>(m: Map<T::Key, T::Value>) -> Seq<u8> {
    be_bytes(T::version() as nat, 4) + be_bytes(stored_count::<T>(sorted_rows(m)), 4)
        + rows_bytes::<T>(sorted_rows(m))
}

/// The map that a record spells, or what is wrong with the record.
pub open spec fn parse_table<T: Table>(b: Seq<u8>) -> Result<Map<T::Key, T::Value>, &'static str> {
    if b.len() == 0 {
        Ok(Map::empty())
    } else if b.len() < TABLE_HEADER_BYTES {
        Err(T::header_reason())
    } else if be_value(field(b, 0, 4)) != T::version() {
        Err(T::version_reason())
    } else {
        let n = be_value(field(b, 4, 4));
        let size = TABLE_HEADER_BYTES + n * T::width();
        if size > usize::MAX {
            Err(T::overflow_reason())
        } else if b.len() != size {
            Err(T::size_reason())
        } else {
            parse_rows::<T>(b, TABLE_HEADER_BYTES as int, n)
        }
    }
}

/// The rows of `m` that are written.
pub open spec fn stored_part<T: RowFormat>(m: Map<T::Key, T::Value>) -> Map<T::Key, T::Value> {
    Map::new(|k: T::Key| m.dom().contains(k) && T::stored(k, m[k]), |k: T::Key| m[k])
}

spec fn kept_map<T: RowFormat>(rows: Seq<(T::Key, T::Value)>) -> Map<T::Key, T::Value>
    decreases rows.len(),
{
    if rows.len() == 0 {
        Map::empty()
    } else {
        let init = kept_map::<T>(rows.drop_last());
        if T::stored(rows.last().0, rows.last().1) {
            init.insert(rows.last().0, rows.last().1)
        } else {
            init
        }
    }
}

pub proof fn lemma_rows_bytes_len<T: RowFormat>(rows: Seq<(T::Key, T::Value)>)
    ensures
        rows_bytes::<T>(rows).len() == stored_count::<T>(rows) * T::width(),
        stored_count::<T>(rows) <= rows.len(),
    decreases rows.len(),
{
    if rows.len() > 0 {
        let init = rows.drop_last();
        lemma_rows_bytes_len::<T>(init);
        let (k, v) = rows.last();
        T::lemma_row_len(k, v);
        let c = stored_count::<T>(init);
        let w = T::width();
        assert((c + 1) * w == c * w + w) by (nonlinear_arith);
    } else {
        assert(0 * T::width() == 0) by (nonlinear_arith);
    }
}

proof fn lemma_kept_dom<T: RowFormat>(rows: Seq<(T::Key, T::Value)>)
    ensures
        forall|k: T::Key| #[trigger]
            kept_map::<T>(rows).dom().contains(k) ==> exists|i: int|
                0 <= i < rows.len() && (#[trigger] rows[i]).0 == k,
    decreases rows.len(),
{
    if rows.len() > 0 {
        let init = rows.drop_last();
        lemma_kept_dom::<T>(init);
        assert forall|k: T::Key| #[trigger] kept_map::<T>(rows).dom().contains(k) implies exists|
            i: int,
        | 0 <= i < rows.len() && (#[trigger] rows[i]).0 == k by {
            if kept_map::<T>(init).dom().contains(k) {
                let i = choose|i: int| 0 <= i < init.len() && (#[trigger] init[i]).0 == k;
                assert(rows[i].0 == k);
            } else {
                assert(rows[rows.len() - 1].0 == k);
            }
        }
    }
}

proof fn lemma_ascending_init<K: OrderedKey, V>(rows: Seq<(K, V)>)
    requires
        ascending(rows),
        rows.len() > 0,
    ensures
        ascending(rows.drop_last()),
{
    let init = rows.drop_last();
    assert forall|x: int, y: int|
        #![trigger init[x], init[y]]
        0 <= x < y < init.len() implies init[x].0.before(init[y].0) by {
        assert(rows[x].0.before(rows[y].0));
    }
}

proof fn lemma_kept_map<T: RowFormat>(rows: Seq<(T::Key, T::Value)>)
    requires
        ascending(rows),
    ensures
        kept_map::<T>(rows) == stored_part::<T>(rows_map(rows)),
    decreases rows.len(),
{
    if rows.len() > 0 {
        let init = rows.drop_last();
        let last = rows.last();
        lemma_ascending_init(rows);
        lemma_kept_map::<T>(init);
        lemma_rows_map_dom(init);
        assert(!rows_map(init).dom().contains(last.0)) by {
            if rows_map(init).dom().contains(last.0) {
                let i = choose|i: int| 0 <= i < init.len() && (#[trigger] init[i]).0 == last.0;
                assert(rows[i].0.before(rows[rows.len() - 1].0));
                T::Key::lemma_irreflexive(last.0);
            }
        }
    }
    assert(kept_map::<T>(rows) =~= stored_part::<T>(rows_map(rows)));
}

/// Reading the bytes of ascending rows, wherever they stand, gives the rows back.
pub proof fn lemma_parse_rows<T: RowFormat>(b: Seq<u8>, start: int, rows: Seq<(T::Key, T::Value)>)
    requires
        ascending(rows),
        0 <= start,
        start + rows_bytes::<T>(rows).len() <= b.len(),
        b.subrange(start, start + rows_bytes::<T>(rows).len()) == rows_bytes::<T>(rows),
    ensures
        parse_rows::<T>(b, start, stored_count::<T>(rows)) == Ok::<
            Map<T::Key, T::Value>,
            &'static str,
        >(stored_part::<T>(rows_map(rows))),
{
    lemma_parse_kept::<T>(b, start, rows);
    lemma_kept_map::<T>(rows);
}

proof fn lemma_parse_kept<T: RowFormat>(b: Seq<u8>, start: int, rows: Seq<(T::Key, T::Value)>)
    requires
        ascending(rows),
        0 <= start,
        start + rows_bytes::<T>(rows).len() <= b.len(),
        b.subrange(start, start + rows_bytes::<T>(rows).len()) == rows_bytes::<T>(rows),
    ensures
        parse_rows::<T>(b, start, stored_count::<T>(rows)) == Ok::<
            Map<T::Key, T::Value>,
            &'static str,
        >(kept_map::<T>(rows)),
    decreases rows.len(),
{
    if rows.len() > 0 {
        let init = rows.drop_last();
        let (k, v) = rows.last();
        let w = T::width() as int;
        let c = stored_count::<T>(init);
        let whole = rows_bytes::<T>(rows);
        let part = rows_bytes::<T>(init);
        lemma_ascending_init(rows);
        lemma_rows_bytes_len::<T>(init);
        lemma_rows_bytes_len::<T>(rows);
        assert(b.subrange(start, start + part.len()) =~= part) by {
            assert(part =~= whole.subrange(0, part.len() as int));
            assert(b.subrange(start, start + part.len()) =~= b.subrange(
                start,
                start + whole.len(),
            ).subrange(0, part.len() as int));
        }
        lemma_parse_kept::<T>(b, start, init);
        if T::stored(k, v) {
            T::lemma_row_len(k, v);
            T::lemma_row_round_trip(k, v);
            assert(field(b, start + c * w, w) =~= T::row_bytes(k, v)) by {
                assert(part.len() == c * w);
                assert(whole.subrange(part.len() as int, whole.len() as int) =~= T::row_bytes(
                    k,
                    v,
                ));
                assert(field(b, start + c * w, w) =~= b.subrange(
                    start,
                    start + whole.len(),
                ).subrange(part.len() as int, whole.len() as int));
            }
            lemma_kept_dom::<T>(init);
            assert(!kept_map::<T>(init).dom().contains(k)) by {
                if kept_map::<T>(init).dom().contains(k) {
                    let i = choose|i: int| 0 <= i < init.len() && (#[trigger] init[i]).0 == k;
                    assert(rows[i].0.before(rows[rows.len() - 1].0));
                    T::Key::lemma_irreflexive(k);
                }
            }
        }
    }
}

/// Reading back a written table gives its written rows.
pub proof fn lemma_table_round_trip<T: Table>(m: Map<T::Key, T::Value>)
    requires
        m.dom().finite(),
        m.dom().len() <= u32::MAX,
        table_bytes::<T>(m).len() <= usize::MAX,
    ensures
        parse_table::<T>(table_bytes::<T>(m)) == Ok::<Map<T::Key, T::Value>, &'static str>(
            stored_part::<T>(m),
        ),
{
    let rows = sorted_rows(m);
    let b = table_bytes::<T>(m);
    let n = stored_count::<T>(rows);
    let body = rows_bytes::<T>(rows);
    lemma_sorted_rows(m);
    lemma_rows_bytes_len::<T>(rows);
    lemma_be_limits();
    lemma_be_round_trip(T::version() as nat, 4);
    lemma_be_round_trip(n, 4);
    assert(field(b, 0, 4) =~= be_bytes(T::version() as nat, 4));
    assert(field(b, 4, 4) =~= be_bytes(n, 4));
    assert(b.subrange(8, 8int + body.len()) =~= body);
    lemma_parse_rows::<T>(b, 8, rows);
}

/// Whether `m` is small enough for its row count and its size to be written.
pub open spec fn fits<T: RowFormat>(m: Map<T::Key, T::Value>) -> bool {
    &&& m.dom().finite()
    &&& m.dom().len() <= u32::MAX
    &&& TABLE_HEADER_BYTES + m.dom().len() * T::width() <= usize::MAX
}

/// Whether `m` has room for one more row.
pub open spec fn has_room<T: RowFormat>(m: Map<T::Key, T::Value>) -> bool {
    &&& m.dom().len() < u32::MAX
    &&& TABLE_HEADER_BYTES + (m.dom().len() + 1) * T::width() <= usize::MAX
}

proof fn lemma_parsed_rows<T: RowFormat>(b: Seq<u8>, start: int, n: nat)
    ensures
        parse_rows::<T>(b, start, n) matches Ok(m) ==> m.dom().finite() && m.dom().len() <= n,
    decreases n,
{
    if n > 0 {
        lemma_parsed_rows::<T>(b, start, (n - 1) as nat);
    }
}

proof fn lemma_parsed_rows_stored<T: RowFormat>(b: Seq<u8>, start: int, n: nat)
    requires
        0 <= start,
        start + n * T::width() <= b.len(),
        forall|row: Seq<u8>|
            row.len() == T::width() && (#[trigger] T::parse_row(row)) is Ok ==> T::stored(
                T::parse_row(row)->Ok_0.0,
                T::parse_row(row)->Ok_0.1,
            ),
    ensures
        parse_rows::<T>(b, start, n) matches Ok(m) ==> forall|k: T::Key| #[trigger]
            m.dom().contains(k) ==> T::stored(k, m[k]),
    decreases n,
{
    if n > 0 {
        let at = start + (n - 1) * T::width();
        assert(at + T::width() == start + n * T::width() && at >= start) by (nonlinear_arith)
            requires
                at == start + (n - 1) * T::width(),
                n > 0,
        ;
        lemma_parsed_rows_stored::<T>(b, start, (n - 1) as nat);
        assert(field(b, at, T::width() as int).len() == T::width());
    }
}

/// Where only rows that would be written can be read, a table that was read has
/// no others.
pub proof fn lemma_parsed_table_stored<T: Table>(b: Seq<u8>)
    requires
        forall|row: Seq<u8>|
            row.len() == T::width() && (#[trigger] T::parse_row(row)) is Ok ==> T::stored(
                T::parse_row(row)->Ok_0.0,
                T::parse_row(row)->Ok_0.1,
            ),
    ensures
        parse_table::<T>(b) matches Ok(m) ==> forall|k: T::Key| #[trigger]
            m.dom().contains(k) ==> T::stored(k, m[k]),
{
    if b.len() != 0 && parse_table::<T>(b) is Ok {
        lemma_parsed_rows_stored::<T>(b, TABLE_HEADER_BYTES as int, be_value(field(b, 4, 4)));
    }
}

/// A table that was read is small enough to be written.
pub proof fn lemma_parsed_table_fits<T: Table>(b: Seq<u8>)
    ensures
        parse_table::<T>(b) matches Ok(m) ==> fits::<T>(m),
{
    lemma_be_limits();
    lemma_be_value_bound(field(b, 4, 4));
    let n = be_value(field(b, 4, 4));
    lemma_parsed_rows::<T>(b, TABLE_HEADER_BYTES as int, n);
    if let Ok(m) = parse_table::<T>(b) {
        if b.len() != 0 {
            assert(m.dom().len() * T::width() <= n * T::width()) by (nonlinear_arith)
                requires
                    m.dom().len() <= n,
            ;
        } else {
            assert(m.dom().len() * T::width() == 0) by (nonlinear_arith)
                requires
                    m.dom().len() == 0,
            ;
        }
    }
}

/// A table that fits is read back as its written rows.
pub proof fn lemma_fitting_table_round_trip<T: Table>(m: Map<T::Key, T::Value>)
    requires
        fits::<T>(m),
    ensures
        parse_table::<T>(table_bytes::<T>(m)) == Ok::<Map<T::Key, T::Value>, &'static str>(
            stored_part::<T>(m),
        ),
        table_bytes::<T>(m).len() >= TABLE_HEADER_BYTES,
{
    let rows = sorted_rows(m);
    lemma_sorted_rows(m);
    lemma_rows_bytes_len::<T>(rows);
    lemma_be_bytes_len(T::version() as nat, 4);
    lemma_be_bytes_len(stored_count::<T>(rows), 4);
    assert(stored_count::<T>(rows) * T::width() <= rows.len() * T::width()) by (nonlinear_arith)
        requires
            stored_count::<T>(rows) <= rows.len(),
    ;
    lemma_table_round_trip::<T>(m);
}

/// Where every row is written, all of them are counted and none is left out.
pub proof fn lemma_all_stored<T: RowFormat>(m: Map<T::Key, T::Value>)
    requires
        m.dom().finite(),
        forall|k: T::Key, v: T::Value| #[trigger] T::stored(k, v),
    ensures
        stored_count::<T>(sorted_rows(m)) == m.dom().len(),
        stored_part::<T>(m) == m,
{
    lemma_sorted_rows(m);
    lemma_all_counted::<T>(sorted_rows(m));
    assert(stored_part::<T>(m) =~= m);
}

proof fn lemma_all_counted<T: RowFormat>(rows: Seq<(T::Key, T::Value)>)
    requires
        forall|k: T::Key, v: T::Value| #[trigger] T::stored(k, v),
    ensures
        stored_count::<T>(rows) == rows.len(),
    decreases rows.len(),
{
    if rows.len() > 0 {
        lemma_all_counted::<T>(rows.drop_last());
    }
}

/// Appends the rows of `map` that are written.
pub fn push_rows<T: RowFormat>(out: &mut Vec<u8>, map: &OrderedMap<T::Key, T::Value>)
    ensures
        final(out)@ == old(out)@ + rows_bytes::<T>(sorted_rows(map@)),
{
    let rows = map.entries();
    let n: usize = rows.len();
    let mut i: usize = 0;
    assert(out@ =~= old(out)@ + rows_bytes::<T>(rows@.take(0)));
    while i < n
        invariant
            i <= n,
            n == rows@.len(),
            out@ == old(out)@ + rows_bytes::<T>(rows@.take(i as int)),
        decreases n - i,
    {
        assert(rows@.take(i + 1).drop_last() =~= rows@.take(i as int));
        assert(rows@.take(i + 1).last() == rows@[i as int]);
        if T::is_stored(&rows[i].0, &rows[i].1) {
            T::push_row(out, &rows[i].0, &rows[i].1);
        }
        i = i + 1;
        assert(out@ =~= old(out)@ + rows_bytes::<T>(rows@.take(i as int)));
    }
    assert(rows@.take(n as int) =~= rows@);
}

/// Counts the rows of `map` that are written.
pub fn count_stored<T: RowFormat>(map: &OrderedMap<T::Key, T::Value>) -> (c: usize)
    ensures
        c == stored_count::<T>(sorted_rows(map@)),
{
    let rows = map.entries();
    let n: usize = rows.len();
    let mut i: usize = 0;
    let mut c: usize = 0;
    while i < n
        invariant
            i <= n,
            n == rows@.len(),
            c <= i,
            c == stored_count::<T>(rows@.take(i as int)),
        decreases n - i,
    {
        assert(rows@.take(i + 1).drop_last() =~= rows@.take(i as int));
        assert(rows@.take(i + 1).last() == rows@[i as int]);
        if T::is_stored(&rows[i].0, &rows[i].1) {
            c = c + 1;
        }
        i = i + 1;
    }
    assert(rows@.take(n as int) =~= rows@);
    c
}

/// Encodes a table.
pub fn encode_table<T: Table>(map: &OrderedMap<T::Key, T::Value>) -> (out: Vec<u8>)
    ensures
        out@ == table_bytes::<T>(map@),
{
    let mut out: Vec<u8> = Vec::new();
    push_be(&mut out, T::table_version() as u128, 4);
    let count: usize = count_stored::<T>(map);
    push_be(&mut out, count as u128, 4);
    push_rows::<T>(&mut out, map);
    assert(out@ =~= table_bytes::<T>(map@));
    out
}

/// Reads `n` rows from `start` on.
pub fn read_rows<T: RowFormat>(b: &[u8], start: usize, n: usize) -> (r: Result<
    OrderedMap<T::Key, T::Value>,
    &'static str,
>)
    requires
        start + n * T::width() <= b@.len(),
    ensures
        match r {
            Ok(m) => parse_rows::<T>(b@, start as int, n as nat) == Ok::<
                Map<T::Key, T::Value>,
                &'static str,
            >(m@),
            Err(e) => parse_rows::<T>(b@, start as int, n as nat) == Err::<
                Map<T::Key, T::Value>,
                &'static str,
            >(e),
        },
{
    let len: usize = b.len();
    let w: usize = T::row_width();
    let mut map = OrderedMap::<T::Key, T::Value>::new();
    let mut i: usize = 0;
    let mut at: usize = start;
    assert(0 * T::width() == 0) by (nonlinear_arith);
    while i < n
        invariant
            i <= n,
            w == T::width(),
            len == b@.len(),
            start + n * T::width() <= len,
            at == start + i * T::width(),
            parse_rows::<T>(b@, start as int, i as nat) == Ok::<
                Map<T::Key, T::Value>,
                &'static str,
            >(map@),
        decreases n - i,
    {
        proof {
            let wi = T::width() as int;
            assert((i + 1) * wi == i * wi + wi) by (nonlinear_arith);
            assert((i + 1) * wi <= n * wi) by (nonlinear_arith)
                requires
                    i + 1 <= n,
                    0 <= wi,
            ;
        }
        let ghost before = map@;
        match T::read_row(b, at) {
            Err(e) => {
                proof {
                    lemma_parse_error::<T>(b@, start as int, (i + 1) as nat, n as nat, e);
                }
                return Err(e);
            },
            Ok((k, v)) => {
                let ghost key = k;
                let prior = map.insert(k, v);
                match T::on_duplicate() {
                    Some(e) => {
                        if prior.is_some() {
                            proof {
                                lemma_parse_error::<T>(
                                    b@,
                                    start as int,
                                    (i + 1) as nat,
                                    n as nat,
                                    e,
                                );
                            }
                            return Err(e);
                        }
                    },
                    None => {},
                }
            },
        }
        i = i + 1;
        at = at + w;
    }
    Ok(map)
}

/// An error among the first rows is the error of all the rows.
proof fn lemma_parse_error<T: RowFormat>(b: Seq<u8>, start: int, i: nat, n: nat, e: &'static str)
    requires
        i <= n,
        parse_rows::<T>(b, start, i) == Err::<Map<T::Key, T::Value>, &'static str>(e),
    ensures
        parse_rows::<T>(b, start, n) == Err::<Map<T::Key, T::Value>, &'static str>(e),
    decreases n,
{
    if i < n {
        lemma_parse_error::<T>(b, start, i, (n - 1) as nat, e);
    }
}

/// Decodes a table.
pub fn decode_table<T: Table>(b: &[u8]) -> (r: Result<OrderedMap<T::Key, T::Value>, &'static str>)
    ensures
        match r {
            Ok(m) => parse_table::<T>(b@) == Ok::<Map<T::Key, T::Value>, &'static str>(m@),
            Err(e) => parse_table::<T>(b@) == Err::<Map<T::Key, T::Value>, &'static str>(e),
        },
{
    let len: usize = b.len();
    if len == 0 {
        return Ok(OrderedMap::new());
    }
    if len < TABLE_HEADER_BYTES {
        return Err(T::on_header());
    }
    let version: u128 = read_be(b, 0, 4);
    if version != T::table_version() as u128 {
        return Err(T::on_version());
    }
    proof {
        lemma_be_limits();
        T::lemma_width();
    }
    let n: u128 = read_be(b, 4, 4);
    let w: u128 = T::row_width() as u128;
    assert(n * w <= 0x1_0000_0000 * 1024) by (nonlinear_arith)
        requires
            n < 0x1_0000_0000,
            w <= 1024,
    ;
    let size: u128 = TABLE_HEADER_BYTES as u128 + n * w;
    if size > usize::MAX as u128 {
        return Err(T::on_overflow());
    }
    if len as u128 != size {
        return Err(T::on_size());
    }
    assert(n <= n * w) by (nonlinear_arith)
        requires
            1 <= w,
            0 <= n,
    ;
    read_rows::<T>(b, TABLE_HEADER_BYTES, n as usize)
}

} // verus!
