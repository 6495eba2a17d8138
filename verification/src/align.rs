//! Row alignment for frames: index columns, their ordering, and the row
//! selection behind exact joins (`reindex_by`/mapr), as-of joins (`asofr`),
//! calendar shifts and row thinning. A selection gives, for every output row,
//! the source row it takes its values from, or `None` for an NA row.

use vstd::prelude::*;
use std::sync::Arc;
use std::collections::HashMap;

verus! {

broadcast use {vstd::std_specs::hash::group_hash_axioms, vstd::utf8::encode_utf8_decode_utf8};

/// Index column: Date, Timestamp, or String rownames.
#[derive(Debug, Clone)]
pub enum IndexColumn {
    /// Days since epoch.
    Date(Arc<Vec<i32>>),
    /// Nanoseconds since epoch.
    Timestamp(Arc<Vec<i64>>),
    /// Generic rownames.
    String(Arc<Vec<String>>),
}

/// A single index value.
#[derive(Debug, Clone, PartialEq, Eq, Hash)]
pub enum IndexKey {
    Date(i32),
    Timestamp(i64),
    String(String),
}

/// The value of a key as used for comparisons: a number or the UTF-8 bytes of a name.
pub ghost enum KeyV {
    Int(int),
    Str(Seq<u8>),
}

/// Byte-wise lexicographic order (the order of `str`).
pub open spec fn lex_le(a: Seq<u8>, b: Seq<u8>) -> bool
    decreases a.len(),
{
    if a.len() == 0 {
        true
    } else if b.len() == 0 {
        false
    } else if a[0] != b[0] {
        a[0] < b[0]
    } else {
        lex_le(a.drop_first(), b.drop_first())
    }
}

/// Order on key values of one kind; values of different kinds are unordered.
pub open spec fn kv_le(a: KeyV, b: KeyV) -> bool {
    match (a, b) {
        (KeyV::Int(x), KeyV::Int(y)) => x <= y,
        (KeyV::Str(x), KeyV::Str(y)) => lex_le(x, y),
        _ => false,
    }
}

pub open spec fn str_key(s: String) -> KeyV {
    KeyV::Str(vstd::utf8::encode_utf8(s@))
}

/// The kind of an index column: 0 date, 1 timestamp, 2 string.
pub open spec fn col_tag(c: IndexColumn) -> int {
    match c {
        IndexColumn::Date(_) => 0,
        IndexColumn::Timestamp(_) => 1,
        IndexColumn::String(_) => 2,
    }
}

/// The keys of an index column, in row order.
pub open spec fn col_keys(c: IndexColumn) -> Seq<KeyV> {
    match c {
        IndexColumn::Date(v) => v@.map_values(|d: i32| KeyV::Int(d as int)),
        IndexColumn::Timestamp(v) => v@.map_values(|t: i64| KeyV::Int(t as int)),
        IndexColumn::String(v) => v@.map_values(|s: String| str_key(s)),
    }
}

/// The key of a single index value.
pub open spec fn key_view(k: IndexKey) -> (int, KeyV) {
    match k {
        IndexKey::Date(d) => (0, KeyV::Int(d as int)),
        IndexKey::Timestamp(t) => (1, KeyV::Int(t as int)),
        IndexKey::String(s) => (2, str_key(s)),
    }
}

/// Adjacent keys are in order.
pub open spec fn keys_sorted(ks: Seq<KeyV>) -> bool {
    forall|i: int| 0 <= i < ks.len() - 1 ==> kv_le(#[trigger] ks[i], ks[i + 1])
}

/// The last position whose key equals `k`.
pub open spec fn last_match(ks: Seq<KeyV>, k: KeyV) -> Option<nat>
    decreases ks.len(),
{
    if ks.len() == 0 {
        None
    } else if ks.last() == k {
        Some((ks.len() - 1) as nat)
    } else {
        last_match(ks.drop_last(), k)
    }
}

/// Scanning the first `n` keys, the position of the greatest key at or before `y`,
/// the later one among equal greatest keys.
pub open spec fn asof_best(ks: Seq<KeyV>, y: KeyV, n: nat) -> Option<nat>
    decreases n,
{
    if n == 0 {
        None
    } else {
        let prev = asof_best(ks, y, (n - 1) as nat);
        let j = (n - 1) as nat;
        if kv_le(ks[j as int], y) && (prev is None || kv_le(ks[prev->0 as int], ks[j as int])) {
            Some(j)
        } else {
            prev
        }
    }
}

/// The as-of match of `y` among `ks`: the position of the greatest key at or
/// before `y` (the last among equal ones), or None when every key is after `y`.
pub open spec fn asof_match(ks: Seq<KeyV>, y: KeyV) -> Option<nat> {
    asof_best(ks, y, ks.len())
}

/// Exact-join selection: each target row takes the last source row with its key.
pub open spec fn spec_reindex_rows(source: IndexColumn, target: IndexColumn) -> Seq<Option<nat>> {
    Seq::new(
        col_keys(target).len(),
        |i: int|
            if col_tag(source) == col_tag(target) {
                last_match(col_keys(source), col_keys(target)[i])
            } else {
                None
            },
    )
}

/// As-of-join selection: each y row takes the as-of match of its key among x's keys.
pub open spec fn spec_asof_rows(x: IndexColumn, y: IndexColumn) -> Seq<Option<nat>> {
    Seq::new(
        col_keys(y).len(),
        |i: int|
            if col_tag(x) == col_tag(y) {
                asof_match(col_keys(x), col_keys(y)[i])
            } else {
                None
            },
    )
}

/// A selection as a sequence of optional row numbers.
pub open spec fn rows_view(rows: Seq<Option<usize>>) -> Seq<Option<nat>> {
    rows.map_values(|r: Option<usize>| row_view(r))
}


// ─── Order lemmas ───────────────────────────────────────────────────────────

pub proof fn lemma_lex_refl(a: Seq<u8>)
    ensures
        lex_le(a, a),
    decreases a.len(),
{
    if a.len() > 0 {
        lemma_lex_refl(a.drop_first());
    }
}

pub proof fn lemma_lex_trans(a: Seq<u8>, b: Seq<u8>, c: Seq<u8>)
    requires
        lex_le(a, b),
        lex_le(b, c),
    ensures
        lex_le(a, c),
    decreases a.len(),
{
    if a.len() > 0 && b.len() > 0 && c.len() > 0 && a[0] == b[0] && b[0] == c[0] {
        lemma_lex_trans(a.drop_first(), b.drop_first(), c.drop_first());
    }
}

pub proof fn lemma_lex_total(a: Seq<u8>, b: Seq<u8>)
    ensures
        lex_le(a, b) || lex_le(b, a),
    decreases a.len(),
{
    if a.len() > 0 && b.len() > 0 && a[0] == b[0] {
        lemma_lex_total(a.drop_first(), b.drop_first());
    }
}

pub proof fn lemma_lex_antisym(a: Seq<u8>, b: Seq<u8>)
    requires
        lex_le(a, b),
        lex_le(b, a),
    ensures
        a == b,
    decreases a.len(),
{
    if a.len() > 0 && b.len() > 0 {
        lemma_lex_antisym(a.drop_first(), b.drop_first());
        assert(a =~= seq![a[0]] + a.drop_first());
        assert(b =~= seq![b[0]] + b.drop_first());
    }
}

pub proof fn lemma_kv_refl(a: KeyV)
    ensures
        kv_le(a, a),
{
    if let KeyV::Str(x) = a {
        lemma_lex_refl(x);
    }
}

pub proof fn lemma_kv_trans(a: KeyV, b: KeyV, c: KeyV)
    requires
        kv_le(a, b),
        kv_le(b, c),
    ensures
        kv_le(a, c),
{
    if let (KeyV::Str(x), KeyV::Str(y), KeyV::Str(z)) = (a, b, c) {
        lemma_lex_trans(x, y, z);
    }
}

/// Two keys that are both comparable with a third are comparable with each other.
pub proof fn lemma_kv_total_via(a: KeyV, b: KeyV, y: KeyV)
    requires
        kv_le(a, y),
        kv_le(b, y),
    ensures
        kv_le(a, b) || kv_le(b, a),
{
    if let (KeyV::Str(x), KeyV::Str(z)) = (a, b) {
        lemma_lex_total(x, z);
    }
}

pub proof fn lemma_kv_antisym(a: KeyV, b: KeyV)
    requires
        kv_le(a, b),
        kv_le(b, a),
    ensures
        a == b,
{
    if let (KeyV::Str(x), KeyV::Str(z)) = (a, b) {
        lemma_lex_antisym(x, z);
    }
}

/// In a sorted key sequence every earlier key is at or before every later one.
pub proof fn lemma_sorted_le(ks: Seq<KeyV>, i: int, j: int)
    requires
        keys_sorted(ks),
        0 <= i <= j < ks.len(),
    ensures
        kv_le(ks[i], ks[j]),
    decreases j - i,
{
    if i == j {
        lemma_kv_refl(ks[i]);
    } else {
        lemma_sorted_le(ks, i, j - 1);
        assert(kv_le(ks[j - 1], ks[j]));
        lemma_kv_trans(ks[i], ks[j - 1], ks[j]);
    }
}

// ─── What the as-of scan picks ──────────────────────────────────────────────

/// The as-of scan over the first `n` keys picks a key at or before `y` that no
/// other such key exceeds, the last of the keys equal to it; it picks nothing
/// only when no key is at or before `y`.
pub proof fn lemma_asof_best(ks: Seq<KeyV>, y: KeyV, n: nat)
    requires
        n <= ks.len(),
    ensures
        match asof_best(ks, y, n) {
            Some(p) => {
                &&& p < n
                &&& kv_le(ks[p as int], y)
                &&& forall|q: int| 0 <= q < n && kv_le(#[trigger] ks[q], y) ==> kv_le(ks[q], ks[p as int])
                &&& forall|q: int| 0 <= q < n && kv_le(#[trigger] ks[q], y) && kv_le(ks[p as int], ks[q]) ==> q <= p
            },
            None => forall|q: int| 0 <= q < n ==> !kv_le(#[trigger] ks[q], y),
        },
    decreases n,
{
    if n > 0 {
        let m = (n - 1) as nat;
        lemma_asof_best(ks, y, m);
        let prev = asof_best(ks, y, m);
        let j = m as int;
        if kv_le(ks[j], y) && (prev is None || kv_le(ks[prev->0 as int], ks[j])) {
            lemma_kv_refl(ks[j]);
            assert forall|q: int| 0 <= q < n && kv_le(#[trigger] ks[q], y) implies kv_le(ks[q], ks[j]) by {
                if q < j {
                    let p = prev->0 as int;
                    lemma_kv_trans(ks[q], ks[p], ks[j]);
                }
            }
        } else if kv_le(ks[j], y) {
            let p = prev->0 as int;
            lemma_kv_total_via(ks[p], ks[j], y);
        }
    }
}

/// Last position among the first `n` whose key is at or before `y`.
pub open spec fn last_at_or_before(ks: Seq<KeyV>, y: KeyV, n: nat) -> Option<nat>
    decreases n,
{
    if n == 0 {
        None
    } else if kv_le(ks[n - 1], y) {
        Some((n - 1) as nat)
    } else {
        last_at_or_before(ks, y, (n - 1) as nat)
    }
}

/// On sorted keys the as-of match is the last key at or before `y`.
pub proof fn lemma_asof_sorted(ks: Seq<KeyV>, y: KeyV, n: nat)
    requires
        keys_sorted(ks),
        n <= ks.len(),
    ensures
        asof_best(ks, y, n) == last_at_or_before(ks, y, n),
    decreases n,
{
    if n > 0 {
        lemma_asof_sorted(ks, y, (n - 1) as nat);
        let prev = asof_best(ks, y, (n - 1) as nat);
        lemma_asof_best(ks, y, (n - 1) as nat);
        if let Some(p) = prev {
            lemma_sorted_le(ks, p as int, n - 1);
        }
    }
}

/// `last_at_or_before` from a position that is at or before `y` and after which
/// no key of the first `n` is.
pub proof fn lemma_last_at_or_before_char(ks: Seq<KeyV>, y: KeyV, n: nat, p: Option<nat>)
    requires
        n <= ks.len(),
        match p {
            Some(p) => p < n && kv_le(ks[p as int], y) && forall|q: int|
                p < q < n ==> !kv_le(#[trigger] ks[q], y),
            None => forall|q: int| 0 <= q < n ==> !kv_le(#[trigger] ks[q], y),
        },
    ensures
        last_at_or_before(ks, y, n) == p,
    decreases n,
{
    if n > 0 {
        if p != Some((n - 1) as nat) {
            lemma_last_at_or_before_char(ks, y, (n - 1) as nat, p);
        }
    }
}

/// The last position whose key equals `k`, described without recursion.
pub proof fn lemma_last_match(ks: Seq<KeyV>, k: KeyV)
    ensures
        match last_match(ks, k) {
            Some(p) => p < ks.len() && ks[p as int] == k && forall|q: int|
                p < q < ks.len() ==> #[trigger] ks[q] != k,
            None => forall|q: int| 0 <= q < ks.len() ==> #[trigger] ks[q] != k,
        },
    decreases ks.len(),
{
    if ks.len() > 0 && ks.last() != k {
        let d = ks.drop_last();
        lemma_last_match(d, k);
        assert(last_match(ks, k) == last_match(d, k));
        match last_match(d, k) {
            Some(p) => {
                assert forall|q: int| p < q < ks.len() implies #[trigger] ks[q] != k by {
                    if q < d.len() {
                        assert(d[q] == ks[q]);
                    }
                }
            },
            None => {
                assert forall|q: int| 0 <= q < ks.len() implies #[trigger] ks[q] != k by {
                    if q < d.len() {
                        assert(d[q] == ks[q]);
                    }
                }
            },
        }
    }
}

/// `last_match` on a one-longer prefix.
pub proof fn lemma_last_match_push(ks: Seq<KeyV>, i: int, k: KeyV)
    requires
        0 <= i < ks.len(),
    ensures
        last_match(ks.take(i + 1), k) == (if ks[i] == k {
            Some(i as nat)
        } else {
            last_match(ks.take(i), k)
        }),
{
    assert(ks.take(i + 1).drop_last() =~= ks.take(i));
}

// ─── Index columns ──────────────────────────────────────────────────────────

impl IndexColumn {
    /// Number of rows.
    pub fn len(&self) -> (n: usize)
        ensures
            n == col_keys(*self).len(),
    {
        match self {
            IndexColumn::Date(v) => v.len(),
            IndexColumn::Timestamp(v) => v.len(),
            IndexColumn::String(v) => v.len(),
        }
    }

    /// Whether the column has no rows.
    pub fn is_empty(&self) -> (b: bool)
        ensures
            b == (col_keys(*self).len() == 0),
    {
        self.len() == 0
    }

    /// Index value at a row, as a key.
    pub fn get(&self, idx: usize) -> (r: Option<IndexKey>)
        ensures
            match r {
                Some(k) => idx < col_keys(*self).len() && key_view(k) == (
                    col_tag(*self),
                    col_keys(*self)[idx as int],
                ),
                None => idx >= col_keys(*self).len(),
            },
    {
        match self {
            IndexColumn::Date(v) => {
                if idx < v.len() {
                    Some(IndexKey::Date(v[idx]))
                } else {
                    None
                }
            },
            IndexColumn::Timestamp(v) => {
                if idx < v.len() {
                    Some(IndexKey::Timestamp(v[idx]))
                } else {
                    None
                }
            },
            IndexColumn::String(v) => {
                if idx < v.len() {
                    Some(IndexKey::String(v[idx].clone()))
                } else {
                    None
                }
            },
        }
    }
}

/// Byte-wise `<=`.
pub(crate) fn bytes_le(a: &[u8], b: &[u8]) -> (r: bool)
    ensures
        r == lex_le(a@, b@),
{
    let mut i: usize = 0;
    assert(a@.skip(0) =~= a@);
    assert(b@.skip(0) =~= b@);
    while i < a.len() && i < b.len()
        invariant
            i <= a@.len(),
            i <= b@.len(),
            lex_le(a@, b@) == lex_le(a@.skip(i as int), b@.skip(i as int)),
        decreases a.len() - i,
    {
        if a[i] != b[i] {
            assert(a@.skip(i as int)[0] == a@[i as int]);
            assert(b@.skip(i as int)[0] == b@[i as int]);
            return a[i] < b[i];
        }
        assert(a@.skip(i as int)[0] == b@.skip(i as int)[0]);
        assert(a@.skip(i as int).drop_first() =~= a@.skip(i + 1));
        assert(b@.skip(i as int).drop_first() =~= b@.skip(i + 1));
        i += 1;
    }
    a.len() <= b.len()
}

/// `<=` on strings (the order of their UTF-8 bytes).
pub(crate) fn string_le(a: &String, b: &String) -> (r: bool)
    ensures
        r == lex_le(vstd::utf8::encode_utf8(a@), vstd::utf8::encode_utf8(b@)),
{
    bytes_le(a.as_str().as_bytes(), b.as_str().as_bytes())
}

/// Compare two index keys (`<=`); keys of different kinds are unordered.
pub fn index_key_le(a: &IndexKey, b: &IndexKey) -> (r: bool)
    ensures
        r == (key_view(*a).0 == key_view(*b).0 && kv_le(key_view(*a).1, key_view(*b).1)),
{
    match (a, b) {
        (IndexKey::Date(x), IndexKey::Date(y)) => *x <= *y,
        (IndexKey::Timestamp(x), IndexKey::Timestamp(y)) => *x <= *y,
        (IndexKey::String(x), IndexKey::String(y)) => string_le(x, y),
        _ => false,
    }
}

/// Whether the index is sorted (monotone nondecreasing).
pub fn is_sorted(index: &IndexColumn) -> (r: bool)
    ensures
        r == keys_sorted(col_keys(*index)),
{
    let n = index.len();
    let ghost ks = col_keys(*index);
    if n < 2 {
        return true;
    }
    let mut i: usize = 0;
    while i + 1 < n
        invariant
            n == ks.len(),
            n >= 2,
            i + 1 <= n,
            ks == col_keys(*index),
            forall|j: int| 0 <= j < i ==> kv_le(#[trigger] ks[j], ks[j + 1]),
        decreases n - i,
    {
        let a = index.get(i).unwrap();
        let b = index.get(i + 1).unwrap();
        if !index_key_le(&a, &b) {
            return false;
        }
        i += 1;
    }
    true
}

// ─── Row selections ─────────────────────────────────────────────────────────

/// The view of an optional row number.
pub open spec fn row_view(r: Option<usize>) -> Option<nat> {
    match r {
        Some(j) => Some(j as nat),
        None => None,
    }
}

proof fn lemma_rows_view_push(rows: Seq<Option<usize>>, x: Option<usize>)
    ensures
        rows_view(rows.push(x)) == rows_view(rows).push(row_view(x)),
{
    assert(rows_view(rows.push(x)) =~= rows_view(rows).push(row_view(x)));
}

/// The kind of an index column: 0 date, 1 timestamp, 2 string.
fn tag_of(c: &IndexColumn) -> (t: u8)
    ensures
        t == col_tag(*c),
{
    match c {
        IndexColumn::Date(_) => 0,
        IndexColumn::Timestamp(_) => 1,
        IndexColumn::String(_) => 2,
    }
}

/// Keys of integer values.
pub open spec fn int_keys(v: Seq<i64>) -> Seq<KeyV> {
    v.map_values(|x: i64| KeyV::Int(x as int))
}

/// Keys of string values.
pub open spec fn str_keys(v: Seq<String>) -> Seq<KeyV> {
    v.map_values(|s: String| str_key(s))
}

/// A selection of `n` NA rows.
fn none_rows(n: usize) -> (rows: Vec<Option<usize>>)
    ensures
        rows@.len() == n,
        forall|i: int| 0 <= i < n ==> #[trigger] rows@[i] is None,
{
    let mut rows: Vec<Option<usize>> = Vec::new();
    let mut i: usize = 0;
    while i < n
        invariant
            i <= n,
            rows@.len() == i,
            forall|j: int| 0 <= j < i ==> #[trigger] rows@[j] is None,
        decreases n - i,
    {
        rows.push(None);
        i += 1;
    }
    rows
}

/// The integer keys of a date or timestamp column.
fn int_key_vec(c: &IndexColumn) -> (v: Vec<i64>)
    requires
        col_tag(*c) != 2,
    ensures
        int_keys(v@) == col_keys(*c),
{
    let mut v: Vec<i64> = Vec::new();
    match c {
        IndexColumn::Date(d) => {
            let n = d.len();
            let mut i: usize = 0;
            while i < n
                invariant
                    i <= n,
                    n == d@.len(),
                    v@.len() == i,
                    forall|j: int| 0 <= j < i ==> #[trigger] v@[j] == d@[j] as i64,
                decreases n - i,
            {
                v.push(d[i] as i64);
                i += 1;
            }
        },
        IndexColumn::Timestamp(t) => {
            let n = t.len();
            let mut i: usize = 0;
            while i < n
                invariant
                    i <= n,
                    n == t@.len(),
                    v@.len() == i,
                    forall|j: int| 0 <= j < i ==> #[trigger] v@[j] == t@[j],
                decreases n - i,
            {
                v.push(t[i]);
                i += 1;
            }
        },
        IndexColumn::String(_) => {},
    }
    assert(int_keys(v@) =~= col_keys(*c));
    v
}

/// Map from each key to the last position holding it.
fn last_positions(keys: &Vec<i64>) -> (m: HashMap<i64, usize>)
    ensures
        forall|k: i64| #[trigger] m@.contains_key(k) <==> last_match(int_keys(keys@), KeyV::Int(k as int)) is Some,
        forall|k: i64| #[trigger] m@.contains_key(k) ==> last_match(int_keys(keys@), KeyV::Int(k as int)) == Some(m@[k] as nat),
{
    let ghost ks = int_keys(keys@);
    let mut m: HashMap<i64, usize> = HashMap::new();
    let n = keys.len();
    let mut i: usize = 0;
    while i < n
        invariant
            i <= n,
            n == keys@.len(),
            ks == int_keys(keys@),
            forall|k: i64| #[trigger] m@.contains_key(k) <==> last_match(ks.take(i as int), KeyV::Int(k as int)) is Some,
            forall|k: i64| #[trigger] m@.contains_key(k) ==> last_match(ks.take(i as int), KeyV::Int(k as int)) == Some(m@[k] as nat),
        decreases n - i,
    {
        let k0 = keys[i];
        m.insert(k0, i);
        proof {
            assert forall|k: i64| #[trigger] last_match(ks.take(i + 1), KeyV::Int(k as int)) == (if k == k0 {
                Some(i as nat)
            } else {
                last_match(ks.take(i as int), KeyV::Int(k as int))
            }) by {
                lemma_last_match_push(ks, i as int, KeyV::Int(k as int));
            }
        }
        i += 1;
    }
    assert(ks.take(n as int) =~= ks);
    m
}

/// Exact-join selection on integer keys.
fn reindex_int_rows(source: &Vec<i64>, target: &Vec<i64>) -> (rows: Vec<Option<usize>>)
    ensures
        rows_view(rows@) == Seq::new(
            target@.len(),
            |i: int| last_match(int_keys(source@), int_keys(target@)[i]),
        ),
{
    let m = last_positions(source);
    let n = target.len();
    let mut rows: Vec<Option<usize>> = Vec::new();
    let mut i: usize = 0;
    while i < n
        invariant
            i <= n,
            n == target@.len(),
            rows@.len() == i,
            forall|k: i64| #[trigger] m@.contains_key(k) <==> last_match(int_keys(source@), KeyV::Int(k as int)) is Some,
            forall|k: i64| #[trigger] m@.contains_key(k) ==> last_match(int_keys(source@), KeyV::Int(k as int)) == Some(m@[k] as nat),
            forall|j: int| 0 <= j < i ==> #[trigger] rows_view(rows@)[j] == last_match(int_keys(source@), int_keys(target@)[j]),
        decreases n - i,
    {
        let t = target[i];
        let found = match m.get(&t) {
            Some(r) => Some(*r),
            None => None,
        };
        proof {
            assert(int_keys(target@)[i as int] == KeyV::Int(t as int));
            assert(row_view(found) == last_match(int_keys(source@), KeyV::Int(t as int)));
            lemma_rows_view_push(rows@, found);
        }
        rows.push(found);
        i += 1;
    }
    assert(rows_view(rows@) =~= Seq::new(
        target@.len(),
        |i: int| last_match(int_keys(source@), int_keys(target@)[i]),
    ));
    rows
}

/// The last position of `names` holding `name`.
fn last_string_match(names: &Vec<String>, name: &String) -> (r: Option<usize>)
    ensures
        r is Some ==> r->0 < names@.len() && names@[r->0 as int]@ == name@ && forall|q: int|
            r->0 < q < names@.len() ==> (#[trigger] names@[q])@ != name@,
        r is None ==> forall|q: int| 0 <= q < names@.len() ==> (#[trigger] names@[q])@ != name@,
{
    let mut s: usize = names.len();
    while s > 0
        invariant
            s <= names@.len(),
            forall|q: int| s <= q < names@.len() ==> (#[trigger] names@[q])@ != name@,
        decreases s,
    {
        if crate::text::str_eq(names[s - 1].as_str(), name.as_str()) {
            return Some(s - 1);
        }
        s -= 1;
    }
    None
}

/// Keys of two strings are equal exactly when the strings are.
proof fn lemma_str_key_eq(a: String, b: String)
    ensures
        (str_key(a) == str_key(b)) == (a@ == b@),
{
    assert(vstd::utf8::decode_utf8(vstd::utf8::encode_utf8(a@)) == a@);
    assert(vstd::utf8::decode_utf8(vstd::utf8::encode_utf8(b@)) == b@);
}

/// Exact-join selection on string keys.
fn reindex_string_rows(source: &Vec<String>, target: &Vec<String>) -> (rows: Vec<Option<usize>>)
    ensures
        rows_view(rows@) == Seq::new(
            target@.len(),
            |i: int| last_match(str_keys(source@), str_keys(target@)[i]),
        ),
{
    let ghost sk = str_keys(source@);
    let n = target.len();
    let mut rows: Vec<Option<usize>> = Vec::new();
    let mut i: usize = 0;
    while i < n
        invariant
            i <= n,
            n == target@.len(),
            sk == str_keys(source@),
            rows@.len() == i,
            forall|j: int| 0 <= j < i ==> #[trigger] rows_view(rows@)[j] == last_match(sk, str_keys(target@)[j]),
        decreases n - i,
    {
        let found = last_string_match(source, &target[i]);
        proof {
            let k = str_keys(target@)[i as int];
            lemma_last_match(sk, k);
            assert forall|q: int| 0 <= q < sk.len() implies (#[trigger] sk[q] == k) == (source@[q]@ == target@[i as int]@) by {
                lemma_str_key_eq(source@[q], target@[i as int]);
            }
            if let Some(p) = last_match(sk, k) {
                assert(sk[p as int] == k);
            }
            if let Some(p) = found {
                assert(sk[p as int] == k);
            }
            assert(row_view(found) == last_match(sk, k));
            lemma_rows_view_push(rows@, found);
        }
        rows.push(found);
        i += 1;
    }
    assert(rows_view(rows@) =~= Seq::new(
        target@.len(),
        |i: int| last_match(str_keys(source@), str_keys(target@)[i]),
    ));
    rows
}

/// Exact-join row selection (mapr, `reindex_by`, right outer join): for each
/// target row, the last source row with the same key, or `None` (an NA row).
pub fn reindex_rows(source: &IndexColumn, target: &IndexColumn) -> (rows: Vec<Option<usize>>)
    ensures
        rows_view(rows@) == spec_reindex_rows(*source, *target),
{
    let ts = tag_of(source);
    let tt = tag_of(target);
    if ts != tt {
        let rows = none_rows(target.len());
        assert(rows_view(rows@) =~= spec_reindex_rows(*source, *target));
        return rows;
    }
    match (source, target) {
        (IndexColumn::String(sv), IndexColumn::String(tv)) => {
            let rows = reindex_string_rows(&**sv, &**tv);
            assert(rows_view(rows@) =~= spec_reindex_rows(*source, *target));
            rows
        },
        _ => {
            let sk = int_key_vec(source);
            let tk = int_key_vec(target);
            let rows = reindex_int_rows(&sk, &tk);
            assert(rows_view(rows@) =~= spec_reindex_rows(*source, *target));
            rows
        },
    }
}


/// As-of selection by scanning every x row for each y row (the naive scan,
/// valid for any order of the indices).
pub fn asofr_rows_fallback(x: &IndexColumn, y: &IndexColumn) -> (rows: Vec<Option<usize>>)
    ensures
        rows_view(rows@) == spec_asof_rows(*x, *y),
{
    let ghost xk = col_keys(*x);
    let ghost yk = col_keys(*y);
    let ny = y.len();
    if tag_of(x) != tag_of(y) {
        let rows = none_rows(ny);
        assert(rows_view(rows@) =~= spec_asof_rows(*x, *y));
        return rows;
    }
    // (key, row) pairs of x
    let nx = x.len();
    let mut entries: Vec<(IndexKey, usize)> = Vec::new();
    let mut i: usize = 0;
    while i < nx
        invariant
            i <= nx,
            nx == xk.len(),
            xk == col_keys(*x),
            entries@.len() == i,
            forall|j: int| 0 <= j < i ==> (#[trigger] entries@[j]).1 == j && key_view(entries@[j].0) == (col_tag(*x), xk[j]),
        decreases nx - i,
    {
        let k = x.get(i).unwrap();
        entries.push((k, i));
        i += 1;
    }
    let mut rows: Vec<Option<usize>> = Vec::new();
    let mut r: usize = 0;
    while r < ny
        invariant
            r <= ny,
            ny == yk.len(),
            nx == xk.len(),
            xk == col_keys(*x),
            yk == col_keys(*y),
            col_tag(*x) == col_tag(*y),
            entries@.len() == nx,
            forall|j: int| 0 <= j < nx ==> (#[trigger] entries@[j]).1 == j && key_view(entries@[j].0) == (col_tag(*x), xk[j]),
            rows@.len() == r,
            forall|j: int| 0 <= j < r ==> #[trigger] rows_view(rows@)[j] == asof_match(xk, yk[j]),
        decreases ny - r,
    {
        let yk_r = y.get(r).unwrap();
        let ghost yv = yk[r as int];
        let mut best: Option<usize> = None;
        let mut e: usize = 0;
        while e < nx
            invariant
                e <= nx,
                nx == xk.len(),
                entries@.len() == nx,
                forall|j: int| 0 <= j < nx ==> (#[trigger] entries@[j]).1 == j && key_view(entries@[j].0) == (col_tag(*x), xk[j]),
                key_view(yk_r) == (col_tag(*x), yv),
                row_view(best) == asof_best(xk, yv, e as nat),
                best is Some ==> best->0 < e,
            decreases nx - e,
        {
            let entry = &entries[e];
            let ghost j = e as int;
            assert(entries@[j].1 == j);
            if index_key_le(&entry.0, &yk_r) {
                let take = match best {
                    None => true,
                    Some(b) => {
                        assert(entries@[b as int].1 == b);
                        index_key_le(&entries[b].0, &entry.0)
                    },
                };
                if take {
                    best = Some(entry.1);
                }
            }
            e += 1;
        }
        proof {
            lemma_rows_view_push(rows@, best);
        }
        rows.push(best);
        r += 1;
    }
    assert(rows_view(rows@) =~= spec_asof_rows(*x, *y));
    rows
}

/// As-of selection on sorted indices: one forward pass over x for the whole
/// of y (two-pointer merge).
pub fn asofr_rows_sorted(x: &IndexColumn, y: &IndexColumn) -> (rows: Vec<Option<usize>>)
    requires
        keys_sorted(col_keys(*x)),
        keys_sorted(col_keys(*y)),
    ensures
        rows_view(rows@) == spec_asof_rows(*x, *y),
{
    let ghost xk = col_keys(*x);
    let ghost yk = col_keys(*y);
    let ny = y.len();
    if tag_of(x) != tag_of(y) {
        let rows = none_rows(ny);
        assert(rows_view(rows@) =~= spec_asof_rows(*x, *y));
        return rows;
    }
    let nx = x.len();
    let mut rows: Vec<Option<usize>> = Vec::new();
    // last x row at or before the previous y key
    let mut x_ptr: Option<usize> = None;
    let mut r: usize = 0;
    while r < ny
        invariant
            r <= ny,
            ny == yk.len(),
            nx == xk.len(),
            xk == col_keys(*x),
            yk == col_keys(*y),
            keys_sorted(xk),
            keys_sorted(yk),
            col_tag(*x) == col_tag(*y),
            r == 0 ==> x_ptr is None,
            r > 0 ==> row_view(x_ptr) == last_at_or_before(xk, yk[r - 1], nx as nat),
            rows@.len() == r,
            forall|j: int| 0 <= j < r ==> #[trigger] rows_view(rows@)[j] == asof_match(xk, yk[j]),
        decreases ny - r,
    {
        let yk_r = y.get(r).unwrap();
        let ghost yv = yk[r as int];
        proof {
            if r > 0 {
                assert(kv_le(yk[r - 1], yk[r - 1 + 1]));
                lemma_asof_best(xk, yk[r - 1], nx as nat);
                lemma_asof_sorted(xk, yk[r - 1], nx as nat);
                if let Some(p) = x_ptr {
                    lemma_kv_trans(xk[p as int], yk[r - 1], yv);
                }
            }
        }
        let start: usize = match x_ptr {
            None => 0,
            Some(p) => p + 1,
        };
        let mut idx: usize = start;
        while idx < nx
            invariant
                start <= idx <= nx,
                nx == xk.len(),
                xk == col_keys(*x),
                keys_sorted(xk),
                key_view(yk_r) == (col_tag(*x), yv),
                match x_ptr {
                    Some(p) => p < idx && kv_le(xk[p as int], yv) && p + 1 == idx,
                    None => idx == 0,
                },
            ensures
                match x_ptr {
                    Some(p) => p < idx && kv_le(xk[p as int], yv) && p + 1 == idx,
                    None => idx == 0,
                },
                idx == nx || !kv_le(xk[idx as int], yv),
            decreases nx - idx,
        {
            let xk_i = x.get(idx).unwrap();
            if index_key_le(&xk_i, &yk_r) {
                x_ptr = Some(idx);
            } else {
                break;
            }
            idx += 1;
        }
        proof {
            // nothing after x_ptr is at or before y
            let lo: int = match x_ptr {
                Some(p) => p as int,
                None => -1,
            };
            assert forall|q: int| lo < q < nx implies !kv_le(#[trigger] xk[q], yv) by {
                if kv_le(xk[q], yv) {
                    lemma_sorted_le(xk, idx as int, q);
                    lemma_kv_trans(xk[idx as int], xk[q], yv);
                }
            }
            lemma_last_at_or_before_char(xk, yv, nx as nat, row_view(x_ptr));
            lemma_asof_sorted(xk, yv, nx as nat);
            lemma_rows_view_push(rows@, x_ptr);
        }
        rows.push(x_ptr);
        r += 1;
    }
    assert(rows_view(rows@) =~= spec_asof_rows(*x, *y));
    rows
}

/// As-of join row selection (`asofr`, right outer as-of join): for each y row,
/// the x row with the greatest key at or before the y key (the last of equal
/// keys), or `None` when every x key is after it. Sorted indices take the
/// two-pointer path, others the naive scan.
pub fn asofr_rows(x: &IndexColumn, y: &IndexColumn) -> (rows: Vec<Option<usize>>)
    ensures
        rows_view(rows@) == spec_asof_rows(*x, *y),
{
    let x_sorted = is_sorted(x);
    let y_sorted = is_sorted(y);
    if x_sorted && y_sorted {
        asofr_rows_sorted(x, y)
    } else {
        asofr_rows_fallback(x, y)
    }
}

/// Values gathered by a row selection: row `i` takes `data[rows[i]]`, or `na`
/// where the selection has no row or a row past the end of `data`.
pub fn gather<T: Copy>(data: &[T], rows: &[Option<usize>], na: T) -> (out: Vec<T>)
    ensures
        out@.len() == rows@.len(),
        forall|i: int| 0 <= i < rows@.len() ==> #[trigger] out@[i] == match rows@[i] {
            Some(j) => if j < data@.len() { data@[j as int] } else { na },
            None => na,
        },
{
    let mut out: Vec<T> = Vec::new();
    let n = rows.len();
    let mut i: usize = 0;
    while i < n
        invariant
            i <= n,
            n == rows@.len(),
            out@.len() == i,
            forall|k: int| 0 <= k < i ==> #[trigger] out@[k] == match rows@[k] {
                Some(j) => if j < data@.len() { data@[j as int] } else { na },
                None => na,
            },
        decreases n - i,
    {
        let v = match rows[i] {
            Some(j) => if j < data.len() { data[j] } else { na },
            None => na,
        };
        out.push(v);
        i += 1;
    }
    out
}


// ─── Laws ───────────────────────────────────────────────────────────────────

/// Applying selection `outer` to the result of selection `inner`: row `i`
/// takes what row `outer[i]` of the inner result took.
pub open spec fn compose_rows(inner: Seq<Option<nat>>, outer: Seq<Option<nat>>) -> Seq<Option<nat>> {
    Seq::new(
        outer.len(),
        |i: int|
            match outer[i] {
                Some(j) => if j < inner.len() { inner[j as int] } else { None },
                None => None,
            },
    )
}

/// mapr is a right outer join that invents nothing: it has one row per target
/// row, and a target row takes a source row only when that row holds the same
/// key (the last such row); otherwise it is an NA row and no source row holds
/// the key.
pub proof fn law_reindex_selects_matching_key(source: IndexColumn, target: IndexColumn, i: int)
    requires
        0 <= i < col_keys(target).len(),
    ensures
        spec_reindex_rows(source, target).len() == col_keys(target).len(),
        match spec_reindex_rows(source, target)[i] {
            Some(j) => {
                &&& j < col_keys(source).len()
                &&& col_tag(source) == col_tag(target)
                &&& col_keys(source)[j as int] == col_keys(target)[i]
                &&& forall|q: int| j < q < col_keys(source).len() ==> #[trigger] col_keys(source)[q] != col_keys(target)[i]
            },
            None => col_tag(source) != col_tag(target) || forall|q: int|
                0 <= q < col_keys(source).len() ==> #[trigger] col_keys(source)[q] != col_keys(target)[i],
        },
{
    lemma_last_match(col_keys(source), col_keys(target)[i]);
}

/// mapr onto an index whose keys are distinct gives each row back its own row.
pub proof fn law_reindex_identity(c: IndexColumn, i: int)
    requires
        0 <= i < col_keys(c).len(),
        forall|a: int, b: int|
            0 <= a < b < col_keys(c).len() ==> #[trigger] col_keys(c)[a] != #[trigger] col_keys(c)[b],
    ensures
        spec_reindex_rows(c, c)[i] == Some(i as nat),
{
    let ks = col_keys(c);
    lemma_last_match(ks, ks[i]);
    match last_match(ks, ks[i]) {
        Some(p) => {
            if p as int != i {
                if (p as int) < i {
                    assert(ks[i] != ks[i]);
                } else {
                    assert(ks[i] != ks[p as int]);
                }
            }
        },
        None => {
            assert(ks[i] != ks[i]);
        },
    }
}

/// mapr is idempotent: mapping the result of `mapr(source, target)` onto the
/// same target again selects the same source rows.
pub proof fn law_reindex_idempotent(source: IndexColumn, target: IndexColumn)
    ensures
        compose_rows(spec_reindex_rows(source, target), spec_reindex_rows(target, target))
            == spec_reindex_rows(source, target),
{
    let s1 = spec_reindex_rows(source, target);
    let s2 = spec_reindex_rows(target, target);
    let tk = col_keys(target);
    assert forall|i: int| 0 <= i < tk.len() implies #[trigger] compose_rows(s1, s2)[i] == s1[i] by {
        lemma_last_match(tk, tk[i]);
        let p = last_match(tk, tk[i])->0 as int;
        assert(tk[p] == tk[i]);
    }
    assert(compose_rows(s1, s2) =~= s1);
}

/// asofr never looks ahead: a y row takes an x row whose key is at or before
/// the y key, and no x key at or before the y key is later than it; a y row is
/// NA only when no x key is at or before its key.
pub proof fn law_asof_no_forward_looking(x: IndexColumn, y: IndexColumn, i: int)
    requires
        0 <= i < col_keys(y).len(),
    ensures
        spec_asof_rows(x, y).len() == col_keys(y).len(),
        match spec_asof_rows(x, y)[i] {
            Some(j) => {
                &&& j < col_keys(x).len()
                &&& col_tag(x) == col_tag(y)
                &&& kv_le(col_keys(x)[j as int], col_keys(y)[i])
                &&& forall|q: int| 0 <= q < col_keys(x).len() && kv_le(#[trigger] col_keys(x)[q], col_keys(y)[i])
                    ==> kv_le(col_keys(x)[q], col_keys(x)[j as int])
            },
            None => col_tag(x) != col_tag(y) || forall|q: int|
                0 <= q < col_keys(x).len() ==> !kv_le(#[trigger] col_keys(x)[q], col_keys(y)[i]),
        },
{
    lemma_asof_best(col_keys(x), col_keys(y)[i], col_keys(x).len());
}

/// The as-of match of a key that some key equals picks a key equal to it.
proof fn lemma_asof_self(ks: Seq<KeyV>, i: int)
    requires
        0 <= i < ks.len(),
    ensures
        asof_match(ks, ks[i]) is Some,
        ks[asof_match(ks, ks[i])->0 as int] == ks[i],
        asof_match(ks, ks[i]) == last_match(ks, ks[i]),
{
    let y = ks[i];
    lemma_asof_best(ks, y, ks.len());
    lemma_kv_refl(y);
    let p = asof_match(ks, y)->0 as int;
    assert(kv_le(ks[i], y));
    assert(kv_le(ks[i], ks[p]));
    lemma_kv_antisym(ks[p], y);
    lemma_last_match(ks, y);
    let m = last_match(ks, y)->0 as int;
    assert(ks[m] == y);
    lemma_kv_refl(ks[m]);
    assert(kv_le(ks[m], y));
    assert(kv_le(ks[p], ks[m]));
    assert(m <= p);
    if m < p {
        assert(ks[p] != y);
    }
}

/// asofr of an index onto itself is mapr of it onto itself: each row takes
/// the last row with its own key.
pub proof fn law_asof_matches_reindex_on_shared_index(c: IndexColumn)
    ensures
        spec_asof_rows(c, c) == spec_reindex_rows(c, c),
{
    let ks = col_keys(c);
    assert forall|i: int| 0 <= i < ks.len() implies #[trigger] spec_asof_rows(c, c)[i] == spec_reindex_rows(c, c)[i] by {
        lemma_asof_self(ks, i);
    }
    assert(spec_asof_rows(c, c) =~= spec_reindex_rows(c, c));
}

/// asofr is idempotent: taking the as-of join of `asofr(x, y)` onto y again
/// selects the same x rows.
pub proof fn law_asof_idempotent(x: IndexColumn, y: IndexColumn)
    ensures
        compose_rows(spec_asof_rows(x, y), spec_asof_rows(y, y)) == spec_asof_rows(x, y),
{
    let s1 = spec_asof_rows(x, y);
    let s2 = spec_asof_rows(y, y);
    let yk = col_keys(y);
    assert forall|i: int| 0 <= i < yk.len() implies #[trigger] compose_rows(s1, s2)[i] == s1[i] by {
        lemma_asof_self(yk, i);
        lemma_asof_best(yk, yk[i], yk.len());
        let p = asof_match(yk, yk[i])->0 as int;
        assert(s2[i] == Some(p as nat));
        assert(s1[p] == s1[i]);
    }
    assert(compose_rows(s1, s2) =~= s1);
}

/// On a sorted y index the as-of selection moves forward: once a y row finds
/// an x row every later y row does, with a key at or after it, and on a sorted
/// x index at the same or a later x row.
pub proof fn law_asof_monotone(x: IndexColumn, y: IndexColumn, i: int, j: int)
    requires
        keys_sorted(col_keys(y)),
        0 <= i <= j < col_keys(y).len(),
        spec_asof_rows(x, y)[i] is Some,
    ensures
        spec_asof_rows(x, y)[j] is Some,
        kv_le(
            col_keys(x)[spec_asof_rows(x, y)[i]->0 as int],
            col_keys(x)[spec_asof_rows(x, y)[j]->0 as int],
        ),
        keys_sorted(col_keys(x)) ==> spec_asof_rows(x, y)[i]->0 <= spec_asof_rows(x, y)[j]->0,
{
    let xk = col_keys(x);
    let yk = col_keys(y);
    lemma_asof_best(xk, yk[i], xk.len());
    lemma_asof_best(xk, yk[j], xk.len());
    lemma_sorted_le(yk, i, j);
    let p = asof_match(xk, yk[i])->0 as int;
    lemma_kv_trans(xk[p], yk[i], yk[j]);
    let q = asof_match(xk, yk[j])->0 as int;
    if keys_sorted(xk) && q < p {
        lemma_sorted_le(xk, q, p);
        lemma_kv_antisym(xk[p], xk[q]);
        lemma_kv_refl(xk[p]);
    }
}

} // verus!
