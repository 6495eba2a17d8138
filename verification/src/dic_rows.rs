//! The rows of the dictionary's views (exposed aliases, legacy tokens, the IR
//! migration queue, IR operations without metadata, the resolution check):
//! which entries each view lists, how each row reads, and the order the rows
//! are shown in.

use vstd::prelude::*;
use crate::dic::{OpMapEntry, display, display_of};
use crate::dic_view::ResolveStatus;
use crate::align::{lex_le, lemma_lex_total, lemma_lex_trans, lemma_lex_refl, lemma_lex_antisym, string_le};
use crate::text::{texts, join_with, push_joined, str_eq, contains_text, bytes_eq};
use crate::align::bytes_le;
use crate::pipe::{contains_str, text_contains};

verus! {

// ─── Ordering rows ──────────────────────────────────────────────────────────

/// Rows with a display order on their views.
pub trait RowOrder: View + Sized {
    /// `a` may be shown before `b`.
    spec fn before(a: Self::V, b: Self::V) -> bool;

    proof fn lemma_total(a: Self::V, b: Self::V)
        ensures
            Self::before(a, b) || Self::before(b, a),
    ;

    proof fn lemma_trans(a: Self::V, b: Self::V, c: Self::V)
        requires
            Self::before(a, b),
            Self::before(b, c),
        ensures
            Self::before(a, c),
    ;

    fn before_exec(&self, other: &Self) -> (r: bool)
        ensures
            r == Self::before(self@, other@),
    ;
}

pub open spec fn views<T: View>(s: Seq<T>) -> Seq<T::V> {
    s.map_values(|x: T| x@)
}

pub open spec fn ordered<T: RowOrder>(s: Seq<T::V>) -> bool {
    forall|i: int, j: int| 0 <= i < j < s.len() ==> T::before(s[i], s[j])
}

/// The first position from `k` on whose row may not be shown before `x`
/// (the end if there is none): where a stable insertion puts `x`.
pub open spec fn insert_pos<T: RowOrder>(s: Seq<T::V>, x: T::V, k: int) -> int
    decreases s.len() - k,
{
    if k < 0 || k >= s.len() {
        s.len() as int
    } else if !T::before(s[k], x) {
        k
    } else {
        insert_pos::<T>(s, x, k + 1)
    }
}

/// The rows in display order, by stable insertion: each row goes after every
/// row before it that may be shown before it, so rows that tie keep their
/// order.
pub open spec fn stable_sorted<T: RowOrder>(s: Seq<T::V>) -> Seq<T::V>
    decreases s.len(),
{
    if s.len() == 0 {
        s
    } else {
        let o = stable_sorted::<T>(s.drop_last());
        o.insert(insert_pos::<T>(o, s.last(), 0), s.last())
    }
}

proof fn lemma_insert_pos_bounds<T: RowOrder>(s: Seq<T::V>, x: T::V, k: int)
    requires
        0 <= k <= s.len(),
    ensures
        k <= insert_pos::<T>(s, x, k) <= s.len(),
    decreases s.len() - k,
{
    if k < s.len() && T::before(s[k], x) {
        lemma_insert_pos_bounds::<T>(s, x, k + 1);
    }
}

/// The rows in display order (rows that tie keep their order).
pub fn sort_rows<T: RowOrder>(v: Vec<T>) -> (r: Vec<T>)
    ensures
        views(r@) == stable_sorted::<T>(views(v@)),
        views(r@).to_multiset() == views(v@).to_multiset(),
        ordered::<T>(views(r@)),
{
    broadcast use vstd::seq_lib::group_to_multiset_ensures;

    let ghost all = views(v@);
    let mut rest = v;
    let mut out: Vec<T> = Vec::new();
    assert(views(out@).to_multiset() =~= vstd::multiset::Multiset::empty());
    assert(all.to_multiset() =~= views(rest@).to_multiset().add(views(out@).to_multiset())) by {
        broadcast use vstd::multiset::group_multiset_axioms;
    }
    assert(all.take(0) =~= Seq::<T::V>::empty());
    assert(views(rest@) =~= all.skip(0));
    while rest.len() > 0
        invariant
            all.to_multiset() == views(rest@).to_multiset().add(views(out@).to_multiset()),
            ordered::<T>(views(out@)),
            rest@.len() <= all.len(),
            views(rest@) == all.skip(all.len() - rest@.len()),
            views(out@) == stable_sorted::<T>(all.take(all.len() - rest@.len())),
        decreases rest@.len(),
    {
        let ghost before_rest = rest@;
        let ghost done = all.len() - rest@.len();
        let x = rest.remove(0);
        assert(views(rest@) =~= views(before_rest).remove(0));
        assert(views(before_rest)[0] == x@);
        assert(all.skip(done)[0] == all[done]);
        assert(x@ == all[done]);
        assert(views(rest@) =~= all.skip(done + 1));
        let mut k: usize = 0;
        while k < out.len() && out[k].before_exec(&x)
            invariant
                k <= out@.len(),
                forall|j: int| 0 <= j < k ==> T::before(#[trigger] views(out@)[j], x@),
                insert_pos::<T>(views(out@), x@, 0) == insert_pos::<T>(views(out@), x@, k as int),
            decreases out@.len() - k,
        {
            k += 1;
        }
        proof {
            assert(all.take(done + 1).drop_last() =~= all.take(done));
            assert(all.take(done + 1).last() == x@);
            assert(insert_pos::<T>(views(out@), x@, k as int) == k as int);
        }
        let ghost before = out@;
        proof {
            if k < out@.len() {
                T::lemma_total(views(out@)[k as int], x@);
            }
        }
        out.insert(k, x);
        proof {
            let bv = views(before);
            let nv = views(out@);
            assert(nv =~= bv.insert(k as int, x@));
            assert forall|i: int, j: int| 0 <= i < j < nv.len() implies T::before(nv[i], nv[j]) by {
                if j < k {
                    assert(nv[i] == bv[i] && nv[j] == bv[j]);
                } else if j == k {
                    assert(nv[i] == bv[i]);
                } else if i == k {
                    assert(nv[j] == bv[j - 1]);
                    if j - 1 > k {
                        T::lemma_trans(x@, bv[k as int], bv[j - 1]);
                    }
                } else if i < k {
                    assert(nv[i] == bv[i] && nv[j] == bv[j - 1]);
                } else {
                    assert(nv[i] == bv[i - 1] && nv[j] == bv[j - 1]);
                }
            }
            assert(views(before_rest) =~= views(rest@).insert(0, x@));
            vstd::seq_lib::to_multiset_insert(views(rest@), 0, x@);
            vstd::seq_lib::to_multiset_insert(bv, k as int, x@);
            assert(views(before_rest).to_multiset() == views(rest@).to_multiset().insert(x@));
            assert(views(out@).to_multiset() == bv.to_multiset().insert(x@));
            assert(all.to_multiset() =~= views(rest@).to_multiset().add(views(out@).to_multiset())) by {
                broadcast use vstd::multiset::group_multiset_axioms;
            }
        }
    }
    assert(views(rest@).to_multiset() =~= vstd::multiset::Multiset::empty());
    assert(all.to_multiset() =~= views(out@).to_multiset()) by {
        broadcast use vstd::multiset::group_multiset_axioms;
    }
    assert(all.take(all.len() as int) =~= all);
    out
}

pub open spec fn name_bytes(s: Seq<char>) -> Seq<u8> {
    vstd::utf8::encode_utf8(s)
}

/// Byte order on names.
pub open spec fn name_le(a: Seq<char>, b: Seq<char>) -> bool {
    lex_le(name_bytes(a), name_bytes(b))
}

pub proof fn lemma_name_le_total(a: Seq<char>, b: Seq<char>)
    ensures
        name_le(a, b) || name_le(b, a),
{
    lemma_lex_total(name_bytes(a), name_bytes(b));
}

pub proof fn lemma_name_le_trans(a: Seq<char>, b: Seq<char>, c: Seq<char>)
    requires
        name_le(a, b),
        name_le(b, c),
    ensures
        name_le(a, c),
{
    lemma_lex_trans(name_bytes(a), name_bytes(b), name_bytes(c));
}

// ─── Exposed aliases and legacy tokens ──────────────────────────────────────

/// An entry's IR name, or empty for a builtin.
pub open spec fn ir_or_empty(e: OpMapEntry) -> Seq<char> {
    match e.ir {
        Some(s) => s@,
        None => Seq::empty(),
    }
}

pub open spec fn opt_pattern(p: Option<&str>) -> Option<Seq<char>> {
    match p {
        Some(s) => Some(s@),
        None => None,
    }
}

/// A name passes the `--grep` filter when it, or its entry's IR name,
/// contains the pattern.
pub open spec fn grep_hit(name: Seq<char>, e: OpMapEntry, pat: Option<Seq<char>>) -> bool {
    match pat {
        Some(p) => text_contains(name, p) || text_contains(ir_or_empty(e), p),
        None => true,
    }
}

fn grep_hit_exec(name: &str, e: &OpMapEntry, pat: Option<&str>) -> (r: bool)
    ensures
        r == grep_hit(name@, *e, opt_pattern(pat)),
{
    match pat {
        Some(p) => {
            if contains_str(name, p) {
                return true;
            }
            match &e.ir {
                Some(ir) => contains_str(ir.as_str(), p),
                None => {
                    let empty = String::new();
                    contains_str(empty.as_str(), p)
                },
            }
        },
        None => true,
    }
}

/// A row of the exposed-aliases view.
#[derive(Debug, Clone, PartialEq)]
pub struct ExposedRow {
    pub alias: String,
    /// The IR name, or `<builtin>`.
    pub ir: String,
    pub bucket: String,
    /// The entry's legacy tokens joined with ", " (empty when none).
    pub legacy_tokens: String,
}

impl View for ExposedRow {
    type V = (Seq<char>, Seq<char>, Seq<char>, Seq<char>);

    open spec fn view(&self) -> Self::V {
        (self.alias@, self.ir@, self.bucket@, self.legacy_tokens@)
    }
}

impl RowOrder for ExposedRow {
    open spec fn before(a: Self::V, b: Self::V) -> bool {
        name_le(a.0, b.0)
    }

    proof fn lemma_total(a: Self::V, b: Self::V) {
        lemma_name_le_total(a.0, b.0);
    }

    proof fn lemma_trans(a: Self::V, b: Self::V, c: Self::V) {
        lemma_name_le_trans(a.0, b.0, c.0);
    }

    fn before_exec(&self, other: &Self) -> (r: bool) {
        string_le(&self.alias, &other.alias)
    }
}

/// The exposed rows of one entry, for its aliases in order.
pub open spec fn exposed_of(e: OpMapEntry, names: Seq<Seq<char>>, pat: Option<Seq<char>>) -> Seq<
    (Seq<char>, Seq<char>, Seq<char>, Seq<char>),
>
    decreases names.len(),
{
    if names.len() == 0 {
        Seq::empty()
    } else {
        exposed_of(e, names.drop_last(), pat) + if grep_hit(names.last(), e, pat) {
            seq![(names.last(), display(e), e.bucket@, join_with(texts(e.legacy_tokens@), ", "@))]
        } else {
            Seq::empty()
        }
    }
}

/// The exposed rows of the entries, entry by entry.
pub open spec fn exposed_rows(es: Seq<OpMapEntry>, pat: Option<Seq<char>>) -> Seq<
    (Seq<char>, Seq<char>, Seq<char>, Seq<char>),
>
    decreases es.len(),
{
    if es.len() == 0 {
        Seq::empty()
    } else {
        exposed_rows(es.drop_last(), pat) + exposed_of(es.last(), texts(es.last().aliases@), pat)
    }
}

/// The exposed-aliases view: one row per alias of every entry (those that
/// pass the `--grep` filter), ordered by alias.
pub fn exposed_aliases(entries: &[OpMapEntry], grep_pattern: Option<&str>) -> (r: Vec<ExposedRow>)
    ensures
        views(r@).to_multiset() == exposed_rows(entries@, opt_pattern(grep_pattern)).to_multiset(),
        ordered::<ExposedRow>(views(r@)),
{
    let ghost pat = opt_pattern(grep_pattern);
    let mut rows: Vec<ExposedRow> = Vec::new();
    let mut i: usize = 0;
    assert(views(rows@) =~= exposed_rows(entries@.take(0), pat));
    while i < entries.len()
        invariant
            i <= entries@.len(),
            pat == opt_pattern(grep_pattern),
            views(rows@) == exposed_rows(entries@.take(i as int), pat),
        decreases entries@.len() - i,
    {
        let e = &entries[i];
        let ghost start = views(rows@);
        let ghost names = texts(e.aliases@);
        let ir = display_of(e);
        let mut legacy = String::new();
        push_joined(&mut legacy, e.legacy_tokens.as_slice(), ", ");
        let mut j: usize = 0;
        assert(names.take(0) =~= Seq::<Seq<char>>::empty());
        assert(views(rows@) =~= start + exposed_of(*e, names.take(0), pat));
        while j < e.aliases.len()
            invariant
                j <= e.aliases@.len(),
                names == texts(e.aliases@),
                ir@ == display(*e),
                legacy@ == join_with(texts(e.legacy_tokens@), ", "@),
                pat == opt_pattern(grep_pattern),
                views(rows@) == start + exposed_of(*e, names.take(j as int), pat),
            decreases e.aliases@.len() - j,
        {
            let ghost before = rows@;
            let alias = &e.aliases[j];
            if grep_hit_exec(alias.as_str(), e, grep_pattern) {
                rows.push(
                    ExposedRow {
                        alias: alias.clone(),
                        ir: ir.clone(),
                        bucket: e.bucket.clone(),
                        legacy_tokens: legacy.clone(),
                    },
                );
                assert(views(rows@) =~= views(before).push(rows@.last()@));
            }
            assert(names.take(j + 1).drop_last() =~= names.take(j as int));
            assert(names.take(j + 1).last() == alias@);
            assert(views(rows@) =~= start + exposed_of(*e, names.take(j + 1), pat));
            j += 1;
        }
        assert(names.take(e.aliases@.len() as int) =~= names);
        assert(entries@.take(i + 1).drop_last() =~= entries@.take(i as int));
        assert(entries@.take(i + 1).last() == *e);
        i += 1;
    }
    assert(entries@.take(entries@.len() as int) =~= entries@);
    sort_rows(rows)
}

/// A row of the legacy-tokens view.
#[derive(Debug, Clone, PartialEq)]
pub struct LegacyRow {
    pub token: String,
    /// The IR name, or `<builtin>`.
    pub ir: String,
    /// The entry's first alias, or "-".
    pub suggested: String,
}

impl View for LegacyRow {
    type V = (Seq<char>, Seq<char>, Seq<char>);

    open spec fn view(&self) -> Self::V {
        (self.token@, self.ir@, self.suggested@)
    }
}

impl RowOrder for LegacyRow {
    open spec fn before(a: Self::V, b: Self::V) -> bool {
        name_le(a.0, b.0)
    }

    proof fn lemma_total(a: Self::V, b: Self::V) {
        lemma_name_le_total(a.0, b.0);
    }

    proof fn lemma_trans(a: Self::V, b: Self::V, c: Self::V) {
        lemma_name_le_trans(a.0, b.0, c.0);
    }

    fn before_exec(&self, other: &Self) -> (r: bool) {
        string_le(&self.token, &other.token)
    }
}

/// The replacement suggested for an entry's legacy tokens: its first alias.
pub open spec fn suggestion(e: OpMapEntry) -> Seq<char> {
    if e.aliases@.len() > 0 {
        e.aliases@[0]@
    } else {
        "-"@
    }
}

pub open spec fn legacy_of(e: OpMapEntry, names: Seq<Seq<char>>, pat: Option<Seq<char>>) -> Seq<
    (Seq<char>, Seq<char>, Seq<char>),
>
    decreases names.len(),
{
    if names.len() == 0 {
        Seq::empty()
    } else {
        legacy_of(e, names.drop_last(), pat) + if grep_hit(names.last(), e, pat) {
            seq![(names.last(), display(e), suggestion(e))]
        } else {
            Seq::empty()
        }
    }
}

pub open spec fn legacy_rows(es: Seq<OpMapEntry>, pat: Option<Seq<char>>) -> Seq<
    (Seq<char>, Seq<char>, Seq<char>),
>
    decreases es.len(),
{
    if es.len() == 0 {
        Seq::empty()
    } else {
        legacy_rows(es.drop_last(), pat) + legacy_of(es.last(), texts(es.last().legacy_tokens@), pat)
    }
}

/// The legacy-tokens view: one row per legacy token of every entry (those
/// that pass the `--grep` filter), ordered by token.
pub fn legacy_tokens(entries: &[OpMapEntry], grep_pattern: Option<&str>) -> (r: Vec<LegacyRow>)
    ensures
        views(r@).to_multiset() == legacy_rows(entries@, opt_pattern(grep_pattern)).to_multiset(),
        ordered::<LegacyRow>(views(r@)),
{
    let ghost pat = opt_pattern(grep_pattern);
    let mut rows: Vec<LegacyRow> = Vec::new();
    let mut i: usize = 0;
    assert(views(rows@) =~= legacy_rows(entries@.take(0), pat));
    while i < entries.len()
        invariant
            i <= entries@.len(),
            pat == opt_pattern(grep_pattern),
            views(rows@) == legacy_rows(entries@.take(i as int), pat),
        decreases entries@.len() - i,
    {
        let e = &entries[i];
        let ghost start = views(rows@);
        let ghost names = texts(e.legacy_tokens@);
        let ir = display_of(e);
        let suggested = if e.aliases.len() > 0 {
            e.aliases[0].clone()
        } else {
            String::from_str("-")
        };
        let mut j: usize = 0;
        assert(names.take(0) =~= Seq::<Seq<char>>::empty());
        assert(views(rows@) =~= start + legacy_of(*e, names.take(0), pat));
        while j < e.legacy_tokens.len()
            invariant
                j <= e.legacy_tokens@.len(),
                names == texts(e.legacy_tokens@),
                ir@ == display(*e),
                suggested@ == suggestion(*e),
                pat == opt_pattern(grep_pattern),
                views(rows@) == start + legacy_of(*e, names.take(j as int), pat),
            decreases e.legacy_tokens@.len() - j,
        {
            let ghost before = rows@;
            let token = &e.legacy_tokens[j];
            if grep_hit_exec(token.as_str(), e, grep_pattern) {
                rows.push(LegacyRow { token: token.clone(), ir: ir.clone(), suggested: suggested.clone() });
                assert(views(rows@) =~= views(before).push(rows@.last()@));
            }
            assert(names.take(j + 1).drop_last() =~= names.take(j as int));
            assert(names.take(j + 1).last() == token@);
            assert(views(rows@) =~= start + legacy_of(*e, names.take(j + 1), pat));
            j += 1;
        }
        assert(names.take(e.legacy_tokens@.len() as int) =~= names);
        assert(entries@.take(i + 1).drop_last() =~= entries@.take(i as int));
        assert(entries@.take(i + 1).last() == *e);
        i += 1;
    }
    assert(entries@.take(entries@.len() as int) =~= entries@);
    sort_rows(rows)
}

// ─── IR migration queue ─────────────────────────────────────────────────────

/// `s` starts with `p` (byte for byte, as `str::starts_with` checks).
pub open spec fn text_starts_with(s: Seq<char>, p: Seq<char>) -> bool {
    let sb = name_bytes(s);
    let pb = name_bytes(p);
    pb.len() <= sb.len() && sb.subrange(0, pb.len() as int) == pb
}

pub fn starts_with_text(s: &str, p: &str) -> (r: bool)
    ensures
        r == text_starts_with(s@, p@),
{
    let sb = s.as_bytes();
    let pb = p.as_bytes();
    assert(sb@ == name_bytes(s@));
    assert(pb@ == name_bytes(p@));
    if pb.len() > sb.len() {
        return false;
    }
    let mut i: usize = 0;
    while i < pb.len()
        invariant
            i <= pb@.len(),
            pb@.len() <= sb@.len(),
            sb@ == name_bytes(s@),
            pb@ == name_bytes(p@),
            forall|k: int| 0 <= k < i ==> sb@[k] == pb@[k],
        decreases pb@.len() - i,
    {
        if sb[i] != pb[i] {
            assert(sb@.subrange(0, pb@.len() as int)[i as int] != pb@[i as int]);
            return false;
        }
        i += 1;
    }
    assert(sb@.subrange(0, pb@.len() as int) =~= pb@);
    true
}

/// Entries that wait for IR migration: builtins with user-visible names in
/// the fusion-critical (A1) or planner-structural (A2) buckets.
pub open spec fn in_todo(e: OpMapEntry) -> bool {
    &&& e.ir is None
    &&& (e.aliases@.len() > 0 || e.legacy_tokens@.len() > 0)
    &&& (text_starts_with(e.bucket@, "A1"@) || text_starts_with(e.bucket@, "A2"@))
}

pub open spec fn any_contains(names: Seq<Seq<char>>, p: Seq<char>) -> bool {
    exists|i: int| 0 <= i < names.len() && text_contains(#[trigger] names[i], p)
}

/// The `--grep` filter of the migration queue: an alias or a legacy token
/// contains the pattern.
pub open spec fn todo_hit(e: OpMapEntry, pat: Option<Seq<char>>) -> bool {
    match pat {
        Some(p) => any_contains(texts(e.aliases@), p) || any_contains(texts(e.legacy_tokens@), p),
        None => true,
    }
}

fn any_contains_exec(names: &Vec<String>, p: &str) -> (r: bool)
    ensures
        r == any_contains(texts(names@), p@),
{
    let mut i: usize = 0;
    while i < names.len()
        invariant
            i <= names@.len(),
            forall|k: int| 0 <= k < i ==> !text_contains(#[trigger] texts(names@)[k], p@),
        decreases names@.len() - i,
    {
        if contains_str(names[i].as_str(), p) {
            assert(text_contains(texts(names@)[i as int], p@));
            return true;
        }
        i += 1;
    }
    false
}

/// A row of the IR migration queue.
#[derive(Debug, Clone, PartialEq)]
pub struct TodoRow {
    pub bucket: String,
    pub semantics: String,
    pub aliases: Vec<String>,
    pub legacy_tokens: Vec<String>,
}

impl View for TodoRow {
    type V = (Seq<char>, Seq<char>, Seq<Seq<char>>, Seq<Seq<char>>);

    open spec fn view(&self) -> Self::V {
        (self.bucket@, self.semantics@, texts(self.aliases@), texts(self.legacy_tokens@))
    }
}

/// Strictly before in byte order.
pub open spec fn lex_lt(a: Seq<u8>, b: Seq<u8>) -> bool {
    lex_le(a, b) && a != b
}

/// Order on first aliases: none first, then by name.
pub open spec fn first_le(x: Seq<Seq<char>>, y: Seq<Seq<char>>) -> bool {
    x.len() == 0 || (y.len() > 0 && name_le(x[0], y[0]))
}

impl RowOrder for TodoRow {
    /// By bucket, then by first alias.
    open spec fn before(a: Self::V, b: Self::V) -> bool {
        lex_lt(name_bytes(a.0), name_bytes(b.0)) || (name_bytes(a.0) == name_bytes(b.0) && first_le(
            a.2,
            b.2,
        ))
    }

    proof fn lemma_total(a: Self::V, b: Self::V) {
        lemma_lex_total(name_bytes(a.0), name_bytes(b.0));
        if a.2.len() > 0 && b.2.len() > 0 {
            lemma_name_le_total(a.2[0], b.2[0]);
        }
    }

    proof fn lemma_trans(a: Self::V, b: Self::V, c: Self::V) {
        let (x, y, z) = (name_bytes(a.0), name_bytes(b.0), name_bytes(c.0));
        if lex_lt(x, y) && lex_lt(y, z) {
            lemma_lex_trans(x, y, z);
            if x == z {
                lemma_lex_antisym(x, y);
            }
        }
        if x == y && y == z && a.2.len() > 0 && b.2.len() > 0 && c.2.len() > 0 {
            lemma_name_le_trans(a.2[0], b.2[0], c.2[0]);
        }
    }

    fn before_exec(&self, other: &Self) -> (r: bool) {
        let ab = self.bucket.as_str().as_bytes();
        let bb = other.bucket.as_str().as_bytes();
        if !bytes_eq(ab, bb) {
            return bytes_le(ab, bb);
        }
        if self.aliases.len() == 0 {
            true
        } else if other.aliases.len() == 0 {
            false
        } else {
            string_le(&self.aliases[0], &other.aliases[0])
        }
    }
}

pub open spec fn todo_rows(es: Seq<OpMapEntry>, pat: Option<Seq<char>>) -> Seq<
    (Seq<char>, Seq<char>, Seq<Seq<char>>, Seq<Seq<char>>),
>
    decreases es.len(),
{
    if es.len() == 0 {
        Seq::empty()
    } else {
        let e = es.last();
        todo_rows(es.drop_last(), pat) + if in_todo(e) && todo_hit(e, pat) {
            seq![(e.bucket@, e.semantics@, texts(e.aliases@), texts(e.legacy_tokens@))]
        } else {
            Seq::empty()
        }
    }
}

fn copy_texts(v: &Vec<String>) -> (r: Vec<String>)
    ensures
        texts(r@) == texts(v@),
{
    let mut r: Vec<String> = Vec::new();
    let mut i: usize = 0;
    while i < v.len()
        invariant
            i <= v@.len(),
            r@.len() == i,
            forall|k: int| 0 <= k < i ==> #[trigger] r@[k] == v@[k],
        decreases v@.len() - i,
    {
        r.push(v[i].clone());
        i += 1;
    }
    assert(texts(r@) =~= texts(v@));
    r
}

/// The IR migration queue: the entries waiting for IR migration (those that
/// pass the `--grep` filter), ordered by bucket, then by first alias.
pub fn todo_ir(entries: &[OpMapEntry], grep_pattern: Option<&str>) -> (r: Vec<TodoRow>)
    ensures
        views(r@).to_multiset() == todo_rows(entries@, opt_pattern(grep_pattern)).to_multiset(),
        ordered::<TodoRow>(views(r@)),
{
    let ghost pat = opt_pattern(grep_pattern);
    let mut rows: Vec<TodoRow> = Vec::new();
    let mut i: usize = 0;
    assert(views(rows@) =~= todo_rows(entries@.take(0), pat));
    while i < entries.len()
        invariant
            i <= entries@.len(),
            pat == opt_pattern(grep_pattern),
            views(rows@) == todo_rows(entries@.take(i as int), pat),
        decreases entries@.len() - i,
    {
        let e = &entries[i];
        let ghost before = rows@;
        let waiting = e.ir.is_none() && (e.aliases.len() > 0 || e.legacy_tokens.len() > 0) && (
        starts_with_text(e.bucket.as_str(), "A1") || starts_with_text(e.bucket.as_str(), "A2"));
        let hit = match grep_pattern {
            Some(p) => any_contains_exec(&e.aliases, p) || any_contains_exec(&e.legacy_tokens, p),
            None => true,
        };
        if waiting && hit {
            rows.push(
                TodoRow {
                    bucket: e.bucket.clone(),
                    semantics: e.semantics.clone(),
                    aliases: copy_texts(&e.aliases),
                    legacy_tokens: copy_texts(&e.legacy_tokens),
                },
            );
            assert(views(rows@) =~= views(before).push(rows@.last()@));
        }
        assert(entries@.take(i + 1).drop_last() =~= entries@.take(i as int));
        assert(entries@.take(i + 1).last() == *e);
        assert(views(rows@) =~= todo_rows(entries@.take(i + 1), pat));
        i += 1;
    }
    assert(entries@.take(entries@.len() as int) =~= entries@);
    sort_rows(rows)
}

pub open spec fn count_prefix(rows: Seq<(Seq<char>, Seq<char>, Seq<Seq<char>>, Seq<Seq<char>>)>, p: Seq<char>) -> nat
    decreases rows.len(),
{
    if rows.len() == 0 {
        0
    } else {
        count_prefix(rows.drop_last(), p) + if text_starts_with(rows.last().0, p) { 1nat } else { 0nat }
    }
}

/// The numbers of queued operations by priority: fusion-critical (A1) and
/// planner-structural (A2).
pub fn todo_priority_counts(rows: &[TodoRow]) -> (r: (usize, usize))
    ensures
        r.0 == count_prefix(views(rows@), "A1"@),
        r.1 == count_prefix(views(rows@), "A2"@),
{
    let mut a1: usize = 0;
    let mut a2: usize = 0;
    let mut i: usize = 0;
    while i < rows.len()
        invariant
            i <= rows@.len(),
            a1 == count_prefix(views(rows@).take(i as int), "A1"@),
            a2 == count_prefix(views(rows@).take(i as int), "A2"@),
            a1 <= i && a2 <= i,
        decreases rows@.len() - i,
    {
        assert(views(rows@).take(i + 1).drop_last() =~= views(rows@).take(i as int));
        assert(views(rows@).take(i + 1).last() == rows@[i as int]@);
        if starts_with_text(rows[i].bucket.as_str(), "A1") {
            a1 += 1;
        }
        if starts_with_text(rows[i].bucket.as_str(), "A2") {
            a2 += 1;
        }
        i += 1;
    }
    assert(views(rows@).take(rows@.len() as int) =~= views(rows@));
    (a1, a2)
}

// ─── Resolution check ───────────────────────────────────────────────────────

/// A row of the resolution check: a name, what the dictionary expects of it
/// (IR name or `<builtin>`), and how it actually resolves.
#[derive(Debug, Clone, PartialEq)]
pub struct ResolutionRow {
    pub name: String,
    pub expected: String,
    pub status: String,
}

impl View for ResolutionRow {
    type V = (Seq<char>, Seq<char>, Seq<char>);

    open spec fn view(&self) -> Self::V {
        (self.name@, self.expected@, self.status@)
    }
}

pub open spec fn failed(v: (Seq<char>, Seq<char>, Seq<char>)) -> bool {
    text_starts_with(v.2, "FAIL"@)
}

impl RowOrder for ResolutionRow {
    /// Failures first, then by name.
    open spec fn before(a: Self::V, b: Self::V) -> bool {
        (failed(a) && !failed(b)) || (failed(a) == failed(b) && name_le(a.0, b.0))
    }

    proof fn lemma_total(a: Self::V, b: Self::V) {
        lemma_name_le_total(a.0, b.0);
    }

    proof fn lemma_trans(a: Self::V, b: Self::V, c: Self::V) {
        if failed(a) == failed(b) && failed(b) == failed(c) {
            lemma_name_le_trans(a.0, b.0, c.0);
        }
    }

    fn before_exec(&self, other: &Self) -> (r: bool) {
        let fa = starts_with_text(self.status.as_str(), "FAIL");
        let fb = starts_with_text(other.status.as_str(), "FAIL");
        (fa && !fb) || (fa == fb && string_le(&self.name, &other.name))
    }
}

/// How a name resolves, as the check shows it: as an IR operation, as a
/// builtin, or not at all (marked when the name is a legacy token).
pub open spec fn status_text(name: Seq<char>, ir_names: Seq<Seq<char>>, builtins: Seq<Seq<char>>, legacy: bool) -> Seq<char> {
    if ir_names.contains(name) {
        "OK(IR: "@ + name + ")"@
    } else if builtins.contains(name) {
        "OK(BUILTIN)"@
    } else if legacy {
        "FAIL(unknown) [legacy]"@
    } else {
        "FAIL(unknown)"@
    }
}

pub open spec fn check_rows_of(
    e: OpMapEntry,
    names: Seq<Seq<char>>,
    ir_names: Seq<Seq<char>>,
    builtins: Seq<Seq<char>>,
    legacy: bool,
) -> Seq<(Seq<char>, Seq<char>, Seq<char>)>
    decreases names.len(),
{
    if names.len() == 0 {
        Seq::empty()
    } else {
        check_rows_of(e, names.drop_last(), ir_names, builtins, legacy).push(
            (names.last(), display(e), status_text(names.last(), ir_names, builtins, legacy)),
        )
    }
}

/// The rows of the check: every entry's aliases, then its legacy tokens.
pub open spec fn check_rows(es: Seq<OpMapEntry>, ir_names: Seq<Seq<char>>, builtins: Seq<Seq<char>>) -> Seq<
    (Seq<char>, Seq<char>, Seq<char>),
>
    decreases es.len(),
{
    if es.len() == 0 {
        Seq::empty()
    } else {
        let e = es.last();
        check_rows(es.drop_last(), ir_names, builtins) + check_rows_of(
            e,
            texts(e.aliases@),
            ir_names,
            builtins,
            false,
        ) + check_rows_of(e, texts(e.legacy_tokens@), ir_names, builtins, true)
    }
}

pub open spec fn count_failed(rows: Seq<(Seq<char>, Seq<char>, Seq<char>)>) -> nat
    decreases rows.len(),
{
    if rows.len() == 0 {
        0
    } else {
        count_failed(rows.drop_last()) + if failed(rows.last()) { 1nat } else { 0nat }
    }
}

fn status_of(name: &str, ir_names: &[String], builtin_names: &[String], legacy: bool) -> (s: String)
    ensures
        s@ == status_text(name@, texts(ir_names@), texts(builtin_names@), legacy),
{
    match crate::dic::check_resolve_against(name, ir_names, contains_text(builtin_names, name)) {
        ResolveStatus::IrOp(n) => {
            let mut m = String::from_str("OK(IR: ");
            m.append(n.as_str());
            m.append(")");
            m
        },
        ResolveStatus::Builtin => String::from_str("OK(BUILTIN)"),
        ResolveStatus::Unknown => if legacy {
            String::from_str("FAIL(unknown) [legacy]")
        } else {
            String::from_str("FAIL(unknown)")
        },
    }
}

/// Append the check rows of a list of names of one entry.
fn push_check_rows(
    rows: &mut Vec<ResolutionRow>,
    e: &OpMapEntry,
    names: &Vec<String>,
    ir_names: &[String],
    builtin_names: &[String],
    legacy: bool,
)
    ensures
        views(final(rows)@) == views(old(rows)@) + check_rows_of(
            *e,
            texts(names@),
            texts(ir_names@),
            texts(builtin_names@),
            legacy,
        ),
{
    let ghost start = views(rows@);
    let ghost nv = texts(names@);
    let expected = display_of(e);
    let mut j: usize = 0;
    assert(views(rows@) =~= start + check_rows_of(*e, nv.take(0), texts(ir_names@), texts(builtin_names@), legacy));
    while j < names.len()
        invariant
            j <= names@.len(),
            nv == texts(names@),
            expected@ == display(*e),
            views(rows@) == start + check_rows_of(*e, nv.take(j as int), texts(ir_names@), texts(builtin_names@), legacy),
        decreases names@.len() - j,
    {
        let ghost before = rows@;
        let name = &names[j];
        let status = status_of(name.as_str(), ir_names, builtin_names, legacy);
        rows.push(ResolutionRow { name: name.clone(), expected: expected.clone(), status });
        assert(views(rows@) =~= views(before).push(rows@.last()@));
        assert(rows@.last()@ == (name@, display(*e), status_text(name@, texts(ir_names@), texts(builtin_names@), legacy)));
        assert(nv.take(j + 1).drop_last() =~= nv.take(j as int));
        assert(nv.take(j + 1).last() == name@);
        assert(views(rows@) =~= start + check_rows_of(*e, nv.take(j + 1), texts(ir_names@), texts(builtin_names@), legacy));
        j += 1;
    }
    assert(nv.take(names@.len() as int) =~= nv);
}

/// The resolution check: for every entry, each alias and then each legacy
/// token with what the dictionary expects of it and how it resolves against
/// the IR's operation names and the registered builtins; failures first,
/// then by name; and the number of names that fail to resolve.
pub fn resolution_check(entries: &[OpMapEntry], ir_names: &[String], builtin_names: &[String]) -> (r: (
    Vec<ResolutionRow>,
    usize,
))
    ensures
        views(r.0@).to_multiset() == check_rows(entries@, texts(ir_names@), texts(builtin_names@)).to_multiset(),
        ordered::<ResolutionRow>(views(r.0@)),
        r.1 == count_failed(views(r.0@)),
{
    let ghost irs = texts(ir_names@);
    let ghost bs = texts(builtin_names@);
    let mut rows: Vec<ResolutionRow> = Vec::new();
    let mut i: usize = 0;
    assert(views(rows@) =~= check_rows(entries@.take(0), irs, bs));
    while i < entries.len()
        invariant
            i <= entries@.len(),
            irs == texts(ir_names@),
            bs == texts(builtin_names@),
            views(rows@) == check_rows(entries@.take(i as int), irs, bs),
        decreases entries@.len() - i,
    {
        let e = &entries[i];
        push_check_rows(&mut rows, e, &e.aliases, ir_names, builtin_names, false);
        push_check_rows(&mut rows, e, &e.legacy_tokens, ir_names, builtin_names, true);
        assert(entries@.take(i + 1).drop_last() =~= entries@.take(i as int));
        assert(entries@.take(i + 1).last() == *e);
        i += 1;
    }
    assert(entries@.take(entries@.len() as int) =~= entries@);
    let sorted = sort_rows(rows);
    let mut unknown: usize = 0;
    let mut k: usize = 0;
    while k < sorted.len()
        invariant
            k <= sorted@.len(),
            unknown == count_failed(views(sorted@).take(k as int)),
            unknown <= k,
        decreases sorted@.len() - k,
    {
        assert(views(sorted@).take(k + 1).drop_last() =~= views(sorted@).take(k as int));
        assert(views(sorted@).take(k + 1).last() == sorted@[k as int]@);
        if starts_with_text(sorted[k].status.as_str(), "FAIL") {
            unknown += 1;
        }
        k += 1;
    }
    assert(views(sorted@).take(sorted@.len() as int) =~= views(sorted@));
    (sorted, unknown)
}

// ─── IR operations without metadata ─────────────────────────────────────────

impl RowOrder for String {
    open spec fn before(a: Seq<char>, b: Seq<char>) -> bool {
        name_le(a, b)
    }

    proof fn lemma_total(a: Seq<char>, b: Seq<char>) {
        lemma_name_le_total(a, b);
    }

    proof fn lemma_trans(a: Seq<char>, b: Seq<char>, c: Seq<char>) {
        lemma_name_le_trans(a, b, c);
    }

    fn before_exec(&self, other: &Self) -> (r: bool) {
        string_le(self, other)
    }
}

/// Whether an entry names `n` as its IR operation.
pub open spec fn names_ir(e: OpMapEntry, n: Seq<char>) -> bool {
    e.ir matches Some(s) && s@ == n
}

/// Whether some entry names `n` as its IR operation.
pub open spec fn is_mapped(es: Seq<OpMapEntry>, n: Seq<char>) -> bool {
    exists|i: int| 0 <= i < es.len() && names_ir(#[trigger] es[i], n)
}

fn mapped_exec(entries: &[OpMapEntry], n: &str) -> (r: bool)
    ensures
        r == is_mapped(entries@, n@),
{
    let mut i: usize = 0;
    while i < entries.len()
        invariant
            i <= entries@.len(),
            forall|k: int| 0 <= k < i ==> !names_ir(#[trigger] entries@[k], n@),
        decreases entries@.len() - i,
    {
        match &entries[i].ir {
            Some(s) => {
                if str_eq(s.as_str(), n) {
                    assert(names_ir(entries@[i as int], n@));
                    return true;
                }
            },
            None => {},
        }
        i += 1;
    }
    false
}

/// The IR operations that no entry describes: each IR operation name that
/// no entry names, once, in byte order.
pub fn unmapped_ir(entries: &[OpMapEntry], ir_names: &[String]) -> (r: Vec<String>)
    ensures
        texts(r@).no_duplicates(),
        ordered::<String>(views(r@)),
        forall|n: Seq<char>|
            #[trigger] texts(r@).contains(n) <==> (texts(ir_names@).contains(n) && !is_mapped(entries@, n)),
{
    let mut out: Vec<String> = Vec::new();
    let mut i: usize = 0;
    while i < ir_names.len()
        invariant
            i <= ir_names@.len(),
            texts(out@).no_duplicates(),
            forall|n: Seq<char>|
                #[trigger] texts(out@).contains(n) <==> (texts(ir_names@).take(i as int).contains(n)
                    && !is_mapped(entries@, n)),
        decreases ir_names@.len() - i,
    {
        let name = &ir_names[i];
        let ghost before = texts(out@);
        let ghost t = texts(ir_names@).take(i + 1);
        assert(t =~= texts(ir_names@).take(i as int).push(name@));
        let m = mapped_exec(entries, name.as_str());
        let c = contains_text(out.as_slice(), name.as_str());
        if !m && !c {
            out.push(name.clone());
            assert(texts(out@) =~= before.push(name@));
            assert forall|a: int, b: int| 0 <= a < b < texts(out@).len() implies texts(out@)[a] != texts(out@)[b] by {
                if b == before.len() {
                    assert(before.contains(before[a]));
                }
            }
        }
        assert((!m && !c) ==> texts(out@) == before.push(name@));
        assert(!(!m && !c) ==> texts(out@) == before);
        assert forall|n: Seq<char>| #[trigger] texts(out@).contains(n) <==> (t.contains(n) && !is_mapped(entries@, n)) by {
            assert(before.contains(n) <==> (texts(ir_names@).take(i as int).contains(n) && !is_mapped(entries@, n)));
            if !m && !c {
                assert(texts(out@).contains(n) <==> (before.contains(n) || n == name@)) by {
                    let o = texts(out@);
                    assert(o == before.push(name@));
                    if n == name@ {
                        assert(o[before.len() as int] == n);
                    }
                    if o.contains(n) {
                        let k = choose|k: int| 0 <= k < o.len() && o[k] == n;
                        if k < before.len() {
                            assert(before[k] == n);
                        }
                    }
                    if before.contains(n) {
                        let k = choose|k: int| 0 <= k < before.len() && before[k] == n;
                        assert(o[k] == n);
                    }
                }
            } else {
                assert(texts(out@) == before);
            }
            if n == name@ {
                assert(t[i as int] == n);
            }
            if t.contains(n) {
                let k = choose|k: int| 0 <= k < t.len() && t[k] == n;
                if k < i {
                    assert(texts(ir_names@).take(i as int)[k] == n);
                }
            }
            if texts(ir_names@).take(i as int).contains(n) {
                let k = choose|k: int| 0 <= k < i && texts(ir_names@).take(i as int)[k] == n;
                assert(t[k] == n);
            }
        }
        i += 1;
    }
    assert(texts(ir_names@).take(ir_names@.len() as int) =~= texts(ir_names@));
    let sorted = sort_rows(out);
    proof {
        broadcast use vstd::seq_lib::group_to_multiset_ensures;
        assert(views(sorted@) =~= texts(sorted@));
        assert(views(out@) =~= texts(out@));
        texts(out@).lemma_multiset_has_no_duplicates();
        texts(sorted@).lemma_multiset_has_no_duplicates_conv();
        assert forall|n: Seq<char>| #[trigger] texts(sorted@).contains(n) <==> texts(out@).contains(n) by {
            assert(texts(sorted@).to_multiset().count(n) == texts(out@).to_multiset().count(n));
        }
    }
    sorted
}

} // verus!
