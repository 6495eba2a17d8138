//! Row masks for row-level filtering (weekends, holidays, ...).
//!
//! Masks are orthogonal to NA: a masked row is excluded from computation, an
//! NA cell is a missing value. Named masks live in a `MaskSet`; the active
//! mask of a frame is compiled from a boolean `MaskExpr` over those names.
//! The calendar index stays intact: masked rows remain, they are only skipped.
//! A set bit means "masked".

use vstd::prelude::*;
use std::sync::Arc;
use bitvec::vec::BitVec;
use crate::align::{IndexColumn, col_keys, lex_le, spec_reindex_rows, rows_view, reindex_rows};
use crate::text::concat3;

verus! {

broadcast use vstd::utf8::encode_utf8_decode_utf8;

// ─── Bit-vectors ────────────────────────────────────────────────────────────

/// A row mask held in a `bitvec` bit-vector, one bit per row.
#[verifier::external_body]
#[derive(Debug)]
pub struct MaskBits {
    inner: BitVec,
}

impl Clone for MaskBits {
    /// `BitVec::clone`: a copy with the same bits.
    #[verifier::external_body]
    fn clone(&self) -> (r: Self)
        ensures
            mask_bits(r) == mask_bits(*self),
    {
        MaskBits { inner: self.inner.clone() }
    }
}

/// The bits of a mask, in row order.
pub uninterp spec fn mask_bits(m: MaskBits) -> Seq<bool>;

/// The bits of a shared mask.
pub open spec fn arc_bits(a: Arc<MaskBits>) -> Seq<bool> {
    mask_bits(*a)
}

/// The longest bit-vector `bitvec` can describe: `usize::MAX >> 3` bits.
pub open spec fn max_mask_len() -> nat {
    (usize::MAX / 8) as nat
}

/// `n` unset bits.
pub open spec fn zeros(n: nat) -> Seq<bool> {
    Seq::new(n, |_i: int| false)
}

/// `a & b` with `b` zero-extended (or cut) to the length of `a`.
pub open spec fn and_bits(a: Seq<bool>, b: Seq<bool>) -> Seq<bool> {
    Seq::new(a.len(), |i: int| a[i] && i < b.len() && b[i])
}

/// `a | b` with `b` zero-extended (or cut) to the length of `a`.
pub open spec fn or_bits(a: Seq<bool>, b: Seq<bool>) -> Seq<bool> {
    Seq::new(a.len(), |i: int| a[i] || (i < b.len() && b[i]))
}

/// Every bit flipped.
pub open spec fn not_bits(a: Seq<bool>) -> Seq<bool> {
    Seq::new(a.len(), |i: int| !a[i])
}

/// How many bits equal `v`.
pub open spec fn count_bits(s: Seq<bool>, v: bool) -> nat
    decreases s.len(),
{
    if s.len() == 0 {
        0
    } else {
        count_bits(s.drop_last(), v) + if s.last() == v {
            1nat
        } else {
            0nat
        }
    }
}

impl MaskBits {
    /// `BitVec::repeat`: `len` copies of `bit`. `bitvec` panics on more than
    /// `usize::MAX >> 3` bits.
    #[verifier::external_body]
    pub(crate) fn repeat(bit: bool, len: usize) -> (r: Self)
        requires
            len <= max_mask_len(),
        ensures
            mask_bits(r) == Seq::new(len as nat, |_i: int| bit),
    {
        MaskBits { inner: BitVec::repeat(bit, len) }
    }

    /// A bit-vector holding the given booleans, in order.
    pub fn from_bools(v: &[bool]) -> (r: Self)
        requires
            v@.len() <= max_mask_len(),
        ensures
            mask_bits(r) == v@,
    {
        let mut m = MaskBits::repeat(false, v.len());
        let mut i: usize = 0;
        while i < v.len()
            invariant
                i <= v@.len(),
                mask_bits(m).len() == v@.len(),
                forall|j: int| 0 <= j < i ==> #[trigger] mask_bits(m)[j] == v@[j],
            decreases v@.len() - i,
        {
            m.set(i, v[i]);
            i += 1;
        }
        assert(mask_bits(m) =~= v@);
        m
    }

    /// `BitVec::len`: the number of bits.
    #[verifier::external_body]
    pub(crate) fn len(&self) -> (n: usize)
        ensures
            n == mask_bits(*self).len(),
    {
        self.inner.len()
    }

    /// Bit `i` (`BitSlice` indexing, which panics past the end).
    #[verifier::external_body]
    pub(crate) fn get(&self, i: usize) -> (b: bool)
        requires
            i < mask_bits(*self).len(),
        ensures
            b == mask_bits(*self)[i as int],
    {
        self.inner[i]
    }

    /// `BitSlice::set`, which panics past the end.
    #[verifier::external_body]
    pub(crate) fn set(&mut self, i: usize, value: bool)
        requires
            i < mask_bits(*old(self)).len(),
        ensures
            mask_bits(*final(self)) == mask_bits(*old(self)).update(i as int, value),
    {
        self.inner.set(i, value)
    }

    /// `!` on a `BitVec`: every bit flipped.
    #[verifier::external_body]
    pub(crate) fn negate(self) -> (r: Self)
        ensures
            mask_bits(r) == not_bits(mask_bits(self)),
    {
        MaskBits { inner: !self.inner }
    }

    /// `&=` of `BitVec`s: bits past the end of `rhs` are cleared.
    #[verifier::external_body]
    pub(crate) fn and_assign(&mut self, rhs: &MaskBits)
        ensures
            mask_bits(*final(self)) == and_bits(mask_bits(*old(self)), mask_bits(*rhs)),
    {
        self.inner &= &rhs.inner;
    }

    /// `|=` of `BitVec`s: bits past the end of `rhs` are kept.
    #[verifier::external_body]
    pub(crate) fn or_assign(&mut self, rhs: &MaskBits)
        ensures
            mask_bits(*final(self)) == or_bits(mask_bits(*old(self)), mask_bits(*rhs)),
    {
        self.inner |= &rhs.inner;
    }

    /// `BitSlice::count_ones`: the number of set bits.
    #[verifier::external_body]
    pub(crate) fn count_ones(&self) -> (n: usize)
        ensures
            n == count_bits(mask_bits(*self), true),
    {
        self.inner.count_ones()
    }

    /// `BitSlice::count_zeros`: the number of unset bits.
    #[verifier::external_body]
    pub(crate) fn count_zeros(&self) -> (n: usize)
        ensures
            n == count_bits(mask_bits(*self), false),
    {
        self.inner.count_zeros()
    }

    /// `==` of `BitVec`s: same length and same bits.
    #[verifier::external_body]
    pub(crate) fn same_bits(&self, other: &MaskBits) -> (r: bool)
        ensures
            r == (mask_bits(*self) == mask_bits(*other)),
    {
        self.inner == other.inner
    }

    /// The bits as booleans.
    pub fn to_bools(&self) -> (v: Vec<bool>)
        ensures
            v@ == mask_bits(*self),
    {
        let n = self.len();
        let mut v: Vec<bool> = Vec::new();
        let mut i: usize = 0;
        while i < n
            invariant
                i <= n,
                n == mask_bits(*self).len(),
                v@ == mask_bits(*self).take(i as int),
            decreases n - i,
        {
            v.push(self.get(i));
            assert(mask_bits(*self).take(i + 1) =~= mask_bits(*self).take(i as int).push(
                mask_bits(*self)[i as int],
            ));
            i += 1;
        }
        assert(mask_bits(*self).take(n as int) =~= mask_bits(*self));
        v
    }
}

// ─── Mask expressions ───────────────────────────────────────────────────────

/// Mask expression: boolean composition of named masks.
#[derive(Debug, PartialEq, Eq)]
pub enum MaskExpr {
    Name(String),
    Not(Box<MaskExpr>),
    And(Vec<MaskExpr>),
    Or(Vec<MaskExpr>),
}

/// The meaning of a mask expression: its tree, with names as text.
pub ghost enum ExprV {
    Name(Seq<char>),
    Not(Box<ExprV>),
    And(Seq<ExprV>),
    Or(Seq<ExprV>),
}

pub open spec fn expr_view(e: MaskExpr) -> ExprV
    decreases e,
{
    match e {
        MaskExpr::Name(n) => ExprV::Name(n@),
        MaskExpr::Not(b) => ExprV::Not(Box::new(expr_view(*b))),
        MaskExpr::And(es) => ExprV::And(exprs_view(es@)),
        MaskExpr::Or(es) => ExprV::Or(exprs_view(es@)),
    }
}

pub open spec fn exprs_view(es: Seq<MaskExpr>) -> Seq<ExprV>
    decreases es,
{
    if es.len() == 0 {
        Seq::empty()
    } else {
        exprs_view(es.drop_last()).push(expr_view(es.last()))
    }
}

impl View for MaskExpr {
    type V = ExprV;

    open spec fn view(&self) -> ExprV {
        expr_view(*self)
    }
}

/// The view of an optional expression.
pub open spec fn opt_expr_view(e: Option<MaskExpr>) -> Option<ExprV> {
    match e {
        Some(x) => Some(expr_view(x)),
        None => None,
    }
}

proof fn lemma_exprs_view(es: Seq<MaskExpr>)
    ensures
        exprs_view(es).len() == es.len(),
        forall|i: int| 0 <= i < es.len() ==> #[trigger] exprs_view(es)[i] == expr_view(es[i]),
    decreases es.len(),
{
    if es.len() > 0 {
        lemma_exprs_view(es.drop_last());
        assert forall|i: int| 0 <= i < es.len() implies #[trigger] exprs_view(es)[i] == expr_view(es[i]) by {
            if i < es.len() - 1 {
                assert(es.drop_last()[i] == es[i]);
            }
        }
    }
}

impl Clone for MaskExpr {
    fn clone(&self) -> (r: Self)
        ensures
            r@ == self@,
    {
        copy_expr(self)
    }
}

/// A copy of an expression.
pub fn copy_expr(e: &MaskExpr) -> (r: MaskExpr)
    ensures
        r@ == e@,
    decreases e,
{
    match e {
        MaskExpr::Name(n) => MaskExpr::Name(n.clone()),
        MaskExpr::Not(inner) => MaskExpr::Not(Box::new(copy_expr(inner))),
        MaskExpr::And(es) => MaskExpr::And(copy_exprs(es)),
        MaskExpr::Or(es) => MaskExpr::Or(copy_exprs(es)),
    }
}

fn copy_exprs(es: &Vec<MaskExpr>) -> (r: Vec<MaskExpr>)
    ensures
        exprs_view(r@) == exprs_view(es@),
    decreases es,
{
    let mut r: Vec<MaskExpr> = Vec::new();
    let mut i: usize = 0;
    while i < es.len()
        invariant
            i <= es@.len(),
            r@.len() == i,
            forall|j: int| 0 <= j < i ==> expr_view(#[trigger] r@[j]) == expr_view(es@[j]),
        decreases es@.len() - i,
    {
        assert(decreases_to!(es => es@[i as int]));
        r.push(copy_expr(&es[i]));
        i += 1;
    }
    proof {
        lemma_exprs_view(r@);
        lemma_exprs_view(es@);
        assert(exprs_view(r@) =~= exprs_view(es@));
    }
    r
}

// ─── Mask sets ──────────────────────────────────────────────────────────────

/// Names are ordered by their UTF-8 bytes, as `String`s are.
pub open spec fn name_lt(a: Seq<char>, b: Seq<char>) -> bool {
    lex_le(vstd::utf8::encode_utf8(a), vstd::utf8::encode_utf8(b)) && a != b
}

/// The named masks of a set as (name, bits) pairs, in order.
pub open spec fn entries_model(e: Seq<(String, Arc<MaskBits>)>) -> Seq<(Seq<char>, Seq<bool>)> {
    e.map_values(|x: (String, Arc<MaskBits>)| (x.0@, mask_bits(*x.1)))
}

/// Names in strictly increasing order (so each name occurs once).
pub open spec fn names_sorted(m: Seq<(Seq<char>, Seq<bool>)>) -> bool {
    forall|i: int, j: int| 0 <= i < j < m.len() ==> name_lt(#[trigger] m[i].0, #[trigger] m[j].0)
}

/// The bits stored under a name (the first entry with that name).
pub open spec fn lookup(m: Seq<(Seq<char>, Seq<bool>)>, n: Seq<char>) -> Option<Seq<bool>>
    decreases m.len(),
{
    if m.len() == 0 {
        None
    } else if m[0].0 == n {
        Some(m[0].1)
    } else {
        lookup(m.drop_first(), n)
    }
}

/// Storing bits under a name in an ordered map: the entry of that name is
/// replaced, or a new entry goes in before the first greater name.
pub open spec fn put_sorted(m: Seq<(Seq<char>, Seq<bool>)>, n: Seq<char>, b: Seq<bool>) -> Seq<
    (Seq<char>, Seq<bool>),
>
    decreases m.len(),
{
    if m.len() == 0 {
        seq![(n, b)]
    } else if m[0].0 == n {
        seq![(n, b)] + m.drop_first()
    } else if name_lt(n, m[0].0) {
        seq![(n, b)] + m
    } else {
        seq![m[0]] + put_sorted(m.drop_first(), n, b)
    }
}

pub open spec fn not_found_message(n: Seq<char>) -> Seq<char> {
    "Mask '"@ + n + "' not found"@
}

pub open spec fn collision_message(n: Seq<char>) -> Seq<char> {
    "Mask '"@ + n + "' collision: different bitsets with same name"@
}

pub open spec fn length_message(n: Seq<char>, len: nat, expected: nat) -> Seq<char> {
    "Mask '"@ + n + "' length "@ + crate::fmt::decimal(len) + " doesn't match expected "@
        + crate::fmt::decimal(expected)
}

/// Merging `o` into `m` entry by entry: a name already present with other
/// bits stops the merge (and is reported); a name present with the same bits
/// is skipped; a new name is stored.
pub open spec fn merge_model(m: Seq<(Seq<char>, Seq<bool>)>, o: Seq<(Seq<char>, Seq<bool>)>) -> (
    Seq<(Seq<char>, Seq<bool>)>,
    Option<Seq<char>>,
)
    decreases o.len(),
{
    if o.len() == 0 {
        (m, None)
    } else {
        match lookup(m, o[0].0) {
            Some(b) => if b != o[0].1 {
                (m, Some(o[0].0))
            } else {
                merge_model(m, o.drop_first())
            },
            None => merge_model(put_sorted(m, o[0].0, o[0].1), o.drop_first()),
        }
    }
}

proof fn lemma_name_lt_trans(a: Seq<char>, b: Seq<char>, c: Seq<char>)
    requires
        name_lt(a, b),
        name_lt(b, c),
    ensures
        name_lt(a, c),
{
    let (ea, eb, ec) = (
        vstd::utf8::encode_utf8(a),
        vstd::utf8::encode_utf8(b),
        vstd::utf8::encode_utf8(c),
    );
    crate::align::lemma_lex_trans(ea, eb, ec);
    if a == c {
        crate::align::lemma_lex_antisym(ea, eb);
        assert(vstd::utf8::decode_utf8(ea) == a);
        assert(vstd::utf8::decode_utf8(eb) == b);
    }
}

/// Two different names are ordered one way or the other, and not both.
proof fn lemma_name_lt_total(a: Seq<char>, b: Seq<char>)
    requires
        a != b,
    ensures
        name_lt(a, b) || name_lt(b, a),
        !(name_lt(a, b) && name_lt(b, a)),
{
    let (ea, eb) = (vstd::utf8::encode_utf8(a), vstd::utf8::encode_utf8(b));
    crate::align::lemma_lex_total(ea, eb);
    if name_lt(a, b) && name_lt(b, a) {
        crate::align::lemma_lex_antisym(ea, eb);
        assert(vstd::utf8::decode_utf8(ea) == a);
        assert(vstd::utf8::decode_utf8(eb) == b);
    }
}

/// Looking up a name none of the entries has.
proof fn lemma_lookup_absent(m: Seq<(Seq<char>, Seq<bool>)>, n: Seq<char>)
    requires
        forall|i: int| 0 <= i < m.len() ==> (#[trigger] m[i]).0 != n,
    ensures
        lookup(m, n) is None,
    decreases m.len(),
{
    if m.len() > 0 {
        assert(m[0].0 != n);
        assert forall|i: int| 0 <= i < m.drop_first().len() implies (#[trigger] m.drop_first()[i]).0 != n by {
            assert(m.drop_first()[i] == m[i + 1]);
        }
        lemma_lookup_absent(m.drop_first(), n);
    }
}

/// In sorted entries, the slot of a name (the first entry not below it)
/// decides both where it is stored and what a lookup finds.
proof fn lemma_slot(m: Seq<(Seq<char>, Seq<bool>)>, n: Seq<char>, b: Seq<bool>, p: int)
    requires
        names_sorted(m),
        0 <= p <= m.len(),
        forall|i: int| 0 <= i < p ==> name_lt((#[trigger] m[i]).0, n),
        p < m.len() ==> !name_lt(m[p].0, n),
    ensures
        put_sorted(m, n, b) == (if p < m.len() && m[p].0 == n {
            m.update(p, (n, b))
        } else {
            m.insert(p, (n, b))
        }),
        lookup(m, n) == (if p < m.len() && m[p].0 == n {
            Some(m[p].1)
        } else {
            None
        }),
    decreases p,
{
    if p == 0 {
        if m.len() > 0 && m[0].0 != n {
            lemma_name_lt_total(m[0].0, n);
            assert forall|i: int| 0 <= i < m.len() implies (#[trigger] m[i]).0 != n by {
                if i > 0 {
                    lemma_name_lt_trans(n, m[0].0, m[i].0);
                }
            }
            lemma_lookup_absent(m, n);
            assert(seq![(n, b)] + m =~= m.insert(0, (n, b)));
        } else if m.len() > 0 {
            assert(seq![(n, b)] + m.drop_first() =~= m.update(0, (n, b)));
        } else {
            assert(seq![(n, b)] =~= m.insert(0, (n, b)));
        }
    } else {
        let t = m.drop_first();
        assert(name_lt(m[0].0, n));
        lemma_name_lt_total(m[0].0, n);
        assert forall|i: int, j: int| 0 <= i < j < t.len() implies name_lt(#[trigger] t[i].0, #[trigger] t[j].0) by {
            assert(t[i] == m[i + 1]);
            assert(t[j] == m[j + 1]);
        }
        assert forall|i: int| 0 <= i < p - 1 implies name_lt((#[trigger] t[i]).0, n) by {
            assert(t[i] == m[i + 1]);
        }
        lemma_slot(t, n, b, p - 1);
        if p < m.len() && m[p].0 == n {
            assert(seq![m[0]] + t.update(p - 1, (n, b)) =~= m.update(p, (n, b)));
        } else {
            assert(seq![m[0]] + t.insert(p - 1, (n, b)) =~= m.insert(p, (n, b)));
        }
    }
}

/// Storing keeps the names sorted.
proof fn lemma_put_sorted_keeps_order(m: Seq<(Seq<char>, Seq<bool>)>, n: Seq<char>, b: Seq<bool>, p: int)
    requires
        names_sorted(m),
        0 <= p <= m.len(),
        forall|i: int| 0 <= i < p ==> name_lt((#[trigger] m[i]).0, n),
        p < m.len() ==> !name_lt(m[p].0, n),
    ensures
        names_sorted(put_sorted(m, n, b)),
{
    lemma_slot(m, n, b, p);
    let r = put_sorted(m, n, b);
    if p < m.len() && m[p].0 == n {
        assert forall|i: int, j: int| 0 <= i < j < r.len() implies name_lt(#[trigger] r[i].0, #[trigger] r[j].0) by {
            assert(r[i].0 == m[i].0);
            assert(r[j].0 == m[j].0);
        }
    } else {
        assert forall|i: int, j: int| 0 <= i < j < r.len() implies name_lt(#[trigger] r[i].0, #[trigger] r[j].0) by {
            if j < p {
                assert(r[i] == m[i] && r[j] == m[j]);
            } else if j == p {
                assert(r[i] == m[i]);
            } else if i < p {
                assert(r[i] == m[i] && r[j] == m[j - 1]);
                if p < m.len() {
                    lemma_name_lt_total(m[p].0, n);
                    if j - 1 > p {
                        lemma_name_lt_trans(n, m[p].0, m[j - 1].0);
                    }
                }
                lemma_name_lt_trans(m[i].0, n, m[j - 1].0);
            } else if i == p {
                assert(r[j] == m[j - 1]);
                lemma_name_lt_total(m[p].0, n);
                if j - 1 > p {
                    lemma_name_lt_trans(n, m[p].0, m[j - 1].0);
                }
            } else {
                assert(r[i] == m[i - 1] && r[j] == m[j - 1]);
            }
        }
    }
}

/// Named row masks, each the length of the frame's index, kept in name order
/// with each name once.
#[derive(Debug, Clone)]
pub struct MaskSet {
    pub row_masks: Vec<(String, Arc<MaskBits>)>,
}

impl MaskSet {
    /// The (name, bits) pairs of the set, in name order.
    pub open spec fn model(&self) -> Seq<(Seq<char>, Seq<bool>)> {
        entries_model(self.row_masks@)
    }

    /// Names strictly increasing.
    pub open spec fn wf(&self) -> bool {
        names_sorted(self.model())
    }

    /// Create an empty mask set.
    pub fn new() -> (s: Self)
        ensures
            s.model() == Seq::<(Seq<char>, Seq<bool>)>::empty(),
            s.wf(),
    {
        let s = MaskSet { row_masks: Vec::new() };
        assert(s.model() =~= Seq::<(Seq<char>, Seq<bool>)>::empty());
        s
    }

    /// The first entry whose name is not below `name`.
    fn slot(&self, name: &str) -> (p: usize)
        requires
            self.wf(),
        ensures
            p <= self.model().len(),
            forall|i: int| 0 <= i < p ==> name_lt((#[trigger] self.model()[i]).0, name@),
            p < self.model().len() ==> !name_lt(self.model()[p as int].0, name@),
    {
        let n = self.row_masks.len();
        let mut i: usize = 0;
        while i < n
            invariant
                i <= n,
                n == self.model().len(),
                forall|j: int| 0 <= j < i ==> name_lt((#[trigger] self.model()[j]).0, name@),
            decreases n - i,
        {
            let entry_name = self.row_masks[i].0.as_str();
            assert(self.model()[i as int].0 == entry_name@);
            let le = crate::align::bytes_le(entry_name.as_bytes(), name.as_bytes());
            let eq = crate::text::str_eq(entry_name, name);
            if !le || eq {
                return i;
            }
            i += 1;
        }
        i
    }

    /// Store bits under a name (replace or insert in order).
    fn put(&mut self, name: String, mask: Arc<MaskBits>)
        requires
            old(self).wf(),
        ensures
            final(self).wf(),
            final(self).model() == put_sorted(old(self).model(), name@, mask_bits(*mask)),
    {
        let p = self.slot(name.as_str());
        let ghost m = self.model();
        let ghost b = arc_bits(mask);
        proof {
            lemma_slot(m, name@, b, p as int);
            lemma_put_sorted_keeps_order(m, name@, b, p as int);
        }
        let same = p < self.row_masks.len() && crate::text::str_eq(
            self.row_masks[p].0.as_str(),
            name.as_str(),
        );
        if same {
            self.row_masks.set(p, (name, mask));
            assert(self.model() =~= m.update(p as int, (name@, b)));
        } else {
            self.row_masks.insert(p, (name, mask));
            assert(self.model() =~= m.insert(p as int, (name@, b)));
        }
    }

    /// Add or update a named mask. Fails when its length is not
    /// `expected_len`, or when the name already holds different bits.
    pub fn insert(&mut self, name: String, mask: Arc<MaskBits>, expected_len: usize) -> (r: Result<
        (),
        String,
    >)
        requires
            old(self).wf(),
        ensures
            final(self).wf(),
            r is Ok <==> (mask_bits(*mask).len() == expected_len && match lookup(
                old(self).model(),
                name@,
            ) {
                Some(b) => b == mask_bits(*mask),
                None => true,
            }),
            r is Ok ==> final(self).model() == put_sorted(old(self).model(), name@, mask_bits(*mask)),
            r is Err ==> final(self).model() == old(self).model(),
            r matches Err(e) ==> e@ == (if mask_bits(*mask).len() != expected_len {
                length_message(name@, mask_bits(*mask).len(), expected_len as nat)
            } else {
                collision_message(name@)
            }),
    {
        let len = mask.len();
        if len != expected_len {
            let mut e = concat3("Mask '", name.as_str(), "' length ");
            crate::fmt::push_decimal(&mut e, len as u64);
            e.append(" doesn't match expected ");
            crate::fmt::push_decimal(&mut e, expected_len as u64);
            return Err(e);
        }
        let p = self.slot(name.as_str());
        proof {
            lemma_slot(self.model(), name@, arc_bits(mask), p as int);
        }
        if p < self.row_masks.len() && crate::text::str_eq(self.row_masks[p].0.as_str(), name.as_str()) {
            if !self.row_masks[p].1.same_bits(&mask) {
                return Err(concat3("Mask '", name.as_str(), "' collision: different bitsets with same name"));
            }
        }
        self.put(name, mask);
        Ok(())
    }

    /// The mask stored under a name.
    pub fn get(&self, name: &str) -> (r: Option<&Arc<MaskBits>>)
        requires
            self.wf(),
        ensures
            r is Some <==> lookup(self.model(), name@) is Some,
            r matches Some(m) ==> lookup(self.model(), name@) == Some(mask_bits(**m)),
    {
        let p = self.slot(name);
        proof {
            lemma_slot(self.model(), name@, Seq::empty(), p as int);
        }
        if p < self.row_masks.len() && crate::text::str_eq(self.row_masks[p].0.as_str(), name) {
            Some(&self.row_masks[p].1)
        } else {
            None
        }
    }

    /// Whether a mask is stored under a name.
    pub fn contains(&self, name: &str) -> (r: bool)
        requires
            self.wf(),
        ensures
            r == lookup(self.model(), name@) is Some,
    {
        self.get(name).is_some()
    }

    /// Merge another mask set into this one (for binary operations), in name
    /// order; fails at the first name that holds different bits in the two.
    pub fn merge(&mut self, other: &MaskSet) -> (r: Result<(), String>)
        requires
            old(self).wf(),
        ensures
            final(self).wf(),
            final(self).model() == merge_model(old(self).model(), other.model()).0,
            r is Ok <==> merge_model(old(self).model(), other.model()).1 is None,
            r matches Err(e) ==> e@ == collision_message(
                merge_model(old(self).model(), other.model()).1->0,
            ),
    {
        let ghost m0 = self.model();
        let ghost o = other.model();
        let n = other.row_masks.len();
        let mut i: usize = 0;
        assert(o.skip(0) =~= o);
        while i < n
            invariant
                i <= n,
                n == o.len(),
                o == other.model(),
                m0 == old(self).model(),
                self.wf(),
                merge_model(m0, o) == merge_model(self.model(), o.skip(i as int)),
            decreases n - i,
        {
            let ghost m = self.model();
            let entry = &other.row_masks[i];
            assert(o.skip(i as int)[0] == o[i as int]);
            assert(o.skip(i as int).drop_first() =~= o.skip(i + 1));
            assert(o[i as int] == (entry.0@, mask_bits(*entry.1)));
            match self.get(entry.0.as_str()) {
                Some(existing) => {
                    if !existing.same_bits(&entry.1) {
                        assert(merge_model(m, o.skip(i as int)) == (m, Some(o[i as int].0)));
                        return Err(concat3("Mask '", entry.0.as_str(), "' collision: different bitsets with same name"));
                    }
                },
                None => {
                    self.put(entry.0.clone(), entry.1.clone());
                },
            }
            i += 1;
        }
        assert(o.skip(n as int) =~= Seq::<(Seq<char>, Seq<bool>)>::empty());
        Ok(())
    }
}

impl Default for MaskSet {
    fn default() -> (s: Self)
        ensures
            s.model() == Seq::<(Seq<char>, Seq<bool>)>::empty(),
            s.wf(),
    {
        Self::new()
    }
}

// ─── Active masks ───────────────────────────────────────────────────────────

/// Active mask: compiled bits, and the expression they were compiled from.
#[derive(Debug, Clone)]
pub struct ActiveMask {
    /// How this mask was made (for replay after realignment).
    pub expr: Option<MaskExpr>,
    /// One bit per row: true = masked (excluded), false = included.
    pub compiled: Arc<MaskBits>,
}

impl ActiveMask {
    /// The bits of the mask.
    pub open spec fn bits(&self) -> Seq<bool> {
        mask_bits(*self.compiled)
    }

    /// An active mask over `nrows` rows with no row masked.
    pub fn empty(nrows: usize) -> (m: Self)
        requires
            nrows <= max_mask_len(),
        ensures
            m.expr is None,
            m.bits() == zeros(nrows as nat),
    {
        let b = MaskBits::repeat(false, nrows);
        assert(mask_bits(b) =~= zeros(nrows as nat));
        ActiveMask { expr: None, compiled: Arc::new(b) }
    }

    /// An active mask from compiled bits.
    pub fn from_bitvec(compiled: MaskBits, expr: Option<MaskExpr>) -> (m: Self)
        ensures
            m.expr == expr,
            m.bits() == mask_bits(compiled),
    {
        ActiveMask { expr, compiled: Arc::new(compiled) }
    }

    /// Whether a row is masked.
    pub fn is_masked(&self, row: usize) -> (b: bool)
        requires
            row < self.bits().len(),
        ensures
            b == self.bits()[row as int],
    {
        self.compiled.get(row)
    }

    /// Number of masked rows.
    pub fn count_masked(&self) -> (n: usize)
        ensures
            n == count_bits(self.bits(), true),
    {
        self.compiled.count_ones()
    }

    /// Number of unmasked rows.
    pub fn count_unmasked(&self) -> (n: usize)
        ensures
            n == count_bits(self.bits(), false),
    {
        self.compiled.count_zeros()
    }
}

// ─── Compilation ────────────────────────────────────────────────────────────

/// What compiling an expression against named masks gives: the bits, or the
/// message naming the first missing mask (left to right).
pub open spec fn spec_compile(e: ExprV, m: Seq<(Seq<char>, Seq<bool>)>, nrows: nat) -> Result<
    Seq<bool>,
    Seq<char>,
>
    decreases e,
{
    match e {
        ExprV::Name(n) => match lookup(m, n) {
            Some(b) => Ok(b),
            None => Err(not_found_message(n)),
        },
        ExprV::Not(inner) => match spec_compile(*inner, m, nrows) {
            Ok(b) => Ok(not_bits(b)),
            Err(x) => Err(x),
        },
        ExprV::And(es) => spec_compile_list(es, m, nrows, true),
        ExprV::Or(es) => spec_compile_list(es, m, nrows, false),
    }
}

/// Compiling a list and folding it left to right with `&` (`conj`) or `|`;
/// an empty list masks nothing.
pub open spec fn spec_compile_list(
    es: Seq<ExprV>,
    m: Seq<(Seq<char>, Seq<bool>)>,
    nrows: nat,
    conj: bool,
) -> Result<Seq<bool>, Seq<char>>
    decreases es,
{
    if es.len() == 0 {
        Ok(zeros(nrows))
    } else if es.len() == 1 {
        spec_compile(es[0], m, nrows)
    } else {
        match spec_compile_list(es.drop_last(), m, nrows, conj) {
            Err(x) => Err(x),
            Ok(acc) => match spec_compile(es.last(), m, nrows) {
                Err(x) => Err(x),
                Ok(b) => Ok(
                    if conj {
                        and_bits(acc, b)
                    } else {
                        or_bits(acc, b)
                    },
                ),
            },
        }
    }
}

/// Compile a mask expression against a mask set. An empty `And` or `Or`
/// masks nothing (`nrows` unset bits).
pub fn compile_mask_expr(expr: &MaskExpr, masks: &MaskSet, nrows: usize) -> (r: Result<
    MaskBits,
    String,
>)
    requires
        masks.wf(),
        nrows <= max_mask_len(),
    ensures
        match r {
            Ok(b) => spec_compile(expr@, masks.model(), nrows as nat) == Ok::<Seq<bool>, Seq<char>>(
                mask_bits(b),
            ),
            Err(e) => spec_compile(expr@, masks.model(), nrows as nat) == Err::<Seq<bool>, Seq<char>>(
                e@,
            ),
        },
    decreases expr,
{
    match expr {
        MaskExpr::Name(name) => match masks.get(name.as_str()) {
            Some(m) => Ok(MaskBits::clone(m)),
            None => Err(concat3("Mask '", name.as_str(), "' not found")),
        },
        MaskExpr::Not(inner) => match compile_mask_expr(inner, masks, nrows) {
            Ok(b) => Ok(b.negate()),
            Err(e) => Err(e),
        },
        MaskExpr::And(exprs) => compile_list(exprs, masks, nrows, true),
        MaskExpr::Or(exprs) => compile_list(exprs, masks, nrows, false),
    }
}

fn compile_list(exprs: &Vec<MaskExpr>, masks: &MaskSet, nrows: usize, conj: bool) -> (r: Result<
    MaskBits,
    String,
>)
    requires
        masks.wf(),
        nrows <= max_mask_len(),
    ensures
        match r {
            Ok(b) => spec_compile_list(exprs_view(exprs@), masks.model(), nrows as nat, conj) == Ok::<
                Seq<bool>,
                Seq<char>,
            >(mask_bits(b)),
            Err(e) => spec_compile_list(exprs_view(exprs@), masks.model(), nrows as nat, conj) == Err::<
                Seq<bool>,
                Seq<char>,
            >(e@),
        },
    decreases exprs,
{
    let ghost vs = exprs_view(exprs@);
    proof {
        lemma_exprs_view(exprs@);
    }
    if exprs.len() == 0 {
        let z = MaskBits::repeat(false, nrows);
        assert(mask_bits(z) =~= zeros(nrows as nat));
        return Ok(z);
    }
    assert(decreases_to!(exprs => exprs@[0]));
    let mut result = match compile_mask_expr(&exprs[0], masks, nrows) {
        Ok(b) => b,
        Err(e) => {
            proof {
                if exprs@.len() > 1 {
                    assert(vs.take(1)[0] == vs[0]);
                    lemma_compile_list_err_extend(vs, masks.model(), nrows as nat, conj, 1, e@);
                }
            }
            return Err(e);
        },
    };
    let mut i: usize = 1;
    assert(vs.take(1).len() == 1 && vs.take(1)[0] == vs[0]);
    while i < exprs.len()
        invariant
            1 <= i <= exprs@.len(),
            vs == exprs_view(exprs@),
            vs.len() == exprs@.len(),
            forall|j: int| 0 <= j < exprs@.len() ==> #[trigger] vs[j] == expr_view(exprs@[j]),
            masks.wf(),
            nrows <= max_mask_len(),
            spec_compile_list(vs.take(i as int), masks.model(), nrows as nat, conj) == Ok::<
                Seq<bool>,
                Seq<char>,
            >(mask_bits(result)),
        decreases exprs@.len() - i,
    {
        assert(vs.take(i + 1).drop_last() =~= vs.take(i as int));
        assert(vs.take(i + 1).last() == vs[i as int]);
        assert(decreases_to!(exprs => exprs@[i as int]));
        let next = match compile_mask_expr(&exprs[i], masks, nrows) {
            Ok(b) => b,
            Err(e) => {
                proof {
                    lemma_compile_list_err(vs, masks.model(), nrows as nat, conj, i as int, e@);
                }
                return Err(e);
            },
        };
        if conj {
            result.and_assign(&next);
        } else {
            result.or_assign(&next);
        }
        i += 1;
    }
    assert(vs.take(vs.len() as int) =~= vs);
    Ok(result)
}

/// An error in the list at position `i` (after an error-free prefix) is the
/// error of the whole list.
proof fn lemma_compile_list_err(
    es: Seq<ExprV>,
    m: Seq<(Seq<char>, Seq<bool>)>,
    nrows: nat,
    conj: bool,
    i: int,
    e: Seq<char>,
)
    requires
        1 <= i < es.len(),
        spec_compile_list(es.take(i), m, nrows, conj) is Ok,
        spec_compile(es[i], m, nrows) == Err::<Seq<bool>, Seq<char>>(e),
    ensures
        spec_compile_list(es, m, nrows, conj) == Err::<Seq<bool>, Seq<char>>(e),
    decreases es.len() - i,
{
    assert(es.take(i + 1).drop_last() =~= es.take(i));
    assert(es.take(i + 1).last() == es[i]);
    if i + 1 < es.len() {
        lemma_compile_list_err_extend(es, m, nrows, conj, i + 1, e);
    } else {
        assert(es.take(i + 1) =~= es);
    }
}

/// An error of a prefix is the error of every longer prefix.
proof fn lemma_compile_list_err_extend(
    es: Seq<ExprV>,
    m: Seq<(Seq<char>, Seq<bool>)>,
    nrows: nat,
    conj: bool,
    k: int,
    e: Seq<char>,
)
    requires
        1 <= k <= es.len(),
        spec_compile_list(es.take(k), m, nrows, conj) == Err::<Seq<bool>, Seq<char>>(e),
    ensures
        spec_compile_list(es, m, nrows, conj) == Err::<Seq<bool>, Seq<char>>(e),
    decreases es.len() - k,
{
    if k < es.len() {
        assert(es.take(k + 1).drop_last() =~= es.take(k));
        if k == 1 {
            assert(es.take(1)[0] == es[0]);
        }
        lemma_compile_list_err_extend(es, m, nrows, conj, k + 1, e);
    } else {
        assert(es.take(k) =~= es);
    }
}

/// OR two active masks (for binary operations); the expressions are joined
/// with `Or` when both are known.
pub fn or_active_masks(a: &ActiveMask, b: &ActiveMask) -> (r: ActiveMask)
    ensures
        r.bits() == or_bits(a.bits(), b.bits()),
        opt_expr_view(r.expr) == match (a.expr, b.expr) {
            (Some(ae), Some(be)) => Some(ExprV::Or(seq![expr_view(ae), expr_view(be)])),
            (Some(e), None) => Some(expr_view(e)),
            (None, Some(e)) => Some(expr_view(e)),
            (None, None) => None::<ExprV>,
        },
{
    let mut result = MaskBits::clone(&a.compiled);
    result.or_assign(&b.compiled);
    let expr = match (&a.expr, &b.expr) {
        (Some(ae), Some(be)) => {
            let pair = vec![copy_expr(ae), copy_expr(be)];
            proof {
                lemma_exprs_view(pair@);
                assert(exprs_view(pair@) =~= seq![expr_view(*ae), expr_view(*be)]);
            }
            Some(MaskExpr::Or(pair))
        },
        (Some(e), None) => Some(copy_expr(e)),
        (None, Some(e)) => Some(copy_expr(e)),
        (None, None) => None,
    };
    ActiveMask::from_bitvec(result, expr)
}

// ─── Realignment ────────────────────────────────────────────────────────────

/// Bits carried through an exact-join row selection: a row found in the old
/// index keeps its bit, a new row is unmasked.
pub open spec fn reindex_bits(old: Seq<bool>, sel: Seq<Option<nat>>) -> Seq<bool> {
    Seq::new(
        sel.len(),
        |i: int|
            match sel[i] {
                Some(j) => j < old.len() && old[j as int],
                None => false,
            },
    )
}

/// Reindex a row mask onto a new index: rows whose key is in the old index
/// keep their bit, new rows are unmasked.
pub fn reindex_row_mask(old_mask: &MaskBits, old_index: &IndexColumn, new_index: &IndexColumn) -> (r:
    MaskBits)
    requires
        col_keys(*new_index).len() <= max_mask_len(),
    ensures
        mask_bits(r) == reindex_bits(mask_bits(*old_mask), spec_reindex_rows(*old_index, *new_index)),
{
    let rows = reindex_rows(old_index, new_index);
    let ghost sel = spec_reindex_rows(*old_index, *new_index);
    let n = new_index.len();
    let mut out = MaskBits::repeat(false, n);
    assert(rows@.len() == rows_view(rows@).len());
    let mut i: usize = 0;
    while i < n
        invariant
            i <= n,
            n == rows@.len(),
            rows_view(rows@) == sel,
            mask_bits(out).len() == n,
            forall|j: int| 0 <= j < i ==> #[trigger] mask_bits(out)[j] == reindex_bits(mask_bits(*old_mask), sel)[j],
            forall|j: int| i <= j < n ==> !#[trigger] mask_bits(out)[j],
        decreases n - i,
    {
        assert(sel[i as int] == crate::align::row_view(rows@[i as int]));
        match rows[i] {
            Some(j) => {
                if j < old_mask.len() {
                    let bit = old_mask.get(j);
                    out.set(i, bit);
                }
            },
            None => {},
        }
        i += 1;
    }
    assert(mask_bits(out) =~= reindex_bits(mask_bits(*old_mask), sel));
    out
}

/// Every mask of a set reindexed onto a new index.
pub open spec fn reindex_model(m: Seq<(Seq<char>, Seq<bool>)>, sel: Seq<Option<nat>>) -> Seq<
    (Seq<char>, Seq<bool>),
> {
    m.map_values(|e: (Seq<char>, Seq<bool>)| (e.0, reindex_bits(e.1, sel)))
}

/// Appending a name greater than every stored name.
proof fn lemma_put_last(m: Seq<(Seq<char>, Seq<bool>)>, n: Seq<char>, b: Seq<bool>)
    requires
        names_sorted(m),
        forall|i: int| 0 <= i < m.len() ==> name_lt((#[trigger] m[i]).0, n),
    ensures
        put_sorted(m, n, b) == m.push((n, b)),
        lookup(m, n) is None,
        names_sorted(m.push((n, b))),
{
    lemma_slot(m, n, b, m.len() as int);
    assert(m.insert(m.len() as int, (n, b)) =~= m.push((n, b)));
    lemma_put_sorted_keeps_order(m, n, b, m.len() as int);
}

/// Reindex every named mask of a set onto a new index.
pub fn reindex_maskset(old_masks: &MaskSet, old_index: &IndexColumn, new_index: &IndexColumn) -> (r:
    MaskSet)
    requires
        old_masks.wf(),
        col_keys(*new_index).len() <= max_mask_len(),
    ensures
        r.wf(),
        r.model() == reindex_model(old_masks.model(), spec_reindex_rows(*old_index, *new_index)),
{
    let ghost sel = spec_reindex_rows(*old_index, *new_index);
    let ghost om = old_masks.model();
    let mut new_masks = MaskSet::new();
    let n = old_masks.row_masks.len();
    let new_len = new_index.len();
    let mut i: usize = 0;
    while i < n
        invariant
            i <= n,
            n == om.len(),
            om == old_masks.model(),
            names_sorted(om),
            new_len == col_keys(*new_index).len(),
            new_len <= max_mask_len(),
            sel == spec_reindex_rows(*old_index, *new_index),
            new_masks.wf(),
            new_masks.model() == reindex_model(om.take(i as int), sel),
        decreases n - i,
    {
        let entry = &old_masks.row_masks[i];
        assert(om[i as int] == (entry.0@, mask_bits(*entry.1)));
        let bits = reindex_row_mask(&entry.1, old_index, new_index);
        let ghost m = new_masks.model();
        proof {
            assert forall|j: int| 0 <= j < m.len() implies name_lt((#[trigger] m[j]).0, entry.0@) by {
                assert(om.take(i as int)[j] == om[j]);
                assert(m[j].0 == om[j].0);
                assert(name_lt(om[j].0, om[i as int].0));
            }
            lemma_put_last(m, entry.0@, mask_bits(bits));
        }
        let inserted = new_masks.insert(entry.0.clone(), Arc::new(bits), new_len);
        assert(inserted is Ok);
        assert(reindex_model(om.take(i + 1), sel) =~= m.push((entry.0@, mask_bits(bits))));
        i += 1;
    }
    assert(om.take(n as int) =~= om);
    new_masks
}

/// Reindex an active mask onto a new index: its expression is compiled again
/// against the reindexed masks (all unmasked if that fails), or, without an
/// expression, its bits are reindexed.
pub fn reindex_active_mask(
    old_active: &ActiveMask,
    reindexed_masks: &MaskSet,
    old_index: &IndexColumn,
    new_index: &IndexColumn,
) -> (r: ActiveMask)
    requires
        reindexed_masks.wf(),
        col_keys(*new_index).len() <= max_mask_len(),
    ensures
        opt_expr_view(r.expr) == opt_expr_view(old_active.expr),
        r.bits() == match old_active.expr {
            Some(e) => match spec_compile(e@, reindexed_masks.model(), col_keys(*new_index).len()) {
                Ok(b) => b,
                Err(_) => zeros(col_keys(*new_index).len()),
            },
            None => reindex_bits(old_active.bits(), spec_reindex_rows(*old_index, *new_index)),
        },
{
    match &old_active.expr {
        Some(expr) => {
            let n = new_index.len();
            let compiled = match compile_mask_expr(expr, reindexed_masks, n) {
                Ok(b) => b,
                Err(_) => {
                    let z = MaskBits::repeat(false, n);
                    assert(mask_bits(z) =~= zeros(n as nat));
                    z
                },
            };
            ActiveMask::from_bitvec(compiled, Some(copy_expr(expr)))
        },
        None => {
            let bits = reindex_row_mask(&old_active.compiled, old_index, new_index);
            ActiveMask::from_bitvec(bits, None)
        },
    }
}

// ─── Laws ───────────────────────────────────────────────────────────────────

/// A mask stored under a name is what a later lookup of that name finds, and
/// storing leaves every other name as it was.
pub proof fn law_lookup_after_put(m: Seq<(Seq<char>, Seq<bool>)>, n: Seq<char>, b: Seq<bool>, k: Seq<char>)
    ensures
        lookup(put_sorted(m, n, b), k) == (if k == n {
            Some(b)
        } else {
            lookup(m, k)
        }),
    decreases m.len(),
{
    if m.len() == 0 {
        assert(seq![(n, b)].drop_first() =~= Seq::<(Seq<char>, Seq<bool>)>::empty());
    } else if m[0].0 != n && !name_lt(n, m[0].0) {
        law_lookup_after_put(m.drop_first(), n, b, k);
        let r = put_sorted(m, n, b);
        assert(r[0] == m[0]);
        assert(r.drop_first() =~= put_sorted(m.drop_first(), n, b));
    } else if m[0].0 == n {
        assert((seq![(n, b)] + m.drop_first()).drop_first() =~= m.drop_first());
    } else {
        assert((seq![(n, b)] + m).drop_first() =~= m);
    }
}

/// A merge that succeeds leaves every mask of both sets reachable: names of
/// the other set hold its bits, other names keep theirs.
pub proof fn law_merge_keeps_both(m: Seq<(Seq<char>, Seq<bool>)>, o: Seq<(Seq<char>, Seq<bool>)>, k: Seq<char>)
    requires
        names_sorted(o),
        merge_model(m, o).1 is None,
    ensures
        lookup(o, k) is Some ==> lookup(merge_model(m, o).0, k) == lookup(o, k),
        lookup(o, k) is None ==> lookup(merge_model(m, o).0, k) == lookup(m, k),
    decreases o.len(),
{
    if o.len() > 0 {
        let t = o.drop_first();
        assert forall|i: int, j: int| 0 <= i < j < t.len() implies name_lt(#[trigger] t[i].0, #[trigger] t[j].0) by {
            assert(t[i] == o[i + 1] && t[j] == o[j + 1]);
        }
        assert forall|i: int| 0 <= i < t.len() implies (#[trigger] t[i]).0 != o[0].0 by {
            assert(t[i] == o[i + 1]);
            assert(name_lt(o[0].0, o[i + 1].0));
        }
        lemma_lookup_absent(t, o[0].0);
        match lookup(m, o[0].0) {
            Some(b) => {
                law_merge_keeps_both(m, t, k);
            },
            None => {
                let m1 = put_sorted(m, o[0].0, o[0].1);
                law_merge_keeps_both(m1, t, k);
                law_lookup_after_put(m, o[0].0, o[0].1, k);
            },
        }
    }
}

/// Reindexing a mask onto the index it already has (with distinct keys)
/// leaves its bits as they were.
pub proof fn law_reindex_mask_same_index(bits: Seq<bool>, c: IndexColumn)
    requires
        bits.len() == col_keys(c).len(),
        forall|a: int, b: int|
            0 <= a < b < col_keys(c).len() ==> #[trigger] col_keys(c)[a] != #[trigger] col_keys(c)[b],
    ensures
        reindex_bits(bits, spec_reindex_rows(c, c)) == bits,
{
    assert forall|i: int| 0 <= i < bits.len() implies #[trigger] reindex_bits(bits, spec_reindex_rows(c, c))[i] == bits[i] by {
        crate::align::law_reindex_identity(c, i);
    }
    assert(reindex_bits(bits, spec_reindex_rows(c, c)) =~= bits);
}

} // verus!
