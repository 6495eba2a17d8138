//! Abstract syntax tree types and the symbol interner.

use vstd::prelude::*;
use crate::text::str_eq;

verus! {

/// Symbol ID (index of an interned string).
#[derive(Debug, Clone, Copy, PartialEq, Eq, Hash, Structural)]
pub struct SymbolId(pub usize);

/// AST expression.
///
/// A float literal is carried as its IEEE-754 bit pattern (`f64::to_bits`).
#[derive(Debug, PartialEq)]
pub enum Expr {
    Nil,
    Bool(bool),
    Int(i64),
    Float(u64),
    Str(String),
    Sym(SymbolId),
    List(Vec<Expr>),
    Quote(Box<Expr>),
    QuasiQuote(Box<Expr>),
    Unquote(Box<Expr>),
    UnquoteSplicing(Box<Expr>),
}

/// The tree of an expression, with symbols as table indices and strings as
/// text.
pub ghost enum ExprV {
    Nil,
    Bool(bool),
    Int(i64),
    Float(u64),
    Str(Seq<char>),
    Sym(nat),
    List(Seq<ExprV>),
    Quote(Box<ExprV>),
    QuasiQuote(Box<ExprV>),
    Unquote(Box<ExprV>),
    UnquoteSplicing(Box<ExprV>),
}

pub open spec fn expr_view(e: Expr) -> ExprV
    decreases e,
{
    match e {
        Expr::Nil => ExprV::Nil,
        Expr::Bool(b) => ExprV::Bool(b),
        Expr::Int(n) => ExprV::Int(n),
        Expr::Float(f) => ExprV::Float(f),
        Expr::Str(s) => ExprV::Str(s@),
        Expr::Sym(s) => ExprV::Sym(s.0 as nat),
        Expr::List(es) => ExprV::List(exprs_view(es@)),
        Expr::Quote(x) => ExprV::Quote(Box::new(expr_view(*x))),
        Expr::QuasiQuote(x) => ExprV::QuasiQuote(Box::new(expr_view(*x))),
        Expr::Unquote(x) => ExprV::Unquote(Box::new(expr_view(*x))),
        Expr::UnquoteSplicing(x) => ExprV::UnquoteSplicing(Box::new(expr_view(*x))),
    }
}

pub open spec fn exprs_view(es: Seq<Expr>) -> Seq<ExprV>
    decreases es,
{
    if es.len() == 0 {
        Seq::empty()
    } else {
        exprs_view(es.drop_last()).push(expr_view(es.last()))
    }
}

impl View for Expr {
    type V = ExprV;

    open spec fn view(&self) -> ExprV {
        expr_view(*self)
    }
}

pub proof fn lemma_exprs_view(es: Seq<Expr>)
    ensures
        exprs_view(es).len() == es.len(),
        forall|i: int| 0 <= i < es.len() ==> #[trigger] exprs_view(es)[i] == expr_view(es[i]),
    decreases es.len(),
{
    if es.len() > 0 {
        lemma_exprs_view(es.drop_last());
        assert forall|i: int| 0 <= i < es.len() implies #[trigger] exprs_view(es)[i] == expr_view(es[i]) by {
            if i < es.len() - 1 {
                assert(es.drop_last()[i] == es[i]);
            }
        }
    }
}

/// Sequences of expressions with the same trees elementwise have the same view.
pub proof fn lemma_exprs_view_eq(a: Seq<Expr>, b: Seq<Expr>)
    requires
        a.len() == b.len(),
        forall|i: int| 0 <= i < a.len() ==> expr_view(#[trigger] a[i]) == expr_view(b[i]),
    ensures
        exprs_view(a) == exprs_view(b),
{
    lemma_exprs_view(a);
    lemma_exprs_view(b);
    assert(exprs_view(a) =~= exprs_view(b));
}

impl Clone for Expr {
    fn clone(&self) -> (r: Self)
        ensures
            r@ == self@,
    {
        copy_expr(self)
    }
}

/// A copy of an expression.
pub fn copy_expr(e: &Expr) -> (r: Expr)
    ensures
        r@ == e@,
    decreases e,
{
    match e {
        Expr::Nil => Expr::Nil,
        Expr::Bool(b) => Expr::Bool(*b),
        Expr::Int(n) => Expr::Int(*n),
        Expr::Float(f) => Expr::Float(*f),
        Expr::Str(s) => Expr::Str(s.clone()),
        Expr::Sym(s) => Expr::Sym(*s),
        Expr::List(es) => Expr::List(copy_exprs(es)),
        Expr::Quote(x) => Expr::Quote(Box::new(copy_expr(x))),
        Expr::QuasiQuote(x) => Expr::QuasiQuote(Box::new(copy_expr(x))),
        Expr::Unquote(x) => Expr::Unquote(Box::new(copy_expr(x))),
        Expr::UnquoteSplicing(x) => Expr::UnquoteSplicing(Box::new(copy_expr(x))),
    }
}

fn copy_exprs(es: &Vec<Expr>) -> (r: Vec<Expr>)
    ensures
        exprs_view(r@) == exprs_view(es@),
    decreases es,
{
    let mut r: Vec<Expr> = Vec::new();
    let mut i: usize = 0;
    while i < es.len()
        invariant
            i <= es@.len(),
            r@.len() == i,
            forall|j: int| 0 <= j < i ==> expr_view(#[trigger] r@[j]) == expr_view(es@[j]),
        decreases es@.len() - i,
    {
        assert(decreases_to!(es => es@[i as int]));
        r.push(copy_expr(&es[i]));
        i += 1;
    }
    proof {
        lemma_exprs_view_eq(r@, es@);
    }
    r
}

/// No name occurs twice.
pub open spec fn no_dups(s: Seq<Seq<char>>) -> bool {
    forall|i: int, j: int| 0 <= i < s.len() && 0 <= j < s.len() && i != j ==> s[i] != s[j]
}

/// The position of `name` in `names` (meaningful when `names` contains it).
pub open spec fn position_of(names: Seq<Seq<char>>, name: Seq<char>) -> int {
    choose|j: int| 0 <= j < names.len() && names[j] == name
}

/// Interning `name` into the table `names`: the new table and the symbol's index.
pub open spec fn spec_intern(names: Seq<Seq<char>>, name: Seq<char>) -> (Seq<Seq<char>>, int) {
    if names.contains(name) {
        (names, position_of(names, name))
    } else {
        (names.push(name), names.len() as int)
    }
}

/// String interner for symbols.
pub struct Interner {
    names: Vec<String>,
}

impl View for Interner {
    type V = Seq<Seq<char>>;

    closed spec fn view(&self) -> Seq<Seq<char>> {
        self.names@.map_values(|s: String| s@)
    }
}

impl Interner {
    /// The table holds each name once.
    pub open spec fn wf(&self) -> bool {
        no_dups(self@)
    }

    pub fn new() -> (r: Self)
        ensures
            r@ == Seq::<Seq<char>>::empty(),
            r.wf(),
    {
        let r = Self { names: Vec::new() };
        assert(r@ =~= Seq::<Seq<char>>::empty());
        r
    }

    /// Find the index of `name`, if interned.
    fn find(&self, name: &str) -> (r: Option<usize>)
        ensures
            match r {
                Some(j) => j < self@.len() && self@[j as int] == name@,
                None => !self@.contains(name@),
            },
    {
        let mut i: usize = 0;
        while i < self.names.len()
            invariant
                0 <= i <= self.names.len(),
                self@.len() == self.names.len(),
                forall|k: int| 0 <= k < i ==> self@[k] != name@,
            decreases self.names.len() - i,
        {
            if str_eq(self.names[i].as_str(), name) {
                return Some(i);
            }
            i += 1;
        }
        proof {
            if self@.contains(name@) {
                let k = choose|k: int| 0 <= k < self@.len() && self@[k] == name@;
                assert(self@[k] != name@);
            }
        }
        None
    }

    /// Intern a string and return its ID.
    pub fn intern(&mut self, name: &str) -> (id: SymbolId)
        requires
            old(self).wf(),
        ensures
            final(self).wf(),
            (final(self)@, id.0 as int) == spec_intern(old(self)@, name@),
    {
        match self.find(name) {
            Some(j) => {
                proof {
                    let p = position_of(self@, name@);
                    assert(self@.contains(name@)) by {
                        assert(self@[j as int] == name@);
                    }
                    assert(self@[p] == name@);
                    assert(p == j as int);
                }
                SymbolId(j)
            },
            None => {
                let id = SymbolId(self.names.len());
                let ghost old_view = self@;
                self.names.push(name.to_owned());
                assert(self@ =~= old_view.push(name@));
                id
            },
        }
    }

    /// Resolve a symbol ID to its string.
    pub fn resolve(&self, id: SymbolId) -> (s: &str)
        requires
            id.0 < self@.len(),
        ensures
            s@ == self@[id.0 as int],
    {
        self.names[id.0].as_str()
    }

    /// The ID of `name`, if it is interned.
    pub fn get(&self, name: &str) -> (r: Option<SymbolId>)
        ensures
            match r {
                Some(id) => id.0 < self@.len() && self@[id.0 as int] == name@,
                None => !self@.contains(name@),
            },
    {
        match self.find(name) {
            Some(j) => Some(SymbolId(j)),
            None => None,
        }
    }
}

/// Interning the same name twice gives the same ID and leaves the table unchanged
/// the second time.
pub proof fn law_intern_idempotent(names: Seq<Seq<char>>, name: Seq<char>)
    requires
        no_dups(names),
    ensures
        ({
            let (n1, id1) = spec_intern(names, name);
            let (n2, id2) = spec_intern(n1, name);
            n2 == n1 && id2 == id1 && no_dups(n1) && n1[id1] == name
        }),
{
    let (n1, id1) = spec_intern(names, name);
    if names.contains(name) {
        let p = position_of(names, name);
        assert(names[p] == name);
    } else {
        assert(n1[names.len() as int] == name);
        assert(n1.contains(name));
        let p = position_of(n1, name);
        assert(n1[p] == name);
        assert(no_dups(n1)) by {
            assert forall|i: int, j: int| 0 <= i < n1.len() && 0 <= j < n1.len() && i != j
                implies n1[i] != n1[j] by {
                if i < names.len() && j < names.len() {
                } else if i < names.len() {
                    assert(names.contains(n1[i]));
                } else if j < names.len() {
                    assert(names.contains(n1[j]));
                }
            }
        }
    }
}

/// Interning two different names gives two different IDs, and each ID resolves
/// back to the name it was given for.
pub proof fn law_intern_injective(names: Seq<Seq<char>>, a: Seq<char>, b: Seq<char>)
    requires
        no_dups(names),
        a != b,
    ensures
        ({
            let (n1, ia) = spec_intern(names, a);
            let (n2, ib) = spec_intern(n1, b);
            ia != ib && n2[ia] == a && n2[ib] == b
        }),
{
    law_intern_idempotent(names, a);
    let (n1, ia) = spec_intern(names, a);
    law_intern_idempotent(n1, b);
    let (n2, ib) = spec_intern(n1, b);
    if !n1.contains(b) {
        assert(n2[ia] == n1[ia]);
    }
}

/// Interning never renames: an id already handed out resolves to the same
/// name after any other name is interned, and the table only grows.
pub proof fn law_intern_keeps_ids(names: Seq<Seq<char>>, name: Seq<char>, id: int)
    requires
        0 <= id < names.len(),
    ensures
        spec_intern(names, name).0.len() >= names.len(),
        spec_intern(names, name).0[id] == names[id],
{
}

/// The table after interning each of `ws` in turn.
pub open spec fn intern_all(names: Seq<Seq<char>>, ws: Seq<Seq<char>>) -> Seq<Seq<char>>
    decreases ws.len(),
{
    if ws.len() == 0 {
        names
    } else {
        spec_intern(intern_all(names, ws.drop_last()), ws.last()).0
    }
}

/// Any number of later calls of `intern` keep every id already handed out:
/// after interning each of `ws`, an earlier id still resolves to its name.
pub proof fn law_intern_all_keeps_ids(names: Seq<Seq<char>>, ws: Seq<Seq<char>>, id: int)
    requires
        0 <= id < names.len(),
    ensures
        intern_all(names, ws).len() >= names.len(),
        intern_all(names, ws)[id] == names[id],
    decreases ws.len(),
{
    if ws.len() > 0 {
        law_intern_all_keeps_ids(names, ws.drop_last(), id);
        law_intern_keeps_ids(intern_all(names, ws.drop_last()), ws.last(), id);
    }
}

} // verus!
