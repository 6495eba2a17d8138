//! Lexical and global environments for variable binding.

use vstd::prelude::*;
use std::collections::HashMap;
use crate::ast::SymbolId;
use crate::value::Value;

verus! {

broadcast use vstd::std_specs::hash::group_hash_axioms;

/// One lexical scope: symbol index to value.
pub type Scope = Map<usize, Value>;

/// A captured lexical environment (the frames, outermost first).
pub type LexicalSnapshot = Vec<HashMap<usize, Value>>;

/// The view of a captured environment.
pub open spec fn snapshot_view(s: Seq<HashMap<usize, Value>>) -> Seq<Scope> {
    s.map_values(|m: HashMap<usize, Value>| m@)
}

/// Index of the innermost frame that binds `k`, or -1 when none does.
pub open spec fn innermost(frames: Seq<Scope>, k: usize) -> int
    decreases frames.len(),
{
    if frames.len() == 0 {
        -1
    } else if frames.last().contains_key(k) {
        frames.len() - 1
    } else {
        innermost(frames.drop_last(), k)
    }
}

/// The value `k` resolves to: the binding in the innermost frame that has one.
pub open spec fn lookup(frames: Seq<Scope>, k: usize) -> Option<Value> {
    let i = innermost(frames, k);
    if i >= 0 {
        Some(frames[i][k])
    } else {
        None
    }
}

/// `set`: rebind `k` in the innermost frame that binds it; no change when none does.
pub open spec fn spec_set(frames: Seq<Scope>, k: usize, v: Value) -> Seq<Scope> {
    let i = innermost(frames, k);
    if i >= 0 {
        frames.update(i, frames[i].insert(k, v))
    } else {
        frames
    }
}

/// `define_local`: bind `k` in the innermost frame; no change when there is no frame.
pub open spec fn spec_define_local(frames: Seq<Scope>, k: usize, v: Value) -> Seq<Scope> {
    if frames.len() > 0 {
        frames.update(frames.len() - 1, frames.last().insert(k, v))
    } else {
        frames
    }
}

pub proof fn lemma_innermost_bounds(frames: Seq<Scope>, k: usize)
    ensures
        -1 <= innermost(frames, k) < frames.len(),
        innermost(frames, k) >= 0 ==> frames[innermost(frames, k)].contains_key(k),
        innermost(frames, k) < 0 ==> forall|j: int| 0 <= j < frames.len() ==> !(#[trigger] frames[j]).contains_key(k),
        forall|j: int| innermost(frames, k) < j < frames.len() ==> !(#[trigger] frames[j]).contains_key(k),
    decreases frames.len(),
{
    if frames.len() > 0 && !frames.last().contains_key(k) {
        lemma_innermost_bounds(frames.drop_last(), k);
        assert forall|j: int| innermost(frames, k) < j < frames.len() implies !(#[trigger] frames[j]).contains_key(k) by {
            if j < frames.len() - 1 {
                assert(frames[j] == frames.drop_last()[j]);
            }
        }
        if innermost(frames, k) < 0 {
            assert forall|j: int| 0 <= j < frames.len() implies !(#[trigger] frames[j]).contains_key(k) by {
                if j < frames.len() - 1 {
                    assert(frames[j] == frames.drop_last()[j]);
                }
            }
        }
    }
}

/// The innermost binding frame is the last frame that binds `k`.
pub proof fn lemma_innermost_char(frames: Seq<Scope>, k: usize, i: int)
    requires
        0 <= i < frames.len(),
        frames[i].contains_key(k),
        forall|j: int| i < j < frames.len() ==> !(#[trigger] frames[j]).contains_key(k),
    ensures
        innermost(frames, k) == i,
    decreases frames.len(),
{
    if i < frames.len() - 1 {
        assert(!frames[frames.len() - 1].contains_key(k));
        assert forall|j: int| i < j < frames.drop_last().len() implies !(#[trigger] frames.drop_last()[j]).contains_key(k) by {
            assert(frames.drop_last()[j] == frames[j]);
        }
        lemma_innermost_char(frames.drop_last(), k, i);
    }
}

/// A binding made in the innermost frame is what the name resolves to, and no
/// other name changes what it resolves to.
pub proof fn law_define_local_resolves(frames: Seq<Scope>, k: usize, v: Value, other: usize)
    requires
        frames.len() > 0,
        other != k,
    ensures
        lookup(spec_define_local(frames, k, v), k) == Some(v),
        lookup(spec_define_local(frames, k, v), other) == lookup(frames, other),
{
    let g = spec_define_local(frames, k, v);
    lemma_innermost_char(g, k, g.len() - 1);
    lemma_innermost_bounds(frames, other);
    lemma_innermost_bounds(g, other);
    let i = innermost(frames, other);
    if i >= 0 {
        assert forall|j: int| i < j < g.len() implies !(#[trigger] g[j]).contains_key(other) by {
            if j < g.len() - 1 {
                assert(g[j] == frames[j]);
            }
        }
        lemma_innermost_char(g, other, i);
        if i == frames.len() - 1 {
            assert(g[i][other] == frames[i][other]);
        }
    } else {
        assert forall|j: int| 0 <= j < g.len() implies !(#[trigger] g[j]).contains_key(other) by {
            if j < g.len() - 1 {
                assert(g[j] == frames[j]);
            } else {
                assert(!frames[j].contains_key(other));
            }
        }
        if innermost(g, other) >= 0 {
            assert(g[innermost(g, other)].contains_key(other));
        }
    }
}

/// Leaving a scope undoes every binding made in it: after entering a frame,
/// binding in it and leaving it, every name resolves as before.
pub proof fn law_scope_exit_restores(frames: Seq<Scope>, k: usize, v: Value, any: usize)
    ensures
        lookup(spec_define_local(frames.push(Map::empty()), k, v).drop_last(), any)
            == lookup(frames, any),
{
    let g = spec_define_local(frames.push(Map::empty()), k, v);
    assert(g.drop_last() =~= frames);
}

/// The frames after binding each of `binds` in turn with `define_local`.
pub open spec fn define_all(frames: Seq<Scope>, binds: Seq<(usize, Value)>) -> Seq<Scope>
    decreases binds.len(),
{
    if binds.len() == 0 {
        frames
    } else {
        spec_define_local(define_all(frames, binds.drop_last()), binds.last().0, binds.last().1)
    }
}

proof fn lemma_define_all_inner(frames: Seq<Scope>, binds: Seq<(usize, Value)>)
    ensures
        define_all(frames.push(Map::empty()), binds).len() == frames.len() + 1,
        define_all(frames.push(Map::empty()), binds).drop_last() == frames,
    decreases binds.len(),
{
    if binds.len() > 0 {
        lemma_define_all_inner(frames, binds.drop_last());
        let g = define_all(frames.push(Map::empty()), binds.drop_last());
        assert(spec_define_local(g, binds.last().0, binds.last().1).drop_last() =~= g.drop_last());
    } else {
        assert(frames.push(Map::empty()).drop_last() =~= frames);
    }
}

/// Entering a scope, making any bindings in it with `define_local`, and
/// leaving it (`push_frame`, `define_local`..., `pop_frame`) gives back the
/// environment as it was, frame for frame.
pub proof fn law_scope_round_trip(frames: Seq<Scope>, binds: Seq<(usize, Value)>)
    ensures
        define_all(frames.push(Map::empty()), binds).len() == frames.len() + 1,
        define_all(frames.push(Map::empty()), binds).drop_last() == frames,
        forall|t: usize| #[trigger] lookup(define_all(frames.push(Map::empty()), binds).drop_last(), t) == lookup(frames, t),
{
    lemma_define_all_inner(frames, binds);
}

/// Entering an empty scope changes what no name resolves to: an environment
/// restored from a snapshot, with the fresh parameter frame pushed, resolves
/// every name as the environment did when the snapshot was taken.
pub proof fn law_snapshot_restore_resolves(frames: Seq<Scope>, k: usize)
    ensures
        lookup(frames.push(Map::empty()), k) == lookup(frames, k),
        frames.push(Map::empty()).drop_last() == frames,
{
    let g = frames.push(Map::empty());
    assert(g.drop_last() =~= frames);
    assert(!g.last().contains_key(k));
    assert(innermost(g, k) == innermost(frames, k));
    lemma_innermost_bounds(frames, k);
    if innermost(frames, k) >= 0 {
        assert(g[innermost(frames, k)] == frames[innermost(frames, k)]);
    }
}

/// An inner binding shadows an outer one: after entering a frame and binding a
/// name there, the name resolves to the inner value whatever the outer frames hold.
pub proof fn law_inner_shadows_outer(frames: Seq<Scope>, k: usize, v: Value)
    ensures
        lookup(spec_define_local(frames.push(Map::empty()), k, v), k) == Some(v),
{
    let g = spec_define_local(frames.push(Map::empty()), k, v);
    lemma_innermost_char(g, k, g.len() - 1);
}

/// `set` on a bound name changes what it resolves to, changes no other name, and
/// touches only the innermost frame that binds it; on an unbound name it changes nothing.
pub proof fn law_set_updates_innermost(frames: Seq<Scope>, k: usize, v: Value, other: usize)
    requires
        other != k,
    ensures
        lookup(frames, k) is Some ==> lookup(spec_set(frames, k, v), k) == Some(v),
        lookup(frames, k) is None ==> spec_set(frames, k, v) == frames,
        lookup(spec_set(frames, k, v), other) == lookup(frames, other),
        forall|j: int| 0 <= j < frames.len() && j != innermost(frames, k)
            ==> (#[trigger] spec_set(frames, k, v)[j]) == frames[j],
        spec_set(frames, k, v).len() == frames.len(),
{
    let g = spec_set(frames, k, v);
    let i = innermost(frames, k);
    lemma_innermost_bounds(frames, k);
    lemma_innermost_bounds(frames, other);
    if i >= 0 {
        assert forall|j: int| i < j < g.len() implies !(#[trigger] g[j]).contains_key(k) by {
            assert(g[j] == frames[j]);
        }
        lemma_innermost_char(g, k, i);
        let io = innermost(frames, other);
        assert forall|j: int| 0 <= j < g.len() implies (#[trigger] g[j]).contains_key(other) == frames[j].contains_key(other) by {
            if j == i {
                assert(g[j] == frames[j].insert(k, v));
            }
        }
        if io >= 0 {
            assert forall|j: int| io < j < g.len() implies !(#[trigger] g[j]).contains_key(other) by {
                assert(g[j].contains_key(other) == frames[j].contains_key(other));
            }
            assert(g[io].contains_key(other) == frames[io].contains_key(other));
            lemma_innermost_char(g, other, io);
            if io == i {
                assert(g[io][other] == frames[io][other]);
            }
        } else {
            lemma_innermost_bounds(g, other);
            if innermost(g, other) >= 0 {
                let ig = innermost(g, other);
                assert(g[ig].contains_key(other) == frames[ig].contains_key(other));
            }
        }
    }
}

/// Lexical environment (stack of scopes).
///
/// Used for let* bindings and function arguments. Inner scopes shadow outer scopes.
pub struct LexicalEnv {
    frames: Vec<HashMap<usize, Value>>,
}

impl View for LexicalEnv {
    type V = Seq<Scope>;

    closed spec fn view(&self) -> Seq<Scope> {
        snapshot_view(self.frames@)
    }
}

impl LexicalEnv {
    pub fn new() -> (r: Self)
        ensures
            r@ == Seq::<Scope>::empty(),
    {
        let r = Self { frames: Vec::new() };
        assert(r@ =~= Seq::<Scope>::empty());
        r
    }

    /// Push a new lexical frame (enter new scope).
    pub fn push_frame(&mut self)
        ensures
            final(self)@ == old(self)@.push(Map::empty()),
    {
        self.frames.push(HashMap::new());
        assert(self@ =~= old(self)@.push(Map::empty()));
    }

    /// Pop the innermost lexical frame (exit scope).
    pub fn pop_frame(&mut self)
        ensures
            old(self)@.len() > 0 ==> final(self)@ == old(self)@.drop_last(),
            old(self)@.len() == 0 ==> final(self)@ == old(self)@,
    {
        let _ = self.frames.pop();
        assert(old(self)@.len() > 0 ==> self@ =~= old(self)@.drop_last());
    }

    /// Resolve a symbol in lexical scope (search inner to outer).
    pub fn resolve(&self, sym: SymbolId) -> (r: Option<&Value>)
        ensures
            match r {
                Some(v) => lookup(self@, sym.0) == Some(*v),
                None => lookup(self@, sym.0) is None,
            },
    {
        let n = self.frames.len();
        let mut i: usize = n;
        while i > 0
            invariant
                0 <= i <= n,
                n == self.frames.len(),
                self@.len() == n,
                forall|j: int| i <= j < n ==> !(#[trigger] self@[j]).contains_key(sym.0),
            decreases i,
        {
            i -= 1;
            match self.frames[i].get(&sym.0) {
                Some(v) => {
                    proof {
                        lemma_innermost_char(self@, sym.0, i as int);
                    }
                    return Some(v);
                },
                None => {},
            }
        }
        proof {
            lemma_innermost_bounds(self@, sym.0);
        }
        None
    }

    /// Update a symbol in lexical scope if it exists.
    /// Returns true if found and updated.
    pub fn set(&mut self, sym: SymbolId, val: Value) -> (found: bool)
        ensures
            found == (lookup(old(self)@, sym.0) is Some),
            final(self)@ == spec_set(old(self)@, sym.0, val),
    {
        let n = self.frames.len();
        let mut i: usize = n;
        while i > 0
            invariant
                0 <= i <= n,
                n == self.frames.len(),
                self@ == old(self)@,
                self@.len() == n,
                forall|j: int| i <= j < n ==> !(#[trigger] self@[j]).contains_key(sym.0),
            decreases i,
        {
            i -= 1;
            if self.frames[i].contains_key(&sym.0) {
                proof {
                    lemma_innermost_char(self@, sym.0, i as int);
                }
                let ghost before = self@;
                self.frames[i].insert(sym.0, val);
                assert(self@ =~= spec_set(before, sym.0, val));
                return true;
            }
        }
        proof {
            lemma_innermost_bounds(self@, sym.0);
        }
        false
    }

    /// Define a symbol in the current (innermost) lexical frame.
    /// Used by let* to add bindings.
    pub fn define_local(&mut self, sym: SymbolId, val: Value)
        ensures
            final(self)@ == spec_define_local(old(self)@, sym.0, val),
    {
        let n = self.frames.len();
        if n > 0 {
            let ghost before = self@;
            self.frames[n - 1].insert(sym.0, val);
            assert(self@ =~= spec_define_local(before, sym.0, val));
        }
    }

    /// Get the current depth (number of frames).
    pub fn depth(&self) -> (d: usize)
        ensures
            d == self@.len(),
    {
        self.frames.len()
    }

    /// Create a snapshot of the current lexical environment (for closures).
    pub fn snapshot(&self) -> (s: LexicalSnapshot)
        ensures
            snapshot_view(s@) == self@,
    {
        copy_frames(&self.frames)
    }

    /// Restore a captured environment and push a new frame for parameters.
    pub fn restore_and_push(&mut self, snapshot: &LexicalSnapshot)
        ensures
            final(self)@ == snapshot_view(snapshot@).push(Map::empty()),
    {
        self.frames = copy_frames(snapshot);
        self.push_frame();
    }
}

/// Copy a list of frames.
fn copy_frames(frames: &Vec<HashMap<usize, Value>>) -> (r: Vec<HashMap<usize, Value>>)
    ensures
        snapshot_view(r@) == snapshot_view(frames@),
{
    let mut out: Vec<HashMap<usize, Value>> = Vec::new();
    let mut i: usize = 0;
    while i < frames.len()
        invariant
            0 <= i <= frames.len(),
            out@.len() == i,
            snapshot_view(out@) == snapshot_view(frames@).subrange(0, i as int),
        decreases frames.len() - i,
    {
        let m = frames[i].clone();
        assert(m@ == frames@[i as int]@);
        let ghost before = out@;
        out.push(m);
        assert(out@ == before.push(m));
        i += 1;
        assert forall|j: int| 0 <= j < i implies snapshot_view(out@)[j] == snapshot_view(frames@)[j] by {
            if j < i - 1 {
                assert(out@[j] == before[j]);
                assert(snapshot_view(before)[j] == before[j]@);
                assert(snapshot_view(frames@).subrange(0, i - 1)[j] == snapshot_view(frames@)[j]);
            } else {
                assert(out@[j] == m);
            }
        }
        assert(snapshot_view(out@) =~= snapshot_view(frames@).subrange(0, i as int));
    }
    assert(snapshot_view(frames@).subrange(0, frames.len() as int) =~= snapshot_view(frames@));
    out
}

/// Global environment (persistent bindings).
///
/// Used for defparameter and top-level definitions.
pub struct GlobalEnv {
    bindings: HashMap<usize, Value>,
}

impl View for GlobalEnv {
    type V = Scope;

    closed spec fn view(&self) -> Scope {
        self.bindings@
    }
}

impl GlobalEnv {
    pub fn new() -> (r: Self)
        ensures
            r@ == Map::<usize, Value>::empty(),
            r@.dom().finite(),
            r@.len() == 0,
    {
        Self { bindings: HashMap::new() }
    }

    /// Resolve a symbol in global scope.
    pub fn resolve(&self, sym: SymbolId) -> (r: Option<&Value>)
        ensures
            match r {
                Some(v) => self@.contains_key(sym.0) && self@[sym.0] == *v,
                None => !self@.contains_key(sym.0),
            },
    {
        self.bindings.get(&sym.0)
    }

    /// Define or update a global variable.
    pub fn define(&mut self, sym: SymbolId, val: Value)
        ensures
            final(self)@ == old(self)@.insert(sym.0, val),
            final(self)@.dom().finite(),
            final(self)@.len() == old(self)@.len() + if old(self)@.contains_key(sym.0) {
                0int
            } else {
                1int
            },
    {
        proof {
            assert(self@.dom().finite());
            if self@.contains_key(sym.0) {
                assert(self@.insert(sym.0, val).dom() =~= self@.dom());
            } else {
                assert(self@.insert(sym.0, val).dom() =~= self@.dom().insert(sym.0));
            }
        }
        self.bindings.insert(sym.0, val);
    }

    /// Get the number of global bindings.
    pub fn len(&self) -> (n: usize)
        ensures
            n == self@.len(),
            self@.dom().finite(),
    {
        proof {
            assert(self@.dom().finite());
        }
        self.bindings.len()
    }

    /// Check if empty.
    pub fn is_empty(&self) -> (b: bool)
        ensures
            b == (self@.len() == 0),
    {
        proof {
            assert(self@.dom().finite());
            if self@.len() == 0 {
                assert(self@.dom() =~= Set::empty());
            } else {
                assert(self@.dom() != Set::<usize>::empty());
            }
        }
        self.bindings.is_empty()
    }
}

} // verus!
