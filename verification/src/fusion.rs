//! Fusion of elementwise chains in an IR plan.
//!
//! A chain of pure elementwise maps (abs, log, exp, sqrt, inv), each link the
//! only reader of the link before it, runs as one fused node that applies the
//! functions in order in a single pass: `x → ABS → LOG → EXP` becomes
//! `x → FusedElementwise[ABS, LOG, EXP]`. A map read by more than one node is
//! never folded into a chain, so no work is done twice.
//!
//! The plan is taken in its documented form: each node's id is its position,
//! and every node reads only earlier nodes.

use vstd::prelude::*;
use std::sync::Arc;
use crate::fusion_cs1::{
    Cs1Pass, cs1_fused, law_cs1_fusion_keeps_order, lemma_ordered_from_view, optimize_cs1_dlog_fusion,
    optimize_cs1_elementwise_fusion,
};
use crate::ir::{
    BinaryFunc, BinaryOp, JoinOp, Node, NodeId, NumericFunc, Operation, Plan, SchemaInfo, Source,
    UnaryOp, ValueRef, is_pure_elementwise, known_and_differ, ncols_of, node_ok, plan_ok,
};

verus! {

// ─── What a node is, as a value ────────────────────────────────────────────

/// An operation, with the functions of a fused chain as a sequence.
pub enum OpV {
    Source(Source),
    Apply(NodeId, NumericFunc),
    Fused(NodeId, Seq<NumericFunc>),
    Cs1Fused(NodeId, Seq<NumericFunc>),
    Cs1DlogOfs(NodeId, usize),
    Cs1DlogObs(NodeId),
    Binary(NodeId, ValueRef, BinaryFunc),
    Join(JoinOp),
}

/// A node, with its operation as an `OpV`.
pub struct NodeV {
    pub id: NodeId,
    pub op: OpV,
    pub schema: SchemaInfo,
}

pub open spec fn op_view(op: Operation) -> OpV {
    match op {
        Operation::Source(s) => OpV::Source(s),
        Operation::Unary(UnaryOp::MapNumeric { input, func }) => OpV::Apply(input, func),
        Operation::Unary(UnaryOp::FusedElementwise { input, ops }) => OpV::Fused(input, ops@),
        Operation::Unary(UnaryOp::FusedCs1Elementwise { input, ops }) => OpV::Cs1Fused(input, ops@),
        Operation::Unary(UnaryOp::FusedCs1DlogOfs { input, lag }) => OpV::Cs1DlogOfs(input, lag),
        Operation::Unary(UnaryOp::FusedCs1DlogObs { input }) => OpV::Cs1DlogObs(input),
        Operation::Binary(BinaryOp::MapNumeric2 { lhs, rhs, func }) => OpV::Binary(lhs, rhs, func),
        Operation::Join(j) => OpV::Join(j),
    }
}

pub open spec fn node_view(n: Node) -> NodeV {
    NodeV { id: n.id, op: op_view(n.op), schema: n.schema }
}

pub open spec fn nodes_view(ns: Seq<Node>) -> Seq<NodeV> {
    ns.map_values(|n: Node| node_view(n))
}

// ─── The shape of a plan ───────────────────────────────────────────────────

/// The nodes an operation reads (at most two).
pub open spec fn refs(op: Operation) -> Seq<NodeId> {
    match op {
        Operation::Source(_) => seq![],
        Operation::Unary(UnaryOp::MapNumeric { input, .. }) => seq![input],
        Operation::Unary(UnaryOp::FusedElementwise { input, .. }) => seq![input],
        Operation::Unary(UnaryOp::FusedCs1Elementwise { input, .. }) => seq![input],
        Operation::Unary(UnaryOp::FusedCs1DlogOfs { input, .. }) => seq![input],
        Operation::Unary(UnaryOp::FusedCs1DlogObs { input }) => seq![input],
        Operation::Binary(BinaryOp::MapNumeric2 { lhs, rhs, .. }) => match rhs {
            ValueRef::Frame(r) => seq![lhs, r],
            ValueRef::Scalar(_) => seq![lhs],
        },
        Operation::Join(JoinOp::MapR { x, y }) => seq![x, y],
        Operation::Join(JoinOp::AsofR { x, y }) => seq![x, y],
    }
}

/// An operation reads only nodes before position `i`.
pub open spec fn refs_before(op: Operation, i: int) -> bool {
    forall|k: int| 0 <= k < refs(op).len() ==> (#[trigger] refs(op)[k]).0 < i
}

/// Each node's id is its position, and each node reads only earlier nodes.
pub open spec fn ordered_plan(nodes: Seq<Node>) -> bool {
    forall|i: int|
        0 <= i < nodes.len() ==> (#[trigger] nodes[i]).id == NodeId(i as usize) && refs_before(
            nodes[i].op,
            i,
        )
}

/// How many times the references `s` (at most two) name node `j`.
pub open spec fn occ(s: Seq<NodeId>, j: int) -> nat {
    (if s.len() > 0 && s[0].0 == j { 1nat } else { 0nat }) + (if s.len() > 1 && s[1].0 == j {
        1nat
    } else {
        0nat
    })
}

/// How many times the first `n` nodes read node `j`.
pub open spec fn uses(nodes: Seq<Node>, n: int, j: int) -> nat
    decreases n,
{
    if n <= 0 {
        0
    } else {
        uses(nodes, n - 1, j) + occ(refs(nodes[n - 1].op), j)
    }
}

/// How many times the plan reads node `j`.
pub open spec fn consumers(nodes: Seq<Node>, j: int) -> nat {
    uses(nodes, nodes.len() as int, j)
}

pub open spec fn pure_func(f: NumericFunc) -> bool {
    f is Abs || f is Log || f is Exp || f is Sqrt || f is Inv
}

/// A pure elementwise function mapped over a node.
pub open spec fn pure_map(op: Operation) -> bool {
    op matches Operation::Unary(UnaryOp::MapNumeric { func, .. }) && pure_func(func)
}

/// The node a map reads (-1 for other operations).
pub open spec fn map_input(op: Operation) -> int {
    match op {
        Operation::Unary(UnaryOp::MapNumeric { input, .. }) => input.0 as int,
        _ => -1,
    }
}

/// The function a map applies.
pub open spec fn map_func(op: Operation) -> NumericFunc {
    match op {
        Operation::Unary(UnaryOp::MapNumeric { func, .. }) => func,
        _ => NumericFunc::Abs,
    }
}

// ─── Which nodes fuse ──────────────────────────────────────────────────────

/// Node `j` is a pure elementwise map that only one node reads.
pub open spec fn absorbable(nodes: Seq<Node>, j: int) -> bool {
    0 <= j < nodes.len() && pure_map(nodes[j].op) && consumers(nodes, j) == 1
}

/// Node `j` folds into the chain of the map that reads it, and leaves the plan.
pub open spec fn absorbed(nodes: Seq<Node>, j: int) -> bool {
    &&& absorbable(nodes, j)
    &&& exists|k: int|
        0 <= k < nodes.len() && pure_map(nodes[k].op) && #[trigger] map_input(nodes[k].op) == j
}

/// Node `i` ends a chain of at least two maps: it becomes the fused node.
pub open spec fn head(nodes: Seq<Node>, i: int) -> bool {
    &&& 0 <= i < nodes.len()
    &&& pure_map(nodes[i].op)
    &&& !absorbed(nodes, i)
    &&& absorbable(nodes, map_input(nodes[i].op))
}

/// The functions of the chain that ends at map `c`, first applied first.
pub open spec fn chain_ops(nodes: Seq<Node>, c: int) -> Seq<NumericFunc>
    decreases c,
{
    let p = map_input(nodes[c].op);
    if 0 <= p < c && absorbable(nodes, p) {
        chain_ops(nodes, p).push(map_func(nodes[c].op))
    } else {
        seq![map_func(nodes[c].op)]
    }
}

/// The node the chain that ends at map `c` reads.
pub open spec fn chain_input(nodes: Seq<Node>, c: int) -> int
    decreases c,
{
    let p = map_input(nodes[c].op);
    if 0 <= p < c && absorbable(nodes, p) {
        chain_input(nodes, p)
    } else {
        p
    }
}

// ─── The fused plan ────────────────────────────────────────────────────────

/// The position in the fused plan of the node at position `j`: the number of
/// nodes before it that stay.
pub open spec fn newpos(nodes: Seq<Node>, j: int) -> nat
    decreases j,
{
    if j <= 0 {
        0
    } else {
        newpos(nodes, j - 1) + if absorbed(nodes, j - 1) {
            0nat
        } else {
            1nat
        }
    }
}

pub open spec fn remap(nodes: Seq<Node>, r: NodeId) -> NodeId {
    NodeId(newpos(nodes, r.0 as int) as usize)
}

/// An operation with its references renumbered.
pub open spec fn remap_op(nodes: Seq<Node>, op: Operation) -> OpV {
    match op {
        Operation::Source(s) => OpV::Source(s),
        Operation::Unary(UnaryOp::MapNumeric { input, func }) => OpV::Apply(remap(nodes, input), func),
        Operation::Unary(UnaryOp::FusedElementwise { input, ops }) => OpV::Fused(remap(nodes, input), ops@),
        Operation::Unary(UnaryOp::FusedCs1Elementwise { input, ops }) => OpV::Cs1Fused(remap(nodes, input), ops@),
        Operation::Unary(UnaryOp::FusedCs1DlogOfs { input, lag }) => OpV::Cs1DlogOfs(remap(nodes, input), lag),
        Operation::Unary(UnaryOp::FusedCs1DlogObs { input }) => OpV::Cs1DlogObs(remap(nodes, input)),
        Operation::Binary(BinaryOp::MapNumeric2 { lhs, rhs, func }) => OpV::Binary(
            remap(nodes, lhs),
            match rhs {
                ValueRef::Frame(r) => ValueRef::Frame(remap(nodes, r)),
                ValueRef::Scalar(b) => ValueRef::Scalar(b),
            },
            func,
        ),
        Operation::Join(JoinOp::MapR { x, y }) => OpV::Join(JoinOp::MapR { x: remap(nodes, x), y: remap(nodes, y) }),
        Operation::Join(JoinOp::AsofR { x, y }) => OpV::Join(
            JoinOp::AsofR { x: remap(nodes, x), y: remap(nodes, y) },
        ),
    }
}

/// What the node at position `i` becomes: a chain's end becomes the fused
/// node of the chain; any other node stays, its references renumbered.
pub open spec fn fused_node(nodes: Seq<Node>, i: int) -> NodeV {
    NodeV {
        id: NodeId(newpos(nodes, i) as usize),
        op: if head(nodes, i) {
            OpV::Fused(remap(nodes, NodeId(chain_input(nodes, i) as usize)), chain_ops(nodes, i))
        } else {
            remap_op(nodes, nodes[i].op)
        },
        schema: nodes[i].schema,
    }
}

/// The fused plan of the first `n` nodes: the nodes that stay, in order.
pub open spec fn fused_prefix(nodes: Seq<Node>, n: int) -> Seq<NodeV>
    decreases n,
{
    if n <= 0 {
        seq![]
    } else if absorbed(nodes, n - 1) {
        fused_prefix(nodes, n - 1)
    } else {
        fused_prefix(nodes, n - 1).push(fused_node(nodes, n - 1))
    }
}

// ─── Copies ────────────────────────────────────────────────────────────────

/// `Arc::clone`: another pointer to the same allocation, so the same list of
/// column names.
#[verifier::external_body]
fn share_names(a: &Arc<Vec<String>>) -> (r: Arc<Vec<String>>)
    ensures
        r == *a,
{
    Arc::clone(a)
}

pub(crate) fn copy_schema(s: &SchemaInfo) -> (r: SchemaInfo)
    ensures
        r == *s,
{
    let colnames = match &s.colnames {
        Some(c) => Some(share_names(c)),
        None => None,
    };
    SchemaInfo { index_type: s.index_type, colnames, nrows: s.nrows }
}

pub(crate) fn copy_source(s: &Source) -> (r: Source)
    ensures
        r == *s,
{
    match s {
        Source::File { path } => Source::File { path: path.clone() },
        Source::Variable { name } => Source::Variable { name: *name },
    }
}

pub(crate) fn copy_funcs(v: &Vec<NumericFunc>) -> (r: Vec<NumericFunc>)
    ensures
        r@ == v@,
{
    let mut out: Vec<NumericFunc> = Vec::new();
    let mut i: usize = 0;
    while i < v.len()
        invariant
            i <= v@.len(),
            out@ == v@.subrange(0, i as int),
        decreases v@.len() - i,
    {
        out.push(v[i]);
        i += 1;
    }
    assert(out@ =~= v@);
    out
}

// ─── Counting readers ──────────────────────────────────────────────────────

proof fn lemma_uses_bound(nodes: Seq<Node>, n: int, j: int)
    requires
        0 <= n,
    ensures
        uses(nodes, n, j) <= 2 * n,
    decreases n,
{
    if n > 0 {
        lemma_uses_bound(nodes, n - 1, j);
    }
}

/// How many times the plan reads each node.
pub(crate) fn count_consumers(nodes: &Vec<Node>) -> (counts: Vec<usize>)
    requires
        ordered_plan(nodes@),
        nodes@.len() <= usize::MAX / 2,
    ensures
        counts@.len() == nodes@.len(),
        forall|j: int| 0 <= j < nodes@.len() ==> #[trigger] counts@[j] == consumers(nodes@, j),
{
    let n = nodes.len();
    let mut counts: Vec<usize> = Vec::new();
    let mut z: usize = 0;
    while z < n
        invariant
            z <= n,
            n == nodes@.len(),
            counts@.len() == z,
            forall|j: int| 0 <= j < z ==> #[trigger] counts@[j] == 0,
        decreases n - z,
    {
        counts.push(0);
        z += 1;
    }
    let mut i: usize = 0;
    while i < n
        invariant
            i <= n,
            n == nodes@.len(),
            n <= usize::MAX / 2,
            ordered_plan(nodes@),
            counts@.len() == n,
            forall|j: int| 0 <= j < n ==> #[trigger] counts@[j] == uses(nodes@, i as int, j),
        decreases n - i,
    {
        let ghost before = counts@;
        proof {
            assert(nodes@[i as int].id == NodeId(i) && refs_before(nodes@[i as int].op, i as int));
            assert forall|j: int| 0 <= j < n implies #[trigger] before[j] <= 2 * i by {
                lemma_uses_bound(nodes@, i as int, j);
            }
        }
        match &nodes[i].op {
            Operation::Unary(UnaryOp::MapNumeric { input, .. })
            | Operation::Unary(UnaryOp::FusedElementwise { input, .. })
            | Operation::Unary(UnaryOp::FusedCs1Elementwise { input, .. })
            | Operation::Unary(UnaryOp::FusedCs1DlogOfs { input, .. })
            | Operation::Unary(UnaryOp::FusedCs1DlogObs { input }) => {
                assert(refs(nodes@[i as int].op)[0] == *input);
                let c = counts[input.0] + 1;
                counts.set(input.0, c);
            },
            Operation::Binary(BinaryOp::MapNumeric2 { lhs, rhs, .. }) => {
                assert(refs(nodes@[i as int].op)[0] == *lhs);
                let c = counts[lhs.0] + 1;
                counts.set(lhs.0, c);
                if let ValueRef::Frame(r) = rhs {
                    assert(refs(nodes@[i as int].op)[1] == *r);
                    let c2 = counts[r.0] + 1;
                    counts.set(r.0, c2);
                }
            },
            Operation::Join(j) => {
                let (x, y) = match j {
                    JoinOp::MapR { x, y } => (*x, *y),
                    JoinOp::AsofR { x, y } => (*x, *y),
                };
                assert(refs(nodes@[i as int].op)[0] == x && refs(nodes@[i as int].op)[1] == y);
                let c = counts[x.0] + 1;
                counts.set(x.0, c);
                let c2 = counts[y.0] + 1;
                counts.set(y.0, c2);
            },
            Operation::Source(_) => {},
        }
        proof {
            assert forall|j: int| 0 <= j < n implies #[trigger] counts@[j] == uses(nodes@, i + 1, j) by {
                assert(uses(nodes@, i + 1, j) == uses(nodes@, i as int, j) + occ(refs(nodes@[i as int].op), j));
            }
        }
        i += 1;
    }
    counts
}

// ─── Finding chains ────────────────────────────────────────────────────────

/// The input and function of a pure elementwise map.
fn pure_map_parts(op: &Operation) -> (r: Option<(usize, NumericFunc)>)
    ensures
        r is Some <==> pure_map(*op),
        r matches Some((p, f)) ==> p == map_input(*op) && f == map_func(*op),
{
    match op {
        Operation::Unary(UnaryOp::MapNumeric { input, func }) => {
            if is_pure_elementwise(func) {
                Some((input.0, *func))
            } else {
                None
            }
        },
        _ => None,
    }
}

pub open spec fn counts_ok(nodes: Seq<Node>, counts: Seq<usize>) -> bool {
    &&& counts.len() == nodes.len()
    &&& forall|j: int| 0 <= j < nodes.len() ==> #[trigger] counts[j] == consumers(nodes, j)
}

fn is_absorbable(nodes: &Vec<Node>, counts: &Vec<usize>, j: usize) -> (b: bool)
    requires
        counts_ok(nodes@, counts@),
    ensures
        b == absorbable(nodes@, j as int),
{
    j < nodes.len() && counts[j] == 1 && pure_map_parts(&nodes[j].op).is_some()
}

/// A map reads a node before it.
proof fn lemma_map_input_before(nodes: Seq<Node>, c: int)
    requires
        ordered_plan(nodes),
        0 <= c < nodes.len(),
        pure_map(nodes[c].op),
    ensures
        0 <= map_input(nodes[c].op) < c,
{
    assert(nodes[c].id == NodeId(c as usize) && refs_before(nodes[c].op, c));
    assert(refs(nodes[c].op)[0].0 == map_input(nodes[c].op));
}

/// Which nodes fold into the chain of the map that reads them.
fn absorbed_flags(nodes: &Vec<Node>, counts: &Vec<usize>) -> (flags: Vec<bool>)
    requires
        ordered_plan(nodes@),
        counts_ok(nodes@, counts@),
    ensures
        flags@.len() == nodes@.len(),
        forall|j: int| 0 <= j < nodes@.len() ==> #[trigger] flags@[j] == absorbed(nodes@, j),
{
    let n = nodes.len();
    let mut flags: Vec<bool> = Vec::new();
    let mut z: usize = 0;
    while z < n
        invariant
            z <= n,
            n == nodes@.len(),
            flags@.len() == z,
            forall|j: int| 0 <= j < z ==> #[trigger] flags@[j] == false,
        decreases n - z,
    {
        flags.push(false);
        z += 1;
    }
    let mut k: usize = 0;
    while k < n
        invariant
            k <= n,
            n == nodes@.len(),
            ordered_plan(nodes@),
            counts_ok(nodes@, counts@),
            flags@.len() == n,
            forall|j: int| 0 <= j < n ==> #[trigger] flags@[j] == (absorbable(nodes@, j) && exists|kk: int|
                0 <= kk < k && pure_map(nodes@[kk].op) && #[trigger] map_input(nodes@[kk].op) == j),
        decreases n - k,
    {
        let ghost before = flags@;
        match pure_map_parts(&nodes[k].op) {
            Some((p, _)) => {
                proof {
                    lemma_map_input_before(nodes@, k as int);
                }
                if is_absorbable(nodes, counts, p) {
                    flags.set(p, true);
                }
            },
            None => {},
        }
        proof {
            assert forall|j: int| 0 <= j < n implies #[trigger] flags@[j] == (absorbable(nodes@, j) && exists|kk: int|
                0 <= kk < k + 1 && pure_map(nodes@[kk].op) && #[trigger] map_input(nodes@[kk].op) == j) by {
                if pure_map(nodes@[k as int].op) && map_input(nodes@[k as int].op) == j {
                    assert(map_input(nodes@[k as int].op) == j);
                } else {
                    if exists|kk: int| 0 <= kk < k + 1 && pure_map(nodes@[kk].op) && #[trigger] map_input(nodes@[kk].op) == j {
                        let kk = choose|kk: int| 0 <= kk < k + 1 && pure_map(nodes@[kk].op) && #[trigger] map_input(nodes@[kk].op) == j;
                        assert(kk < k);
                    }
                }
            }
        }
        k += 1;
    }
    flags
}

/// The node read by the chain that ends at map `c`, and the chain's
/// functions, first applied first.
fn collect_chain(nodes: &Vec<Node>, counts: &Vec<usize>, c: usize) -> (r: (usize, Vec<NumericFunc>))
    requires
        ordered_plan(nodes@),
        counts_ok(nodes@, counts@),
        c < nodes@.len(),
        pure_map(nodes@[c as int].op),
    ensures
        r.0 == chain_input(nodes@, c as int),
        r.1@ == chain_ops(nodes@, c as int),
        r.0 < c,
{
    let (p0, f0) = match pure_map_parts(&nodes[c].op) {
        Some(parts) => parts,
        None => (0, NumericFunc::Abs),
    };
    proof {
        lemma_map_input_before(nodes@, c as int);
    }
    let mut ops: Vec<NumericFunc> = Vec::new();
    ops.push(f0);
    let mut cur: usize = c;
    let mut p: usize = p0;
    while is_absorbable(nodes, counts, p)
        invariant
            ordered_plan(nodes@),
            counts_ok(nodes@, counts@),
            cur <= c < nodes@.len(),
            pure_map(nodes@[cur as int].op),
            p == map_input(nodes@[cur as int].op),
            p < cur,
            chain_ops(nodes@, c as int) == (if absorbable(nodes@, p as int) {
                chain_ops(nodes@, p as int)
            } else {
                Seq::<NumericFunc>::empty()
            }) + ops@,
            chain_input(nodes@, c as int) == chain_input(nodes@, cur as int),
        decreases cur,
    {
        let (p2, f2) = match pure_map_parts(&nodes[p].op) {
            Some(parts) => parts,
            None => (0, NumericFunc::Abs),
        };
        proof {
            lemma_map_input_before(nodes@, p as int);
        }
        let ghost old_ops = ops@;
        ops.insert(0, f2);
        assert(ops@ =~= seq![f2] + old_ops);
        assert(chain_ops(nodes@, p as int) =~= (if absorbable(nodes@, p2 as int) {
            chain_ops(nodes@, p2 as int)
        } else {
            Seq::<NumericFunc>::empty()
        }) + seq![f2]);
        cur = p;
        p = p2;
    }
    assert(ops@ =~= chain_ops(nodes@, c as int));
    (p, ops)
}

// ─── Building the fused plan ───────────────────────────────────────────────

/// `pos` holds the new position of each of the first `pos.len()` nodes.
pub open spec fn positions_ok(nodes: Seq<Node>, pos: Seq<usize>) -> bool {
    forall|j: int| 0 <= j < pos.len() ==> #[trigger] pos[j] == newpos(nodes, j)
}

/// An operation with its references renumbered by `pos`.
fn remap_operation(op: &Operation, pos: &Vec<usize>, Ghost(nodes): Ghost<Seq<Node>>) -> (r: Operation)
    requires
        positions_ok(nodes, pos@),
        refs_before(*op, pos@.len() as int),
    ensures
        op_view(r) == remap_op(nodes, *op),
{
    match op {
        Operation::Source(s) => Operation::Source(copy_source(s)),
        Operation::Unary(UnaryOp::MapNumeric { input, func }) => {
            assert(refs(*op)[0] == *input);
            Operation::Unary(UnaryOp::MapNumeric { input: NodeId(pos[input.0]), func: *func })
        },
        Operation::Unary(UnaryOp::FusedElementwise { input, ops }) => {
            assert(refs(*op)[0] == *input);
            Operation::Unary(UnaryOp::FusedElementwise { input: NodeId(pos[input.0]), ops: copy_funcs(ops) })
        },
        Operation::Unary(UnaryOp::FusedCs1Elementwise { input, ops }) => {
            assert(refs(*op)[0] == *input);
            Operation::Unary(UnaryOp::FusedCs1Elementwise { input: NodeId(pos[input.0]), ops: copy_funcs(ops) })
        },
        Operation::Unary(UnaryOp::FusedCs1DlogOfs { input, lag }) => {
            assert(refs(*op)[0] == *input);
            Operation::Unary(UnaryOp::FusedCs1DlogOfs { input: NodeId(pos[input.0]), lag: *lag })
        },
        Operation::Unary(UnaryOp::FusedCs1DlogObs { input }) => {
            assert(refs(*op)[0] == *input);
            Operation::Unary(UnaryOp::FusedCs1DlogObs { input: NodeId(pos[input.0]) })
        },
        Operation::Binary(BinaryOp::MapNumeric2 { lhs, rhs, func }) => {
            assert(refs(*op)[0] == *lhs);
            let new_rhs = match rhs {
                ValueRef::Frame(r) => {
                    assert(refs(*op)[1] == *r);
                    ValueRef::Frame(NodeId(pos[r.0]))
                },
                ValueRef::Scalar(b) => ValueRef::Scalar(*b),
            };
            Operation::Binary(BinaryOp::MapNumeric2 { lhs: NodeId(pos[lhs.0]), rhs: new_rhs, func: *func })
        },
        Operation::Join(JoinOp::MapR { x, y }) => {
            assert(refs(*op)[0] == *x && refs(*op)[1] == *y);
            Operation::Join(JoinOp::MapR { x: NodeId(pos[x.0]), y: NodeId(pos[y.0]) })
        },
        Operation::Join(JoinOp::AsofR { x, y }) => {
            assert(refs(*op)[0] == *x && refs(*op)[1] == *y);
            Operation::Join(JoinOp::AsofR { x: NodeId(pos[x.0]), y: NodeId(pos[y.0]) })
        },
    }
}

pub(crate) proof fn lemma_newpos_bound(nodes: Seq<Node>, j: int)
    requires
        0 <= j,
    ensures
        newpos(nodes, j) <= j,
    decreases j,
{
    if j > 0 {
        lemma_newpos_bound(nodes, j - 1);
    }
}

/// Fuse every chain of pure elementwise maps (abs, log, exp, sqrt, inv) in
/// which each map is the only reader of the one before it: the chain's last
/// map becomes one `FusedElementwise` node that applies the chain's functions
/// in order to the chain's input, the other maps of the chain leave the plan,
/// and every other node stays as it was, with its references renumbered to
/// the new positions.
pub fn optimize_elementwise_fusion(plan: &Plan) -> (r: Plan)
    requires
        ordered_plan(plan.nodes@),
        plan.nodes@.len() <= usize::MAX / 2,
    ensures
        nodes_view(r.nodes@) == fused_prefix(plan.nodes@, plan.nodes@.len() as int),
{
    let nodes = &plan.nodes;
    let n = nodes.len();
    let counts = count_consumers(nodes);
    let flags = absorbed_flags(nodes, &counts);
    let mut out: Vec<Node> = Vec::new();
    let mut pos: Vec<usize> = Vec::new();
    let mut i: usize = 0;
    while i < n
        invariant
            i <= n,
            n == nodes@.len(),
            ordered_plan(nodes@),
            counts_ok(nodes@, counts@),
            flags@.len() == n,
            forall|j: int| 0 <= j < n ==> #[trigger] flags@[j] == absorbed(nodes@, j),
            pos@.len() == i,
            positions_ok(nodes@, pos@),
            out@.len() == newpos(nodes@, i as int),
            nodes_view(out@) == fused_prefix(nodes@, i as int),
        decreases n - i,
    {
        proof {
            lemma_newpos_bound(nodes@, i as int);
        }
        pos.push(out.len());
        if !flags[i] {
            let node = &nodes[i];
            proof {
                assert(node.id == NodeId(i) && refs_before(node.op, i as int));
            }
            let mut fused: Option<Operation> = None;
            match pure_map_parts(&node.op) {
                Some((p, _)) => {
                    if is_absorbable(nodes, &counts, p) {
                        let (start_input, ops) = collect_chain(nodes, &counts, i);
                        fused = Some(Operation::Unary(UnaryOp::FusedElementwise { input: NodeId(pos[start_input]), ops }));
                    }
                },
                None => {},
            }
            let op = match fused {
                Some(f) => f,
                None => remap_operation(&node.op, &pos, Ghost(nodes@)),
            };
            let ghost before = out@;
            let new_node = Node { id: NodeId(out.len()), op, schema: copy_schema(&node.schema) };
            assert(node_view(new_node) == fused_node(nodes@, i as int));
            out.push(new_node);
            assert(nodes_view(out@) =~= nodes_view(before).push(node_view(new_node)));
        }
        i += 1;
    }
    Plan { nodes: out }
}

/// Run the fusion passes over a plan, in order: elementwise chains first,
/// then cumulative sums with the elementwise node they read, then cumulative
/// sums with the difference log they read.
pub fn optimize(plan: &Plan) -> (r: Plan)
    requires
        ordered_plan(plan.nodes@),
        plan.nodes@.len() <= usize::MAX / 2,
    ensures
        exists|p1: Seq<Node>, p2: Seq<Node>|
            #![trigger nodes_view(p1), nodes_view(p2)]
            {
                &&& nodes_view(p1) == fused_prefix(plan.nodes@, plan.nodes@.len() as int)
                &&& nodes_view(p2) == cs1_fused(p1, Cs1Pass::Elementwise, p1.len() as int)
                &&& nodes_view(r.nodes@) == cs1_fused(p2, Cs1Pass::Dlog, p2.len() as int)
            },
{
    let p1 = optimize_elementwise_fusion(plan);
    proof {
        law_fusion_keeps_order(plan.nodes@);
        lemma_ordered_from_view(p1.nodes@);
        lemma_prefix_len(plan.nodes@, plan.nodes@.len() as int);
        lemma_newpos_bound(plan.nodes@, plan.nodes@.len() as int);
        assert(p1.nodes@.len() == nodes_view(p1.nodes@).len());
    }
    let p2 = optimize_cs1_elementwise_fusion(&p1);
    proof {
        law_cs1_fusion_keeps_order(p1.nodes@, Cs1Pass::Elementwise);
        lemma_ordered_from_view(p2.nodes@);
        assert(p2.nodes@.len() == nodes_view(p2.nodes@).len());
    }
    let r = optimize_cs1_dlog_fusion(&p2);
    assert(nodes_view(p1.nodes@) == fused_prefix(plan.nodes@, plan.nodes@.len() as int));
    assert(nodes_view(p2.nodes@) == cs1_fused(p1.nodes@, Cs1Pass::Elementwise, p1.nodes@.len() as int));
    r
}

// ─── Laws ──────────────────────────────────────────────────────────────────

proof fn lemma_chain_pure(nodes: Seq<Node>, c: int)
    requires
        ordered_plan(nodes),
        0 <= c < nodes.len(),
        pure_map(nodes[c].op),
    ensures
        chain_ops(nodes, c).len() >= 1,
        forall|k: int| 0 <= k < chain_ops(nodes, c).len() ==> pure_func(#[trigger] chain_ops(nodes, c)[k]),
    decreases c,
{
    lemma_map_input_before(nodes, c);
    let p = map_input(nodes[c].op);
    if 0 <= p < c && absorbable(nodes, p) {
        lemma_chain_pure(nodes, p);
    }
}

/// A fused node carries a chain of at least two functions, each of them pure
/// elementwise.
pub proof fn law_fused_chains_are_pure(nodes: Seq<Node>, i: int)
    requires
        ordered_plan(nodes),
        head(nodes, i),
    ensures
        chain_ops(nodes, i).len() >= 2,
        forall|k: int| 0 <= k < chain_ops(nodes, i).len() ==> pure_func(#[trigger] chain_ops(nodes, i)[k]),
{
    lemma_chain_pure(nodes, i);
    lemma_map_input_before(nodes, i);
    lemma_chain_pure(nodes, map_input(nodes[i].op));
}

/// The nodes a fused-plan operation reads.
pub open spec fn refs_v(op: OpV) -> Seq<NodeId> {
    match op {
        OpV::Source(_) => seq![],
        OpV::Apply(input, _) => seq![input],
        OpV::Fused(input, _) => seq![input],
        OpV::Cs1Fused(input, _) => seq![input],
        OpV::Cs1DlogOfs(input, _) => seq![input],
        OpV::Cs1DlogObs(input) => seq![input],
        OpV::Binary(lhs, rhs, _) => match rhs {
            ValueRef::Frame(r) => seq![lhs, r],
            ValueRef::Scalar(_) => seq![lhs],
        },
        OpV::Join(JoinOp::MapR { x, y }) => seq![x, y],
        OpV::Join(JoinOp::AsofR { x, y }) => seq![x, y],
    }
}

/// Each node's id is its position, and each node reads only earlier nodes.
pub open spec fn ordered_view(vs: Seq<NodeV>) -> bool {
    forall|i: int|
        0 <= i < vs.len() ==> (#[trigger] vs[i]).id == NodeId(i as usize) && forall|k: int|
            0 <= k < refs_v(vs[i].op).len() ==> (#[trigger] refs_v(vs[i].op)[k]).0 < i
}

pub(crate) proof fn lemma_uses_one(nodes: Seq<Node>, n: int, j: int, a: int)
    requires
        0 <= a < n,
    ensures
        uses(nodes, n, j) >= occ(refs(nodes[a].op), j),
    decreases n,
{
    if a < n - 1 {
        lemma_uses_one(nodes, n - 1, j, a);
    }
}

pub(crate) proof fn lemma_uses_two(nodes: Seq<Node>, n: int, j: int, a: int, b: int)
    requires
        0 <= a < n,
        0 <= b < n,
        a != b,
    ensures
        uses(nodes, n, j) >= occ(refs(nodes[a].op), j) + occ(refs(nodes[b].op), j),
    decreases n,
{
    if a == n - 1 {
        lemma_uses_one(nodes, n - 1, j, b);
    } else if b == n - 1 {
        lemma_uses_one(nodes, n - 1, j, a);
    } else {
        lemma_uses_two(nodes, n - 1, j, a, b);
    }
}

/// A node that stays as it is never reads a node that leaves the plan.
proof fn lemma_kept_refs_stay(nodes: Seq<Node>, c: int, k: int)
    requires
        ordered_plan(nodes),
        0 <= c < nodes.len(),
        !absorbed(nodes, c),
        !head(nodes, c),
        0 <= k < refs(nodes[c].op).len(),
    ensures
        !absorbed(nodes, refs(nodes[c].op)[k].0 as int),
{
    let r = refs(nodes[c].op)[k].0 as int;
    if absorbed(nodes, r) {
        let w = choose|w: int| 0 <= w < nodes.len() && pure_map(nodes[w].op) && #[trigger] map_input(nodes[w].op) == r;
        if w == c {
            assert(refs(nodes[c].op)[0].0 == map_input(nodes[c].op));
            assert(head(nodes, c));
        } else {
            assert(refs(nodes[w].op)[0].0 == r);
            assert(occ(refs(nodes[w].op), r) >= 1);
            assert(occ(refs(nodes[c].op), r) >= 1);
            lemma_uses_two(nodes, nodes.len() as int, r, c, w);
        }
    }
}

/// The chain that ends at map `c` reads an earlier node that stays in the plan.
proof fn lemma_chain_input(nodes: Seq<Node>, c: int)
    requires
        ordered_plan(nodes),
        0 <= c < nodes.len(),
        pure_map(nodes[c].op),
    ensures
        0 <= chain_input(nodes, c) < c,
        !absorbable(nodes, chain_input(nodes, c)),
    decreases c,
{
    lemma_map_input_before(nodes, c);
    let p = map_input(nodes[c].op);
    if 0 <= p < c && absorbable(nodes, p) {
        lemma_chain_input(nodes, p);
    }
}

proof fn lemma_newpos_before(nodes: Seq<Node>, r: int, i: int)
    requires
        0 <= r < i,
        !absorbed(nodes, r),
    ensures
        newpos(nodes, r) < newpos(nodes, i),
    decreases i,
{
    if r < i - 1 {
        lemma_newpos_before(nodes, r, i - 1);
    }
}

proof fn lemma_fused_prefix_ordered(nodes: Seq<Node>, n: int)
    requires
        ordered_plan(nodes),
        0 <= n <= nodes.len(),
        nodes.len() <= usize::MAX,
    ensures
        fused_prefix(nodes, n).len() == newpos(nodes, n),
        ordered_view(fused_prefix(nodes, n)),
    decreases n,
{
    if n > 0 {
        lemma_fused_prefix_ordered(nodes, n - 1);
        if !absorbed(nodes, n - 1) {
            let c = n - 1;
            let prev = fused_prefix(nodes, c);
            let v = fused_node(nodes, c);
            let cur = fused_prefix(nodes, n);
            lemma_newpos_bound(nodes, c);
            assert(cur == prev.push(v));
            assert forall|k: int| 0 <= k < refs_v(v.op).len() implies (#[trigger] refs_v(v.op)[k]).0 < newpos(nodes, c) by {
                assert(nodes[c].id == NodeId(c as usize) && refs_before(nodes[c].op, c));
                if head(nodes, c) {
                    lemma_chain_input(nodes, c);
                    let q = chain_input(nodes, c);
                    lemma_newpos_bound(nodes, q);
                    lemma_newpos_before(nodes, q, c);
                } else {
                    lemma_kept_refs_stay(nodes, c, k);
                    let r = refs(nodes[c].op)[k].0 as int;
                    assert(refs_v(v.op)[k] == remap(nodes, refs(nodes[c].op)[k]));
                    lemma_newpos_bound(nodes, r);
                    lemma_newpos_before(nodes, r, c);
                }
            }
            assert forall|i: int| 0 <= i < cur.len() implies (#[trigger] cur[i]).id == NodeId(i as usize) && forall|k: int|
                0 <= k < refs_v(cur[i].op).len() ==> (#[trigger] refs_v(cur[i].op)[k]).0 < i by {
                if i < prev.len() {
                    assert(cur[i] == prev[i]);
                }
            }
        }
    }
}

/// Fusion keeps the plan's order: in the fused plan, as in the plan it came
/// from, each node's id is its position and every node reads only earlier
/// nodes.
pub proof fn law_fusion_keeps_order(nodes: Seq<Node>)
    requires
        ordered_plan(nodes),
        nodes.len() <= usize::MAX,
    ensures
        ordered_view(fused_prefix(nodes, nodes.len() as int)),
{
    lemma_fused_prefix_ordered(nodes, nodes.len() as int);
}

/// A fused-plan node meets the contracts of its operation (as `node_ok`
/// states them for a plan's nodes).
pub open spec fn node_ok_v(vs: Seq<NodeV>, v: NodeV) -> bool {
    match v.op {
        OpV::Join(j) => {
            let (x, y) = match j {
                JoinOp::MapR { x, y } => (x, y),
                JoinOp::AsofR { x, y } => (x, y),
            };
            &&& x.0 < vs.len()
            &&& y.0 < vs.len()
            &&& !known_and_differ(vs[x.0 as int].schema.index_type, vs[y.0 as int].schema.index_type)
            &&& (vs[y.0 as int].schema.index_type is Some ==> v.schema.index_type
                == vs[y.0 as int].schema.index_type)
            &&& (vs[y.0 as int].schema.nrows is Some ==> v.schema.nrows == vs[y.0 as int].schema.nrows)
        },
        OpV::Apply(input, _)
        | OpV::Fused(input, _)
        | OpV::Cs1Fused(input, _)
        | OpV::Cs1DlogOfs(input, _)
        | OpV::Cs1DlogObs(input) => {
            &&& input.0 < vs.len()
            &&& v.schema.index_type == vs[input.0 as int].schema.index_type
            &&& v.schema.nrows == vs[input.0 as int].schema.nrows
        },
        OpV::Binary(lhs, rhs, _) => {
            &&& lhs.0 < vs.len()
            &&& v.schema.index_type == vs[lhs.0 as int].schema.index_type
            &&& v.schema.nrows == vs[lhs.0 as int].schema.nrows
            &&& match rhs {
                ValueRef::Frame(r) => {
                    &&& r.0 < vs.len()
                    &&& !known_and_differ(vs[lhs.0 as int].schema.index_type, vs[r.0 as int].schema.index_type)
                    &&& !known_and_differ(vs[lhs.0 as int].schema.nrows, vs[r.0 as int].schema.nrows)
                    &&& !known_and_differ(ncols_of(vs[lhs.0 as int].schema), ncols_of(vs[r.0 as int].schema))
                },
                ValueRef::Scalar(_) => true,
            }
        },
        OpV::Source(_) => true,
    }
}

pub open spec fn plan_ok_v(vs: Seq<NodeV>) -> bool {
    forall|i: int| 0 <= i < vs.len() ==> node_ok_v(vs, #[trigger] vs[i])
}

pub(crate) proof fn lemma_plan_ok_view(ns: Seq<Node>)
    ensures
        plan_ok(ns) == plan_ok_v(nodes_view(ns)),
{
    let vs = nodes_view(ns);
    assert forall|i: int| 0 <= i < ns.len() implies node_ok(ns, #[trigger] ns[i]) == node_ok_v(vs, vs[i]) by {
        assert(vs[i] == node_view(ns[i]));
        assert forall|k: int| 0 <= k < ns.len() implies #[trigger] vs[k].schema == ns[k].schema by {
            assert(vs[k] == node_view(ns[k]));
        }
    }
    if plan_ok(ns) {
        assert forall|i: int| 0 <= i < vs.len() implies node_ok_v(vs, #[trigger] vs[i]) by {
            assert(node_ok(ns, ns[i]));
        }
    }
    if plan_ok_v(vs) {
        assert forall|i: int| 0 <= i < ns.len() implies node_ok(ns, #[trigger] ns[i]) by {
            assert(node_ok_v(vs, vs[i]));
        }
    }
}

pub(crate) proof fn lemma_prefix_len(nodes: Seq<Node>, n: int)
    requires
        0 <= n,
    ensures
        fused_prefix(nodes, n).len() == newpos(nodes, n),
    decreases n,
{
    if n > 0 {
        lemma_prefix_len(nodes, n - 1);
    }
}

/// A node that stays sits in the fused plan at its new position.
proof fn lemma_fused_index(nodes: Seq<Node>, n: int, r: int)
    requires
        0 <= r < n,
        !absorbed(nodes, r),
    ensures
        newpos(nodes, r) < fused_prefix(nodes, n).len(),
        fused_prefix(nodes, n)[newpos(nodes, r) as int] == fused_node(nodes, r),
    decreases n,
{
    lemma_prefix_len(nodes, n - 1);
    lemma_prefix_len(nodes, n);
    if r < n - 1 {
        lemma_fused_index(nodes, n - 1, r);
    }
}

/// Along a chain of maps, each of them valid, the index type and row count
/// stay those of the chain's input.
proof fn lemma_chain_schema(nodes: Seq<Node>, c: int)
    requires
        ordered_plan(nodes),
        plan_ok(nodes),
        0 <= c < nodes.len(),
        pure_map(nodes[c].op),
    ensures
        0 <= chain_input(nodes, c) < nodes.len(),
        nodes[c].schema.index_type == nodes[chain_input(nodes, c)].schema.index_type,
        nodes[c].schema.nrows == nodes[chain_input(nodes, c)].schema.nrows,
    decreases c,
{
    lemma_map_input_before(nodes, c);
    assert(node_ok(nodes, nodes[c]));
    let p = map_input(nodes[c].op);
    if 0 <= p < c && absorbable(nodes, p) {
        lemma_chain_schema(nodes, p);
    }
}

/// Appending a node keeps every earlier node of an ordered fused plan valid.
pub(crate) proof fn lemma_push_keeps_ok(prev: Seq<NodeV>, v: NodeV)
    requires
        ordered_view(prev),
        plan_ok_v(prev),
    ensures
        forall|i: int| 0 <= i < prev.len() ==> node_ok_v(prev.push(v), #[trigger] prev[i]),
{
    let cur = prev.push(v);
    assert forall|i: int| 0 <= i < prev.len() implies node_ok_v(cur, #[trigger] prev[i]) by {
        assert(node_ok_v(prev, prev[i]));
        assert(prev[i].id == NodeId(i as usize));
        assert forall|k: int| 0 <= k < refs_v(prev[i].op).len() implies
            cur[(#[trigger] refs_v(prev[i].op)[k]).0 as int] == prev[refs_v(prev[i].op)[k].0 as int] by {
        }
        match prev[i].op {
            OpV::Join(JoinOp::MapR { x, y }) => {
                assert(refs_v(prev[i].op)[0] == x && refs_v(prev[i].op)[1] == y);
            },
            OpV::Join(JoinOp::AsofR { x, y }) => {
                assert(refs_v(prev[i].op)[0] == x && refs_v(prev[i].op)[1] == y);
            },
            OpV::Apply(input, _) => {
                assert(refs_v(prev[i].op)[0] == input);
            },
            OpV::Fused(input, _) | OpV::Cs1Fused(input, _) | OpV::Cs1DlogOfs(input, _) | OpV::Cs1DlogObs(input) => {
                assert(refs_v(prev[i].op)[0] == input);
            },
            OpV::Binary(lhs, rhs, _) => {
                assert(refs_v(prev[i].op)[0] == lhs);
                if let ValueRef::Frame(r) = rhs {
                    assert(refs_v(prev[i].op)[1] == r);
                }
            },
            OpV::Source(_) => {},
        }
    }
}

/// The fused node of a chain is valid in the fused plan.
proof fn lemma_head_node_ok(nodes: Seq<Node>, c: int)
    requires
        ordered_plan(nodes),
        plan_ok(nodes),
        0 <= c < nodes.len(),
        nodes.len() <= usize::MAX,
        head(nodes, c),
    ensures
        node_ok_v(fused_prefix(nodes, c).push(fused_node(nodes, c)), fused_node(nodes, c)),
{
    let prev = fused_prefix(nodes, c);
    let cur = prev.push(fused_node(nodes, c));
    lemma_prefix_len(nodes, c);
    lemma_chain_input(nodes, c);
    lemma_chain_schema(nodes, c);
    let q = chain_input(nodes, c);
    lemma_fused_index(nodes, c, q);
    lemma_newpos_bound(nodes, q);
    assert(cur[newpos(nodes, q) as int] == prev[newpos(nodes, q) as int]);
}

/// A node that stays as it was is valid in the fused plan.
proof fn lemma_kept_node_ok(nodes: Seq<Node>, c: int)
    requires
        ordered_plan(nodes),
        plan_ok(nodes),
        0 <= c < nodes.len(),
        nodes.len() <= usize::MAX,
        !absorbed(nodes, c),
        !head(nodes, c),
    ensures
        node_ok_v(fused_prefix(nodes, c).push(fused_node(nodes, c)), fused_node(nodes, c)),
{
    let prev = fused_prefix(nodes, c);
    let cur = prev.push(fused_node(nodes, c));
    lemma_prefix_len(nodes, c);
    assert(nodes[c].id == NodeId(c as usize) && refs_before(nodes[c].op, c));
    assert(node_ok(nodes, nodes[c]));
    assert forall|k: int| 0 <= k < refs(nodes[c].op).len() implies {
        let r = (#[trigger] refs(nodes[c].op)[k]).0 as int;
        &&& newpos(nodes, r) < prev.len()
        &&& cur[newpos(nodes, r) as int].schema == nodes[r].schema
        &&& newpos(nodes, r) as usize as int == newpos(nodes, r)
    } by {
        lemma_kept_refs_stay(nodes, c, k);
        let r = refs(nodes[c].op)[k].0 as int;
        lemma_fused_index(nodes, c, r);
        lemma_newpos_bound(nodes, r);
        assert(cur[newpos(nodes, r) as int] == prev[newpos(nodes, r) as int]);
    }
    match nodes[c].op {
        Operation::Join(JoinOp::MapR { x, y }) => {
            assert(refs(nodes[c].op)[0] == x && refs(nodes[c].op)[1] == y);
        },
        Operation::Join(JoinOp::AsofR { x, y }) => {
            assert(refs(nodes[c].op)[0] == x && refs(nodes[c].op)[1] == y);
        },
        Operation::Unary(UnaryOp::MapNumeric { input, .. }) => {
            assert(refs(nodes[c].op)[0] == input);
        },
        Operation::Unary(UnaryOp::FusedElementwise { input, .. })
        | Operation::Unary(UnaryOp::FusedCs1Elementwise { input, .. })
        | Operation::Unary(UnaryOp::FusedCs1DlogOfs { input, .. })
        | Operation::Unary(UnaryOp::FusedCs1DlogObs { input }) => {
            assert(refs(nodes[c].op)[0] == input);
        },
        Operation::Binary(BinaryOp::MapNumeric2 { lhs, rhs, .. }) => {
            assert(refs(nodes[c].op)[0] == lhs);
            if let ValueRef::Frame(r) = rhs {
                assert(refs(nodes[c].op)[1] == r);
            }
        },
        Operation::Source(_) => {},
    }
}

proof fn lemma_fused_valid(nodes: Seq<Node>, n: int)
    requires
        ordered_plan(nodes),
        plan_ok(nodes),
        0 <= n <= nodes.len(),
        nodes.len() <= usize::MAX,
    ensures
        plan_ok_v(fused_prefix(nodes, n)),
    decreases n,
{
    if n > 0 {
        lemma_fused_valid(nodes, n - 1);
        let c = n - 1;
        if !absorbed(nodes, c) {
            let prev = fused_prefix(nodes, c);
            let v = fused_node(nodes, c);
            let cur = fused_prefix(nodes, n);
            assert(cur == prev.push(v));
            lemma_fused_prefix_ordered(nodes, c);
            lemma_push_keeps_ok(prev, v);
            if head(nodes, c) {
                lemma_head_node_ok(nodes, c);
            } else {
                lemma_kept_node_ok(nodes, c);
            }
            assert forall|i: int| 0 <= i < cur.len() implies node_ok_v(cur, #[trigger] cur[i]) by {
                if i < prev.len() {
                    assert(cur[i] == prev[i]);
                }
            }
        }
    }
}

/// Fusion keeps a valid plan valid: when `Plan::validate` accepts a plan, it
/// accepts the fused plan too.
pub proof fn law_fusion_keeps_valid(nodes: Seq<Node>, fused: Seq<Node>)
    requires
        ordered_plan(nodes),
        plan_ok(nodes),
        nodes.len() <= usize::MAX,
        nodes_view(fused) == fused_prefix(nodes, nodes.len() as int),
    ensures
        plan_ok(fused),
{
    lemma_fused_valid(nodes, nodes.len() as int);
    lemma_plan_ok_view(fused);
}

} // verus!
