//! Fusion of a cumulative sum (`cs1`) with the node that feeds it.
//!
//! Two passes over a plan in its documented form (each node's id is its
//! position, and every node reads only earlier nodes):
//! - cs1 of elementwise: a cumulative sum of a pure elementwise map, or of a
//!   fused elementwise chain, that nothing else reads runs as one
//!   `FusedCs1Elementwise` node;
//! - cs1 of dlog: a cumulative sum of a difference log (offset space or
//!   observation space) that nothing else reads runs as one `FusedCs1DlogOfs`
//!   node (lag 1) or `FusedCs1DlogObs` node.
//!
//! The node folded in leaves the plan; every other node stays, with its
//! references renumbered to the new positions.

use vstd::prelude::*;
use crate::ir::{BinaryOp, JoinOp, Node, NodeId, NumericFunc, Operation, Plan, UnaryOp, ValueRef, is_pure_elementwise};
use crate::fusion::{
    NodeV, OpV, consumers, copy_funcs, copy_schema, copy_source, count_consumers, counts_ok, map_input,
    node_view, nodes_view, occ, op_view, ordered_plan, ordered_view, pure_map, refs, refs_before, refs_v,
    lemma_uses_two, lemma_push_keeps_ok, lemma_plan_ok_view, node_ok_v, plan_ok_v,
};
use crate::ir::{node_ok, plan_ok};

verus! {

// ─── Which nodes fold ──────────────────────────────────────────────────────

/// Which of the two passes.
#[derive(Clone, Copy)]
pub enum Cs1Pass {
    /// A cumulative sum takes in the elementwise map or chain it reads.
    Elementwise,
    /// A cumulative sum takes in the difference log it reads.
    Dlog,
}

/// A cumulative sum over a node.
pub open spec fn cs1_map(op: Operation) -> bool {
    op matches Operation::Unary(UnaryOp::MapNumeric { func, .. }) && func is Cs1
}

/// What a pass may fold into the cumulative sum that reads it.
pub open spec fn feeds(pass: Cs1Pass, op: Operation) -> bool {
    match pass {
        Cs1Pass::Elementwise => pure_map(op) || op matches Operation::Unary(UnaryOp::FusedElementwise { .. }),
        Cs1Pass::Dlog => op matches Operation::Unary(UnaryOp::MapNumeric { func, .. }) && (func is DlogOfs
            || func is DlogObs),
    }
}

/// Node `j` feeds a pass and only one node reads it.
pub open spec fn foldable(nodes: Seq<Node>, pass: Cs1Pass, j: int) -> bool {
    0 <= j < nodes.len() && feeds(pass, nodes[j].op) && consumers(nodes, j) == 1
}

/// Node `j` folds into the cumulative sum that reads it, and leaves the plan.
pub open spec fn folded(nodes: Seq<Node>, pass: Cs1Pass, j: int) -> bool {
    &&& foldable(nodes, pass, j)
    &&& exists|k: int| 0 <= k < nodes.len() && cs1_map(nodes[k].op) && #[trigger] map_input(nodes[k].op) == j
}

/// Node `i` is a cumulative sum that takes in the node it reads.
pub open spec fn takes_in(nodes: Seq<Node>, pass: Cs1Pass, i: int) -> bool {
    0 <= i < nodes.len() && cs1_map(nodes[i].op) && foldable(nodes, pass, map_input(nodes[i].op))
}

// ─── The fused plan ────────────────────────────────────────────────────────

/// The position in the fused plan of the node at position `j`: the number of
/// nodes before it that stay.
pub open spec fn newpos_c(nodes: Seq<Node>, pass: Cs1Pass, j: int) -> nat
    decreases j,
{
    if j <= 0 {
        0
    } else {
        newpos_c(nodes, pass, j - 1) + if folded(nodes, pass, j - 1) {
            0nat
        } else {
            1nat
        }
    }
}

pub open spec fn renum(nodes: Seq<Node>, pass: Cs1Pass, r: NodeId) -> NodeId {
    NodeId(newpos_c(nodes, pass, r.0 as int) as usize)
}

/// An operation with its references renumbered.
pub open spec fn renum_op(nodes: Seq<Node>, pass: Cs1Pass, op: Operation) -> OpV {
    match op {
        Operation::Source(s) => OpV::Source(s),
        Operation::Unary(UnaryOp::MapNumeric { input, func }) => OpV::Apply(renum(nodes, pass, input), func),
        Operation::Unary(UnaryOp::FusedElementwise { input, ops }) => OpV::Fused(renum(nodes, pass, input), ops@),
        Operation::Unary(UnaryOp::FusedCs1Elementwise { input, ops }) => OpV::Cs1Fused(
            renum(nodes, pass, input),
            ops@,
        ),
        Operation::Unary(UnaryOp::FusedCs1DlogOfs { input, lag }) => OpV::Cs1DlogOfs(renum(nodes, pass, input), lag),
        Operation::Unary(UnaryOp::FusedCs1DlogObs { input }) => OpV::Cs1DlogObs(renum(nodes, pass, input)),
        Operation::Binary(BinaryOp::MapNumeric2 { lhs, rhs, func }) => OpV::Binary(
            renum(nodes, pass, lhs),
            match rhs {
                ValueRef::Frame(r) => ValueRef::Frame(renum(nodes, pass, r)),
                ValueRef::Scalar(b) => ValueRef::Scalar(b),
            },
            func,
        ),
        Operation::Join(JoinOp::MapR { x, y }) => OpV::Join(
            JoinOp::MapR { x: renum(nodes, pass, x), y: renum(nodes, pass, y) },
        ),
        Operation::Join(JoinOp::AsofR { x, y }) => OpV::Join(
            JoinOp::AsofR { x: renum(nodes, pass, x), y: renum(nodes, pass, y) },
        ),
    }
}

/// What a cumulative sum becomes with the node it reads (`feed`) folded in:
/// an elementwise chain gives its functions, a single elementwise map its
/// function, an offset-space difference log a lag of 1.
pub open spec fn fold_op(nodes: Seq<Node>, pass: Cs1Pass, feed: Operation) -> OpV {
    match feed {
        Operation::Unary(UnaryOp::FusedElementwise { input, ops }) => OpV::Cs1Fused(renum(nodes, pass, input), ops@),
        Operation::Unary(UnaryOp::MapNumeric { input, func }) => if func is DlogOfs {
            OpV::Cs1DlogOfs(renum(nodes, pass, input), 1)
        } else if func is DlogObs {
            OpV::Cs1DlogObs(renum(nodes, pass, input))
        } else {
            OpV::Cs1Fused(renum(nodes, pass, input), seq![func])
        },
        _ => renum_op(nodes, pass, feed),
    }
}

/// What the node at position `i` becomes.
pub open spec fn cs1_node(nodes: Seq<Node>, pass: Cs1Pass, i: int) -> NodeV {
    NodeV {
        id: NodeId(newpos_c(nodes, pass, i) as usize),
        op: if takes_in(nodes, pass, i) {
            fold_op(nodes, pass, nodes[map_input(nodes[i].op)].op)
        } else {
            renum_op(nodes, pass, nodes[i].op)
        },
        schema: nodes[i].schema,
    }
}

/// The fused plan of the first `n` nodes: the nodes that stay, in order.
pub open spec fn cs1_fused(nodes: Seq<Node>, pass: Cs1Pass, n: int) -> Seq<NodeV>
    decreases n,
{
    if n <= 0 {
        seq![]
    } else if folded(nodes, pass, n - 1) {
        cs1_fused(nodes, pass, n - 1)
    } else {
        cs1_fused(nodes, pass, n - 1).push(cs1_node(nodes, pass, n - 1))
    }
}

// ─── Executable ────────────────────────────────────────────────────────────

/// The node a cumulative sum reads.
fn cs1_input(op: &Operation) -> (r: Option<usize>)
    ensures
        r is Some <==> cs1_map(*op),
        r matches Some(p) ==> p == map_input(*op),
{
    match op {
        Operation::Unary(UnaryOp::MapNumeric { input, func: NumericFunc::Cs1 }) => Some(input.0),
        _ => None,
    }
}

fn is_feed(op: &Operation, pass: Cs1Pass) -> (b: bool)
    ensures
        b == feeds(pass, *op),
{
    match pass {
        Cs1Pass::Elementwise => match op {
            Operation::Unary(UnaryOp::MapNumeric { func, .. }) => is_pure_elementwise(func),
            Operation::Unary(UnaryOp::FusedElementwise { .. }) => true,
            _ => false,
        },
        Cs1Pass::Dlog => match op {
            Operation::Unary(UnaryOp::MapNumeric { func: NumericFunc::DlogOfs, .. }) => true,
            Operation::Unary(UnaryOp::MapNumeric { func: NumericFunc::DlogObs, .. }) => true,
            _ => false,
        },
    }
}

fn is_foldable(nodes: &Vec<Node>, counts: &Vec<usize>, pass: Cs1Pass, j: usize) -> (b: bool)
    requires
        counts_ok(nodes@, counts@),
    ensures
        b == foldable(nodes@, pass, j as int),
{
    j < nodes.len() && counts[j] == 1 && is_feed(&nodes[j].op, pass)
}

/// A cumulative sum reads a node before it.
proof fn lemma_cs1_input_before(nodes: Seq<Node>, c: int)
    requires
        ordered_plan(nodes),
        0 <= c < nodes.len(),
        cs1_map(nodes[c].op),
    ensures
        0 <= map_input(nodes[c].op) < c,
{
    assert(nodes[c].id == NodeId(c as usize) && refs_before(nodes[c].op, c));
    assert(refs(nodes[c].op)[0].0 == map_input(nodes[c].op));
}

/// Which nodes fold into the cumulative sum that reads them.
fn folded_flags(nodes: &Vec<Node>, counts: &Vec<usize>, pass: Cs1Pass) -> (flags: Vec<bool>)
    requires
        ordered_plan(nodes@),
        counts_ok(nodes@, counts@),
    ensures
        flags@.len() == nodes@.len(),
        forall|j: int| 0 <= j < nodes@.len() ==> #[trigger] flags@[j] == folded(nodes@, pass, j),
{
    let n = nodes.len();
    let mut flags: Vec<bool> = Vec::new();
    let mut z: usize = 0;
    while z < n
        invariant
            z <= n,
            n == nodes@.len(),
            flags@.len() == z,
            forall|j: int| 0 <= j < z ==> #[trigger] flags@[j] == false,
        decreases n - z,
    {
        flags.push(false);
        z += 1;
    }
    let mut k: usize = 0;
    while k < n
        invariant
            k <= n,
            n == nodes@.len(),
            ordered_plan(nodes@),
            counts_ok(nodes@, counts@),
            flags@.len() == n,
            forall|j: int| 0 <= j < n ==> #[trigger] flags@[j] == (foldable(nodes@, pass, j) && exists|kk: int|
                0 <= kk < k && cs1_map(nodes@[kk].op) && #[trigger] map_input(nodes@[kk].op) == j),
        decreases n - k,
    {
        match cs1_input(&nodes[k].op) {
            Some(p) => {
                proof {
                    lemma_cs1_input_before(nodes@, k as int);
                }
                if is_foldable(nodes, counts, pass, p) {
                    flags.set(p, true);
                }
            },
            None => {},
        }
        proof {
            assert forall|j: int| 0 <= j < n implies #[trigger] flags@[j] == (foldable(nodes@, pass, j) && exists|kk: int|
                0 <= kk < k + 1 && cs1_map(nodes@[kk].op) && #[trigger] map_input(nodes@[kk].op) == j) by {
                if cs1_map(nodes@[k as int].op) && map_input(nodes@[k as int].op) == j {
                    assert(map_input(nodes@[k as int].op) == j);
                } else {
                    if exists|kk: int| 0 <= kk < k + 1 && cs1_map(nodes@[kk].op) && #[trigger] map_input(nodes@[kk].op) == j {
                        let kk = choose|kk: int| 0 <= kk < k + 1 && cs1_map(nodes@[kk].op) && #[trigger] map_input(nodes@[kk].op) == j;
                        assert(kk < k);
                    }
                }
            }
        }
        k += 1;
    }
    flags
}

/// `pos` holds the new position of each of the first `pos.len()` nodes.
pub open spec fn positions_c_ok(nodes: Seq<Node>, pass: Cs1Pass, pos: Seq<usize>) -> bool {
    forall|j: int| 0 <= j < pos.len() ==> #[trigger] pos[j] == newpos_c(nodes, pass, j)
}

/// An operation with its references renumbered by `pos`.
fn renumber(op: &Operation, pos: &Vec<usize>, Ghost(nodes): Ghost<Seq<Node>>, pass: Cs1Pass) -> (r: Operation)
    requires
        positions_c_ok(nodes, pass, pos@),
        refs_before(*op, pos@.len() as int),
    ensures
        op_view(r) == renum_op(nodes, pass, *op),
{
    match op {
        Operation::Source(s) => Operation::Source(copy_source(s)),
        Operation::Unary(UnaryOp::MapNumeric { input, func }) => {
            assert(refs(*op)[0] == *input);
            Operation::Unary(UnaryOp::MapNumeric { input: NodeId(pos[input.0]), func: *func })
        },
        Operation::Unary(UnaryOp::FusedElementwise { input, ops }) => {
            assert(refs(*op)[0] == *input);
            Operation::Unary(UnaryOp::FusedElementwise { input: NodeId(pos[input.0]), ops: copy_funcs(ops) })
        },
        Operation::Unary(UnaryOp::FusedCs1Elementwise { input, ops }) => {
            assert(refs(*op)[0] == *input);
            Operation::Unary(UnaryOp::FusedCs1Elementwise { input: NodeId(pos[input.0]), ops: copy_funcs(ops) })
        },
        Operation::Unary(UnaryOp::FusedCs1DlogOfs { input, lag }) => {
            assert(refs(*op)[0] == *input);
            Operation::Unary(UnaryOp::FusedCs1DlogOfs { input: NodeId(pos[input.0]), lag: *lag })
        },
        Operation::Unary(UnaryOp::FusedCs1DlogObs { input }) => {
            assert(refs(*op)[0] == *input);
            Operation::Unary(UnaryOp::FusedCs1DlogObs { input: NodeId(pos[input.0]) })
        },
        Operation::Binary(BinaryOp::MapNumeric2 { lhs, rhs, func }) => {
            assert(refs(*op)[0] == *lhs);
            let new_rhs = match rhs {
                ValueRef::Frame(r) => {
                    assert(refs(*op)[1] == *r);
                    ValueRef::Frame(NodeId(pos[r.0]))
                },
                ValueRef::Scalar(b) => ValueRef::Scalar(*b),
            };
            Operation::Binary(BinaryOp::MapNumeric2 { lhs: NodeId(pos[lhs.0]), rhs: new_rhs, func: *func })
        },
        Operation::Join(JoinOp::MapR { x, y }) => {
            assert(refs(*op)[0] == *x && refs(*op)[1] == *y);
            Operation::Join(JoinOp::MapR { x: NodeId(pos[x.0]), y: NodeId(pos[y.0]) })
        },
        Operation::Join(JoinOp::AsofR { x, y }) => {
            assert(refs(*op)[0] == *x && refs(*op)[1] == *y);
            Operation::Join(JoinOp::AsofR { x: NodeId(pos[x.0]), y: NodeId(pos[y.0]) })
        },
    }
}

/// The fused operation of a cumulative sum over `feed`.
fn fold_operation(feed: &Operation, pos: &Vec<usize>, Ghost(nodes): Ghost<Seq<Node>>, pass: Cs1Pass) -> (r: Operation)
    requires
        positions_c_ok(nodes, pass, pos@),
        refs_before(*feed, pos@.len() as int),
    ensures
        op_view(r) == fold_op(nodes, pass, *feed),
{
    match feed {
        Operation::Unary(UnaryOp::FusedElementwise { input, ops }) => {
            assert(refs(*feed)[0] == *input);
            Operation::Unary(UnaryOp::FusedCs1Elementwise { input: NodeId(pos[input.0]), ops: copy_funcs(ops) })
        },
        Operation::Unary(UnaryOp::MapNumeric { input, func }) => {
            assert(refs(*feed)[0] == *input);
            let at = NodeId(pos[input.0]);
            match func {
                NumericFunc::DlogOfs => Operation::Unary(UnaryOp::FusedCs1DlogOfs { input: at, lag: 1 }),
                NumericFunc::DlogObs => Operation::Unary(UnaryOp::FusedCs1DlogObs { input: at }),
                _ => {
                    let mut ops: Vec<NumericFunc> = Vec::new();
                    ops.push(*func);
                    assert(ops@ =~= seq![*func]);
                    Operation::Unary(UnaryOp::FusedCs1Elementwise { input: at, ops })
                },
            }
        },
        _ => renumber(feed, pos, Ghost(nodes), pass),
    }
}

pub(crate) proof fn lemma_newpos_c_bound(nodes: Seq<Node>, pass: Cs1Pass, j: int)
    requires
        0 <= j,
    ensures
        newpos_c(nodes, pass, j) <= j,
    decreases j,
{
    if j > 0 {
        lemma_newpos_c_bound(nodes, pass, j - 1);
    }
}

/// Fold into each cumulative sum the node it reads, where the pass allows it.
fn fuse_cs1(plan: &Plan, pass: Cs1Pass) -> (r: Plan)
    requires
        ordered_plan(plan.nodes@),
        plan.nodes@.len() <= usize::MAX / 2,
    ensures
        nodes_view(r.nodes@) == cs1_fused(plan.nodes@, pass, plan.nodes@.len() as int),
{
    let nodes = &plan.nodes;
    let n = nodes.len();
    let counts = count_consumers(nodes);
    let flags = folded_flags(nodes, &counts, pass);
    let mut out: Vec<Node> = Vec::new();
    let mut pos: Vec<usize> = Vec::new();
    let mut i: usize = 0;
    while i < n
        invariant
            i <= n,
            n == nodes@.len(),
            ordered_plan(nodes@),
            counts_ok(nodes@, counts@),
            flags@.len() == n,
            forall|j: int| 0 <= j < n ==> #[trigger] flags@[j] == folded(nodes@, pass, j),
            pos@.len() == i,
            positions_c_ok(nodes@, pass, pos@),
            out@.len() == newpos_c(nodes@, pass, i as int),
            nodes_view(out@) == cs1_fused(nodes@, pass, i as int),
        decreases n - i,
    {
        proof {
            lemma_newpos_c_bound(nodes@, pass, i as int);
        }
        pos.push(out.len());
        if !flags[i] {
            let node = &nodes[i];
            proof {
                assert(node.id == NodeId(i) && refs_before(node.op, i as int));
            }
            let mut fused: Option<Operation> = None;
            match cs1_input(&node.op) {
                Some(p) => {
                    proof {
                        lemma_cs1_input_before(nodes@, i as int);
                    }
                    if is_foldable(nodes, &counts, pass, p) {
                        proof {
                            assert(nodes@[p as int].id == NodeId(p) && refs_before(nodes@[p as int].op, p as int));
                            assert forall|k: int| 0 <= k < refs(nodes@[p as int].op).len() implies
                                (#[trigger] refs(nodes@[p as int].op)[k]).0 < pos@.len() by {}
                        }
                        fused = Some(fold_operation(&nodes[p].op, &pos, Ghost(nodes@), pass));
                    }
                },
                None => {},
            }
            let op = match fused {
                Some(f) => f,
                None => renumber(&node.op, &pos, Ghost(nodes@), pass),
            };
            let ghost before = out@;
            let new_node = Node { id: NodeId(out.len()), op, schema: copy_schema(&node.schema) };
            assert(node_view(new_node) == cs1_node(nodes@, pass, i as int));
            out.push(new_node);
            assert(nodes_view(out@) =~= nodes_view(before).push(node_view(new_node)));
        }
        i += 1;
    }
    Plan { nodes: out }
}

/// Fuse each cumulative sum with the elementwise node it reads: where a
/// `cs1` map reads a pure elementwise map (abs, log, exp, sqrt, inv) or a
/// `FusedElementwise` chain that nothing else reads, the sum becomes one
/// `FusedCs1Elementwise` node over that node's input with its functions, and
/// that node leaves the plan; every other node stays, renumbered.
pub fn optimize_cs1_elementwise_fusion(plan: &Plan) -> (r: Plan)
    requires
        ordered_plan(plan.nodes@),
        plan.nodes@.len() <= usize::MAX / 2,
    ensures
        nodes_view(r.nodes@) == cs1_fused(plan.nodes@, Cs1Pass::Elementwise, plan.nodes@.len() as int),
{
    fuse_cs1(plan, Cs1Pass::Elementwise)
}

/// Fuse each cumulative sum with the difference log it reads: where a `cs1`
/// map reads a difference log that nothing else reads, the sum becomes one
/// `FusedCs1DlogOfs` node (lag 1) for the offset space, or one
/// `FusedCs1DlogObs` node for the observation space, over the log's input,
/// and the log leaves the plan; every other node stays, renumbered.
pub fn optimize_cs1_dlog_fusion(plan: &Plan) -> (r: Plan)
    requires
        ordered_plan(plan.nodes@),
        plan.nodes@.len() <= usize::MAX / 2,
    ensures
        nodes_view(r.nodes@) == cs1_fused(plan.nodes@, Cs1Pass::Dlog, plan.nodes@.len() as int),
{
    fuse_cs1(plan, Cs1Pass::Dlog)
}

// ─── Laws ──────────────────────────────────────────────────────────────────

proof fn lemma_newpos_c_before(nodes: Seq<Node>, pass: Cs1Pass, r: int, i: int)
    requires
        0 <= r < i,
        !folded(nodes, pass, r),
    ensures
        newpos_c(nodes, pass, r) < newpos_c(nodes, pass, i),
    decreases i,
{
    if r < i - 1 {
        lemma_newpos_c_before(nodes, pass, r, i - 1);
    }
}

/// A node that stays as it is never reads a node that leaves the plan.
proof fn lemma_kept_refs_stay_c(nodes: Seq<Node>, pass: Cs1Pass, c: int, k: int)
    requires
        ordered_plan(nodes),
        0 <= c < nodes.len(),
        !takes_in(nodes, pass, c),
        0 <= k < refs(nodes[c].op).len(),
    ensures
        !folded(nodes, pass, refs(nodes[c].op)[k].0 as int),
{
    let r = refs(nodes[c].op)[k].0 as int;
    if folded(nodes, pass, r) {
        let w = choose|w: int| 0 <= w < nodes.len() && cs1_map(nodes[w].op) && #[trigger] map_input(nodes[w].op) == r;
        if w == c {
            assert(refs(nodes[c].op)[0].0 == map_input(nodes[c].op));
            assert(takes_in(nodes, pass, c));
        } else {
            assert(refs(nodes[w].op)[0].0 == r);
            assert(occ(refs(nodes[w].op), r) >= 1);
            assert(occ(refs(nodes[c].op), r) >= 1);
            lemma_uses_two(nodes, nodes.len() as int, r, c, w);
        }
    }
}

/// The node that a folded-in node reads comes before it and stays in the plan.
proof fn lemma_feed_input_stays(nodes: Seq<Node>, pass: Cs1Pass, c: int)
    requires
        ordered_plan(nodes),
        takes_in(nodes, pass, c),
    ensures
        0 <= map_input(nodes[c].op) < c,
        refs(nodes[map_input(nodes[c].op)].op).len() == 1,
        0 <= refs(nodes[map_input(nodes[c].op)].op)[0].0 < map_input(nodes[c].op),
        !folded(nodes, pass, refs(nodes[map_input(nodes[c].op)].op)[0].0 as int),
{
    lemma_cs1_input_before(nodes, c);
    let p = map_input(nodes[c].op);
    assert(nodes[p].id == NodeId(p as usize) && refs_before(nodes[p].op, p));
    assert(refs(nodes[p].op).len() == 1);
    let q = refs(nodes[p].op)[0].0 as int;
    if folded(nodes, pass, q) {
        let w = choose|w: int| 0 <= w < nodes.len() && cs1_map(nodes[w].op) && #[trigger] map_input(nodes[w].op) == q;
        assert(!cs1_map(nodes[p].op));
        assert(refs(nodes[w].op)[0].0 == q);
        assert(occ(refs(nodes[w].op), q) >= 1);
        assert(occ(refs(nodes[p].op), q) >= 1);
        lemma_uses_two(nodes, nodes.len() as int, q, p, w);
    }
}

proof fn lemma_cs1_fused_ordered(nodes: Seq<Node>, pass: Cs1Pass, n: int)
    requires
        ordered_plan(nodes),
        0 <= n <= nodes.len(),
        nodes.len() <= usize::MAX,
    ensures
        cs1_fused(nodes, pass, n).len() == newpos_c(nodes, pass, n),
        ordered_view(cs1_fused(nodes, pass, n)),
    decreases n,
{
    if n > 0 {
        lemma_cs1_fused_ordered(nodes, pass, n - 1);
        if !folded(nodes, pass, n - 1) {
            let c = n - 1;
            let prev = cs1_fused(nodes, pass, c);
            let v = cs1_node(nodes, pass, c);
            let cur = cs1_fused(nodes, pass, n);
            lemma_newpos_c_bound(nodes, pass, c);
            assert(cur == prev.push(v));
            assert forall|k: int| 0 <= k < refs_v(v.op).len() implies (#[trigger] refs_v(v.op)[k]).0 < newpos_c(
                nodes,
                pass,
                c,
            ) by {
                assert(nodes[c].id == NodeId(c as usize) && refs_before(nodes[c].op, c));
                if takes_in(nodes, pass, c) {
                    lemma_feed_input_stays(nodes, pass, c);
                    let p = map_input(nodes[c].op);
                    let q = refs(nodes[p].op)[0].0 as int;
                    assert(refs_v(v.op)[k] == renum(nodes, pass, refs(nodes[p].op)[0]));
                    lemma_newpos_c_bound(nodes, pass, q);
                    lemma_newpos_c_before(nodes, pass, q, c);
                } else {
                    lemma_kept_refs_stay_c(nodes, pass, c, k);
                    let r = refs(nodes[c].op)[k].0 as int;
                    assert(refs_v(v.op)[k] == renum(nodes, pass, refs(nodes[c].op)[k]));
                    lemma_newpos_c_bound(nodes, pass, r);
                    lemma_newpos_c_before(nodes, pass, r, c);
                }
            }
            assert forall|i: int| 0 <= i < cur.len() implies (#[trigger] cur[i]).id == NodeId(i as usize) && forall|k: int|
                0 <= k < refs_v(cur[i].op).len() ==> (#[trigger] refs_v(cur[i].op)[k]).0 < i by {
                if i < prev.len() {
                    assert(cur[i] == prev[i]);
                }
            }
        }
    }
}

/// Either pass keeps the plan's order: in the fused plan each node's id is its
/// position and every node reads only earlier nodes.
pub proof fn law_cs1_fusion_keeps_order(nodes: Seq<Node>, pass: Cs1Pass)
    requires
        ordered_plan(nodes),
        nodes.len() <= usize::MAX,
    ensures
        ordered_view(cs1_fused(nodes, pass, nodes.len() as int)),
        cs1_fused(nodes, pass, nodes.len() as int).len() <= nodes.len(),
{
    lemma_cs1_fused_ordered(nodes, pass, nodes.len() as int);
    lemma_newpos_c_bound(nodes, pass, nodes.len() as int);
}

/// The references of an operation are those of its view.
proof fn lemma_refs_view(op: Operation)
    ensures
        refs_v(op_view(op)) == refs(op),
{
    match op {
        Operation::Join(JoinOp::MapR { .. }) => {},
        Operation::Join(JoinOp::AsofR { .. }) => {},
        Operation::Binary(BinaryOp::MapNumeric2 { rhs, .. }) => {
            match rhs {
                ValueRef::Frame(_) => {},
                ValueRef::Scalar(_) => {},
            }
        },
        _ => {},
    }
}

/// A plan whose view is in order is in order.
pub proof fn lemma_ordered_from_view(ns: Seq<Node>)
    requires
        ordered_view(nodes_view(ns)),
    ensures
        ordered_plan(ns),
{
    let vs = nodes_view(ns);
    assert forall|i: int| 0 <= i < ns.len() implies (#[trigger] ns[i]).id == NodeId(i as usize) && refs_before(
        ns[i].op,
        i,
    ) by {
        assert(vs[i] == node_view(ns[i]));
        lemma_refs_view(ns[i].op);
        assert forall|k: int| 0 <= k < refs(ns[i].op).len() implies (#[trigger] refs(ns[i].op)[k]).0 < i by {
            assert(refs_v(vs[i].op)[k] == refs(ns[i].op)[k]);
        }
    }
}

proof fn lemma_cs1_prefix_len(nodes: Seq<Node>, pass: Cs1Pass, n: int)
    requires
        0 <= n,
    ensures
        cs1_fused(nodes, pass, n).len() == newpos_c(nodes, pass, n),
    decreases n,
{
    if n > 0 {
        lemma_cs1_prefix_len(nodes, pass, n - 1);
    }
}

/// A node that stays sits in the fused plan at its new position.
proof fn lemma_cs1_index(nodes: Seq<Node>, pass: Cs1Pass, n: int, r: int)
    requires
        0 <= r < n,
        !folded(nodes, pass, r),
    ensures
        newpos_c(nodes, pass, r) < cs1_fused(nodes, pass, n).len(),
        cs1_fused(nodes, pass, n)[newpos_c(nodes, pass, r) as int] == cs1_node(nodes, pass, r),
    decreases n,
{
    lemma_cs1_prefix_len(nodes, pass, n - 1);
    lemma_cs1_prefix_len(nodes, pass, n);
    if r < n - 1 {
        lemma_cs1_index(nodes, pass, n - 1, r);
    }
}

/// A cumulative sum that takes in the node it reads is valid in the fused plan:
/// its index type and row count are those of the node read by what it took in.
proof fn lemma_takes_in_node_ok(nodes: Seq<Node>, pass: Cs1Pass, c: int)
    requires
        ordered_plan(nodes),
        plan_ok(nodes),
        0 <= c < nodes.len(),
        nodes.len() <= usize::MAX,
        takes_in(nodes, pass, c),
    ensures
        node_ok_v(cs1_fused(nodes, pass, c).push(cs1_node(nodes, pass, c)), cs1_node(nodes, pass, c)),
{
    let prev = cs1_fused(nodes, pass, c);
    let cur = prev.push(cs1_node(nodes, pass, c));
    lemma_cs1_prefix_len(nodes, pass, c);
    lemma_feed_input_stays(nodes, pass, c);
    let p = map_input(nodes[c].op);
    let q = refs(nodes[p].op)[0].0 as int;
    assert(node_ok(nodes, nodes[c]));
    assert(node_ok(nodes, nodes[p]));
    lemma_cs1_index(nodes, pass, c, q);
    lemma_newpos_c_bound(nodes, pass, q);
    assert(cur[newpos_c(nodes, pass, q) as int] == prev[newpos_c(nodes, pass, q) as int]);
}

/// A node that stays as it was (renumbered) is valid in the fused plan.
proof fn lemma_kept_node_ok_c(nodes: Seq<Node>, pass: Cs1Pass, c: int)
    requires
        ordered_plan(nodes),
        plan_ok(nodes),
        0 <= c < nodes.len(),
        nodes.len() <= usize::MAX,
        !folded(nodes, pass, c),
        !takes_in(nodes, pass, c),
    ensures
        node_ok_v(cs1_fused(nodes, pass, c).push(cs1_node(nodes, pass, c)), cs1_node(nodes, pass, c)),
{
    let prev = cs1_fused(nodes, pass, c);
    let cur = prev.push(cs1_node(nodes, pass, c));
    lemma_cs1_prefix_len(nodes, pass, c);
    assert(nodes[c].id == NodeId(c as usize) && refs_before(nodes[c].op, c));
    assert(node_ok(nodes, nodes[c]));
    assert forall|k: int| 0 <= k < refs(nodes[c].op).len() implies {
        let r = (#[trigger] refs(nodes[c].op)[k]).0 as int;
        &&& newpos_c(nodes, pass, r) < prev.len()
        &&& cur[newpos_c(nodes, pass, r) as int].schema == nodes[r].schema
        &&& newpos_c(nodes, pass, r) as usize as int == newpos_c(nodes, pass, r)
    } by {
        lemma_kept_refs_stay_c(nodes, pass, c, k);
        let r = refs(nodes[c].op)[k].0 as int;
        lemma_cs1_index(nodes, pass, c, r);
        lemma_newpos_c_bound(nodes, pass, r);
        assert(cur[newpos_c(nodes, pass, r) as int] == prev[newpos_c(nodes, pass, r) as int]);
    }
    match nodes[c].op {
        Operation::Join(JoinOp::MapR { x, y }) => {
            assert(refs(nodes[c].op)[0] == x && refs(nodes[c].op)[1] == y);
        },
        Operation::Join(JoinOp::AsofR { x, y }) => {
            assert(refs(nodes[c].op)[0] == x && refs(nodes[c].op)[1] == y);
        },
        Operation::Unary(UnaryOp::MapNumeric { input, .. })
        | Operation::Unary(UnaryOp::FusedElementwise { input, .. })
        | Operation::Unary(UnaryOp::FusedCs1Elementwise { input, .. })
        | Operation::Unary(UnaryOp::FusedCs1DlogOfs { input, .. })
        | Operation::Unary(UnaryOp::FusedCs1DlogObs { input }) => {
            assert(refs(nodes[c].op)[0] == input);
        },
        Operation::Binary(BinaryOp::MapNumeric2 { lhs, rhs, .. }) => {
            assert(refs(nodes[c].op)[0] == lhs);
            if let ValueRef::Frame(r) = rhs {
                assert(refs(nodes[c].op)[1] == r);
            }
        },
        Operation::Source(_) => {},
    }
}

proof fn lemma_cs1_valid(nodes: Seq<Node>, pass: Cs1Pass, n: int)
    requires
        ordered_plan(nodes),
        plan_ok(nodes),
        0 <= n <= nodes.len(),
        nodes.len() <= usize::MAX,
    ensures
        plan_ok_v(cs1_fused(nodes, pass, n)),
    decreases n,
{
    if n > 0 {
        lemma_cs1_valid(nodes, pass, n - 1);
        let c = n - 1;
        if !folded(nodes, pass, c) {
            let prev = cs1_fused(nodes, pass, c);
            let v = cs1_node(nodes, pass, c);
            let cur = cs1_fused(nodes, pass, n);
            assert(cur == prev.push(v));
            lemma_cs1_fused_ordered(nodes, pass, c);
            lemma_push_keeps_ok(prev, v);
            if takes_in(nodes, pass, c) {
                lemma_takes_in_node_ok(nodes, pass, c);
            } else {
                lemma_kept_node_ok_c(nodes, pass, c);
            }
            assert forall|i: int| 0 <= i < cur.len() implies node_ok_v(cur, #[trigger] cur[i]) by {
                if i < prev.len() {
                    assert(cur[i] == prev[i]);
                }
            }
        }
    }
}

/// Either pass keeps a valid plan valid: when `Plan::validate` accepts a plan,
/// it accepts the fused plan too.
pub proof fn law_cs1_fusion_keeps_valid(nodes: Seq<Node>, pass: Cs1Pass, fused: Seq<Node>)
    requires
        ordered_plan(nodes),
        plan_ok(nodes),
        nodes.len() <= usize::MAX,
        nodes_view(fused) == cs1_fused(nodes, pass, nodes.len() as int),
    ensures
        plan_ok(fused),
{
    lemma_cs1_valid(nodes, pass, nodes.len() as int);
    lemma_plan_ok_view(fused);
}

} // verus!
