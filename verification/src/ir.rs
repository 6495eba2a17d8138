//! Intermediate representation: a plan of operations over frames, and its
//! contract checks.
//!
//! Nodes are in topological order (dependencies before dependents); schema
//! information is tracked so that index types are never coerced and row counts
//! propagate.

use vstd::prelude::*;
use std::sync::Arc;
use crate::ast::SymbolId;
use crate::fmt::{decimal, push_decimal};

verus! {

/// IR node ID (unique within a plan).
#[derive(Debug, Clone, Copy, PartialEq, Eq, Hash, Structural)]
pub struct NodeId(pub usize);

/// IR plan: operations in topological order.
#[derive(Debug, Clone)]
pub struct Plan {
    pub nodes: Vec<Node>,
}

/// IR node: a single operation in the plan.
#[derive(Debug, Clone)]
pub struct Node {
    pub id: NodeId,
    pub op: Operation,
    pub schema: SchemaInfo,
}

/// Schema information tracked at IR level (None where unknown at compile time).
#[derive(Debug, Clone)]
pub struct SchemaInfo {
    pub index_type: Option<IndexType>,
    pub colnames: Option<Arc<Vec<String>>>,
    pub nrows: Option<usize>,
}

impl SchemaInfo {
    pub fn unknown() -> (s: Self)
        ensures
            s.index_type is None,
            s.colnames is None,
            s.nrows is None,
    {
        Self { index_type: None, colnames: None, nrows: None }
    }
}

/// Index type discriminator (no coercion allowed).
#[derive(Debug, Clone, Copy, PartialEq, Eq, Structural)]
pub enum IndexType {
    Date,
    Timestamp,
    String,
}

/// IR operation.
#[derive(Debug, Clone)]
pub enum Operation {
    /// Load data from a source.
    Source(Source),
    /// Apply a unary operation (preserves tags).
    Unary(UnaryOp),
    /// Apply a binary operation.
    Binary(BinaryOp),
    /// Join two frames.
    Join(JoinOp),
}

/// Data source operations.
#[derive(Debug, Clone)]
pub enum Source {
    /// Load from CSV file.
    File { path: String },
    /// Reference a variable in the environment.
    Variable { name: SymbolId },
}

/// Unary operations: output has the input's index, colnames and nrows.
#[derive(Debug, Clone)]
pub enum UnaryOp {
    /// Map numeric function over columns.
    MapNumeric { input: NodeId, func: NumericFunc },
    /// A chain of pure elementwise functions, applied in order in one pass.
    FusedElementwise { input: NodeId, ops: Vec<NumericFunc> },
    /// A cumulative sum of a chain of pure elementwise functions, in one pass.
    FusedCs1Elementwise { input: NodeId, ops: Vec<NumericFunc> },
    /// A cumulative sum of the offset-space difference log (lag `lag`), in one pass.
    FusedCs1DlogOfs { input: NodeId, lag: usize },
    /// A cumulative sum of the observation-space difference log, in one pass.
    FusedCs1DlogObs { input: NodeId },
}

/// Numeric functions that can be mapped over columns.
#[derive(Debug, Clone, Copy, PartialEq, Eq, Structural)]
pub enum NumericFunc {
    /// Difference log: dlog(x) = log(x / x[-1]).
    Dlog,
    /// Simple return: ret(x) = x / x[-1] - 1.
    Ret,
    /// Natural log.
    Log,
    /// Exponential.
    Exp,
    /// Square root.
    Sqrt,
    /// Absolute value.
    Abs,
    /// Inverse: 1/x.
    Inv,
    /// Shift (lag) k rows down: output[i] = input[i-k] for i >= k, NA before.
    Shift { k: usize },
    /// Cumulative sum (`cs1`): output[i] = input[0] + ... + input[i].
    Cs1,
    /// Difference log over the offset space (lag by row offset).
    DlogOfs,
    /// Difference log over the observation space (lag to the previous observation).
    DlogObs,
}

/// Binary operations (element-wise combination of two inputs); LHS tags preserved.
#[derive(Debug, Clone)]
pub enum BinaryOp {
    MapNumeric2 { lhs: NodeId, rhs: ValueRef, func: BinaryFunc },
}

/// Value reference: a scalar constant or a frame node.
///
/// A scalar is carried as its IEEE-754 bit pattern (`f64::to_bits`).
#[derive(Debug, Clone, Copy, PartialEq, Eq, Structural)]
pub enum ValueRef {
    Scalar(u64),
    Frame(NodeId),
}

/// Binary numeric functions (cell-wise; NA if either cell is NA).
#[derive(Debug, Clone, Copy, PartialEq, Eq, Structural)]
pub enum BinaryFunc {
    Add,
    Sub,
    Mul,
    Div,
}

/// Join operations: output has y's index and nrows and x's colnames.
#[derive(Debug, Clone, Copy, PartialEq, Eq, Structural)]
pub enum JoinOp {
    /// Exact match join (right outer join); missing rows are NA.
    MapR { x: NodeId, y: NodeId },
    /// As-of join (right outer, at-or-before matching).
    AsofR { x: NodeId, y: NodeId },
}

/// Whether a numeric function is pure elementwise (no state, no lookahead),
/// so that chains of them can run fused in one pass.
pub fn is_pure_elementwise(func: &NumericFunc) -> (r: bool)
    ensures
        r == (*func is Abs || *func is Log || *func is Exp || *func is Sqrt || *func is Inv),
{
    match func {
        NumericFunc::Abs | NumericFunc::Log | NumericFunc::Exp | NumericFunc::Sqrt | NumericFunc::Inv => true,
        _ => false,
    }
}

// ─── What operations compute ───────────────────────────────────────────────

/// What a binary function computes on two integers.
pub open spec fn binary_apply(f: BinaryFunc, a: int, b: int) -> int {
    match f {
        BinaryFunc::Add => a + b,
        BinaryFunc::Sub => a - b,
        BinaryFunc::Mul => a * b,
        BinaryFunc::Div => a / b,
    }
}

/// The IR name of a binary function.
pub open spec fn binary_ir_name(f: BinaryFunc) -> Seq<char> {
    match f {
        BinaryFunc::Add => "ADD"@,
        BinaryFunc::Sub => "SUB"@,
        BinaryFunc::Mul => "MUL"@,
        BinaryFunc::Div => "DIV"@,
    }
}

/// What a spelling of integer arithmetic computes: the operator symbols and
/// the words for them.
pub open spec fn spelling_arith(s: Seq<char>, a: int, b: int) -> Option<int> {
    if s == "+"@ || s == "add"@ {
        Some(a + b)
    } else if s == "-"@ || s == "sub"@ {
        Some(a - b)
    } else if s == "*"@ || s == "mul"@ {
        Some(a * b)
    } else if s == "/"@ || s == "div"@ {
        Some(a / b)
    } else {
        None
    }
}

/// What a spelling of a comparison tests: the operator symbols and the words
/// for them (`gt` greater than, `gte` greater than or equal, ...).
pub open spec fn spelling_compare(s: Seq<char>, a: int, b: int) -> Option<bool> {
    if s == ">"@ || s == "gt"@ {
        Some(a > b)
    } else if s == ">="@ || s == "gte"@ {
        Some(a >= b)
    } else if s == "<"@ || s == "lt"@ {
        Some(a < b)
    } else if s == "<="@ || s == "lte"@ {
        Some(a <= b)
    } else if s == "=="@ || s == "eq"@ {
        Some(a == b)
    } else if s == "!="@ || s == "neq"@ {
        Some(a != b)
    } else {
        None
    }
}

/// What an IR comparison operation tests.
pub open spec fn ir_compare(name: Seq<char>, a: int, b: int) -> Option<bool> {
    if name == "GTR"@ {
        Some(a > b)
    } else if name == "GTE"@ {
        Some(a >= b)
    } else if name == "LSS"@ {
        Some(a < b)
    } else if name == "LTE"@ {
        Some(a <= b)
    } else if name == "EQL"@ {
        Some(a == b)
    } else if name == "NEQ"@ {
        Some(a != b)
    } else {
        None
    }
}

// ─── Operation names ───────────────────────────────────────────────────────

/// The names of the IR's operations: one for each numeric function, each
/// binary function and each source, in declaration order. The dictionary's
/// `ir:` fields and the canonical-name table speak of operations by these names.
pub open spec fn ir_name_list() -> Seq<Seq<char>> {
    seq![
        "DLOG"@,
        "RET"@,
        "LOG"@,
        "EXP"@,
        "SQRT"@,
        "ABS"@,
        "INV"@,
        "SHF_PTW_LIN_SHF"@,
        "SHF_PFX_LIN_SUM"@,
        "SHF_PTW_OFS_NLN_DLOG"@,
        "SHF_PTW_OBS_NLN_DLOG"@,
        "ADD"@,
        "SUB"@,
        "MUL"@,
        "DIV"@,
        "FILE"@,
        "VARIABLE"@,
    ]
}

/// Every binary function's IR name is one of the IR's operation names, and
/// different functions have different names.
pub proof fn law_binary_names_are_ir_names(f: BinaryFunc, g: BinaryFunc)
    ensures
        ir_name_list().contains(binary_ir_name(f)),
        binary_ir_name(f) == binary_ir_name(g) ==> f == g,
{
    reveal_strlit("ADD");
    reveal_strlit("SUB");
    reveal_strlit("MUL");
    reveal_strlit("DIV");
    let l = ir_name_list();
    assert(l[11] == "ADD"@ && l[12] == "SUB"@ && l[13] == "MUL"@ && l[14] == "DIV"@);
    assert("ADD"@[0] == 'A' && "SUB"@[0] == 'S' && "MUL"@[0] == 'M' && "DIV"@[0] == 'D');
}

/// The names of the IR's operations (see `ir_name_list`).
pub fn ir_name_set() -> (r: Vec<String>)
    ensures
        r@.map_values(|s: String| s@) == ir_name_list(),
{
    let all: Vec<&'static str> = vec![
        "DLOG",
        "RET",
        "LOG",
        "EXP",
        "SQRT",
        "ABS",
        "INV",
        "SHF_PTW_LIN_SHF",
        "SHF_PFX_LIN_SUM",
        "SHF_PTW_OFS_NLN_DLOG",
        "SHF_PTW_OBS_NLN_DLOG",
        "ADD",
        "SUB",
        "MUL",
        "DIV",
        "FILE",
        "VARIABLE",
    ];
    assert(all@.map_values(|s: &str| s@) =~= ir_name_list());
    let mut r: Vec<String> = Vec::new();
    let mut i: usize = 0;
    while i < all.len()
        invariant
            i <= all@.len(),
            all@.map_values(|s: &str| s@) == ir_name_list(),
            r@.map_values(|s: String| s@) == ir_name_list().take(i as int),
        decreases all@.len() - i,
    {
        let ghost before = r@;
        r.push(String::from_str(all[i]));
        assert(r@.map_values(|s: String| s@) =~= before.map_values(|s: String| s@).push(all@[i as int]@));
        assert(ir_name_list().take(i + 1) =~= ir_name_list().take(i as int).push(all@[i as int]@));
        i += 1;
    }
    assert(ir_name_list().take(all@.len() as int) =~= ir_name_list());
    r
}

// ─── Validation specification ──────────────────────────────────────────────

/// Both known and different.
pub open spec fn known_and_differ<T>(a: Option<T>, b: Option<T>) -> bool {
    a is Some && b is Some && a->0 != b->0
}

/// The number of column names, when known.
pub open spec fn ncols_of(s: SchemaInfo) -> Option<nat> {
    match s.colnames {
        Some(c) => Some(c@.len()),
        None => None,
    }
}

/// A node meets the contracts of its operation against the nodes of the plan.
pub open spec fn node_ok(nodes: Seq<Node>, n: Node) -> bool {
    match n.op {
        Operation::Join(j) => {
            let (x, y) = match j {
                JoinOp::MapR { x, y } => (x, y),
                JoinOp::AsofR { x, y } => (x, y),
            };
            &&& x.0 < nodes.len()
            &&& y.0 < nodes.len()
            &&& !known_and_differ(nodes[x.0 as int].schema.index_type, nodes[y.0 as int].schema.index_type)
            &&& (nodes[y.0 as int].schema.index_type is Some ==> n.schema.index_type
                == nodes[y.0 as int].schema.index_type)
            &&& (nodes[y.0 as int].schema.nrows is Some ==> n.schema.nrows
                == nodes[y.0 as int].schema.nrows)
        },
        Operation::Unary(UnaryOp::MapNumeric { input, .. })
        | Operation::Unary(UnaryOp::FusedElementwise { input, .. })
        | Operation::Unary(UnaryOp::FusedCs1Elementwise { input, .. })
        | Operation::Unary(UnaryOp::FusedCs1DlogOfs { input, .. })
        | Operation::Unary(UnaryOp::FusedCs1DlogObs { input }) => {
            &&& input.0 < nodes.len()
            &&& n.schema.index_type == nodes[input.0 as int].schema.index_type
            &&& n.schema.nrows == nodes[input.0 as int].schema.nrows
        },
        Operation::Binary(BinaryOp::MapNumeric2 { lhs, rhs, .. }) => {
            &&& lhs.0 < nodes.len()
            &&& n.schema.index_type == nodes[lhs.0 as int].schema.index_type
            &&& n.schema.nrows == nodes[lhs.0 as int].schema.nrows
            &&& match rhs {
                ValueRef::Frame(r) => {
                    &&& r.0 < nodes.len()
                    &&& !known_and_differ(nodes[lhs.0 as int].schema.index_type, nodes[r.0 as int].schema.index_type)
                    &&& !known_and_differ(nodes[lhs.0 as int].schema.nrows, nodes[r.0 as int].schema.nrows)
                    &&& !known_and_differ(ncols_of(nodes[lhs.0 as int].schema), ncols_of(nodes[r.0 as int].schema))
                },
                ValueRef::Scalar(_) => true,
            }
        },
        Operation::Source(_) => true,
    }
}

/// Every node of the plan meets its contracts.
pub open spec fn plan_ok(nodes: Seq<Node>) -> bool {
    forall|i: int| 0 <= i < nodes.len() ==> node_ok(nodes, #[trigger] nodes[i])
}

/// The fault that validation reports for a node, checked in the order the
/// contracts are listed: references first, then index type, then row count,
/// then (for a frame on the right of a binary op) column count.
pub open spec fn node_error(nodes: Seq<Node>, n: Node) -> Option<Seq<char>> {
    match n.op {
        Operation::Join(j) => {
            let (x, y) = match j {
                JoinOp::MapR { x, y } => (x, y),
                JoinOp::AsofR { x, y } => (x, y),
            };
            if x.0 >= nodes.len() {
                Some("Invalid x node reference"@)
            } else if y.0 >= nodes.len() {
                Some("Invalid y node reference"@)
            } else {
                let xs = nodes[x.0 as int].schema;
                let ys = nodes[y.0 as int].schema;
                if known_and_differ(xs.index_type, ys.index_type) {
                    Some("Index type mismatch in join: "@ + index_type_text(xs.index_type->0) + " vs "@
                        + index_type_text(ys.index_type->0) + " (no coercion allowed)"@)
                } else if ys.index_type is Some && n.schema.index_type != ys.index_type {
                    Some("Join output index must match y's index"@)
                } else if ys.nrows is Some && n.schema.nrows != ys.nrows {
                    Some("Join output nrows must match y's nrows"@)
                } else {
                    None
                }
            }
        },
        Operation::Unary(UnaryOp::MapNumeric { input, .. })
        | Operation::Unary(UnaryOp::FusedElementwise { input, .. })
        | Operation::Unary(UnaryOp::FusedCs1Elementwise { input, .. })
        | Operation::Unary(UnaryOp::FusedCs1DlogOfs { input, .. })
        | Operation::Unary(UnaryOp::FusedCs1DlogObs { input }) => {
            if input.0 >= nodes.len() {
                Some("Invalid input node reference"@)
            } else if n.schema.index_type != nodes[input.0 as int].schema.index_type {
                Some("Unary op must preserve index type (I1)"@)
            } else if n.schema.nrows != nodes[input.0 as int].schema.nrows {
                Some("Unary op must preserve nrows (I3)"@)
            } else {
                None
            }
        },
        Operation::Binary(BinaryOp::MapNumeric2 { lhs, rhs, .. }) => {
            if lhs.0 >= nodes.len() {
                Some("Invalid LHS node reference"@)
            } else if n.schema.index_type != nodes[lhs.0 as int].schema.index_type {
                Some("Binary op must preserve LHS index type (I1)"@)
            } else if n.schema.nrows != nodes[lhs.0 as int].schema.nrows {
                Some("Binary op must preserve LHS nrows (I3)"@)
            } else {
                match rhs {
                    ValueRef::Frame(r) => if r.0 >= nodes.len() {
                        Some("Invalid RHS node reference"@)
                    } else {
                        let ls = nodes[lhs.0 as int].schema;
                        let rs = nodes[r.0 as int].schema;
                        if known_and_differ(ls.index_type, rs.index_type) {
                            Some("Binary op requires compatible index types: "@ + index_type_text(ls.index_type->0)
                                + " vs "@ + index_type_text(rs.index_type->0) + ". Use mapr/asofr for alignment."@)
                        } else if known_and_differ(ls.nrows, rs.nrows) {
                            Some("Binary op requires compatible shapes: "@ + decimal(ls.nrows->0 as nat) + " vs "@
                                + decimal(rs.nrows->0 as nat) + " rows. Use mapr/asofr for alignment."@)
                        } else if known_and_differ(ncols_of(ls), ncols_of(rs)) {
                            Some("Binary op requires same number of columns: "@ + decimal(ncols_of(ls)->0)
                                + " vs "@ + decimal(ncols_of(rs)->0) + ""@)
                        } else {
                            None
                        }
                    },
                    ValueRef::Scalar(_) => None,
                }
            }
        },
        Operation::Source(_) => None,
    }
}

/// The fault of the first node, from `i` on, that breaks a contract.
pub open spec fn first_error_from(nodes: Seq<Node>, i: nat) -> Option<Seq<char>>
    decreases nodes.len() - i,
{
    if i >= nodes.len() {
        None
    } else {
        match node_error(nodes, nodes[i as int]) {
            Some(e) => Some(e),
            None => first_error_from(nodes, i + 1),
        }
    }
}

/// The fault that validation of the whole plan reports, if any.
pub open spec fn plan_error(nodes: Seq<Node>) -> Option<Seq<char>> {
    first_error_from(nodes, 0)
}

// ─── Plan construction and validation ──────────────────────────────────────

/// The name of an index type, as error messages show it.
pub open spec fn index_type_text(t: IndexType) -> Seq<char> {
    match t {
        IndexType::Date => "Date"@,
        IndexType::Timestamp => "Timestamp"@,
        IndexType::String => "String"@,
    }
}

fn index_type_name(t: IndexType) -> (s: &'static str)
    ensures
        s@ == index_type_text(t),
{
    match t {
        IndexType::Date => "Date",
        IndexType::Timestamp => "Timestamp",
        IndexType::String => "String",
    }
}

fn opt_index_eq(a: Option<IndexType>, b: Option<IndexType>) -> (r: bool)
    ensures
        r == (a == b),
{
    match (a, b) {
        (Some(x), Some(y)) => x == y,
        (None, None) => true,
        _ => false,
    }
}

fn opt_usize_eq(a: Option<usize>, b: Option<usize>) -> (r: bool)
    ensures
        r == (a == b),
{
    match (a, b) {
        (Some(x), Some(y)) => x == y,
        (None, None) => true,
        _ => false,
    }
}

fn text(s: &str) -> (r: String)
    ensures
        r@ == s@,
{
    let mut r = String::new();
    r.append(s);
    r
}

fn mismatch_message(prefix: &str, a: IndexType, b: IndexType, suffix: &str) -> (m: String)
    ensures
        m@ == prefix@ + index_type_text(a) + " vs "@ + index_type_text(b) + suffix@,
{
    let mut m = String::new();
    m.append(prefix);
    m.append(index_type_name(a));
    m.append(" vs ");
    m.append(index_type_name(b));
    m.append(suffix);
    m
}

fn count_message(prefix: &str, a: usize, b: usize, suffix: &str) -> (m: String)
    ensures
        m@ == prefix@ + decimal(a as nat) + " vs "@ + decimal(b as nat) + suffix@,
{
    let mut m = String::new();
    m.append(prefix);
    push_decimal(&mut m, a as u64);
    m.append(" vs ");
    push_decimal(&mut m, b as u64);
    m.append(suffix);
    m
}

impl Plan {
    pub fn new() -> (p: Self)
        ensures
            p.nodes@ == Seq::<Node>::empty(),
    {
        Self { nodes: Vec::new() }
    }

    /// Add a node to the plan and return its ID.
    pub fn add_node(&mut self, node: Node) -> (id: NodeId)
        ensures
            id.0 == old(self).nodes@.len(),
            final(self).nodes@ == old(self).nodes@.push(node),
    {
        let id = NodeId(self.nodes.len());
        self.nodes.push(node);
        id
    }

    /// Get a node by ID.
    pub fn get_node(&self, id: NodeId) -> (r: Option<&Node>)
        ensures
            match r {
                Some(n) => id.0 < self.nodes@.len() && *n == self.nodes@[id.0 as int],
                None => id.0 >= self.nodes@.len(),
            },
    {
        if id.0 < self.nodes.len() {
            Some(&self.nodes[id.0])
        } else {
            None
        }
    }

    /// Check one node against the contracts of its operation.
    fn validate_node(&self, node: &Node) -> (r: Result<(), String>)
        ensures
            r is Ok <==> node_ok(self.nodes@, *node),
            match r {
                Ok(()) => node_error(self.nodes@, *node) is None,
                Err(e) => node_error(self.nodes@, *node) == Some(e@),
            },
    {
        match &node.op {
            Operation::Join(j) => {
                let (x, y) = match j {
                    JoinOp::MapR { x, y } => (*x, *y),
                    JoinOp::AsofR { x, y } => (*x, *y),
                };
                let x_node = match self.get_node(x) {
                    Some(n) => n,
                    None => return Err(text("Invalid x node reference")),
                };
                let y_node = match self.get_node(y) {
                    Some(n) => n,
                    None => return Err(text("Invalid y node reference")),
                };
                if let (Some(x_idx), Some(y_idx)) = (x_node.schema.index_type, y_node.schema.index_type) {
                    if x_idx != y_idx {
                        return Err(mismatch_message("Index type mismatch in join: ", x_idx, y_idx, " (no coercion allowed)"));
                    }
                }
                if let Some(y_idx) = y_node.schema.index_type {
                    if !opt_index_eq(node.schema.index_type, Some(y_idx)) {
                        return Err(text("Join output index must match y's index"));
                    }
                }
                if let Some(y_nrows) = y_node.schema.nrows {
                    if !opt_usize_eq(node.schema.nrows, Some(y_nrows)) {
                        return Err(text("Join output nrows must match y's nrows"));
                    }
                }
                Ok(())
            },
            Operation::Unary(UnaryOp::MapNumeric { input, .. })
            | Operation::Unary(UnaryOp::FusedElementwise { input, .. })
            | Operation::Unary(UnaryOp::FusedCs1Elementwise { input, .. })
            | Operation::Unary(UnaryOp::FusedCs1DlogOfs { input, .. })
            | Operation::Unary(UnaryOp::FusedCs1DlogObs { input }) => {
                let input_node = match self.get_node(*input) {
                    Some(n) => n,
                    None => return Err(text("Invalid input node reference")),
                };
                if !opt_index_eq(node.schema.index_type, input_node.schema.index_type) {
                    return Err(text("Unary op must preserve index type (I1)"));
                }
                if !opt_usize_eq(node.schema.nrows, input_node.schema.nrows) {
                    return Err(text("Unary op must preserve nrows (I3)"));
                }
                Ok(())
            },
            Operation::Binary(BinaryOp::MapNumeric2 { lhs, rhs, .. }) => {
                let lhs_node = match self.get_node(*lhs) {
                    Some(n) => n,
                    None => return Err(text("Invalid LHS node reference")),
                };
                if !opt_index_eq(node.schema.index_type, lhs_node.schema.index_type) {
                    return Err(text("Binary op must preserve LHS index type (I1)"));
                }
                if !opt_usize_eq(node.schema.nrows, lhs_node.schema.nrows) {
                    return Err(text("Binary op must preserve LHS nrows (I3)"));
                }
                if let ValueRef::Frame(rhs_id) = rhs {
                    let rhs_node = match self.get_node(*rhs_id) {
                        Some(n) => n,
                        None => return Err(text("Invalid RHS node reference")),
                    };
                    if let (Some(l), Some(r)) = (lhs_node.schema.index_type, rhs_node.schema.index_type) {
                        if l != r {
                            return Err(mismatch_message("Binary op requires compatible index types: ", l, r, ". Use mapr/asofr for alignment."));
                        }
                    }
                    if let (Some(l), Some(r)) = (lhs_node.schema.nrows, rhs_node.schema.nrows) {
                        if l != r {
                            return Err(count_message("Binary op requires compatible shapes: ", l, r, " rows. Use mapr/asofr for alignment."));
                        }
                    }
                    if let (Some(l), Some(r)) = (&lhs_node.schema.colnames, &rhs_node.schema.colnames) {
                        if l.len() != r.len() {
                            return Err(count_message("Binary op requires same number of columns: ", l.len(), r.len(), ""));
                        }
                    }
                }
                Ok(())
            },
            Operation::Source(_) => Ok(()),
        }
    }

    /// Validate the plan: joins never coerce index types, unary and binary
    /// operations preserve their input's index type and row count, joins take
    /// y's index and row count, and every node reference is in range.
    /// Reports the first node that breaks a contract.
    pub fn validate(&self) -> (r: Result<(), String>)
        ensures
            r is Ok <==> plan_ok(self.nodes@),
            match r {
                Ok(()) => plan_error(self.nodes@) is None,
                Err(e) => plan_error(self.nodes@) == Some(e@),
            },
    {
        let mut i: usize = 0;
        while i < self.nodes.len()
            invariant
                0 <= i <= self.nodes@.len(),
                forall|j: int| 0 <= j < i ==> node_ok(self.nodes@, #[trigger] self.nodes@[j]),
                plan_error(self.nodes@) == first_error_from(self.nodes@, i as nat),
            decreases self.nodes@.len() - i,
        {
            match self.validate_node(&self.nodes[i]) {
                Ok(()) => {},
                Err(e) => return Err(e),
            }
            i += 1;
        }
        Ok(())
    }
}

} // verus!
