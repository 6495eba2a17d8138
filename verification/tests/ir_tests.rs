use blisp::ir::{
    BinaryFunc, BinaryOp, IndexType, JoinOp, Node, NodeId, NumericFunc, Operation, Plan, SchemaInfo, Source,
    UnaryOp, ValueRef,
};

#[test]
fn test_plan_creation() {
    let mut plan = Plan::new();

    let source = plan.add_node(Node {
        id: NodeId(0),
        op: Operation::Source(Source::File {
            path: "data.csv".to_string(),
        }),
        schema: SchemaInfo::unknown(),
    });

    assert_eq!(source, NodeId(0));
    assert_eq!(plan.nodes.len(), 1);
}

#[test]
fn test_unary_op() {
    let mut plan = Plan::new();

    let source = plan.add_node(Node {
        id: NodeId(0),
        op: Operation::Source(Source::File {
            path: "data.csv".to_string(),
        }),
        schema: SchemaInfo {
            index_type: Some(IndexType::Date),
            colnames: None,
            nrows: Some(100),
        },
    });

    let dlog = plan.add_node(Node {
        id: NodeId(1),
        op: Operation::Unary(UnaryOp::MapNumeric {
            input: source,
            func: NumericFunc::Dlog,
        }),
        schema: SchemaInfo {
            index_type: Some(IndexType::Date),
            colnames: None,
            nrows: Some(100),
        },
    });

    assert_eq!(dlog, NodeId(1));

    // Validate should pass (I1-I3 preserved)
    assert!(plan.validate().is_ok());
}

#[test]
fn test_join_op() {
    let mut plan = Plan::new();

    let x = plan.add_node(Node {
        id: NodeId(0),
        op: Operation::Source(Source::File {
            path: "x.csv".to_string(),
        }),
        schema: SchemaInfo {
            index_type: Some(IndexType::Date),
            colnames: None,
            nrows: Some(10),
        },
    });

    let y = plan.add_node(Node {
        id: NodeId(1),
        op: Operation::Source(Source::File {
            path: "y.csv".to_string(),
        }),
        schema: SchemaInfo {
            index_type: Some(IndexType::Date),
            colnames: None,
            nrows: Some(20),
        },
    });

    let join = plan.add_node(Node {
        id: NodeId(2),
        op: Operation::Join(JoinOp::MapR { x, y }),
        schema: SchemaInfo {
            index_type: Some(IndexType::Date),
            colnames: None,
            nrows: Some(20),  // y's nrows
        },
    });

    assert_eq!(join, NodeId(2));

    // Validate should pass
    assert!(plan.validate().is_ok());
}

#[test]
fn test_index_type_mismatch() {
    let mut plan = Plan::new();

    let x = plan.add_node(Node {
        id: NodeId(0),
        op: Operation::Source(Source::File {
            path: "x.csv".to_string(),
        }),
        schema: SchemaInfo {
            index_type: Some(IndexType::Date),
            colnames: None,
            nrows: Some(10),
        },
    });

    let y = plan.add_node(Node {
        id: NodeId(1),
        op: Operation::Source(Source::File {
            path: "y.csv".to_string(),
        }),
        schema: SchemaInfo {
            index_type: Some(IndexType::Timestamp),  // MISMATCH
            colnames: None,
            nrows: Some(20),
        },
    });

    let join = plan.add_node(Node {
        id: NodeId(2),
        op: Operation::Join(JoinOp::MapR { x, y }),
        schema: SchemaInfo {
            index_type: Some(IndexType::Timestamp),
            colnames: None,
            nrows: Some(20),
        },
    });

    // Validate should fail (index type mismatch)
    let result = plan.validate();
    assert!(result.is_err());
    assert!(result.unwrap_err().contains("Index type mismatch"));
}

#[test]
fn test_unary_breaks_invariants() {
    let mut plan = Plan::new();

    let source = plan.add_node(Node {
        id: NodeId(0),
        op: Operation::Source(Source::File {
            path: "data.csv".to_string(),
        }),
        schema: SchemaInfo {
            index_type: Some(IndexType::Date),
            colnames: None,
            nrows: Some(100),
        },
    });

    // Bad: unary op changes nrows (violates I3)
    let _bad = plan.add_node(Node {
        id: NodeId(1),
        op: Operation::Unary(UnaryOp::MapNumeric {
            input: source,
            func: NumericFunc::Dlog,
        }),
        schema: SchemaInfo {
            index_type: Some(IndexType::Date),
            colnames: None,
            nrows: Some(99),  // WRONG - should be 100
        },
    });

    // Validate should fail (I3 violation)
    let result = plan.validate();
    assert!(result.is_err());
    assert!(result.unwrap_err().contains("preserve nrows"));
}

fn source_node(plan: &mut Plan, path: &str, index_type: IndexType, nrows: usize) -> NodeId {
    let id = NodeId(plan.nodes.len());
    plan.add_node(Node {
        id,
        op: Operation::Source(Source::File { path: path.to_string() }),
        schema: SchemaInfo { index_type: Some(index_type), colnames: None, nrows: Some(nrows) },
    })
}

#[test]
fn test_validate_join_mismatch_message() {
    let mut plan = Plan::new();
    let x = source_node(&mut plan, "x.csv", IndexType::Date, 10);
    let y = source_node(&mut plan, "y.csv", IndexType::Timestamp, 20);
    plan.add_node(Node {
        id: NodeId(2),
        op: Operation::Join(JoinOp::AsofR { x, y }),
        schema: SchemaInfo { index_type: Some(IndexType::Timestamp), colnames: None, nrows: Some(20) },
    });
    assert_eq!(
        plan.validate(),
        Err("Index type mismatch in join: Date vs Timestamp (no coercion allowed)".to_string())
    );
}

#[test]
fn test_validate_binary_shape_message() {
    let mut plan = Plan::new();
    let l = source_node(&mut plan, "l.csv", IndexType::Date, 10);
    let r = source_node(&mut plan, "r.csv", IndexType::Date, 12);
    plan.add_node(Node {
        id: NodeId(2),
        op: Operation::Binary(BinaryOp::MapNumeric2 { lhs: l, rhs: ValueRef::Frame(r), func: BinaryFunc::Add }),
        schema: SchemaInfo { index_type: Some(IndexType::Date), colnames: None, nrows: Some(10) },
    });
    assert_eq!(
        plan.validate(),
        Err("Binary op requires compatible shapes: 10 vs 12 rows. Use mapr/asofr for alignment.".to_string())
    );
}

#[test]
fn test_validate_reports_first_fault() {
    let mut plan = Plan::new();
    // node 0 refers to a node that does not exist; node 1 is fine
    plan.add_node(Node {
        id: NodeId(0),
        op: Operation::Unary(UnaryOp::MapNumeric { input: NodeId(7), func: NumericFunc::Abs }),
        schema: SchemaInfo { index_type: None, colnames: None, nrows: None },
    });
    source_node(&mut plan, "a.csv", IndexType::Date, 3);
    assert_eq!(plan.validate(), Err("Invalid input node reference".to_string()));
}
