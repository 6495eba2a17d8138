use blisp::fusion::{optimize, optimize_elementwise_fusion};
use blisp::fusion_cs1::{optimize_cs1_dlog_fusion, optimize_cs1_elementwise_fusion};
use blisp::ir::{
    BinaryFunc, BinaryOp, IndexType, Node, NodeId, NumericFunc, Operation, Plan, SchemaInfo, Source, UnaryOp,
    ValueRef,
};

fn source(plan: &mut Plan) -> NodeId {
    plan.add_node(Node {
        id: NodeId(plan.nodes.len()),
        op: Operation::Source(Source::File { path: "x".to_string() }),
        schema: SchemaInfo::unknown(),
    })
}

fn map(plan: &mut Plan, input: NodeId, func: NumericFunc) -> NodeId {
    plan.add_node(Node {
        id: NodeId(plan.nodes.len()),
        op: Operation::Unary(UnaryOp::MapNumeric { input, func }),
        schema: SchemaInfo::unknown(),
    })
}

#[test]
fn test_tripwire_elementwise_fusion() {
    let mut plan = Plan { nodes: vec![] };
    let src = source(&mut plan);
    let abs_node = map(&mut plan, src, NumericFunc::Abs);
    let log_node = map(&mut plan, abs_node, NumericFunc::Log);
    map(&mut plan, log_node, NumericFunc::Exp);

    assert_eq!(plan.nodes.len(), 4, "Before optimization: 4 nodes");

    let optimized = optimize(&plan);

    assert_eq!(optimized.nodes.len(), 2, "After optimization: 2 nodes (source + fused)");
    match &optimized.nodes[1].op {
        Operation::Unary(UnaryOp::FusedElementwise { input, ops }) => {
            assert_eq!(input.0, 0, "Fused node should point to source");
            assert_eq!(ops.len(), 3, "Should have 3 fused ops");
            assert!(matches!(ops[0], NumericFunc::Abs));
            assert!(matches!(ops[1], NumericFunc::Log));
            assert!(matches!(ops[2], NumericFunc::Exp));
        }
        _ => panic!("Expected FusedElementwise, got {:?}", optimized.nodes[1].op),
    }
}

#[test]
fn shared_intermediate_is_not_fused() {
    // x → ABS → LOG, where ABS is also read by a binary op: nothing fuses.
    let mut plan = Plan { nodes: vec![] };
    let src = source(&mut plan);
    let abs_node = map(&mut plan, src, NumericFunc::Abs);
    let log_node = map(&mut plan, abs_node, NumericFunc::Log);
    plan.add_node(Node {
        id: NodeId(plan.nodes.len()),
        op: Operation::Binary(BinaryOp::MapNumeric2 {
            lhs: log_node,
            rhs: ValueRef::Frame(abs_node),
            func: BinaryFunc::Add,
        }),
        schema: SchemaInfo::unknown(),
    });
    let optimized = optimize_elementwise_fusion(&plan);
    assert_eq!(optimized.nodes.len(), 4);
    assert!(matches!(
        optimized.nodes[2].op,
        Operation::Unary(UnaryOp::MapNumeric { input: NodeId(1), func: NumericFunc::Log })
    ));
}

#[test]
fn non_elementwise_breaks_chain_and_refs_are_renumbered() {
    // x → ABS → LOG → DLOG → EXP → SQRT: [ABS, LOG] and [EXP, SQRT] fuse.
    let mut plan = Plan { nodes: vec![] };
    let src = source(&mut plan);
    let a = map(&mut plan, src, NumericFunc::Abs);
    let l = map(&mut plan, a, NumericFunc::Log);
    let d = map(&mut plan, l, NumericFunc::Dlog);
    let e = map(&mut plan, d, NumericFunc::Exp);
    map(&mut plan, e, NumericFunc::Sqrt);
    let optimized = optimize_elementwise_fusion(&plan);
    assert_eq!(optimized.nodes.len(), 4);
    for (k, node) in optimized.nodes.iter().enumerate() {
        assert_eq!(node.id, NodeId(k));
    }
    match &optimized.nodes[1].op {
        Operation::Unary(UnaryOp::FusedElementwise { input, ops }) => {
            assert_eq!(*input, NodeId(0));
            assert_eq!(*ops, vec![NumericFunc::Abs, NumericFunc::Log]);
        }
        other => panic!("Expected FusedElementwise, got {:?}", other),
    }
    assert!(matches!(
        optimized.nodes[2].op,
        Operation::Unary(UnaryOp::MapNumeric { input: NodeId(1), func: NumericFunc::Dlog })
    ));
    match &optimized.nodes[3].op {
        Operation::Unary(UnaryOp::FusedElementwise { input, ops }) => {
            assert_eq!(*input, NodeId(2));
            assert_eq!(*ops, vec![NumericFunc::Exp, NumericFunc::Sqrt]);
        }
        other => panic!("Expected FusedElementwise, got {:?}", other),
    }
}

#[test]
fn single_map_is_unchanged() {
    let mut plan = Plan { nodes: vec![] };
    let src = source(&mut plan);
    map(&mut plan, src, NumericFunc::Log);
    let optimized = optimize_elementwise_fusion(&plan);
    assert_eq!(optimized.nodes.len(), 2);
    assert!(matches!(
        optimized.nodes[1].op,
        Operation::Unary(UnaryOp::MapNumeric { input: NodeId(0), func: NumericFunc::Log })
    ));
}

#[test]
fn fused_plan_of_a_valid_plan_validates() {
    let schema = || SchemaInfo { index_type: Some(IndexType::Date), colnames: None, nrows: Some(10) };
    let mut plan = Plan { nodes: vec![] };
    let src = plan.add_node(Node {
        id: NodeId(0),
        op: Operation::Source(Source::File { path: "x".to_string() }),
        schema: schema(),
    });
    let mut cur = src;
    for f in [NumericFunc::Abs, NumericFunc::Log, NumericFunc::Sqrt] {
        cur = plan.add_node(Node {
            id: NodeId(plan.nodes.len()),
            op: Operation::Unary(UnaryOp::MapNumeric { input: cur, func: f }),
            schema: schema(),
        });
    }
    plan.add_node(Node {
        id: NodeId(plan.nodes.len()),
        op: Operation::Binary(BinaryOp::MapNumeric2 { lhs: cur, rhs: ValueRef::Frame(src), func: BinaryFunc::Sub }),
        schema: schema(),
    });
    assert!(plan.validate().is_ok());
    let fused = optimize(&plan);
    assert_eq!(fused.nodes.len(), 3);
    assert!(fused.validate().is_ok());
    for (k, node) in fused.nodes.iter().enumerate() {
        assert_eq!(node.id, NodeId(k));
    }
}

#[test]
fn test_tripwire_cs1_elementwise_fusion() {
    let mut plan = Plan { nodes: vec![] };
    let src = source(&mut plan);
    let log_node = map(&mut plan, src, NumericFunc::Log);
    map(&mut plan, log_node, NumericFunc::Cs1);

    assert_eq!(plan.nodes.len(), 3);

    let optimized = optimize(&plan);

    assert_eq!(optimized.nodes.len(), 2, "Should fuse to 2 nodes");
    match &optimized.nodes[1].op {
        Operation::Unary(UnaryOp::FusedCs1Elementwise { input, ops }) => {
            assert_eq!(input.0, 0);
            assert_eq!(ops.len(), 1);
            assert!(matches!(ops[0], NumericFunc::Log));
        }
        _ => panic!("Expected FusedCs1Elementwise"),
    }
}

#[test]
fn test_tripwire_cs1_dlog_fusion() {
    let mut plan = Plan { nodes: vec![] };
    let src = source(&mut plan);
    let dlog_node = map(&mut plan, src, NumericFunc::DlogObs);
    map(&mut plan, dlog_node, NumericFunc::Cs1);

    assert_eq!(plan.nodes.len(), 3);

    let optimized = optimize(&plan);

    assert_eq!(optimized.nodes.len(), 2, "Should fuse to 2 nodes");
    match &optimized.nodes[1].op {
        Operation::Unary(UnaryOp::FusedCs1DlogObs { input }) => {
            assert_eq!(input.0, 0, "Should point to source");
        }
        _ => panic!("Expected FusedCs1DlogObs"),
    }
}

#[test]
fn cs1_takes_in_a_whole_fused_chain() {
    // x → ABS → LOG → cs1: the chain fuses first, then the sum takes it in
    let mut plan = Plan { nodes: vec![] };
    let src = source(&mut plan);
    let a = map(&mut plan, src, NumericFunc::Abs);
    let l = map(&mut plan, a, NumericFunc::Log);
    map(&mut plan, l, NumericFunc::Cs1);
    let optimized = optimize(&plan);
    assert_eq!(optimized.nodes.len(), 2);
    match &optimized.nodes[1].op {
        Operation::Unary(UnaryOp::FusedCs1Elementwise { input, ops }) => {
            assert_eq!(input.0, 0);
            assert_eq!(ops, &vec![NumericFunc::Abs, NumericFunc::Log]);
        }
        _ => panic!("Expected FusedCs1Elementwise"),
    }
}

#[test]
fn cs1_of_offset_dlog_has_lag_one() {
    let mut plan = Plan { nodes: vec![] };
    let src = source(&mut plan);
    let d = map(&mut plan, src, NumericFunc::DlogOfs);
    map(&mut plan, d, NumericFunc::Cs1);
    let optimized = optimize_cs1_dlog_fusion(&plan);
    assert_eq!(optimized.nodes.len(), 2);
    assert!(matches!(
        optimized.nodes[1].op,
        Operation::Unary(UnaryOp::FusedCs1DlogOfs { input: NodeId(0), lag: 1 })
    ));
    assert_eq!(optimized.nodes[1].id, NodeId(1));
}

#[test]
fn cs1_of_shared_map_is_not_fused() {
    // the log is read by the sum and by a binary op: nothing fuses
    let mut plan = Plan { nodes: vec![] };
    let src = source(&mut plan);
    let l = map(&mut plan, src, NumericFunc::Log);
    let c = map(&mut plan, l, NumericFunc::Cs1);
    plan.add_node(Node {
        id: NodeId(plan.nodes.len()),
        op: Operation::Binary(BinaryOp::MapNumeric2 { lhs: c, rhs: ValueRef::Frame(l), func: BinaryFunc::Sub }),
        schema: SchemaInfo::unknown(),
    });
    let optimized = optimize_cs1_elementwise_fusion(&plan);
    assert_eq!(optimized.nodes.len(), 4);
    assert!(matches!(
        optimized.nodes[2].op,
        Operation::Unary(UnaryOp::MapNumeric { input: NodeId(1), func: NumericFunc::Cs1 })
    ));
}

#[test]
fn cs1_elementwise_pass_leaves_dlog_alone_and_renumbers() {
    // x → SQRT → cs1 → DLOGOBS → cs1: the elementwise pass folds SQRT only,
    // and the later nodes move down by one
    let mut plan = Plan { nodes: vec![] };
    let src = source(&mut plan);
    let s = map(&mut plan, src, NumericFunc::Sqrt);
    let c1 = map(&mut plan, s, NumericFunc::Cs1);
    let d = map(&mut plan, c1, NumericFunc::DlogObs);
    map(&mut plan, d, NumericFunc::Cs1);
    let optimized = optimize_cs1_elementwise_fusion(&plan);
    assert_eq!(optimized.nodes.len(), 4);
    assert!(matches!(
        optimized.nodes[2].op,
        Operation::Unary(UnaryOp::MapNumeric { input: NodeId(1), func: NumericFunc::DlogObs })
    ));
    assert!(matches!(
        optimized.nodes[3].op,
        Operation::Unary(UnaryOp::MapNumeric { input: NodeId(2), func: NumericFunc::Cs1 })
    ));
    // the full pipeline then folds the dlog into the second sum
    let all = optimize(&plan);
    assert_eq!(all.nodes.len(), 3);
    assert!(matches!(all.nodes[2].op, Operation::Unary(UnaryOp::FusedCs1DlogObs { input: NodeId(1) })));
}

#[test]
fn fused_nodes_are_labelled_for_the_report() {
    let mut plan = Plan { nodes: vec![] };
    let src = source(&mut plan);
    let a = map(&mut plan, src, NumericFunc::Abs);
    let l = map(&mut plan, a, NumericFunc::Log);
    let s = map(&mut plan, l, NumericFunc::Shift { k: 3 });
    let e = map(&mut plan, s, NumericFunc::Exp);
    let x = map(&mut plan, e, NumericFunc::Sqrt);
    map(&mut plan, x, NumericFunc::Cs1);
    let optimized = optimize(&plan);
    assert_eq!(
        blisp::pipe::detect_fused_ops(&optimized),
        vec!["FusedElementwise[Abs, Log]".to_string(), "FusedCs1Elementwise[Exp, Sqrt]".to_string()]
    );
    let mut plain = Plan { nodes: vec![] };
    let src2 = source(&mut plain);
    let d = map(&mut plain, src2, NumericFunc::DlogOfs);
    map(&mut plain, d, NumericFunc::Cs1);
    assert_eq!(blisp::pipe::detect_fused_ops(&optimize(&plain)), vec!["FusedCs1DlogOfs(lag=1)".to_string()]);
    assert_eq!(format!("{:?}", NumericFunc::Shift { k: 3 }), "Shift { k: 3 }");
}

#[test]
fn cs1_fused_plan_stays_valid() {
    let schema = || SchemaInfo { index_type: Some(IndexType::Date), colnames: None, nrows: Some(5) };
    let mut plan = Plan { nodes: vec![] };
    let src = plan.add_node(Node {
        id: NodeId(0),
        op: Operation::Source(Source::File { path: "x".to_string() }),
        schema: schema(),
    });
    let l = plan.add_node(Node {
        id: NodeId(1),
        op: Operation::Unary(UnaryOp::MapNumeric { input: src, func: NumericFunc::DlogOfs }),
        schema: schema(),
    });
    plan.add_node(Node {
        id: NodeId(2),
        op: Operation::Unary(UnaryOp::MapNumeric { input: l, func: NumericFunc::Cs1 }),
        schema: schema(),
    });
    assert!(plan.validate().is_ok());
    let fused = optimize(&plan);
    assert_eq!(fused.nodes.len(), 2);
    assert!(fused.validate().is_ok());
}
