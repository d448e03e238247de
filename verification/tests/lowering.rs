use core_ir::ir::hir::pass::ssa::ScopeTracker;
use core_ir::ir::hir::{
    Clause, Closure, Expression, Function, LambdaEnvIdx, Pattern, PatternNode, SingleExpression,
    SingleExpressionKind, TestEntry,
};
use core_ir::ir::lir::cfg::{Construct, FunctionCfgBuilder, Unsupported};
use core_ir::ir::lir::from_hir::{do_lower, LowerError};
use core_ir::ir::lir::pass::validate::{validate, ViolationKind};
use core_ir::ir::lir::{BasicBlock, FunctionCfg, LabelN, Op, OpKind, Phi, Source};
use core_ir::ir::{AFunctionName, AVariable, FunctionDefinition, FunctionIdent, Module, SSAVariable};
use core_ir::parser::{AtomicLiteral, FunctionName, Integer};
use core_ir::{Atom, Variable};

fn ssa(n: u32) -> SSAVariable {
    SSAVariable(n)
}

fn node(n: u32, kind: SingleExpressionKind) -> SingleExpression {
    SingleExpression { ssa: ssa(n), kind }
}

fn var(n: u32) -> SingleExpression {
    node(n, SingleExpressionKind::Variable(AVariable { var: Variable::new("V"), ssa: ssa(n) }))
}

fn lit(n: u32, digits: &str) -> SingleExpression {
    node(n, SingleExpressionKind::Atomic(AtomicLiteral::Integer(Integer::new(true, digits))))
}

fn read(n: u32) -> Source {
    Source::Variable(ssa(n))
}

fn op(kind: OpKind, reads: Vec<Source>, writes: Vec<SSAVariable>) -> Op {
    Op { kind, reads, writes }
}

fn block(ops: Vec<Op>, jumps: Vec<LabelN>) -> BasicBlock {
    BasicBlock { phi_nodes: vec![], ops, jumps }
}

fn throw_block() -> BasicBlock {
    block(vec![op(OpKind::ReturnThrow, vec![], vec![])], vec![])
}

fn lower(e: &SingleExpression) -> (FunctionCfg, Vec<Unsupported>, SSAVariable, LabelN) {
    assert_eq!(e.find_defect(), None);
    let mut b = FunctionCfgBuilder::new(FunctionCfg::new());
    let mut env = ScopeTracker::new();
    let id = e.lower(&mut b, &mut env);
    let at = b.get_block();
    let (cfg, raised) = b.finish();
    (cfg, raised, id, at)
}

fn clause(body: SingleExpression) -> Clause {
    Clause {
        patterns: vec![Pattern {
            bindings: vec![(Variable::new("P"), ssa(900))],
            node: PatternNode::Variable(Variable::new("P")),
        }],
        guard: node(901, SingleExpressionKind::Atomic(AtomicLiteral::Atom(Atom::new("true")))),
        body,
    }
}

fn definition(args: Vec<u32>, body: SingleExpression) -> FunctionDefinition {
    FunctionDefinition {
        ident: FunctionIdent { name: Atom::new("f"), arity: args.len() as u32, lambda: None },
        hir_fun: Function {
            args: args.iter().map(|a| AVariable { var: Variable::new("A"), ssa: ssa(*a) }).collect(),
            body,
        },
        lir_function: None,
    }
}

#[test]
fn literal_is_one_move_of_a_constant() {
    let (cfg, raised, id, at) = lower(&lit(3, "5"));
    assert_eq!(id, ssa(3));
    assert_eq!(at, LabelN(0));
    assert!(raised.is_empty());
    assert_eq!(
        cfg.blocks,
        vec![block(
            vec![op(
                OpKind::Move,
                vec![Source::Constant(AtomicLiteral::Integer(Integer::new(true, "5")))],
                vec![ssa(3)],
            )],
            vec![],
        )]
    );
}

#[test]
fn variable_reference_emits_nothing() {
    let (cfg, raised, id, _) = lower(&var(4));
    assert_eq!(id, ssa(4));
    assert_eq!(cfg, FunctionCfg::new());
    assert!(raised.is_empty());
}

#[test]
fn named_function_is_captured_unless_lambda_local() {
    let name = |is_lambda| {
        node(
            5,
            SingleExpressionKind::NamedFunction {
                name: AFunctionName {
                    var: FunctionName { name: Atom::new("go"), arity: 2 },
                    ssa: ssa(5),
                },
                is_lambda,
            },
        )
    };
    let (cfg, _, id, _) = lower(&name(true));
    assert_eq!(id, ssa(5));
    assert_eq!(cfg, FunctionCfg::new());
    let (cfg, _, id, _) = lower(&name(false));
    assert_eq!(id, ssa(5));
    assert_eq!(
        cfg.blocks[0].ops,
        vec![op(
            OpKind::CaptureNamedFunction(FunctionIdent {
                name: Atom::new("go"),
                arity: 2,
                lambda: None,
            }),
            vec![],
            vec![ssa(5)],
        )]
    );
}

#[test]
fn list_reads_tail_then_head() {
    let list = node(
        10,
        SingleExpressionKind::List { head: vec![var(1), var(2)], tail: Box::new(var(3)) },
    );
    let (cfg, _, id, _) = lower(&list);
    assert_eq!(id, ssa(10));
    assert_eq!(
        cfg.blocks[0].ops,
        vec![op(OpKind::MakeList, vec![read(3), read(1), read(2)], vec![ssa(10)])]
    );
}

#[test]
fn list_lowers_its_tail_before_its_head() {
    let list = node(
        10,
        SingleExpressionKind::List { head: vec![lit(1, "1"), lit(2, "2")], tail: Box::new(lit(3, "3")) },
    );
    let (cfg, _, _, _) = lower(&list);
    let writes: Vec<Vec<SSAVariable>> = cfg.blocks[0].ops.iter().map(|o| o.writes.clone()).collect();
    assert_eq!(writes, vec![vec![ssa(3)], vec![ssa(1)], vec![ssa(2)], vec![ssa(10)]]);
}

#[test]
fn tuple_reads_its_elements_in_order() {
    let tuple = node(9, SingleExpressionKind::Tuple(vec![lit(1, "1"), var(2), lit(3, "3")]));
    let (cfg, _, id, _) = lower(&tuple);
    assert_eq!(id, ssa(9));
    assert_eq!(cfg.blocks[0].ops.len(), 3);
    assert_eq!(cfg.blocks[0].ops[0].writes, vec![ssa(1)]);
    assert_eq!(cfg.blocks[0].ops[1].writes, vec![ssa(3)]);
    assert_eq!(
        cfg.blocks[0].ops[2],
        op(OpKind::MakeTuple, vec![read(1), read(2), read(3)], vec![ssa(9)])
    );
}

#[test]
fn empty_tuple_reads_nothing() {
    let (cfg, _, _, _) = lower(&node(9, SingleExpressionKind::Tuple(vec![])));
    assert_eq!(cfg.blocks[0].ops, vec![op(OpKind::MakeTuple, vec![], vec![ssa(9)])]);
}

#[test]
fn map_reads_keys_and_values_in_turn() {
    let map = node(
        9,
        SingleExpressionKind::KeyValue(vec![(lit(1, "1"), var(2)), (var(3), lit(4, "4"))]),
    );
    let (cfg, _, id, _) = lower(&map);
    assert_eq!(id, ssa(9));
    assert_eq!(cfg.blocks[0].ops.len(), 3);
    assert_eq!(cfg.blocks[0].ops[0].writes, vec![ssa(1)]);
    assert_eq!(cfg.blocks[0].ops[1].writes, vec![ssa(4)]);
    assert_eq!(
        cfg.blocks[0].ops[2],
        op(OpKind::MakeMap, vec![read(1), read(2), read(3), read(4)], vec![ssa(9)])
    );
}

#[test]
fn primitive_op_writes_nothing() {
    let prim = node(
        9,
        SingleExpressionKind::PrimOp { name: Atom::new("raise"), args: vec![var(1), lit(2, "2")] },
    );
    let (cfg, _, id, _) = lower(&prim);
    assert_eq!(id, ssa(9));
    assert_eq!(cfg.blocks[0].ops.len(), 2);
    assert_eq!(
        cfg.blocks[0].ops[1],
        op(OpKind::PrimOp(Atom::new("raise")), vec![read(1), read(2)], vec![])
    );
}

#[test]
fn apply_call_splits_into_throw_and_resume() {
    let call = node(
        9,
        SingleExpressionKind::ApplyCall { fun: Box::new(var(1)), args: vec![var(2), var(3)] },
    );
    let (cfg, raised, id, at) = lower(&call);
    assert_eq!(id, ssa(9));
    assert_eq!(at, LabelN(2));
    assert!(raised.is_empty());
    assert_eq!(
        cfg.blocks,
        vec![
            block(
                vec![op(OpKind::Apply, vec![read(1), read(2), read(3)], vec![ssa(9)])],
                vec![LabelN(2), LabelN(1)],
            ),
            throw_block(),
            block(vec![], vec![]),
        ]
    );
}

#[test]
fn inter_module_call_reads_module_name_and_arguments() {
    let call = node(
        9,
        SingleExpressionKind::InterModuleCall {
            module: Box::new(lit(1, "1")),
            name: Box::new(lit(2, "2")),
            args: vec![var(3)],
        },
    );
    let (cfg, _, id, at) = lower(&call);
    assert_eq!(id, ssa(9));
    assert_eq!(at, LabelN(2));
    assert_eq!(cfg.blocks.len(), 3);
    assert_eq!(cfg.blocks[0].ops.len(), 3);
    assert_eq!(cfg.blocks[0].ops[0].writes, vec![ssa(1)]);
    assert_eq!(cfg.blocks[0].ops[1].writes, vec![ssa(2)]);
    assert_eq!(
        cfg.blocks[0].ops[2],
        op(OpKind::Call, vec![read(1), read(2), read(3)], vec![ssa(9)])
    );
    assert_eq!(cfg.blocks[0].jumps, vec![LabelN(2), LabelN(1)]);
    assert_eq!(cfg.blocks[1], throw_block());
    assert_eq!(cfg.blocks[2], block(vec![], vec![]));
}

#[test]
fn nested_call_is_made_in_the_resume_block_of_its_argument() {
    let inner = node(5, SingleExpressionKind::ApplyCall { fun: Box::new(var(1)), args: vec![] });
    let outer = node(9, SingleExpressionKind::ApplyCall { fun: Box::new(var(2)), args: vec![inner] });
    let (cfg, _, id, at) = lower(&outer);
    assert_eq!(id, ssa(9));
    assert_eq!(at, LabelN(4));
    assert_eq!(
        cfg.blocks,
        vec![
            block(vec![op(OpKind::Apply, vec![read(1)], vec![ssa(5)])], vec![LabelN(2), LabelN(1)]),
            throw_block(),
            block(
                vec![op(OpKind::Apply, vec![read(2), read(5)], vec![ssa(9)])],
                vec![LabelN(4), LabelN(3)],
            ),
            throw_block(),
            block(vec![], vec![]),
        ]
    );
}

#[test]
fn call_reads_the_value_of_a_let_argument() {
    let bound = node(
        5,
        SingleExpressionKind::Let {
            vars: vec![AVariable { var: Variable::new("X"), ssa: ssa(6) }],
            val: Expression { values: vec![lit(6, "6")] },
            body: Box::new(var(6)),
        },
    );
    let call = node(9, SingleExpressionKind::ApplyCall { fun: Box::new(var(1)), args: vec![bound] });
    let (cfg, _, _, _) = lower(&call);
    assert_eq!(cfg.blocks[0].ops[1], op(OpKind::Apply, vec![read(1), read(6)], vec![ssa(9)]));
}

#[test]
fn let_lowers_values_then_body_and_has_the_bodys_id() {
    let bound = node(
        5,
        SingleExpressionKind::Let {
            vars: vec![AVariable { var: Variable::new("X"), ssa: ssa(1) }],
            val: Expression { values: vec![lit(1, "1"), lit(2, "2")] },
            body: Box::new(lit(3, "3")),
        },
    );
    let (cfg, raised, id, _) = lower(&bound);
    assert_eq!(id, ssa(3));
    assert!(raised.is_empty());
    let writes: Vec<Vec<SSAVariable>> = cfg.blocks[0].ops.iter().map(|o| o.writes.clone()).collect();
    assert_eq!(writes, vec![vec![ssa(1)], vec![ssa(2)], vec![ssa(3)]]);
}

#[test]
fn sequencing_has_the_id_of_its_last_part() {
    let seq = node(
        5,
        SingleExpressionKind::Do(Expression { values: vec![lit(1, "1")] }, Box::new(lit(2, "2"))),
    );
    let (cfg, raised, id, _) = lower(&seq);
    assert_eq!(id, ssa(2));
    assert!(raised.is_empty());
    assert_eq!(cfg.blocks[0].ops.len(), 2);
    assert_eq!(cfg.blocks[0].ops[0].writes, vec![ssa(1)]);
    assert_eq!(cfg.blocks[0].ops[1].writes, vec![ssa(2)]);
}

#[test]
fn try_lowers_body_and_then_and_raises_the_missing_catch() {
    let tried = node(
        5,
        SingleExpressionKind::Try {
            body: Expression { values: vec![lit(1, "1")] },
            then_vars: vec![AVariable { var: Variable::new("T"), ssa: ssa(1) }],
            then: Box::new(lit(2, "2")),
            catch_vars: vec![AVariable { var: Variable::new("C"), ssa: ssa(7) }],
            catch: Box::new(lit(3, "3")),
        },
    );
    let (cfg, raised, id, _) = lower(&tried);
    assert_eq!(id, ssa(2));
    assert_eq!(raised, vec![Unsupported { construct: Construct::TryCatch, ssa: ssa(5) }]);
    let writes: Vec<Vec<SSAVariable>> = cfg.blocks[0].ops.iter().map(|o| o.writes.clone()).collect();
    assert_eq!(writes, vec![vec![ssa(1)], vec![ssa(2)]]);
}

#[test]
fn receive_emits_nothing_and_raises_unsupported() {
    let receive = node(
        5,
        SingleExpressionKind::Receive {
            clauses: vec![clause(lit(1, "1"))],
            timeout_time: Box::new(lit(2, "2")),
            timeout_body: Box::new(lit(3, "3")),
            pattern_values: vec![lit(4, "4")],
        },
    );
    let (cfg, raised, id, at) = lower(&receive);
    assert_eq!(id, ssa(5));
    assert_eq!(at, LabelN(0));
    assert_eq!(cfg, FunctionCfg::new());
    assert_eq!(raised, vec![Unsupported { construct: Construct::Receive, ssa: ssa(5) }]);
}

#[test]
fn bind_closure_makes_the_environment_then_binds() {
    let ident = FunctionIdent { name: Atom::new("l"), arity: 1, lambda: Some((LambdaEnvIdx(4), 0)) };
    let bind = node(
        9,
        SingleExpressionKind::BindClosure {
            closure: Closure {
                alias: None,
                ident: Some(FunctionIdent {
                    name: Atom::new("l"),
                    arity: 1,
                    lambda: Some((LambdaEnvIdx(4), 0)),
                }),
                fun: None,
                env: Some(LambdaEnvIdx(4)),
            },
            lambda_env: Some(LambdaEnvIdx(4)),
            env_ssa: ssa(8),
        },
    );
    let (cfg, raised, id, _) = lower(&bind);
    assert_eq!(id, ssa(9));
    assert!(raised.is_empty());
    assert_eq!(
        cfg.blocks[0].ops,
        vec![
            op(OpKind::MakeClosureEnv { env_idx: LambdaEnvIdx(4) }, vec![], vec![ssa(8)]),
            op(OpKind::BindClosure { ident }, vec![read(8)], vec![ssa(9)]),
        ]
    );
}

#[test]
fn bind_closures_makes_one_environment_and_raises_unsupported() {
    let batch = node(
        9,
        SingleExpressionKind::BindClosures {
            closures: vec![],
            lambda_env: Some(LambdaEnvIdx(2)),
            body: Box::new(lit(1, "1")),
            env_ssa: ssa(8),
        },
    );
    let (cfg, raised, id, _) = lower(&batch);
    assert_eq!(id, ssa(9));
    assert_eq!(raised, vec![Unsupported { construct: Construct::BatchClosureIdentity, ssa: ssa(9) }]);
    assert_eq!(cfg.blocks[0].ops.len(), 2);
    assert_eq!(
        cfg.blocks[0].ops[0],
        op(OpKind::MakeClosureEnv { env_idx: LambdaEnvIdx(2) }, vec![], vec![ssa(8)])
    );
    assert_eq!(cfg.blocks[0].ops[1].writes, vec![ssa(1)]);
}

#[test]
fn case_fans_out_to_its_clauses_and_joins_them() {
    let case = node(
        20,
        SingleExpressionKind::Case {
            val: Expression { values: vec![var(1)] },
            clauses: vec![clause(lit(11, "1")), clause(lit(12, "2")), clause(var(13))],
            values: vec![lit(2, "0")],
        },
    );
    let (cfg, raised, id, at) = lower(&case);
    assert_eq!(id, ssa(20));
    assert_eq!(at, LabelN(1));
    assert_eq!(raised, vec![Unsupported { construct: Construct::CaseDiscrimination, ssa: ssa(20) }]);
    assert_eq!(cfg.blocks.len(), 5);
    // The source block: the pattern value, the marker, an edge per clause.
    assert_eq!(cfg.blocks[0].jumps, vec![LabelN(2), LabelN(3), LabelN(4)]);
    assert_eq!(cfg.blocks[0].ops.len(), 2);
    assert_eq!(cfg.blocks[0].ops[0].writes, vec![ssa(2)]);
    assert!(cfg.blocks[0].ops[1].reads.is_empty());
    assert!(cfg.blocks[0].ops[1].writes.is_empty());
    match &cfg.blocks[0].ops[1].kind {
        OpKind::Case { vars, clauses, value_vars } => {
            assert_eq!(vars, &vec![ssa(1)]);
            assert_eq!(value_vars, &vec![ssa(2)]);
            assert_eq!(clauses.len(), 3);
            for copy in clauses.iter() {
                assert_eq!(copy.patterns, clause(var(0)).patterns);
            }
        },
        other => panic!("not a case marker: {:?}", other),
    }
    // The shared block: one phi node with a pair per clause.
    assert_eq!(
        cfg.blocks[1],
        BasicBlock {
            phi_nodes: vec![Phi {
                ssa: ssa(20),
                entries: vec![(LabelN(2), ssa(11)), (LabelN(3), ssa(12)), (LabelN(4), ssa(13))],
            }],
            ops: vec![],
            jumps: vec![],
        }
    );
    // The clause blocks: the body, a jump, one edge to the shared block.
    for (label, written) in [(2usize, Some(11)), (3, Some(12)), (4, None)] {
        let clause_block = &cfg.blocks[label];
        assert_eq!(clause_block.jumps, vec![LabelN(1)]);
        assert!(clause_block.phi_nodes.is_empty());
        assert_eq!(clause_block.ops.last().unwrap(), &op(OpKind::Jump, vec![], vec![]));
        match written {
            Some(id) => {
                assert_eq!(clause_block.ops.len(), 2);
                assert_eq!(clause_block.ops[0].writes, vec![ssa(id)]);
            },
            None => assert_eq!(clause_block.ops.len(), 1),
        }
    }
}

#[test]
fn case_without_clauses_has_no_edges_and_no_phi() {
    let case = node(
        20,
        SingleExpressionKind::Case {
            val: Expression { values: vec![] },
            clauses: vec![],
            values: vec![],
        },
    );
    let (cfg, raised, id, at) = lower(&case);
    assert_eq!(id, ssa(20));
    assert_eq!(at, LabelN(1));
    assert_eq!(raised.len(), 1);
    assert_eq!(cfg.blocks.len(), 2);
    assert!(cfg.blocks[0].jumps.is_empty());
    assert_eq!(cfg.blocks[0].ops.len(), 1);
    assert_eq!(cfg.blocks[1], block(vec![], vec![]));
}

#[test]
fn clause_with_a_call_ends_in_its_resume_block() {
    let call = node(11, SingleExpressionKind::ApplyCall { fun: Box::new(var(1)), args: vec![] });
    let case = node(
        20,
        SingleExpressionKind::Case {
            val: Expression { values: vec![var(2)] },
            clauses: vec![clause(call), clause(lit(12, "2"))],
            values: vec![],
        },
    );
    let (cfg, _, _, at) = lower(&case);
    assert_eq!(at, LabelN(1));
    assert_eq!(cfg.blocks.len(), 6);
    assert_eq!(cfg.blocks[0].jumps, vec![LabelN(2), LabelN(5)]);
    assert_eq!(cfg.blocks[2].jumps, vec![LabelN(4), LabelN(3)]);
    assert_eq!(cfg.blocks[3], throw_block());
    assert_eq!(cfg.blocks[4], block(vec![op(OpKind::Jump, vec![], vec![])], vec![LabelN(1)]));
    assert_eq!(cfg.blocks[5].jumps, vec![LabelN(1)]);
    assert_eq!(
        cfg.blocks[1].phi_nodes,
        vec![Phi { ssa: ssa(20), entries: vec![(LabelN(4), ssa(11)), (LabelN(5), ssa(12))] }]
    );
}

#[test]
fn test_node_is_not_lowerable() {
    let test = node(1, SingleExpressionKind::Test { tests: vec![] });
    assert_eq!(test.find_defect(), Some(LowerError::UnhandledKind { ssa: ssa(1) }));
    let entries = node(4, SingleExpressionKind::Test { tests: vec![TestEntry::Undefined] });
    assert_eq!(entries.find_defect(), Some(LowerError::UnhandledKind { ssa: ssa(4) }));
    let deep = node(
        9,
        SingleExpressionKind::Tuple(vec![lit(2, "2"), node(3, SingleExpressionKind::Tuple(vec![test]))]),
    );
    assert_eq!(deep.find_defect(), Some(LowerError::UnhandledKind { ssa: ssa(1) }));
}

#[test]
fn the_first_defect_in_lowering_order_is_found() {
    let test = |n| node(n, SingleExpressionKind::Test { tests: vec![] });
    let found = |n| Some(LowerError::UnhandledKind { ssa: ssa(n) });
    // A list lowers its tail before its head.
    let list = node(
        9,
        SingleExpressionKind::List { head: vec![test(1), test(2)], tail: Box::new(test(3)) },
    );
    assert_eq!(list.find_defect(), found(3));
    let list = node(
        9,
        SingleExpressionKind::List { head: vec![lit(1, "1"), test(2)], tail: Box::new(var(3)) },
    );
    assert_eq!(list.find_defect(), found(2));
    let call = node(
        9,
        SingleExpressionKind::InterModuleCall {
            module: Box::new(var(1)),
            name: Box::new(test(2)),
            args: vec![test(3)],
        },
    );
    assert_eq!(call.find_defect(), found(2));
    let apply = node(
        9,
        SingleExpressionKind::ApplyCall { fun: Box::new(var(1)), args: vec![var(2), test(3), test(4)] },
    );
    assert_eq!(apply.find_defect(), found(3));
    let map = node(
        9,
        SingleExpressionKind::KeyValue(vec![(var(1), var(2)), (var(3), test(4)), (test(5), var(6))]),
    );
    assert_eq!(map.find_defect(), found(4));
    let bound = node(
        9,
        SingleExpressionKind::Let {
            vars: vec![],
            val: Expression { values: vec![var(1)] },
            body: Box::new(test(2)),
        },
    );
    assert_eq!(bound.find_defect(), found(2));
    let seq = node(
        9,
        SingleExpressionKind::Do(Expression { values: vec![test(1)] }, Box::new(test(2))),
    );
    assert_eq!(seq.find_defect(), found(1));
    let case = node(
        9,
        SingleExpressionKind::Case {
            val: Expression { values: vec![var(1)] },
            clauses: vec![clause(var(2)), clause(test(3)), clause(test(4))],
            values: vec![var(5)],
        },
    );
    assert_eq!(case.find_defect(), found(3));
    let case = node(
        9,
        SingleExpressionKind::Case {
            val: Expression { values: vec![var(1)] },
            clauses: vec![clause(test(3))],
            values: vec![test(5)],
        },
    );
    assert_eq!(case.find_defect(), found(5));
    let prim = node(
        9,
        SingleExpressionKind::PrimOp { name: Atom::new("p"), args: vec![test(1)] },
    );
    assert_eq!(prim.find_defect(), found(1));
}

#[test]
fn closure_binding_without_target_or_slot_is_not_lowerable() {
    let bind = |ident: bool, slot: bool| {
        node(
            9,
            SingleExpressionKind::BindClosure {
                closure: Closure {
                    alias: None,
                    ident: if ident {
                        Some(FunctionIdent { name: Atom::new("l"), arity: 0, lambda: None })
                    } else {
                        None
                    },
                    fun: None,
                    env: None,
                },
                lambda_env: if slot { Some(LambdaEnvIdx(0)) } else { None },
                env_ssa: ssa(8),
            },
        )
    };
    let incomplete = Some(LowerError::IncompleteClosure { ssa: ssa(9) });
    assert_eq!(bind(true, true).find_defect(), None);
    assert_eq!(bind(false, true).find_defect(), incomplete);
    assert_eq!(bind(true, false).find_defect(), incomplete);
    assert_eq!(bind(false, false).find_defect(), incomplete);
    let batch = node(
        9,
        SingleExpressionKind::BindClosures {
            closures: vec![],
            lambda_env: None,
            body: Box::new(lit(1, "1")),
            env_ssa: ssa(8),
        },
    );
    assert_eq!(batch.find_defect(), incomplete);
    let batch = node(
        9,
        SingleExpressionKind::BindClosures {
            closures: vec![],
            lambda_env: Some(LambdaEnvIdx(1)),
            body: Box::new(node(7, SingleExpressionKind::Test { tests: vec![] })),
            env_ssa: ssa(8),
        },
    );
    assert_eq!(batch.find_defect(), Some(LowerError::UnhandledKind { ssa: ssa(7) }));
}

#[test]
fn what_lowering_skips_need_not_be_lowerable() {
    let test = || node(1, SingleExpressionKind::Test { tests: vec![] });
    let tried = node(
        5,
        SingleExpressionKind::Try {
            body: Expression { values: vec![] },
            then_vars: vec![],
            then: Box::new(lit(2, "2")),
            catch_vars: vec![],
            catch: Box::new(test()),
        },
    );
    assert_eq!(tried.find_defect(), None);
    let mut guarded = clause(lit(3, "3"));
    guarded.guard = test();
    let case = node(
        6,
        SingleExpressionKind::Case {
            val: Expression { values: vec![] },
            clauses: vec![guarded],
            values: vec![],
        },
    );
    assert_eq!(case.find_defect(), None);
    let receive = node(
        7,
        SingleExpressionKind::Receive {
            clauses: vec![],
            timeout_time: Box::new(test()),
            timeout_body: Box::new(test()),
            pattern_values: vec![],
        },
    );
    assert_eq!(receive.find_defect(), None);
}

#[test]
fn function_binds_arguments_and_returns_its_body() {
    let mut f = definition(
        vec![1, 2],
        node(3, SingleExpressionKind::Tuple(vec![var(1), var(2)])),
    );
    let mut env = ScopeTracker::new();
    assert_eq!(f.lower(&mut env), Ok(vec![]));
    let cfg = f.lir_function.as_ref().unwrap();
    assert_eq!(cfg.entry, LabelN(0));
    assert_eq!(
        cfg.blocks,
        vec![block(
            vec![
                op(OpKind::Arguments, vec![], vec![ssa(1), ssa(2)]),
                op(OpKind::MakeTuple, vec![read(1), read(2)], vec![ssa(3)]),
                op(OpKind::ReturnOk, vec![read(3)], vec![]),
            ],
            vec![],
        )]
    );
    assert!(validate(cfg).is_empty());
    assert_eq!(f.hir_fun.args.len(), 2);
}

#[test]
fn function_after_a_call_returns_in_the_resume_block() {
    let mut f = definition(
        vec![1],
        node(2, SingleExpressionKind::ApplyCall { fun: Box::new(var(1)), args: vec![] }),
    );
    let mut env = ScopeTracker::new();
    assert_eq!(f.lower(&mut env), Ok(vec![]));
    let cfg = f.lir_function.as_ref().unwrap();
    assert_eq!(cfg.blocks.len(), 3);
    assert_eq!(cfg.blocks[2].ops, vec![op(OpKind::ReturnOk, vec![read(2)], vec![])]);
    assert!(validate(cfg).is_empty());
}

#[test]
fn function_with_an_unhandled_node_is_not_lowered() {
    let mut f = definition(
        vec![1],
        node(3, SingleExpressionKind::Tuple(vec![node(2, SingleExpressionKind::Test { tests: vec![] })])),
    );
    let mut env = ScopeTracker::new();
    assert_eq!(f.lower(&mut env), Err(LowerError::UnhandledKind { ssa: ssa(2) }));
    assert!(f.lir_function.is_none());
}

#[test]
fn function_reports_the_conditions_it_raised() {
    let receive = node(
        4,
        SingleExpressionKind::Receive {
            clauses: vec![],
            timeout_time: Box::new(lit(2, "2")),
            timeout_body: Box::new(lit(3, "3")),
            pattern_values: vec![],
        },
    );
    let mut f = definition(
        vec![],
        node(
            5,
            SingleExpressionKind::Do(Expression { values: vec![receive] }, Box::new(lit(6, "6"))),
        ),
    );
    let mut env = ScopeTracker::new();
    assert_eq!(
        f.lower(&mut env),
        Ok(vec![Unsupported { construct: Construct::Receive, ssa: ssa(4) }])
    );
    assert!(f.lir_function.is_some());
}

#[test]
fn module_lowers_every_function() {
    let mut module = Module {
        name: Atom::new("m"),
        functions: vec![
            definition(vec![1], var(1)),
            definition(
                vec![],
                node(
                    7,
                    SingleExpressionKind::Case {
                        val: Expression { values: vec![] },
                        clauses: vec![],
                        values: vec![],
                    },
                ),
            ),
            definition(vec![], lit(1, "1")),
        ],
    };
    let mut env = ScopeTracker::new();
    assert_eq!(
        do_lower(&mut module, &mut env),
        Ok(vec![Unsupported { construct: Construct::CaseDiscrimination, ssa: ssa(7) }])
    );
    assert!(module.functions.iter().all(|f| f.lir_function.is_some()));
    assert_eq!(module.name, Atom::new("m"));
}

#[test]
fn module_stops_at_the_first_function_it_cannot_lower() {
    let bad = || node(2, SingleExpressionKind::Test { tests: vec![] });
    let mut module = Module {
        name: Atom::new("m"),
        functions: vec![
            definition(vec![1], var(1)),
            definition(vec![], bad()),
            definition(vec![], lit(1, "1")),
            definition(vec![], bad()),
        ],
    };
    let mut env = ScopeTracker::new();
    assert_eq!(do_lower(&mut module, &mut env), Err((1, LowerError::UnhandledKind { ssa: ssa(2) })));
    assert!(module.functions[0].lir_function.is_some());
    assert!(module.functions[1].lir_function.is_none());
    assert!(module.functions[2].lir_function.is_none());
    assert!(module.functions[3].lir_function.is_none());
}

#[test]
fn empty_module_lowers_to_nothing() {
    let mut module = Module { name: Atom::new("m"), functions: vec![] };
    let mut env = ScopeTracker::new();
    assert_eq!(do_lower(&mut module, &mut env), Ok(vec![]));
}

#[test]
fn well_named_function_validates_clean() {
    // fun(A) -> case A of P -> {A, 1}; P -> apply A() end
    let first = node(12, SingleExpressionKind::Tuple(vec![var(1), lit(11, "1")]));
    let second = node(13, SingleExpressionKind::ApplyCall { fun: Box::new(var(1)), args: vec![] });
    let mut f = definition(
        vec![1],
        node(
            20,
            SingleExpressionKind::Case {
                val: Expression { values: vec![var(1)] },
                clauses: vec![clause(first), clause(second)],
                values: vec![],
            },
        ),
    );
    let mut env = ScopeTracker::new();
    assert_eq!(f.lower(&mut env).unwrap().len(), 1);
    assert!(validate(f.lir_function.as_ref().unwrap()).is_empty());
}

#[test]
fn function_that_names_a_value_twice_is_flagged() {
    let mut f = definition(
        vec![],
        node(3, SingleExpressionKind::Tuple(vec![lit(1, "1"), lit(1, "2")])),
    );
    let mut env = ScopeTracker::new();
    assert_eq!(f.lower(&mut env), Ok(vec![]));
    let found = validate(f.lir_function.as_ref().unwrap());
    assert_eq!(found.len(), 1);
    assert_eq!(found[0].kind, ViolationKind::DoubleAssign);
    assert_eq!(found[0].ssa, ssa(1));
}

#[test]
fn function_that_uses_what_it_does_not_define_is_flagged() {
    let mut f = definition(vec![1], node(3, SingleExpressionKind::Tuple(vec![var(1), var(2)])));
    let mut env = ScopeTracker::new();
    assert_eq!(f.lower(&mut env), Ok(vec![]));
    let found = validate(f.lir_function.as_ref().unwrap());
    assert_eq!(found.len(), 1);
    assert_eq!(found[0].kind, ViolationKind::UseOfUnassigned);
    assert_eq!(found[0].ssa, ssa(2));
}

#[test]
fn scope_tracker_hands_out_fresh_identifiers() {
    let mut env = ScopeTracker::new();
    assert_eq!(env.new_ssa(), Some(ssa(0)));
    assert_eq!(env.new_ssa(), Some(ssa(1)));
    assert_eq!(env.new_ssa(), Some(ssa(2)));
}

#[test]
fn lowered_function_leaves_no_block_empty_and_links_only_its_blocks() {
    // fun(A) -> {case apply A() of P -> apply A(1); P -> [A | A] end, apply A()}
    let scrutinee = node(10, SingleExpressionKind::ApplyCall { fun: Box::new(var(1)), args: vec![] });
    let first = node(
        12,
        SingleExpressionKind::ApplyCall { fun: Box::new(var(1)), args: vec![lit(11, "1")] },
    );
    let second = node(13, SingleExpressionKind::List { head: vec![var(1)], tail: Box::new(var(1)) });
    let case = node(
        20,
        SingleExpressionKind::Case {
            val: Expression { values: vec![scrutinee] },
            clauses: vec![clause(first), clause(second)],
            values: vec![],
        },
    );
    let last = node(21, SingleExpressionKind::ApplyCall { fun: Box::new(var(1)), args: vec![] });
    let mut f = definition(vec![1], node(30, SingleExpressionKind::Tuple(vec![case, last])));
    let mut env = ScopeTracker::new();
    assert_eq!(f.lower(&mut env).unwrap().len(), 1);
    let cfg = f.lir_function.as_ref().unwrap();
    assert_eq!(cfg.blocks.len(), 10);
    for block in cfg.blocks.iter() {
        assert!(!block.ops.is_empty());
        for jump in block.jumps.iter() {
            assert!(jump.0 < cfg.blocks.len());
        }
        for phi in block.phi_nodes.iter() {
            for (from, _) in phi.entries.iter() {
                assert!(from.0 < cfg.blocks.len());
            }
        }
    }
    assert!(validate(cfg).is_empty());
}
