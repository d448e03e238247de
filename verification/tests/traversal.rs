use core_ir::ir::hir::{
    Clause, Closure, EachSingleExpression, Expression, Function, LambdaEnvIdx, Pattern, PatternNode,
    SingleExpression, SingleExpressionKind,
};
use core_ir::ir::{AVariable, SSAVariable};
use core_ir::parser::AtomicLiteral;
use core_ir::{Atom, Variable};

fn leaf(n: u32) -> SingleExpression {
    SingleExpression { ssa: SSAVariable(n), kind: SingleExpressionKind::Atomic(AtomicLiteral::Nil) }
}

fn node(n: u32, kind: SingleExpressionKind) -> SingleExpression {
    SingleExpression { ssa: SSAVariable(n), kind }
}

fn clause(guard: u32, body: u32) -> Clause {
    Clause { patterns: vec![], guard: leaf(guard), body: leaf(body) }
}

fn lambda(body: SingleExpression) -> Closure {
    Closure {
        alias: None,
        ident: None,
        fun: Some(Box::new(Function { args: vec![], body })),
        env: Some(LambdaEnvIdx(0)),
    }
}

fn order(mut tree: SingleExpression, enter_lambdas: bool) -> Vec<u32> {
    let mut seen = Vec::new();
    tree.each_single_expression_mut(&mut |e: &mut SingleExpression| seen.push(e.ssa.0), enter_lambdas);
    seen
}

#[test]
fn leaf_is_visited_once() {
    assert_eq!(order(leaf(1), true), vec![1]);
}

#[test]
fn children_come_before_their_parent() {
    let tree = node(
        9,
        SingleExpressionKind::Tuple(vec![
            leaf(1),
            node(4, SingleExpressionKind::Tuple(vec![leaf(2), leaf(3)])),
            leaf(5),
        ]),
    );
    assert_eq!(order(tree, true), vec![1, 2, 3, 4, 5, 9]);
}

#[test]
fn list_head_comes_before_its_tail() {
    let tree = node(
        9,
        SingleExpressionKind::List { head: vec![leaf(1), leaf(2)], tail: Box::new(leaf(3)) },
    );
    assert_eq!(order(tree, true), vec![1, 2, 3, 9]);
}

#[test]
fn map_entries_are_visited_key_then_value() {
    let tree = node(
        9,
        SingleExpressionKind::KeyValue(vec![(leaf(1), leaf(2)), (leaf(3), leaf(4))]),
    );
    assert_eq!(order(tree, true), vec![1, 2, 3, 4, 9]);
}

#[test]
fn calls_visit_their_arguments_only() {
    let apply = node(
        9,
        SingleExpressionKind::ApplyCall { fun: Box::new(leaf(1)), args: vec![leaf(2), leaf(3)] },
    );
    assert_eq!(order(apply, true), vec![2, 3, 9]);
    let call = node(
        9,
        SingleExpressionKind::InterModuleCall {
            module: Box::new(leaf(1)),
            name: Box::new(leaf(2)),
            args: vec![leaf(3), leaf(4)],
        },
    );
    assert_eq!(order(call, true), vec![3, 4, 9]);
    let prim = node(
        9,
        SingleExpressionKind::PrimOp { name: Atom::new("p"), args: vec![leaf(1), leaf(2)] },
    );
    assert_eq!(order(prim, true), vec![1, 2, 9]);
}

#[test]
fn let_visits_values_then_body() {
    let tree = node(
        9,
        SingleExpressionKind::Let {
            vars: vec![AVariable { var: Variable::new("X"), ssa: SSAVariable(1) }],
            val: Expression { values: vec![leaf(1), leaf(2)] },
            body: Box::new(leaf(3)),
        },
    );
    assert_eq!(order(tree, true), vec![1, 2, 3, 9]);
}

#[test]
fn try_visits_body_then_both_continuations() {
    let tree = node(
        9,
        SingleExpressionKind::Try {
            body: Expression { values: vec![leaf(1)] },
            then_vars: vec![],
            then: Box::new(leaf(2)),
            catch_vars: vec![],
            catch: Box::new(leaf(3)),
        },
    );
    assert_eq!(order(tree, true), vec![1, 2, 3, 9]);
}

#[test]
fn case_visits_values_pattern_values_and_bodies_but_no_guard() {
    let tree = node(
        9,
        SingleExpressionKind::Case {
            val: Expression { values: vec![leaf(1), leaf(2)] },
            clauses: vec![clause(100, 5), clause(101, 6)],
            values: vec![leaf(3), leaf(4)],
        },
    );
    assert_eq!(order(tree, true), vec![1, 2, 3, 4, 5, 6, 9]);
}

#[test]
fn sequencing_visits_its_parts_in_order() {
    let tree = node(
        9,
        SingleExpressionKind::Do(Expression { values: vec![leaf(1), leaf(2)] }, Box::new(leaf(3))),
    );
    assert_eq!(order(tree, true), vec![1, 2, 3, 9]);
}

#[test]
fn receive_visits_pattern_values_timeout_and_bodies() {
    let tree = node(
        9,
        SingleExpressionKind::Receive {
            clauses: vec![clause(100, 5), clause(101, 6)],
            timeout_time: Box::new(leaf(3)),
            timeout_body: Box::new(leaf(4)),
            pattern_values: vec![leaf(1), leaf(2)],
        },
    );
    assert_eq!(order(tree, true), vec![1, 2, 3, 4, 5, 6, 9]);
}

#[test]
fn closures_are_entered_only_when_asked() {
    let single = || {
        node(
            9,
            SingleExpressionKind::BindClosure {
                closure: lambda(node(2, SingleExpressionKind::Tuple(vec![leaf(1)]))),
                lambda_env: None,
                env_ssa: SSAVariable(50),
            },
        )
    };
    assert_eq!(order(single(), true), vec![1, 2, 9]);
    assert_eq!(order(single(), false), vec![9]);
    let batch = || {
        node(
            9,
            SingleExpressionKind::BindClosures {
                closures: vec![lambda(leaf(1)), lambda(leaf(2))],
                lambda_env: None,
                body: Box::new(leaf(3)),
                env_ssa: SSAVariable(50),
            },
        )
    };
    assert_eq!(order(batch(), true), vec![1, 2, 9]);
    assert_eq!(order(batch(), false), vec![9]);
}

#[test]
fn closure_without_a_body_is_a_leaf() {
    let tree = node(
        9,
        SingleExpressionKind::BindClosure {
            closure: Closure { alias: None, ident: None, fun: None, env: None },
            lambda_env: None,
            env_ssa: SSAVariable(50),
        },
    );
    assert_eq!(order(tree, true), vec![9]);
}

#[test]
fn test_node_is_a_leaf() {
    assert_eq!(order(node(9, SingleExpressionKind::Test { tests: vec![] }), true), vec![9]);
}

#[test]
fn callback_rewrites_in_place() {
    let mut tree = node(
        9,
        SingleExpressionKind::Tuple(vec![leaf(1), node(3, SingleExpressionKind::Tuple(vec![leaf(2)]))]),
    );
    tree.each_single_expression_mut(
        &mut |e: &mut SingleExpression| {
            e.ssa = SSAVariable(e.ssa.0 + 10);
        },
        true,
    );
    assert_eq!(
        tree,
        node(
            19,
            SingleExpressionKind::Tuple(vec![
                leaf(11),
                node(13, SingleExpressionKind::Tuple(vec![leaf(12)])),
            ]),
        )
    );
}

#[test]
fn callback_sees_children_already_rewritten() {
    let mut tree = node(9, SingleExpressionKind::Tuple(vec![leaf(1), leaf(2)]));
    let mut sums = Vec::new();
    tree.each_single_expression_mut(
        &mut |e: &mut SingleExpression| {
            if let SingleExpressionKind::Tuple(elems) = &e.kind {
                sums.push(elems.iter().map(|c| c.ssa.0).sum::<u32>());
            }
            e.ssa = SSAVariable(e.ssa.0 * 100);
        },
        true,
    );
    assert_eq!(sums, vec![300]);
}

#[test]
fn function_and_expression_traverse_their_nodes() {
    let mut f = Function {
        args: vec![AVariable { var: Variable::new("A"), ssa: SSAVariable(7) }],
        body: node(3, SingleExpressionKind::Tuple(vec![leaf(1), leaf(2)])),
    };
    let mut seen = Vec::new();
    f.each_single_expression_mut(&mut |e: &mut SingleExpression| seen.push(e.ssa.0), true);
    assert_eq!(seen, vec![1, 2, 3]);
    let mut e = Expression { values: vec![leaf(1), node(3, SingleExpressionKind::Tuple(vec![leaf(2)]))] };
    let mut seen = Vec::new();
    e.each_single_expression_mut(&mut |e: &mut SingleExpression| seen.push(e.ssa.0), false);
    assert_eq!(seen, vec![1, 2, 3]);
}

#[test]
fn bindings_are_collected_depth_first_left_to_right() {
    let v = |name: &str| PatternNode::Variable(Variable::new(name));
    let pattern = PatternNode::Tuple(vec![
        v("A"),
        PatternNode::Bind(Variable::new("B"), Box::new(PatternNode::Tuple(vec![v("C"), v("D")]))),
        PatternNode::Atomic(AtomicLiteral::Nil),
        PatternNode::List(vec![v("E"), v("F")], Box::new(v("G"))),
        PatternNode::KeyValue(vec![(1, Box::new(v("H"))), (0, Box::new(v("I")))]),
    ]);
    let mut bindings = vec![Variable::new("Z")];
    pattern.collect_bindings(&mut bindings);
    let names: Vec<&str> = bindings.iter().map(|b| b.0.as_str()).collect();
    assert_eq!(names, vec!["Z", "A", "B", "C", "D", "E", "F", "G", "H", "I"]);
}

#[test]
fn literal_pattern_binds_nothing() {
    let mut bindings = Vec::new();
    PatternNode::Atomic(AtomicLiteral::Nil).collect_bindings(&mut bindings);
    PatternNode::Tuple(vec![]).collect_bindings(&mut bindings);
    assert!(bindings.is_empty());
}

#[test]
fn pattern_clone_is_equal() {
    let pattern = Pattern {
        bindings: vec![(Variable::new("A"), SSAVariable(1)), (Variable::new("B"), SSAVariable(2))],
        node: PatternNode::List(
            vec![
                PatternNode::Variable(Variable::new("A")),
                PatternNode::KeyValue(vec![(3, Box::new(PatternNode::Atomic(AtomicLiteral::Char('x'))))]),
            ],
            Box::new(PatternNode::Bind(
                Variable::new("B"),
                Box::new(PatternNode::Tuple(vec![PatternNode::Atomic(AtomicLiteral::Nil)])),
            )),
        ),
    };
    assert_eq!(pattern.clone(), pattern);
}
