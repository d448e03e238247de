use core_ir::ir::lir::cfg::FunctionCfgBuilder;
use core_ir::ir::lir::pass::propagate_atomics::propagate_atomics;
use core_ir::ir::lir::pass::validate::{validate, Location, Violation, ViolationKind};
use core_ir::ir::lir::{FunctionCfg, LabelN, Op, OpKind, Source};
use core_ir::ir::SSAVariable;
use core_ir::parser::{AtomicLiteral, Integer};
use core_ir::Atom;

fn five() -> AtomicLiteral {
    AtomicLiteral::Integer(Integer::new(true, "5"))
}

fn var(n: u32) -> Source {
    Source::Variable(SSAVariable(n))
}

fn graph(build: fn(&mut FunctionCfgBuilder)) -> FunctionCfg {
    let mut b = FunctionCfgBuilder::new(FunctionCfg::new());
    build(&mut b);
    b.finish().0
}

#[test]
fn proper_graph_validates_clean() {
    let cfg = graph(|b| {
        b.basic_op(OpKind::Arguments, vec![], vec![SSAVariable(1), SSAVariable(2)]);
        b.basic_op(OpKind::MakeTuple, vec![var(1), var(2)], vec![SSAVariable(3)]);
        b.basic_op(OpKind::ReturnOk, vec![var(3)], vec![]);
    });
    assert!(validate(&cfg).is_empty());
}

#[test]
fn empty_graph_validates_clean() {
    assert!(validate(&FunctionCfg::new()).is_empty());
}

#[test]
fn two_ops_writing_one_id_is_a_double_assign() {
    let cfg = graph(|b| {
        b.basic_op(OpKind::Move, vec![Source::Constant(AtomicLiteral::Nil)], vec![SSAVariable(7)]);
        b.basic_op(OpKind::Move, vec![Source::Constant(AtomicLiteral::Nil)], vec![SSAVariable(7)]);
    });
    assert_eq!(
        validate(&cfg),
        vec![Violation {
            kind: ViolationKind::DoubleAssign,
            ssa: SSAVariable(7),
            location: Location::Op { block: LabelN(0), index: 1 },
        }]
    );
}

#[test]
fn double_assign_across_blocks_and_phi_nodes() {
    let cfg = graph(|b| {
        let next = b.add_block();
        b.basic_op(OpKind::Arguments, vec![], vec![SSAVariable(1), SSAVariable(2)]);
        b.add_phi(LabelN(0), SSAVariable(1), next, SSAVariable(2));
        b.set_block(next);
        b.basic_op(OpKind::MakeTuple, vec![], vec![SSAVariable(1), SSAVariable(1)]);
    });
    assert_eq!(
        validate(&cfg),
        vec![
            Violation {
                kind: ViolationKind::DoubleAssign,
                ssa: SSAVariable(2),
                location: Location::Phi { block: LabelN(1), index: 0 },
            },
            Violation {
                kind: ViolationKind::DoubleAssign,
                ssa: SSAVariable(1),
                location: Location::Op { block: LabelN(1), index: 0 },
            },
            Violation {
                kind: ViolationKind::DoubleAssign,
                ssa: SSAVariable(1),
                location: Location::Op { block: LabelN(1), index: 0 },
            },
        ]
    );
}

#[test]
fn reading_what_nothing_writes_is_a_use_of_unassigned() {
    let cfg = graph(|b| {
        let next = b.add_block();
        b.basic_op(OpKind::MakeTuple, vec![var(4), Source::Constant(five()), var(5)], vec![SSAVariable(5)]);
        b.add_phi(LabelN(0), SSAVariable(6), next, SSAVariable(8));
        b.add_phi(LabelN(0), SSAVariable(5), next, SSAVariable(8));
    });
    assert_eq!(
        validate(&cfg),
        vec![
            Violation {
                kind: ViolationKind::UseOfUnassigned,
                ssa: SSAVariable(4),
                location: Location::Op { block: LabelN(0), index: 0 },
            },
            Violation {
                kind: ViolationKind::UseOfUnassigned,
                ssa: SSAVariable(6),
                location: Location::Phi { block: LabelN(1), index: 0 },
            },
        ]
    );
}

#[test]
fn a_write_in_a_later_block_defines_an_earlier_read() {
    let cfg = graph(|b| {
        let later = b.add_block();
        b.basic_op(OpKind::ReturnOk, vec![var(1)], vec![]);
        b.set_block(later);
        b.basic_op(OpKind::Move, vec![Source::Constant(five())], vec![SSAVariable(1)]);
    });
    assert!(validate(&cfg).is_empty());
}

#[test]
fn double_assigns_come_before_uses_of_unassigned() {
    let cfg = graph(|b| {
        b.basic_op(OpKind::ReturnOk, vec![var(9)], vec![]);
        b.basic_op(OpKind::Arguments, vec![], vec![SSAVariable(1), SSAVariable(1)]);
    });
    let found = validate(&cfg);
    assert_eq!(found.len(), 2);
    assert_eq!(found[0].kind, ViolationKind::DoubleAssign);
    assert_eq!(found[0].ssa, SSAVariable(1));
    assert_eq!(found[0].location, Location::Op { block: LabelN(0), index: 1 });
    assert_eq!(found[1].kind, ViolationKind::UseOfUnassigned);
    assert_eq!(found[1].ssa, SSAVariable(9));
}

#[test]
fn propagation_replaces_the_read_and_removes_the_move() {
    let mut cfg = graph(|b| {
        b.basic_op(OpKind::Move, vec![Source::Constant(five())], vec![SSAVariable(1)]);
        b.basic_op(OpKind::MakeTuple, vec![var(1), var(2)], vec![SSAVariable(3)]);
    });
    propagate_atomics(&mut cfg);
    assert_eq!(
        cfg.blocks[0].ops,
        vec![Op {
            kind: OpKind::MakeTuple,
            reads: vec![Source::Constant(five()), var(2)],
            writes: vec![SSAVariable(3)],
        }]
    );
}

#[test]
fn propagation_finds_constants_in_later_blocks() {
    let mut cfg = graph(|b| {
        let later = b.add_block();
        b.basic_op(OpKind::PrimOp(Atom::new("p")), vec![var(1)], vec![]);
        b.add_jump(LabelN(0), later);
        b.set_block(later);
        b.basic_op(OpKind::Move, vec![Source::Constant(five())], vec![SSAVariable(1)]);
        b.basic_op(OpKind::ReturnOk, vec![var(1)], vec![]);
    });
    propagate_atomics(&mut cfg);
    assert_eq!(cfg.blocks[0].ops[0].reads, vec![Source::Constant(five())]);
    assert_eq!(cfg.blocks[0].jumps, vec![LabelN(1)]);
    assert_eq!(cfg.blocks[1].ops.len(), 1);
    assert_eq!(cfg.blocks[1].ops[0].kind, OpKind::ReturnOk);
    assert_eq!(cfg.blocks[1].ops[0].reads, vec![Source::Constant(five())]);
}

#[test]
fn propagation_leaves_phi_nodes_alone() {
    let mut cfg = graph(|b| {
        let join = b.add_block();
        b.basic_op(OpKind::Move, vec![Source::Constant(five())], vec![SSAVariable(1)]);
        b.add_phi(LabelN(0), SSAVariable(1), join, SSAVariable(2));
    });
    propagate_atomics(&mut cfg);
    assert!(cfg.blocks[0].ops.is_empty());
    assert_eq!(cfg.blocks[1].phi_nodes.len(), 1);
    assert_eq!(cfg.blocks[1].phi_nodes[0].entries, vec![(LabelN(0), SSAVariable(1))]);
    let found = validate(&cfg);
    assert_eq!(found.len(), 1);
    assert_eq!(found[0].kind, ViolationKind::UseOfUnassigned);
    assert_eq!(found[0].ssa, SSAVariable(1));
}

#[test]
fn propagation_leaves_other_moves_alone() {
    let mut cfg = graph(|b| {
        b.basic_op(OpKind::Move, vec![var(1)], vec![SSAVariable(2)]);
        b.basic_op(OpKind::Move, vec![], vec![SSAVariable(3)]);
        b.basic_op(OpKind::Move, vec![Source::Constant(five())], vec![]);
        b.basic_op(OpKind::Move, vec![Source::Constant(five()), var(1)], vec![SSAVariable(4)]);
        b.basic_op(OpKind::MakeTuple, vec![Source::Constant(five())], vec![SSAVariable(5)]);
    });
    let mut after = graph(|b| {
        b.basic_op(OpKind::Move, vec![var(1)], vec![SSAVariable(2)]);
        b.basic_op(OpKind::Move, vec![], vec![SSAVariable(3)]);
        b.basic_op(OpKind::Move, vec![Source::Constant(five())], vec![]);
        b.basic_op(OpKind::Move, vec![Source::Constant(five()), var(1)], vec![SSAVariable(4)]);
        b.basic_op(OpKind::MakeTuple, vec![Source::Constant(five())], vec![SSAVariable(5)]);
    });
    propagate_atomics(&mut after);
    assert_eq!(after, cfg);
    propagate_atomics(&mut cfg);
    assert_eq!(after, cfg);
}

#[test]
fn later_move_of_one_id_wins() {
    let mut cfg = graph(|b| {
        b.basic_op(OpKind::Move, vec![Source::Constant(AtomicLiteral::Nil)], vec![SSAVariable(1)]);
        b.basic_op(OpKind::Move, vec![Source::Constant(five())], vec![SSAVariable(1)]);
        b.basic_op(OpKind::ReturnOk, vec![var(1)], vec![]);
    });
    propagate_atomics(&mut cfg);
    assert_eq!(cfg.blocks[0].ops.len(), 1);
    assert_eq!(cfg.blocks[0].ops[0].reads, vec![Source::Constant(five())]);
}

#[test]
fn second_propagation_changes_nothing() {
    let mut once = graph(|b| {
        let later = b.add_block();
        b.basic_op(OpKind::Move, vec![Source::Constant(five())], vec![SSAVariable(1)]);
        b.basic_op(OpKind::MakeTuple, vec![var(1), var(2)], vec![SSAVariable(3)]);
        b.add_jump(LabelN(0), later);
        b.set_block(later);
        b.basic_op(OpKind::Move, vec![Source::Constant(AtomicLiteral::Nil)], vec![SSAVariable(2)]);
        b.basic_op(OpKind::ReturnOk, vec![var(3)], vec![]);
    });
    propagate_atomics(&mut once);
    let mut twice = graph(|b| {
        let later = b.add_block();
        b.basic_op(OpKind::Move, vec![Source::Constant(five())], vec![SSAVariable(1)]);
        b.basic_op(OpKind::MakeTuple, vec![var(1), var(2)], vec![SSAVariable(3)]);
        b.add_jump(LabelN(0), later);
        b.set_block(later);
        b.basic_op(OpKind::Move, vec![Source::Constant(AtomicLiteral::Nil)], vec![SSAVariable(2)]);
        b.basic_op(OpKind::ReturnOk, vec![var(3)], vec![]);
    });
    propagate_atomics(&mut twice);
    propagate_atomics(&mut twice);
    assert_eq!(once, twice);
    assert_eq!(
        once.blocks[0].ops[0].reads,
        vec![Source::Constant(five()), Source::Constant(AtomicLiteral::Nil)]
    );
}

#[test]
fn a_move_fed_by_a_constant_goes_in_the_second_run() {
    let mut cfg = graph(|b| {
        b.basic_op(OpKind::Move, vec![Source::Constant(five())], vec![SSAVariable(1)]);
        b.basic_op(OpKind::Move, vec![var(1)], vec![SSAVariable(2)]);
        b.basic_op(OpKind::ReturnOk, vec![var(2)], vec![]);
    });
    propagate_atomics(&mut cfg);
    assert_eq!(cfg.blocks[0].ops.len(), 2);
    assert_eq!(cfg.blocks[0].ops[0].reads, vec![Source::Constant(five())]);
    assert_eq!(cfg.blocks[0].ops[1].reads, vec![var(2)]);
    propagate_atomics(&mut cfg);
    assert_eq!(cfg.blocks[0].ops.len(), 1);
    assert_eq!(cfg.blocks[0].ops[0].reads, vec![Source::Constant(five())]);
}
