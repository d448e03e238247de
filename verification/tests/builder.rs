use core_ir::ir::lir::cfg::{Construct, FunctionCfgBuilder, Unsupported};
use core_ir::ir::lir::{BasicBlock, FunctionCfg, LabelN, Op, OpKind, Phi, Source};
use core_ir::ir::SSAVariable;

#[test]
fn new_graph_has_one_empty_entry_block() {
    let cfg = FunctionCfg::new();
    assert_eq!(cfg.entry, LabelN(0));
    assert_eq!(cfg.blocks.len(), 1);
    assert_eq!(cfg.blocks[0], BasicBlock { phi_nodes: vec![], ops: vec![], jumps: vec![] });
    assert_eq!(BasicBlock::new(), cfg.blocks[0]);
}

#[test]
fn builder_starts_at_the_entry() {
    let b = FunctionCfgBuilder::new(FunctionCfg::new());
    assert_eq!(b.get_block(), LabelN(0));
    let (cfg, raised) = b.finish();
    assert_eq!(cfg, FunctionCfg::new());
    assert!(raised.is_empty());
}

#[test]
fn add_block_gives_dense_labels_and_keeps_the_cursor() {
    let mut b = FunctionCfgBuilder::new(FunctionCfg::new());
    assert_eq!(b.add_block(), LabelN(1));
    assert_eq!(b.add_block(), LabelN(2));
    assert_eq!(b.get_block(), LabelN(0));
    let (cfg, _) = b.finish();
    assert_eq!(cfg.blocks.len(), 3);
    assert_eq!(cfg.entry, LabelN(0));
}

#[test]
fn ops_go_to_the_block_at_the_cursor() {
    let mut b = FunctionCfgBuilder::new(FunctionCfg::new());
    let other = b.add_block();
    b.basic_op(OpKind::Move, vec![Source::Variable(SSAVariable(1))], vec![SSAVariable(2)]);
    b.set_block(other);
    assert_eq!(b.get_block(), other);
    b.basic_op(OpKind::ReturnOk, vec![Source::Variable(SSAVariable(2))], vec![]);
    b.basic_op(OpKind::Jump, vec![], vec![]);
    let (cfg, _) = b.finish();
    assert_eq!(
        cfg.blocks[0].ops,
        vec![Op {
            kind: OpKind::Move,
            reads: vec![Source::Variable(SSAVariable(1))],
            writes: vec![SSAVariable(2)],
        }]
    );
    assert_eq!(cfg.blocks[1].ops.len(), 2);
    assert_eq!(cfg.blocks[1].ops[0].kind, OpKind::ReturnOk);
    assert_eq!(cfg.blocks[1].ops[1].kind, OpKind::Jump);
}

#[test]
fn jumps_keep_the_order_in_which_they_were_added() {
    let mut b = FunctionCfgBuilder::new(FunctionCfg::new());
    let one = b.add_block();
    let two = b.add_block();
    b.add_jump(LabelN(0), two);
    b.add_jump(LabelN(0), one);
    b.add_jump(one, two);
    let (cfg, _) = b.finish();
    assert_eq!(cfg.blocks[0].jumps, vec![two, one]);
    assert_eq!(cfg.blocks[1].jumps, vec![two]);
    assert!(cfg.blocks[2].jumps.is_empty());
}

#[test]
fn phi_entries_for_one_identifier_share_a_node() {
    let mut b = FunctionCfgBuilder::new(FunctionCfg::new());
    let left = b.add_block();
    let right = b.add_block();
    let join = b.add_block();
    b.add_phi(left, SSAVariable(1), join, SSAVariable(9));
    b.add_phi(right, SSAVariable(2), join, SSAVariable(9));
    b.add_phi(left, SSAVariable(3), join, SSAVariable(8));
    b.add_phi(right, SSAVariable(4), join, SSAVariable(9));
    let (cfg, _) = b.finish();
    assert_eq!(
        cfg.blocks[join.0].phi_nodes,
        vec![
            Phi {
                ssa: SSAVariable(9),
                entries: vec![
                    (left, SSAVariable(1)),
                    (right, SSAVariable(2)),
                    (right, SSAVariable(4)),
                ],
            },
            Phi { ssa: SSAVariable(8), entries: vec![(left, SSAVariable(3))] },
        ]
    );
    assert!(cfg.blocks[left.0].phi_nodes.is_empty());
}

#[test]
fn raised_conditions_come_back_in_order() {
    let mut b = FunctionCfgBuilder::new(FunctionCfg::new());
    b.unsupported(Construct::Receive, SSAVariable(3));
    b.unsupported(Construct::TryCatch, SSAVariable(1));
    let (cfg, raised) = b.finish();
    assert_eq!(cfg, FunctionCfg::new());
    assert_eq!(
        raised,
        vec![
            Unsupported { construct: Construct::Receive, ssa: SSAVariable(3) },
            Unsupported { construct: Construct::TryCatch, ssa: SSAVariable(1) },
        ]
    );
}
