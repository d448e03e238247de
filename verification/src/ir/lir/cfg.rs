//! Building a control-flow graph block by block.
use vstd::prelude::*;

use crate::ir::lir::{
    lemma_views_push, lemma_views_update, views, BasicBlock, BlockView, CfgView, FunctionCfg,
    LabelN, Op, OpKind, OpKindView, OpView, Phi, PhiView, Source,
};
use crate::ir::SSAVariable;

verus! {

/// A construct whose lowering is not finished.
#[derive(Debug, Clone, Copy, PartialEq, Eq, Hash, Structural)]
pub enum Construct {
    /// A mailbox receive: no code is emitted for it.
    Receive,
    /// The catch continuation of a try: it is not wired into the graph.
    TryCatch,
    /// The choice among the clauses of a case: every clause is jumped to.
    CaseDiscrimination,
    /// The identities of closures bound as a batch: they are not wired.
    BatchClosureIdentity,
}

/// The condition raised where lowering meets an unfinished construct: which
/// construct, and the identifier of the node that holds it.
#[derive(Debug, Clone, Copy, PartialEq, Eq, Hash, Structural)]
pub struct Unsupported {
    pub construct: Construct,
    pub ssa: SSAVariable,
}

/// A graph under construction, with the block that operations are appended
/// to and the conditions raised so far.
#[derive(Debug)]
pub struct FunctionCfgBuilder {
    cfg: FunctionCfg,
    current: LabelN,
    unsupported: Vec<Unsupported>,
}

/// The mathematical value of a [`FunctionCfgBuilder`].
pub struct BuilderView {
    pub cfg: CfgView,
    pub current: LabelN,
    pub unsupported: Seq<Unsupported>,
}

/// The first position at or after `from` of a phi node for `ssa`, or the
/// number of phi nodes where there is none.
pub open spec fn phi_position(phis: Seq<PhiView>, ssa: SSAVariable, from: int) -> int
    decreases phis.len() - from,
{
    if from < 0 || from >= phis.len() {
        phis.len() as int
    } else if phis[from].ssa == ssa {
        from
    } else {
        phi_position(phis, ssa, from + 1)
    }
}

/// Where `phi_position` finds a node, it is a node for `ssa`, and none stands
/// between `from` and it.
pub proof fn lemma_phi_position(phis: Seq<PhiView>, ssa: SSAVariable, from: int)
    requires
        0 <= from <= phis.len(),
    ensures
        from <= phi_position(phis, ssa, from) <= phis.len(),
        phi_position(phis, ssa, from) < phis.len() ==> phis[phi_position(phis, ssa, from)].ssa
            == ssa,
        forall|k: int| from <= k < phi_position(phis, ssa, from) ==> (#[trigger] phis[k]).ssa != ssa,
    decreases phis.len() - from,
{
    if from < phis.len() && phis[from].ssa != ssa {
        lemma_phi_position(phis, ssa, from + 1);
    }
}

impl BlockView {
    /// The block with `op` appended.
    pub open spec fn with_op(self, op: OpView) -> BlockView {
        BlockView { ops: self.ops.push(op), ..self }
    }

    /// The block with a jump to `to` appended.
    pub open spec fn with_jump(self, to: LabelN) -> BlockView {
        BlockView { jumps: self.jumps.push(to), ..self }
    }

    /// The block with the pair `(from, from_ssa)` added to its phi node for
    /// `ssa`, which is appended where the block has none.
    pub open spec fn with_phi_entry(
        self,
        ssa: SSAVariable,
        from: LabelN,
        from_ssa: SSAVariable,
    ) -> BlockView {
        let at = phi_position(self.phi_nodes, ssa, 0);
        if at < self.phi_nodes.len() {
            let phi = self.phi_nodes[at];
            BlockView {
                phi_nodes: self.phi_nodes.update(
                    at,
                    PhiView { ssa: phi.ssa, entries: phi.entries.push((from, from_ssa)) },
                ),
                ..self
            }
        } else {
            BlockView {
                phi_nodes: self.phi_nodes.push(PhiView { ssa, entries: seq![(from, from_ssa)] }),
                ..self
            }
        }
    }
}

impl BuilderView {
    /// The builder that starts on `cfg`: at its entry, with nothing raised.
    pub open spec fn start(cfg: CfgView) -> BuilderView {
        BuilderView { cfg, current: cfg.entry, unsupported: Seq::empty() }
    }

    /// Whether the labels of the blocks fit the machine's word.
    pub open spec fn fits(self) -> bool {
        self.cfg.blocks.len() <= usize::MAX
    }

    /// The entry and the current block exist.
    pub open spec fn wf(self) -> bool {
        self.cfg.has_block(self.cfg.entry) && self.cfg.has_block(self.current)
    }

    /// The label that the next new block gets.
    pub open spec fn next_label(self) -> LabelN {
        LabelN(self.cfg.blocks.len() as usize)
    }

    /// The block that operations are appended to.
    pub open spec fn current_block(self) -> BlockView {
        self.cfg.blocks[self.current.0 as int]
    }

    /// The builder with `block` in place of the block at `label`, where
    /// there is one.
    pub open spec fn with_block(self, label: LabelN, block: BlockView) -> BuilderView {
        if self.cfg.has_block(label) {
            BuilderView {
                cfg: CfgView { blocks: self.cfg.blocks.update(label.0 as int, block), ..self.cfg },
                ..self
            }
        } else {
            self
        }
    }

    /// After a new empty block was added; its label is `self.next_label()`.
    pub open spec fn add_block(self) -> BuilderView {
        BuilderView {
            cfg: CfgView { blocks: self.cfg.blocks.push(BlockView::empty()), ..self.cfg },
            ..self
        }
    }

    /// After the cursor moved to `label`.
    pub open spec fn set_block(self, label: LabelN) -> BuilderView {
        BuilderView { current: label, ..self }
    }

    /// After an operation was appended to the current block.
    pub open spec fn basic_op(
        self,
        kind: OpKindView,
        reads: Seq<Source>,
        writes: Seq<SSAVariable>,
    ) -> BuilderView {
        self.with_block(self.current, self.current_block().with_op(OpView { kind, reads, writes }))
    }

    /// After an edge from `from` to `to` was added.
    pub open spec fn add_jump(self, from: LabelN, to: LabelN) -> BuilderView {
        self.with_block(from, self.cfg.blocks[from.0 as int].with_jump(to))
    }

    /// After the block `to` was told that `to_ssa` takes the value of
    /// `from_ssa` when control comes from `from`.
    pub open spec fn add_phi(
        self,
        from: LabelN,
        from_ssa: SSAVariable,
        to: LabelN,
        to_ssa: SSAVariable,
    ) -> BuilderView {
        self.with_block(to, self.cfg.blocks[to.0 as int].with_phi_entry(to_ssa, from, from_ssa))
    }

    /// After a condition was raised.
    pub open spec fn raise(self, condition: Unsupported) -> BuilderView {
        BuilderView { unsupported: self.unsupported.push(condition), ..self }
    }
}

impl View for FunctionCfgBuilder {
    type V = BuilderView;

    closed spec fn view(&self) -> BuilderView {
        BuilderView { cfg: self.cfg@, current: self.current, unsupported: self.unsupported@ }
    }
}

impl FunctionCfgBuilder {
    /// The labels of a graph under construction fit the machine's word.
    pub proof fn lemma_fits(&self)
        ensures
            self@.fits(),
    {
        assert(self@.cfg.blocks.len() == self.cfg.blocks.len());
    }

    /// Starts building on `cfg`, at its entry block.
    pub fn new(cfg: FunctionCfg) -> (r: FunctionCfgBuilder)
        ensures
            r@ == BuilderView::start(cfg@),
    {
        let current = cfg.entry;
        FunctionCfgBuilder { cfg, current, unsupported: Vec::new() }
    }

    /// Ends building: the graph, and the conditions raised while it was built,
    /// in the order raised.
    pub fn finish(self) -> (r: (FunctionCfg, Vec<Unsupported>))
        ensures
            r.0@ == self@.cfg,
            r.1@ == self@.unsupported,
    {
        (self.cfg, self.unsupported)
    }

    /// Adds a new empty block and returns its label. The cursor stays.
    pub fn add_block(&mut self) -> (label: LabelN)
        ensures
            label == old(self)@.next_label(),
            final(self)@ == old(self)@.add_block(),
    {
        let label = LabelN(self.cfg.blocks.len());
        self.cfg.blocks.push(BasicBlock::new());
        proof {
            lemma_views_push(old(self).cfg.blocks@, self.cfg.blocks@.last());
        }
        label
    }

    /// Moves the cursor to `label`.
    pub fn set_block(&mut self, label: LabelN)
        requires
            old(self)@.cfg.has_block(label),
        ensures
            final(self)@ == old(self)@.set_block(label),
    {
        self.current = label;
    }

    /// The block the cursor is at.
    pub fn get_block(&self) -> (label: LabelN)
        ensures
            label == self@.current,
    {
        self.current
    }

    /// Appends one operation to the block the cursor is at.
    pub fn basic_op(&mut self, kind: OpKind, reads: Vec<Source>, writes: Vec<SSAVariable>)
        requires
            old(self)@.wf(),
        ensures
            final(self)@ == old(self)@.basic_op(kind@, reads@, writes@),
    {
        let at = self.current.0;
        let op = Op { kind, reads, writes };
        let block = &mut self.cfg.blocks[at];
        block.ops.push(op);
        proof {
            lemma_views_push(old(self).cfg.blocks@[at as int].ops@, op);
            lemma_views_update(old(self).cfg.blocks@, at as int, self.cfg.blocks@[at as int]);
        }
    }

    /// Records a control-flow edge from `from` to `to`, after the edges that
    /// `from` already has.
    pub fn add_jump(&mut self, from: LabelN, to: LabelN)
        requires
            old(self)@.cfg.has_block(from),
        ensures
            final(self)@ == old(self)@.add_jump(from, to),
    {
        let block = &mut self.cfg.blocks[from.0];
        block.jumps.push(to);
        proof {
            lemma_views_update(old(self).cfg.blocks@, from.0 as int, self.cfg.blocks@[from.0 as int]);
        }
    }

    /// Records that in block `to` the identifier `to_ssa` takes the value of
    /// `from_ssa` when control comes from block `from`. The pair joins the
    /// phi node that `to` has for `to_ssa`; the first such pair makes the node.
    pub fn add_phi(&mut self, from: LabelN, from_ssa: SSAVariable, to: LabelN, to_ssa: SSAVariable)
        requires
            old(self)@.cfg.has_block(to),
        ensures
            final(self)@ == old(self)@.add_phi(from, from_ssa, to, to_ssa),
    {
        let ghost phis = old(self)@.cfg.blocks[to.0 as int].phi_nodes;
        let block = &mut self.cfg.blocks[to.0];
        let n = block.phi_nodes.len();
        let mut at: usize = 0;
        while at < n && !(block.phi_nodes[at].ssa == to_ssa)
            invariant
                at <= n,
                n == block.phi_nodes.len(),
                phis == views(block.phi_nodes@),
                phi_position(phis, to_ssa, 0) == phi_position(phis, to_ssa, at as int),
            decreases n - at,
        {
            at = at + 1;
        }
        if at < n {
            let phi = &mut block.phi_nodes[at];
            phi.entries.push((from, from_ssa));
            proof {
                lemma_views_update(
                    old(self).cfg.blocks@[to.0 as int].phi_nodes@,
                    at as int,
                    block.phi_nodes@[at as int],
                );
            }
        } else {
            let mut entries = Vec::new();
            entries.push((from, from_ssa));
            let phi = Phi { ssa: to_ssa, entries };
            block.phi_nodes.push(phi);
            proof {
                lemma_views_push(old(self).cfg.blocks@[to.0 as int].phi_nodes@, phi);
            }
        }
        proof {
            lemma_views_update(old(self).cfg.blocks@, to.0 as int, self.cfg.blocks@[to.0 as int]);
        }
    }

    /// Raises the condition that lowering met an unfinished construct.
    pub fn unsupported(&mut self, construct: Construct, ssa: SSAVariable)
        ensures
            final(self)@ == old(self)@.raise(Unsupported { construct, ssa }),
    {
        self.unsupported.push(Unsupported { construct, ssa });
    }
}

} // verus!
