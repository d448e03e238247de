//! The graph form of a function: basic blocks of operations in
//! static-single-assignment form, joined by jump edges and merged by phi
//! nodes.
use vstd::prelude::*;

use crate::ir::hir::{Pattern, PatternView};
use crate::ir::{FunctionIdent, LambdaEnvIdx, SSAVariable};
use crate::parser::AtomicLiteral;
use crate::Atom;

pub mod cfg;
pub mod from_hir;
pub mod pass;

verus! {

/// The views of the elements of a sequence, in order.
pub open spec fn views<T: View>(s: Seq<T>) -> Seq<T::V> {
    Seq::new(s.len(), |i: int| s[i]@)
}

/// Pushing an element pushes its view.
pub proof fn lemma_views_push<T: View>(s: Seq<T>, x: T)
    ensures
        views(s.push(x)) == views(s).push(x@),
{
    assert(views(s.push(x)) =~= views(s).push(x@));
}

/// Replacing an element replaces its view.
pub proof fn lemma_views_update<T: View>(s: Seq<T>, i: int, x: T)
    requires
        0 <= i < s.len(),
    ensures
        views(s.update(i, x)) == views(s).update(i, x@),
{
    assert(views(s.update(i, x)) =~= views(s).update(i, x@));
}

/// The label of a basic block: its position in the graph's block list.
#[derive(Debug, Clone, Copy, PartialEq, Eq, Hash, Structural)]
pub struct LabelN(pub usize);

/// What an operation reads: a value written earlier, or a literal in place.
#[derive(Debug, PartialEq, Eq)]
pub enum Source {
    Variable(SSAVariable),
    Constant(AtomicLiteral),
}

impl Clone for Source {
    fn clone(&self) -> (r: Self)
        ensures
            r == *self,
    {
        match self {
            Source::Variable(v) => Source::Variable(*v),
            Source::Constant(c) => Source::Constant(c.clone()),
        }
    }
}

/// The patterns of one clause of a case, one per value matched.
#[derive(Debug, PartialEq, Eq)]
pub struct Clause {
    pub patterns: Vec<Pattern>,
}

impl View for Clause {
    type V = Seq<PatternView>;

    open spec fn view(&self) -> Seq<PatternView> {
        views(self.patterns@)
    }
}

/// What an operation does.
#[derive(Debug, PartialEq, Eq)]
pub enum OpKind {
    /// Binds the function's parameters.
    Arguments,
    /// Copies its one read into its one write.
    Move,
    /// Calls a function of another module; reads module, name and arguments.
    Call,
    /// Calls a function value; reads the function and the arguments.
    Apply,
    /// Makes a function value from a resolved call target.
    CaptureNamedFunction(FunctionIdent),
    MakeTuple,
    /// Reads the tail, then the head elements.
    MakeList,
    /// Reads keys and values in turn.
    MakeMap,
    /// Makes the captured environment of the given slot.
    MakeClosureEnv { env_idx: LambdaEnvIdx },
    /// Binds a call target to the environment it reads.
    BindClosure { ident: FunctionIdent },
    /// Marks a case: the values matched, each clause's patterns, and the
    /// values the patterns refer to. One jump leaves the block per clause, in
    /// clause order, and nothing chooses among them: the marker and the
    /// jumps are what a compiler of patterns starts from.
    Case { vars: Vec<SSAVariable>, clauses: Vec<Clause>, value_vars: Vec<SSAVariable> },
    /// Calls a built-in operation by name.
    PrimOp(Atom),
    /// Leaves the block by its one jump.
    Jump,
    /// Returns its one read to the caller.
    ReturnOk,
    /// Returns to the caller with a failure.
    ReturnThrow,
}

/// The mathematical value of an [`OpKind`].
pub enum OpKindView {
    Arguments,
    Move,
    Call,
    Apply,
    CaptureNamedFunction(FunctionIdent),
    MakeTuple,
    MakeList,
    MakeMap,
    MakeClosureEnv { env_idx: LambdaEnvIdx },
    BindClosure { ident: FunctionIdent },
    Case { vars: Seq<SSAVariable>, clauses: Seq<Seq<PatternView>>, value_vars: Seq<SSAVariable> },
    PrimOp(Atom),
    Jump,
    ReturnOk,
    ReturnThrow,
}

impl View for OpKind {
    type V = OpKindView;

    open spec fn view(&self) -> OpKindView {
        match self {
            OpKind::Arguments => OpKindView::Arguments,
            OpKind::Move => OpKindView::Move,
            OpKind::Call => OpKindView::Call,
            OpKind::Apply => OpKindView::Apply,
            OpKind::CaptureNamedFunction(ident) => OpKindView::CaptureNamedFunction(*ident),
            OpKind::MakeTuple => OpKindView::MakeTuple,
            OpKind::MakeList => OpKindView::MakeList,
            OpKind::MakeMap => OpKindView::MakeMap,
            OpKind::MakeClosureEnv { env_idx } => OpKindView::MakeClosureEnv { env_idx: *env_idx },
            OpKind::BindClosure { ident } => OpKindView::BindClosure { ident: *ident },
            OpKind::Case { vars, clauses, value_vars } => OpKindView::Case {
                vars: vars@,
                clauses: views(clauses@),
                value_vars: value_vars@,
            },
            OpKind::PrimOp(name) => OpKindView::PrimOp(*name),
            OpKind::Jump => OpKindView::Jump,
            OpKind::ReturnOk => OpKindView::ReturnOk,
            OpKind::ReturnThrow => OpKindView::ReturnThrow,
        }
    }
}

/// One operation: its kind, what it reads in order, what it writes in order.
#[derive(Debug, PartialEq, Eq)]
pub struct Op {
    pub kind: OpKind,
    pub reads: Vec<Source>,
    pub writes: Vec<SSAVariable>,
}

/// The mathematical value of an [`Op`].
pub struct OpView {
    pub kind: OpKindView,
    pub reads: Seq<Source>,
    pub writes: Seq<SSAVariable>,
}

impl View for Op {
    type V = OpView;

    open spec fn view(&self) -> OpView {
        OpView { kind: self.kind@, reads: self.reads@, writes: self.writes@ }
    }
}

/// A merge of values at the head of a block: the identifier written, and for
/// each predecessor that brings a value, the predecessor and the value.
#[derive(Debug, PartialEq, Eq)]
pub struct Phi {
    pub ssa: SSAVariable,
    pub entries: Vec<(LabelN, SSAVariable)>,
}

/// The mathematical value of a [`Phi`].
pub struct PhiView {
    pub ssa: SSAVariable,
    pub entries: Seq<(LabelN, SSAVariable)>,
}

impl View for Phi {
    type V = PhiView;

    open spec fn view(&self) -> PhiView {
        PhiView { ssa: self.ssa, entries: self.entries@ }
    }
}

/// A basic block: phi nodes, then operations, then the labels of the blocks
/// it may jump to, in the order in which the edges were added.
#[derive(Debug, PartialEq, Eq)]
pub struct BasicBlock {
    pub phi_nodes: Vec<Phi>,
    pub ops: Vec<Op>,
    pub jumps: Vec<LabelN>,
}

/// The mathematical value of a [`BasicBlock`].
pub struct BlockView {
    pub phi_nodes: Seq<PhiView>,
    pub ops: Seq<OpView>,
    pub jumps: Seq<LabelN>,
}

impl View for BasicBlock {
    type V = BlockView;

    open spec fn view(&self) -> BlockView {
        BlockView { phi_nodes: views(self.phi_nodes@), ops: views(self.ops@), jumps: self.jumps@ }
    }
}

impl BlockView {
    /// The block with nothing in it.
    pub open spec fn empty() -> BlockView {
        BlockView { phi_nodes: Seq::empty(), ops: Seq::empty(), jumps: Seq::empty() }
    }
}

impl BasicBlock {
    /// Makes a block with nothing in it.
    pub fn new() -> (r: BasicBlock)
        ensures
            r@ == BlockView::empty(),
    {
        let r = BasicBlock { phi_nodes: Vec::new(), ops: Vec::new(), jumps: Vec::new() };
        assert(r@.phi_nodes =~= Seq::empty());
        assert(r@.ops =~= Seq::empty());
        r
    }
}

/// The control-flow graph of one function: its blocks, each addressed by its
/// position, and the block where execution starts.
#[derive(Debug, PartialEq, Eq)]
pub struct FunctionCfg {
    pub blocks: Vec<BasicBlock>,
    pub entry: LabelN,
}

/// The mathematical value of a [`FunctionCfg`].
pub struct CfgView {
    pub blocks: Seq<BlockView>,
    pub entry: LabelN,
}

impl View for FunctionCfg {
    type V = CfgView;

    open spec fn view(&self) -> CfgView {
        CfgView { blocks: views(self.blocks@), entry: self.entry }
    }
}

impl CfgView {
    /// The graph of one empty block, which is its entry.
    pub open spec fn initial() -> CfgView {
        CfgView { blocks: seq![BlockView::empty()], entry: LabelN(0) }
    }

    /// Whether `label` names a block of the graph.
    pub open spec fn has_block(self, label: LabelN) -> bool {
        label.0 < self.blocks.len()
    }
}

impl FunctionCfg {
    /// Makes the graph of one empty block, which is its entry.
    pub fn new() -> (r: FunctionCfg)
        ensures
            r@ == CfgView::initial(),
    {
        let mut blocks = Vec::new();
        blocks.push(BasicBlock::new());
        let r = FunctionCfg { blocks, entry: LabelN(0) };
        assert(r@.blocks =~= seq![BlockView::empty()]);
        r
    }
}

} // verus!
