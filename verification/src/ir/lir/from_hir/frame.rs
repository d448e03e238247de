//! What lowering leaves alone: it appends to the block the cursor is at and
//! to blocks it adds, and touches no other block.
use vstd::prelude::*;

use crate::ir::hir::{Clause as HirClause, SingleExpression, SingleExpressionKind};
use crate::ir::lir::cfg::{BuilderView, Construct, Unsupported};
use crate::ir::lir::from_hir::{
    clause_patterns, grown, lowered_all, lowered_clauses, lowered_entries, ssas, value_ids, variables,
};
use crate::ir::lir::{BlockView, LabelN, OpKindView, Source};
use crate::ir::SSAVariable;

verus! {

/// Whether `after` is `before` with operations and jumps appended: the phi
/// nodes are the same.
pub open spec fn block_extends(before: BlockView, after: BlockView) -> bool {
    &&& after.phi_nodes == before.phi_nodes
    &&& before.ops.is_prefix_of(after.ops)
    &&& before.jumps.is_prefix_of(after.jumps)
}

impl BuilderView {
    /// Whether no jump leaves the block the cursor is at.
    pub open spec fn open(self) -> bool {
        self.current_block().jumps.len() == 0
    }

    /// Whether `after` may come of `self` by lowering: blocks were added, the
    /// block the cursor was at was appended to, every other block is as it
    /// was, the cursor is where it was or at an added block, and conditions
    /// were only added. If no jump left the block at the cursor, none leaves
    /// the block the cursor is at now.
    pub open spec fn extended_to(self, after: BuilderView) -> bool {
        &&& grown(self, after)
        &&& after.current == self.current || after.current.0 >= self.cfg.blocks.len()
        &&& forall|l: int|
            0 <= l < self.cfg.blocks.len() && l != self.current.0 ==> #[trigger] after.cfg.blocks[l]
                == self.cfg.blocks[l]
        &&& block_extends(self.current_block(), after.cfg.blocks[self.current.0 as int])
        &&& self.unsupported.is_prefix_of(after.unsupported)
        &&& self.open() ==> after.open()
    }

    /// What holds of a state `after` that lowering reaches from `self`: no
    /// block was taken away, and if `self` is well formed and the labels of
    /// `after` fit the machine's word, `self` extends to `after`.
    pub open spec fn lowers_to(self, after: BuilderView) -> bool {
        &&& after.cfg.blocks.len() >= self.cfg.blocks.len()
        &&& self.wf() && after.fits() ==> self.extended_to(after)
    }
}

/// Extending twice is extending.
pub proof fn lemma_extended_trans(a: BuilderView, b: BuilderView, c: BuilderView)
    requires
        a.wf(),
        a.extended_to(b),
        b.extended_to(c),
    ensures
        a.extended_to(c),
{
    assert forall|l: int| 0 <= l < a.cfg.blocks.len() && l != a.current.0 implies #[trigger] c.cfg.blocks[l]
        == a.cfg.blocks[l] by {
    }
    if b.current != a.current {
    }
}

/// Two steps of lowering are a step of lowering.
pub proof fn lemma_lowers_trans(a: BuilderView, b: BuilderView, c: BuilderView)
    requires
        a.lowers_to(b),
        b.lowers_to(c),
    ensures
        a.lowers_to(c),
{
    if a.wf() && c.fits() {
        lemma_extended_trans(a, b, c);
    }
}

/// Appending an operation is a step of lowering.
pub proof fn lemma_basic_op_lowers(
    st: BuilderView,
    kind: OpKindView,
    reads: Seq<Source>,
    writes: Seq<SSAVariable>,
)
    ensures
        st.lowers_to(st.basic_op(kind, reads, writes)),
{
}

/// Raising a condition is a step of lowering.
pub proof fn lemma_raise_lowers(st: BuilderView, condition: Unsupported)
    ensures
        st.lowers_to(st.raise(condition)),
{
}

/// The split after a call is a step of lowering.
pub proof fn lemma_call_split_lowers(st: BuilderView)
    ensures
        st.lowers_to(st.call_split()),
{
    let throw = st.next_label();
    let s1 = st.add_block().set_block(throw);
    let s2 = s1.basic_op(OpKindView::ReturnThrow, Seq::empty(), Seq::empty());
    let resume = s2.next_label();
    let s3 = s2.add_block().set_block(resume);
    let s4 = s3.add_jump(st.current, resume);
    let s5 = s4.add_jump(st.current, throw);
    if st.wf() && s5.fits() {
    }
}

/// What lowering clauses leaves alone. The clauses go into blocks of their
/// own, so every block that was there is as it was, but for the block `done`,
/// which gets phi entries and nothing else.
pub open spec fn clauses_extended(
    before: BuilderView,
    after: BuilderView,
    done: LabelN,
    n: nat,
) -> bool {
    &&& grown(before, after)
    &&& if n == 0 {
        after == before
    } else {
        after.current.0 >= before.cfg.blocks.len()
    }
    &&& forall|l: int|
        0 <= l < before.cfg.blocks.len() && l != done.0 ==> #[trigger] after.cfg.blocks[l]
            == before.cfg.blocks[l]
    &&& after.cfg.blocks[done.0 as int].ops == before.cfg.blocks[done.0 as int].ops
    &&& after.cfg.blocks[done.0 as int].jumps == before.cfg.blocks[done.0 as int].jumps
    &&& before.unsupported.is_prefix_of(after.unsupported)
}

/// Adding jumps from one block changes that block's jumps and nothing else.
pub proof fn lemma_add_jumps(st: BuilderView, from: LabelN, targets: Seq<LabelN>, n: nat)
    requires
        n <= targets.len(),
    ensures
        ({
            let after = st.add_jumps(from, targets, n);
            &&& after.current == st.current
            &&& after.unsupported == st.unsupported
            &&& after.cfg.entry == st.cfg.entry
            &&& after.cfg.blocks.len() == st.cfg.blocks.len()
            &&& forall|l: int|
                0 <= l < st.cfg.blocks.len() && l != from.0 ==> #[trigger] after.cfg.blocks[l]
                    == st.cfg.blocks[l]
            &&& st.cfg.has_block(from) ==> {
                &&& after.cfg.blocks[from.0 as int].phi_nodes
                    == st.cfg.blocks[from.0 as int].phi_nodes
                &&& after.cfg.blocks[from.0 as int].ops == st.cfg.blocks[from.0 as int].ops
                &&& after.cfg.blocks[from.0 as int].jumps == st.cfg.blocks[from.0 as int].jumps
                    + targets.subrange(0, n as int)
            }
        }),
    decreases n,
{
    if n > 0 {
        lemma_add_jumps(st, from, targets, (n - 1) as nat);
    }
    if st.cfg.has_block(from) {
        let after = st.add_jumps(from, targets, n);
    }
}

impl SingleExpression {
    /// Lowering a node is a step of lowering: it appends to the block the
    /// cursor is at and to blocks it adds, and touches no other block.
    pub proof fn lemma_lowered_extends(&self, st: BuilderView)
        ensures
            st.lowers_to(self.lowered(st)),
        decreases self, 0nat,
    {
        match self.kind {
            SingleExpressionKind::Variable(_) => {},
            SingleExpressionKind::NamedFunction { .. } => {},
            SingleExpressionKind::BindClosure { closure, lambda_env, env_ssa } => {
                let s1 = st.basic_op(
                    OpKindView::MakeClosureEnv { env_idx: lambda_env->Some_0 },
                    Seq::empty(),
                    seq![env_ssa],
                );
                lemma_basic_op_lowers(
                    s1,
                    OpKindView::BindClosure { ident: closure.ident->Some_0 },
                    seq![Source::Variable(env_ssa)],
                    seq![self.ssa],
                );
                lemma_lowers_trans(st, s1, self.lowered(st));
            },
            SingleExpressionKind::BindClosures { lambda_env, body, env_ssa, .. } => {
                let s1 = st.basic_op(
                    OpKindView::MakeClosureEnv { env_idx: lambda_env->Some_0 },
                    Seq::empty(),
                    seq![env_ssa],
                );
                body.lemma_lowered_extends(s1);
                let s2 = body.lowered(s1);
                lemma_lowers_trans(st, s1, s2);
                lemma_lowers_trans(st, s2, self.lowered(st));
            },
            SingleExpressionKind::Atomic(_) => {},
            SingleExpressionKind::Tuple(elems) => {
                lemma_lowered_all_extends(elems@, elems@.len(), st);
                let s1 = lowered_all(elems@, elems@.len(), st);
                lemma_lowers_trans(st, s1, self.lowered(st));
            },
            SingleExpressionKind::List { head, tail } => {
                tail.lemma_lowered_extends(st);
                let s1 = tail.lowered(st);
                lemma_lowered_all_extends(head@, head@.len(), s1);
                let s2 = lowered_all(head@, head@.len(), s1);
                lemma_lowers_trans(st, s1, s2);
                lemma_lowers_trans(st, s2, self.lowered(st));
            },
            SingleExpressionKind::KeyValue(entries) => {
                lemma_lowered_entries_extends(entries@, entries@.len(), st);
                let s1 = lowered_entries(entries@, entries@.len(), st);
                lemma_lowers_trans(st, s1, self.lowered(st));
            },
            SingleExpressionKind::PrimOp { args, .. } => {
                lemma_lowered_all_extends(args@, args@.len(), st);
                let s1 = lowered_all(args@, args@.len(), st);
                lemma_lowers_trans(st, s1, self.lowered(st));
            },
            SingleExpressionKind::ApplyCall { fun, args } => {
                fun.lemma_lowered_extends(st);
                let s1 = fun.lowered(st);
                lemma_lowered_all_extends(args@, args@.len(), s1);
                let s2 = lowered_all(args@, args@.len(), s1);
                lemma_lowers_trans(st, s1, s2);
                let s3 = s2.basic_op(
                    OpKindView::Apply,
                    variables(seq![fun.value_id()] + value_ids(args@)),
                    seq![self.ssa],
                );
                lemma_lowers_trans(st, s2, s3);
                lemma_call_split_lowers(s3);
                lemma_lowers_trans(st, s3, self.lowered(st));
            },
            SingleExpressionKind::InterModuleCall { module, name, args } => {
                module.lemma_lowered_extends(st);
                let s0 = module.lowered(st);
                name.lemma_lowered_extends(s0);
                let s1 = name.lowered(s0);
                lemma_lowers_trans(st, s0, s1);
                lemma_lowered_all_extends(args@, args@.len(), s1);
                let s2 = lowered_all(args@, args@.len(), s1);
                lemma_lowers_trans(st, s1, s2);
                let s3 = s2.basic_op(
                    OpKindView::Call,
                    variables(seq![module.value_id(), name.value_id()] + value_ids(args@)),
                    seq![self.ssa],
                );
                lemma_lowers_trans(st, s2, s3);
                lemma_call_split_lowers(s3);
                lemma_lowers_trans(st, s3, self.lowered(st));
            },
            SingleExpressionKind::Let { val, body, .. } => {
                lemma_lowered_all_extends(val.values@, val.values@.len(), st);
                let s1 = lowered_all(val.values@, val.values@.len(), st);
                body.lemma_lowered_extends(s1);
                lemma_lowers_trans(st, s1, self.lowered(st));
            },
            SingleExpressionKind::Try { body, then, .. } => {
                lemma_lowered_all_extends(body.values@, body.values@.len(), st);
                let s1 = lowered_all(body.values@, body.values@.len(), st);
                then.lemma_lowered_extends(s1);
                let s2 = then.lowered(s1);
                lemma_lowers_trans(st, s1, s2);
                lemma_lowers_trans(st, s2, self.lowered(st));
            },
            SingleExpressionKind::Case { val, clauses, values } => {
                lemma_lowered_all_extends(val.values@, val.values@.len(), st);
                let s0 = lowered_all(val.values@, val.values@.len(), st);
                lemma_lowered_all_extends(values@, values@.len(), s0);
                let s1 = lowered_all(values@, values@.len(), s0);
                lemma_lowers_trans(st, s0, s1);
                let from = s1.current;
                let done = s1.next_label();
                let s2 = s1.add_block();
                lemma_lowered_clauses_extends(clauses@, clauses@.len(), s2, done, self.ssa);
                let branches = lowered_clauses(clauses@, clauses@.len(), s2, done, self.ssa);
                let s3 = branches.state.set_block(from).basic_op(
                    OpKindView::Case {
                        vars: ssas(val.values@),
                        clauses: clause_patterns(clauses@),
                        value_vars: ssas(values@),
                    },
                    Seq::empty(),
                    Seq::empty(),
                );
                lemma_add_jumps(s3, from, branches.leaves, branches.leaves.len());
                let s4 = s3.add_jumps(from, branches.leaves, branches.leaves.len());
                let s5 = self.lowered(st);
                assert(s1.lowers_to(s5)) by {
                    if s1.wf() && s5.fits() {
                        assert forall|l: int|
                            0 <= l < s1.cfg.blocks.len() && l != s1.current.0 implies #[trigger] s5.cfg.blocks[l]
                            == s1.cfg.blocks[l] by {
                        }
                    }
                }
                lemma_lowers_trans(st, s1, s5);
            },
            SingleExpressionKind::Test { .. } => {},
            SingleExpressionKind::Do(first, last) => {
                lemma_lowered_all_extends(first.values@, first.values@.len(), st);
                let s1 = lowered_all(first.values@, first.values@.len(), st);
                last.lemma_lowered_extends(s1);
                lemma_lowers_trans(st, s1, self.lowered(st));
            },
            SingleExpressionKind::Receive { .. } => {},
        }
    }
}

/// Lowering nodes in order is a step of lowering.
pub proof fn lemma_lowered_all_extends(exprs: Seq<SingleExpression>, n: nat, st: BuilderView)
    ensures
        st.lowers_to(lowered_all(exprs, n, st)),
    decreases exprs, n,
{
    if n == 0 || n > exprs.len() {
    } else {
        lemma_lowered_all_extends(exprs, (n - 1) as nat, st);
        let s1 = lowered_all(exprs, (n - 1) as nat, st);
        exprs[n - 1].lemma_lowered_extends(s1);
        lemma_lowers_trans(st, s1, lowered_all(exprs, n, st));
    }
}

/// Lowering map entries in order is a step of lowering.
pub proof fn lemma_lowered_entries_extends(
    entries: Seq<(SingleExpression, SingleExpression)>,
    n: nat,
    st: BuilderView,
)
    ensures
        st.lowers_to(lowered_entries(entries, n, st)),
    decreases entries, n,
{
    if n == 0 || n > entries.len() {
    } else {
        lemma_lowered_entries_extends(entries, (n - 1) as nat, st);
        let s1 = lowered_entries(entries, (n - 1) as nat, st);
        entries[n - 1].0.lemma_lowered_extends(s1);
        let s2 = entries[n - 1].0.lowered(s1);
        lemma_lowers_trans(st, s1, s2);
        entries[n - 1].1.lemma_lowered_extends(s2);
        lemma_lowers_trans(st, s2, lowered_entries(entries, n, st));
    }
}

/// Lowering clauses takes no block away, and leaves every block that was
/// there as it was, but for the phi nodes of `done`.
pub proof fn lemma_lowered_clauses_extends(
    clauses: Seq<HirClause>,
    n: nat,
    st: BuilderView,
    done: LabelN,
    ssa: SSAVariable,
)
    requires
        n <= clauses.len(),
    ensures
        lowered_clauses(clauses, n, st, done, ssa).state.cfg.blocks.len() >= st.cfg.blocks.len(),
        lowered_clauses(clauses, n, st, done, ssa).leaves.len() == n,
        st.wf() && st.cfg.has_block(done) && lowered_clauses(clauses, n, st, done, ssa).state.fits()
            ==> clauses_extended(st, lowered_clauses(clauses, n, st, done, ssa).state, done, n),
    decreases clauses, n,
{
    if n == 0 {
    } else {
        lemma_lowered_clauses_extends(clauses, (n - 1) as nat, st, done, ssa);
        let before = lowered_clauses(clauses, (n - 1) as nat, st, done, ssa);
        let label = before.state.next_label();
        let s1 = before.state.add_block().set_block(label);
        clauses[n - 1].body.lemma_lowered_extends(s1);
        let s2 = clauses[n - 1].body.lowered(s1);
        let after = lowered_clauses(clauses, n, st, done, ssa).state;
        if st.wf() && st.cfg.has_block(done) && after.fits() {
            assert forall|l: int| 0 <= l < st.cfg.blocks.len() && l != done.0 implies #[trigger] after.cfg.blocks[l]
                == st.cfg.blocks[l] by {
            }
        }
    }
}

} // verus!
