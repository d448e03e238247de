//! How lowering links blocks: every edge it adds leads to a block it added,
//! and it leaves no block empty but the one the cursor is at.
use vstd::prelude::*;

use crate::ir::hir::{Clause as HirClause, Function, SingleExpression, SingleExpressionKind};
use crate::ir::lir::cfg::{BuilderView, Construct, Unsupported};
use crate::ir::lir::from_hir::frame::{
    lemma_add_jumps, lemma_basic_op_lowers, lemma_call_split_lowers, lemma_lowered_all_extends,
    lemma_lowered_clauses_extends, lemma_lowered_entries_extends, lemma_lowers_trans,
    lemma_raise_lowers,
};
use crate::ir::lir::from_hir::shape::{clause_closed, lemma_clauses_shape, meeting_block};
use crate::ir::lir::from_hir::{
    arg_ssas, clause_patterns, entry_ssas, lowered_all, lowered_clauses, lowered_entries, ssas,
    value_ids, variables,
};
use crate::ir::lir::{BlockView, CfgView, LabelN, OpKindView, Source};
use crate::ir::SSAVariable;

verus! {

impl BlockView {
    /// Whether the block holds an operation or a jump.
    pub open spec fn populated(self) -> bool {
        self.ops.len() > 0 || self.jumps.len() > 0
    }

    /// Whether every jump of the block from position `from` on leads to a
    /// block with a label from `low` up to, but not including, `high`.
    pub open spec fn jumps_within(self, from: int, low: int, high: int) -> bool {
        forall|j: int| from <= j < self.jumps.len() ==> low <= (#[trigger] self.jumps[j]).0 < high
    }

    /// Whether every pair of the block's phi nodes names a block with a label
    /// from `low` up to, but not including, `high`.
    pub open spec fn phis_within(self, low: int, high: int) -> bool {
        forall|p: int, e: int|
            0 <= p < self.phi_nodes.len() && 0 <= e < self.phi_nodes[p].entries.len() ==> low <= (
            #[trigger] self.phi_nodes[p].entries[e]).0.0 < high
    }
}

impl CfgView {
    /// Whether every jump and every pair of a phi node names a block of the
    /// graph.
    pub open spec fn linked(self) -> bool {
        forall|l: int|
            0 <= l < self.blocks.len() ==> (#[trigger] self.blocks[l]).jumps_within(
                0,
                0,
                self.blocks.len() as int,
            ) && self.blocks[l].phis_within(0, self.blocks.len() as int)
    }

    /// Whether every block holds an operation or a jump.
    pub open spec fn populated(self) -> bool {
        forall|l: int| 0 <= l < self.blocks.len() ==> (#[trigger] self.blocks[l]).populated()
    }
}

impl BuilderView {
    /// What lowering from `self` to `after` does to the links. The block the
    /// cursor was at is not empty if the cursor left it. Every block added is
    /// not empty, but for the one the cursor is at. Every jump added, and
    /// every pair of a phi node in a block added, names a block added.
    pub open spec fn linked_to(self, after: BuilderView) -> bool {
        let low = self.cfg.blocks.len() as int;
        let high = after.cfg.blocks.len() as int;
        &&& after.current != self.current ==> after.cfg.blocks[self.current.0 as int].populated()
        &&& forall|l: int|
            low <= l < high && l != after.current.0 ==> (#[trigger] after.cfg.blocks[l]).populated()
        &&& after.cfg.blocks[self.current.0 as int].jumps_within(
            self.current_block().jumps.len() as int,
            low,
            high,
        )
        &&& forall|l: int|
            low <= l < high ==> (#[trigger] after.cfg.blocks[l]).jumps_within(0, low, high)
                && after.cfg.blocks[l].phis_within(low, high)
    }

    /// What holds of a state `after` that lowering reaches from `self`: it
    /// is a step of lowering, and if `self` is well formed and the labels of
    /// `after` fit the machine's word, the links are as lowering makes them.
    pub open spec fn links_to(self, after: BuilderView) -> bool {
        &&& self.lowers_to(after)
        &&& self.wf() && after.fits() ==> self.linked_to(after)
    }
}

/// Two steps of lowering link as one.
pub proof fn lemma_links_trans(a: BuilderView, b: BuilderView, c: BuilderView)
    requires
        a.links_to(b),
        b.links_to(c),
    ensures
        a.links_to(c),
{
    lemma_lowers_trans(a, b, c);
    if a.wf() && c.fits() {
        let low = a.cfg.blocks.len() as int;
        let mid = b.cfg.blocks.len() as int;
        let high = c.cfg.blocks.len() as int;
        let at = a.current.0 as int;
        assert(a.extended_to(b) && b.extended_to(c) && a.linked_to(b) && b.linked_to(c));
        if b.current != a.current {
            assert(c.cfg.blocks[at] == b.cfg.blocks[at]);
        }
        assert forall|l: int| low <= l < high && l != c.current.0 implies (#[trigger] c.cfg.blocks[l]).populated() by {
            if l < mid && l != b.current.0 {
                assert(c.cfg.blocks[l] == b.cfg.blocks[l]);
            }
        }
        assert(c.cfg.blocks[at].jumps_within(a.current_block().jumps.len() as int, low, high)) by {
            let before = b.cfg.blocks[at];
            let after = c.cfg.blocks[at];
            assert forall|j: int| a.current_block().jumps.len() <= j < after.jumps.len() implies low <= (
            #[trigger] after.jumps[j]).0 < high by {
                if b.current == a.current {
                    if j < before.jumps.len() {
                        assert(after.jumps[j] == before.jumps[j]);
                    }
                }
            }
        }
        assert forall|l: int| low <= l < high implies (#[trigger] c.cfg.blocks[l]).jumps_within(
            0,
            low,
            high,
        ) && c.cfg.blocks[l].phis_within(low, high) by {
            let after = c.cfg.blocks[l];
            if l < mid {
                let before = b.cfg.blocks[l];
                assert(before.jumps_within(0, low, mid) && before.phis_within(low, mid));
                if l != b.current.0 {
                    assert(after == before);
                } else {
                    assert forall|j: int| 0 <= j < after.jumps.len() implies low <= (
                    #[trigger] after.jumps[j]).0 < high by {
                        if j < before.jumps.len() {
                            assert(after.jumps[j] == before.jumps[j]);
                        }
                    }
                }
            } else {
                assert(after.jumps_within(0, mid, high) && after.phis_within(mid, high));
            }
        }
    }
}

/// Appending an operation adds no link.
pub proof fn lemma_basic_op_links(
    st: BuilderView,
    kind: OpKindView,
    reads: Seq<Source>,
    writes: Seq<SSAVariable>,
)
    ensures
        st.links_to(st.basic_op(kind, reads, writes)),
{
    lemma_basic_op_lowers(st, kind, reads, writes);
}

/// Raising a condition adds no link.
pub proof fn lemma_raise_links(st: BuilderView, condition: Unsupported)
    ensures
        st.links_to(st.raise(condition)),
{
    lemma_raise_lowers(st, condition);
}

/// The split after a call links the call's block to the two blocks it adds.
pub proof fn lemma_call_split_links(st: BuilderView)
    ensures
        st.links_to(st.call_split()),
{
    lemma_call_split_lowers(st);
    let throw = st.next_label();
    let s1 = st.add_block().set_block(throw);
    let s2 = s1.basic_op(OpKindView::ReturnThrow, Seq::empty(), Seq::empty());
    let resume = s2.next_label();
    let s3 = s2.add_block().set_block(resume);
    let s4 = s3.add_jump(st.current, resume);
    let s5 = s4.add_jump(st.current, throw);
    assert(s5 == st.call_split());
    if st.wf() && s5.fits() {
        assert(throw.0 == st.cfg.blocks.len());
        assert(resume.0 == st.cfg.blocks.len() + 1);
        assert(s5.cfg.blocks[resume.0 as int] == BlockView::empty());
        assert(s5.cfg.blocks[throw.0 as int] == s2.cfg.blocks[throw.0 as int]);
    }
}

impl BlockView {
    /// Whether every jump of the block leads to the block `done` or to a
    /// block with a label from `low` up to, but not including, `high`.
    pub open spec fn jumps_within_or(self, low: int, high: int, done: LabelN) -> bool {
        forall|j: int|
            0 <= j < self.jumps.len() ==> (#[trigger] self.jumps[j]) == done || low
                <= self.jumps[j].0 < high
    }
}

/// What lowering clauses from `before` to `after` does to the links: every
/// block added is not empty, its jumps lead to blocks added or to `done`, and
/// the pairs of its phi nodes name blocks added.
pub open spec fn clauses_linked(before: BuilderView, after: BuilderView, done: LabelN) -> bool {
    let low = before.cfg.blocks.len() as int;
    let high = after.cfg.blocks.len() as int;
    forall|l: int|
        low <= l < high ==> {
            &&& (#[trigger] after.cfg.blocks[l]).populated()
            &&& after.cfg.blocks[l].jumps_within_or(low, high, done)
            &&& after.cfg.blocks[l].phis_within(low, high)
        }
}

impl SingleExpression {
    /// Lowering a node links only blocks it adds, and leaves none of them
    /// empty but the one the cursor is at.
    pub proof fn lemma_lowered_links(&self, st: BuilderView)
        ensures
            st.links_to(self.lowered(st)),
        decreases self, 0nat,
    {
        let after = self.lowered(st);
        self.lemma_lowered_extends(st);
        match self.kind {
            SingleExpressionKind::Variable(_) => {},
            SingleExpressionKind::NamedFunction { .. } => {},
            SingleExpressionKind::BindClosure { closure, lambda_env, env_ssa } => {
                let s1 = st.basic_op(
                    OpKindView::MakeClosureEnv { env_idx: lambda_env->Some_0 },
                    Seq::empty(),
                    seq![env_ssa],
                );
                lemma_basic_op_links(
                    st,
                    OpKindView::MakeClosureEnv { env_idx: lambda_env->Some_0 },
                    Seq::empty(),
                    seq![env_ssa],
                );
                lemma_basic_op_links(
                    s1,
                    OpKindView::BindClosure { ident: closure.ident->Some_0 },
                    seq![Source::Variable(env_ssa)],
                    seq![self.ssa],
                );
                lemma_links_trans(st, s1, after);
            },
            SingleExpressionKind::BindClosures { lambda_env, body, env_ssa, .. } => {
                let s1 = st.basic_op(
                    OpKindView::MakeClosureEnv { env_idx: lambda_env->Some_0 },
                    Seq::empty(),
                    seq![env_ssa],
                );
                lemma_basic_op_links(
                    st,
                    OpKindView::MakeClosureEnv { env_idx: lambda_env->Some_0 },
                    Seq::empty(),
                    seq![env_ssa],
                );
                body.lemma_lowered_links(s1);
                let s2 = body.lowered(s1);
                lemma_links_trans(st, s1, s2);
                lemma_raise_links(
                    s2,
                    Unsupported { construct: Construct::BatchClosureIdentity, ssa: self.ssa },
                );
                lemma_links_trans(st, s2, after);
            },
            SingleExpressionKind::Atomic(literal) => {
                lemma_basic_op_links(
                    st,
                    OpKindView::Move,
                    seq![Source::Constant(literal)],
                    seq![self.ssa],
                );
            },
            SingleExpressionKind::Tuple(elems) => {
                lemma_lowered_all_links(elems@, elems@.len(), st);
                let s1 = lowered_all(elems@, elems@.len(), st);
                lemma_basic_op_links(s1, OpKindView::MakeTuple, variables(ssas(elems@)), seq![self.ssa]);
                lemma_links_trans(st, s1, after);
            },
            SingleExpressionKind::List { head, tail } => {
                tail.lemma_lowered_links(st);
                let s1 = tail.lowered(st);
                lemma_lowered_all_links(head@, head@.len(), s1);
                let s2 = lowered_all(head@, head@.len(), s1);
                lemma_links_trans(st, s1, s2);
                lemma_basic_op_links(
                    s2,
                    OpKindView::MakeList,
                    seq![Source::Variable(tail.ssa)] + variables(ssas(head@)),
                    seq![self.ssa],
                );
                lemma_links_trans(st, s2, after);
            },
            SingleExpressionKind::KeyValue(entries) => {
                lemma_lowered_entries_links(entries@, entries@.len(), st);
                let s1 = lowered_entries(entries@, entries@.len(), st);
                lemma_basic_op_links(
                    s1,
                    OpKindView::MakeMap,
                    variables(entry_ssas(entries@)),
                    seq![self.ssa],
                );
                lemma_links_trans(st, s1, after);
            },
            SingleExpressionKind::PrimOp { name, args } => {
                lemma_lowered_all_links(args@, args@.len(), st);
                let s1 = lowered_all(args@, args@.len(), st);
                lemma_basic_op_links(s1, OpKindView::PrimOp(name), variables(ssas(args@)), Seq::empty());
                lemma_links_trans(st, s1, after);
            },
            SingleExpressionKind::ApplyCall { fun, args } => {
                fun.lemma_lowered_links(st);
                let s1 = fun.lowered(st);
                lemma_lowered_all_links(args@, args@.len(), s1);
                let s2 = lowered_all(args@, args@.len(), s1);
                lemma_links_trans(st, s1, s2);
                let reads = variables(seq![fun.value_id()] + value_ids(args@));
                let s3 = s2.basic_op(OpKindView::Apply, reads, seq![self.ssa]);
                lemma_basic_op_links(s2, OpKindView::Apply, reads, seq![self.ssa]);
                lemma_links_trans(st, s2, s3);
                lemma_call_split_links(s3);
                lemma_links_trans(st, s3, after);
            },
            SingleExpressionKind::InterModuleCall { module, name, args } => {
                module.lemma_lowered_links(st);
                let s0 = module.lowered(st);
                name.lemma_lowered_links(s0);
                let s1 = name.lowered(s0);
                lemma_links_trans(st, s0, s1);
                lemma_lowered_all_links(args@, args@.len(), s1);
                let s2 = lowered_all(args@, args@.len(), s1);
                lemma_links_trans(st, s1, s2);
                let reads = variables(
                    seq![module.value_id(), name.value_id()] + value_ids(args@),
                );
                let s3 = s2.basic_op(OpKindView::Call, reads, seq![self.ssa]);
                lemma_basic_op_links(s2, OpKindView::Call, reads, seq![self.ssa]);
                lemma_links_trans(st, s2, s3);
                lemma_call_split_links(s3);
                lemma_links_trans(st, s3, after);
            },
            SingleExpressionKind::Let { val, body, .. } => {
                lemma_lowered_all_links(val.values@, val.values@.len(), st);
                let s1 = lowered_all(val.values@, val.values@.len(), st);
                body.lemma_lowered_links(s1);
                lemma_links_trans(st, s1, after);
            },
            SingleExpressionKind::Try { body, then, .. } => {
                lemma_lowered_all_links(body.values@, body.values@.len(), st);
                let s1 = lowered_all(body.values@, body.values@.len(), st);
                then.lemma_lowered_links(s1);
                let s2 = then.lowered(s1);
                lemma_links_trans(st, s1, s2);
                lemma_raise_links(s2, Unsupported { construct: Construct::TryCatch, ssa: self.ssa });
                lemma_links_trans(st, s2, after);
            },
            SingleExpressionKind::Case { val, clauses, values } => {
                lemma_lowered_all_links(val.values@, val.values@.len(), st);
                let s0 = lowered_all(val.values@, val.values@.len(), st);
                lemma_lowered_all_links(values@, values@.len(), s0);
                let s1 = lowered_all(values@, values@.len(), s0);
                lemma_links_trans(st, s0, s1);
                let n = clauses@.len();
                let from = s1.current;
                let done = s1.next_label();
                let s2 = s1.add_block();
                let branches = lowered_clauses(clauses@, n, s2, done, self.ssa);
                let kind = OpKindView::Case {
                    vars: ssas(val.values@),
                    clauses: clause_patterns(clauses@),
                    value_vars: ssas(values@),
                };
                let s3 = branches.state.set_block(from).basic_op(kind, Seq::empty(), Seq::empty());
                let s4 = s3.add_jumps(from, branches.leaves, branches.leaves.len());
                lemma_lowered_clauses_extends(clauses@, n, s2, done, self.ssa);
                lemma_add_jumps(s3, from, branches.leaves, branches.leaves.len());
                assert(after.cfg == s4.cfg);
                assert(s1.lowers_to(after)) by {
                    if s1.wf() && after.fits() {
                        assert(done.0 == s1.cfg.blocks.len());
                        assert forall|l: int|
                            0 <= l < s1.cfg.blocks.len() && l != s1.current.0 implies #[trigger] after.cfg.blocks[l]
                            == s1.cfg.blocks[l] by {
                            assert(branches.state.cfg.blocks[l] == s2.cfg.blocks[l]);
                        }
                        assert(branches.state.cfg.blocks[from.0 as int] == s2.cfg.blocks[from.0 as int]);
                        assert(s3.cfg.blocks[from.0 as int].jumps.is_prefix_of(
                            s4.cfg.blocks[from.0 as int].jumps,
                        ));
                    }
                }
                if s1.wf() && after.fits() {
                    let low = s1.cfg.blocks.len() as int;
                    let high = after.cfg.blocks.len() as int;
                    assert(done.0 == low);
                    assert(s2.cfg.blocks[done.0 as int] == BlockView::empty());
                    lemma_clauses_shape(clauses@, n, s2, done, self.ssa);
                    lemma_lowered_clauses_links(clauses@, n, s2, done, self.ssa);
                    assert(branches.state.cfg.blocks[from.0 as int] == s2.cfg.blocks[from.0 as int]);
                    assert(branches.leaves.subrange(0, branches.leaves.len() as int)
                        =~= branches.leaves);
                    let source = after.cfg.blocks[from.0 as int];
                    assert(source.ops.len() > 0);
                    assert(source.jumps_within(s1.current_block().jumps.len() as int, low, high)) by {
                        let kept = s1.current_block().jumps.len() as int;
                        assert forall|j: int| kept <= j < source.jumps.len() implies low <= (
                        #[trigger] source.jumps[j]).0 < high by {
                            assert(source.jumps[j] == branches.leaves[j - kept]);
                        }
                    }
                    let met = after.cfg.blocks[done.0 as int];
                    assert(met == meeting_block(clauses@, n, s2, done, self.ssa));
                    assert(met.phis_within(low, high)) by {
                        assert forall|p: int, e: int|
                            0 <= p < met.phi_nodes.len() && 0 <= e < met.phi_nodes[p].entries.len() implies low
                            <= (#[trigger] met.phi_nodes[p].entries[e]).0.0 < high by {
                            let end = clause_closed(clauses@, e as nat, s2, done, self.ssa).current;
                            assert(met.phi_nodes[p].entries[e].0 == end);
                        }
                    }
                    assert forall|l: int| low <= l < high implies (#[trigger] after.cfg.blocks[l]).jumps_within(
                        0,
                        low,
                        high,
                    ) && after.cfg.blocks[l].phis_within(low, high) by {
                        if l != done.0 {
                            assert(after.cfg.blocks[l] == branches.state.cfg.blocks[l]);
                            assert(after.cfg.blocks[l].jumps_within_or(low + 1, high, done));
                        }
                    }
                    assert forall|l: int| low <= l < high && l != after.current.0 implies (
                    #[trigger] after.cfg.blocks[l]).populated() by {
                        assert(after.cfg.blocks[l] == branches.state.cfg.blocks[l]);
                    }
                    assert(s1.linked_to(after));
                }
                lemma_links_trans(st, s1, after);
            },
            SingleExpressionKind::Test { .. } => {},
            SingleExpressionKind::Do(first, last) => {
                lemma_lowered_all_links(first.values@, first.values@.len(), st);
                let s1 = lowered_all(first.values@, first.values@.len(), st);
                last.lemma_lowered_links(s1);
                lemma_links_trans(st, s1, after);
            },
            SingleExpressionKind::Receive { .. } => {
                lemma_raise_links(st, Unsupported { construct: Construct::Receive, ssa: self.ssa });
            },
        }
    }
}

/// Lowering nodes in order links only blocks it adds.
pub proof fn lemma_lowered_all_links(exprs: Seq<SingleExpression>, n: nat, st: BuilderView)
    ensures
        st.links_to(lowered_all(exprs, n, st)),
    decreases exprs, n,
{
    lemma_lowered_all_extends(exprs, n, st);
    if n == 0 || n > exprs.len() {
    } else {
        lemma_lowered_all_links(exprs, (n - 1) as nat, st);
        let s1 = lowered_all(exprs, (n - 1) as nat, st);
        exprs[n - 1].lemma_lowered_links(s1);
        lemma_links_trans(st, s1, lowered_all(exprs, n, st));
    }
}

/// Lowering map entries in order links only blocks it adds.
pub proof fn lemma_lowered_entries_links(
    entries: Seq<(SingleExpression, SingleExpression)>,
    n: nat,
    st: BuilderView,
)
    ensures
        st.links_to(lowered_entries(entries, n, st)),
    decreases entries, n,
{
    lemma_lowered_entries_extends(entries, n, st);
    if n == 0 || n > entries.len() {
    } else {
        lemma_lowered_entries_links(entries, (n - 1) as nat, st);
        let s1 = lowered_entries(entries, (n - 1) as nat, st);
        entries[n - 1].0.lemma_lowered_links(s1);
        let s2 = entries[n - 1].0.lowered(s1);
        lemma_links_trans(st, s1, s2);
        entries[n - 1].1.lemma_lowered_links(s2);
        lemma_links_trans(st, s2, lowered_entries(entries, n, st));
    }
}

/// Lowering clauses leaves none of the blocks it adds empty, and links them
/// to each other and to `done` only.
pub proof fn lemma_lowered_clauses_links(
    clauses: Seq<HirClause>,
    n: nat,
    st: BuilderView,
    done: LabelN,
    ssa: SSAVariable,
)
    requires
        n <= clauses.len(),
        st.wf(),
        st.cfg.has_block(done),
        done != st.current,
        lowered_clauses(clauses, n, st, done, ssa).state.fits(),
    ensures
        clauses_linked(st, lowered_clauses(clauses, n, st, done, ssa).state, done),
    decreases clauses, n,
{
    if n > 0 {
        let m = (n - 1) as nat;
        let before = lowered_clauses(clauses, m, st, done, ssa).state;
        let label = before.next_label();
        let s1 = before.add_block().set_block(label);
        let body = clauses[m as int].body;
        let s2 = body.lowered(s1);
        let s3 = s2.basic_op(OpKindView::Jump, Seq::empty(), Seq::empty());
        let s4 = s3.add_jump(s3.current, done);
        let after = lowered_clauses(clauses, n, st, done, ssa).state;
        assert(after == s4.add_phi(s3.current, body.value_id(), done, ssa));
        body.lemma_lowered_extends(s1);
        lemma_lowered_clauses_extends(clauses, m, st, done, ssa);
        assert(before.fits());
        lemma_lowered_clauses_links(clauses, m, st, done, ssa);
        assert(label.0 == before.cfg.blocks.len());
        assert(s1.wf());
        body.lemma_lowered_links(s1);
        assert(s1.extended_to(s2) && s1.linked_to(s2));
        let low = st.cfg.blocks.len() as int;
        let mid = before.cfg.blocks.len() as int;
        let high = after.cfg.blocks.len() as int;
        let end = s3.current.0 as int;
        assert(s1.cfg.blocks[label.0 as int] == BlockView::empty());
        assert forall|l: int| low <= l < high implies {
            &&& (#[trigger] after.cfg.blocks[l]).populated()
            &&& after.cfg.blocks[l].jumps_within_or(low, high, done)
            &&& after.cfg.blocks[l].phis_within(low, high)
        } by {
            let block = after.cfg.blocks[l];
            if l < mid {
                assert(s2.cfg.blocks[l] == s1.cfg.blocks[l]);
                assert(block == before.cfg.blocks[l]);
                assert(before.cfg.blocks[l].jumps_within_or(low, mid, done));
                assert(before.cfg.blocks[l].phis_within(low, mid));
            } else {
                let lowered = s2.cfg.blocks[l];
                if l == mid {
                    assert(lowered.phi_nodes == s1.cfg.blocks[l].phi_nodes);
                    assert(lowered.jumps_within(0, mid + 1, high));
                } else {
                    assert(lowered.jumps_within(0, mid + 1, high));
                    assert(lowered.phis_within(mid + 1, high));
                }
                if l == end {
                    assert(block.ops.len() > 0);
                    assert forall|j: int| 0 <= j < block.jumps.len() implies (#[trigger] block.jumps[j])
                        == done || low <= block.jumps[j].0 < high by {
                        if j < lowered.jumps.len() {
                            assert(block.jumps[j] == lowered.jumps[j]);
                        }
                    }
                } else {
                    assert(block == lowered);
                }
            }
        }
    }
}

impl Function {
    /// In the graph of a lowered function every jump and every pair of a phi
    /// node names a block of the graph, and every block holds an operation:
    /// no block that is jumped to is left empty.
    pub proof fn lemma_lowered_linked(&self)
        requires
            self.lowered().fits(),
        ensures
            self.lowered().cfg.linked(),
            self.lowered().cfg.populated(),
    {
        let s0 = BuilderView::start(CfgView::initial());
        let s1 = s0.basic_op(OpKindView::Arguments, Seq::empty(), arg_ssas(self.args@));
        let s2 = self.body.lowered(s1);
        let after = self.lowered();
        let reads = seq![Source::Variable(self.body.value_id())];
        lemma_basic_op_links(s0, OpKindView::Arguments, Seq::empty(), arg_ssas(self.args@));
        self.body.lemma_lowered_links(s1);
        lemma_links_trans(s0, s1, s2);
        lemma_basic_op_links(s2, OpKindView::ReturnOk, reads, Seq::empty());
        lemma_links_trans(s0, s2, after);
        assert(s0.wf());
        assert(s0.extended_to(after) && s0.linked_to(after));
        assert(s0.extended_to(s2));
        let high = after.cfg.blocks.len() as int;
        assert(after.cfg.blocks[after.current.0 as int].ops.len() > 0);
        assert forall|l: int| 0 <= l < high implies (#[trigger] after.cfg.blocks[l]).jumps_within(0, 0, high)
            && after.cfg.blocks[l].phis_within(0, high) by {
            if l == 0 {
                assert(after.cfg.blocks[0].phi_nodes == s0.cfg.blocks[0].phi_nodes);
            } else {
                assert(after.cfg.blocks[l].jumps_within(0, 1, high));
                assert(after.cfg.blocks[l].phis_within(1, high));
            }
        }
        assert forall|l: int| 0 <= l < high implies (#[trigger] after.cfg.blocks[l]).populated() by {}
    }
}

} // verus!
