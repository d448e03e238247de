//! The shape of what lowering emits for a call, for a list and for a case.
use vstd::prelude::*;

use crate::ir::hir::{Clause as HirClause, SingleExpression, SingleExpressionKind};
use crate::ir::lir::cfg::{phi_position, BuilderView};
use crate::ir::lir::from_hir::frame::{
    clauses_extended, lemma_add_jumps, lemma_lowered_all_extends, lemma_lowered_clauses_extends,
    lemma_lowers_trans,
};
use crate::ir::lir::from_hir::{
    clause_patterns, lowered_all, lowered_clauses, ssas, value_ids, variables,
};
use crate::ir::lir::{BlockView, LabelN, OpKindView, OpView, PhiView, Source};
use crate::ir::SSAVariable;

verus! {

impl SingleExpression {
    /// For a call: the state when its operands are lowered and the call
    /// itself is about to be emitted.
    pub open spec fn call_ready(&self, st: BuilderView) -> BuilderView {
        match self.kind {
            SingleExpressionKind::ApplyCall { fun, args } => lowered_all(
                args@,
                args@.len(),
                fun.lowered(st),
            ),
            SingleExpressionKind::InterModuleCall { module, name, args } => lowered_all(
                args@,
                args@.len(),
                name.lowered(module.lowered(st)),
            ),
            _ => st,
        }
    }

    /// For a call: the operation that makes the call.
    pub open spec fn call_op(&self) -> OpView {
        match self.kind {
            SingleExpressionKind::ApplyCall { fun, args } => OpView {
                kind: OpKindView::Apply,
                reads: variables(seq![fun.value_id()] + value_ids(args@)),
                writes: seq![self.ssa],
            },
            SingleExpressionKind::InterModuleCall { module, name, args } => OpView {
                kind: OpKindView::Call,
                reads: variables(seq![module.value_id(), name.value_id()] + value_ids(args@)),
                writes: seq![self.ssa],
            },
            _ => arbitrary(),
        }
    }

    /// Lowering a call, of a function value or across modules, makes exactly
    /// one call block with exactly two outgoing edges. The call is appended
    /// to the block the cursor is at once the operands are lowered. Two
    /// blocks are added: one that holds a return with failure and nothing
    /// else, and an empty one where control resumes, at which the cursor is
    /// left. The call's block jumps to the resume block and to the failure
    /// block, and nowhere else, and no other block is touched.
    pub proof fn lemma_call_shape(&self, st: BuilderView)
        requires
            self.kind is ApplyCall || self.kind is InterModuleCall,
            st.wf(),
            st.open(),
            self.lowered(st).fits(),
        ensures
            ({
                let ready = self.call_ready(st);
                let after = self.lowered(st);
                let call = ready.current.0 as int;
                let throw = ready.cfg.blocks.len() as int;
                let resume = throw + 1;
                &&& ready.wf()
                &&& after.cfg.blocks.len() == ready.cfg.blocks.len() + 2
                &&& forall|l: int|
                    0 <= l < ready.cfg.blocks.len() && l != call ==> #[trigger] after.cfg.blocks[l]
                        == ready.cfg.blocks[l]
                &&& after.cfg.blocks[call] == BlockView {
                    phi_nodes: ready.cfg.blocks[call].phi_nodes,
                    ops: ready.cfg.blocks[call].ops.push(self.call_op()),
                    jumps: seq![LabelN(resume as usize), LabelN(throw as usize)],
                }
                &&& after.cfg.blocks[throw] == BlockView {
                    phi_nodes: Seq::empty(),
                    ops: seq![
                        OpView {
                            kind: OpKindView::ReturnThrow,
                            reads: Seq::empty(),
                            writes: Seq::empty(),
                        },
                    ],
                    jumps: Seq::empty(),
                }
                &&& after.cfg.blocks[resume] == BlockView::empty()
                &&& after.current == LabelN(resume as usize)
                &&& after.unsupported == ready.unsupported
            }),
    {
        let ready = self.call_ready(st);
        let after = self.lowered(st);
        match self.kind {
            SingleExpressionKind::ApplyCall { fun, args } => {
                fun.lemma_lowered_extends(st);
                lemma_lowered_all_extends(args@, args@.len(), fun.lowered(st));
                lemma_lowers_trans(st, fun.lowered(st), ready);
            },
            SingleExpressionKind::InterModuleCall { module, name, args } => {
                module.lemma_lowered_extends(st);
                name.lemma_lowered_extends(module.lowered(st));
                lemma_lowers_trans(st, module.lowered(st), name.lowered(module.lowered(st)));
                lemma_lowered_all_extends(args@, args@.len(), name.lowered(module.lowered(st)));
                lemma_lowers_trans(st, name.lowered(module.lowered(st)), ready);
            },
            _ => {},
        }
        let called = ready.basic_op(self.call_op().kind, self.call_op().reads, self.call_op().writes);
        assert(after == called.call_split());
        let throw = called.next_label();
        let s1 = called.add_block().set_block(throw);
        let s2 = s1.basic_op(OpKindView::ReturnThrow, Seq::empty(), Seq::empty());
        let resume = s2.next_label();
        let s3 = s2.add_block().set_block(resume);
        let s4 = s3.add_jump(ready.current, resume);
        assert(after == s4.add_jump(ready.current, throw));
        assert(ready.cfg.blocks[ready.current.0 as int].jumps =~= Seq::empty());
        assert(after.cfg.blocks[ready.current.0 as int].jumps =~= seq![resume, throw]);
        assert(after.cfg.blocks[throw.0 as int].ops =~= seq![
            OpView { kind: OpKindView::ReturnThrow, reads: Seq::empty(), writes: Seq::empty() },
        ]);
    }

    /// Lowering a list reads the tail first and then the head elements in
    /// order: the list is made by the last operation of the block the cursor
    /// is left at, whose reads are the tail's identifier and then those of
    /// the head elements. For a head of `a` and `b` and a tail `t`, the reads
    /// are `t`, `a`, `b`.
    pub proof fn lemma_list_reads(&self, st: BuilderView)
        requires
            self.kind is List,
            st.wf(),
            self.lowered(st).fits(),
        ensures
            ({
                let head = self.kind->List_head@;
                let tail = self.kind->List_tail;
                let made = self.lowered(st).current_block().ops;
                &&& made.len() > 0
                &&& made.last() == OpView {
                    kind: OpKindView::MakeList,
                    reads: seq![Source::Variable(tail.ssa)] + variables(ssas(head)),
                    writes: seq![self.ssa],
                }
                &&& head.len() == 2 ==> made.last().reads == seq![
                    Source::Variable(tail.ssa),
                    Source::Variable(head[0].ssa),
                    Source::Variable(head[1].ssa),
                ]
            }),
    {
        let head = self.kind->List_head@;
        let tail = self.kind->List_tail;
        tail.lemma_lowered_extends(st);
        lemma_lowered_all_extends(head, head.len(), tail.lowered(st));
        lemma_lowers_trans(st, tail.lowered(st), lowered_all(head, head.len(), tail.lowered(st)));
        if head.len() == 2 {
            assert(seq![Source::Variable(tail.ssa)] + variables(ssas(head)) =~= seq![
                Source::Variable(tail.ssa),
                Source::Variable(head[0].ssa),
                Source::Variable(head[1].ssa),
            ]);
        }
    }
}

/// The operation that closes a clause: an unconditional jump.
pub open spec fn jump_op() -> OpView {
    OpView { kind: OpKindView::Jump, reads: Seq::empty(), writes: Seq::empty() }
}

/// The label of the block in which the body of clause `k` starts.
pub open spec fn clause_entry(
    clauses: Seq<HirClause>,
    k: nat,
    st: BuilderView,
    done: LabelN,
    ssa: SSAVariable,
) -> LabelN {
    lowered_clauses(clauses, k, st, done, ssa).state.next_label()
}

/// The state when the body of clause `k` is lowered and closed by its jump
/// operation: the cursor is at the block where the clause ends.
pub open spec fn clause_closed(
    clauses: Seq<HirClause>,
    k: nat,
    st: BuilderView,
    done: LabelN,
    ssa: SSAVariable,
) -> BuilderView {
    let before = lowered_clauses(clauses, k, st, done, ssa).state;
    clauses[k as int].body.lowered(before.add_block().set_block(before.next_label())).basic_op(
        OpKindView::Jump,
        Seq::empty(),
        Seq::empty(),
    )
}

/// For each of the first `n` clauses, the block where it ends and the
/// identifier that holds its value.
pub open spec fn clause_pairs(
    clauses: Seq<HirClause>,
    n: nat,
    st: BuilderView,
    done: LabelN,
    ssa: SSAVariable,
) -> Seq<(LabelN, SSAVariable)> {
    Seq::new(
        n,
        |k: int|
            (
                clause_closed(clauses, k as nat, st, done, ssa).current,
                clauses[k].body.value_id(),
            ),
    )
}

/// The block that the clauses of a case meet in, after `n` clauses: it holds
/// nothing but one phi node for `ssa`, with one pair per clause.
pub open spec fn meeting_block(
    clauses: Seq<HirClause>,
    n: nat,
    st: BuilderView,
    done: LabelN,
    ssa: SSAVariable,
) -> BlockView {
    BlockView {
        phi_nodes: if n == 0 {
            Seq::empty()
        } else {
            seq![PhiView { ssa, entries: clause_pairs(clauses, n, st, done, ssa) }]
        },
        ops: Seq::empty(),
        jumps: Seq::empty(),
    }
}

/// What the first `n` clauses of a case come to, lowered from a state in
/// which the block `done` is empty and is not the one the cursor is at. The
/// clauses start in blocks of their own, which come in clause order. Each
/// clause ends in a block whose last operation is a jump and whose one edge
/// leads to `done`, and `done` holds one phi node with one pair per clause.
pub proof fn lemma_clauses_shape(
    clauses: Seq<HirClause>,
    n: nat,
    st: BuilderView,
    done: LabelN,
    ssa: SSAVariable,
)
    requires
        n <= clauses.len(),
        st.wf(),
        st.cfg.has_block(done),
        done != st.current,
        st.cfg.blocks[done.0 as int] == BlockView::empty(),
        lowered_clauses(clauses, n, st, done, ssa).state.fits(),
    ensures
        ({
            let after = lowered_clauses(clauses, n, st, done, ssa);
            &&& clauses_extended(st, after.state, done, n)
            &&& after.leaves.len() == n
            &&& forall|k: int|
                0 <= k < n ==> #[trigger] after.leaves[k] == clause_entry(
                    clauses,
                    k as nat,
                    st,
                    done,
                    ssa,
                )
            &&& forall|k: int|
                0 <= k < n ==> st.cfg.blocks.len() <= (#[trigger] after.leaves[k]).0
                    < after.state.cfg.blocks.len()
            &&& forall|j: int, k: int|
                0 <= j < k < n ==> (#[trigger] after.leaves[j]).0 < (#[trigger] after.leaves[k]).0
            &&& after.state.cfg.blocks[done.0 as int] == meeting_block(clauses, n, st, done, ssa)
            &&& forall|k: int|
                0 <= k < n ==> {
                    let end = (#[trigger] clause_closed(clauses, k as nat, st, done, ssa)).current;
                    &&& st.cfg.blocks.len() <= end.0 < after.state.cfg.blocks.len()
                    &&& after.state.cfg.blocks[end.0 as int].jumps == seq![done]
                    &&& after.state.cfg.blocks[end.0 as int].ops.len() > 0
                    &&& after.state.cfg.blocks[end.0 as int].ops.last() == jump_op()
                }
        }),
    decreases n,
{
    lemma_lowered_clauses_extends(clauses, n, st, done, ssa);
    let after = lowered_clauses(clauses, n, st, done, ssa);
    if n == 0 {
    } else {
        let m = (n - 1) as nat;
        let before = lowered_clauses(clauses, m, st, done, ssa);
        let label = before.state.next_label();
        let s1 = before.state.add_block().set_block(label);
        let body = clauses[m as int].body;
        let s2 = body.lowered(s1);
        let s3 = s2.basic_op(OpKindView::Jump, Seq::empty(), Seq::empty());
        let s4 = s3.add_jump(s3.current, done);
        assert(s3 == clause_closed(clauses, m, st, done, ssa));
        assert(after.state == s4.add_phi(s3.current, body.value_id(), done, ssa));
        // No block is taken away on the way, so the states before fit too.
        body.lemma_lowered_extends(s1);
        lemma_lowered_clauses_extends(clauses, m, st, done, ssa);
        assert(before.state.fits());
        lemma_clauses_shape(clauses, m, st, done, ssa);
        assert(label.0 == before.state.cfg.blocks.len());
        assert(s1.wf() && s1.open());
        assert(s1.extended_to(s2));
        let end = s3.current;
        assert(end.0 != done.0);
        // The meeting block gets the pair of this clause.
        let met = meeting_block(clauses, m, st, done, ssa);
        assert(s4.cfg.blocks[done.0 as int] == met);
        let pairs = clause_pairs(clauses, n, st, done, ssa);
        assert(pairs =~= clause_pairs(clauses, m, st, done, ssa).push((end, body.value_id())));
        if m == 0 {
            assert(phi_position(met.phi_nodes, ssa, 0) == 0);
            assert(pairs =~= seq![(end, body.value_id())]);
            assert(after.state.cfg.blocks[done.0 as int].phi_nodes =~= seq![
                PhiView { ssa, entries: pairs },
            ]);
        } else {
            assert(phi_position(met.phi_nodes, ssa, 0) == 0);
            assert(after.state.cfg.blocks[done.0 as int].phi_nodes =~= seq![
                PhiView { ssa, entries: pairs },
            ]);
        }
        assert(after.state.cfg.blocks[done.0 as int] == meeting_block(clauses, n, st, done, ssa));
        // The clause ends in a block with one edge, to the meeting block.
        assert(s2.cfg.blocks[end.0 as int].jumps =~= Seq::empty());
        assert(after.state.cfg.blocks[end.0 as int].jumps =~= seq![done]);
        assert(after.leaves =~= before.leaves.push(label));
        assert forall|k: int| 0 <= k < n implies {
            let e = (#[trigger] clause_closed(clauses, k as nat, st, done, ssa)).current;
            &&& st.cfg.blocks.len() <= e.0 < after.state.cfg.blocks.len()
            &&& after.state.cfg.blocks[e.0 as int].jumps == seq![done]
            &&& after.state.cfg.blocks[e.0 as int].ops.len() > 0
            &&& after.state.cfg.blocks[e.0 as int].ops.last() == jump_op()
        } by {
            if k < m {
                let e = clause_closed(clauses, k as nat, st, done, ssa).current;
                assert(s2.cfg.blocks[e.0 as int] == s1.cfg.blocks[e.0 as int]);
            }
        }
    }
}

impl SingleExpression {
    /// For a case: the state when the values matched and the values the
    /// patterns refer to are lowered.
    pub open spec fn case_ready(&self, st: BuilderView) -> BuilderView {
        match self.kind {
            SingleExpressionKind::Case { val, values, .. } => lowered_all(
                values@,
                values@.len(),
                lowered_all(val.values@, val.values@.len(), st),
            ),
            _ => st,
        }
    }

    /// For a case: the operation that marks it.
    pub open spec fn case_op(&self) -> OpView {
        match self.kind {
            SingleExpressionKind::Case { val, clauses, values } => OpView {
                kind: OpKindView::Case {
                    vars: ssas(val.values@),
                    clauses: clause_patterns(clauses@),
                    value_vars: ssas(values@),
                },
                reads: Seq::empty(),
                writes: Seq::empty(),
            },
            _ => arbitrary(),
        }
    }

    /// Lowering a case of N clauses makes one source block with N outgoing
    /// edges in clause order, N clause blocks that each jump to one shared
    /// block, and in the shared block one phi node for the identifier of the
    /// case, with exactly N pairs, one per clause.
    ///
    /// The source block is the block the cursor is at once the values are
    /// lowered; the marker of the case is its last operation, and its edges
    /// lead to the blocks where the clauses start, which are new and come in
    /// clause order. Each clause ends in a block whose last operation is a
    /// jump and whose one edge leads to the shared block. The shared block is
    /// new, holds nothing but the phi node, and the cursor is left at it.
    pub proof fn lemma_case_shape(&self, st: BuilderView)
        requires
            self.kind is Case,
            st.wf(),
            st.open(),
            self.lowered(st).fits(),
        ensures
            ({
                let clauses = self.kind->Case_clauses@;
                let ready = self.case_ready(st);
                let after = self.lowered(st);
                let from = ready.current;
                let done = ready.next_label();
                let n = clauses.len();
                let source = after.cfg.blocks[from.0 as int];
                &&& ready.wf()
                &&& done.0 == ready.cfg.blocks.len()
                &&& after.current == done
                &&& source.phi_nodes == ready.cfg.blocks[from.0 as int].phi_nodes
                &&& source.ops == ready.cfg.blocks[from.0 as int].ops.push(self.case_op())
                &&& source.jumps.len() == n
                &&& forall|k: int|
                    0 <= k < n ==> #[trigger] source.jumps[k] == clause_entry(
                        clauses,
                        k as nat,
                        ready.add_block(),
                        done,
                        self.ssa,
                    )
                &&& forall|k: int|
                    0 <= k < n ==> done.0 < (#[trigger] source.jumps[k]).0 < after.cfg.blocks.len()
                &&& forall|j: int, k: int|
                    0 <= j < k < n ==> (#[trigger] source.jumps[j]).0 < (#[trigger] source.jumps[k]).0
                &&& forall|k: int|
                    0 <= k < n ==> {
                        let end = (#[trigger] clause_closed(
                            clauses,
                            k as nat,
                            ready.add_block(),
                            done,
                            self.ssa,
                        )).current;
                        &&& done.0 < end.0 < after.cfg.blocks.len()
                        &&& after.cfg.blocks[end.0 as int].jumps == seq![done]
                        &&& after.cfg.blocks[end.0 as int].ops.len() > 0
                        &&& after.cfg.blocks[end.0 as int].ops.last() == jump_op()
                    }
                &&& after.cfg.blocks[done.0 as int] == meeting_block(
                    clauses,
                    n,
                    ready.add_block(),
                    done,
                    self.ssa,
                )
                &&& clause_pairs(clauses, n, ready.add_block(), done, self.ssa).len() == n
                &&& forall|l: int|
                    0 <= l < ready.cfg.blocks.len() && l != from.0 ==> #[trigger] after.cfg.blocks[l]
                        == ready.cfg.blocks[l]
            }),
    {
        let val = self.kind->Case_val;
        let values = self.kind->Case_values@;
        let clauses = self.kind->Case_clauses@;
        let s0 = lowered_all(val.values@, val.values@.len(), st);
        let ready = self.case_ready(st);
        lemma_lowered_all_extends(val.values@, val.values@.len(), st);
        lemma_lowered_all_extends(values, values.len(), s0);
        lemma_lowers_trans(st, s0, ready);
        let from = ready.current;
        let done = ready.next_label();
        let s2 = ready.add_block();
        let branches = lowered_clauses(clauses, clauses.len(), s2, done, self.ssa);
        let s3 = branches.state.set_block(from).basic_op(
            self.case_op().kind,
            Seq::empty(),
            Seq::empty(),
        );
        let s4 = s3.add_jumps(from, branches.leaves, branches.leaves.len());
        let after = self.lowered(st);
        lemma_lowered_clauses_extends(clauses, clauses.len(), s2, done, self.ssa);
        lemma_add_jumps(s3, from, branches.leaves, branches.leaves.len());
        assert(after.cfg == s4.cfg);
        assert(branches.state.fits());
        assert(ready.wf() && ready.open());
        assert(done.0 == ready.cfg.blocks.len());
        assert(s2.cfg.blocks[done.0 as int] == BlockView::empty());
        lemma_clauses_shape(clauses, clauses.len(), s2, done, self.ssa);
        assert(branches.state.cfg.blocks[from.0 as int] == s2.cfg.blocks[from.0 as int]);
        assert(branches.leaves.subrange(0, branches.leaves.len() as int) =~= branches.leaves);
        assert(after.cfg.blocks[from.0 as int].jumps =~= branches.leaves);
        assert forall|l: int| 0 <= l < ready.cfg.blocks.len() && l != from.0 implies #[trigger] after.cfg.blocks[l]
            == ready.cfg.blocks[l] by {
            assert(branches.state.cfg.blocks[l] == s2.cfg.blocks[l]);
        }
    }
}

} // verus!
