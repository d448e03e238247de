//! Lowering: from the tree form of a function to its graph form.
//!
//! Lowering a node appends to the graph under construction whatever computes
//! the node's value, and leaves the cursor at the block where control goes on.
//! What it appends is stated once, as a function from the node and the state
//! of the builder to the state after it: [`SingleExpression::lowered`].
use vstd::prelude::*;

use crate::ir::hir::pass::ssa::ScopeTracker;
use crate::ir::hir::{
    Clause as HirClause, Function, Pattern, PatternView, SingleExpression, SingleExpressionKind,
};
use crate::ir::lir::cfg::{BuilderView, Construct, FunctionCfgBuilder, Unsupported};
use crate::ir::lir::{
    lemma_views_push, views, CfgView, Clause, FunctionCfg, LabelN, OpKind, OpKindView, Source,
};
use crate::ir::{AVariable, FunctionDefinition, FunctionIdent, Module, SSAVariable};

pub mod frame;
pub mod links;
pub mod naming;
pub mod shape;

verus! {

/// The identifiers of the nodes `exprs`, in order.
pub open spec fn ssas(exprs: Seq<SingleExpression>) -> Seq<SSAVariable> {
    Seq::new(exprs.len(), |i: int| exprs[i].ssa)
}

/// The identifiers that hold the values of `exprs`, in order.
pub open spec fn value_ids(exprs: Seq<SingleExpression>) -> Seq<SSAVariable> {
    Seq::new(exprs.len(), |i: int| exprs[i].value_id())
}

/// The identifiers of keys and values in turn: key, value, key, value.
pub open spec fn entry_ssas(
    entries: Seq<(SingleExpression, SingleExpression)>,
) -> Seq<SSAVariable> {
    Seq::new(
        2 * entries.len(),
        |i: int|
            if i % 2 == 0 {
                entries[i / 2].0.ssa
            } else {
                entries[i / 2].1.ssa
            },
    )
}

/// The identifiers of the parameters `args`, in order.
pub open spec fn arg_ssas(args: Seq<AVariable>) -> Seq<SSAVariable> {
    Seq::new(args.len(), |i: int| args[i].ssa)
}

/// Reads of the identifiers `ids`, in order.
pub open spec fn variables(ids: Seq<SSAVariable>) -> Seq<Source> {
    Seq::new(ids.len(), |i: int| Source::Variable(ids[i]))
}

/// The pattern lists of `clauses`, in order.
pub open spec fn clause_patterns(clauses: Seq<HirClause>) -> Seq<Seq<PatternView>> {
    Seq::new(clauses.len(), |i: int| views(clauses[i].patterns@))
}

/// The state after lowering some clauses of a case, and the labels of the
/// blocks where those clauses start.
pub struct ClauseLowering {
    pub state: BuilderView,
    pub leaves: Seq<LabelN>,
}

impl BuilderView {
    /// After the split that follows a call: a block that only returns with a
    /// failure, and an empty block where control resumes. The call's block
    /// jumps to the resume block and to the failure block, in this order, and
    /// the cursor is at the resume block.
    pub open spec fn call_split(self) -> BuilderView {
        let call = self.current;
        let throw = self.next_label();
        let thrown = self.add_block().set_block(throw).basic_op(
            OpKindView::ReturnThrow,
            Seq::empty(),
            Seq::empty(),
        );
        let resume = thrown.next_label();
        thrown.add_block().set_block(resume).add_jump(call, resume).add_jump(call, throw)
    }

    /// After edges from `from` to the first `n` of `targets` were added, in
    /// order.
    pub open spec fn add_jumps(self, from: LabelN, targets: Seq<LabelN>, n: nat) -> BuilderView
        decreases n,
    {
        if n == 0 || n > targets.len() {
            self
        } else {
            self.add_jumps(from, targets, (n - 1) as nat).add_jump(from, targets[n - 1])
        }
    }
}

impl SingleExpression {
    /// Whether lowering has a rule for this node and for every node below it
    /// that lowering reaches. It has none for a test node, nor for a closure
    /// binding that lacks its call target or its environment slot.
    pub open spec fn lowerable(&self) -> bool
        decreases self,
    {
        match self.kind {
            SingleExpressionKind::Variable(_) => true,
            SingleExpressionKind::NamedFunction { .. } => true,
            SingleExpressionKind::BindClosure { closure, lambda_env, .. } => closure.ident is Some
                && lambda_env is Some,
            SingleExpressionKind::BindClosures { lambda_env, body, .. } => lambda_env is Some
                && body.lowerable(),
            SingleExpressionKind::Atomic(_) => true,
            SingleExpressionKind::Tuple(elems) => all_lowerable(elems@),
            SingleExpressionKind::List { head, tail } => tail.lowerable() && all_lowerable(head@),
            SingleExpressionKind::KeyValue(entries) => forall|i: int|
                0 <= i < entries@.len() ==> (#[trigger] entries@[i]).0.lowerable()
                    && entries@[i].1.lowerable(),
            SingleExpressionKind::PrimOp { args, .. } => all_lowerable(args@),
            SingleExpressionKind::ApplyCall { fun, args } => fun.lowerable() && all_lowerable(args@),
            SingleExpressionKind::InterModuleCall { module, name, args } => module.lowerable()
                && name.lowerable() && all_lowerable(args@),
            SingleExpressionKind::Let { val, body, .. } => all_lowerable(val.values@)
                && body.lowerable(),
            SingleExpressionKind::Try { body, then, .. } => all_lowerable(body.values@)
                && then.lowerable(),
            SingleExpressionKind::Case { val, clauses, values } => all_lowerable(val.values@)
                && all_lowerable(values@) && forall|i: int|
                0 <= i < clauses@.len() ==> (#[trigger] clauses@[i]).body.lowerable(),
            SingleExpressionKind::Test { .. } => false,
            SingleExpressionKind::Do(first, last) => all_lowerable(first.values@)
                && last.lowerable(),
            SingleExpressionKind::Receive { .. } => true,
        }
    }

    /// The identifier that holds the node's value once the node is lowered:
    /// the node's own, but for a let, a try and a sequencing, whose value is
    /// that of the part lowered last.
    pub open spec fn value_id(&self) -> SSAVariable
        decreases self,
    {
        match self.kind {
            SingleExpressionKind::Let { body, .. } => body.value_id(),
            SingleExpressionKind::Try { then, .. } => then.value_id(),
            SingleExpressionKind::Do(_, last) => last.value_id(),
            _ => self.ssa,
        }
    }

    /// The state of the builder after this node was lowered from state `st`.
    pub open spec fn lowered(&self, st: BuilderView) -> BuilderView
        decreases self, 0nat,
    {
        match self.kind {
            // Assumed defined: nothing is emitted.
            SingleExpressionKind::Variable(_) => st,
            // A lambda-local binding is already there; any other name is
            // captured as a call target.
            SingleExpressionKind::NamedFunction { name, is_lambda } => if is_lambda {
                st
            } else {
                st.basic_op(
                    OpKindView::CaptureNamedFunction(
                        FunctionIdent { name: name.var.name, arity: name.var.arity, lambda: None },
                    ),
                    Seq::empty(),
                    seq![self.ssa],
                )
            },
            // The environment, then the call target bound to it.
            SingleExpressionKind::BindClosure { closure, lambda_env, env_ssa } => st.basic_op(
                OpKindView::MakeClosureEnv { env_idx: lambda_env.unwrap() },
                Seq::empty(),
                seq![env_ssa],
            ).basic_op(
                OpKindView::BindClosure { ident: closure.ident.unwrap() },
                seq![Source::Variable(env_ssa)],
                seq![self.ssa],
            ),
            // The shared environment, then the body.
            SingleExpressionKind::BindClosures { lambda_env, body, env_ssa, .. } => body.lowered(
                st.basic_op(
                    OpKindView::MakeClosureEnv { env_idx: lambda_env.unwrap() },
                    Seq::empty(),
                    seq![env_ssa],
                ),
            ).raise(Unsupported { construct: Construct::BatchClosureIdentity, ssa: self.ssa }),
            SingleExpressionKind::Atomic(literal) => st.basic_op(
                OpKindView::Move,
                seq![Source::Constant(literal)],
                seq![self.ssa],
            ),
            SingleExpressionKind::Tuple(elems) => lowered_all(elems@, elems@.len(), st).basic_op(
                OpKindView::MakeTuple,
                variables(ssas(elems@)),
                seq![self.ssa],
            ),
            // The tail first, then the head; the tail is read first.
            SingleExpressionKind::List { head, tail } => lowered_all(
                head@,
                head@.len(),
                tail.lowered(st),
            ).basic_op(
                OpKindView::MakeList,
                seq![Source::Variable(tail.ssa)] + variables(ssas(head@)),
                seq![self.ssa],
            ),
            SingleExpressionKind::KeyValue(entries) => lowered_entries(
                entries@,
                entries@.len(),
                st,
            ).basic_op(OpKindView::MakeMap, variables(entry_ssas(entries@)), seq![self.ssa]),
            // Nothing is written: binding the value is the caller's concern.
            SingleExpressionKind::PrimOp { name, args } => lowered_all(args@, args@.len(), st).basic_op(
                OpKindView::PrimOp(name),
                variables(ssas(args@)),
                Seq::empty(),
            ),
            SingleExpressionKind::ApplyCall { fun, args } => lowered_all(
                args@,
                args@.len(),
                fun.lowered(st),
            ).basic_op(
                OpKindView::Apply,
                variables(seq![fun.value_id()] + value_ids(args@)),
                seq![self.ssa],
            ).call_split(),
            SingleExpressionKind::InterModuleCall { module, name, args } => lowered_all(
                args@,
                args@.len(),
                name.lowered(module.lowered(st)),
            ).basic_op(
                OpKindView::Call,
                variables(seq![module.value_id(), name.value_id()] + value_ids(args@)),
                seq![self.ssa],
            ).call_split(),
            SingleExpressionKind::Let { val, body, .. } => body.lowered(
                lowered_all(val.values@, val.values@.len(), st),
            ),
            // The catch continuation is left out of the graph.
            SingleExpressionKind::Try { body, then, .. } => then.lowered(
                lowered_all(body.values@, body.values@.len(), st),
            ).raise(Unsupported { construct: Construct::TryCatch, ssa: self.ssa }),
            // The values matched and the values the patterns refer to; then a
            // block for what follows the case, and the clauses, each in blocks
            // of its own. Back in the block the case started in: the marker,
            // and a jump to every clause.
            SingleExpressionKind::Case { val, clauses, values } => {
                let scrutinised = lowered_all(
                    values@,
                    values@.len(),
                    lowered_all(val.values@, val.values@.len(), st),
                );
                let from = scrutinised.current;
                let done = scrutinised.next_label();
                let branches = lowered_clauses(
                    clauses@,
                    clauses@.len(),
                    scrutinised.add_block(),
                    done,
                    self.ssa,
                );
                branches.state.set_block(from).basic_op(
                    OpKindView::Case {
                        vars: ssas(val.values@),
                        clauses: clause_patterns(clauses@),
                        value_vars: ssas(values@),
                    },
                    Seq::empty(),
                    Seq::empty(),
                ).add_jumps(from, branches.leaves, branches.leaves.len()).set_block(done).raise(
                    Unsupported { construct: Construct::CaseDiscrimination, ssa: self.ssa },
                )
            },
            SingleExpressionKind::Test { .. } => st,
            SingleExpressionKind::Do(first, last) => last.lowered(
                lowered_all(first.values@, first.values@.len(), st),
            ),
            // Nothing is emitted.
            SingleExpressionKind::Receive { .. } => st.raise(
                Unsupported { construct: Construct::Receive, ssa: self.ssa },
            ),
        }
    }
}

/// Whether lowering has a rule for each of `exprs`.
pub open spec fn all_lowerable(exprs: Seq<SingleExpression>) -> bool
    decreases exprs,
{
    forall|i: int| 0 <= i < exprs.len() ==> (#[trigger] exprs[i]).lowerable()
}

/// The state after the first `n` of `exprs` were lowered in order from `st`.
pub open spec fn lowered_all(exprs: Seq<SingleExpression>, n: nat, st: BuilderView) -> BuilderView
    decreases exprs, n,
{
    if n == 0 || n > exprs.len() {
        st
    } else {
        exprs[n - 1].lowered(lowered_all(exprs, (n - 1) as nat, st))
    }
}

/// The state after the first `n` of `entries` were lowered in order from
/// `st`, each key before its value.
pub open spec fn lowered_entries(
    entries: Seq<(SingleExpression, SingleExpression)>,
    n: nat,
    st: BuilderView,
) -> BuilderView
    decreases entries, n,
{
    if n == 0 || n > entries.len() {
        st
    } else {
        entries[n - 1].1.lowered(
            entries[n - 1].0.lowered(lowered_entries(entries, (n - 1) as nat, st)),
        )
    }
}

/// After the first `n` of `clauses` were lowered in order from `st`. Each
/// clause gets a new block, in which its body is lowered; where the body ends,
/// a jump leads to the block `done`, and the phi node of `done` for `ssa`
/// learns that the body's value comes from there.
pub open spec fn lowered_clauses(
    clauses: Seq<HirClause>,
    n: nat,
    st: BuilderView,
    done: LabelN,
    ssa: SSAVariable,
) -> ClauseLowering
    decreases clauses, n,
{
    if n == 0 || n > clauses.len() {
        ClauseLowering { state: st, leaves: Seq::empty() }
    } else {
        let before = lowered_clauses(clauses, (n - 1) as nat, st, done, ssa);
        let label = before.state.next_label();
        let body = clauses[n - 1].body.lowered(before.state.add_block().set_block(label)).basic_op(
            OpKindView::Jump,
            Seq::empty(),
            Seq::empty(),
        );
        ClauseLowering {
            state: body.add_jump(body.current, done).add_phi(
                body.current,
                clauses[n - 1].body.value_id(),
                done,
                ssa,
            ),
            leaves: before.leaves.push(label),
        }
    }
}

/// What every step of lowering keeps: the entry and the cursor name blocks,
/// no block is taken away, and the entry stays.
pub open spec fn grown(before: BuilderView, after: BuilderView) -> bool {
    &&& after.wf()
    &&& after.cfg.blocks.len() >= before.cfg.blocks.len()
    &&& after.cfg.entry == before.cfg.entry
}

/// Appends to `reads` a read of each identifier of `ids`.
fn push_variables(ids: &Vec<SSAVariable>, reads: &mut Vec<Source>)
    ensures
        final(reads)@ == old(reads)@ + variables(ids@),
{
    let mut i: usize = 0;
    while i < ids.len()
        invariant
            i <= ids.len(),
            reads@ == old(reads)@ + variables(ids@).subrange(0, i as int),
        decreases ids.len() - i,
    {
        reads.push(Source::Variable(ids[i]));
        i = i + 1;
        assert(reads@ =~= old(reads)@ + variables(ids@).subrange(0, i as int));
    }
    assert(variables(ids@).subrange(0, i as int) =~= variables(ids@));
}

/// The identifiers of the nodes `exprs`, in order.
fn node_ssas(exprs: &Vec<SingleExpression>) -> (r: Vec<SSAVariable>)
    ensures
        r@ == ssas(exprs@),
{
    let mut r: Vec<SSAVariable> = Vec::new();
    let mut i: usize = 0;
    while i < exprs.len()
        invariant
            i <= exprs.len(),
            r@ == ssas(exprs@).subrange(0, i as int),
        decreases exprs.len() - i,
    {
        r.push(exprs[i].ssa);
        i = i + 1;
        assert(r@ =~= ssas(exprs@).subrange(0, i as int));
    }
    assert(ssas(exprs@).subrange(0, i as int) =~= ssas(exprs@));
    r
}

/// The identifiers of keys and values in turn.
fn entry_node_ssas(entries: &Vec<(SingleExpression, SingleExpression)>) -> (r: Vec<SSAVariable>)
    ensures
        r@ == entry_ssas(entries@),
{
    let mut r: Vec<SSAVariable> = Vec::new();
    let mut i: usize = 0;
    while i < entries.len()
        invariant
            i <= entries.len(),
            r@ == entry_ssas(entries@).subrange(0, 2 * i),
        decreases entries.len() - i,
    {
        r.push(entries[i].0.ssa);
        r.push(entries[i].1.ssa);
        i = i + 1;
        assert(r@ =~= entry_ssas(entries@).subrange(0, 2 * i));
    }
    assert(entry_ssas(entries@).subrange(0, 2 * i) =~= entry_ssas(entries@));
    r
}

/// A copy of the pattern list of each clause, in order.
fn copy_patterns(clauses: &Vec<HirClause>) -> (r: Vec<Clause>)
    ensures
        views(r@) == clause_patterns(clauses@),
{
    let mut r: Vec<Clause> = Vec::new();
    let mut i: usize = 0;
    while i < clauses.len()
        invariant
            i <= clauses.len(),
            views(r@) == clause_patterns(clauses@).subrange(0, i as int),
        decreases clauses.len() - i,
    {
        let source = &clauses[i].patterns;
        let mut patterns: Vec<Pattern> = Vec::new();
        let mut j: usize = 0;
        while j < source.len()
            invariant
                j <= source.len(),
                views(patterns@) == views(source@).subrange(0, j as int),
            decreases source.len() - j,
        {
            let ghost before = patterns@;
            let pattern = source[j].clone();
            patterns.push(pattern);
            j = j + 1;
            proof {
                lemma_views_push(before, pattern);
            }
            assert(views(patterns@) =~= views(source@).subrange(0, j as int));
        }
        assert(views(source@).subrange(0, j as int) =~= views(source@));
        let ghost before = r@;
        let clause = Clause { patterns };
        r.push(clause);
        i = i + 1;
        proof {
            lemma_views_push(before, clause);
        }
        assert(views(r@) =~= clause_patterns(clauses@).subrange(0, i as int));
    }
    assert(clause_patterns(clauses@).subrange(0, i as int) =~= clause_patterns(clauses@));
    r
}

/// Emits the split that follows a call.
fn split_after_call(b: &mut FunctionCfgBuilder)
    requires
        old(b)@.wf(),
    ensures
        final(b)@ == old(b)@.call_split(),
        grown(old(b)@, final(b)@),
{
    let prev_block = b.get_block();
    let throw_block = b.add_block();
    b.set_block(throw_block);
    b.basic_op(OpKind::ReturnThrow, Vec::new(), Vec::new());
    let resume_block = b.add_block();
    b.set_block(resume_block);
    b.add_jump(prev_block, resume_block);
    b.add_jump(prev_block, throw_block);
}

/// Lowers `exprs` in order and returns the identifiers that hold their values.
fn lower_all(
    exprs: &Vec<SingleExpression>,
    b: &mut FunctionCfgBuilder,
    env: &mut ScopeTracker,
) -> (r: Vec<SSAVariable>)
    requires
        all_lowerable(exprs@),
        old(b)@.wf(),
    ensures
        final(b)@ == lowered_all(exprs@, exprs@.len(), old(b)@),
        grown(old(b)@, final(b)@),
        r@ == value_ids(exprs@),
        *final(env) == *old(env),
    decreases exprs, 0nat,
{
    let mut ids: Vec<SSAVariable> = Vec::new();
    let mut i: usize = 0;
    while i < exprs.len()
        invariant
            i <= exprs.len(),
            all_lowerable(exprs@),
            b@ == lowered_all(exprs@, i as nat, old(b)@),
            grown(old(b)@, b@),
            ids@ == value_ids(exprs@).subrange(0, i as int),
            *env == *old(env),
        decreases exprs.len() - i,
    {
        let id = exprs[i].lower(b, env);
        ids.push(id);
        i = i + 1;
        assert(ids@ =~= value_ids(exprs@).subrange(0, i as int));
    }
    assert(value_ids(exprs@).subrange(0, i as int) =~= value_ids(exprs@));
    ids
}

/// Lowers `entries` in order, each key before its value.
fn lower_entries(
    entries: &Vec<(SingleExpression, SingleExpression)>,
    b: &mut FunctionCfgBuilder,
    env: &mut ScopeTracker,
)
    requires
        forall|i: int|
            0 <= i < entries@.len() ==> (#[trigger] entries@[i]).0.lowerable()
                && entries@[i].1.lowerable(),
        old(b)@.wf(),
    ensures
        final(b)@ == lowered_entries(entries@, entries@.len(), old(b)@),
        grown(old(b)@, final(b)@),
        *final(env) == *old(env),
    decreases entries, 0nat,
{
    let mut i: usize = 0;
    while i < entries.len()
        invariant
            i <= entries.len(),
            forall|i: int|
                0 <= i < entries@.len() ==> (#[trigger] entries@[i]).0.lowerable()
                    && entries@[i].1.lowerable(),
            b@ == lowered_entries(entries@, i as nat, old(b)@),
            grown(old(b)@, b@),
            *env == *old(env),
        decreases entries.len() - i,
    {
        assert(decreases_to!(entries@[i as int] => entries@[i as int].0));
        assert(decreases_to!(entries@[i as int] => entries@[i as int].1));
        entries[i].0.lower(b, env);
        entries[i].1.lower(b, env);
        i = i + 1;
    }
}

/// Lowers `clauses` in order, each into blocks of its own that end in a jump
/// to `done`, and returns the labels of the blocks where they start.
fn lower_clauses(
    clauses: &Vec<HirClause>,
    b: &mut FunctionCfgBuilder,
    env: &mut ScopeTracker,
    done: LabelN,
    ssa: SSAVariable,
) -> (leaves: Vec<LabelN>)
    requires
        forall|i: int| 0 <= i < clauses@.len() ==> (#[trigger] clauses@[i]).body.lowerable(),
        old(b)@.wf(),
        old(b)@.cfg.has_block(done),
    ensures
        final(b)@ == lowered_clauses(clauses@, clauses@.len(), old(b)@, done, ssa).state,
        leaves@ == lowered_clauses(clauses@, clauses@.len(), old(b)@, done, ssa).leaves,
        grown(old(b)@, final(b)@),
        *final(env) == *old(env),
    decreases clauses, 0nat,
{
    let mut leaves: Vec<LabelN> = Vec::new();
    let mut i: usize = 0;
    while i < clauses.len()
        invariant
            i <= clauses.len(),
            forall|i: int| 0 <= i < clauses@.len() ==> (#[trigger] clauses@[i]).body.lowerable(),
            b@ == lowered_clauses(clauses@, i as nat, old(b)@, done, ssa).state,
            leaves@ == lowered_clauses(clauses@, i as nat, old(b)@, done, ssa).leaves,
            grown(old(b)@, b@),
            old(b)@.cfg.has_block(done),
            *env == *old(env),
        decreases clauses.len() - i,
    {
        assert(decreases_to!(clauses@[i as int] => clauses@[i as int].body));
        let clause_label = b.add_block();
        b.set_block(clause_label);
        let clause_ret = clauses[i].body.lower(b, env);
        b.basic_op(OpKind::Jump, Vec::new(), Vec::new());
        let clause_done_label = b.get_block();
        b.add_jump(clause_done_label, done);
        b.add_phi(clause_done_label, clause_ret, done, ssa);
        leaves.push(clause_label);
        i = i + 1;
    }
    leaves
}

impl SingleExpression {
    /// Lowers this node: appends to the graph what computes its value, leaves
    /// the cursor where control goes on, and returns the identifier that
    /// holds the value.
    pub fn lower(&self, b: &mut FunctionCfgBuilder, env: &mut ScopeTracker) -> (r: SSAVariable)
        requires
            self.lowerable(),
            old(b)@.wf(),
        ensures
            final(b)@ == self.lowered(old(b)@),
            grown(old(b)@, final(b)@),
            final(b)@.fits(),
            r == self.value_id(),
            *final(env) == *old(env),
        decreases self, 1nat,
    {
        let id = self.lower_node(b, env);
        proof {
            b.lemma_fits();
        }
        id
    }

    /// Lowers this node by the rule of its kind.
    fn lower_node(&self, b: &mut FunctionCfgBuilder, env: &mut ScopeTracker) -> (r: SSAVariable)
        requires
            self.lowerable(),
            old(b)@.wf(),
        ensures
            final(b)@ == self.lowered(old(b)@),
            grown(old(b)@, final(b)@),
            r == self.value_id(),
            *final(env) == *old(env),
        decreases self, 0nat,
    {
        match &self.kind {
            SingleExpressionKind::Variable(_) => self.ssa,
            SingleExpressionKind::NamedFunction { name, is_lambda } => {
                if !*is_lambda {
                    let n = FunctionIdent {
                        name: name.var.name.clone(),
                        arity: name.var.arity,
                        lambda: None,
                    };
                    let mut writes: Vec<SSAVariable> = Vec::new();
                    writes.push(self.ssa);
                    assert(writes@ =~= seq![self.ssa]);
                    b.basic_op(OpKind::CaptureNamedFunction(n), Vec::new(), writes);
                }
                self.ssa
            },
            SingleExpressionKind::BindClosure { closure, lambda_env, env_ssa } => {
                let env_idx = match lambda_env {
                    Some(idx) => *idx,
                    None => { return self.ssa; },
                };
                let ident = match &closure.ident {
                    Some(ident) => ident.clone(),
                    None => { return self.ssa; },
                };
                let mut env_writes: Vec<SSAVariable> = Vec::new();
                env_writes.push(*env_ssa);
                assert(env_writes@ =~= seq![*env_ssa]);
                b.basic_op(OpKind::MakeClosureEnv { env_idx }, Vec::new(), env_writes);
                let mut reads: Vec<Source> = Vec::new();
                reads.push(Source::Variable(*env_ssa));
                assert(reads@ =~= seq![Source::Variable(*env_ssa)]);
                let mut writes: Vec<SSAVariable> = Vec::new();
                writes.push(self.ssa);
                assert(writes@ =~= seq![self.ssa]);
                b.basic_op(OpKind::BindClosure { ident }, reads, writes);
                self.ssa
            },
            SingleExpressionKind::BindClosures { lambda_env, body, env_ssa, .. } => {
                let env_idx = match lambda_env {
                    Some(idx) => *idx,
                    None => { return self.ssa; },
                };
                let mut env_writes: Vec<SSAVariable> = Vec::new();
                env_writes.push(*env_ssa);
                assert(env_writes@ =~= seq![*env_ssa]);
                b.basic_op(OpKind::MakeClosureEnv { env_idx }, Vec::new(), env_writes);
                body.lower(b, env);
                b.unsupported(Construct::BatchClosureIdentity, self.ssa);
                self.ssa
            },
            SingleExpressionKind::Atomic(atomic) => {
                let mut reads: Vec<Source> = Vec::new();
                reads.push(Source::Constant(atomic.clone()));
                assert(reads@ =~= seq![Source::Constant(*atomic)]);
                let mut writes: Vec<SSAVariable> = Vec::new();
                writes.push(self.ssa);
                assert(writes@ =~= seq![self.ssa]);
                b.basic_op(OpKind::Move, reads, writes);
                self.ssa
            },
            SingleExpressionKind::Tuple(elems) => {
                lower_all(elems, b, env);
                let ids = node_ssas(elems);
                let mut reads: Vec<Source> = Vec::new();
                push_variables(&ids, &mut reads);
                assert(reads@ =~= variables(ssas(elems@)));
                let mut writes: Vec<SSAVariable> = Vec::new();
                writes.push(self.ssa);
                assert(writes@ =~= seq![self.ssa]);
                b.basic_op(OpKind::MakeTuple, reads, writes);
                self.ssa
            },
            SingleExpressionKind::List { head, tail } => {
                tail.lower(b, env);
                lower_all(head, b, env);
                let mut reads: Vec<Source> = Vec::new();
                reads.push(Source::Variable(tail.ssa));
                let ids = node_ssas(head);
                push_variables(&ids, &mut reads);
                assert(reads@ =~= seq![Source::Variable(tail.ssa)] + variables(ssas(head@)));
                let mut writes: Vec<SSAVariable> = Vec::new();
                writes.push(self.ssa);
                assert(writes@ =~= seq![self.ssa]);
                b.basic_op(OpKind::MakeList, reads, writes);
                self.ssa
            },
            SingleExpressionKind::KeyValue(entries) => {
                lower_entries(entries, b, env);
                let ids = entry_node_ssas(entries);
                let mut reads: Vec<Source> = Vec::new();
                push_variables(&ids, &mut reads);
                assert(reads@ =~= variables(entry_ssas(entries@)));
                let mut writes: Vec<SSAVariable> = Vec::new();
                writes.push(self.ssa);
                assert(writes@ =~= seq![self.ssa]);
                b.basic_op(OpKind::MakeMap, reads, writes);
                self.ssa
            },
            SingleExpressionKind::PrimOp { name, args } => {
                lower_all(args, b, env);
                let ids = node_ssas(args);
                let mut reads: Vec<Source> = Vec::new();
                push_variables(&ids, &mut reads);
                assert(reads@ =~= variables(ssas(args@)));
                b.basic_op(OpKind::PrimOp(name.clone()), reads, Vec::new());
                self.ssa
            },
            SingleExpressionKind::ApplyCall { fun, args } => {
                let mut ids: Vec<SSAVariable> = Vec::new();
                ids.push(fun.lower(b, env));
                let mut arg_ids = lower_all(args, b, env);
                ids.append(&mut arg_ids);
                assert(ids@ =~= seq![fun.value_id()] + value_ids(args@));
                let mut reads: Vec<Source> = Vec::new();
                push_variables(&ids, &mut reads);
                assert(reads@ =~= variables(ids@));
                let mut writes: Vec<SSAVariable> = Vec::new();
                writes.push(self.ssa);
                assert(writes@ =~= seq![self.ssa]);
                b.basic_op(OpKind::Apply, reads, writes);
                split_after_call(b);
                self.ssa
            },
            SingleExpressionKind::InterModuleCall { module, name, args } => {
                let mut ids: Vec<SSAVariable> = Vec::new();
                ids.push(module.lower(b, env));
                ids.push(name.lower(b, env));
                let mut arg_ids = lower_all(args, b, env);
                ids.append(&mut arg_ids);
                assert(ids@ =~= seq![module.value_id(), name.value_id()] + value_ids(args@));
                let mut reads: Vec<Source> = Vec::new();
                push_variables(&ids, &mut reads);
                assert(reads@ =~= variables(ids@));
                let mut writes: Vec<SSAVariable> = Vec::new();
                writes.push(self.ssa);
                assert(writes@ =~= seq![self.ssa]);
                b.basic_op(OpKind::Call, reads, writes);
                split_after_call(b);
                self.ssa
            },
            SingleExpressionKind::Let { val, body, .. } => {
                lower_all(&val.values, b, env);
                body.lower(b, env)
            },
            SingleExpressionKind::Try { body, then, .. } => {
                lower_all(&body.values, b, env);
                let id = then.lower(b, env);
                b.unsupported(Construct::TryCatch, self.ssa);
                id
            },
            SingleExpressionKind::Case { val, clauses, values } => {
                lower_all(&val.values, b, env);
                lower_all(values, b, env);
                let from_label = b.get_block();
                let done_label = b.add_block();
                let ghost started = b@;
                let leaves = lower_clauses(clauses, b, env, done_label, self.ssa);
                b.set_block(from_label);
                b.basic_op(
                    OpKind::Case {
                        vars: node_ssas(&val.values),
                        clauses: copy_patterns(clauses),
                        value_vars: node_ssas(values),
                    },
                    Vec::new(),
                    Vec::new(),
                );
                let ghost marked = b@;
                let mut i: usize = 0;
                while i < leaves.len()
                    invariant
                        i <= leaves.len(),
                        b@ == marked.add_jumps(from_label, leaves@, i as nat),
                        grown(marked, b@),
                        marked.cfg.has_block(from_label),
                    decreases leaves.len() - i,
                {
                    b.add_jump(from_label, leaves[i]);
                    i = i + 1;
                }
                b.set_block(done_label);
                b.unsupported(Construct::CaseDiscrimination, self.ssa);
                self.ssa
            },
            SingleExpressionKind::Test { .. } => self.ssa,
            SingleExpressionKind::Do(first, last) => {
                lower_all(&first.values, b, env);
                last.lower(b, env)
            },
            SingleExpressionKind::Receive { .. } => {
                b.unsupported(Construct::Receive, self.ssa);
                self.ssa
            },
        }
    }
}

/// Why a function could not be lowered: an earlier pass left its tree
/// ill-formed. Nothing was emitted for the function.
#[derive(Debug, Clone, Copy, PartialEq, Eq, Hash, Structural)]
pub enum LowerError {
    /// The node with this identifier is of a kind that lowering has no rule
    /// for.
    UnhandledKind { ssa: SSAVariable },
    /// The node with this identifier binds closures but lacks the call
    /// target or the environment slot.
    IncompleteClosure { ssa: SSAVariable },
}

/// The first of two findings.
pub open spec fn first_of(a: Option<LowerError>, b: Option<LowerError>) -> Option<LowerError> {
    if a is Some {
        a
    } else {
        b
    }
}

impl SingleExpression {
    /// The first node, in the order of lowering, that lowering has no rule
    /// for, with what is wrong with it; `None` where every node that lowering
    /// reaches has a rule.
    pub open spec fn defect(&self) -> Option<LowerError>
        decreases self, 0nat,
    {
        match self.kind {
            SingleExpressionKind::Variable(_) => None,
            SingleExpressionKind::NamedFunction { .. } => None,
            SingleExpressionKind::BindClosure { closure, lambda_env, .. } => if closure.ident is Some
                && lambda_env is Some {
                None
            } else {
                Some(LowerError::IncompleteClosure { ssa: self.ssa })
            },
            SingleExpressionKind::BindClosures { lambda_env, body, .. } => if lambda_env is Some {
                body.defect()
            } else {
                Some(LowerError::IncompleteClosure { ssa: self.ssa })
            },
            SingleExpressionKind::Atomic(_) => None,
            SingleExpressionKind::Tuple(elems) => defect_in(elems@, elems@.len()),
            SingleExpressionKind::List { head, tail } => first_of(
                tail.defect(),
                defect_in(head@, head@.len()),
            ),
            SingleExpressionKind::KeyValue(entries) => defect_in_entries(entries@, entries@.len()),
            SingleExpressionKind::PrimOp { args, .. } => defect_in(args@, args@.len()),
            SingleExpressionKind::ApplyCall { fun, args } => first_of(
                fun.defect(),
                defect_in(args@, args@.len()),
            ),
            SingleExpressionKind::InterModuleCall { module, name, args } => first_of(
                module.defect(),
                first_of(name.defect(), defect_in(args@, args@.len())),
            ),
            SingleExpressionKind::Let { val, body, .. } => first_of(
                defect_in(val.values@, val.values@.len()),
                body.defect(),
            ),
            SingleExpressionKind::Try { body, then, .. } => first_of(
                defect_in(body.values@, body.values@.len()),
                then.defect(),
            ),
            SingleExpressionKind::Case { val, clauses, values } => first_of(
                defect_in(val.values@, val.values@.len()),
                first_of(
                    defect_in(values@, values@.len()),
                    defect_in_clauses(clauses@, clauses@.len()),
                ),
            ),
            SingleExpressionKind::Test { .. } => Some(LowerError::UnhandledKind { ssa: self.ssa }),
            SingleExpressionKind::Do(first, last) => first_of(
                defect_in(first.values@, first.values@.len()),
                last.defect(),
            ),
            SingleExpressionKind::Receive { .. } => None,
        }
    }
}

/// The first defect among the first `n` of `exprs`.
pub open spec fn defect_in(exprs: Seq<SingleExpression>, n: nat) -> Option<LowerError>
    decreases exprs, n,
{
    if n == 0 || n > exprs.len() {
        None
    } else {
        first_of(defect_in(exprs, (n - 1) as nat), exprs[n - 1].defect())
    }
}

/// The first defect among the first `n` of `entries`, each key before its
/// value.
pub open spec fn defect_in_entries(
    entries: Seq<(SingleExpression, SingleExpression)>,
    n: nat,
) -> Option<LowerError>
    decreases entries, n,
{
    if n == 0 || n > entries.len() {
        None
    } else {
        first_of(
            defect_in_entries(entries, (n - 1) as nat),
            first_of(entries[n - 1].0.defect(), entries[n - 1].1.defect()),
        )
    }
}

/// The first defect among the bodies of the first `n` of `clauses`.
pub open spec fn defect_in_clauses(clauses: Seq<HirClause>, n: nat) -> Option<LowerError>
    decreases clauses, n,
{
    if n == 0 || n > clauses.len() {
        None
    } else {
        first_of(defect_in_clauses(clauses, (n - 1) as nat), clauses[n - 1].body.defect())
    }
}

impl SingleExpression {
    /// Lowering has a rule for a tree exactly if the tree has no defect.
    pub proof fn lemma_defect_free(&self)
        ensures
            self.defect() is None <==> self.lowerable(),
        decreases self, 0nat,
    {
        match self.kind {
            SingleExpressionKind::BindClosures { body, .. } => {
                body.lemma_defect_free();
            },
            SingleExpressionKind::Tuple(elems) => {
                lemma_defect_free_in(elems@, elems@.len());
            },
            SingleExpressionKind::List { head, tail } => {
                tail.lemma_defect_free();
                lemma_defect_free_in(head@, head@.len());
            },
            SingleExpressionKind::KeyValue(entries) => {
                lemma_defect_free_in_entries(entries@, entries@.len());
            },
            SingleExpressionKind::PrimOp { args, .. } => {
                lemma_defect_free_in(args@, args@.len());
            },
            SingleExpressionKind::ApplyCall { fun, args } => {
                fun.lemma_defect_free();
                lemma_defect_free_in(args@, args@.len());
            },
            SingleExpressionKind::InterModuleCall { module, name, args } => {
                module.lemma_defect_free();
                name.lemma_defect_free();
                lemma_defect_free_in(args@, args@.len());
            },
            SingleExpressionKind::Let { val, body, .. } => {
                lemma_defect_free_in(val.values@, val.values@.len());
                body.lemma_defect_free();
            },
            SingleExpressionKind::Try { body, then, .. } => {
                lemma_defect_free_in(body.values@, body.values@.len());
                then.lemma_defect_free();
            },
            SingleExpressionKind::Case { val, clauses, values } => {
                lemma_defect_free_in(val.values@, val.values@.len());
                lemma_defect_free_in(values@, values@.len());
                lemma_defect_free_in_clauses(clauses@, clauses@.len());
            },
            SingleExpressionKind::Do(first, last) => {
                lemma_defect_free_in(first.values@, first.values@.len());
                last.lemma_defect_free();
            },
            _ => {},
        }
    }
}

/// Nodes have no defect among them exactly if lowering has a rule for each.
pub proof fn lemma_defect_free_in(exprs: Seq<SingleExpression>, n: nat)
    requires
        n <= exprs.len(),
    ensures
        defect_in(exprs, n) is None <==> forall|i: int|
            0 <= i < n ==> (#[trigger] exprs[i]).lowerable(),
        n == exprs.len() ==> (defect_in(exprs, n) is None <==> all_lowerable(exprs)),
    decreases exprs, n,
{
    if n > 0 {
        lemma_defect_free_in(exprs, (n - 1) as nat);
        exprs[n - 1].lemma_defect_free();
        if defect_in(exprs, n) is None {
            assert forall|i: int| 0 <= i < n implies (#[trigger] exprs[i]).lowerable() by {}
        }
    }
}

/// Entries have no defect among them exactly if lowering has a rule for each
/// key and each value.
pub proof fn lemma_defect_free_in_entries(
    entries: Seq<(SingleExpression, SingleExpression)>,
    n: nat,
)
    requires
        n <= entries.len(),
    ensures
        defect_in_entries(entries, n) is None <==> forall|i: int|
            0 <= i < n ==> (#[trigger] entries[i]).0.lowerable() && entries[i].1.lowerable(),
    decreases entries, n,
{
    if n > 0 {
        lemma_defect_free_in_entries(entries, (n - 1) as nat);
        entries[n - 1].0.lemma_defect_free();
        entries[n - 1].1.lemma_defect_free();
        if defect_in_entries(entries, n) is None {
            assert forall|i: int| 0 <= i < n implies (#[trigger] entries[i]).0.lowerable()
                && entries[i].1.lowerable() by {}
        }
    }
}

/// Clauses have no defect among their bodies exactly if lowering has a rule
/// for each body.
pub proof fn lemma_defect_free_in_clauses(clauses: Seq<HirClause>, n: nat)
    requires
        n <= clauses.len(),
    ensures
        defect_in_clauses(clauses, n) is None <==> forall|i: int|
            0 <= i < n ==> (#[trigger] clauses[i]).body.lowerable(),
    decreases clauses, n,
{
    if n > 0 {
        lemma_defect_free_in_clauses(clauses, (n - 1) as nat);
        clauses[n - 1].body.lemma_defect_free();
        if defect_in_clauses(clauses, n) is None {
            assert forall|i: int| 0 <= i < n implies (#[trigger] clauses[i]).body.lowerable() by {}
        }
    }
}

/// A defect among the first nodes is the first defect among all.
proof fn lemma_defect_found(exprs: Seq<SingleExpression>, n: nat, m: nat)
    requires
        n <= m <= exprs.len(),
        defect_in(exprs, n) is Some,
    ensures
        defect_in(exprs, m) == defect_in(exprs, n),
    decreases m,
{
    if n < m {
        lemma_defect_found(exprs, n, (m - 1) as nat);
    }
}

/// A defect among the first entries is the first defect among all.
proof fn lemma_defect_found_entries(
    entries: Seq<(SingleExpression, SingleExpression)>,
    n: nat,
    m: nat,
)
    requires
        n <= m <= entries.len(),
        defect_in_entries(entries, n) is Some,
    ensures
        defect_in_entries(entries, m) == defect_in_entries(entries, n),
    decreases m,
{
    if n < m {
        lemma_defect_found_entries(entries, n, (m - 1) as nat);
    }
}

/// A defect among the first clauses is the first defect among all.
proof fn lemma_defect_found_clauses(clauses: Seq<HirClause>, n: nat, m: nat)
    requires
        n <= m <= clauses.len(),
        defect_in_clauses(clauses, n) is Some,
    ensures
        defect_in_clauses(clauses, m) == defect_in_clauses(clauses, n),
    decreases m,
{
    if n < m {
        lemma_defect_found_clauses(clauses, n, (m - 1) as nat);
    }
}

/// The first defect among `exprs`.
fn find_defect_in(exprs: &Vec<SingleExpression>) -> (r: Option<LowerError>)
    ensures
        r == defect_in(exprs@, exprs@.len()),
    decreases exprs, 0nat,
{
    let mut i: usize = 0;
    while i < exprs.len()
        invariant
            i <= exprs.len(),
            defect_in(exprs@, i as nat) is None,
        decreases exprs.len() - i,
    {
        let found = exprs[i].find_defect();
        if found.is_some() {
            proof {
                lemma_defect_found(exprs@, (i + 1) as nat, exprs@.len());
            }
            return found;
        }
        i = i + 1;
    }
    None
}

impl SingleExpression {
    /// Finds the first node, in the order of lowering, that lowering has no
    /// rule for. `None` says that the tree can be lowered.
    pub fn find_defect(&self) -> (r: Option<LowerError>)
        ensures
            r == self.defect(),
            r is None <==> self.lowerable(),
        decreases self, 1nat,
    {
        proof {
            self.lemma_defect_free();
        }
        match &self.kind {
            SingleExpressionKind::Variable(_) => None,
            SingleExpressionKind::NamedFunction { .. } => None,
            SingleExpressionKind::BindClosure { closure, lambda_env, .. } => {
                if closure.ident.is_some() && lambda_env.is_some() {
                    None
                } else {
                    Some(LowerError::IncompleteClosure { ssa: self.ssa })
                }
            },
            SingleExpressionKind::BindClosures { lambda_env, body, .. } => {
                if lambda_env.is_some() {
                    body.find_defect()
                } else {
                    Some(LowerError::IncompleteClosure { ssa: self.ssa })
                }
            },
            SingleExpressionKind::Atomic(_) => None,
            SingleExpressionKind::Tuple(elems) => find_defect_in(elems),
            SingleExpressionKind::List { head, tail } => {
                let found = tail.find_defect();
                if found.is_some() {
                    found
                } else {
                    find_defect_in(head)
                }
            },
            SingleExpressionKind::KeyValue(entries) => {
                let mut i: usize = 0;
                while i < entries.len()
                    invariant
                        i <= entries.len(),
                        self.kind is KeyValue,
                        self.kind->KeyValue_0 == *entries,
                        defect_in_entries(entries@, i as nat) is None,
                    decreases entries.len() - i,
                {
                    assert(decreases_to!(self => self.kind));
                    assert(decreases_to!(self.kind => self.kind->KeyValue_0));
                    assert(decreases_to!(entries@[i as int] => entries@[i as int].0));
                    assert(decreases_to!(entries@[i as int] => entries@[i as int].1));
                    let in_key = entries[i].0.find_defect();
                    if in_key.is_some() {
                        proof {
                            lemma_defect_found_entries(entries@, (i + 1) as nat, entries@.len());
                        }
                        return in_key;
                    }
                    let in_value = entries[i].1.find_defect();
                    if in_value.is_some() {
                        proof {
                            lemma_defect_found_entries(entries@, (i + 1) as nat, entries@.len());
                        }
                        return in_value;
                    }
                    i = i + 1;
                }
                None
            },
            SingleExpressionKind::PrimOp { args, .. } => find_defect_in(args),
            SingleExpressionKind::ApplyCall { fun, args } => {
                let found = fun.find_defect();
                if found.is_some() {
                    found
                } else {
                    find_defect_in(args)
                }
            },
            SingleExpressionKind::InterModuleCall { module, name, args } => {
                let in_module = module.find_defect();
                if in_module.is_some() {
                    return in_module;
                }
                let in_name = name.find_defect();
                if in_name.is_some() {
                    return in_name;
                }
                find_defect_in(args)
            },
            SingleExpressionKind::Let { val, body, .. } => {
                let found = find_defect_in(&val.values);
                if found.is_some() {
                    found
                } else {
                    body.find_defect()
                }
            },
            SingleExpressionKind::Try { body, then, .. } => {
                let found = find_defect_in(&body.values);
                if found.is_some() {
                    found
                } else {
                    then.find_defect()
                }
            },
            SingleExpressionKind::Case { val, clauses, values } => {
                let in_val = find_defect_in(&val.values);
                if in_val.is_some() {
                    return in_val;
                }
                let in_values = find_defect_in(values);
                if in_values.is_some() {
                    return in_values;
                }
                let mut i: usize = 0;
                while i < clauses.len()
                    invariant
                        i <= clauses.len(),
                        self.kind is Case,
                        self.kind->Case_clauses == *clauses,
                        self.kind->Case_val == *val,
                        self.kind->Case_values == *values,
                        defect_in(val.values@, val.values@.len()) is None,
                        defect_in(values@, values@.len()) is None,
                        defect_in_clauses(clauses@, i as nat) is None,
                    decreases clauses.len() - i,
                {
                    assert(decreases_to!(self => self.kind));
                    assert(decreases_to!(self.kind => self.kind->Case_clauses));
                    assert(decreases_to!(clauses@[i as int] => clauses@[i as int].body));
                    let found = clauses[i].body.find_defect();
                    if found.is_some() {
                        proof {
                            lemma_defect_found_clauses(clauses@, (i + 1) as nat, clauses@.len());
                        }
                        return found;
                    }
                    i = i + 1;
                }
                None
            },
            SingleExpressionKind::Test { .. } => Some(LowerError::UnhandledKind { ssa: self.ssa }),
            SingleExpressionKind::Do(first, last) => {
                let found = find_defect_in(&first.values);
                if found.is_some() {
                    found
                } else {
                    last.find_defect()
                }
            },
            SingleExpressionKind::Receive { .. } => None,
        }
    }
}

impl Function {
    /// The state of the builder once the function is lowered into a new
    /// graph: the parameters are bound, the body is lowered, and the body's
    /// value is returned.
    pub open spec fn lowered(&self) -> BuilderView {
        self.body.lowered(
            BuilderView::start(CfgView::initial()).basic_op(
                OpKindView::Arguments,
                Seq::empty(),
                arg_ssas(self.args@),
            ),
        ).basic_op(
            OpKindView::ReturnOk,
            seq![Source::Variable(self.body.value_id())],
            Seq::empty(),
        )
    }
}

/// Whether `after` is `before` with its graph set to what lowering makes of
/// its tree.
pub open spec fn lowered_definition(before: FunctionDefinition, after: FunctionDefinition) -> bool {
    &&& after.ident == before.ident
    &&& after.hir_fun == before.hir_fun
    &&& after.lir_function matches Some(cfg) && cfg@ == before.hir_fun.lowered().cfg
}

impl FunctionDefinition {
    /// Lowers the function's tree into a new graph and keeps the graph. The
    /// result holds the conditions raised for unfinished constructs: a graph
    /// that raised any does not compute what the tree says. Where lowering
    /// has no rule for some node of the tree, nothing is made and the error
    /// says so.
    pub fn lower(&mut self, env: &mut ScopeTracker) -> (r: Result<Vec<Unsupported>, LowerError>)
        ensures
            *final(env) == *old(env),
            final(self).ident == old(self).ident,
            final(self).hir_fun == old(self).hir_fun,
            match old(self).hir_fun.body.defect() {
                None => lowered_definition(*old(self), *final(self)) && old(
                    self,
                ).hir_fun.lowered().fits() && (r matches Ok(raised) && raised@ == old(
                    self,
                ).hir_fun.lowered().unsupported),
                Some(error) => *final(self) == *old(self) && r == Err::<Vec<Unsupported>, LowerError>(
                    error,
                ),
            },
    {
        match self.hir_fun.body.find_defect() {
            Some(error) => {
                return Err(error);
            },
            None => {},
        }
        let mut builder = FunctionCfgBuilder::new(FunctionCfg::new());
        let mut args: Vec<SSAVariable> = Vec::new();
        let mut i: usize = 0;
        while i < self.hir_fun.args.len()
            invariant
                i <= self.hir_fun.args.len(),
                args@ == arg_ssas(self.hir_fun.args@).subrange(0, i as int),
            decreases self.hir_fun.args.len() - i,
        {
            args.push(self.hir_fun.args[i].ssa);
            i = i + 1;
            assert(args@ =~= arg_ssas(self.hir_fun.args@).subrange(0, i as int));
        }
        assert(args@ =~= arg_ssas(self.hir_fun.args@));
        builder.basic_op(OpKind::Arguments, Vec::new(), args);
        let ret = self.hir_fun.body.lower(&mut builder, env);
        let mut reads: Vec<Source> = Vec::new();
        reads.push(Source::Variable(ret));
        assert(reads@ =~= seq![Source::Variable(ret)]);
        builder.basic_op(OpKind::ReturnOk, reads, Vec::new());
        let (cfg, raised) = builder.finish();
        self.lir_function = Some(cfg);
        Ok(raised)
    }
}

/// The conditions that lowering the first `n` of `functions` raises, in order.
pub open spec fn raised_by(functions: Seq<FunctionDefinition>, n: nat) -> Seq<Unsupported>
    decreases n,
{
    if n == 0 || n > functions.len() {
        Seq::empty()
    } else {
        raised_by(functions, (n - 1) as nat) + functions[n - 1].hir_fun.lowered().unsupported
    }
}

/// What lowering the functions `before` in order comes to, where `after`
/// are the functions afterwards and `r` is what was returned. Either every
/// function was lowered, and `r` holds the conditions raised, function by
/// function. Or `r` names the first function that lowering has no rule for,
/// with the first defect of its tree: the functions before it were lowered,
/// and it and those after it are as they were.
pub open spec fn lowering_outcome(
    before: Seq<FunctionDefinition>,
    after: Seq<FunctionDefinition>,
    r: Result<Vec<Unsupported>, (usize, LowerError)>,
) -> bool {
    &&& after.len() == before.len()
    &&& match r {
        Ok(raised) => {
            &&& forall|i: int|
                0 <= i < before.len() ==> (#[trigger] before[i]).hir_fun.body.defect() is None
                    && lowered_definition(before[i], after[i])
            &&& raised@ == raised_by(before, before.len())
        },
        Err((failed, error)) => {
            &&& failed < before.len()
            &&& before[failed as int].hir_fun.body.defect() == Some(error)
            &&& forall|i: int|
                0 <= i < failed ==> (#[trigger] before[i]).hir_fun.body.defect() is None
                    && lowered_definition(before[i], after[i])
            &&& forall|i: int| failed <= i < before.len() ==> after[i] == #[trigger] before[i]
        },
    }
}

impl Module {
    /// Lowers the functions in order, up to the first that lowering has no
    /// rule for.
    pub fn lower(
        &mut self,
        env: &mut ScopeTracker,
    ) -> (r: Result<Vec<Unsupported>, (usize, LowerError)>)
        ensures
            *final(env) == *old(env),
            final(self).name == old(self).name,
            lowering_outcome(old(self).functions@, final(self).functions@, r),
    {
        let ghost before = self.functions@;
        let mut raised: Vec<Unsupported> = Vec::new();
        let mut i: usize = 0;
        while i < self.functions.len()
            invariant
                i <= self.functions@.len(),
                *env == *old(env),
                self.name == old(self).name,
                before == old(self).functions@,
                self.functions@.len() == before.len(),
                forall|k: int|
                    0 <= k < i ==> (#[trigger] before[k]).hir_fun.body.defect() is None
                        && lowered_definition(before[k], self.functions@[k]),
                forall|k: int| i <= k < before.len() ==> self.functions@[k] == #[trigger] before[k],
                raised@ == raised_by(before, i as nat),
            decreases self.functions@.len() - i,
        {
            let ghost prev = self.functions@;
            let fun = &mut self.functions[i];
            let outcome = fun.lower(env);
            assert(self.functions@ == prev.update(i as int, self.functions@[i as int]));
            match outcome {
                Ok(mut more) => {
                    raised.append(&mut more);
                },
                Err(error) => {
                    assert(self.functions@[i as int] == prev[i as int]);
                    assert(self.functions@ =~= prev);
                    let r = Err((i, error));
                    assert(lowering_outcome(before, self.functions@, r));
                    return r;
                },
            }
            i = i + 1;
            assert forall|k: int| 0 <= k < i implies (#[trigger] before[k]).hir_fun.body.defect() is None
                && lowered_definition(before[k], self.functions@[k]) by {
                if k < i - 1 {
                    assert(self.functions@[k] == prev[k]);
                }
            }
        }
        let r = Ok(raised);
        assert(lowering_outcome(before, self.functions@, r));
        r
    }
}

/// Lowers every function of `module`, in order, and keeps each graph beside
/// its tree. The result holds the conditions raised for unfinished
/// constructs, function by function. The first function that lowering has no
/// rule for stops the work: the error names its position, and it and the
/// functions after it are left as they were.
pub fn do_lower(
    module: &mut Module,
    env: &mut ScopeTracker,
) -> (r: Result<Vec<Unsupported>, (usize, LowerError)>)
    ensures
        *final(env) == *old(env),
        final(module).name == old(module).name,
        lowering_outcome(old(module).functions@, final(module).functions@, r),
{
    module.lower(env)
}

} // verus!
