//! What a lowered function writes and reads: exactly the identifiers that its
//! tree defines and uses. So the graph is in static-single-assignment form
//! exactly if the tree names each value once and defines what it uses.
use vstd::multiset::Multiset;
use vstd::prelude::*;
use vstd::seq_lib::lemma_multiset_commutative;

use crate::ir::hir::{Clause as HirClause, Function, SingleExpression, SingleExpressionKind};
use crate::ir::lir::cfg::{phi_position, BuilderView, Construct, Unsupported};
use crate::ir::lir::from_hir::frame::{
    lemma_add_jumps, lemma_basic_op_lowers, lemma_call_split_lowers, lemma_lowered_clauses_extends,
    lemma_lowers_trans, lemma_raise_lowers,
};
use crate::ir::lir::from_hir::shape::{lemma_clauses_shape, meeting_block};
use crate::ir::lir::from_hir::{
    arg_ssas, clause_patterns, entry_ssas, lowered_all, lowered_clauses, lowered_entries, ssas,
    value_ids, variables,
};
use crate::ir::lir::pass::ssa_form::{lemma_empty_counts, variable_ids};
use crate::ir::lir::{BlockView, CfgView, LabelN, OpKindView, Source};
use crate::ir::{FunctionIdent, SSAVariable};

verus! {

impl SingleExpression {
    /// The identifiers that lowering this node writes, in the order in which
    /// the writes are emitted.
    pub open spec fn defined(&self) -> Seq<SSAVariable>
        decreases self, 0nat,
    {
        match self.kind {
            SingleExpressionKind::Variable(_) => Seq::empty(),
            SingleExpressionKind::NamedFunction { is_lambda, .. } => if is_lambda {
                Seq::empty()
            } else {
                seq![self.ssa]
            },
            SingleExpressionKind::BindClosure { env_ssa, .. } => seq![env_ssa, self.ssa],
            SingleExpressionKind::BindClosures { body, env_ssa, .. } => seq![env_ssa]
                + body.defined(),
            SingleExpressionKind::Atomic(_) => seq![self.ssa],
            SingleExpressionKind::Tuple(elems) => defined_all(elems@, elems@.len()) + seq![self.ssa],
            SingleExpressionKind::List { head, tail } => tail.defined() + defined_all(
                head@,
                head@.len(),
            ) + seq![self.ssa],
            SingleExpressionKind::KeyValue(entries) => defined_entries(entries@, entries@.len())
                + seq![self.ssa],
            SingleExpressionKind::PrimOp { args, .. } => defined_all(args@, args@.len()),
            SingleExpressionKind::ApplyCall { fun, args } => fun.defined() + defined_all(
                args@,
                args@.len(),
            ) + seq![self.ssa],
            SingleExpressionKind::InterModuleCall { module, name, args } => module.defined()
                + name.defined() + defined_all(args@, args@.len()) + seq![self.ssa],
            SingleExpressionKind::Let { val, body, .. } => defined_all(
                val.values@,
                val.values@.len(),
            ) + body.defined(),
            SingleExpressionKind::Try { body, then, .. } => defined_all(
                body.values@,
                body.values@.len(),
            ) + then.defined(),
            SingleExpressionKind::Case { val, clauses, values } => defined_all(
                val.values@,
                val.values@.len(),
            ) + defined_all(values@, values@.len()) + defined_clauses(
                clauses@,
                clauses@.len(),
                self.ssa,
            ),
            SingleExpressionKind::Test { .. } => Seq::empty(),
            SingleExpressionKind::Do(first, last) => defined_all(
                first.values@,
                first.values@.len(),
            ) + last.defined(),
            SingleExpressionKind::Receive { .. } => Seq::empty(),
        }
    }

    /// The identifiers that lowering this node reads, in operations and as
    /// sources of phi nodes, in the order in which the reads are emitted.
    pub open spec fn used(&self) -> Seq<SSAVariable>
        decreases self, 0nat,
    {
        match self.kind {
            SingleExpressionKind::Variable(_) => Seq::empty(),
            SingleExpressionKind::NamedFunction { .. } => Seq::empty(),
            SingleExpressionKind::BindClosure { env_ssa, .. } => seq![env_ssa],
            SingleExpressionKind::BindClosures { body, .. } => body.used(),
            SingleExpressionKind::Atomic(_) => Seq::empty(),
            SingleExpressionKind::Tuple(elems) => used_all(elems@, elems@.len()) + ssas(elems@),
            SingleExpressionKind::List { head, tail } => tail.used() + used_all(head@, head@.len())
                + (seq![tail.ssa] + ssas(head@)),
            SingleExpressionKind::KeyValue(entries) => used_entries(entries@, entries@.len())
                + entry_ssas(entries@),
            SingleExpressionKind::PrimOp { args, .. } => used_all(args@, args@.len()) + ssas(args@),
            SingleExpressionKind::ApplyCall { fun, args } => fun.used() + used_all(
                args@,
                args@.len(),
            ) + (seq![fun.value_id()] + value_ids(args@)),
            SingleExpressionKind::InterModuleCall { module, name, args } => module.used()
                + name.used() + used_all(args@, args@.len()) + (seq![
                module.value_id(),
                name.value_id(),
            ] + value_ids(args@)),
            SingleExpressionKind::Let { val, body, .. } => used_all(val.values@, val.values@.len())
                + body.used(),
            SingleExpressionKind::Try { body, then, .. } => used_all(
                body.values@,
                body.values@.len(),
            ) + then.used(),
            SingleExpressionKind::Case { val, clauses, values } => used_all(
                val.values@,
                val.values@.len(),
            ) + used_all(values@, values@.len()) + used_clauses(clauses@, clauses@.len()),
            SingleExpressionKind::Test { .. } => Seq::empty(),
            SingleExpressionKind::Do(first, last) => used_all(first.values@, first.values@.len())
                + last.used(),
            SingleExpressionKind::Receive { .. } => Seq::empty(),
        }
    }
}

/// What lowering the first `n` of `exprs` writes.
pub open spec fn defined_all(exprs: Seq<SingleExpression>, n: nat) -> Seq<SSAVariable>
    decreases exprs, n,
{
    if n == 0 || n > exprs.len() {
        Seq::empty()
    } else {
        defined_all(exprs, (n - 1) as nat) + exprs[n - 1].defined()
    }
}

/// What lowering the first `n` of `exprs` reads.
pub open spec fn used_all(exprs: Seq<SingleExpression>, n: nat) -> Seq<SSAVariable>
    decreases exprs, n,
{
    if n == 0 || n > exprs.len() {
        Seq::empty()
    } else {
        used_all(exprs, (n - 1) as nat) + exprs[n - 1].used()
    }
}

/// What lowering the first `n` of `entries` writes.
pub open spec fn defined_entries(entries: Seq<(SingleExpression, SingleExpression)>, n: nat) -> Seq<
    SSAVariable,
>
    decreases entries, n,
{
    if n == 0 || n > entries.len() {
        Seq::empty()
    } else {
        defined_entries(entries, (n - 1) as nat) + entries[n - 1].0.defined() + entries[n
            - 1].1.defined()
    }
}

/// What lowering the first `n` of `entries` reads.
pub open spec fn used_entries(entries: Seq<(SingleExpression, SingleExpression)>, n: nat) -> Seq<
    SSAVariable,
>
    decreases entries, n,
{
    if n == 0 || n > entries.len() {
        Seq::empty()
    } else {
        used_entries(entries, (n - 1) as nat) + entries[n - 1].0.used() + entries[n - 1].1.used()
    }
}

/// What lowering the first `n` of the clauses of a case writes: what the
/// bodies write, and the identifier of the case, which the phi node writes
/// that the first clause makes.
pub open spec fn defined_clauses(
    clauses: Seq<HirClause>,
    n: nat,
    ssa: SSAVariable,
) -> Seq<SSAVariable>
    decreases clauses, n,
{
    if n == 0 || n > clauses.len() {
        Seq::empty()
    } else {
        defined_clauses(clauses, (n - 1) as nat, ssa) + clauses[n - 1].body.defined() + if n == 1 {
            seq![ssa]
        } else {
            Seq::empty()
        }
    }
}

/// What lowering the first `n` of the clauses of a case reads: what the
/// bodies read, and the value of each body, which the phi node reads.
pub open spec fn used_clauses(clauses: Seq<HirClause>, n: nat) -> Seq<SSAVariable>
    decreases clauses, n,
{
    if n == 0 || n > clauses.len() {
        Seq::empty()
    } else {
        used_clauses(clauses, (n - 1) as nat) + clauses[n - 1].body.used() + seq![
            clauses[n - 1].body.value_id(),
        ]
    }
}

impl Function {
    /// The identifiers that the lowered function writes: those of its
    /// parameters, then what lowering its body writes.
    pub open spec fn defined(&self) -> Seq<SSAVariable> {
        arg_ssas(self.args@) + self.body.defined()
    }

    /// The identifiers that the lowered function reads: what lowering its
    /// body reads, then the value of the body, which is returned.
    pub open spec fn used(&self) -> Seq<SSAVariable> {
        self.body.used() + seq![self.body.value_id()]
    }

    /// Whether the tree names each value once: no identifier is defined
    /// twice.
    pub open spec fn defines_once(&self) -> bool {
        self.defined().no_duplicates()
    }

    /// Whether the tree defines every identifier it uses.
    pub open spec fn defines_what_it_uses(&self) -> bool {
        forall|i: int| 0 <= i < self.used().len() ==> self.defined().contains(#[trigger] self.used()[i])
    }
}

/// Whether `after` writes what `before` writes and `defined`, and reads what
/// `before` reads and `used`.
pub open spec fn accounts(
    before: BuilderView,
    after: BuilderView,
    defined: Seq<SSAVariable>,
    used: Seq<SSAVariable>,
) -> bool {
    &&& after.cfg.written() == before.cfg.written().add(defined.to_multiset())
    &&& after.cfg.read() == before.cfg.read().add(used.to_multiset())
}

/// Adding two multisets one after the other is adding their sum.
proof fn lemma_add_twice(a: Multiset<SSAVariable>, x: Seq<SSAVariable>, y: Seq<SSAVariable>)
    ensures
        a.add(x.to_multiset()).add(y.to_multiset()) == a.add((x + y).to_multiset()),
{
    broadcast use vstd::multiset::group_multiset_axioms;

    lemma_multiset_commutative(x, y);
    let xm = x.to_multiset();
    let ym = y.to_multiset();
    assert forall|v: SSAVariable| a.add(xm).add(ym).count(v) == a.add(xm.add(ym)).count(v) by {
        assert(a.add(xm).add(ym).count(v) == a.add(xm).count(v) + ym.count(v));
        assert(a.add(xm).count(v) == a.count(v) + xm.count(v));
        assert(a.add(xm.add(ym)).count(v) == a.count(v) + xm.add(ym).count(v));
        assert(xm.add(ym).count(v) == xm.count(v) + ym.count(v));
    }
    assert(a.add(xm).add(ym) =~= a.add(xm.add(ym)));
}

/// Adding nothing changes nothing.
proof fn lemma_add_nothing(a: Multiset<SSAVariable>)
    ensures
        a.add(Seq::<SSAVariable>::empty().to_multiset()) == a,
{
    broadcast use vstd::multiset::group_multiset_axioms;

    lemma_empty_counts(Seq::<SSAVariable>::empty());
    assert(a.add(Multiset::empty()) =~= a);
}

/// A state accounts for itself with nothing added.
proof fn lemma_accounts_same(before: BuilderView, after: BuilderView)
    requires
        after.cfg.written() == before.cfg.written(),
        after.cfg.read() == before.cfg.read(),
    ensures
        accounts(before, after, Seq::empty(), Seq::empty()),
{
    lemma_add_nothing(before.cfg.written());
    lemma_add_nothing(before.cfg.read());
}

/// Accounts add up.
proof fn lemma_accounts_trans(
    a: BuilderView,
    b: BuilderView,
    c: BuilderView,
    d1: Seq<SSAVariable>,
    u1: Seq<SSAVariable>,
    d2: Seq<SSAVariable>,
    u2: Seq<SSAVariable>,
)
    requires
        accounts(a, b, d1, u1),
        accounts(b, c, d2, u2),
    ensures
        accounts(a, c, d1 + d2, u1 + u2),
{
    lemma_add_twice(a.cfg.written(), d1, d2);
    lemma_add_twice(a.cfg.read(), u1, u2);
}

/// Reads of identifiers read those identifiers.
proof fn lemma_variables_ids(ids: Seq<SSAVariable>, n: nat)
    requires
        n <= ids.len(),
    ensures
        variable_ids(variables(ids), n) == ids.subrange(0, n as int),
    decreases n,
{
    if n > 0 {
        lemma_variables_ids(ids, (n - 1) as nat);
    }
    assert(variable_ids(variables(ids), n) =~= ids.subrange(0, n as int));
}

/// An operation appended accounts for what it writes and reads.
proof fn lemma_op_accounts(
    st: BuilderView,
    kind: OpKindView,
    ids: Seq<SSAVariable>,
    writes: Seq<SSAVariable>,
)
    requires
        st.cfg.has_block(st.current),
    ensures
        accounts(st, st.basic_op(kind, variables(ids), writes), writes, ids),
{
    st.lemma_basic_op_counts(kind, variables(ids), writes);
    lemma_variables_ids(ids, ids.len());
    assert(ids.subrange(0, ids.len() as int) =~= ids);
}

/// The split after a call writes and reads nothing.
proof fn lemma_call_split_accounts(st: BuilderView)
    requires
        st.wf(),
        st.call_split().fits(),
    ensures
        accounts(st, st.call_split(), Seq::empty(), Seq::empty()),
{
    let throw = st.next_label();
    let s0 = st.add_block();
    let s1 = s0.set_block(throw);
    let s2 = s1.basic_op(OpKindView::ReturnThrow, Seq::empty(), Seq::empty());
    let resume = s2.next_label();
    let s3 = s2.add_block();
    let s4 = s3.set_block(resume).add_jump(st.current, resume);
    let s5 = s4.add_jump(st.current, throw);
    assert(s5 == st.call_split());
    st.lemma_add_block_counts();
    assert(throw.0 == st.cfg.blocks.len());
    s1.lemma_basic_op_counts(OpKindView::ReturnThrow, Seq::empty(), Seq::empty());
    lemma_add_nothing(s1.cfg.written());
    assert(variable_ids(Seq::<Source>::empty(), 0) =~= Seq::empty());
    lemma_add_nothing(s1.cfg.read());
    s2.lemma_add_block_counts();
    s3.set_block(resume).lemma_add_jump_counts(st.current, resume);
    s4.lemma_add_jump_counts(st.current, throw);
    lemma_accounts_same(st, s5);
}

/// Jumps added write and read nothing.
proof fn lemma_add_jumps_counts(st: BuilderView, from: LabelN, targets: Seq<LabelN>, n: nat)
    requires
        n <= targets.len(),
    ensures
        st.add_jumps(from, targets, n).cfg.written() == st.cfg.written(),
        st.add_jumps(from, targets, n).cfg.read() == st.cfg.read(),
    decreases n,
{
    if n > 0 {
        lemma_add_jumps_counts(st, from, targets, (n - 1) as nat);
        st.add_jumps(from, targets, (n - 1) as nat).lemma_add_jump_counts(from, targets[n - 1]);
    }
}

/// What holds of a state `after` that lowering reaches from `before`, while
/// writing `defined` and reading `used`: it is a step of lowering, and if
/// `before` is well formed and the labels of `after` fit the machine's word,
/// `after` accounts for `defined` and `used`.
pub open spec fn lowering_accounts(
    before: BuilderView,
    after: BuilderView,
    defined: Seq<SSAVariable>,
    used: Seq<SSAVariable>,
) -> bool {
    &&& before.lowers_to(after)
    &&& before.wf() && after.fits() ==> accounts(before, after, defined, used)
}

/// Two steps of lowering account for what both write and read.
proof fn lemma_chain(
    a: BuilderView,
    b: BuilderView,
    c: BuilderView,
    d1: Seq<SSAVariable>,
    u1: Seq<SSAVariable>,
    d2: Seq<SSAVariable>,
    u2: Seq<SSAVariable>,
)
    requires
        lowering_accounts(a, b, d1, u1),
        lowering_accounts(b, c, d2, u2),
    ensures
        lowering_accounts(a, c, d1 + d2, u1 + u2),
{
    lemma_lowers_trans(a, b, c);
    if a.wf() && c.fits() {
        lemma_accounts_trans(a, b, c, d1, u1, d2, u2);
    }
}

/// An operation that reads identifiers accounts for them and for what it
/// writes.
proof fn lemma_op_step(
    st: BuilderView,
    kind: OpKindView,
    ids: Seq<SSAVariable>,
    writes: Seq<SSAVariable>,
)
    ensures
        lowering_accounts(st, st.basic_op(kind, variables(ids), writes), writes, ids),
{
    lemma_basic_op_lowers(st, kind, variables(ids), writes);
    if st.wf() {
        lemma_op_accounts(st, kind, ids, writes);
    }
}

/// A condition raised writes and reads nothing.
proof fn lemma_raise_step(st: BuilderView, condition: Unsupported)
    ensures
        lowering_accounts(st, st.raise(condition), Seq::empty(), Seq::empty()),
{
    lemma_raise_lowers(st, condition);
    lemma_accounts_same(st, st.raise(condition));
}

/// The split after a call writes and reads nothing.
proof fn lemma_call_split_step(st: BuilderView)
    ensures
        lowering_accounts(st, st.call_split(), Seq::empty(), Seq::empty()),
{
    lemma_call_split_lowers(st);
    if st.wf() && st.call_split().fits() {
        lemma_call_split_accounts(st);
    }
}

impl SingleExpression {
    /// Lowering a node writes what the node defines and reads what it uses.
    #[verifier::rlimit(50)]
    pub proof fn lemma_lowered_accounts(&self, st: BuilderView)
        ensures
            lowering_accounts(st, self.lowered(st), self.defined(), self.used()),
        decreases self, 0nat,
    {
        let after = self.lowered(st);
        let none = Seq::<SSAVariable>::empty();
        self.lemma_lowered_extends(st);
        match self.kind {
            SingleExpressionKind::Variable(_) => {
                lemma_accounts_same(st, after);
            },
            SingleExpressionKind::NamedFunction { name, is_lambda } => {
                if is_lambda {
                    lemma_accounts_same(st, after);
                } else {
                    lemma_op_step(
                        st,
                        OpKindView::CaptureNamedFunction(
                            FunctionIdent { name: name.var.name, arity: name.var.arity, lambda: None },
                        ),
                        none,
                        seq![self.ssa],
                    );
                    assert(variables(none) =~= Seq::<Source>::empty());
                }
            },
            SingleExpressionKind::BindClosure { closure, lambda_env, env_ssa } => {
                let s1 = st.basic_op(
                    OpKindView::MakeClosureEnv { env_idx: lambda_env->Some_0 },
                    Seq::empty(),
                    seq![env_ssa],
                );
                lemma_op_step(
                    st,
                    OpKindView::MakeClosureEnv { env_idx: lambda_env->Some_0 },
                    none,
                    seq![env_ssa],
                );
                assert(variables(none) =~= Seq::<Source>::empty());
                lemma_op_step(
                    s1,
                    OpKindView::BindClosure { ident: closure.ident->Some_0 },
                    seq![env_ssa],
                    seq![self.ssa],
                );
                assert(variables(seq![env_ssa]) =~= seq![Source::Variable(env_ssa)]);
                lemma_chain(st, s1, after, seq![env_ssa], none, seq![self.ssa], seq![env_ssa]);
                assert(seq![env_ssa] + seq![self.ssa] =~= self.defined());
                assert(none + seq![env_ssa] =~= self.used());
            },
            SingleExpressionKind::BindClosures { lambda_env, body, env_ssa, .. } => {
                let s1 = st.basic_op(
                    OpKindView::MakeClosureEnv { env_idx: lambda_env->Some_0 },
                    Seq::empty(),
                    seq![env_ssa],
                );
                lemma_op_step(
                    st,
                    OpKindView::MakeClosureEnv { env_idx: lambda_env->Some_0 },
                    none,
                    seq![env_ssa],
                );
                assert(variables(none) =~= Seq::<Source>::empty());
                body.lemma_lowered_accounts(s1);
                let s2 = body.lowered(s1);
                lemma_chain(st, s1, s2, seq![env_ssa], none, body.defined(), body.used());
                lemma_raise_step(
                    s2,
                    Unsupported { construct: Construct::BatchClosureIdentity, ssa: self.ssa },
                );
                lemma_chain(
                    st,
                    s2,
                    after,
                    seq![env_ssa] + body.defined(),
                    none + body.used(),
                    none,
                    none,
                );
                assert(seq![env_ssa] + body.defined() + none =~= self.defined());
                assert(none + body.used() + none =~= self.used());
            },
            SingleExpressionKind::Atomic(literal) => {
                lemma_basic_op_lowers(
                    st,
                    OpKindView::Move,
                    seq![Source::Constant(literal)],
                    seq![self.ssa],
                );
                if st.wf() {
                    st.lemma_basic_op_counts(
                        OpKindView::Move,
                        seq![Source::Constant(literal)],
                        seq![self.ssa],
                    );
                    assert(variable_ids(seq![Source::Constant(literal)], 0) =~= none);
                    assert(variable_ids(seq![Source::Constant(literal)], 1) =~= none);
                }
            },
            SingleExpressionKind::Tuple(elems) => {
                lemma_lowered_all_accounts(elems@, elems@.len(), st);
                let s1 = lowered_all(elems@, elems@.len(), st);
                lemma_op_step(s1, OpKindView::MakeTuple, ssas(elems@), seq![self.ssa]);
                lemma_chain(
                    st,
                    s1,
                    after,
                    defined_all(elems@, elems@.len()),
                    used_all(elems@, elems@.len()),
                    seq![self.ssa],
                    ssas(elems@),
                );
            },
            SingleExpressionKind::List { head, tail } => {
                tail.lemma_lowered_accounts(st);
                let s1 = tail.lowered(st);
                lemma_lowered_all_accounts(head@, head@.len(), s1);
                let s2 = lowered_all(head@, head@.len(), s1);
                lemma_chain(
                    st,
                    s1,
                    s2,
                    tail.defined(),
                    tail.used(),
                    defined_all(head@, head@.len()),
                    used_all(head@, head@.len()),
                );
                let ids = seq![tail.ssa] + ssas(head@);
                lemma_op_step(s2, OpKindView::MakeList, ids, seq![self.ssa]);
                assert(variables(ids) =~= seq![Source::Variable(tail.ssa)] + variables(ssas(head@)));
                lemma_chain(
                    st,
                    s2,
                    after,
                    tail.defined() + defined_all(head@, head@.len()),
                    tail.used() + used_all(head@, head@.len()),
                    seq![self.ssa],
                    ids,
                );
            },
            SingleExpressionKind::KeyValue(entries) => {
                lemma_lowered_entries_accounts(entries@, entries@.len(), st);
                let s1 = lowered_entries(entries@, entries@.len(), st);
                lemma_op_step(s1, OpKindView::MakeMap, entry_ssas(entries@), seq![self.ssa]);
                lemma_chain(
                    st,
                    s1,
                    after,
                    defined_entries(entries@, entries@.len()),
                    used_entries(entries@, entries@.len()),
                    seq![self.ssa],
                    entry_ssas(entries@),
                );
            },
            SingleExpressionKind::PrimOp { name, args } => {
                lemma_lowered_all_accounts(args@, args@.len(), st);
                let s1 = lowered_all(args@, args@.len(), st);
                lemma_op_step(s1, OpKindView::PrimOp(name), ssas(args@), none);
                lemma_chain(
                    st,
                    s1,
                    after,
                    defined_all(args@, args@.len()),
                    used_all(args@, args@.len()),
                    none,
                    ssas(args@),
                );
                assert(defined_all(args@, args@.len()) + none =~= self.defined());
            },
            SingleExpressionKind::ApplyCall { fun, args } => {
                fun.lemma_lowered_accounts(st);
                let s1 = fun.lowered(st);
                lemma_lowered_all_accounts(args@, args@.len(), s1);
                let s2 = lowered_all(args@, args@.len(), s1);
                let d2 = fun.defined() + defined_all(args@, args@.len());
                let u2 = fun.used() + used_all(args@, args@.len());
                lemma_chain(
                    st,
                    s1,
                    s2,
                    fun.defined(),
                    fun.used(),
                    defined_all(args@, args@.len()),
                    used_all(args@, args@.len()),
                );
                let ids = seq![fun.value_id()] + value_ids(args@);
                let s3 = s2.basic_op(OpKindView::Apply, variables(ids), seq![self.ssa]);
                lemma_op_step(s2, OpKindView::Apply, ids, seq![self.ssa]);
                lemma_chain(st, s2, s3, d2, u2, seq![self.ssa], ids);
                lemma_call_split_step(s3);
                lemma_chain(st, s3, after, d2 + seq![self.ssa], u2 + ids, none, none);
                assert(d2 + seq![self.ssa] + none =~= self.defined());
                assert(u2 + ids + none =~= self.used());
            },
            SingleExpressionKind::InterModuleCall { module, name, args } => {
                module.lemma_lowered_accounts(st);
                let s0 = module.lowered(st);
                name.lemma_lowered_accounts(s0);
                let s1 = name.lowered(s0);
                lemma_chain(
                    st,
                    s0,
                    s1,
                    module.defined(),
                    module.used(),
                    name.defined(),
                    name.used(),
                );
                lemma_lowered_all_accounts(args@, args@.len(), s1);
                let s2 = lowered_all(args@, args@.len(), s1);
                let d1 = module.defined() + name.defined();
                let u1 = module.used() + name.used();
                let d2 = d1 + defined_all(args@, args@.len());
                let u2 = u1 + used_all(args@, args@.len());
                lemma_chain(
                    st,
                    s1,
                    s2,
                    d1,
                    u1,
                    defined_all(args@, args@.len()),
                    used_all(args@, args@.len()),
                );
                let ids = seq![module.value_id(), name.value_id()] + value_ids(args@);
                let s3 = s2.basic_op(OpKindView::Call, variables(ids), seq![self.ssa]);
                lemma_op_step(s2, OpKindView::Call, ids, seq![self.ssa]);
                lemma_chain(st, s2, s3, d2, u2, seq![self.ssa], ids);
                lemma_call_split_step(s3);
                lemma_chain(st, s3, after, d2 + seq![self.ssa], u2 + ids, none, none);
                assert(d2 + seq![self.ssa] + none =~= self.defined());
                assert(u2 + ids + none =~= self.used());
            },
            SingleExpressionKind::Let { val, body, .. } => {
                lemma_lowered_all_accounts(val.values@, val.values@.len(), st);
                let s1 = lowered_all(val.values@, val.values@.len(), st);
                body.lemma_lowered_accounts(s1);
                lemma_chain(
                    st,
                    s1,
                    after,
                    defined_all(val.values@, val.values@.len()),
                    used_all(val.values@, val.values@.len()),
                    body.defined(),
                    body.used(),
                );
            },
            SingleExpressionKind::Try { body, then, .. } => {
                lemma_lowered_all_accounts(body.values@, body.values@.len(), st);
                let s1 = lowered_all(body.values@, body.values@.len(), st);
                then.lemma_lowered_accounts(s1);
                let s2 = then.lowered(s1);
                let d2 = defined_all(body.values@, body.values@.len()) + then.defined();
                let u2 = used_all(body.values@, body.values@.len()) + then.used();
                lemma_chain(
                    st,
                    s1,
                    s2,
                    defined_all(body.values@, body.values@.len()),
                    used_all(body.values@, body.values@.len()),
                    then.defined(),
                    then.used(),
                );
                lemma_raise_step(s2, Unsupported { construct: Construct::TryCatch, ssa: self.ssa });
                lemma_chain(st, s2, after, d2, u2, none, none);
                assert(d2 + none =~= self.defined());
                assert(u2 + none =~= self.used());
            },
            SingleExpressionKind::Case { val, clauses, values } => {
                lemma_lowered_all_accounts(val.values@, val.values@.len(), st);
                let s0 = lowered_all(val.values@, val.values@.len(), st);
                lemma_lowered_all_accounts(values@, values@.len(), s0);
                let s1 = lowered_all(values@, values@.len(), s0);
                let d1 = defined_all(val.values@, val.values@.len()) + defined_all(
                    values@,
                    values@.len(),
                );
                let u1 = used_all(val.values@, val.values@.len()) + used_all(values@, values@.len());
                lemma_chain(
                    st,
                    s0,
                    s1,
                    defined_all(val.values@, val.values@.len()),
                    used_all(val.values@, val.values@.len()),
                    defined_all(values@, values@.len()),
                    used_all(values@, values@.len()),
                );
                let n = clauses@.len();
                let from = s1.current;
                let done = s1.next_label();
                let s2 = s1.add_block();
                let branches = lowered_clauses(clauses@, n, s2, done, self.ssa);
                let kind = OpKindView::Case {
                    vars: ssas(val.values@),
                    clauses: clause_patterns(clauses@),
                    value_vars: ssas(values@),
                };
                let s3 = branches.state.set_block(from).basic_op(kind, Seq::empty(), Seq::empty());
                let s4 = s3.add_jumps(from, branches.leaves, branches.leaves.len());
                lemma_lowered_clauses_extends(clauses@, n, s2, done, self.ssa);
                lemma_add_jumps(s3, from, branches.leaves, branches.leaves.len());
                assert(after.cfg == s4.cfg);
                if st.wf() && after.fits() {
                    assert(s1.wf());
                    assert(branches.state.fits());
                    assert(done.0 == s1.cfg.blocks.len());
                    assert(s2.cfg.blocks[done.0 as int] == BlockView::empty());
                    s1.lemma_add_block_counts();
                    lemma_lowered_clauses_accounts(clauses@, n, s2, done, self.ssa);
                    let s25 = branches.state.set_block(from);
                    assert(variables(none) =~= Seq::<Source>::empty());
                    lemma_op_accounts(s25, kind, none, none);
                    lemma_add_jumps_counts(s3, from, branches.leaves, branches.leaves.len());
                    lemma_accounts_same(s3, after);
                    lemma_accounts_trans(
                        s1,
                        branches.state,
                        s3,
                        defined_clauses(clauses@, n, self.ssa),
                        used_clauses(clauses@, n),
                        none,
                        none,
                    );
                    lemma_accounts_trans(
                        s1,
                        s3,
                        after,
                        defined_clauses(clauses@, n, self.ssa) + none,
                        used_clauses(clauses@, n) + none,
                        none,
                        none,
                    );
                    lemma_accounts_trans(
                        st,
                        s1,
                        after,
                        d1,
                        u1,
                        defined_clauses(clauses@, n, self.ssa) + none + none,
                        used_clauses(clauses@, n) + none + none,
                    );
                    assert(d1 + (defined_clauses(clauses@, n, self.ssa) + none + none)
                        =~= self.defined());
                    assert(u1 + (used_clauses(clauses@, n) + none + none) =~= self.used());
                }
            },
            SingleExpressionKind::Test { .. } => {
                lemma_accounts_same(st, after);
            },
            SingleExpressionKind::Do(first, last) => {
                lemma_lowered_all_accounts(first.values@, first.values@.len(), st);
                let s1 = lowered_all(first.values@, first.values@.len(), st);
                last.lemma_lowered_accounts(s1);
                lemma_chain(
                    st,
                    s1,
                    after,
                    defined_all(first.values@, first.values@.len()),
                    used_all(first.values@, first.values@.len()),
                    last.defined(),
                    last.used(),
                );
            },
            SingleExpressionKind::Receive { .. } => {
                lemma_raise_step(st, Unsupported { construct: Construct::Receive, ssa: self.ssa });
            },
        }
    }
}

/// Lowering nodes in order writes what they define and reads what they use.
pub proof fn lemma_lowered_all_accounts(exprs: Seq<SingleExpression>, n: nat, st: BuilderView)
    ensures
        lowering_accounts(st, lowered_all(exprs, n, st), defined_all(exprs, n), used_all(exprs, n)),
    decreases exprs, n,
{
    if n == 0 || n > exprs.len() {
        lemma_accounts_same(st, st);
    } else {
        lemma_lowered_all_accounts(exprs, (n - 1) as nat, st);
        let s1 = lowered_all(exprs, (n - 1) as nat, st);
        exprs[n - 1].lemma_lowered_accounts(s1);
        lemma_chain(
            st,
            s1,
            lowered_all(exprs, n, st),
            defined_all(exprs, (n - 1) as nat),
            used_all(exprs, (n - 1) as nat),
            exprs[n - 1].defined(),
            exprs[n - 1].used(),
        );
    }
}

/// Lowering map entries in order writes what they define and reads what they
/// use.
pub proof fn lemma_lowered_entries_accounts(
    entries: Seq<(SingleExpression, SingleExpression)>,
    n: nat,
    st: BuilderView,
)
    ensures
        lowering_accounts(
            st,
            lowered_entries(entries, n, st),
            defined_entries(entries, n),
            used_entries(entries, n),
        ),
    decreases entries, n,
{
    if n == 0 || n > entries.len() {
        lemma_accounts_same(st, st);
    } else {
        lemma_lowered_entries_accounts(entries, (n - 1) as nat, st);
        let s1 = lowered_entries(entries, (n - 1) as nat, st);
        let key = entries[n - 1].0;
        let value = entries[n - 1].1;
        key.lemma_lowered_accounts(s1);
        let s2 = key.lowered(s1);
        lemma_chain(
            st,
            s1,
            s2,
            defined_entries(entries, (n - 1) as nat),
            used_entries(entries, (n - 1) as nat),
            key.defined(),
            key.used(),
        );
        value.lemma_lowered_accounts(s2);
        lemma_chain(
            st,
            s2,
            lowered_entries(entries, n, st),
            defined_entries(entries, (n - 1) as nat) + key.defined(),
            used_entries(entries, (n - 1) as nat) + key.used(),
            value.defined(),
            value.used(),
        );
    }
}

/// Lowering the clauses of a case writes what the bodies define, and the
/// identifier of the case once; it reads what the bodies use, and the value
/// of each body.
pub proof fn lemma_lowered_clauses_accounts(
    clauses: Seq<HirClause>,
    n: nat,
    st: BuilderView,
    done: LabelN,
    ssa: SSAVariable,
)
    requires
        n <= clauses.len(),
        st.wf(),
        st.cfg.has_block(done),
        done != st.current,
        st.cfg.blocks[done.0 as int] == BlockView::empty(),
        lowered_clauses(clauses, n, st, done, ssa).state.fits(),
    ensures
        accounts(
            st,
            lowered_clauses(clauses, n, st, done, ssa).state,
            defined_clauses(clauses, n, ssa),
            used_clauses(clauses, n),
        ),
    decreases clauses, n,
{
    let none = Seq::<SSAVariable>::empty();
    if n == 0 {
        lemma_accounts_same(st, st);
    } else {
        let m = (n - 1) as nat;
        let before = lowered_clauses(clauses, m, st, done, ssa);
        let label = before.state.next_label();
        let s0 = before.state.add_block();
        let s1 = s0.set_block(label);
        let body = clauses[m as int].body;
        let s2 = body.lowered(s1);
        let s3 = s2.basic_op(OpKindView::Jump, Seq::empty(), Seq::empty());
        let s4 = s3.add_jump(s3.current, done);
        let after = lowered_clauses(clauses, n, st, done, ssa).state;
        assert(after == s4.add_phi(s3.current, body.value_id(), done, ssa));
        body.lemma_lowered_extends(s1);
        lemma_lowered_clauses_extends(clauses, m, st, done, ssa);
        assert(before.state.fits());
        lemma_lowered_clauses_accounts(clauses, m, st, done, ssa);
        lemma_clauses_shape(clauses, m, st, done, ssa);
        assert(label.0 == before.state.cfg.blocks.len());
        assert(s1.wf());
        before.state.lemma_add_block_counts();
        body.lemma_lowered_accounts(s1);
        assert(accounts(before.state, s2, body.defined(), body.used()));
        assert(variables(none) =~= Seq::<Source>::empty());
        lemma_op_accounts(s2, OpKindView::Jump, none, none);
        s3.lemma_add_jump_counts(s3.current, done);
        s4.lemma_add_phi_counts(s3.current, body.value_id(), done, ssa);
        let met = meeting_block(clauses, m, st, done, ssa);
        assert(s4.cfg.blocks[done.0 as int] == met);
        assert(phi_position(met.phi_nodes, ssa, 0) == 0);
        let last = if n == 1 {
            seq![ssa]
        } else {
            none
        };
        assert(accounts(s4, after, last, seq![body.value_id()])) by {
            broadcast use vstd::seq_lib::group_to_multiset_ensures;
            broadcast use vstd::multiset::group_multiset_axioms;

            assert(seq![body.value_id()] =~= none.push(body.value_id()));
            lemma_empty_counts(none);
            assert(seq![body.value_id()].to_multiset() =~= Multiset::singleton(body.value_id()));
            if n == 1 {
                assert(seq![ssa] =~= none.push(ssa));
                assert(seq![ssa].to_multiset() =~= Multiset::singleton(ssa));
            } else {
                lemma_add_nothing(s4.cfg.written());
            }
        }
        assert(accounts(s3, after, last, seq![body.value_id()]));
        lemma_accounts_trans(s2, s3, after, none, none, last, seq![body.value_id()]);
        assert(none + last =~= last);
        assert(none + seq![body.value_id()] =~= seq![body.value_id()]);
        lemma_accounts_trans(
            st,
            before.state,
            s2,
            defined_clauses(clauses, m, ssa),
            used_clauses(clauses, m),
            body.defined(),
            body.used(),
        );
        lemma_accounts_trans(
            st,
            s2,
            after,
            defined_clauses(clauses, m, ssa) + body.defined(),
            used_clauses(clauses, m) + body.used(),
            last,
            seq![body.value_id()],
        );
    }
}

impl Function {
    /// The lowered function writes exactly what the tree defines and reads
    /// exactly what the tree uses.
    pub proof fn lemma_lowered_accounts(&self)
        requires
            self.lowered().fits(),
        ensures
            self.lowered().cfg.written() == self.defined().to_multiset(),
            self.lowered().cfg.read() == self.used().to_multiset(),
    {
        broadcast use vstd::multiset::group_multiset_axioms;

        let none = Seq::<SSAVariable>::empty();
        let s0 = BuilderView::start(CfgView::initial());
        let s1 = s0.basic_op(OpKindView::Arguments, Seq::empty(), arg_ssas(self.args@));
        let s2 = self.body.lowered(s1);
        let after = self.lowered();
        assert(variables(none) =~= Seq::<Source>::empty());
        lemma_op_step(s0, OpKindView::Arguments, none, arg_ssas(self.args@));
        self.body.lemma_lowered_accounts(s1);
        lemma_chain(s0, s1, s2, arg_ssas(self.args@), none, self.body.defined(), self.body.used());
        lemma_op_step(s2, OpKindView::ReturnOk, seq![self.body.value_id()], none);
        assert(variables(seq![self.body.value_id()]) =~= seq![
            Source::Variable(self.body.value_id()),
        ]);
        lemma_chain(
            s0,
            s2,
            after,
            arg_ssas(self.args@) + self.body.defined(),
            none + self.body.used(),
            none,
            seq![self.body.value_id()],
        );
        assert(arg_ssas(self.args@) + self.body.defined() + none =~= self.defined());
        assert(none + self.body.used() + seq![self.body.value_id()] =~= self.used());
        // The graph that lowering starts from writes and reads nothing.
        CfgView { blocks: Seq::empty(), entry: LabelN(0) }.lemma_sites_counted();
        s0.cfg.lemma_sites_counted();
        BuilderView {
            cfg: CfgView { blocks: Seq::empty(), entry: LabelN(0) },
            current: LabelN(0),
            unsupported: Seq::empty(),
        }.lemma_add_block_counts();
        assert(s0.cfg.blocks =~= Seq::<BlockView>::empty().push(BlockView::empty()));
        assert(s0.cfg.written() =~= Multiset::empty());
        assert(s0.cfg.read() =~= Multiset::empty());
        assert(after.cfg.written() =~= self.defined().to_multiset());
        assert(after.cfg.read() =~= self.used().to_multiset());
    }
}

impl Function {
    /// In the graph of a lowered function each identifier is written by
    /// exactly one operation or phi node, if the tree names each value once,
    /// and only then.
    pub proof fn lemma_lowered_writes_once(&self)
        requires
            self.lowered().fits(),
        ensures
            self.lowered().cfg.writes_once() <==> self.defines_once(),
    {
        broadcast use vstd::multiset::group_multiset_axioms;

        self.lemma_lowered_accounts();
        let ids = self.defined();
        if ids.no_duplicates() {
            ids.lemma_multiset_has_no_duplicates();
            assert forall|id: SSAVariable| ids.to_multiset().count(id) <= 1 by {
                if ids.to_multiset().count(id) > 0 {
                    assert(ids.to_multiset().contains(id));
                }
            }
        }
        if self.lowered().cfg.writes_once() {
            assert forall|id: SSAVariable| ids.to_multiset().contains(id) implies ids.to_multiset().count(
                id,
            ) == 1 by {
                assert(self.lowered().cfg.written().count(id) <= 1);
            }
            ids.lemma_multiset_has_no_duplicates_conv();
        }
    }

    /// In the graph of a lowered function every identifier that an operation
    /// reads or a phi node takes as a source is written, if the tree defines
    /// what it uses, and only then. If the tree also names each value once,
    /// exactly one write of each such identifier exists.
    pub proof fn lemma_lowered_reads_defined(&self)
        requires
            self.lowered().fits(),
        ensures
            self.lowered().cfg.reads_defined() <==> self.defines_what_it_uses(),
            self.defines_what_it_uses() && self.defines_once() ==> forall|id: SSAVariable|
                self.lowered().cfg.read().count(id) > 0 ==> #[trigger] self.lowered().cfg.written().count(
                    id,
                ) == 1,
    {
        broadcast use vstd::multiset::group_multiset_axioms;
        broadcast use vstd::seq_lib::group_to_multiset_ensures;

        self.lemma_lowered_accounts();
        self.lemma_lowered_writes_once();
        let defined = self.defined();
        let used = self.used();
        let cfg = self.lowered().cfg;
        if self.defines_what_it_uses() {
            assert forall|id: SSAVariable| cfg.read().count(id) > 0 implies cfg.written().count(id)
                > 0 by {
                assert(used.contains(id));
                let i = choose|i: int| 0 <= i < used.len() && used[i] == id;
                assert(defined.contains(used[i]));
            }
        }
        if cfg.reads_defined() {
            assert forall|i: int| 0 <= i < used.len() implies defined.contains(#[trigger] used[i]) by {
                assert(used.contains(used[i]));
                assert(cfg.read().count(used[i]) > 0);
                assert(cfg.written().count(used[i]) > 0);
            }
        }
    }

    /// Validation finds nothing in the graph of a lowered function exactly if
    /// the tree names each value once and defines what it uses.
    pub proof fn lemma_lowered_validates(&self)
        requires
            self.lowered().fits(),
        ensures
            self.lowered().cfg.violations().len() == 0 <==> self.defines_once()
                && self.defines_what_it_uses(),
    {
        self.lemma_lowered_writes_once();
        self.lemma_lowered_reads_defined();
        self.lowered().cfg.lemma_clean_iff_proper();
    }
}

} // verus!
