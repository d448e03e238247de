//! The tree form of a function: structured expressions whose value-producing
//! nodes carry the identifiers their values will have in the graph form.
use vstd::prelude::*;

use crate::ir::{AFunctionName, AVariable, FunctionIdent, SSAVariable};
use crate::parser::AtomicLiteral;
use crate::{Atom, Variable};

pub mod doc;
pub mod pass;

verus! {

/// One function: its parameters, each with the identifier of its value, and
/// its body.
#[derive(Debug, PartialEq, Eq)]
pub struct Function {
    pub args: Vec<AVariable>,
    pub body: SingleExpression,
}

/// Expressions evaluated in order, each named on its own.
#[derive(Debug, PartialEq, Eq)]
pub struct Expression {
    pub values: Vec<SingleExpression>,
}

/// One node of the tree: the identifier of its value and what it does.
#[derive(Debug, PartialEq, Eq)]
pub struct SingleExpression {
    pub ssa: SSAVariable,
    pub kind: SingleExpressionKind,
}

/// Index of a slot in the table of captured environments.
#[derive(Debug, Clone, Copy, PartialEq, Eq, Hash, Structural)]
pub struct LambdaEnvIdx(pub usize);

/// What a node does.
#[derive(Debug, PartialEq, Eq)]
#[allow(inconsistent_fields)]
pub enum SingleExpressionKind {
    /// A reference to a variable, whose value is already named.
    Variable(AVariable),
    /// A reference to a function by name: one bound by an enclosing lambda
    /// if `is_lambda`, else a function of the module.
    NamedFunction { name: AFunctionName, is_lambda: bool },
    // Functions
    /// Makes one closure; `env_ssa` names the environment it captures.
    BindClosure { closure: Closure, lambda_env: Option<LambdaEnvIdx>, env_ssa: SSAVariable },
    /// Makes closures that share one environment, for use in `body`.
    BindClosures {
        closures: Vec<Closure>,
        lambda_env: Option<LambdaEnvIdx>,
        body: Box<SingleExpression>,
        env_ssa: SSAVariable,
    },
    // Value constructors
    /// A literal.
    Atomic(AtomicLiteral),
    Tuple(Vec<SingleExpression>),
    /// A list of the head elements in front of the tail.
    List { head: Vec<SingleExpression>, tail: Box<SingleExpression> },
    /// A map of keys to values, in the order written.
    KeyValue(Vec<(SingleExpression, SingleExpression)>),
    // Calls
    /// A call of a built-in operation.
    PrimOp { name: Atom, args: Vec<SingleExpression> },
    /// A call of a function value.
    ApplyCall { fun: Box<SingleExpression>, args: Vec<SingleExpression> },
    /// A call of a function of another module.
    InterModuleCall {
        module: Box<SingleExpression>,
        name: Box<SingleExpression>,
        args: Vec<SingleExpression>,
    },
    // Combinators
    /// Binds the values of `val` to `vars` for `body`.
    Let { vars: Vec<AVariable>, val: Expression, body: Box<SingleExpression> },
    /// Runs `body`, and goes on with `then` or, after a failure, with
    /// `catch`. `then` and `catch` bind the same number of variables.
    Try {
        body: Expression,
        then_vars: Vec<AVariable>,
        then: Box<SingleExpression>,
        catch_vars: Vec<AVariable>,
        catch: Box<SingleExpression>,
    },
    /// Matches the values of `val` against the clauses in order; `values`
    /// are the values that the patterns refer to.
    Case { val: Expression, clauses: Vec<Clause>, values: Vec<SingleExpression> },
    /// A test. The kind has no meaning yet, and nothing lowers it.
    Test { tests: Vec<TestEntry> },
    /// Evaluates the first part for its effect and is the second.
    Do(Expression, Box<SingleExpression>),
    /// Takes a message from the mailbox that matches a clause, or runs
    /// `timeout_body` after `timeout_time`.
    Receive {
        clauses: Vec<Clause>,
        timeout_time: Box<SingleExpression>,
        timeout_body: Box<SingleExpression>,
        pattern_values: Vec<SingleExpression>,
    },
}

/// One entry of a test node. No kind of entry has a meaning yet: the one
/// variant says so.
#[derive(Debug, Clone, Copy, PartialEq, Eq, Hash, Structural)]
pub enum TestEntry {
    Undefined,
}

/// A function value in the making: the name the source gave it, the call
/// target it resolves to, its body where it is a lambda written in place, and
/// the slot of the environment it captures.
#[derive(Debug, PartialEq, Eq)]
pub struct Closure {
    pub alias: Option<AFunctionName>,
    pub ident: Option<FunctionIdent>,
    pub fun: Option<Box<Function>>,
    pub env: Option<LambdaEnvIdx>,
}

/// One clause of a case or receive: a pattern for each value matched, a
/// guard, and the body to run.
#[derive(Debug, PartialEq, Eq)]
pub struct Clause {
    pub patterns: Vec<Pattern>,
    pub guard: SingleExpression,
    pub body: SingleExpression,
}

/// Whether `after` is what a post-order traversal may leave of `before`,
/// where `step` holds of every pair that the callback may turn one node
/// into: first the children are traversed, then the callback is given
/// the node that holds the traversed children.
pub open spec fn traversed(
    step: spec_fn(SingleExpression, SingleExpression) -> bool,
    enter_lambdas: bool,
    before: SingleExpression,
    after: SingleExpression,
) -> bool
    decreases before, 1nat,
{
    exists|mid: SingleExpression|
        children_traversed(step, enter_lambdas, before, mid) && #[trigger] step(mid, after)
}

/// Whether `mid` is `before` with its children traversed: the node keeps
/// its identifier and its kind, every child that the traversal enters is
/// traversed, and all else is as it was. The traversal enters the
/// arguments of a call, a let's values and body, a try's body and both
/// its continuations, a case's values, pattern values and clause bodies,
/// the elements of a tuple, a list or a map, the arguments of a primitive
/// operation, both parts of a sequencing, a receive's pattern values,
/// timeout and clause bodies, and, if `enter_lambdas`, the bodies of
/// closures.
pub open spec fn children_traversed(
    step: spec_fn(SingleExpression, SingleExpression) -> bool,
    enter_lambdas: bool,
    before: SingleExpression,
    mid: SingleExpression,
) -> bool
    decreases before, 0nat,
{
    &&& mid.ssa == before.ssa
    &&& match before.kind {
        SingleExpressionKind::Variable(_) => mid.kind == before.kind,
        SingleExpressionKind::NamedFunction { .. } => mid.kind == before.kind,
        SingleExpressionKind::Atomic(_) => mid.kind == before.kind,
        SingleExpressionKind::Test { .. } => mid.kind == before.kind,
        SingleExpressionKind::BindClosure { closure, lambda_env, env_ssa } => {
            &&& mid.kind matches SingleExpressionKind::BindClosure {
                closure: closure2,
                lambda_env: lambda_env2,
                env_ssa: env_ssa2,
            }
            &&& lambda_env2 == lambda_env
            &&& env_ssa2 == env_ssa
            &&& closure_traversed(step, enter_lambdas, closure, closure2)
        },
        SingleExpressionKind::BindClosures { closures, lambda_env, body, env_ssa } => {
            &&& mid.kind matches SingleExpressionKind::BindClosures {
                closures: closures2,
                lambda_env: lambda_env2,
                body: body2,
                env_ssa: env_ssa2,
            }
            &&& lambda_env2 == lambda_env
            &&& env_ssa2 == env_ssa
            &&& body2 == body
            &&& closures_traversed(step, enter_lambdas, closures@, closures2@)
        },
        SingleExpressionKind::Tuple(elems) => {
            &&& mid.kind matches SingleExpressionKind::Tuple(elems2)
            &&& all_traversed(step, enter_lambdas, elems@, elems2@)
        },
        SingleExpressionKind::List { head, tail } => {
            &&& mid.kind matches SingleExpressionKind::List { head: head2, tail: tail2 }
            &&& all_traversed(step, enter_lambdas, head@, head2@)
            &&& traversed(step, enter_lambdas, *tail, *tail2)
        },
        SingleExpressionKind::KeyValue(entries) => {
            &&& mid.kind matches SingleExpressionKind::KeyValue(entries2)
            &&& entries_traversed(step, enter_lambdas, entries@, entries2@)
        },
        SingleExpressionKind::PrimOp { name, args } => {
            &&& mid.kind matches SingleExpressionKind::PrimOp { name: name2, args: args2 }
            &&& name2 == name
            &&& all_traversed(step, enter_lambdas, args@, args2@)
        },
        SingleExpressionKind::ApplyCall { fun, args } => {
            &&& mid.kind matches SingleExpressionKind::ApplyCall { fun: fun2, args: args2 }
            &&& fun2 == fun
            &&& all_traversed(step, enter_lambdas, args@, args2@)
        },
        SingleExpressionKind::InterModuleCall { module, name, args } => {
            &&& mid.kind matches SingleExpressionKind::InterModuleCall {
                module: module2,
                name: name2,
                args: args2,
            }
            &&& module2 == module
            &&& name2 == name
            &&& all_traversed(step, enter_lambdas, args@, args2@)
        },
        SingleExpressionKind::Let { vars, val, body } => {
            &&& mid.kind matches SingleExpressionKind::Let { vars: vars2, val: val2, body: body2 }
            &&& vars2 == vars
            &&& all_traversed(step, enter_lambdas, val.values@, val2.values@)
            &&& traversed(step, enter_lambdas, *body, *body2)
        },
        SingleExpressionKind::Try { body, then_vars, then, catch_vars, catch } => {
            &&& mid.kind matches SingleExpressionKind::Try {
                body: body2,
                then_vars: then_vars2,
                then: then2,
                catch_vars: catch_vars2,
                catch: catch2,
            }
            &&& then_vars2 == then_vars
            &&& catch_vars2 == catch_vars
            &&& all_traversed(step, enter_lambdas, body.values@, body2.values@)
            &&& traversed(step, enter_lambdas, *then, *then2)
            &&& traversed(step, enter_lambdas, *catch, *catch2)
        },
        SingleExpressionKind::Case { val, clauses, values } => {
            &&& mid.kind matches SingleExpressionKind::Case {
                val: val2,
                clauses: clauses2,
                values: values2,
            }
            &&& all_traversed(step, enter_lambdas, val.values@, val2.values@)
            &&& all_traversed(step, enter_lambdas, values@, values2@)
            &&& clauses_traversed(step, enter_lambdas, clauses@, clauses2@)
        },
        SingleExpressionKind::Do(first, last) => {
            &&& mid.kind matches SingleExpressionKind::Do(first2, last2)
            &&& all_traversed(step, enter_lambdas, first.values@, first2.values@)
            &&& traversed(step, enter_lambdas, *last, *last2)
        },
        SingleExpressionKind::Receive { clauses, timeout_time, timeout_body, pattern_values } => {
            &&& mid.kind matches SingleExpressionKind::Receive {
                clauses: clauses2,
                timeout_time: timeout_time2,
                timeout_body: timeout_body2,
                pattern_values: pattern_values2,
            }
            &&& all_traversed(step, enter_lambdas, pattern_values@, pattern_values2@)
            &&& traversed(step, enter_lambdas, *timeout_time, *timeout_time2)
            &&& traversed(step, enter_lambdas, *timeout_body, *timeout_body2)
            &&& clauses_traversed(step, enter_lambdas, clauses@, clauses2@)
        },
    }
}

/// Whether each of `after` is what a traversal may leave of the node of
/// `before` at its place.
pub open spec fn all_traversed(
    step: spec_fn(SingleExpression, SingleExpression) -> bool,
    enter_lambdas: bool,
    before: Seq<SingleExpression>,
    after: Seq<SingleExpression>,
) -> bool
    decreases before, 1nat,
{
    &&& after.len() == before.len()
    &&& forall|i: int|
        0 <= i < before.len() ==> all_traversed_at(step, enter_lambdas, #[trigger] before[i], after[i])
}

/// One place of [`all_traversed`].
pub open spec fn all_traversed_at(
    step: spec_fn(SingleExpression, SingleExpression) -> bool,
    enter_lambdas: bool,
    before: SingleExpression,
    after: SingleExpression,
) -> bool
    decreases before, 2nat,
{
    traversed(step, enter_lambdas, before, after)
}

/// Whether each of `after` is the entry of `before` at its place with its
/// key and its value traversed.
pub open spec fn entries_traversed(
    step: spec_fn(SingleExpression, SingleExpression) -> bool,
    enter_lambdas: bool,
    before: Seq<(SingleExpression, SingleExpression)>,
    after: Seq<(SingleExpression, SingleExpression)>,
) -> bool
    decreases before, 1nat,
{
    &&& after.len() == before.len()
    &&& forall|i: int|
        0 <= i < before.len() ==> entries_traversed_at(
            step,
            enter_lambdas,
            #[trigger] before[i],
            after[i],
        )
}

/// One place of [`entries_traversed`].
pub open spec fn entries_traversed_at(
    step: spec_fn(SingleExpression, SingleExpression) -> bool,
    enter_lambdas: bool,
    before: (SingleExpression, SingleExpression),
    after: (SingleExpression, SingleExpression),
) -> bool
    decreases before, 0nat,
{
    traversed(step, enter_lambdas, before.0, after.0) && traversed(
        step,
        enter_lambdas,
        before.1,
        after.1,
    )
}

/// Whether each of `after` is the clause of `before` at its place with its
/// body traversed and its patterns and guard as they were.
pub open spec fn clauses_traversed(
    step: spec_fn(SingleExpression, SingleExpression) -> bool,
    enter_lambdas: bool,
    before: Seq<Clause>,
    after: Seq<Clause>,
) -> bool
    decreases before, 1nat,
{
    &&& after.len() == before.len()
    &&& forall|i: int|
        0 <= i < before.len() ==> clauses_traversed_at(
            step,
            enter_lambdas,
            #[trigger] before[i],
            after[i],
        )
}

/// One place of [`clauses_traversed`].
pub open spec fn clauses_traversed_at(
    step: spec_fn(SingleExpression, SingleExpression) -> bool,
    enter_lambdas: bool,
    before: Clause,
    after: Clause,
) -> bool
    decreases before, 0nat,
{
    &&& after.patterns == before.patterns
    &&& after.guard == before.guard
    &&& traversed(step, enter_lambdas, before.body, after.body)
}

/// Whether each of `after` is the closure of `before` at its place,
/// traversed.
pub open spec fn closures_traversed(
    step: spec_fn(SingleExpression, SingleExpression) -> bool,
    enter_lambdas: bool,
    before: Seq<Closure>,
    after: Seq<Closure>,
) -> bool
    decreases before, 1nat,
{
    &&& after.len() == before.len()
    &&& forall|i: int|
        0 <= i < before.len() ==> closures_traversed_at(
            step,
            enter_lambdas,
            #[trigger] before[i],
            after[i],
        )
}

/// One place of [`closures_traversed`].
pub open spec fn closures_traversed_at(
    step: spec_fn(SingleExpression, SingleExpression) -> bool,
    enter_lambdas: bool,
    before: Closure,
    after: Closure,
) -> bool
    decreases before, 1nat,
{
    closure_traversed(step, enter_lambdas, before, after)
}

/// Whether `after` is the closure `before`, traversed: if `enter_lambdas`
/// and the closure owns a body, that body is traversed; all else is as it
/// was.
pub open spec fn closure_traversed(
    step: spec_fn(SingleExpression, SingleExpression) -> bool,
    enter_lambdas: bool,
    before: Closure,
    after: Closure,
) -> bool
    decreases before, 0nat,
{
    &&& after.alias == before.alias
    &&& after.ident == before.ident
    &&& after.env == before.env
    &&& match before.fun {
        Some(fun) => if enter_lambdas {
            &&& after.fun matches Some(fun2)
            &&& fun2.args == fun.args
            &&& traversed(step, enter_lambdas, fun.body, fun2.body)
        } else {
            after.fun == before.fun
        },
        None => after.fun is None,
    }
}

/// Traverses each of `v` in order.
fn traverse_all<F>(v: &mut Vec<SingleExpression>, f: &mut F, enter_lambdas: bool) where
    F: FnMut(&mut SingleExpression),

    requires
        forall|x: &mut SingleExpression| call_requires(*old(f), (x,)),
    ensures
        forall|step: spec_fn(SingleExpression, SingleExpression) -> bool|
            (forall|x: &mut SingleExpression| call_ensures(*old(f), (x,), ()) ==> step(*x, *final(x)))
                ==> #[trigger] all_traversed(step, enter_lambdas, old(v)@, final(v)@),
        *final(f) == *old(f),
    decreases *old(v), 0nat,
{
    let ghost v0 = v@;
    let mut i: usize = 0;
    while i < v.len()
        invariant
            i <= v.len(),
            v@.len() == v0.len(),
            v0 == old(v)@,
            forall|x: &mut SingleExpression| call_requires(*f, (x,)),
            *f == *old(f),
            forall|step: spec_fn(SingleExpression, SingleExpression) -> bool, k: int|
                (forall|x: &mut SingleExpression| call_ensures(*old(f), (x,), ()) ==> step(*x, *final(x)))
                    && 0 <= k < i ==> #[trigger] all_traversed_at(step, enter_lambdas, v0[k], v@[k]),
            forall|k: int| i <= k < v0.len() ==> v@[k] == #[trigger] v0[k],
        decreases v.len() - i,
    {
        assert(v@[i as int] == v0[i as int]);
        assert(decreases_to!(v0 => v0[i as int]));
        let ghost item0 = v@[i as int];
        let item = &mut v[i];
        traverse(item, f, enter_lambdas);
        assert forall|step: spec_fn(SingleExpression, SingleExpression) -> bool|
            (forall|x: &mut SingleExpression| call_ensures(*old(f), (x,), ()) ==> step(*x, *final(x)))
            implies #[trigger] all_traversed_at(step, enter_lambdas, item0, v@[i as int]) by {
            assert(traversed(step, enter_lambdas, item0, v@[i as int]));
        }
        i = i + 1;
    }
    assert forall|step: spec_fn(SingleExpression, SingleExpression) -> bool|
        (forall|x: &mut SingleExpression| call_ensures(*old(f), (x,), ()) ==> step(*x, *final(x)))
        implies #[trigger] all_traversed(step, enter_lambdas, old(v)@, v@) by {
        assert forall|k: int| 0 <= k < v0.len() implies all_traversed_at(
            step,
            enter_lambdas,
            #[trigger] v0[k],
            v@[k],
        ) by {
        }
    }
}

/// Traverses each key of `v` and then its value, entry by entry.
fn traverse_entries<F>(
    v: &mut Vec<(SingleExpression, SingleExpression)>,
    f: &mut F,
    enter_lambdas: bool,
) where
    F: FnMut(&mut SingleExpression),

    requires
        forall|x: &mut SingleExpression| call_requires(*old(f), (x,)),
    ensures
        forall|step: spec_fn(SingleExpression, SingleExpression) -> bool|
            (forall|x: &mut SingleExpression| call_ensures(*old(f), (x,), ()) ==> step(*x, *final(x)))
                ==> #[trigger] entries_traversed(step, enter_lambdas, old(v)@, final(v)@),
        *final(f) == *old(f),
    decreases *old(v), 0nat,
{
    let ghost v0 = v@;
    let mut i: usize = 0;
    while i < v.len()
        invariant
            i <= v.len(),
            v@.len() == v0.len(),
            v0 == old(v)@,
            forall|x: &mut SingleExpression| call_requires(*f, (x,)),
            *f == *old(f),
            forall|step: spec_fn(SingleExpression, SingleExpression) -> bool, k: int|
                (forall|x: &mut SingleExpression| call_ensures(*old(f), (x,), ()) ==> step(*x, *final(x)))
                    && 0 <= k < i ==> #[trigger] entries_traversed_at(step, enter_lambdas, v0[k], v@[k]),
            forall|k: int| i <= k < v0.len() ==> v@[k] == #[trigger] v0[k],
        decreases v.len() - i,
    {
        assert(v@[i as int] == v0[i as int]);
        assert(decreases_to!(v0 => v0[i as int]));
        let ghost item0 = v@[i as int];
        let item = &mut v[i];
        assert(decreases_to!(item0 => item0.0));
        assert(decreases_to!(item0 => item0.1));
        traverse(&mut item.0, f, enter_lambdas);
        traverse(&mut item.1, f, enter_lambdas);
        assert forall|step: spec_fn(SingleExpression, SingleExpression) -> bool|
            (forall|x: &mut SingleExpression| call_ensures(*old(f), (x,), ()) ==> step(*x, *final(x)))
            implies #[trigger] entries_traversed_at(step, enter_lambdas, item0, v@[i as int]) by {
            assert(traversed(step, enter_lambdas, item0.0, v@[i as int].0));
            assert(traversed(step, enter_lambdas, item0.1, v@[i as int].1));
        }
        i = i + 1;
    }
    assert forall|step: spec_fn(SingleExpression, SingleExpression) -> bool|
        (forall|x: &mut SingleExpression| call_ensures(*old(f), (x,), ()) ==> step(*x, *final(x)))
        implies #[trigger] entries_traversed(step, enter_lambdas, old(v)@, v@) by {
        assert forall|k: int| 0 <= k < v0.len() implies entries_traversed_at(
            step,
            enter_lambdas,
            #[trigger] v0[k],
            v@[k],
        ) by {
        }
    }
}

/// Traverses the body of each clause of `v` in order.
fn traverse_clauses<F>(v: &mut Vec<Clause>, f: &mut F, enter_lambdas: bool) where
    F: FnMut(&mut SingleExpression),

    requires
        forall|x: &mut SingleExpression| call_requires(*old(f), (x,)),
    ensures
        forall|step: spec_fn(SingleExpression, SingleExpression) -> bool|
            (forall|x: &mut SingleExpression| call_ensures(*old(f), (x,), ()) ==> step(*x, *final(x)))
                ==> #[trigger] clauses_traversed(step, enter_lambdas, old(v)@, final(v)@),
        *final(f) == *old(f),
    decreases *old(v), 0nat,
{
    let ghost v0 = v@;
    let mut i: usize = 0;
    while i < v.len()
        invariant
            i <= v.len(),
            v@.len() == v0.len(),
            v0 == old(v)@,
            forall|x: &mut SingleExpression| call_requires(*f, (x,)),
            *f == *old(f),
            forall|step: spec_fn(SingleExpression, SingleExpression) -> bool, k: int|
                (forall|x: &mut SingleExpression| call_ensures(*old(f), (x,), ()) ==> step(*x, *final(x)))
                    && 0 <= k < i ==> #[trigger] clauses_traversed_at(step, enter_lambdas, v0[k], v@[k]),
            forall|k: int| i <= k < v0.len() ==> v@[k] == #[trigger] v0[k],
        decreases v.len() - i,
    {
        assert(v@[i as int] == v0[i as int]);
        assert(decreases_to!(v0 => v0[i as int]));
        let ghost item0 = v@[i as int];
        let item = &mut v[i];
        assert(decreases_to!(item0 => item0.body));
        traverse(&mut item.body, f, enter_lambdas);
        assert forall|step: spec_fn(SingleExpression, SingleExpression) -> bool|
            (forall|x: &mut SingleExpression| call_ensures(*old(f), (x,), ()) ==> step(*x, *final(x)))
            implies #[trigger] clauses_traversed_at(step, enter_lambdas, item0, v@[i as int]) by {
            assert(traversed(step, enter_lambdas, item0.body, v@[i as int].body));
        }
        i = i + 1;
    }
    assert forall|step: spec_fn(SingleExpression, SingleExpression) -> bool|
        (forall|x: &mut SingleExpression| call_ensures(*old(f), (x,), ()) ==> step(*x, *final(x)))
        implies #[trigger] clauses_traversed(step, enter_lambdas, old(v)@, v@) by {
        assert forall|k: int| 0 <= k < v0.len() implies clauses_traversed_at(
            step,
            enter_lambdas,
            #[trigger] v0[k],
            v@[k],
        ) by {
        }
    }
}

/// Traverses each closure of `v` in order.
fn traverse_closures<F>(v: &mut Vec<Closure>, f: &mut F, enter_lambdas: bool) where
    F: FnMut(&mut SingleExpression),

    requires
        forall|x: &mut SingleExpression| call_requires(*old(f), (x,)),
    ensures
        forall|step: spec_fn(SingleExpression, SingleExpression) -> bool|
            (forall|x: &mut SingleExpression| call_ensures(*old(f), (x,), ()) ==> step(*x, *final(x)))
                ==> #[trigger] closures_traversed(step, enter_lambdas, old(v)@, final(v)@),
        *final(f) == *old(f),
    decreases *old(v), 0nat,
{
    let ghost v0 = v@;
    let mut i: usize = 0;
    while i < v.len()
        invariant
            i <= v.len(),
            v@.len() == v0.len(),
            v0 == old(v)@,
            forall|x: &mut SingleExpression| call_requires(*f, (x,)),
            *f == *old(f),
            forall|step: spec_fn(SingleExpression, SingleExpression) -> bool, k: int|
                (forall|x: &mut SingleExpression| call_ensures(*old(f), (x,), ()) ==> step(*x, *final(x)))
                    && 0 <= k < i ==> #[trigger] closures_traversed_at(step, enter_lambdas, v0[k], v@[k]),
            forall|k: int| i <= k < v0.len() ==> v@[k] == #[trigger] v0[k],
        decreases v.len() - i,
    {
        assert(v@[i as int] == v0[i as int]);
        assert(decreases_to!(v0 => v0[i as int]));
        let ghost item0 = v@[i as int];
        let item = &mut v[i];
        traverse_closure(item, f, enter_lambdas);
        assert forall|step: spec_fn(SingleExpression, SingleExpression) -> bool|
            (forall|x: &mut SingleExpression| call_ensures(*old(f), (x,), ()) ==> step(*x, *final(x)))
            implies #[trigger] closures_traversed_at(step, enter_lambdas, item0, v@[i as int]) by {
            assert(closure_traversed(step, enter_lambdas, item0, v@[i as int]));
        }
        i = i + 1;
    }
    assert forall|step: spec_fn(SingleExpression, SingleExpression) -> bool|
        (forall|x: &mut SingleExpression| call_ensures(*old(f), (x,), ()) ==> step(*x, *final(x)))
        implies #[trigger] closures_traversed(step, enter_lambdas, old(v)@, v@) by {
        assert forall|k: int| 0 <= k < v0.len() implies closures_traversed_at(
            step,
            enter_lambdas,
            #[trigger] v0[k],
            v@[k],
        ) by {
        }
    }
}

/// Traverses the body that the closure owns, if it owns one and
/// `enter_lambdas` is set.
fn traverse_closure<F>(c: &mut Closure, f: &mut F, enter_lambdas: bool) where
    F: FnMut(&mut SingleExpression),

    requires
        forall|x: &mut SingleExpression| call_requires(*old(f), (x,)),
    ensures
        forall|step: spec_fn(SingleExpression, SingleExpression) -> bool|
            (forall|x: &mut SingleExpression| call_ensures(*old(f), (x,), ()) ==> step(*x, *final(x)))
                ==> #[trigger] closure_traversed(step, enter_lambdas, *old(c), *final(c)),
        *final(f) == *old(f),
    decreases *old(c), 0nat,
{
    if enter_lambdas {
        match &mut c.fun {
            Some(fun) => {
                traverse(&mut fun.body, f, enter_lambdas);
            },
            None => {},
        }
    }
    assert forall|step: spec_fn(SingleExpression, SingleExpression) -> bool|
        (forall|x: &mut SingleExpression| call_ensures(*old(f), (x,), ()) ==> step(*x, *final(x)))
        implies #[trigger] closure_traversed(step, enter_lambdas, *old(c), *c) by {
        if enter_lambdas && old(c).fun is Some {
            assert(traversed(
                step,
                enter_lambdas,
                old(c).fun->Some_0.body,
                c.fun->Some_0.body,
            ));
        }
    }
}

/// Traverses the subtree at `n` in post-order.
fn traverse<F>(n: &mut SingleExpression, f: &mut F, enter_lambdas: bool) where
    F: FnMut(&mut SingleExpression),

    requires
        forall|x: &mut SingleExpression| call_requires(*old(f), (x,)),
    ensures
        forall|step: spec_fn(SingleExpression, SingleExpression) -> bool|
            (forall|x: &mut SingleExpression| call_ensures(*old(f), (x,), ()) ==> step(*x, *final(x)))
                ==> #[trigger] traversed(step, enter_lambdas, *old(n), *final(n)),
        *final(f) == *old(f),
    decreases *old(n), 1nat,
{
    match &mut n.kind {
        SingleExpressionKind::Atomic(_) => {},
        SingleExpressionKind::Variable(_) => {},
        SingleExpressionKind::NamedFunction { .. } => {},
        SingleExpressionKind::ApplyCall { args, .. } => {
            traverse_all(args, f, enter_lambdas);
        },
        SingleExpressionKind::InterModuleCall { args, .. } => {
            traverse_all(args, f, enter_lambdas);
        },
        SingleExpressionKind::Let { val, body, .. } => {
            traverse_all(&mut val.values, f, enter_lambdas);
            traverse(&mut **body, f, enter_lambdas);
        },
        SingleExpressionKind::Try { body, then, catch, .. } => {
            traverse_all(&mut body.values, f, enter_lambdas);
            traverse(&mut **then, f, enter_lambdas);
            traverse(&mut **catch, f, enter_lambdas);
        },
        SingleExpressionKind::Case { val, clauses, values } => {
            traverse_all(&mut val.values, f, enter_lambdas);
            traverse_all(values, f, enter_lambdas);
            traverse_clauses(clauses, f, enter_lambdas);
        },
        SingleExpressionKind::Tuple(vals) => {
            traverse_all(vals, f, enter_lambdas);
        },
        SingleExpressionKind::List { head, tail } => {
            traverse_all(head, f, enter_lambdas);
            traverse(&mut **tail, f, enter_lambdas);
        },
        SingleExpressionKind::KeyValue(entries) => {
            traverse_entries(entries, f, enter_lambdas);
        },
        SingleExpressionKind::PrimOp { args, .. } => {
            traverse_all(args, f, enter_lambdas);
        },
        SingleExpressionKind::Do(first, last) => {
            traverse_all(&mut first.values, f, enter_lambdas);
            traverse(&mut **last, f, enter_lambdas);
        },
        SingleExpressionKind::Receive { timeout_time, timeout_body, clauses, pattern_values } => {
            traverse_all(pattern_values, f, enter_lambdas);
            traverse(&mut **timeout_time, f, enter_lambdas);
            traverse(&mut **timeout_body, f, enter_lambdas);
            traverse_clauses(clauses, f, enter_lambdas);
        },
        SingleExpressionKind::BindClosure { closure, .. } => {
            traverse_closure(closure, f, enter_lambdas);
        },
        SingleExpressionKind::BindClosures { closures, .. } => {
            traverse_closures(closures, f, enter_lambdas);
        },
        SingleExpressionKind::Test { .. } => {},
    }
    let ghost mid = *n;
    assert forall|step: spec_fn(SingleExpression, SingleExpression) -> bool|
        (forall|x: &mut SingleExpression| call_ensures(*old(f), (x,), ()) ==> step(*x, *final(x)))
        implies children_traversed(step, enter_lambdas, *old(n), mid) by {
        let t = |a: SingleExpression, b: SingleExpression| traversed(step, enter_lambdas, a, b);
        let ts = |a: Seq<SingleExpression>, b: Seq<SingleExpression>|
            all_traversed(step, enter_lambdas, a, b);
        let cs = |a: Seq<Clause>, b: Seq<Clause>| clauses_traversed(step, enter_lambdas, a, b);
        match old(n).kind {
            SingleExpressionKind::Atomic(_) => {},
            SingleExpressionKind::Variable(_) => {},
            SingleExpressionKind::NamedFunction { .. } => {},
            SingleExpressionKind::Test { .. } => {},
            SingleExpressionKind::ApplyCall { args, .. } => {
                assert(ts(args@, mid.kind->ApplyCall_args@));
            },
            SingleExpressionKind::InterModuleCall { args, .. } => {
                assert(ts(args@, mid.kind->InterModuleCall_args@));
            },
            SingleExpressionKind::Let { val, body, .. } => {
                assert(ts(val.values@, mid.kind->Let_val.values@));
                assert(t(*body, *mid.kind->Let_body));
            },
            SingleExpressionKind::Try { body, then, catch, .. } => {
                assert(ts(body.values@, mid.kind->Try_body.values@));
                assert(t(*then, *mid.kind->Try_then));
                assert(t(*catch, *mid.kind->Try_catch));
            },
            SingleExpressionKind::Case { val, clauses, values } => {
                assert(ts(val.values@, mid.kind->Case_val.values@));
                assert(ts(values@, mid.kind->Case_values@));
                assert(cs(clauses@, mid.kind->Case_clauses@));
            },
            SingleExpressionKind::Tuple(vals) => {
                assert(ts(vals@, mid.kind->Tuple_0@));
            },
            SingleExpressionKind::List { head, tail } => {
                assert(ts(head@, mid.kind->List_head@));
                assert(t(*tail, *mid.kind->List_tail));
            },
            SingleExpressionKind::KeyValue(entries) => {
                assert(entries_traversed(step, enter_lambdas, entries@, mid.kind->KeyValue_0@));
            },
            SingleExpressionKind::PrimOp { args, .. } => {
                assert(ts(args@, mid.kind->PrimOp_args@));
            },
            SingleExpressionKind::Do(first, last) => {
                assert(ts(first.values@, mid.kind->Do_0.values@));
                assert(t(*last, *mid.kind->Do_1));
            },
            SingleExpressionKind::Receive { timeout_time, timeout_body, clauses, pattern_values } => {
                assert(ts(pattern_values@, mid.kind->Receive_pattern_values@));
                assert(t(*timeout_time, *mid.kind->Receive_timeout_time));
                assert(t(*timeout_body, *mid.kind->Receive_timeout_body));
                assert(cs(clauses@, mid.kind->Receive_clauses@));
            },
            SingleExpressionKind::BindClosure { closure, .. } => {
                assert(closure_traversed(step, enter_lambdas, closure, mid.kind->BindClosure_closure));
            },
            SingleExpressionKind::BindClosures { closures, .. } => {
                assert(closures_traversed(
                    step,
                    enter_lambdas,
                    closures@,
                    mid.kind->BindClosures_closures@,
                ));
            },
        }
    }
    f(n);
    assert forall|step: spec_fn(SingleExpression, SingleExpression) -> bool|
        (forall|x: &mut SingleExpression| call_ensures(*old(f), (x,), ()) ==> step(*x, *final(x)))
        implies #[trigger] traversed(step, enter_lambdas, *old(n), *n) by {
        assert(children_traversed(step, enter_lambdas, *old(n), mid));
        assert(step(mid, *n));
    }
}

/// A tree whose nodes a callback can visit and rewrite in place.
pub trait EachSingleExpression: Sized {
    /// Whether `after` is what the traversal may leave of `before`, where
    /// `step` holds of every pair that the callback may turn one node into.
    spec fn visited(
        step: spec_fn(SingleExpression, SingleExpression) -> bool,
        enter_lambdas: bool,
        before: Self,
        after: Self,
    ) -> bool;

    /// Visits every node of the tree in post-order: the children of a node
    /// first, then the node itself, which the callback may rewrite. With
    /// `enter_lambdas` unset the bodies of closures are not entered. The
    /// callback is taken by `&mut` and comes back as it was.
    fn each_single_expression_mut<F>(&mut self, f: &mut F, enter_lambdas: bool) where
        F: FnMut(&mut SingleExpression),

        requires
            forall|x: &mut SingleExpression| call_requires(*old(f), (x,)),
        ensures
            forall|step: spec_fn(SingleExpression, SingleExpression) -> bool|
                (forall|x: &mut SingleExpression| call_ensures(*old(f), (x,), ()) ==> step(*x, *final(x)))
                    ==> #[trigger] Self::visited(step, enter_lambdas, *old(self), *final(self)),
            *final(f) == *old(f),
    ;
}

impl EachSingleExpression for Function {
    open spec fn visited(
        step: spec_fn(SingleExpression, SingleExpression) -> bool,
        enter_lambdas: bool,
        before: Self,
        after: Self,
    ) -> bool {
        after.args == before.args && traversed(step, enter_lambdas, before.body, after.body)
    }

    fn each_single_expression_mut<F>(&mut self, f: &mut F, enter_lambdas: bool) where
        F: FnMut(&mut SingleExpression),
     {
        traverse(&mut self.body, f, enter_lambdas);
        assert forall|step: spec_fn(SingleExpression, SingleExpression) -> bool|
            (forall|x: &mut SingleExpression| call_ensures(*old(f), (x,), ()) ==> step(*x, *final(x)))
            implies #[trigger] Self::visited(step, enter_lambdas, *old(self), *self) by {
            assert(traversed(step, enter_lambdas, old(self).body, self.body));
        }
    }
}

impl EachSingleExpression for Expression {
    open spec fn visited(
        step: spec_fn(SingleExpression, SingleExpression) -> bool,
        enter_lambdas: bool,
        before: Self,
        after: Self,
    ) -> bool {
        all_traversed(step, enter_lambdas, before.values@, after.values@)
    }

    fn each_single_expression_mut<F>(&mut self, f: &mut F, enter_lambdas: bool) where
        F: FnMut(&mut SingleExpression),
     {
        traverse_all(&mut self.values, f, enter_lambdas);
        assert forall|step: spec_fn(SingleExpression, SingleExpression) -> bool|
            (forall|x: &mut SingleExpression| call_ensures(*old(f), (x,), ()) ==> step(*x, *final(x)))
            implies #[trigger] Self::visited(step, enter_lambdas, *old(self), *self) by {
            assert(all_traversed(step, enter_lambdas, old(self).values@, self.values@));
        }
    }
}

impl EachSingleExpression for SingleExpression {
    open spec fn visited(
        step: spec_fn(SingleExpression, SingleExpression) -> bool,
        enter_lambdas: bool,
        before: Self,
        after: Self,
    ) -> bool {
        traversed(step, enter_lambdas, before, after)
    }

    fn each_single_expression_mut<F>(&mut self, f: &mut F, enter_lambdas: bool) where
        F: FnMut(&mut SingleExpression),
     {
        traverse(self, f, enter_lambdas);
        assert forall|step: spec_fn(SingleExpression, SingleExpression) -> bool|
            (forall|x: &mut SingleExpression| call_ensures(*old(f), (x,), ()) ==> step(*x, *final(x)))
            implies #[trigger] Self::visited(step, enter_lambdas, *old(self), *self) by {
            assert(traversed(step, enter_lambdas, *old(self), *self));
        }
    }
}

/// What a pattern binds: each variable with the identifier its value receives.
#[derive(Debug, PartialEq, Eq)]
pub struct Pattern {
    pub bindings: Vec<(Variable, SSAVariable)>,
    pub node: PatternNode,
}

/// The shape a pattern matches.
#[derive(Debug, PartialEq, Eq)]
pub enum PatternNode {
    Variable(Variable),
    Bind(Variable, Box<PatternNode>),
    Atomic(AtomicLiteral),
    Tuple(Vec<PatternNode>),
    List(Vec<PatternNode>, Box<PatternNode>),
    KeyValue(Vec<(usize, Box<PatternNode>)>),
}

/// The mathematical value of a [`PatternNode`].
pub enum PatternNodeView {
    Variable(Variable),
    Bind(Variable, Box<PatternNodeView>),
    Atomic(AtomicLiteral),
    Tuple(Seq<PatternNodeView>),
    List(Seq<PatternNodeView>, Box<PatternNodeView>),
    KeyValue(Seq<(usize, PatternNodeView)>),
}

/// The mathematical value of a [`Pattern`].
pub struct PatternView {
    pub bindings: Seq<(Variable, SSAVariable)>,
    pub node: PatternNodeView,
}

impl PatternNode {
    /// The mathematical value of the shape.
    pub open spec fn model(&self) -> PatternNodeView
        decreases self,
    {
        match self {
            PatternNode::Variable(v) => PatternNodeView::Variable(*v),
            PatternNode::Bind(v, p) => PatternNodeView::Bind(*v, Box::new(p.model())),
            PatternNode::Atomic(a) => PatternNodeView::Atomic(*a),
            PatternNode::Tuple(ps) => PatternNodeView::Tuple(
                Seq::new(
                    ps@.len(),
                    |i: int|
                        if 0 <= i < ps@.len() {
                            ps@[i].model()
                        } else {
                            arbitrary()
                        },
                ),
            ),
            PatternNode::List(ps, tail) => PatternNodeView::List(
                Seq::new(
                    ps@.len(),
                    |i: int|
                        if 0 <= i < ps@.len() {
                            ps@[i].model()
                        } else {
                            arbitrary()
                        },
                ),
                Box::new(tail.model()),
            ),
            PatternNode::KeyValue(kvs) => PatternNodeView::KeyValue(
                Seq::new(
                    kvs@.len(),
                    |i: int|
                        if 0 <= i < kvs@.len() {
                            (kvs@[i].0, kvs@[i].1.model())
                        } else {
                            arbitrary()
                        },
                ),
            ),
        }
    }
}

impl View for PatternNode {
    type V = PatternNodeView;

    open spec fn view(&self) -> PatternNodeView {
        self.model()
    }
}

impl View for Pattern {
    type V = PatternView;

    open spec fn view(&self) -> PatternView {
        PatternView { bindings: self.bindings@, node: self.node@ }
    }
}

impl Clone for PatternNode {
    fn clone(&self) -> (r: Self)
        ensures
            r@ == self@,
        decreases self,
    {
        match self {
            PatternNode::Variable(v) => PatternNode::Variable(v.clone()),
            PatternNode::Bind(v, p) => PatternNode::Bind(v.clone(), Box::new((**p).clone())),
            PatternNode::Atomic(a) => PatternNode::Atomic(a.clone()),
            PatternNode::Tuple(pats) => {
                let mut out: Vec<PatternNode> = Vec::new();
                let mut i: usize = 0;
                while i < pats.len()
                    invariant
                        i <= pats.len(),
                        self is Tuple,
                        self->Tuple_0 == *pats,
                        out@.len() == i,
                        forall|k: int| 0 <= k < i ==> (#[trigger] out@[k]).model() == pats@[k].model(),
                    decreases pats.len() - i,
                {
                    assert(decreases_to!(self => self->Tuple_0));
                    out.push(pats[i].clone());
                    i = i + 1;
                }
                let r = PatternNode::Tuple(out);
                assert(r.model()->Tuple_0 =~= self.model()->Tuple_0);
                r
            },
            PatternNode::List(pats, tail) => {
                let mut out: Vec<PatternNode> = Vec::new();
                let mut i: usize = 0;
                while i < pats.len()
                    invariant
                        i <= pats.len(),
                        self is List,
                        self->List_0 == *pats,
                        out@.len() == i,
                        forall|k: int| 0 <= k < i ==> (#[trigger] out@[k]).model() == pats@[k].model(),
                    decreases pats.len() - i,
                {
                    assert(decreases_to!(self => self->List_0));
                    out.push(pats[i].clone());
                    i = i + 1;
                }
                let r = PatternNode::List(out, Box::new((**tail).clone()));
                assert(r.model()->List_0 =~= self.model()->List_0);
                r
            },
            PatternNode::KeyValue(kvs) => {
                let mut out: Vec<(usize, Box<PatternNode>)> = Vec::new();
                let mut i: usize = 0;
                while i < kvs.len()
                    invariant
                        i <= kvs.len(),
                        self is KeyValue,
                        self->KeyValue_0 == *kvs,
                        out@.len() == i,
                        forall|k: int|
                            0 <= k < i ==> (#[trigger] out@[k]).0 == kvs@[k].0 && out@[k].1.model()
                                == kvs@[k].1.model(),
                    decreases kvs.len() - i,
                {
                    assert(decreases_to!(self => self->KeyValue_0));
                    out.push((kvs[i].0, Box::new((*kvs[i].1).clone())));
                    i = i + 1;
                }
                let r = PatternNode::KeyValue(out);
                assert(r.model()->KeyValue_0 =~= self.model()->KeyValue_0);
                r
            },
        }
    }
}

impl Clone for Pattern {
    fn clone(&self) -> (r: Self)
        ensures
            r@ == self@,
    {
        let mut bindings: Vec<(Variable, SSAVariable)> = Vec::new();
        let mut i: usize = 0;
        while i < self.bindings.len()
            invariant
                i <= self.bindings.len(),
                bindings@ == self.bindings@.subrange(0, i as int),
            decreases self.bindings.len() - i,
        {
            bindings.push((self.bindings[i].0.clone(), self.bindings[i].1));
            i = i + 1;
            assert(bindings@ =~= self.bindings@.subrange(0, i as int));
        }
        assert(bindings@ =~= self.bindings@);
        Pattern { bindings, node: self.node.clone() }
    }
}

impl PatternNode {
    /// The variables the shape binds, in the order in which matching meets
    /// them: depth first, siblings left to right, a list's tail after its
    /// head, the entries of a map in the order written.
    pub open spec fn bound(&self) -> Seq<Variable>
        decreases self, 0nat,
    {
        match self {
            PatternNode::Variable(x) => seq![*x],
            PatternNode::Bind(x, p) => seq![*x] + p.bound(),
            PatternNode::Atomic(_) => Seq::empty(),
            PatternNode::Tuple(ps) => Self::bound_all(ps@, ps@.len()),
            PatternNode::List(ps, tail) => Self::bound_all(ps@, ps@.len()) + tail.bound(),
            PatternNode::KeyValue(kvs) => Self::bound_entries(kvs@, kvs@.len()),
        }
    }

    /// The variables that the first `n` of `ps` bind.
    pub open spec fn bound_all(ps: Seq<PatternNode>, n: nat) -> Seq<Variable>
        decreases ps, n,
    {
        if n == 0 || n > ps.len() {
            Seq::empty()
        } else {
            Self::bound_all(ps, (n - 1) as nat) + ps[n - 1].bound()
        }
    }

    /// The variables that the values of the first `n` entries bind.
    pub open spec fn bound_entries(kvs: Seq<(usize, Box<PatternNode>)>, n: nat) -> Seq<Variable>
        decreases kvs, n,
    {
        if n == 0 || n > kvs.len() {
            Seq::empty()
        } else {
            Self::bound_entries(kvs, (n - 1) as nat) + kvs[n - 1].1.bound()
        }
    }

    /// Appends to `bindings` the variables this shape binds.
    pub fn collect_bindings(&self, bindings: &mut Vec<Variable>)
        ensures
            final(bindings)@ == old(bindings)@ + self.bound(),
        decreases self,
    {
        match self {
            PatternNode::Variable(v) => {
                bindings.push(v.clone());
                assert(bindings@ =~= old(bindings)@ + self.bound());
            },
            PatternNode::Bind(v, p) => {
                bindings.push(v.clone());
                p.collect_bindings(bindings);
                assert(bindings@ =~= old(bindings)@ + self.bound());
            },
            PatternNode::Atomic(_) => {
                assert(bindings@ =~= old(bindings)@ + self.bound());
            },
            PatternNode::Tuple(pats) => {
                let mut i: usize = 0;
                while i < pats.len()
                    invariant
                        i <= pats.len(),
                        self is Tuple,
                        self->Tuple_0 == *pats,
                        bindings@ == old(bindings)@ + Self::bound_all(pats@, i as nat),
                    decreases pats.len() - i,
                {
                    assert(decreases_to!(self => self->Tuple_0));
                    pats[i].collect_bindings(bindings);
                    i = i + 1;
                    assert(bindings@ =~= old(bindings)@ + Self::bound_all(pats@, i as nat));
                }
            },
            PatternNode::List(pats, tail) => {
                let mut i: usize = 0;
                while i < pats.len()
                    invariant
                        i <= pats.len(),
                        self is List,
                        self->List_0 == *pats,
                        bindings@ == old(bindings)@ + Self::bound_all(pats@, i as nat),
                    decreases pats.len() - i,
                {
                    assert(decreases_to!(self => self->List_0));
                    pats[i].collect_bindings(bindings);
                    i = i + 1;
                    assert(bindings@ =~= old(bindings)@ + Self::bound_all(pats@, i as nat));
                }
                tail.collect_bindings(bindings);
                assert(bindings@ =~= old(bindings)@ + self.bound());
            },
            PatternNode::KeyValue(kvs) => {
                let mut i: usize = 0;
                while i < kvs.len()
                    invariant
                        i <= kvs.len(),
                        self is KeyValue,
                        self->KeyValue_0 == *kvs,
                        bindings@ == old(bindings)@ + Self::bound_entries(kvs@, i as nat),
                    decreases kvs.len() - i,
                {
                    assert(decreases_to!(self => self->KeyValue_0));
                    kvs[i].1.collect_bindings(bindings);
                    i = i + 1;
                    assert(bindings@ =~= old(bindings)@ + Self::bound_entries(kvs@, i as nat));
                }
            },
        }
    }
}

} // verus!
