//! The parsed source tree: what the front end hands to the middle end.
use vstd::prelude::*;
use vstd::string::StringExecFns;

use crate::{Atom, Variable};

verus! {

/// A value together with the annotations the source attached to it.
#[derive(Debug)]
pub struct Annotated<I>(pub I, pub Vec<()>);

impl<I> Annotated<I> {
    /// Wraps a value with no annotations.
    pub fn empty(inner: I) -> (r: Self)
        ensures
            r.0 == inner,
            r.1@.len() == 0,
    {
        Annotated(inner, Vec::new())
    }
}

#[derive(Debug)]
pub struct Module {
    pub name: Atom,
    pub declarations: Vec<FunctionName>,
    pub attributes: Vec<(Atom, Constant)>,
    pub definitions: Vec<FunctionDefinition>,
}

#[derive(Debug, PartialEq, Eq, Hash)]
pub struct FunctionName {
    pub name: Atom,
    pub arity: u32,
}

impl Clone for FunctionName {
    fn clone(&self) -> (r: Self)
        ensures
            r == *self,
    {
        FunctionName { name: self.name.clone(), arity: self.arity }
    }
}

/// The value of one decimal digit, and 0 for any other character.
pub open spec fn digit_value(c: char) -> nat {
    if '0' <= c && c <= '9' {
        (c as u32 - '0' as u32) as nat
    } else {
        0
    }
}

/// Whether every character of `s` is a decimal digit.
pub open spec fn all_digits(s: Seq<char>) -> bool {
    forall|i: int| 0 <= i < s.len() ==> '0' <= #[trigger] s[i] && s[i] <= '9'
}

/// The number that a string of decimal digits denotes, most significant digit
/// first.
pub open spec fn decimal_value(s: Seq<char>) -> nat
    decreases s.len(),
{
    if s.len() == 0 {
        0
    } else {
        decimal_value(s.drop_last()) * 10 + digit_value(s.last())
    }
}

/// An integer literal of arbitrary size: a sign (`true` for non-negative) and
/// its decimal digits.
#[derive(Debug, PartialEq, Eq, Hash)]
pub struct Integer {
    sign: bool,
    digits: String,
}

impl Integer {
    /// Makes the literal with the given sign and digits.
    pub fn new(sign: bool, digits: &str) -> (r: Integer)
        ensures
            r.sign() == sign,
            r.digits() == digits@,
    {
        Integer { sign, digits: digits.to_string() }
    }

    /// `true` for a non-negative literal.
    pub closed spec fn sign(&self) -> bool {
        self.sign
    }

    /// The digits as written.
    pub closed spec fn digits(&self) -> Seq<char> {
        self.digits@
    }

    /// The digits that carry the value: the digits as written, without one
    /// leading `+`.
    pub open spec fn magnitude(&self) -> Seq<char> {
        if self.digits().len() > 0 && self.digits()[0] == '+' {
            self.digits().subrange(1, self.digits().len() as int)
        } else {
            self.digits()
        }
    }

    /// The literal as a `u32`, where it is one: it is non-negative, it has at
    /// least one digit and nothing but digits after an optional `+`, and its
    /// value fits.
    pub open spec fn spec_u32(&self) -> Option<u32> {
        if self.sign() && self.magnitude().len() > 0 && all_digits(self.magnitude())
            && decimal_value(self.magnitude()) <= u32::MAX {
            Some(decimal_value(self.magnitude()) as u32)
        } else {
            None
        }
    }

    /// The literal as a `u32`, or `None` where it is negative, malformed or too
    /// large.
    pub fn to_u32(&self) -> (r: Option<u32>)
        ensures
            r == self.spec_u32(),
    {
        if !self.sign {
            return None;
        }
        let s = self.digits.as_str();
        let n = s.unicode_len();
        let mut start: usize = 0;
        if n > 0 && s.get_char(0) == '+' {
            start = 1;
        }
        if start == n {
            return None;
        }
        let ghost m = self.magnitude();
        assert(m =~= s@.subrange(start as int, n as int));
        let mut acc: u32 = 0;
        let mut i: usize = start;
        while i < n
            invariant
                start <= i <= n,
                n == s@.len(),
                m == s@.subrange(start as int, n as int),
                m == self.magnitude(),
                self.sign(),
                all_digits(m.subrange(0, i - start)),
                acc == decimal_value(m.subrange(0, i - start)),
            decreases n - i,
        {
            let c = s.get_char(i);
            let ghost prefix = m.subrange(0, i + 1 - start);
            assert(prefix.drop_last() =~= m.subrange(0, i - start));
            assert(prefix.last() == c);
            if !(c >= '0' && c <= '9') {
                assert(!all_digits(m)) by {
                    assert(m[i - start] == c);
                }
                return None;
            }
            let d: u32 = c as u32 - '0' as u32;
            assert(d == digit_value(c));
            assert(decimal_value(prefix) == acc * 10 + d);
            if acc > (u32::MAX - d) / 10 {
                proof {
                    assert(decimal_value(prefix) > u32::MAX);
                    lemma_decimal_value_grows(m, (i + 1 - start) as int);
                }
                return None;
            }
            acc = acc * 10 + d;
            i = i + 1;
            assert(all_digits(prefix)) by {
                assert forall|k: int| 0 <= k < prefix.len() implies '0' <= #[trigger] prefix[k]
                    && prefix[k] <= '9' by {
                    if k < prefix.len() - 1 {
                        assert(prefix[k] == m.subrange(0, i - 1 - start)[k]);
                    }
                }
            }
        }
        assert(m.subrange(0, n - start) =~= m);
        Some(acc)
    }

    /// The literal as a `u32`.
    pub fn as_u32(&self) -> (r: u32)
        requires
            self.spec_u32() is Some,
        ensures
            Some(r) == self.spec_u32(),
    {
        match self.to_u32() {
            Some(v) => v,
            None => 0,
        }
    }
}

impl Clone for Integer {
    fn clone(&self) -> (r: Self)
        ensures
            r == *self,
    {
        Integer { sign: self.sign, digits: self.digits.clone() }
    }
}

/// A prefix of a digit string denotes no more than the whole string.
pub proof fn lemma_decimal_value_grows(s: Seq<char>, k: int)
    requires
        0 <= k <= s.len(),
    ensures
        decimal_value(s.subrange(0, k)) <= decimal_value(s),
    decreases s.len(),
{
    if k == s.len() {
        assert(s.subrange(0, k) =~= s);
    } else {
        assert(s.drop_last().subrange(0, k) =~= s.subrange(0, k));
        lemma_decimal_value_grows(s.drop_last(), k);
    }
}

/// A literal that stands for itself.
#[derive(Debug, PartialEq, Eq, Hash)]
pub enum AtomicLiteral {
    Integer(Integer),
    Float,
    Atom(Atom),
    Nil,
    Char(char),
    String(String),
}

impl Clone for AtomicLiteral {
    fn clone(&self) -> (r: Self)
        ensures
            r == *self,
    {
        match self {
            AtomicLiteral::Integer(i) => AtomicLiteral::Integer(i.clone()),
            AtomicLiteral::Float => AtomicLiteral::Float,
            AtomicLiteral::Atom(a) => AtomicLiteral::Atom(a.clone()),
            AtomicLiteral::Nil => AtomicLiteral::Nil,
            AtomicLiteral::Char(c) => AtomicLiteral::Char(*c),
            AtomicLiteral::String(s) => AtomicLiteral::String(s.clone()),
        }
    }
}

impl AtomicLiteral {
    /// The literal as text: for an integer its sign, written `true` or
    /// `false`, and then its digits; for any other literal `unimpl`.
    pub open spec fn text(&self) -> Seq<char> {
        match self {
            AtomicLiteral::Integer(number) => if number.sign() {
                "true"@ + number.digits()
            } else {
                "false"@ + number.digits()
            },
            _ => "unimpl"@,
        }
    }

    /// The literal as text.
    pub fn to_string(&self) -> (r: String)
        ensures
            r@ == self.text(),
    {
        match self {
            AtomicLiteral::Integer(number) => {
                let mut text = if number.sign {
                    String::from_str("true")
                } else {
                    String::from_str("false")
                };
                text.append(number.digits.as_str());
                text
            },
            _ => String::from_str("unimpl"),
        }
    }
}

#[derive(Debug)]
pub enum Constant {
    Atomic(AtomicLiteral),
    Tuple(Vec<Constant>),
    List(Vec<Constant>, Box<Constant>),
}

impl Constant {
    /// The constant as text: a literal as its own text, anything else
    /// `unimpl`.
    pub open spec fn text(&self) -> Seq<char> {
        match self {
            Constant::Atomic(literal) => literal.text(),
            _ => "unimpl"@,
        }
    }

    /// The constant as text.
    pub fn to_string(&self) -> (r: String)
        ensures
            r@ == self.text(),
    {
        match self {
            Constant::Atomic(literal) => literal.to_string(),
            _ => String::from_str("unimpl"),
        }
    }
}

#[derive(Debug)]
pub struct FunctionDefinition {
    pub name: Annotated<FunctionName>,
    pub fun: Annotated<Function>,
}

#[derive(Debug)]
#[allow(inconsistent_fields)]
pub enum SingleExpression {
    // Env reading
    FunctionName(FunctionName),
    ExternalFunctionName { module: Atom, name: FunctionName },
    Variable(Variable),
    // Control flow
    Let { vars: Vec<Annotated<Variable>>, val: Box<Expression>, body: Box<Expression> },
    Catch(Box<Expression>),
    Case { val: Box<Expression>, clauses: Vec<Annotated<CaseClause>> },
    Do(Box<Expression>, Box<Expression>),
    Try {
        body: Box<Expression>,
        then_vars: Vec<Annotated<Variable>>,
        then: Box<Expression>,
        catch_vars: Vec<Annotated<Variable>>,
        catch: Box<Expression>,
    },
    Receive {
        clauses: Vec<Annotated<CaseClause>>,
        timeout_time: Box<Expression>,
        timeout_body: Box<Expression>,
    },
    // Calling
    PrimOpCall(PrimOpCall),
    ApplyCall { fun: Box<Expression>, args: Vec<Expression> },
    InterModuleCall { module: Box<Expression>, name: Box<Expression>, args: Vec<Expression> },
    // Lambda creation
    Fun(Box<Function>),
    LetRec { funs: Vec<(FunctionName, Function)>, body: Box<Expression> },
    // Term constructors
    AtomicLiteral(AtomicLiteral),
    Tuple(Vec<Expression>),
    List { head: Vec<Expression>, tail: Box<Expression> },
    KeyValue(Vec<(Expression, Expression)>, Option<Expression>),
    Binary(Vec<(Expression, Vec<Expression>)>),
}

#[derive(Debug)]
pub struct CaseClause {
    pub patterns: Vec<Annotated<Pattern>>,
    pub guard: Expression,
    pub body: Expression,
}

#[derive(Debug)]
pub enum Pattern {
    Wildcard,
    BindVar(Variable, Box<Annotated<Pattern>>),
    Atomic(AtomicLiteral),
    Binary(Vec<(Annotated<Pattern>, Vec<Annotated<SingleExpression>>)>),
    Tuple(Vec<Annotated<Pattern>>),
    List(Vec<Annotated<Pattern>>, Box<Annotated<Pattern>>),
    KeyValue(Vec<(SingleExpression, Annotated<Pattern>)>),
}

impl Pattern {
    /// The pattern that matches the empty list.
    pub fn nil() -> (r: Annotated<Pattern>)
        ensures
            r.0 == Pattern::Atomic(AtomicLiteral::Nil),
            r.1@.len() == 0,
    {
        Annotated::empty(Pattern::Atomic(AtomicLiteral::Nil))
    }
}

/// A sequence of expressions evaluated in order.
pub type Expression = Annotated<Vec<Annotated<SingleExpression>>>;

impl Expression {
    /// The expression that evaluates to the empty list.
    pub fn nil() -> (r: Self)
        ensures
            r.0@.len() == 1,
            r.0@[0].0 == SingleExpression::AtomicLiteral(AtomicLiteral::Nil),
            r.0@[0].1@.len() == 0,
            r.1@.len() == 0,
    {
        let mut values = Vec::new();
        values.push(Annotated::empty(SingleExpression::AtomicLiteral(AtomicLiteral::Nil)));
        Annotated::empty(values)
    }
}

#[derive(Debug)]
pub struct Function {
    pub vars: Vec<Annotated<Variable>>,
    pub body: Expression,
}

#[derive(Debug)]
pub struct PrimOpCall {
    pub name: Atom,
    pub args: Vec<Expression>,
}

} // verus!
