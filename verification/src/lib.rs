//! Middle end of a compiler for a dynamic, pattern-matching functional language.
//!
//! A function arrives as a tree whose value-producing nodes already carry
//! static-single-assignment identifiers ([`ir::hir`]). Lowering turns the tree
//! into a control-flow graph of basic blocks with phi nodes ([`ir::lir`]), and a
//! small set of passes validates and simplifies that graph. Trees can be laid
//! out as documents for a pretty printer ([`doc`]).
use vstd::prelude::*;

pub mod doc;
pub mod ir;
pub mod parser;

pub use crate::doc::ToDoc;

verus! {

/// An atom: a named constant of the source language.
#[derive(Debug, PartialEq, Eq, Hash)]
pub struct Atom(pub String);

impl Atom {
    /// Makes the atom with the given name.
    pub fn new(name: &str) -> (r: Atom)
        ensures
            r.0@ == name@,
    {
        Atom(name.to_string())
    }
}

impl Clone for Atom {
    fn clone(&self) -> (r: Self)
        ensures
            r == *self,
    {
        Atom(self.0.clone())
    }
}

/// The name of a variable of the source language.
#[derive(Debug, PartialEq, Eq, Hash)]
pub struct Variable(pub String);

impl Variable {
    /// Makes the variable with the given name.
    pub fn new(name: &str) -> (r: Variable)
        ensures
            r.0@ == name@,
    {
        Variable(name.to_string())
    }
}

impl Clone for Variable {
    fn clone(&self) -> (r: Self)
        ensures
            r == *self,
    {
        Variable(self.0.clone())
    }
}

} // verus!
