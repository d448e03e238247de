//! Intermediate representations: the tree form and the graph form of a
//! function, and the identifiers both share.
use vstd::prelude::*;

use crate::ir::hir::LambdaEnvIdx;
use crate::parser::FunctionName;
use crate::{Atom, Variable};

pub mod hir;
pub mod lir;

verus! {

/// The name of one value in static-single-assignment form. In a finished
/// graph each identifier is the target of exactly one write.
#[derive(Debug, Clone, Copy, PartialEq, Eq, Hash, Structural)]
pub struct SSAVariable(pub u32);

/// A source variable together with the identifier of the value it names.
#[derive(Debug, PartialEq, Eq)]
pub struct AVariable {
    pub var: Variable,
    pub ssa: SSAVariable,
}

/// A function name together with the identifier of the value it names.
#[derive(Debug, PartialEq, Eq)]
pub struct AFunctionName {
    pub var: FunctionName,
    pub ssa: SSAVariable,
}

impl Clone for AVariable {
    fn clone(&self) -> (r: Self)
        ensures
            r == *self,
    {
        AVariable { var: self.var.clone(), ssa: self.ssa }
    }
}

impl Clone for AFunctionName {
    fn clone(&self) -> (r: Self)
        ensures
            r == *self,
    {
        AFunctionName { var: self.var.clone(), ssa: self.ssa }
    }
}

/// A resolved call target: name and arity, and for a lambda the environment
/// slot it closes over and its position in that environment.
#[derive(Debug, PartialEq, Eq)]
pub struct FunctionIdent {
    pub name: Atom,
    pub arity: u32,
    pub lambda: Option<(LambdaEnvIdx, usize)>,
}

impl Clone for FunctionIdent {
    fn clone(&self) -> (r: Self)
        ensures
            r == *self,
    {
        FunctionIdent { name: self.name.clone(), arity: self.arity, lambda: self.lambda }
    }
}

/// One function of a module: its call target, its tree form, and its graph
/// form once it was lowered.
#[derive(Debug, PartialEq, Eq)]
pub struct FunctionDefinition {
    pub ident: FunctionIdent,
    pub hir_fun: hir::Function,
    pub lir_function: Option<lir::FunctionCfg>,
}

/// A module: its name and its functions.
#[derive(Debug, PartialEq, Eq)]
pub struct Module {
    pub name: Atom,
    pub functions: Vec<FunctionDefinition>,
}

} // verus!
