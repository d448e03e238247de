//! Naming values: the state that hands out identifiers.
use vstd::prelude::*;

use crate::ir::SSAVariable;

verus! {

/// The naming state that the passes over one module share. One pass holds it
/// at a time, by exclusive reference.
#[derive(Debug)]
pub struct ScopeTracker {
    next_ssa: u32,
}

impl ScopeTracker {
    /// The number of the next identifier to hand out.
    pub closed spec fn next(&self) -> u32 {
        self.next_ssa
    }

    /// Makes a tracker that has handed out no identifier.
    pub fn new() -> (r: ScopeTracker)
        ensures
            r.next() == 0,
    {
        ScopeTracker { next_ssa: 0 }
    }

    /// Hands out an identifier that this tracker has not handed out before,
    /// or `None` once the numbers have run out.
    pub fn new_ssa(&mut self) -> (r: Option<SSAVariable>)
        ensures
            old(self).next() < u32::MAX ==> r == Some(SSAVariable(old(self).next()))
                && final(self).next() == old(self).next() + 1,
            old(self).next() == u32::MAX ==> r is None && final(self).next() == old(self).next(),
    {
        if self.next_ssa == u32::MAX {
            None
        } else {
            let r = SSAVariable(self.next_ssa);
            self.next_ssa = self.next_ssa + 1;
            Some(r)
        }
    }
}

} // verus!
