//! Passes over the tree form.
pub mod ssa;
