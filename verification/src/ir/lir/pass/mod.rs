//! Passes over the graph form.
pub mod propagate_atomics;
pub mod ssa_form;
pub mod validate;
