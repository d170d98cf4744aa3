//! Decides whether two programs, given as sets of symbolic path summaries,
//! behave the same on every input of a bounded box.
use vstd::prelude::*;

pub mod behavior;
pub mod bounds;
pub mod compiler;
pub mod equivalence;
pub mod expr;
pub mod instrumentor;
pub mod normalizer;
pub mod reporter;
pub mod solver;
pub mod symbolic;
pub mod types;
pub mod validator;

verus! {
} // verus!
