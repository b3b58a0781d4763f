//! Constraint evaluation for a STARK prover: evaluates and merges the transition and
//! boundary constraints of an AIR over a constraint evaluation domain.
use vstd::prelude::*;

pub mod air;
pub mod constraints;
pub mod domain;
pub mod evaluator;
pub mod field;
pub mod table;
pub mod trace;

verus! {

} // verus!
