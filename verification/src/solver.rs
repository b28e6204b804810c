//! The validated problem container and its selection algorithm.
use vstd::prelude::*;

pub mod solvableproblem;

pub use solvableproblem::SolvableProblem;
pub use solvableproblem::SolvableProblemError;

verus! {

} // verus!
