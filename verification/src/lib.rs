use vstd::prelude::*;

pub mod curtis;
pub mod data;
pub mod lambda;
pub mod names;
pub mod processor;
pub mod reference;
pub mod solver;
pub mod stable_curtis;
pub mod stable_data;
pub mod types;
pub mod verification;

verus! {

/// Highest stem the tables are maintained for.
pub const MAX_STEM: i32 = 26;

} // verus!
