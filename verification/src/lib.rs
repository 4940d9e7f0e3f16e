use vstd::prelude::*;

pub mod config;
pub mod git;
pub mod ids;
pub mod keys;
pub mod order;
pub mod path;
pub mod repos;
pub mod sort;
pub mod text;

verus! {
} // verus!
