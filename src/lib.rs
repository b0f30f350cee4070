//! A growable last-in-first-out stack over a contiguous slot buffer whose
//! occupied region sits at the high end and grows toward the low end.
use vstd::prelude::*;

pub mod growth;
pub mod stack;
pub mod laws;

verus! {

} // verus!
