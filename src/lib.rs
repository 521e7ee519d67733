//! Three ways of counting the values that two sequences of `u32` share:
//! a nested scan, a pair of hash sets, and a sort followed by a merge.
pub mod agreement;
pub mod comparators;
pub mod counting;
pub mod inputs;
