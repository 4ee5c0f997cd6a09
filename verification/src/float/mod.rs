//! Binary floating point over bit patterns.
//!
//! The editing model carries speeds, opacities, positions and effect amounts as IEEE 754
//! `binary64` and `binary32` values. They are held here as their bit patterns, and every
//! operation is integer arithmetic proved against one statement: the result is the number
//! of the format nearest to the exact one, ties to even.

pub mod accuracy;
pub mod double;
pub mod grid;
pub mod magnitude;
pub mod rounding;
pub mod single;
pub mod values;
