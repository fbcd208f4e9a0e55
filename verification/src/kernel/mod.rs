//! The pricing kernel's types and decisions. Its formulas are floating point and stand with
//! whoever evaluates them; what is decided by comparing their results is here.

pub mod math;
pub mod risk;
