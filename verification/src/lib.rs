//! Bayesian k-nearest-neighbour classification: the integer core.
//!
//! Feature values are IEEE-754 doubles. This library never does floating-point
//! arithmetic: it sees a feature value only through its 64-bit pattern, and a
//! distance only through the bit pattern of a non-negative double, whose order as
//! an unsigned integer is the order of the distances themselves.
pub mod bench;
pub mod bindings;
pub mod cli;
pub mod counts;
pub mod diagnostics;
pub mod double;
pub mod inference;
pub mod knn;
pub mod neighbors;
pub mod pipeline;
pub mod precompute;
pub mod predict;
pub mod text;
pub mod types;
