//! A simulation of hair strands that grow, break and get cut, with verified
//! contracts on every operation that changes the strands.
pub mod average;
mod chance;
pub mod strands;
pub mod render;
pub mod schedule;
