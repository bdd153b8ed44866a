//! Digits of π by the Chudnovsky series, evaluated with binary splitting.
//!
//! The library models every huge integer by its mathematical value, states
//! the series' partial products and sums as spec functions over index ranges,
//! and proves that the splitter, the lane partition and the reduction tree
//! all compute the same triple for the whole range.
pub mod natural;
pub mod integer;
pub mod series;
pub mod splitter;
pub mod reduce;
pub mod assemble;
pub mod plan;
pub mod pi;
pub mod bf;

pub use pi::chudnovsky;
