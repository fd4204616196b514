//! The assembler back end: the instruction encoder and the label resolver.

pub mod assemble;
pub mod completeness;
pub mod layout;
pub mod round_trip;
