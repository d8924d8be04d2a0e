//! Assembler for a small 16-bit instruction architecture.
//!
//! The library turns an ordered sequence of assembly source lines into an
//! ordered sequence of 16-character binary instruction words.  A first pass
//! classifies each line (comment, label, address instruction, compute
//! instruction), encodes what it can and records what it cannot; a second
//! pass resolves the remaining address instructions against the completed
//! label set or allocates fresh variable addresses in first-use order.

pub mod binary;
pub mod numeric;
pub mod fields;
pub mod instructions;
pub mod symbols;
pub mod assembler;
pub mod laws;
