//! Brainfuck tools: interpreters, an optimizing front end, a Brainfuck lifter,
//! a byte protocol for drawing, and the Cranium language front end.

pub mod bytes;
pub mod cranium;
pub mod hypothalamus;
pub mod lobe;
pub mod occipital;
pub mod paths;
pub mod trepan;
pub mod wernicke;

use vstd::prelude::*;

verus! {

/// Number of cells in a conventional Brainfuck tape.
pub const DEFAULT_TAPE_SIZE: usize = 30000;

} // verus!
