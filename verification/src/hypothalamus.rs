//! Hypothalamus: an optimizing Brainfuck front end, an LLVM IR emitter, and
//! the target and driver policy around native code generation.

pub mod bf;
pub mod codegen;
pub mod driver;
pub mod ir;
pub mod target;
pub mod cli;
pub mod diagnostics;
pub mod runner;
pub mod targets;
pub mod llvm;
