//! Lobe: a Brainfuck interpreter with configurable cell width and tape size.

pub mod interpreter;
pub mod parser;
pub mod types;

pub use interpreter::{RunError, Runtime, DEFAULT_TAPE_SIZE};
pub use parser::ParseError;
pub use types::{Bytecode, CellSize, Instr};

use vstd::prelude::*;
use vstd::string::StringSliceAdditionalSpecFns;

verus! {

/// Parse `src` and set up a runtime for it with the default tape.
pub fn create_runtime(src: &str, cell_size: CellSize) -> (r: Result<Runtime, ParseError>)
    ensures
        r is Ok <==> parser::balanced(parser::commands(src.spec_bytes())),
        r matches Ok(rt) ==> {
            &&& rt.wf()
            &&& parser::compiled(parser::commands(src.spec_bytes()), rt.code())
            &&& rt.size() == cell_size
            &&& rt.cfg() == Runtime::start(DEFAULT_TAPE_SIZE as nat)
        },
        r matches Err(e) ==> e == parser::parse_error_of(parser::commands(src.spec_bytes())),
{
    let bytecode = parser::parse(src)?;
    Ok(Runtime::new(bytecode, cell_size))
}

/// Parse `src` and set up a runtime with `tape_size` cells (zero meaning the
/// default size).
pub fn create_runtime_with_tape(src: &str, cell_size: CellSize, tape_size: usize) -> (r: Result<
    Runtime,
    ParseError,
>)
    ensures
        r is Ok <==> parser::balanced(parser::commands(src.spec_bytes())),
        r matches Ok(rt) ==> {
            &&& rt.wf()
            &&& parser::compiled(parser::commands(src.spec_bytes()), rt.code())
            &&& rt.size() == cell_size
            &&& rt.cfg() == Runtime::start(
                if tape_size == 0 {
                    DEFAULT_TAPE_SIZE as nat
                } else {
                    tape_size as nat
                },
            )
        },
        r matches Err(e) ==> e == parser::parse_error_of(parser::commands(src.spec_bytes())),
{
    let bytecode = parser::parse(src)?;
    Ok(Runtime::with_tape_size(bytecode, cell_size, tape_size))
}

} // verus!
