//! Occipital: a window for Brainfuck programs. Bytes a program writes are
//! text, drawn with a built-in font, or commands when escaped; the screen is
//! 256x192 palette-indexed pixels, so every coordinate is one byte.

pub mod protocol;
pub mod font;
pub mod screen;
pub mod headless;
pub mod console;

use vstd::prelude::*;
use crate::hypothalamus::bf::{
    first_unmatched_close, last_unmatched_open, normalized, parse, position_at, Op, SyntaxError,
};
use crate::lobe::parser::{depth, never_negative};

verus! {

/// A program ready to run, parsed but not yet compiled.
#[derive(Debug)]
pub struct Program {
    ops: Vec<Op>,
    name: String,
}

impl Program {
    /// The parsed operations.
    pub closed spec fn ops_view(&self) -> Seq<Op> {
        self.ops@
    }

    /// The program's name.
    pub closed spec fn name_view(&self) -> Seq<char> {
        self.name@
    }

    /// Build a program from Brainfuck source already in memory.
    ///
    /// # Errors
    ///
    /// Returns the syntax error when the brackets do not balance.
    pub fn from_brainfuck(source: &[u8], name: &str) -> (r: Result<Self, SyntaxError>)
        requires
            source@.len() <= isize::MAX,
        ensures
            match r {
                Ok(p) => p.name_view() == name@ && never_negative(source@) && depth(source@) == 0 && normalized(
                    p.ops_view(),
                ),
                Err(SyntaxError::UnmatchedClose(pos)) => first_unmatched_close(source@, pos.byte as int) && pos
                    == position_at(source@, pos.byte as int),
                Err(SyntaxError::UnmatchedOpen(pos)) => never_negative(source@) && depth(source@) > 0
                    && last_unmatched_open(source@, pos.byte as int) && pos == position_at(
                    source@,
                    pos.byte as int,
                ),
            },
    {
        let ops = parse(source)?;
        Ok(Program { ops, name: name.to_owned() })
    }

    /// The program's name, taken from its file.
    pub fn name(&self) -> (r: &str)
        ensures
            r@ == self.name_view(),
    {
        self.name.as_str()
    }

    /// The parsed operations, for a caller that wants to run them itself.
    pub fn ops(&self) -> (r: &[Op])
        ensures
            r@ == self.ops_view(),
    {
        self.ops.as_slice()
    }
}

} // verus!
