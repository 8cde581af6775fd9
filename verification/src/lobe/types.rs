//! Core data structures for the Brainfuck interpreter.

use vstd::prelude::*;

verus! {

/// Brainfuck instruction representation.
#[derive(Debug, Clone, PartialEq, Eq, Structural)]
pub enum Instr {
    /// `>` - increment the data pointer.
    IncrementPtr,
    /// `<` - decrement the data pointer.
    DecrementPtr,
    /// `+` - increment the value at the data pointer.
    Increment,
    /// `-` - decrement the value at the data pointer.
    Decrement,
    /// `.` - output the value at the data pointer.
    Output,
    /// `,` - read a value into the cell at the data pointer.
    Input,
    /// `[` - jump past the matching `]` (at the given index) if zero.
    JumpIfZero(usize),
    /// `]` - jump back to the matching `[` (at the given index) if non-zero.
    JumpIfNonZero(usize),
}

/// Compiled bytecode representation.
#[derive(Debug, Clone)]
pub struct Bytecode {
    pub instrs: Vec<Instr>,
}

/// Cell size for the Brainfuck interpreter.
#[derive(Debug, Clone, Copy, PartialEq, Eq, Structural)]
pub enum CellSize {
    /// 8-bit cells (0-255).
    Bits8,
    /// 16-bit cells (0-65535).
    Bits16,
    /// 32-bit cells (0-4294967295).
    Bits32,
    /// 64-bit cells (0-18446744073709551615).
    Bits64,
}

/// The largest value a cell of this size holds.
pub open spec fn spec_max_value(size: CellSize) -> u64 {
    match size {
        CellSize::Bits8 => 0xff,
        CellSize::Bits16 => 0xffff,
        CellSize::Bits32 => 0xffff_ffff,
        CellSize::Bits64 => 0xffff_ffff_ffff_ffff,
    }
}

/// The number of distinct values a cell of this size holds.
pub open spec fn modulus(size: CellSize) -> int {
    spec_max_value(size) + 1
}

impl CellSize {
    /// Get the maximum value for this cell size.
    pub fn max_value(self) -> (r: u64)
        ensures
            r == spec_max_value(self),
    {
        match self {
            CellSize::Bits8 => 0xff,
            CellSize::Bits16 => 0xffff,
            CellSize::Bits32 => 0xffff_ffff,
            CellSize::Bits64 => 0xffff_ffff_ffff_ffff,
        }
    }

    /// Mask a value to fit within this cell size.
    pub fn mask(self, value: u64) -> (r: u64)
        ensures
            r == value & spec_max_value(self),
            r as int == value as int % modulus(self),
    {
        let m = self.max_value();
        let r = value & m;
        proof {
            lemma_mask_is_mod(self, value);
        }
        r
    }

    /// Convert a value to a character for output (only valid for 8-bit cells).
    pub fn to_char(self, value: u64) -> (r: Option<char>)
        ensures
            self == CellSize::Bits8 ==> r == Some(((value % 256) as u8) as char),
            self != CellSize::Bits8 ==> r is None,
    {
        match self {
            CellSize::Bits8 => {
                let masked: u8 = (value % 256) as u8;
                Some(masked as char)
            },
            _ => None,
        }
    }
}

pub proof fn lemma_mask_is_mod(size: CellSize, value: u64)
    ensures
        (value & spec_max_value(size)) as int == value as int % modulus(size),
        (value & spec_max_value(size)) <= spec_max_value(size),
{
    match size {
        CellSize::Bits8 => {
            assert((value & 0xff) == value % 256 && (value & 0xff) <= 0xff) by (bit_vector);
        },
        CellSize::Bits16 => {
            assert((value & 0xffff) == value % 65536 && (value & 0xffff) <= 0xffff) by (bit_vector);
        },
        CellSize::Bits32 => {
            assert((value & 0xffff_ffff) == value % 0x1_0000_0000 && (value & 0xffff_ffff)
                <= 0xffff_ffff) by (bit_vector);
        },
        CellSize::Bits64 => {
            assert((value & 0xffff_ffff_ffff_ffff) == value) by (bit_vector);
            assert(value as int % 0x1_0000_0000_0000_0000int == value as int);
        },
    }
}

} // verus!
