//! Executing bytecode on a wrapping tape.

use vstd::prelude::*;
use crate::bytes::{decimal, push_decimal};
use super::types::{Bytecode, CellSize, Instr, spec_max_value};

verus! {

/// Tape size used when a program does not ask for a different one.
pub const DEFAULT_TAPE_SIZE: usize = 30000;

/// The machine state a step acts on.
pub struct Cfg {
    /// Index of the next instruction.
    pub ip: int,
    /// Data pointer.
    pub dp: int,
    /// Cell values.
    pub tape: Seq<u64>,
}

/// Incrementing a cell wraps from its maximum back to zero.
pub open spec fn inc(v: u64, size: CellSize) -> u64 {
    if v >= spec_max_value(size) {
        0
    } else {
        (v + 1) as u64
    }
}

/// Decrementing a cell wraps from zero to its maximum.
pub open spec fn dec(v: u64, size: CellSize) -> u64 {
    if v == 0 {
        spec_max_value(size)
    } else {
        (v - 1) as u64
    }
}

/// The bytes `.` writes for a cell holding `v`: the byte itself for 8-bit
/// cells, the decimal number otherwise.
pub open spec fn rendered(v: u64, size: CellSize) -> Seq<u8> {
    if size == CellSize::Bits8 {
        seq![v as u8]
    } else {
        decimal(v as nat)
    }
}

/// A program has stopped once its instruction pointer leaves the code.
pub open spec fn halted(code: Seq<Instr>, c: Cfg) -> bool {
    c.ip < 0 || c.ip >= code.len()
}

/// One step. `byte` is what a `,` reads, `None` at end of input.
pub open spec fn step(code: Seq<Instr>, size: CellSize, c: Cfg, byte: Option<u8>) -> Cfg {
    let len = c.tape.len() as int;
    let v = c.tape[c.dp];
    match code[c.ip] {
        Instr::IncrementPtr => Cfg { ip: c.ip + 1, dp: if c.dp == len - 1 { 0 } else { c.dp + 1 }, ..c },
        Instr::DecrementPtr => Cfg { ip: c.ip + 1, dp: if c.dp == 0 { len - 1 } else { c.dp - 1 }, ..c },
        Instr::Increment => Cfg { ip: c.ip + 1, tape: c.tape.update(c.dp, inc(v, size)), ..c },
        Instr::Decrement => Cfg { ip: c.ip + 1, tape: c.tape.update(c.dp, dec(v, size)), ..c },
        Instr::Output => Cfg { ip: c.ip + 1, ..c },
        Instr::Input => Cfg {
            ip: c.ip + 1,
            tape: c.tape.update(
                c.dp,
                match byte {
                    Some(b) => b as u64,
                    None => 0u64,
                },
            ),
            ..c
        },
        Instr::JumpIfZero(t) => Cfg {
            ip: if v == 0 {
                // A target past the code halts the program.
                if t >= code.len() {
                    code.len() as int
                } else {
                    t + 1
                }
            } else {
                c.ip + 1
            },
            ..c
        },
        Instr::JumpIfNonZero(t) => Cfg { ip: if v != 0 { t as int } else { c.ip + 1 }, ..c },
    }
}

/// What one step writes.
pub open spec fn step_output(code: Seq<Instr>, size: CellSize, c: Cfg) -> Seq<u8> {
    if code[c.ip] == Instr::Output {
        rendered(c.tape[c.dp], size)
    } else {
        seq![]
    }
}

/// Whether the next step is a `,`.
pub open spec fn wants_input(code: Seq<Instr>, c: Cfg) -> bool {
    !halted(code, c) && code[c.ip] == Instr::Input
}

/// A run against a finite input: configuration, bytes consumed, bytes written.
pub struct Trace {
    pub cfg: Cfg,
    pub consumed: nat,
    pub written: Seq<u8>,
}

/// Run `n` steps (or until halting) from `c`, reading from `input`.
pub open spec fn run(code: Seq<Instr>, size: CellSize, input: Seq<u8>, c: Cfg, n: nat) -> Trace
    decreases n,
{
    if n == 0 {
        Trace { cfg: c, consumed: 0, written: seq![] }
    } else {
        let prev = run(code, size, input, c, (n - 1) as nat);
        if halted(code, prev.cfg) {
            prev
        } else {
            let byte = if wants_input(code, prev.cfg) && prev.consumed < input.len() {
                Some(input[prev.consumed as int])
            } else {
                None
            };
            Trace {
                cfg: step(code, size, prev.cfg, byte),
                consumed: if wants_input(code, prev.cfg) && prev.consumed < input.len() {
                    prev.consumed + 1
                } else {
                    prev.consumed
                },
                written: prev.written + step_output(code, size, prev.cfg),
            }
        }
    }
}

/// Why a run stopped before the program did.
#[derive(Debug, Clone, Copy, PartialEq, Eq, Structural)]
pub enum RunError {
    /// The program ran for `u64::MAX` steps without halting.
    StepLimit,
}

/// Runtime state for executing Brainfuck programs.
pub struct Runtime {
    bytecode: Bytecode,
    tape: Vec<u64>,
    dp: usize,
    ip: usize,
    cell_size: CellSize,
    tape_size: usize,
}

impl Runtime {
    /// The tape has its configured size, the data pointer is on it, and every
    /// cell holds a value of the configured width.
    pub closed spec fn wf(self) -> bool {
        &&& self.tape@.len() == self.tape_size
        &&& self.tape_size > 0
        &&& self.dp < self.tape_size
        &&& forall|i: int| 0 <= i < self.tape@.len() ==> #[trigger] self.tape@[i] <= spec_max_value(
            self.cell_size,
        )
    }

    /// The program being run.
    pub closed spec fn code(self) -> Seq<Instr> {
        self.bytecode.instrs@
    }

    /// The cell width.
    pub closed spec fn size(self) -> CellSize {
        self.cell_size
    }

    /// The current machine state.
    pub closed spec fn cfg(self) -> Cfg {
        Cfg { ip: self.ip as int, dp: self.dp as int, tape: self.tape@ }
    }

    /// The state a program starts in: at the first instruction, on the first
    /// of `n` zeroed cells.
    pub open spec fn start(n: nat) -> Cfg {
        Cfg { ip: 0, dp: 0, tape: Seq::new(n, |_i: int| 0u64) }
    }

    /// Create a new runtime with the default tape size.
    pub fn new(bytecode: Bytecode, cell_size: CellSize) -> (r: Self)
        ensures
            r.wf(),
            r.code() == bytecode.instrs@,
            r.size() == cell_size,
            r.cfg() == Self::start(DEFAULT_TAPE_SIZE as nat),
    {
        Self::with_tape_size(bytecode, cell_size, DEFAULT_TAPE_SIZE)
    }

    /// Create a runtime with a tape of `tape_size` cells. A size of zero is
    /// treated as [`DEFAULT_TAPE_SIZE`].
    pub fn with_tape_size(bytecode: Bytecode, cell_size: CellSize, tape_size: usize) -> (r: Self)
        ensures
            r.wf(),
            r.code() == bytecode.instrs@,
            r.size() == cell_size,
            r.cfg() == Self::start(
                if tape_size == 0 {
                    DEFAULT_TAPE_SIZE as nat
                } else {
                    tape_size as nat
                },
            ),
    {
        let tape_size = if tape_size == 0 {
            DEFAULT_TAPE_SIZE
        } else {
            tape_size
        };
        let tape = vec_of_zeros(tape_size);
        Self { bytecode, tape, dp: 0, ip: 0, cell_size, tape_size }
    }

    /// Number of cells on this runtime's tape.
    pub fn tape_size(&self) -> (r: usize)
        requires
            self.wf(),
        ensures
            r == self.cfg().tape.len(),
            r > 0,
    {
        self.tape_size
    }

    /// Whether the program has stopped.
    pub fn is_halted(&self) -> (r: bool)
        ensures
            r == halted(self.code(), self.cfg()),
    {
        self.ip >= self.bytecode.instrs.len()
    }

    /// Whether the next step reads a byte.
    pub fn wants_input(&self) -> (r: bool)
        ensures
            r == wants_input(self.code(), self.cfg()),
    {
        self.ip < self.bytecode.instrs.len() && matches!(self.bytecode.instrs[self.ip], Instr::Input)
    }

    /// Execute one instruction. `byte` is consumed only by `,`, where `None`
    /// means end of input and stores zero. Whatever `.` writes is appended to
    /// `output`.
    pub fn step(&mut self, byte: Option<u8>, output: &mut Vec<u8>)
        requires
            old(self).wf(),
            !halted(old(self).code(), old(self).cfg()),
        ensures
            final(self).wf(),
            final(self).code() == old(self).code(),
            final(self).size() == old(self).size(),
            final(self).cfg() == step(old(self).code(), old(self).size(), old(self).cfg(), byte),
            final(output)@ == old(output)@ + step_output(old(self).code(), old(self).size(), old(self).cfg()),
    {
        let mask = self.cell_size.max_value();
        let last_cell = self.tape_size - 1;
        let len = self.bytecode.instrs.len();
        let dp = self.dp;
        match self.bytecode.instrs[self.ip] {
            Instr::IncrementPtr => {
                self.dp = if dp == last_cell {
                    0
                } else {
                    dp + 1
                };
                self.ip = self.ip + 1;
            },
            Instr::DecrementPtr => {
                self.dp = if dp == 0 {
                    last_cell
                } else {
                    dp - 1
                };
                self.ip = self.ip + 1;
            },
            Instr::Increment => {
                let v = self.tape[dp];
                let next = if v >= mask {
                    0
                } else {
                    v + 1
                };
                self.tape.set(dp, next);
                self.ip = self.ip + 1;
            },
            Instr::Decrement => {
                let v = self.tape[dp];
                let next = if v == 0 {
                    mask
                } else {
                    v - 1
                };
                self.tape.set(dp, next);
                self.ip = self.ip + 1;
            },
            Instr::Output => {
                let v = self.tape[dp];
                if matches!(self.cell_size, CellSize::Bits8) {
                    output.push(v as u8);
                } else {
                    push_decimal(output, v);
                }
                self.ip = self.ip + 1;
            },
            Instr::Input => {
                let value: u64 = match byte {
                    Some(b) => b as u64,
                    None => 0,
                };
                self.tape.set(dp, value);
                self.ip = self.ip + 1;
            },
            Instr::JumpIfZero(t) => {
                if self.tape[dp] == 0 {
                    self.ip = if t >= len {
                        len
                    } else {
                        t + 1
                    };
                } else {
                    self.ip = self.ip + 1;
                }
            },
            Instr::JumpIfNonZero(t) => {
                if self.tape[dp] != 0 {
                    self.ip = t;
                } else {
                    self.ip = self.ip + 1;
                }
            },
        }
    }
}

impl Runtime {
    /// Execute the program until it halts, reading `,` bytes from `input` in
    /// order (zero once it runs out) and appending what `.` writes to `output`.
    ///
    /// The pointer wraps around at both ends of the tape and cells wrap at
    /// their width. A run that exceeds `u64::MAX` steps stops with
    /// [`RunError::StepLimit`].
    pub fn run_with_io(&mut self, input: &[u8], output: &mut Vec<u8>) -> (r: Result<(), RunError>)
        requires
            old(self).wf(),
        ensures
            final(self).wf(),
            final(self).code() == old(self).code(),
            final(self).size() == old(self).size(),
            r is Ok ==> exists|n: nat|
                {
                    let t = #[trigger] run(old(self).code(), old(self).size(), input@, old(self).cfg(), n);
                    &&& halted(old(self).code(), t.cfg)
                    &&& final(self).cfg() == t.cfg
                    &&& final(output)@ == old(output)@ + t.written
                },
            r is Err ==> {
                let t = run(
                    old(self).code(),
                    old(self).size(),
                    input@,
                    old(self).cfg(),
                    u64::MAX as nat,
                );
                &&& !halted(old(self).code(), t.cfg)
                &&& final(self).cfg() == t.cfg
                &&& final(output)@ == old(output)@ + t.written
            },
    {
        let ghost code = self.code();
        let ghost size = self.size();
        let ghost c0 = self.cfg();
        let ghost out0 = output@;
        let mut steps: u64 = 0;
        let mut consumed: usize = 0;
        loop
            invariant
                code == old(self).code(),
                size == old(self).size(),
                c0 == old(self).cfg(),
                out0 == old(output)@,
                self.wf(),
                self.code() == code,
                self.size() == size,
                consumed <= input.len(),
                self.cfg() == run(code, size, input@, c0, steps as nat).cfg,
                consumed == run(code, size, input@, c0, steps as nat).consumed,
                output@ == out0 + run(code, size, input@, c0, steps as nat).written,
            decreases u64::MAX - steps,
        {
            if self.is_halted() {
                return Ok(());
            }
            if steps == u64::MAX {
                return Err(RunError::StepLimit);
            }
            let byte = if self.wants_input() && consumed < input.len() {
                let b = input[consumed];
                consumed = consumed + 1;
                Some(b)
            } else {
                None
            };
            let ghost written = output@;
            self.step(byte, output);
            steps = steps + 1;
            proof {
                assert(output@ =~= out0 + run(code, size, input@, c0, steps as nat).written);
            }
        }
    }
}

fn vec_of_zeros(n: usize) -> (v: Vec<u64>)
    ensures
        v@ == Seq::new(n as nat, |_i: int| 0u64),
{
    let mut v: Vec<u64> = Vec::new();
    let mut i: usize = 0;
    while i < n
        invariant
            i <= n,
            v@ == Seq::new(i as nat, |_i: int| 0u64),
        decreases n - i,
    {
        v.push(0);
        i += 1;
        assert(v@ =~= Seq::new(i as nat, |_i: int| 0u64));
    }
    v
}

} // verus!
