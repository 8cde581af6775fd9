//! A built-in runner: executes optimized IR one step at a time on a byte tape,
//! with every pointer access checked against the tape's bounds.

use vstd::prelude::*;
use vstd::arithmetic::div_mod::{lemma_add_mod_noop, lemma_mul_mod_noop_right};
use super::bf::{wrap_byte, Op};
use super::ir::{optimize, travel_fits, Ir};

verus! {

/// Why a run stopped before the program finished.
#[derive(Debug, Clone, Copy, PartialEq, Eq, Structural)]
pub enum RunError {
    /// A tape of zero cells was asked for.
    EmptyTape,
    /// The data pointer, or a cell an operation addressed, left the tape.
    PointerOutOfBounds { pointer: i128 },
    /// The program was still running after `u64::MAX` steps.
    StepLimit,
}

/// A runner as plain values: the blocks being executed, innermost last, each
/// with the index of its next operation; the tape; and the data pointer.
pub struct MachineView {
    pub frames: Seq<(Seq<Ir>, int)>,
    pub tape: Seq<u8>,
    pub pointer: int,
}

/// The frame being executed.
pub open spec fn top(m: MachineView) -> (Seq<Ir>, int) {
    m.frames.last()
}

/// The program has run off the end of its outermost block.
pub open spec fn halted(m: MachineView) -> bool {
    m.frames.len() <= 1 && top(m).1 >= top(m).0.len()
}

/// The next step reads a byte.
pub open spec fn wants_input(m: MachineView) -> bool {
    top(m).1 < top(m).0.len() && top(m).0[top(m).1] is Input
}

/// A cell address on the tape.
pub open spec fn on_tape(m: MachineView, p: int) -> bool {
    0 <= p < m.tape.len()
}

/// Run `ops` on `tape_size` zeroed cells, reading `,` bytes from `input` in
/// order (a read at the end of input leaves the cell as it was) and
/// appending what `.` writes to `output`.
pub fn run_ir(ops: &[Ir], tape_size: usize, input: &[u8], output: &mut Vec<u8>) -> (r: Result<(), RunError>)
    ensures
        r == Err::<(), RunError>(RunError::EmptyTape) <==> tape_size == 0,
        tape_size == 0 ==> final(output)@ == old(output)@,
        r is Ok ==> exists|n: nat|
            {
                let t = #[trigger] run(initial(ops@, tape_size as nat), input@, n);
                &&& t.fault is None
                &&& halted(t.machine)
                &&& final(output)@ == old(output)@ + t.written
            },
        r matches Err(RunError::PointerOutOfBounds { pointer }) ==> exists|n: nat|
            {
                let t = #[trigger] run(initial(ops@, tape_size as nat), input@, n);
                &&& t.fault == Some(pointer as int)
                &&& final(output)@ == old(output)@ + t.written
            },
        r == Err::<(), RunError>(RunError::StepLimit) ==> {
            let t = run(initial(ops@, tape_size as nat), input@, u64::MAX as nat);
            &&& running(t)
            &&& final(output)@ == old(output)@ + t.written
        },
{
    if tape_size == 0 {
        return Err(RunError::EmptyTape);
    }
    let ghost m0 = initial(ops@, tape_size as nat);
    let ghost out0 = output@;
    let mut machine = Machine::new(ops, tape_size);
    let mut steps: u64 = 0;
    let mut consumed: usize = 0;
    loop
        invariant
            m0 == initial(ops@, tape_size as nat),
            out0 == old(output)@,
            tape_size > 0,
            machine.wf(),
            run(m0, input@, steps as nat).fault is None,
            machine.view() == run(m0, input@, steps as nat).machine,
            consumed == run(m0, input@, steps as nat).consumed,
            consumed <= input@.len(),
            output@ == out0 + run(m0, input@, steps as nat).written,
        decreases u64::MAX - steps,
    {
        if machine.is_halted() {
            return Ok(());
        }
        if steps == u64::MAX {
            return Err(RunError::StepLimit);
        }
        let reads = machine.wants_input();
        let byte = if reads && consumed < input.len() {
            let b = input[consumed];
            consumed = consumed + 1;
            Some(b)
        } else {
            None
        };
        let ghost before = output@;
        let stepped = machine.step(byte);
        steps = steps + 1;
        match stepped {
            Ok(Some(b)) => {
                output.push(b);
            },
            Ok(None) => {},
            Err(p) => {
                return Err(RunError::PointerOutOfBounds { pointer: p });
            },
        }
        proof {
            assert(output@ =~= out0 + run(m0, input@, steps as nat).written);
        }
    }
}

/// Optimize `ops` and run them; see [`run_ir`].
pub fn run_ops(ops: &[Op], tape_size: usize, input: &[u8], output: &mut Vec<u8>) -> (r: Result<(), RunError>)
    requires
        travel_fits(ops@),
    ensures
        r == Err::<(), RunError>(RunError::EmptyTape) <==> tape_size == 0,
        exists|ir: Seq<Ir>| #[trigger] super::ir::ir_block_ok(ir) && {
            &&& r is Ok ==> exists|n: nat|
                {
                    let t = #[trigger] run(initial(ir, tape_size as nat), input@, n);
                    &&& t.fault is None
                    &&& halted(t.machine)
                    &&& final(output)@ == old(output)@ + t.written
                }
            &&& r matches Err(RunError::PointerOutOfBounds { pointer }) ==> exists|n: nat|
                {
                    let t = #[trigger] run(initial(ir, tape_size as nat), input@, n);
                    &&& t.fault == Some(pointer as int)
                    &&& final(output)@ == old(output)@ + t.written
                }
        },
{
    let ir = optimize(ops);
    run_ir(ir.as_slice(), tape_size, input, output)
}

/// `cell + delta`, wrapping at a byte.
pub open spec fn wrapped(cell: u8, delta: int) -> u8 {
    ((cell + delta) % 256) as u8
}

/// Add `source * factor` to the cell at each term's offset from `pointer`, in
/// order; the first offset that leaves the tape is the error.
pub open spec fn add_terms(tape: Seq<u8>, pointer: int, source: u8, terms: Seq<(i64, i32)>) -> Result<Seq<u8>, int>
    decreases terms.len(),
{
    if terms.len() == 0 {
        Ok(tape)
    } else {
        let q = pointer + terms[0].0;
        if 0 <= q < tape.len() {
            add_terms(
                tape.update(q, wrapped(tape[q], source * terms[0].1)),
                pointer,
                source,
                terms.drop_first(),
            )
        } else {
            Err(q)
        }
    }
}

/// What an `AddMul` does to the tape, where the current cell is the source.
pub open spec fn transfer(m: MachineView, terms: Seq<(i64, i32)>) -> Result<Seq<u8>, int> {
    add_terms(m.tape, m.pointer, m.tape[m.pointer], terms)
}

/// The frames with the top one moved on by one operation.
pub open spec fn advanced(m: MachineView) -> Seq<(Seq<Ir>, int)> {
    m.frames.update(m.frames.len() - 1, (top(m).0, top(m).1 + 1))
}

/// The machine with new frames.
pub open spec fn with_frames(m: MachineView, frames: Seq<(Seq<Ir>, int)>) -> MachineView {
    MachineView { frames, tape: m.tape, pointer: m.pointer }
}

/// The machine moved on by one operation, with a new tape.
pub open spec fn with_tape(m: MachineView, tape: Seq<u8>) -> MachineView {
    MachineView { frames: advanced(m), tape, pointer: m.pointer }
}

/// One step: the machine after it and the byte it wrote, or the address that
/// left the tape. `input` is the byte a read gets, or `None` at the end of
/// input, which leaves the cell as it was.
pub open spec fn step(m: MachineView, input: Option<u8>) -> Result<(MachineView, Option<u8>), int> {
    let k = m.frames.len() - 1;
    let block = top(m).0;
    let i = top(m).1;
    if i >= block.len() {
        // The end of a loop body: go round again, or leave the loop.
        if m.tape[m.pointer] != 0 {
            Ok((with_frames(m, m.frames.update(k, (block, 0))), None))
        } else {
            let parent = m.frames[k - 1];
            Ok((with_frames(m, m.frames.drop_last().update(k - 1, (parent.0, parent.1 + 1))), None))
        }
    } else {
        match block[i] {
            Ir::Add { offset, delta } => {
                let p = m.pointer + offset;
                if on_tape(m, p) {
                    Ok((with_tape(m, m.tape.update(p, wrapped(m.tape[p], delta as int))), None))
                } else {
                    Err(p)
                }
            },
            Ir::Store { offset, value } => {
                let p = m.pointer + offset;
                if on_tape(m, p) {
                    Ok((with_tape(m, m.tape.update(p, value)), None))
                } else {
                    Err(p)
                }
            },
            Ir::Move(delta) => {
                let p = m.pointer + delta;
                if on_tape(m, p) {
                    Ok((MachineView { frames: advanced(m), tape: m.tape, pointer: p }, None))
                } else {
                    Err(p)
                }
            },
            Ir::Input { offset } => {
                let p = m.pointer + offset;
                if on_tape(m, p) {
                    match input {
                        Some(b) => Ok((with_tape(m, m.tape.update(p, b)), None)),
                        None => Ok((with_tape(m, m.tape), None)),
                    }
                } else {
                    Err(p)
                }
            },
            Ir::Output { offset } => {
                let p = m.pointer + offset;
                if on_tape(m, p) {
                    Ok((with_tape(m, m.tape), Some(m.tape[p])))
                } else {
                    Err(p)
                }
            },
            Ir::Loop(body) => {
                if m.tape[m.pointer] != 0 {
                    Ok((with_frames(m, m.frames.push((body@, 0int))), None))
                } else {
                    Ok((with_tape(m, m.tape), None))
                }
            },
            Ir::Scan(stride) => {
                if m.tape[m.pointer] != 0 {
                    let p = m.pointer + stride;
                    if on_tape(m, p) {
                        Ok((MachineView { frames: m.frames, tape: m.tape, pointer: p }, None))
                    } else {
                        Err(p)
                    }
                } else {
                    Ok((with_tape(m, m.tape), None))
                }
            },
            Ir::AddMul { terms } => {
                match transfer(m, terms@) {
                    Ok(t) => Ok((with_tape(m, t.update(m.pointer, 0)), None)),
                    Err(p) => Err(p),
                }
            },
        }
    }
}

/// Where a run stands after some number of steps.
pub struct Trace {
    pub machine: MachineView,
    /// Input bytes consumed.
    pub consumed: int,
    /// Bytes written.
    pub written: Seq<u8>,
    /// The address that left the tape, once one has.
    pub fault: Option<int>,
}

/// Whether a trace can take another step.
pub open spec fn running(t: Trace) -> bool {
    t.fault is None && !halted(t.machine)
}

/// The byte a read gets from `input` after `consumed` bytes.
pub open spec fn next_input(input: Seq<u8>, consumed: int) -> Option<u8> {
    if 0 <= consumed < input.len() {
        Some(input[consumed])
    } else {
        None
    }
}

/// The run of `m0` for up to `n` steps against the bytes of `input`, stopping
/// early when the program halts or faults.
pub open spec fn run(m0: MachineView, input: Seq<u8>, n: nat) -> Trace
    decreases n,
{
    if n == 0 {
        Trace { machine: m0, consumed: 0, written: Seq::empty(), fault: None }
    } else {
        let t = run(m0, input, (n - 1) as nat);
        if !running(t) {
            t
        } else {
            let reads = wants_input(t.machine);
            let byte = if reads {
                next_input(input, t.consumed)
            } else {
                None
            };
            let consumed = if reads && byte is Some {
                t.consumed + 1
            } else {
                t.consumed
            };
            match step(t.machine, byte) {
                Ok((m, out)) => Trace {
                    machine: m,
                    consumed,
                    written: match out {
                        Some(b) => t.written.push(b),
                        None => t.written,
                    },
                    fault: None,
                },
                Err(p) => Trace { machine: t.machine, consumed, written: t.written, fault: Some(p) },
            }
        }
    }
}

/// A fresh machine for `ops` on `tape_size` zeroed cells.
pub open spec fn initial(ops: Seq<Ir>, tape_size: nat) -> MachineView {
    MachineView { frames: seq![(ops, 0int)], tape: Seq::new(tape_size, |i: int| 0u8), pointer: 0 }
}

/// Executes IR one step at a time.
pub struct Machine<'a> {
    frames: Vec<(&'a [Ir], usize)>,
    tape: Vec<u8>,
    pointer: usize,
}

impl<'a> Machine<'a> {
    /// The machine as plain values.
    pub closed spec fn view(&self) -> MachineView {
        MachineView {
            frames: Seq::new(self.frames@.len(), |i: int| (self.frames@[i].0@, self.frames@[i].1 as int)),
            tape: self.tape@,
            pointer: self.pointer as int,
        }
    }

    /// At least the outermost block, every index within its block, and the
    /// pointer on a tape that is not empty.
    pub closed spec fn wf(&self) -> bool {
        &&& self.frames@.len() >= 1
        &&& forall|i: int| 0 <= i < self.frames@.len() ==> (#[trigger] self.frames@[i]).1 <= self.frames@[i].0@.len()
        &&& forall|i: int| 0 <= i < self.frames@.len() - 1 ==> (#[trigger] self.frames@[i]).1 < self.frames@[i].0@.len()
        &&& self.pointer < self.tape@.len()
    }

    /// A machine about to run `ops` on `tape_size` zeroed cells.
    pub fn new(ops: &'a [Ir], tape_size: usize) -> (r: Self)
        requires
            tape_size > 0,
        ensures
            r.wf(),
            r.view() == initial(ops@, tape_size as nat),
    {
        let mut frames: Vec<(&'a [Ir], usize)> = Vec::new();
        frames.push((ops, 0));
        let tape: Vec<u8> = vec![0u8; tape_size];
        let r = Machine { frames, tape, pointer: 0 };
        proof {
            assert(r.view().frames =~= seq![(ops@, 0int)]);
            assert(r.view().tape =~= Seq::new(tape_size as nat, |i: int| 0u8));
        }
        r
    }

    /// Whether the program has finished.
    pub fn is_halted(&self) -> (r: bool)
        requires
            self.wf(),
        ensures
            r == halted(self.view()),
    {
        let k = self.frames.len() - 1;
        let (block, i) = self.frames[k];
        self.frames.len() == 1 && i >= block.len()
    }

    /// Whether the next step reads a byte.
    pub fn wants_input(&self) -> (r: bool)
        requires
            self.wf(),
        ensures
            r == wants_input(self.view()),
    {
        let k = self.frames.len() - 1;
        let (block, i) = self.frames[k];
        i < block.len() && matches!(block[i], Ir::Input { .. })
    }

    /// The tape.
    pub fn tape(&self) -> (r: &[u8])
        ensures
            r@ == self.view().tape,
    {
        self.tape.as_slice()
    }

    /// Move the top frame on by one operation.
    fn advance(&mut self)
        requires
            old(self).wf(),
            top(old(self).view()).1 < top(old(self).view()).0.len(),
        ensures
            final(self).wf(),
            final(self).view() == with_tape(old(self).view(), old(self).view().tape),
    {
        let k = self.frames.len() - 1;
        let (block, i) = self.frames[k];
        assert(self.view().frames[k as int] == (block@, i as int));
        let n = block.len();
        assert(i < n);
        self.frames.set(k, (block, i + 1));
        proof {
            assert(self.view().frames =~= advanced(old(self).view()));
        }
    }

    /// Run one step, reading `input` if the step is a read. Returns the byte
    /// written, if any, or the address that left the tape. A failed step may
    /// leave the tape part-way through an update.
    pub fn step(&mut self, input: Option<u8>) -> (r: Result<Option<u8>, i128>)
        requires
            old(self).wf(),
            !halted(old(self).view()),
        ensures
            final(self).wf(),
            match step(old(self).view(), input) {
                Ok((m, out)) => r == Ok::<Option<u8>, i128>(out) && final(self).view() == m,
                Err(p) => r matches Err(q) && q == p,
            },
    {
        let ghost m = self.view();
        let k = self.frames.len() - 1;
        let (block, i) = self.frames[k];
        if i >= block.len() {
            if self.tape[self.pointer] != 0 {
                self.frames.set(k, (block, 0));
                proof {
                    assert(self.view().frames =~= m.frames.update(k as int, (block@, 0int)));
                }
            } else {
                assert(self.frames@[k - 1].1 < self.frames@[k - 1].0@.len());
                self.frames.pop();
                let (parent, j) = self.frames[k - 1];
                let n = parent.len();
                assert(j < n);
                self.frames.set(k - 1, (parent, j + 1));
                proof {
                    assert(self.view().frames =~= m.frames.drop_last().update(k - 1, (parent@, j + 1)));
                }
            }
            return Ok(None);
        }
        let op: &'a Ir = &block[i];
        match op {
            Ir::Add { offset, delta } => {
                match self.address(*offset) {
                    Ok(p) => {
                        let cell = self.tape[p];
                        self.tape.set(p, wrapping_add_byte(cell, *delta));
                        self.advance();
                        Ok(None)
                    },
                    Err(p) => Err(p),
                }
            },
            Ir::Store { offset, value } => {
                match self.address(*offset) {
                    Ok(p) => {
                        self.tape.set(p, *value);
                        self.advance();
                        Ok(None)
                    },
                    Err(p) => Err(p),
                }
            },
            Ir::Move(delta) => {
                match self.address(*delta) {
                    Ok(p) => {
                        self.pointer = p;
                        self.advance();
                        Ok(None)
                    },
                    Err(p) => Err(p),
                }
            },
            Ir::Input { offset } => {
                match self.address(*offset) {
                    Ok(p) => {
                        if let Some(b) = input {
                            self.tape.set(p, b);
                        }
                        self.advance();
                        Ok(None)
                    },
                    Err(p) => Err(p),
                }
            },
            Ir::Output { offset } => {
                match self.address(*offset) {
                    Ok(p) => {
                        let b = self.tape[p];
                        self.advance();
                        Ok(Some(b))
                    },
                    Err(p) => Err(p),
                }
            },
            Ir::Loop(body) => {
                if self.tape[self.pointer] != 0 {
                    self.frames.push((body.as_slice(), 0));
                    proof {
                        assert(self.view().frames =~= m.frames.push((body@, 0int)));
                    }
                } else {
                    self.advance();
                }
                Ok(None)
            },
            Ir::Scan(stride) => {
                if self.tape[self.pointer] != 0 {
                    match self.address(*stride) {
                        Ok(p) => {
                            self.pointer = p;
                            Ok(None)
                        },
                        Err(p) => Err(p),
                    }
                } else {
                    self.advance();
                    Ok(None)
                }
            },
            Ir::AddMul { terms } => {
                match self.add_terms(terms) {
                    Ok(()) => {
                        let here = self.pointer;
                        self.tape.set(here, 0);
                        self.advance();
                        Ok(None)
                    },
                    Err(p) => Err(p),
                }
            },
        }
    }

    /// Add `source * factor` to the cell at each term's offset from the
    /// pointer, in order, where `source` is the current cell.
    fn add_terms(&mut self, terms: &Vec<(i64, i32)>) -> (r: Result<(), i128>)
        requires
            old(self).wf(),
        ensures
            final(self).wf(),
            final(self).view().frames == old(self).view().frames,
            final(self).view().pointer == old(self).view().pointer,
            match transfer(old(self).view(), terms@) {
                Ok(t) => r is Ok && final(self).view().tape == t,
                Err(p) => r matches Err(q) && q == p,
            },
    {
        let ghost m = self.view();
        let source = self.tape[self.pointer];
        let mut j: usize = 0;
        assert(terms@.skip(0) =~= terms@);
        while j < terms.len()
            invariant
                m == old(self).view(),
                self.view().tape.len() == m.tape.len(),
                self.wf(),
                j <= terms@.len(),
                self.view().frames == m.frames,
                self.view().pointer == m.pointer,
                source == m.tape[m.pointer],
                add_terms(m.tape, m.pointer, source, terms@) == add_terms(self.view().tape, m.pointer, source, terms@.skip(j as int)),
            decreases terms@.len() - j,
        {
            let (offset, factor) = terms[j];
            proof {
                assert(terms@.skip(j as int).drop_first() =~= terms@.skip(j + 1));
                assert(terms@.skip(j as int)[0] == terms@[j as int]);
            }
            match self.address(offset) {
                Ok(q) => {
                    let cell = self.tape[q];
                    self.tape.set(q, multiply_add_byte(cell, source, factor));
                },
                Err(q) => {
                    return Err(q);
                },
            }
            j = j + 1;
        }
        proof {
            assert(terms@.skip(j as int) =~= Seq::<(i64, i32)>::empty());
        }
        Ok(())
    }

    /// The tape address `offset` cells from the pointer, or the address as
    /// an error when it is off the tape.
    fn address(&self, offset: i64) -> (r: Result<usize, i128>)
        requires
            self.wf(),
        ensures
            match r {
                Ok(p) => p == self.pointer + offset && p < self.tape@.len(),
                Err(p) => p == self.pointer + offset && !(0 <= p < self.tape@.len()),
            },
    {
        let p: i128 = self.pointer as i128 + offset as i128;
        if p < 0 || p >= self.tape.len() as i128 {
            Err(p)
        } else {
            Ok(p as usize)
        }
    }
}

/// `cell + delta`, wrapping at a byte.
fn wrapping_add_byte(cell: u8, delta: i32) -> (r: u8)
    ensures
        r == wrapped(cell, delta as int),
{
    let d = wrap_byte(delta);
    let sum: i32 = cell as i32 + d;
    proof {
        lemma_add_mod_noop(cell as int, delta as int, 256);
        assert((cell as int) % 256 == cell as int);
        assert(d as int % 256 == d as int);
    }
    (sum % 256) as u8
}

/// `cell + source * factor`, wrapping at a byte.
fn multiply_add_byte(cell: u8, source: u8, factor: i32) -> (r: u8)
    ensures
        r == wrapped(cell, source * factor),
{
    let f = wrap_byte(factor);
    let f8: u32 = f as u32;
    assert(source * f8 <= 255 * 255) by (nonlinear_arith)
        requires
            source <= 255,
            f8 <= 255,
    ;
    let product: u32 = source as u32 * f8;
    let sum: u32 = cell as u32 + product;
    proof {
        lemma_mul_mod_noop_right(source as int, factor as int, 256);
        lemma_add_mod_noop(cell as int, source * factor, 256);
        lemma_add_mod_noop(cell as int, product as int, 256);
        assert((cell as int) % 256 == cell as int);
    }
    (sum % 256) as u8
}

} // verus!
