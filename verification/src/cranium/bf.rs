//! Brainfuck emitter with compile-time pointer tracking.
//!
//! Every value lives at a statically known tape address, so the builder can
//! always compute the `>`/`<` run needed to reach a cell. Loop helpers return
//! to the cell a loop started on before `]`, which keeps the static position
//! exact across any nesting. Temporaries come from a bump allocator, and a
//! scope releases everything it allocated.

use vstd::prelude::*;
use vstd::string::StringSliceAdditionalSpecFns;
use crate::bytes::{all_ascii, string_from_ascii};

verus! {

/// A tape address, in cells from the start of the tape.
pub type Addr = i64;

/// Bits in one Brainfuck cell.
pub const BITS_PER_CELL: usize = 8;

/// The highest address the emitter hands out or moves to.
pub open spec fn max_addr() -> int {
    i64::MAX as int
}

/// A snapshot of both allocators, taken by [`Bf::watermark`].
#[derive(Debug, Clone, Copy, PartialEq, Eq, Structural)]
pub struct Mark {
    scalar: Addr,
    array: Addr,
}

impl Mark {
    /// The next scalar address when the snapshot was taken.
    pub closed spec fn scalar_view(&self) -> int {
        self.scalar as int
    }

    /// The next array address when the snapshot was taken.
    pub closed spec fn array_view(&self) -> int {
        self.array as int
    }
}

/// An emitter as plain values.
pub struct BfView {
    pub out: Seq<u8>,
    pub pos: int,
    pub next_free: int,
    pub peak: int,
    pub array_next: int,
    pub array_peak: int,
}

/// Whether a byte is one of the eight Brainfuck commands.
pub open spec fn is_command(b: u8) -> bool {
    b == 43 || b == 45 || b == 60 || b == 62 || b == 46 || b == 44 || b == 91 || b == 93
}

/// Whether every byte is a Brainfuck command.
pub open spec fn all_commands(s: Seq<u8>) -> bool {
    forall|i: int| 0 <= i < s.len() ==> is_command(#[trigger] s[i])
}

/// The emitter's invariant: only commands emitted, and every address in
/// range with the allocators below their high-water marks.
pub open spec fn view_ok(v: BfView) -> bool {
    &&& all_commands(v.out)
    &&& 0 <= v.pos <= max_addr()
    &&& 0 <= v.next_free <= max_addr()
    &&& 0 <= v.peak <= max_addr()
    &&& 0 <= v.array_next <= max_addr()
    &&& 0 <= v.array_peak <= max_addr()
}

/// The pointer moves from `from` to `to`.
pub open spec fn moves(from: int, to: int) -> Seq<u8> {
    if to >= from {
        Seq::new((to - from) as nat, |_i: int| 62u8)
    } else {
        Seq::new((from - to) as nat, |_i: int| 60u8)
    }
}

/// The commands that add a byte delta in `0..256`: the shorter way round.
pub open spec fn adds(d: int) -> Seq<u8> {
    if d <= 128 {
        Seq::new(d as nat, |_i: int| 43u8)
    } else {
        Seq::new((256 - d) as nat, |_i: int| 45u8)
    }
}

pub open spec fn emit(v: BfView, text: Seq<u8>) -> BfView {
    BfView { out: v.out + text, ..v }
}

/// Move the pointer to `addr`.
pub open spec fn go(v: BfView, addr: int) -> BfView {
    BfView { out: v.out + moves(v.pos, addr), pos: addr, ..v }
}

/// Add `delta` to the cell at `addr`, wrapping; nothing at all for a
/// multiple of 256.
pub open spec fn add_s(v: BfView, addr: int, delta: int) -> BfView {
    let d = delta % 256;
    if d == 0 {
        v
    } else {
        emit(go(v, addr), adds(d))
    }
}

/// Clear the cell at `addr`.
pub open spec fn zero_s(v: BfView, addr: int) -> BfView {
    emit(go(v, addr), seq![91u8, 45u8, 93u8])
}

/// Set the cell at `addr` to `value`.
pub open spec fn set_s(v: BfView, addr: int, value: int) -> BfView {
    add_s(zero_s(v, addr), addr, value)
}

/// Write the cell at `addr`.
pub open spec fn write_s(v: BfView, addr: int) -> BfView {
    emit(go(v, addr), seq![46u8])
}

/// Read into the cell at `addr`, cleared first so end of input reads as zero.
pub open spec fn read_s(v: BfView, addr: int) -> BfView {
    emit(go(zero_s(v, addr), addr), seq![44u8])
}

/// `[` at `addr`.
pub open spec fn open_s(v: BfView, addr: int) -> BfView {
    emit(go(v, addr), seq![91u8])
}

/// `]` at `addr`.
pub open spec fn close_s(v: BfView, addr: int) -> BfView {
    emit(go(v, addr), seq![93u8])
}

/// Reserve `count` scalar cells; they start at the old `next_free`.
pub open spec fn alloc_s(v: BfView, count: int) -> BfView {
    let next = v.next_free + count;
    BfView { next_free: next, peak: if v.peak > next { v.peak } else { next }, ..v }
}

/// Reserve `count` array cells; they start at the old `array_next`.
pub open spec fn alloc_array_s(v: BfView, count: int) -> BfView {
    let next = v.array_next + count;
    BfView { array_next: next, array_peak: if v.array_peak > next { v.array_peak } else { next }, ..v }
}

/// Clear the `count` cells from `base` on, in order.
pub open spec fn zero_range(v: BfView, base: int, count: nat) -> BfView
    decreases count,
{
    if count == 0 {
        v
    } else {
        zero_s(zero_range(v, base, (count - 1) as nat), base + count - 1)
    }
}

/// Reserve `count` scalar cells and clear them.
pub open spec fn alloc_zeroed_s(v: BfView, count: nat) -> BfView {
    zero_range(alloc_s(v, count as int), v.next_free, count)
}

/// Put both allocators back where they were.
pub open spec fn release_s(v: BfView, scalar: int, array: int) -> BfView {
    BfView { next_free: scalar, array_next: array, ..v }
}

/// Add `delta` to each of `dsts`, in order.
pub open spec fn add_each(v: BfView, dsts: Seq<i64>, delta: int) -> BfView
    decreases dsts.len(),
{
    if dsts.len() == 0 {
        v
    } else {
        add_s(add_each(v, dsts.drop_last(), delta), dsts.last() as int, delta)
    }
}

/// Move the value at `src` onto each of `dsts` with sign `delta`, leaving
/// `src` at zero.
pub open spec fn move_s(v: BfView, src: int, dsts: Seq<i64>, delta: int) -> BfView {
    if dsts.len() == 0 {
        zero_s(v, src)
    } else {
        close_s(add_each(add_s(open_s(v, src), src, -1), dsts, delta), src)
    }
}

/// Add a copy of `src` to `dst` through a temporary at the next free cell.
pub open spec fn add_copy_s(v: BfView, src: int, dst: int) -> BfView {
    let keep = v.next_free;
    let w = alloc_zeroed_s(v, 1);
    let w = move_s(w, src, seq![dst as i64, keep as i64], 1);
    let w = move_s(w, keep, seq![src as i64], 1);
    release_s(w, v.next_free, v.array_next)
}

/// Subtract a copy of `src` from `dst` through a temporary at the next free
/// cell.
pub open spec fn sub_copy_s(v: BfView, src: int, dst: int) -> BfView {
    let keep = v.next_free;
    let w = alloc_zeroed_s(v, 1);
    let w = open_s(w, src);
    let w = add_s(w, src, -1);
    let w = add_s(w, dst, -1);
    let w = add_s(w, keep, 1);
    let w = close_s(w, src);
    let w = move_s(w, keep, seq![src as i64], 1);
    release_s(w, v.next_free, v.array_next)
}

/// Overwrite `dst` with a copy of `src`.
pub open spec fn copy_s(v: BfView, src: int, dst: int) -> BfView {
    if src == dst {
        v
    } else {
        add_copy_s(zero_s(v, dst), src, dst)
    }
}

/// Emits Brainfuck while tracking the data pointer. Scalars and temporaries
/// come from the low end of the tape and arrays from an array base upwards.
pub struct Bf {
    out: Vec<u8>,
    pos: Addr,
    next_free: Addr,
    peak: Addr,
    array_next: Addr,
    array_peak: Addr,
}

impl Bf {
    /// The emitter as plain values.
    pub closed spec fn view(&self) -> BfView {
        BfView {
            out: self.out@,
            pos: self.pos as int,
            next_free: self.next_free as int,
            peak: self.peak as int,
            array_next: self.array_next as int,
            array_peak: self.array_peak as int,
        }
    }

    /// The emitter's invariant.
    pub open spec fn wf(&self) -> bool {
        view_ok(self.view())
    }

    /// An emitter whose arrays share the tape with everything else.
    pub fn new() -> (r: Self)
        ensures
            r.wf(),
            r.view() == (BfView { out: seq![], pos: 0, next_free: 0, peak: 0, array_next: 0, array_peak: 0 }),
    {
        Self::with_array_base(0)
    }

    /// An emitter that places array regions at `array_base` and above.
    pub fn with_array_base(array_base: Addr) -> (r: Self)
        requires
            array_base >= 0,
        ensures
            r.wf(),
            r.view() == (BfView {
                out: seq![],
                pos: 0,
                next_free: 0,
                peak: 0,
                array_next: array_base as int,
                array_peak: array_base as int,
            }),
    {
        Bf { out: Vec::new(), pos: 0, next_free: 0, peak: 0, array_next: array_base, array_peak: array_base }
    }

    /// The Brainfuck emitted so far.
    pub fn finish(self) -> (r: String)
        requires
            self.wf(),
        ensures
            crate::bytes::string_bytes(r) == self.view().out,
    {
        proof {
            assert forall|i: int| 0 <= i < self.out@.len() implies #[trigger] self.out@[i] < 128 by {
                assert(is_command(self.out@[i]));
            }
        }
        string_from_ascii(self.out)
    }

    /// Highest tape cell the program can touch.
    pub fn cells_used(&self) -> (r: usize)
        requires
            self.wf(),
        ensures
            r == (if self.view().peak > self.view().array_peak { self.view().peak } else { self.view().array_peak }) as usize,
    {
        let m = if self.peak > self.array_peak { self.peak } else { self.array_peak };
        m as usize
    }

    /// Cells the scalar and temporary region needs.
    pub fn scalar_cells(&self) -> (r: usize)
        requires
            self.wf(),
        ensures
            r == self.view().peak as usize,
    {
        self.peak as usize
    }

    /// Number of Brainfuck commands emitted so far.
    pub fn len(&self) -> (r: usize)
        ensures
            r == self.view().out.len(),
    {
        self.out.len()
    }

    /// Whether nothing has been emitted.
    pub fn is_empty(&self) -> (r: bool)
        ensures
            r == (self.view().out.len() == 0),
    {
        self.out.len() == 0
    }

    /// Reserve `count` consecutive cells, not zeroed.
    pub fn alloc_cells(&mut self, count: usize) -> (r: Addr)
        requires
            old(self).wf(),
            old(self).view().next_free + count <= max_addr(),
        ensures
            final(self).wf(),
            r == old(self).view().next_free,
            final(self).view() == alloc_s(old(self).view(), count as int),
    {
        let base = self.next_free;
        self.next_free = self.next_free + count as i64;
        if self.peak < self.next_free {
            self.peak = self.next_free;
        }
        base
    }

    /// Reserve `count` consecutive cells and zero them.
    pub fn alloc_zeroed(&mut self, count: usize) -> (r: Addr)
        requires
            old(self).wf(),
            old(self).view().next_free + count <= max_addr(),
        ensures
            final(self).view().next_free == old(self).view().next_free + count,
            final(self).view().array_next == old(self).view().array_next,
            final(self).wf(),
            r == old(self).view().next_free,
            final(self).view() == alloc_zeroed_s(old(self).view(), count as nat),
    {
        let base = self.alloc_cells(count);
        let ghost start = self.view();
        let mut offset: usize = 0;
        while offset < count
            invariant
                offset <= count,
                base + count <= max_addr(),
                base >= 0,
                base == old(self).view().next_free,
                start == alloc_s(old(self).view(), count as int),
                self.wf(),
                self.view() == zero_range(start, base as int, offset as nat),
                self.view().next_free == old(self).view().next_free + count,
                self.view().array_next == old(self).view().array_next,
            decreases count - offset,
        {
            assert(offset < count && count <= i64::MAX);
            let o: i64 = offset as i64;
            self.zero(base + o);
            offset += 1;
        }
        base
    }

    /// Reserve `count` consecutive cells in the array region, not zeroed.
    pub fn alloc_array(&mut self, count: usize) -> (r: Addr)
        requires
            old(self).wf(),
            old(self).view().array_next + count <= max_addr(),
        ensures
            final(self).wf(),
            r == old(self).view().array_next,
            final(self).view() == alloc_array_s(old(self).view(), count as int),
    {
        let base = self.array_next;
        self.array_next = self.array_next + count as i64;
        if self.array_peak < self.array_next {
            self.array_peak = self.array_next;
        }
        base
    }

    /// Run `body` in a temporary allocation scope: cells it reserves are
    /// released when it returns, so sibling regions reuse the same tape.
    pub fn scope<T>(&mut self, body: impl FnOnce(&mut Self) -> T) -> (r: T)
        requires
            old(self).wf(),
            forall|s: &mut Bf| s.wf() && s.view().next_free <= old(self).view().next_free ==> call_requires(body, (s,)),
            forall|s: &mut Bf, t: T| s.wf() && call_ensures(body, (s,), t) ==> final(s).wf(),
        ensures
            final(self).wf(),
            exists|s: &mut Bf|
                *s == *old(self) && call_ensures(body, (s,), r) && final(self).view() == release_s(
                    final(s).view(),
                    old(self).view().next_free,
                    old(self).view().array_next,
                ),
    {
        let mark = self.watermark();
        let value = body(self);
        self.release_to(mark);
        value
    }

    /// The addresses both allocators would hand out next.
    pub fn watermark(&self) -> (r: Mark)
        ensures
            r.scalar_view() == self.view().next_free,
            r.array_view() == self.view().array_next,
    {
        Mark { scalar: self.next_free, array: self.array_next }
    }

    /// Reset both allocators to an earlier [`Bf::watermark`].
    pub fn release_to(&mut self, mark: Mark)
        requires
            old(self).wf(),
            0 <= mark.scalar_view() <= max_addr(),
            0 <= mark.array_view() <= max_addr(),
        ensures
            final(self).wf(),
            final(self).view() == release_s(old(self).view(), mark.scalar_view(), mark.array_view()),
    {
        self.next_free = mark.scalar;
        self.array_next = mark.array;
    }

    fn push_run(&mut self, byte: u8, count: u64)
        requires
            old(self).wf(),
            is_command(byte),
        ensures
            final(self).wf(),
            final(self).view() == emit(old(self).view(), Seq::new(count as nat, |_i: int| byte)),
    {
        let ghost start = self.out@;
        let mut k: u64 = 0;
        while k < count
            invariant
                k <= count,
                is_command(byte),
                self.wf(),
                self.view() == emit(old(self).view(), Seq::new(k as nat, |_i: int| byte)),
                start == old(self).view().out,
            decreases count - k,
        {
            self.out.push(byte);
            k += 1;
            proof {
                assert(self.out@ =~= start + Seq::new(k as nat, |_i: int| byte));
            }
        }
    }

    fn push_command(&mut self, byte: u8)
        requires
            old(self).wf(),
            is_command(byte),
        ensures
            final(self).wf(),
            final(self).view() == emit(old(self).view(), seq![byte]),
    {
        self.out.push(byte);
        proof {
            assert(self.out@ =~= old(self).view().out + seq![byte]);
        }
    }

    /// Move the data pointer to `addr`.
    pub fn goto(&mut self, addr: Addr)
        requires
            old(self).wf(),
            0 <= addr <= max_addr(),
        ensures
            final(self).view().next_free == old(self).view().next_free,
            final(self).view().array_next == old(self).view().array_next,
            final(self).wf(),
            final(self).view() == go(old(self).view(), addr as int),
    {
        if addr >= self.pos {
            let count = (addr - self.pos) as u64;
            self.push_run(62, count);
        } else {
            let count = (self.pos - addr) as u64;
            self.push_run(60, count);
        }
        self.pos = addr;
    }

    /// Add `delta` to the cell at `addr`, wrapping; past the halfway point
    /// by subtraction, which is shorter.
    pub fn add(&mut self, addr: Addr, delta: i32)
        requires
            old(self).wf(),
            0 <= addr <= max_addr(),
        ensures
            final(self).view().next_free == old(self).view().next_free,
            final(self).view().array_next == old(self).view().array_next,
            final(self).wf(),
            final(self).view() == add_s(old(self).view(), addr as int, delta as int),
    {
        let d = crate::hypothalamus::bf::wrap_byte(delta);
        if d == 0 {
            return;
        }
        self.goto(addr);
        if d <= 128 {
            self.push_run(43, d as u64);
        } else {
            self.push_run(45, (256 - d) as u64);
        }
    }

    /// Set the cell at `addr` to zero.
    pub fn zero(&mut self, addr: Addr)
        requires
            old(self).wf(),
            0 <= addr <= max_addr(),
        ensures
            final(self).view().next_free == old(self).view().next_free,
            final(self).view().array_next == old(self).view().array_next,
            final(self).wf(),
            final(self).view() == zero_s(old(self).view(), addr as int),
    {
        self.goto(addr);
        let ghost mid = self.view();
        self.push_command(91);
        self.push_command(45);
        self.push_command(93);
        proof {
            assert(self.view().out =~= mid.out + seq![91u8, 45u8, 93u8]);
        }
    }

    /// Set the cell at `addr` to `value`.
    pub fn set(&mut self, addr: Addr, value: u8)
        requires
            old(self).wf(),
            0 <= addr <= max_addr(),
        ensures
            final(self).view().next_free == old(self).view().next_free,
            final(self).view().array_next == old(self).view().array_next,
            final(self).wf(),
            final(self).view() == set_s(old(self).view(), addr as int, value as int),
    {
        self.zero(addr);
        self.add(addr, value as i32);
    }

    /// Write the cell at `addr` to standard output.
    pub fn write(&mut self, addr: Addr)
        requires
            old(self).wf(),
            0 <= addr <= max_addr(),
        ensures
            final(self).view().next_free == old(self).view().next_free,
            final(self).view().array_next == old(self).view().array_next,
            final(self).wf(),
            final(self).view() == write_s(old(self).view(), addr as int),
    {
        self.goto(addr);
        self.push_command(46);
    }

    /// Read one byte from standard input into `addr`. The cell is cleared
    /// first, so end of input reads as `0` on every runtime.
    pub fn read(&mut self, addr: Addr)
        requires
            old(self).wf(),
            0 <= addr <= max_addr(),
        ensures
            final(self).view().next_free == old(self).view().next_free,
            final(self).view().array_next == old(self).view().array_next,
            final(self).wf(),
            final(self).view() == read_s(old(self).view(), addr as int),
    {
        self.zero(addr);
        self.goto(addr);
        self.push_command(44);
    }

    /// Write the literal byte `value` using `scratch`, which is left holding
    /// it.
    pub fn write_literal(&mut self, scratch: Addr, value: u8)
        requires
            old(self).wf(),
            0 <= scratch <= max_addr(),
        ensures
            final(self).wf(),
            final(self).view() == write_s(set_s(old(self).view(), scratch as int, value as int), scratch as int),
    {
        self.set(scratch, value);
        self.write(scratch);
    }

    /// Write `bytes` one at a time through `scratch`, adjusting it between
    /// characters instead of rebuilding each value, and clear it after.
    pub fn write_bytes(&mut self, scratch: Addr, bytes: &[u8])
        requires
            old(self).wf(),
            0 <= scratch <= max_addr(),
        ensures
            final(self).wf(),
            final(self).view() == written_bytes(old(self).view(), scratch as int, bytes@),
    {
        let mut k: usize = 0;
        proof {
            assert(bytes@.take(0) =~= seq![]);
        }
        while k < bytes.len()
            invariant
                k <= bytes@.len(),
                0 <= scratch <= max_addr(),
                self.wf(),
                self.view() == wrote(old(self).view(), scratch as int, bytes@.take(k as int)),
            decreases bytes@.len() - k,
        {
            proof {
                assert(bytes@.take(k + 1).drop_last() =~= bytes@.take(k as int));
            }
            if k == 0 {
                self.set(scratch, bytes[k]);
            } else {
                self.add(scratch, bytes[k] as i32 - bytes[k - 1] as i32);
                proof {
                    assert(bytes@.take(k as int).last() == bytes@[k - 1]);
                }
            }
            self.write(scratch);
            k += 1;
        }
        proof {
            assert(bytes@.take(k as int) =~= bytes@);
        }
        if bytes.len() > 0 {
            self.zero(scratch);
        }
    }

    /// Append Brainfuck verbatim without updating the tracked position; the
    /// caller names where the pointer ends with [`Bf::set_pos`].
    pub fn emit_raw(&mut self, code: &str)
        requires
            old(self).wf(),
            all_commands(code.spec_bytes()),
        ensures
            final(self).wf(),
            final(self).view() == emit(old(self).view(), code.spec_bytes()),
    {
        let b = code.as_bytes();
        let mut k: usize = 0;
        let ghost start = self.out@;
        while k < b.len()
            invariant
                k <= b@.len(),
                b@ == code.spec_bytes(),
                all_commands(b@),
                start == old(self).view().out,
                self.wf(),
                self.view() == emit(old(self).view(), b@.take(k as int)),
            decreases b@.len() - k,
        {
            self.push_command(b[k]);
            k += 1;
            proof {
                assert(self.view().out =~= start + b@.take(k as int));
            }
        }
        proof {
            assert(b@.take(k as int) =~= b@);
        }
    }

    /// Declare where the data pointer is after an [`Bf::emit_raw`] sequence.
    pub fn set_pos(&mut self, addr: Addr)
        requires
            old(self).wf(),
            0 <= addr <= max_addr(),
        ensures
            final(self).wf(),
            final(self).view() == (BfView { pos: addr as int, ..old(self).view() }),
    {
        self.pos = addr;
    }

    /// Emit `[ body ]` anchored at `addr`: whatever `body` does, the builder
    /// returns to `addr` before the `]`, so the loop re-tests the cell it
    /// started on.
    pub fn loop_at(&mut self, addr: Addr, body: impl FnOnce(&mut Self))
        requires
            old(self).wf(),
            0 <= addr <= max_addr(),
            forall|s: &mut Bf| s.wf() && s.view().next_free <= old(self).view().next_free + 0 ==> call_requires(body, (s,)),
            forall|s: &mut Bf| s.wf() && call_ensures(body, (s,), ()) ==> final(s).wf(),
        ensures
            final(self).wf(),
            exists|s: &mut Bf| s.view() == open_s(old(self).view(), addr as int) && call_ensures(body, (s,), ()) && final(self).view() == close_s(final(s).view(), addr as int),
    {
        self.open_loop(addr);
        body(self);
        self.close_loop(addr);
    }

    /// Emit `[` anchored at `addr`; pair it with [`Bf::close_loop`] on the
    /// same address.
    pub fn open_loop(&mut self, addr: Addr)
        requires
            old(self).wf(),
            0 <= addr <= max_addr(),
        ensures
            final(self).view().next_free == old(self).view().next_free,
            final(self).view().array_next == old(self).view().array_next,
            final(self).wf(),
            final(self).view() == open_s(old(self).view(), addr as int),
    {
        self.goto(addr);
        self.push_command(91);
    }

    /// Emit `]` anchored at `addr`, closing an [`Bf::open_loop`].
    pub fn close_loop(&mut self, addr: Addr)
        requires
            old(self).wf(),
            0 <= addr <= max_addr(),
        ensures
            final(self).view().next_free == old(self).view().next_free,
            final(self).view().array_next == old(self).view().array_next,
            final(self).wf(),
            final(self).view() == close_s(old(self).view(), addr as int),
    {
        self.goto(addr);
        self.push_command(93);
    }

    fn add_to_each(&mut self, dsts: &[Addr], delta: i32)
        requires
            old(self).wf(),
            forall|i: int| 0 <= i < dsts@.len() ==> 0 <= #[trigger] dsts@[i] <= max_addr(),
        ensures
            final(self).view().next_free == old(self).view().next_free,
            final(self).view().array_next == old(self).view().array_next,
            final(self).wf(),
            final(self).view() == add_each(old(self).view(), dsts@, delta as int),
    {
        let mut k: usize = 0;
        proof {
            assert(dsts@.take(0) =~= seq![]);
        }
        while k < dsts.len()
            invariant
                k <= dsts@.len(),
                forall|i: int| 0 <= i < dsts@.len() ==> 0 <= #[trigger] dsts@[i] <= max_addr(),
                self.wf(),
                self.view() == add_each(old(self).view(), dsts@.take(k as int), delta as int),
                self.view().next_free == old(self).view().next_free,
                self.view().array_next == old(self).view().array_next,
            decreases dsts@.len() - k,
        {
            proof {
                assert(dsts@.take(k + 1).drop_last() =~= dsts@.take(k as int));
            }
            self.add(dsts[k], delta);
            k += 1;
        }
        proof {
            assert(dsts@.take(k as int) =~= dsts@);
        }
    }

    fn move_with(&mut self, src: Addr, dsts: &[Addr], delta: i32)
        requires
            old(self).wf(),
            0 <= src <= max_addr(),
            forall|i: int| 0 <= i < dsts@.len() ==> 0 <= #[trigger] dsts@[i] <= max_addr(),
        ensures
            final(self).view().next_free == old(self).view().next_free,
            final(self).view().array_next == old(self).view().array_next,
            final(self).wf(),
            final(self).view() == move_s(old(self).view(), src as int, dsts@, delta as int),
    {
        if dsts.len() == 0 {
            self.zero(src);
            return;
        }
        self.open_loop(src);
        self.add(src, -1);
        self.add_to_each(dsts, delta);
        self.close_loop(src);
    }

    /// Add the value in `src` to every cell in `dsts`, leaving `src` at zero.
    pub fn move_add(&mut self, src: Addr, dsts: &[Addr])
        requires
            old(self).wf(),
            0 <= src <= max_addr(),
            forall|i: int| 0 <= i < dsts@.len() ==> 0 <= #[trigger] dsts@[i] <= max_addr(),
        ensures
            final(self).view().next_free == old(self).view().next_free,
            final(self).view().array_next == old(self).view().array_next,
            final(self).wf(),
            final(self).view() == move_s(old(self).view(), src as int, dsts@, 1),
    {
        self.move_with(src, dsts, 1);
    }

    /// Subtract the value in `src` from every cell in `dsts`, leaving `src`
    /// at zero.
    pub fn move_sub(&mut self, src: Addr, dsts: &[Addr])
        requires
            old(self).wf(),
            0 <= src <= max_addr(),
            forall|i: int| 0 <= i < dsts@.len() ==> 0 <= #[trigger] dsts@[i] <= max_addr(),
        ensures
            final(self).view().next_free == old(self).view().next_free,
            final(self).view().array_next == old(self).view().array_next,
            final(self).wf(),
            final(self).view() == move_s(old(self).view(), src as int, dsts@, -1),
    {
        self.move_with(src, dsts, -1);
    }

    /// Add a copy of `src` to `dst` without disturbing `src`.
    pub fn add_copy(&mut self, src: Addr, dst: Addr)
        requires
            old(self).wf(),
            0 <= src <= max_addr(),
            0 <= dst <= max_addr(),
            old(self).view().next_free < max_addr(),
        ensures
            final(self).view().next_free == old(self).view().next_free,
            final(self).view().array_next == old(self).view().array_next,
            final(self).wf(),
            final(self).view() == add_copy_s(old(self).view(), src as int, dst as int),
    {
        let mark = self.watermark();
        let keep = self.alloc_zeroed(1);
        let mut first: Vec<Addr> = Vec::new();
        first.push(dst);
        first.push(keep);
        proof {
            assert(first@ =~= seq![dst, keep]);
        }
        self.move_add(src, first.as_slice());
        let mut second: Vec<Addr> = Vec::new();
        second.push(src);
        proof {
            assert(second@ =~= seq![src]);
        }
        self.move_add(keep, second.as_slice());
        self.release_to(mark);
    }

    /// Subtract a copy of `src` from `dst` without disturbing `src`.
    pub fn sub_copy(&mut self, src: Addr, dst: Addr)
        requires
            old(self).wf(),
            0 <= src <= max_addr(),
            0 <= dst <= max_addr(),
            old(self).view().next_free < max_addr(),
        ensures
            final(self).view().next_free == old(self).view().next_free,
            final(self).view().array_next == old(self).view().array_next,
            final(self).wf(),
            final(self).view() == sub_copy_s(old(self).view(), src as int, dst as int),
    {
        let mark = self.watermark();
        let keep = self.alloc_zeroed(1);
        self.open_loop(src);
        self.add(src, -1);
        self.add(dst, -1);
        self.add(keep, 1);
        self.close_loop(src);
        let mut back: Vec<Addr> = Vec::new();
        back.push(src);
        proof {
            assert(back@ =~= seq![src]);
        }
        self.move_add(keep, back.as_slice());
        self.release_to(mark);
    }

    /// Run `body` once if `cond` is nonzero, consuming `cond`: `body` runs
    /// inside `[ .. ]` at `cond`, which is cleared before the loop re-tests.
    pub fn if_nonzero_consume(&mut self, cond: Addr, body: impl FnOnce(&mut Self))
        requires
            old(self).wf(),
            0 <= cond <= max_addr(),
            forall|s: &mut Bf| s.wf() && s.view().next_free <= old(self).view().next_free + 0 ==> call_requires(body, (s,)),
            forall|s: &mut Bf| s.wf() && call_ensures(body, (s,), ()) ==> final(s).wf(),
        ensures
            final(self).wf(),
            exists|s: &mut Bf| s.view() == open_s(old(self).view(), cond as int) && call_ensures(body, (s,), ()) && final(self).view() == close_s(zero_s(final(s).view(), cond as int), cond as int),
    {
        self.open_loop(cond);
        body(self);
        self.zero(cond);
        self.close_loop(cond);
    }

    /// Run `body` once if `cond` is nonzero, leaving `cond` as it was: the
    /// test runs on a copy in a temporary at the next free cell.
    pub fn if_nonzero(&mut self, cond: Addr, body: impl FnOnce(&mut Self))
        requires
            old(self).wf(),
            0 <= cond <= max_addr(),
            old(self).view().next_free + 1 < max_addr(),
            forall|s: &mut Bf| s.wf() && s.view().next_free <= old(self).view().next_free + 1 ==> call_requires(body, (s,)),
            forall|s: &mut Bf| s.wf() && call_ensures(body, (s,), ()) ==> final(s).wf(),
        ensures
            final(self).wf(),
            exists|s: &mut Bf| s.view() == open_s(tested(old(self).view(), cond as int), old(self).view().next_free) && call_ensures(body, (s,), ()) && final(self).view() == release_s(close_s(zero_s(final(s).view(), old(self).view().next_free), old(self).view().next_free), old(self).view().next_free, old(self).view().array_next),
    {
        let mark = self.watermark();
        let test = self.alloc_zeroed(1);
        self.add_copy(cond, test);
        self.if_nonzero_consume(test, body);
        self.release_to(mark);
    }

    /// Run `then_body` if `cond` is nonzero and `else_body` otherwise,
    /// consuming `cond`.
    pub fn if_else_consume(&mut self, cond: Addr, then_body: impl FnOnce(&mut Self), else_body: impl FnOnce(&mut Self))
        requires
            old(self).wf(),
            0 <= cond <= max_addr(),
            old(self).view().next_free + 1 < max_addr(),
            forall|s: &mut Bf| s.wf() && s.view().next_free <= old(self).view().next_free + 1 ==> call_requires(then_body, (s,)),
            forall|s: &mut Bf| s.wf() && call_ensures(then_body, (s,), ()) ==> final(s).wf() && final(s).view().next_free == s.view().next_free,
            forall|s: &mut Bf| s.wf() && s.view().next_free <= old(self).view().next_free + 1 ==> call_requires(else_body, (s,)),
            forall|s: &mut Bf| s.wf() && call_ensures(else_body, (s,), ()) ==> final(s).wf(),
        ensures
            final(self).wf(),
            exists|s1: &mut Bf, s2: &mut Bf| #![trigger call_ensures(then_body, (s1,), ()), call_ensures(else_body, (s2,), ())] {
                let other = old(self).view().next_free;
                &&& s1.view() == open_s(set_s(alloc_zeroed_s(old(self).view(), 1), other, 1), cond as int)
                &&& call_ensures(then_body, (s1,), ())
                &&& s2.view() == open_s(close_s(zero_s(zero_s(final(s1).view(), other), cond as int), cond as int), other)
                &&& call_ensures(else_body, (s2,), ())
                &&& final(self).view() == release_s(close_s(zero_s(final(s2).view(), other), other), other, old(self).view().array_next)
            },
    {
        let mark = self.watermark();
        let otherwise = self.alloc_zeroed(1);
        self.set(otherwise, 1);
        self.open_loop(cond);
        then_body(self);
        self.zero(otherwise);
        self.zero(cond);
        self.close_loop(cond);
        self.if_nonzero_consume(otherwise, else_body);
        self.release_to(mark);
    }

    /// Run `then_body` if `cond` is nonzero and `else_body` otherwise,
    /// leaving `cond` as it was.
    pub fn if_else(&mut self, cond: Addr, then_body: impl FnOnce(&mut Self), else_body: impl FnOnce(&mut Self))
        requires
            old(self).wf(),
            0 <= cond <= max_addr(),
            old(self).view().next_free + 2 < max_addr(),
            forall|s: &mut Bf| s.wf() && s.view().next_free <= old(self).view().next_free + 2 ==> call_requires(then_body, (s,)),
            forall|s: &mut Bf| s.wf() && call_ensures(then_body, (s,), ()) ==> final(s).wf() && final(s).view().next_free == s.view().next_free,
            forall|s: &mut Bf| s.wf() && s.view().next_free <= old(self).view().next_free + 2 ==> call_requires(else_body, (s,)),
            forall|s: &mut Bf| s.wf() && call_ensures(else_body, (s,), ()) ==> final(s).wf(),
        ensures
            final(self).wf(),
            final(self).view().next_free == old(self).view().next_free,
            final(self).view().array_next == old(self).view().array_next,
    {
        let mark = self.watermark();
        let test = self.alloc_zeroed(1);
        self.add_copy(cond, test);
        self.if_else_consume(test, then_body, else_body);
        self.release_to(mark);
    }

    /// Run `body` if `cond` is zero, leaving `cond` as it was.
    pub fn if_zero(&mut self, cond: Addr, body: impl FnOnce(&mut Self))
        requires
            old(self).wf(),
            0 <= cond <= max_addr(),
            old(self).view().next_free + 2 < max_addr(),
            forall|s: &mut Bf| s.wf() && s.view().next_free <= old(self).view().next_free + 2 ==> call_requires(body, (s,)),
            forall|s: &mut Bf| s.wf() && call_ensures(body, (s,), ()) ==> final(s).wf(),
        ensures
            final(self).wf(),
            final(self).view().next_free == old(self).view().next_free,
            final(self).view().array_next == old(self).view().array_next,
    {
        self.if_else(cond, |bf: &mut Bf| requires old(bf).wf() ensures final(bf).wf(), *final(bf) == *old(bf) {}, body);
    }

    /// Set `out` to `1` when `value` is zero and `0` otherwise.
    pub fn is_zero(&mut self, out: Addr, value: Addr)
        requires
            old(self).wf(),
            0 <= out <= max_addr(),
            0 <= value <= max_addr(),
            old(self).view().next_free + 2 < max_addr(),
        ensures
            final(self).wf(),
            final(self).view().next_free == old(self).view().next_free,
            final(self).view().array_next == old(self).view().array_next,
    {
        self.set(out, 1);
        self.if_nonzero(value, |bf: &mut Bf| requires old(bf).wf() ensures final(bf).wf() { bf.zero(out) });
    }

    /// Set `out` to `1` when `value` is nonzero and `0` otherwise.
    pub fn is_nonzero(&mut self, out: Addr, value: Addr)
        requires
            old(self).wf(),
            0 <= out <= max_addr(),
            0 <= value <= max_addr(),
            old(self).view().next_free + 2 < max_addr(),
        ensures
            final(self).wf(),
            final(self).view().next_free == old(self).view().next_free,
            final(self).view().array_next == old(self).view().array_next,
    {
        self.zero(out);
        self.if_nonzero(value, |bf: &mut Bf| requires old(bf).wf() ensures final(bf).wf() { bf.set(out, 1) });
    }

    /// Set `out` to `1` when the bytes at `lhs` and `rhs` are equal, by
    /// cancelling them against each other in a temporary.
    pub fn byte_eq(&mut self, out: Addr, lhs: Addr, rhs: Addr)
        requires
            old(self).wf(),
            0 <= out <= max_addr(),
            0 <= lhs <= max_addr(),
            0 <= rhs <= max_addr(),
            old(self).view().next_free + 4 < max_addr(),
        ensures
            final(self).wf(),
            final(self).view().next_free == old(self).view().next_free,
            final(self).view().array_next == old(self).view().array_next,
    {
        let mark = self.watermark();
        let diff = self.alloc_zeroed(1);
        self.add_copy(lhs, diff);
        self.sub_copy(rhs, diff);
        self.is_zero(out, diff);
        self.zero(diff);
        self.release_to(mark);
    }

    /// Halve the byte at `value`, writing the quotient to `quotient` and the
    /// remainder to `remainder`; `value` is consumed.
    pub fn byte_divmod2(&mut self, value: Addr, quotient: Addr, remainder: Addr)
        requires
            old(self).wf(),
            0 <= value <= max_addr(),
            0 <= quotient <= max_addr(),
            0 <= remainder <= max_addr(),
            old(self).view().next_free + 2 < max_addr(),
        ensures
            final(self).wf(),
            final(self).view().next_free == old(self).view().next_free,
            final(self).view().array_next == old(self).view().array_next,
    {
        self.zero(quotient);
        self.zero(remainder);
        let mark = self.watermark();
        self.open_loop(value);
        self.add(value, -1);
        let was_odd = self.alloc_zeroed(1);
        self.set(was_odd, 1);
        // `remainder` only ever holds 0 or 1, so this runs at most once.
        self.open_loop(remainder);
        self.zero(remainder);
        self.add(quotient, 1);
        self.zero(was_odd);
        self.close_loop(remainder);
        self.open_loop(was_odd);
        self.set(remainder, 1);
        self.zero(was_odd);
        self.close_loop(was_odd);
        self.release_to(mark);
        self.close_loop(value);
    }

    /// Write the eight bits of `value` to `bits..bits + 8`, least significant
    /// first, leaving `value` unchanged.
    pub fn byte_bits(&mut self, value: Addr, bits: Addr)
        requires
            old(self).wf(),
            0 <= value <= max_addr(),
            0 <= bits,
            bits + 8 <= max_addr(),
            old(self).view().next_free + 12 < max_addr(),
        ensures
            final(self).wf(),
            final(self).view().next_free == old(self).view().next_free,
            final(self).view().array_next == old(self).view().array_next,
    {
        let mark = self.watermark();
        let rest = self.alloc_zeroed(1);
        self.add_copy(value, rest);
        let mut index: i64 = 0;
        while index < 8
            invariant
                0 <= index <= 8,
                self.wf(),
                0 <= value <= max_addr(),
                0 <= bits,
                bits + 8 <= max_addr(),
                rest == old(self).view().next_free,
                0 <= rest,
                self.view().next_free == rest + 1 + index,
                old(self).view().next_free + 12 < max_addr(),
                mark.scalar_view() == old(self).view().next_free,
                mark.array_view() == old(self).view().array_next,
                self.view().array_next == old(self).view().array_next,
            decreases 8 - index,
        {
            let half = self.alloc_zeroed(1);
            self.byte_divmod2(rest, half, bits + index);
            let mut back: Vec<Addr> = Vec::new();
            back.push(rest);
            assert(back@ =~= seq![rest]);
            self.move_add(half, back.as_slice());
            index += 1;
        }
        self.zero(rest);
        self.release_to(mark);
    }

    /// Set `out` to `1` when the byte at `lhs` is less than the byte at
    /// `rhs`, comparing their bits from the top down.
    pub fn byte_lt(&mut self, out: Addr, lhs: Addr, rhs: Addr)
        requires
            old(self).wf(),
            0 <= out <= max_addr(),
            0 <= lhs <= max_addr(),
            0 <= rhs <= max_addr(),
            old(self).view().next_free + 128 < max_addr(),
        ensures
            final(self).wf(),
            final(self).view().next_free == old(self).view().next_free,
            final(self).view().array_next == old(self).view().array_next,
    {
        let mark = self.watermark();
        let left = self.alloc_zeroed(BITS_PER_CELL);
        let right = self.alloc_zeroed(BITS_PER_CELL);
        self.byte_bits(lhs, left);
        self.byte_bits(rhs, right);
        self.zero(out);
        let decided = self.alloc_zeroed(1);
        let mut index: i64 = 8;
        while index > 0
            invariant
                0 <= index <= 8,
                self.wf(),
                0 <= out <= max_addr(),
                left == old(self).view().next_free,
                0 <= left,
                right == left + 8,
                decided == right + 8,
                self.view().next_free == decided + 1,
                old(self).view().next_free + 128 < max_addr(),
                mark.scalar_view() == old(self).view().next_free,
                mark.array_view() == old(self).view().array_next,
                self.view().array_next == old(self).view().array_next,
            decreases index,
        {
            index -= 1;
            let left_bit = left + index;
            let right_bit = right + index;
            // Every cell here holds 0 or 1, so these tests are cheap.
            let base = self.view_next_free();
            self.if_zero(decided, |bf: &mut Bf| requires old(bf).wf(), old(bf).view().next_free <= base + 2, base + 50 < max_addr(), 0 <= left_bit <= max_addr(), 0 <= right_bit <= max_addr(), 0 <= out <= max_addr(), 0 <= decided <= max_addr() ensures final(bf).wf() { bf.compare_bit(left_bit, right_bit, out, decided) });
        }
        self.zero(decided);
        let mut k: i64 = 0;
        while k < 8
            invariant
                0 <= k <= 8,
                self.wf(),
                left == old(self).view().next_free,
                0 <= left,
                right == left + 8,
                old(self).view().next_free + 128 < max_addr(),
                mark.scalar_view() == old(self).view().next_free,
                mark.array_view() == old(self).view().array_next,
                self.view().array_next == old(self).view().array_next,
            decreases 8 - k,
        {
            self.zero(left + k);
            self.zero(right + k);
            k += 1;
        }
        self.release_to(mark);
    }

    /// The next free scalar cell.
    pub(crate) fn view_next_free(&self) -> (r: Addr)
        ensures
            r == self.view().next_free,
    {
        self.next_free
    }

    pub(crate) fn array_next_free(&self) -> (r: Addr)
        ensures
            r == self.view().array_next,
    {
        self.array_next
    }

    /// One step of [`Bf::byte_lt`]: with the answer not yet decided, decide
    /// it at a pair of differing bits.
    fn compare_bit(&mut self, left_bit: Addr, right_bit: Addr, out: Addr, decided: Addr)
        requires
            old(self).wf(),
            0 <= left_bit <= max_addr(),
            0 <= right_bit <= max_addr(),
            0 <= out <= max_addr(),
            0 <= decided <= max_addr(),
            old(self).view().next_free + 48 < max_addr(),
        ensures
            final(self).wf(),
    {
        let base = self.next_free;
        self.if_else(left_bit, |bf: &mut Bf| requires old(bf).wf(), old(bf).view().next_free <= base + 2, base + 48 < max_addr(), 0 <= right_bit <= max_addr(), 0 <= decided <= max_addr() ensures final(bf).wf(), final(bf).view().next_free == old(bf).view().next_free { bf.if_zero(right_bit, |bf: &mut Bf| requires old(bf).wf(), 0 <= decided <= max_addr() ensures final(bf).wf() { bf.set(decided, 1) }) }, |bf: &mut Bf| requires old(bf).wf(), old(bf).view().next_free <= base + 2, base + 48 < max_addr(), 0 <= right_bit <= max_addr(), 0 <= out <= max_addr(), 0 <= decided <= max_addr() ensures final(bf).wf() { bf.if_nonzero(right_bit, |bf: &mut Bf| requires old(bf).wf(), 0 <= out <= max_addr(), 0 <= decided <= max_addr() ensures final(bf).wf() { bf.set(out, 1); bf.set(decided, 1); }) });
    }

    /// Overwrite `dst` with a copy of `src`.
    pub fn copy(&mut self, src: Addr, dst: Addr)
        requires
            old(self).wf(),
            0 <= src <= max_addr(),
            0 <= dst <= max_addr(),
            old(self).view().next_free < max_addr(),
        ensures
            final(self).view().next_free == old(self).view().next_free,
            final(self).view().array_next == old(self).view().array_next,
            final(self).wf(),
            final(self).view() == copy_s(old(self).view(), src as int, dst as int),
    {
        if src == dst {
            return;
        }
        self.zero(dst);
        self.add_copy(src, dst);
    }
}

/// A copy of `cond` in a fresh temporary at the next free cell.
pub open spec fn tested(v: BfView, cond: int) -> BfView {
    add_copy_s(alloc_zeroed_s(v, 1), cond, v.next_free)
}

/// What [`Bf::write_bytes`] emits for the first bytes `b` written so far:
/// the first set from zero, each later one adjusted from the one before.
pub open spec fn wrote(v: BfView, scratch: int, b: Seq<u8>) -> BfView
    decreases b.len(),
{
    if b.len() == 0 {
        v
    } else {
        let before = wrote(v, scratch, b.drop_last());
        let w = if b.len() == 1 {
            set_s(before, scratch, b.last() as int)
        } else {
            add_s(before, scratch, b.last() as int - b.drop_last().last() as int)
        };
        write_s(w, scratch)
    }
}

/// All of [`Bf::write_bytes`]: the bytes, then `scratch` cleared if any were
/// written.
pub open spec fn written_bytes(v: BfView, scratch: int, b: Seq<u8>) -> BfView {
    let w = wrote(v, scratch, b);
    if b.len() > 0 {
        zero_s(w, scratch)
    } else {
        w
    }
}

} // verus!
