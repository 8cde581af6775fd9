//! Multi-cell unsigned arithmetic built on the [`Bf`] byte primitives.
//!
//! A Cranium number of width `w` occupies `w` consecutive cells in
//! little-endian order, so `byte` is one cell and `int` is two. Every routine
//! here is unrolled at compile time over the width, which keeps the emitted
//! Brainfuck free of any runtime notion of "how wide is this value".
//!
//! Costs are worth knowing when writing Cranium:
//!
//! - equality is linear in the operand values;
//! - ordering (`<`, `<=`, `>`, `>=`) cancels the operands against each other,
//!   so it is quadratic in the smaller byte of each cell pair;
//! - multiplication and division on `int` use shift-and-add, so they are
//!   bounded by the bit width rather than the operand values.
//!
//! Every routine keeps the emitter well formed and hands back every
//! temporary it reserved, so both allocators end where they started.

use vstd::prelude::*;
use crate::cranium::bf::{Addr, Bf, BfView, max_addr, zero_range, set_s, copy_s, zero_s};

verus! {

/// Which bitwise operation [`Bf::num_bitwise`] should apply.
#[derive(Debug, Clone, Copy, PartialEq, Eq, Structural)]
pub enum BitKind {
    /// Bitwise and.
    And,
    /// Bitwise or.
    Or,
    /// Bitwise exclusive or.
    Xor,
}

/// Addresses the number routines work with stay below this bound.
pub open spec fn tape_limit() -> int {
    0x100_0000_0000
}

/// The `width` cells from `addr` lie inside the tape the routines address.
pub open spec fn cells_in(addr: int, width: int) -> bool {
    0 <= addr && 0 <= width <= 0x100_0000 && addr + width <= tape_limit()
}

/// The scalar allocator can hand out `cells` more cells below the bound.
pub open spec fn room(v: BfView, cells: int) -> bool {
    v.next_free + cells <= tape_limit()
}

/// Both allocators are where they were.
pub open spec fn same_alloc(a: BfView, b: BfView) -> bool {
    a.next_free == b.next_free && a.array_next == b.array_next
}

/// Set each of the cells from `addr` to the little-endian bytes of `value`.
pub open spec fn set_bytes(v: BfView, addr: int, value: u64, count: nat) -> BfView
    decreases count,
{
    if count == 0 {
        v
    } else {
        let k = count - 1;
        set_s(set_bytes(v, addr, value, k as nat), addr + k, ((value as int / pow256(k as nat)) % 256))
    }
}

/// `256` to the power `k`.
pub open spec fn pow256(k: nat) -> int
    decreases k,
{
    if k == 0 {
        1
    } else {
        256 * pow256((k - 1) as nat)
    }
}

/// Decimal place values used when printing, widest first.
fn decimal_places(width: usize) -> (r: Vec<u64>)
    ensures
        width == 1 ==> r@ == seq![100u64, 10, 1],
        width != 1 ==> r@ == seq![10_000u64, 1_000, 100, 10, 1],
{
    if width == 1 {
        vec![100, 10, 1]
    } else {
        vec![10_000, 1_000, 100, 10, 1]
    }
}

impl Bf {
    /// Zero all `width` cells of the number at `addr`.
    pub fn num_zero(&mut self, addr: Addr, width: usize)
        requires
            old(self).wf(),
            cells_in(addr as int, width as int),
        ensures
            final(self).wf(),
            final(self).view() == zero_range(old(self).view(), addr as int, width as nat),
            same_alloc(final(self).view(), old(self).view()),
    {
        let mut offset: i64 = 0;
        let w = width as i64;
        while offset < w
            invariant
                0 <= offset <= w,
                w == width,
                cells_in(addr as int, width as int),
                self.wf(),
                self.view() == zero_range(old(self).view(), addr as int, offset as nat),
                same_alloc(self.view(), old(self).view()),
            decreases w - offset,
        {
            self.zero(addr + offset);
            offset += 1;
        }
    }

    /// Store the little-endian bytes of `value` into the number at `addr`.
    pub fn num_set(&mut self, addr: Addr, width: usize, value: u64)
        requires
            old(self).wf(),
            cells_in(addr as int, width as int),
            width <= 8,
        ensures
            final(self).wf(),
            final(self).view() == set_bytes(old(self).view(), addr as int, value, width as nat),
            same_alloc(final(self).view(), old(self).view()),
    {
        let mut offset: usize = 0;
        while offset < width
            invariant
                offset <= width <= 8,
                cells_in(addr as int, width as int),
                self.wf(),
                self.view() == set_bytes(old(self).view(), addr as int, value, offset as nat),
                same_alloc(self.view(), old(self).view()),
            decreases width - offset,
        {
            let shift: u64 = 8 * offset as u64;
            let byte = (value >> shift) as u8;
            proof {
                lemma_byte_of(value, offset as nat);
            }
            self.set(addr + offset as i64, byte);
            offset += 1;
        }
    }

    /// Overwrite the number at `dst` with the one at `src`.
    pub fn num_copy(&mut self, src: Addr, dst: Addr, width: usize)
        requires
            old(self).wf(),
            cells_in(src as int, width as int),
            cells_in(dst as int, width as int),
            room(old(self).view(), 1),
        ensures
            final(self).wf(),
            src == dst ==> final(self).view() == old(self).view(),
            src != dst ==> final(self).view() == copy_cells(old(self).view(), src as int, dst as int, width as nat),
            same_alloc(final(self).view(), old(self).view()),
    {
        if src == dst {
            return;
        }
        let mut offset: i64 = 0;
        let w = width as i64;
        while offset < w
            invariant
                0 <= offset <= w,
                w == width,
                cells_in(src as int, width as int),
                cells_in(dst as int, width as int),
                room(old(self).view(), 1),
                self.wf(),
                self.view() == copy_cells(old(self).view(), src as int, dst as int, offset as nat),
                same_alloc(self.view(), old(self).view()),
            decreases w - offset,
        {
            self.copy(src + offset, dst + offset);
            offset += 1;
        }
    }

    /// Copy `src` into `dst`, zero-extending or truncating between widths.
    pub fn num_convert(&mut self, src: Addr, src_width: usize, dst: Addr, dst_width: usize)
        requires
            old(self).wf(),
            cells_in(src as int, src_width as int),
            cells_in(dst as int, dst_width as int),
            room(old(self).view(), 1),
        ensures
            final(self).wf(),
            final(self).view() == convert_cells(old(self).view(), src as int, src_width as int, dst as int, dst_width as nat),
            same_alloc(final(self).view(), old(self).view()),
    {
        let mut offset: i64 = 0;
        let w = dst_width as i64;
        while offset < w
            invariant
                0 <= offset <= w,
                w == dst_width,
                cells_in(src as int, src_width as int),
                cells_in(dst as int, dst_width as int),
                room(old(self).view(), 1),
                self.wf(),
                self.view() == convert_cells(old(self).view(), src as int, src_width as int, dst as int, offset as nat),
                same_alloc(self.view(), old(self).view()),
            decreases w - offset,
        {
            if (offset as usize) < src_width {
                self.copy(src + offset, dst + offset);
            } else {
                self.zero(dst + offset);
            }
            offset += 1;
        }
    }

    /// Set `out` to `1` when any cell of the number at `addr` is nonzero.
    pub fn num_is_nonzero(&mut self, out: Addr, addr: Addr, width: usize)
        requires
            old(self).wf(),
            cells_in(out as int, 1),
            cells_in(addr as int, width as int),
            room(old(self).view(), 8),
        ensures
            final(self).wf(),
            same_alloc(final(self).view(), old(self).view()),
    {
        self.zero(out);
        let mut offset: i64 = 0;
        let w = width as i64;
        while offset < w
            invariant
                0 <= offset <= w,
                w == width,
                cells_in(out as int, 1),
                cells_in(addr as int, width as int),
                room(old(self).view(), 8),
                self.wf(),
                same_alloc(self.view(), old(self).view()),
            decreases w - offset,
        {
            let cell = addr + offset;
            self.if_nonzero(cell, |bf: &mut Bf| requires old(bf).wf(), 0 <= out <= max_addr() ensures final(bf).wf() { bf.set(out, 1) });
            offset += 1;
        }
    }

    /// Set `out` to `1` when every cell of the number at `addr` is zero.
    pub fn num_is_zero(&mut self, out: Addr, addr: Addr, width: usize)
        requires
            old(self).wf(),
            cells_in(out as int, 1),
            cells_in(addr as int, width as int),
            room(old(self).view(), 8),
        ensures
            final(self).wf(),
            same_alloc(final(self).view(), old(self).view()),
    {
        self.set(out, 1);
        let mut offset: i64 = 0;
        let w = width as i64;
        while offset < w
            invariant
                0 <= offset <= w,
                w == width,
                cells_in(out as int, 1),
                cells_in(addr as int, width as int),
                room(old(self).view(), 8),
                self.wf(),
                same_alloc(self.view(), old(self).view()),
            decreases w - offset,
        {
            let cell = addr + offset;
            self.if_nonzero(cell, |bf: &mut Bf| requires old(bf).wf(), 0 <= out <= max_addr() ensures final(bf).wf() { bf.zero(out) });
            offset += 1;
        }
    }


    /// Move the cell at `src` onto the cell at `dst`, by adding or by
    /// subtracting, leaving `src` at zero.
    pub(crate) fn move_onto(&mut self, src: Addr, dst: Addr, subtract: bool)
        requires
            old(self).wf(),
            cells_in(src as int, 1),
            cells_in(dst as int, 1),
        ensures
            final(self).wf(),
            same_alloc(final(self).view(), old(self).view()),
    {
        let mut dsts: Vec<Addr> = Vec::new();
        dsts.push(dst);
        proof {
            assert(dsts@ =~= seq![dst]);
        }
        if subtract {
            self.move_sub(src, dsts.as_slice());
        } else {
            self.move_add(src, dsts.as_slice());
        }
    }

    /// Add `1` to `carry` when the byte at `cell` is below the byte at `limit`.
    fn carry_if_below(&mut self, carry: Addr, cell: Addr, limit: Addr)
        requires
            old(self).wf(),
            cells_in(carry as int, 1),
            cells_in(cell as int, 1),
            cells_in(limit as int, 1),
            room(old(self).view(), 160),
        ensures
            final(self).wf(),
            same_alloc(final(self).view(), old(self).view()),
    {
        let mark = self.watermark();
        let wrapped = self.alloc_zeroed(1);
        self.byte_lt(wrapped, cell, limit);
        self.move_onto(wrapped, carry, false);
        self.release_to(mark);
    }

    /// Add `1` to `carry` when the byte at `cell` is zero.
    fn carry_if_zero(&mut self, carry: Addr, cell: Addr)
        requires
            old(self).wf(),
            cells_in(carry as int, 1),
            cells_in(cell as int, 1),
            room(old(self).view(), 160),
        ensures
            final(self).wf(),
            same_alloc(final(self).view(), old(self).view()),
    {
        let mark = self.watermark();
        let wrapped = self.alloc_zeroed(1);
        self.is_zero(wrapped, cell);
        self.move_onto(wrapped, carry, false);
        self.release_to(mark);
    }

    /// Add the number at `src` into `dst`, leaving `src` unchanged.
    ///
    /// Overflow past the top cell is discarded, matching the wrapping
    /// arithmetic of the underlying tape.
    pub fn num_add_assign(&mut self, dst: Addr, src: Addr, width: usize)
        requires
            old(self).wf(),
            cells_in(dst as int, width as int),
            cells_in(src as int, width as int),
            room(old(self).view(), 256),
        ensures
            final(self).wf(),
            same_alloc(final(self).view(), old(self).view()),
    {
        let mark = self.watermark();
        let carry = self.alloc_zeroed(1);
        let mut index: usize = 0;
        while index < width
            invariant
                index <= width,
                cells_in(dst as int, width as int),
                cells_in(src as int, width as int),
                room(old(self).view(), 256),
                carry == old(self).view().next_free,
                cells_in(carry as int, 1),
                self.wf(),
                self.view().next_free == old(self).view().next_free + 1,
                self.view().array_next == old(self).view().array_next,
            decreases width - index,
        {
            let dst_cell = dst + index as Addr;
            let src_cell = src + index as Addr;
            let is_last = index + 1 == width;
            let inner = self.watermark();
            let addend = self.alloc_zeroed(1);
            self.add_copy(src_cell, addend);
            if is_last {
                self.move_onto(addend, dst_cell, false);
                self.move_onto(carry, dst_cell, false);
            } else {
                let carry_in = self.alloc_zeroed(1);
                self.move_onto(carry, carry_in, false);
                self.add_copy(addend, dst_cell);
                // The sum wrapped exactly when it landed below the addend.
                self.carry_if_below(carry, dst_cell, addend);
                self.open_loop(carry_in);
                self.add(dst_cell, 1);
                self.carry_if_zero(carry, dst_cell);
                self.zero(carry_in);
                self.close_loop(carry_in);
                self.zero(addend);
            }
            self.release_to(inner);
            index += 1;
        }
        self.zero(carry);
        self.release_to(mark);
    }

    /// Subtract the number at `src` from `dst`, leaving `src` unchanged.
    ///
    /// Borrowing past the top cell is discarded, so the result wraps.
    pub fn num_sub_assign(&mut self, dst: Addr, src: Addr, width: usize)
        requires
            old(self).wf(),
            cells_in(dst as int, width as int),
            cells_in(src as int, width as int),
            room(old(self).view(), 256),
        ensures
            final(self).wf(),
            same_alloc(final(self).view(), old(self).view()),
    {
        let mark = self.watermark();
        let borrow = self.alloc_zeroed(1);
        let mut index: usize = 0;
        while index < width
            invariant
                index <= width,
                cells_in(dst as int, width as int),
                cells_in(src as int, width as int),
                room(old(self).view(), 256),
                borrow == old(self).view().next_free,
                cells_in(borrow as int, 1),
                self.wf(),
                self.view().next_free == old(self).view().next_free + 1,
                self.view().array_next == old(self).view().array_next,
            decreases width - index,
        {
            let dst_cell = dst + index as Addr;
            let src_cell = src + index as Addr;
            let is_last = index + 1 == width;
            let inner = self.watermark();
            let subtrahend = self.alloc_zeroed(1);
            self.add_copy(src_cell, subtrahend);
            if is_last {
                self.move_onto(subtrahend, dst_cell, true);
                self.move_onto(borrow, dst_cell, true);
            } else {
                let borrow_in = self.alloc_zeroed(1);
                self.move_onto(borrow, borrow_in, false);
                // The borrow depends on the value before the subtraction.
                self.carry_if_below(borrow, dst_cell, subtrahend);
                self.sub_copy(subtrahend, dst_cell);
                self.open_loop(borrow_in);
                self.carry_if_zero(borrow, dst_cell);
                self.add(dst_cell, -1);
                self.zero(borrow_in);
                self.close_loop(borrow_in);
                self.zero(subtrahend);
            }
            self.release_to(inner);
            index += 1;
        }
        self.zero(borrow);
        self.release_to(mark);
    }

    /// Set `out` to `1` when the numbers at `lhs` and `rhs` are equal.
    pub fn num_eq(&mut self, out: Addr, lhs: Addr, rhs: Addr, width: usize)
        requires
            old(self).wf(),
            cells_in(out as int, 1),
            cells_in(lhs as int, width as int),
            cells_in(rhs as int, width as int),
            room(old(self).view(), 256),
        ensures
            final(self).wf(),
            same_alloc(final(self).view(), old(self).view()),
    {
        self.set(out, 1);
        let mut index: i64 = 0;
        let w = width as i64;
        while index < w
            invariant
                0 <= index <= w,
                w == width,
                cells_in(out as int, 1),
                cells_in(lhs as int, width as int),
                cells_in(rhs as int, width as int),
                room(old(self).view(), 256),
                self.wf(),
                same_alloc(self.view(), old(self).view()),
            decreases w - index,
        {
            let mark = self.watermark();
            let same = self.alloc_zeroed(1);
            self.byte_eq(same, lhs + index, rhs + index);
            self.if_zero(same, |bf: &mut Bf| requires old(bf).wf(), 0 <= out <= max_addr() ensures final(bf).wf() { bf.zero(out) });
            self.zero(same);
            self.release_to(mark);
            index += 1;
        }
    }

    /// When the bytes at `left` and `right` differ, record that the
    /// comparison is decided.
    fn decide_if_different(&mut self, decided: Addr, left: Addr, right: Addr)
        requires
            old(self).wf(),
            cells_in(decided as int, 1),
            cells_in(left as int, 1),
            cells_in(right as int, 1),
            room(old(self).view(), 64),
        ensures
            final(self).wf(),
            same_alloc(final(self).view(), old(self).view()),
    {
        let mark = self.watermark();
        let same = self.alloc_zeroed(1);
        self.byte_eq(same, left, right);
        self.if_zero(same, |bf: &mut Bf| requires old(bf).wf(), 0 <= decided <= max_addr() ensures final(bf).wf() { bf.set(decided, 1) });
        self.zero(same);
        self.release_to(mark);
    }

    /// One cell of [`Bf::num_lt`], most significant first: a smaller byte
    /// decides "less", a different one decides "not less".
    fn lt_step(&mut self, out: Addr, decided: Addr, left: Addr, right: Addr)
        requires
            old(self).wf(),
            cells_in(out as int, 1),
            cells_in(decided as int, 1),
            cells_in(left as int, 1),
            cells_in(right as int, 1),
            room(old(self).view(), 200),
        ensures
            final(self).wf(),
            same_alloc(final(self).view(), old(self).view()),
    {
        let mark = self.watermark();
        let less = self.alloc_zeroed(1);
        self.byte_lt(less, left, right);
        let base = self.view_next_free();
        self.if_else_consume(
            less,
            |bf: &mut Bf|
                requires
                    old(bf).wf(),
                    0 <= out <= max_addr(),
                    0 <= decided <= max_addr(),
                ensures
                    final(bf).wf(),
                    final(bf).view().next_free == old(bf).view().next_free
                {
                    bf.set(out, 1);
                    bf.set(decided, 1);
                },
            |bf: &mut Bf|
                requires
                    old(bf).wf(),
                    old(bf).view().next_free <= base + 1,
                    base + 100 <= tape_limit(),
                    cells_in(decided as int, 1),
                    cells_in(left as int, 1),
                    cells_in(right as int, 1),
                ensures
                    final(bf).wf()
                {
                    bf.decide_if_different(decided, left, right);
                },
        );
        self.release_to(mark);
    }

    /// Set `out` to `1` when the number at `lhs` is less than the one at `rhs`.
    ///
    /// Cells are compared most significant first, and the first difference
    /// decides the result.
    pub fn num_lt(&mut self, out: Addr, lhs: Addr, rhs: Addr, width: usize)
        requires
            old(self).wf(),
            cells_in(out as int, 1),
            cells_in(lhs as int, width as int),
            cells_in(rhs as int, width as int),
            room(old(self).view(), 256),
        ensures
            final(self).wf(),
            same_alloc(final(self).view(), old(self).view()),
    {
        let mark = self.watermark();
        let decided = self.alloc_zeroed(1);
        self.zero(out);
        let mut index: i64 = width as i64;
        while index > 0
            invariant
                0 <= index <= width,
                cells_in(out as int, 1),
                cells_in(lhs as int, width as int),
                cells_in(rhs as int, width as int),
                room(old(self).view(), 256),
                decided == old(self).view().next_free,
                cells_in(decided as int, 1),
                self.wf(),
                self.view().next_free == old(self).view().next_free + 1,
                self.view().array_next == old(self).view().array_next,
            decreases index,
        {
            index -= 1;
            let left = lhs + index;
            let right = rhs + index;
            let base = self.view_next_free();
            self.if_zero(
                decided,
                |bf: &mut Bf|
                    requires
                        old(bf).wf(),
                        old(bf).view().next_free <= base + 2,
                        base + 250 <= tape_limit(),
                        cells_in(out as int, 1),
                        cells_in(decided as int, 1),
                        cells_in(left as int, 1),
                        cells_in(right as int, 1),
                    ensures
                        final(bf).wf()
                    {
                        bf.lt_step(out, decided, left, right);
                    },
            );
        }
        self.zero(decided);
        self.release_to(mark);
    }

    /// Set `out` to `1` when `lhs` is greater than or equal to `rhs`.
    pub fn num_ge(&mut self, out: Addr, lhs: Addr, rhs: Addr, width: usize)
        requires
            old(self).wf(),
            cells_in(out as int, 1),
            cells_in(lhs as int, width as int),
            cells_in(rhs as int, width as int),
            room(old(self).view(), 512),
        ensures
            final(self).wf(),
            same_alloc(final(self).view(), old(self).view()),
    {
        let mark = self.watermark();
        let less = self.alloc_zeroed(1);
        self.num_lt(less, lhs, rhs, width);
        self.is_zero(out, less);
        self.zero(less);
        self.release_to(mark);
    }

    /// Shift the number at `addr` left by one bit, writing the bit that fell
    /// off the top into `carry_out`.
    pub fn num_shl1(&mut self, addr: Addr, width: usize, carry_out: Addr)
        requires
            old(self).wf(),
            cells_in(addr as int, width as int),
            cells_in(carry_out as int, 1),
            room(old(self).view(), 256),
        ensures
            final(self).wf(),
            same_alloc(final(self).view(), old(self).view()),
    {
        let mark = self.watermark();
        let carry = self.alloc_zeroed(1);
        let mut index: i64 = 0;
        let w = width as i64;
        while index < w
            invariant
                0 <= index <= w,
                w == width,
                cells_in(addr as int, width as int),
                room(old(self).view(), 256),
                carry == old(self).view().next_free,
                cells_in(carry as int, 1),
                self.wf(),
                self.view().next_free == old(self).view().next_free + 1,
                self.view().array_next == old(self).view().array_next,
            decreases w - index,
        {
            let cell = addr + index;
            let inner = self.watermark();
            let original = self.alloc_zeroed(1);
            self.add_copy(cell, original);
            // Doubling wraps exactly when the top bit was set.
            self.add_copy(original, cell);
            let next_carry = self.alloc_zeroed(1);
            self.byte_lt(next_carry, cell, original);
            // The doubled cell is even, so folding in the carry cannot wrap.
            self.move_onto(carry, cell, false);
            self.move_onto(next_carry, carry, false);
            self.zero(original);
            self.release_to(inner);
            index += 1;
        }
        self.zero(carry_out);
        self.move_onto(carry, carry_out, false);
        self.release_to(mark);
    }

    /// Shift the number at `addr` right by one bit, writing the bit that fell
    /// off the bottom into `bit_out`.
    pub fn num_shr1(&mut self, addr: Addr, width: usize, bit_out: Addr)
        requires
            old(self).wf(),
            cells_in(addr as int, width as int),
            cells_in(bit_out as int, 1),
            room(old(self).view(), 256),
        ensures
            final(self).wf(),
            same_alloc(final(self).view(), old(self).view()),
    {
        let mark = self.watermark();
        let carry = self.alloc_zeroed(1);
        let mut index: i64 = width as i64;
        while index > 0
            invariant
                0 <= index <= width,
                cells_in(addr as int, width as int),
                room(old(self).view(), 256),
                carry == old(self).view().next_free,
                cells_in(carry as int, 1),
                self.wf(),
                self.view().next_free == old(self).view().next_free + 1,
                self.view().array_next == old(self).view().array_next,
            decreases index,
        {
            index -= 1;
            let cell = addr + index;
            let inner = self.watermark();
            let quotient = self.alloc_zeroed(1);
            let remainder = self.alloc_zeroed(1);
            self.byte_divmod2(cell, quotient, remainder);
            self.move_onto(quotient, cell, false);
            self.open_loop(carry);
            self.add(cell, 128);
            self.zero(carry);
            self.close_loop(carry);
            self.move_onto(remainder, carry, false);
            self.release_to(inner);
        }
        self.zero(bit_out);
        self.move_onto(carry, bit_out, false);
        self.release_to(mark);
    }


    /// Shift the number at `addr` left by a constant number of bits.
    pub fn num_shl_const(&mut self, addr: Addr, width: usize, amount: usize)
        requires
            old(self).wf(),
            cells_in(addr as int, width as int),
            room(old(self).view(), 512),
        ensures
            final(self).wf(),
            same_alloc(final(self).view(), old(self).view()),
    {
        if amount >= width * 8 {
            self.num_zero(addr, width);
            return;
        }
        let mark = self.watermark();
        let discard = self.alloc_zeroed(1);
        let mut k: usize = 0;
        while k < amount
            invariant
                k <= amount,
                cells_in(addr as int, width as int),
                cells_in(discard as int, 1),
                room(old(self).view(), 512),
                self.wf(),
                self.view().next_free == old(self).view().next_free + 1,
                self.view().array_next == old(self).view().array_next,
            decreases amount - k,
        {
            self.num_shl1(addr, width, discard);
            k += 1;
        }
        self.zero(discard);
        self.release_to(mark);
    }

    /// Shift the number at `addr` right by a constant number of bits.
    pub fn num_shr_const(&mut self, addr: Addr, width: usize, amount: usize)
        requires
            old(self).wf(),
            cells_in(addr as int, width as int),
            room(old(self).view(), 512),
        ensures
            final(self).wf(),
            same_alloc(final(self).view(), old(self).view()),
    {
        if amount >= width * 8 {
            self.num_zero(addr, width);
            return;
        }
        let mark = self.watermark();
        let discard = self.alloc_zeroed(1);
        let mut k: usize = 0;
        while k < amount
            invariant
                k <= amount,
                cells_in(addr as int, width as int),
                cells_in(discard as int, 1),
                room(old(self).view(), 512),
                self.wf(),
                self.view().next_free == old(self).view().next_free + 1,
                self.view().array_next == old(self).view().array_next,
            decreases amount - k,
        {
            self.num_shr1(addr, width, discard);
            k += 1;
        }
        self.zero(discard);
        self.release_to(mark);
    }

    /// Subtract one from the number at `addr`.
    fn num_decrement(&mut self, addr: Addr, width: usize)
        requires
            old(self).wf(),
            cells_in(addr as int, width as int),
            width <= 8,
            room(old(self).view(), 512),
        ensures
            final(self).wf(),
            same_alloc(final(self).view(), old(self).view()),
    {
        let mark = self.watermark();
        let one = self.alloc_zeroed(width);
        self.num_set(one, width, 1);
        self.num_sub_assign(addr, one, width);
        self.num_zero(one, width);
        self.release_to(mark);
    }

    /// Shift `dst` by the runtime amount in `count`, in the given direction.
    ///
    /// The loop runs once per unit of `count`, so large shift counts cost
    /// proportionally; constant shifts are unrolled by
    /// [`Bf::num_shl_const`] and [`Bf::num_shr_const`] instead.
    pub fn num_shift_dynamic(&mut self, dst: Addr, width: usize, count: Addr, count_width: usize, left: bool)
        requires
            old(self).wf(),
            cells_in(dst as int, width as int),
            cells_in(count as int, count_width as int),
            count_width <= 8,
            room(old(self).view(), 1024),
        ensures
            final(self).wf(),
            same_alloc(final(self).view(), old(self).view()),
    {
        let mark = self.watermark();
        let remaining = self.alloc_zeroed(count_width);
        self.num_copy(count, remaining, count_width);
        let running = self.alloc_zeroed(1);
        let discard = self.alloc_zeroed(1);
        self.num_is_nonzero(running, remaining, count_width);
        self.open_loop(running);
        self.num_decrement(remaining, count_width);
        if left {
            self.num_shl1(dst, width, discard);
        } else {
            self.num_shr1(dst, width, discard);
        }
        self.num_is_nonzero(running, remaining, count_width);
        self.close_loop(running);
        self.zero(discard);
        self.num_zero(remaining, count_width);
        self.release_to(mark);
    }

    /// Store `lhs * rhs` in `out`.
    ///
    /// One-cell values use repeated addition, which keeps the emitted program
    /// small. Wider values use shift-and-add so the cost stays bounded by the
    /// bit width.
    pub fn num_mul(&mut self, out: Addr, lhs: Addr, rhs: Addr, width: usize)
        requires
            old(self).wf(),
            cells_in(out as int, width as int),
            cells_in(lhs as int, width as int),
            cells_in(rhs as int, width as int),
            room(old(self).view(), 4 * width + 1024),
        ensures
            final(self).wf(),
            same_alloc(final(self).view(), old(self).view()),
    {
        self.num_zero(out, width);
        if width == 1 {
            let mark = self.watermark();
            let counter = self.alloc_zeroed(1);
            self.add_copy(rhs, counter);
            self.open_loop(counter);
            self.add(counter, -1);
            self.add_copy(lhs, out);
            self.close_loop(counter);
            self.release_to(mark);
            return;
        }
        let mark = self.watermark();
        let shifted = self.alloc_zeroed(width);
        let multiplier = self.alloc_zeroed(width);
        let bit = self.alloc_zeroed(1);
        let discard = self.alloc_zeroed(1);
        self.num_copy(lhs, shifted, width);
        self.num_copy(rhs, multiplier, width);
        let mut k: usize = 0;
        while k < width * 8
            invariant
                k <= width * 8,
                cells_in(out as int, width as int),
                cells_in(shifted as int, width as int),
                cells_in(multiplier as int, width as int),
                cells_in(bit as int, 1),
                cells_in(discard as int, 1),
                room(old(self).view(), 4 * width + 1024),
                self.wf(),
                self.view().next_free == old(self).view().next_free + 2 * width + 2,
                self.view().array_next == old(self).view().array_next,
            decreases width * 8 - k,
        {
            self.num_shr1(multiplier, width, bit);
            self.open_loop(bit);
            self.num_add_assign(out, shifted, width);
            self.zero(bit);
            self.close_loop(bit);
            self.num_shl1(shifted, width, discard);
            k += 1;
        }
        self.zero(discard);
        self.num_zero(shifted, width);
        self.num_zero(multiplier, width);
        self.release_to(mark);
    }

    /// Store `src * factor` in `out` for a factor known at compile time.
    ///
    /// Only the set bits of `factor` cost anything, so `x * 10` is two
    /// additions and three doublings rather than a full multiply.
    pub fn num_mul_const(&mut self, out: Addr, src: Addr, width: usize, factor: u64)
        requires
            old(self).wf(),
            cells_in(out as int, width as int),
            cells_in(src as int, width as int),
            room(old(self).view(), 4 * width + 1024),
        ensures
            final(self).wf(),
            same_alloc(final(self).view(), old(self).view()),
    {
        self.num_zero(out, width);
        let bits = width * 8;
        let mask: u64 = if bits >= 64 {
            u64::MAX
        } else if bits == 0 {
            0
        } else {
            u64::MAX >> (64 - bits) as u64
        };
        let factor = factor & mask;
        if factor == 0 {
            return;
        }
        let zeros = factor.leading_zeros();
        let highest: usize = if zeros >= 63 { 0 } else { (63 - zeros) as usize };
        let last: usize = if bits == 0 || highest < bits - 1 { highest } else { bits - 1 };
        let mark = self.watermark();
        let shifted = self.alloc_zeroed(width);
        let discard = self.alloc_zeroed(1);
        self.num_copy(src, shifted, width);
        let mut bit: usize = 0;
        while bit <= last
            invariant
                last <= highest <= 63,
                cells_in(out as int, width as int),
                cells_in(shifted as int, width as int),
                cells_in(discard as int, 1),
                room(old(self).view(), 4 * width + 1024),
                self.wf(),
                self.view().next_free == old(self).view().next_free + width + 1,
                self.view().array_next == old(self).view().array_next,
            decreases last + 1 - bit,
        {
            if factor & (1u64 << bit as u64) != 0 {
                self.num_add_assign(out, shifted, width);
            }
            if bit < highest {
                self.num_shl1(shifted, width, discard);
            }
            bit += 1;
        }
        self.zero(discard);
        self.num_zero(shifted, width);
        self.release_to(mark);
    }

    /// One round of long division: bring the next dividend bit into the
    /// remainder and subtract the divisor when it fits.
    fn divmod_round(&mut self, quotient: Addr, remainder: Addr, rhs: Addr, width: usize, dividend: Addr,
        top_bit: Addr, rem_carry: Addr, discard: Addr)
        requires
            old(self).wf(),
            cells_in(quotient as int, width as int),
            cells_in(remainder as int, width as int),
            cells_in(rhs as int, width as int),
            cells_in(dividend as int, width as int),
            cells_in(top_bit as int, 1),
            cells_in(rem_carry as int, 1),
            cells_in(discard as int, 1),
            1 <= width,
            room(old(self).view(), 1024),
        ensures
            final(self).wf(),
            same_alloc(final(self).view(), old(self).view()),
    {
        self.num_shl1(dividend, width, top_bit);
        self.num_shl1(remainder, width, rem_carry);
        self.move_onto(top_bit, remainder, false);
        self.num_shl1(quotient, width, discard);
        let mark = self.watermark();
        let subtract = self.alloc_zeroed(1);
        self.num_ge(subtract, remainder, rhs, width);
        // A carry out of the remainder means it already exceeds the divisor,
        // whatever the truncated cells say.
        self.open_loop(rem_carry);
        self.set(subtract, 1);
        self.zero(rem_carry);
        self.close_loop(rem_carry);
        self.open_loop(subtract);
        self.num_sub_assign(remainder, rhs, width);
        self.add(quotient, 1);
        self.zero(subtract);
        self.close_loop(subtract);
        self.release_to(mark);
    }

    /// Store `lhs / rhs` in `quotient` and `lhs % rhs` in `remainder`.
    ///
    /// Division by zero is defined rather than undefined: the quotient
    /// saturates to the widest representable value.
    pub fn num_divmod(&mut self, quotient: Addr, remainder: Addr, lhs: Addr, rhs: Addr, width: usize)
        requires
            old(self).wf(),
            cells_in(quotient as int, width as int),
            cells_in(remainder as int, width as int),
            cells_in(lhs as int, width as int),
            cells_in(rhs as int, width as int),
            room(old(self).view(), 4 * width + 2048),
        ensures
            final(self).wf(),
            same_alloc(final(self).view(), old(self).view()),
    {
        if width == 1 {
            self.divmod_byte(quotient, remainder, lhs, rhs);
            return;
        }
        self.num_zero(quotient, width);
        self.num_zero(remainder, width);
        let mark = self.watermark();
        let dividend = self.alloc_zeroed(width);
        self.num_copy(lhs, dividend, width);
        let top_bit = self.alloc_zeroed(1);
        let rem_carry = self.alloc_zeroed(1);
        let discard = self.alloc_zeroed(1);
        let mut k: usize = 0;
        while k < width * 8
            invariant
                k <= width * 8,
                cells_in(quotient as int, width as int),
                cells_in(remainder as int, width as int),
                cells_in(rhs as int, width as int),
                cells_in(dividend as int, width as int),
                cells_in(top_bit as int, 1),
                cells_in(rem_carry as int, 1),
                cells_in(discard as int, 1),
                width != 1,
                room(old(self).view(), 4 * width + 2048),
                self.wf(),
                self.view().next_free == old(self).view().next_free + width + 3,
                self.view().array_next == old(self).view().array_next,
            decreases width * 8 - k,
        {
            self.divmod_round(quotient, remainder, rhs, width, dividend, top_bit, rem_carry, discard);
            k += 1;
        }
        self.zero(discard);
        self.num_zero(dividend, width);
        self.release_to(mark);
    }

    /// Divide one byte by another by repeated subtraction, for a divisor
    /// known to be nonzero.
    fn divide_by_subtraction(&mut self, quotient: Addr, remainder: Addr, lhs: Addr, rhs: Addr)
        requires
            old(self).wf(),
            cells_in(quotient as int, 1),
            cells_in(remainder as int, 1),
            cells_in(lhs as int, 1),
            cells_in(rhs as int, 1),
            room(old(self).view(), 1024),
        ensures
            final(self).wf(),
            same_alloc(final(self).view(), old(self).view()),
    {
        self.add_copy(lhs, remainder);
        let mark = self.watermark();
        let keep_going = self.alloc_zeroed(1);
        self.num_ge(keep_going, remainder, rhs, 1);
        self.open_loop(keep_going);
        self.sub_copy(rhs, remainder);
        self.add(quotient, 1);
        self.num_ge(keep_going, remainder, rhs, 1);
        self.close_loop(keep_going);
        self.release_to(mark);
    }

    fn divmod_byte(&mut self, quotient: Addr, remainder: Addr, lhs: Addr, rhs: Addr)
        requires
            old(self).wf(),
            cells_in(quotient as int, 1),
            cells_in(remainder as int, 1),
            cells_in(lhs as int, 1),
            cells_in(rhs as int, 1),
            room(old(self).view(), 2048),
        ensures
            final(self).wf(),
            same_alloc(final(self).view(), old(self).view()),
    {
        self.zero(quotient);
        self.zero(remainder);
        let mark = self.watermark();
        let divisor_ok = self.alloc_zeroed(1);
        self.is_nonzero(divisor_ok, rhs);
        let base = self.view_next_free();
        self.if_else_consume(
            divisor_ok,
            |bf: &mut Bf|
                requires
                    old(bf).wf(),
                    old(bf).view().next_free <= base + 1,
                    base + 1100 <= tape_limit(),
                    cells_in(quotient as int, 1),
                    cells_in(remainder as int, 1),
                    cells_in(lhs as int, 1),
                    cells_in(rhs as int, 1),
                ensures
                    final(bf).wf(),
                    final(bf).view().next_free == old(bf).view().next_free
                {
                    bf.divide_by_subtraction(quotient, remainder, lhs, rhs);
                },
            |bf: &mut Bf|
                requires
                    old(bf).wf(),
                    0 <= quotient <= max_addr(),
                ensures
                    final(bf).wf()
                {
                    bf.set(quotient, 255);
                },
        );
        self.release_to(mark);
    }

    /// Combine the next low bits of `left` and `right` into the bit cell
    /// `slot`, consuming both bits.
    fn bitwise_step(&mut self, left: Addr, right: Addr, width: usize, slot: Addr, kind: BitKind)
        requires
            old(self).wf(),
            cells_in(left as int, width as int),
            cells_in(right as int, width as int),
            cells_in(slot as int, 1),
            room(old(self).view(), 512),
        ensures
            final(self).wf(),
            same_alloc(final(self).view(), old(self).view()),
    {
        let mark = self.watermark();
        let left_bit = self.alloc_zeroed(1);
        let right_bit = self.alloc_zeroed(1);
        self.num_shr1(left, width, left_bit);
        self.num_shr1(right, width, right_bit);
        match kind {
            BitKind::And => {
                self.open_loop(left_bit);
                self.open_loop(right_bit);
                self.set(slot, 1);
                self.zero(right_bit);
                self.close_loop(right_bit);
                self.zero(left_bit);
                self.close_loop(left_bit);
            },
            BitKind::Or => {
                self.open_loop(left_bit);
                self.set(slot, 1);
                self.zero(left_bit);
                self.close_loop(left_bit);
                self.open_loop(right_bit);
                self.set(slot, 1);
                self.zero(right_bit);
                self.close_loop(right_bit);
            },
            BitKind::Xor => {
                self.move_onto(left_bit, slot, false);
                self.open_loop(right_bit);
                self.if_else(
                    slot,
                    |bf: &mut Bf|
                        requires
                            old(bf).wf(),
                            0 <= slot <= max_addr(),
                        ensures
                            final(bf).wf(),
                            final(bf).view().next_free == old(bf).view().next_free
                        {
                            bf.zero(slot);
                        },
                    |bf: &mut Bf|
                        requires
                            old(bf).wf(),
                            0 <= slot <= max_addr(),
                        ensures
                            final(bf).wf()
                        {
                            bf.set(slot, 1);
                        },
                );
                self.zero(right_bit);
                self.close_loop(right_bit);
            },
        }
        self.zero(left_bit);
        self.zero(right_bit);
        self.release_to(mark);
    }

    /// Store the bitwise combination of `lhs` and `rhs` in `out`.
    pub fn num_bitwise(&mut self, out: Addr, lhs: Addr, rhs: Addr, width: usize, kind: BitKind)
        requires
            old(self).wf(),
            cells_in(out as int, width as int),
            cells_in(lhs as int, width as int),
            cells_in(rhs as int, width as int),
            room(old(self).view(), 16 * width + 1024),
        ensures
            final(self).wf(),
            same_alloc(final(self).view(), old(self).view()),
    {
        let bit_count = width * 8;
        let mark = self.watermark();
        let left = self.alloc_zeroed(width);
        let right = self.alloc_zeroed(width);
        let bits = self.alloc_zeroed(bit_count);
        self.num_copy(lhs, left, width);
        self.num_copy(rhs, right, width);
        let mut index: i64 = 0;
        let count = bit_count as i64;
        while index < count
            invariant
                0 <= index <= count,
                count == width * 8,
                cells_in(left as int, width as int),
                cells_in(right as int, width as int),
                0 <= bits && bits + count <= tape_limit(),
                room(old(self).view(), 16 * width + 1024),
                self.wf(),
                self.view().next_free == old(self).view().next_free + 10 * width,
                self.view().array_next == old(self).view().array_next,
            decreases count - index,
        {
            self.bitwise_step(left, right, width, bits + index, kind);
            index += 1;
        }
        self.num_zero(out, width);
        let inner = self.watermark();
        let discard = self.alloc_zeroed(1);
        let mut index: i64 = count;
        while index > 0
            invariant
                0 <= index <= count,
                count == width * 8,
                cells_in(out as int, width as int),
                0 <= bits && bits + count <= tape_limit(),
                cells_in(discard as int, 1),
                room(old(self).view(), 16 * width + 1024),
                self.wf(),
                self.view().next_free == old(self).view().next_free + 10 * width + 1,
                self.view().array_next == old(self).view().array_next,
            decreases index,
        {
            index -= 1;
            self.num_shl1(out, width, discard);
            self.move_onto(bits + index, out, false);
        }
        self.zero(discard);
        self.release_to(inner);
        self.num_zero(left, width);
        self.num_zero(right, width);
        self.release_to(mark);
    }

    /// Count how many times `place` fits into `value`, subtracting it each
    /// time, into `digit`.
    fn count_place(&mut self, value: Addr, place: Addr, digit: Addr, width: usize)
        requires
            old(self).wf(),
            cells_in(value as int, width as int),
            cells_in(place as int, width as int),
            cells_in(digit as int, 1),
            room(old(self).view(), 1024),
        ensures
            final(self).wf(),
            same_alloc(final(self).view(), old(self).view()),
    {
        let mark = self.watermark();
        let keep_going = self.alloc_zeroed(1);
        self.num_ge(keep_going, value, place, width);
        self.open_loop(keep_going);
        self.num_sub_assign(value, place, width);
        self.add(digit, 1);
        self.num_ge(keep_going, value, place, width);
        self.close_loop(keep_going);
        self.release_to(mark);
    }

    /// Write the number at `addr` to standard output in decimal, without
    /// leading zeros.
    pub fn num_print_decimal(&mut self, addr: Addr, width: usize)
        requires
            old(self).wf(),
            cells_in(addr as int, width as int),
            width <= 8,
            room(old(self).view(), 2048),
        ensures
            final(self).wf(),
            same_alloc(final(self).view(), old(self).view()),
    {
        let mark = self.watermark();
        let value = self.alloc_zeroed(width);
        let place = self.alloc_zeroed(width);
        let digit = self.alloc_zeroed(1);
        let started = self.alloc_zeroed(1);
        self.num_copy(addr, value, width);
        let places = decimal_places(width);
        let mut index: usize = 0;
        while index < places.len()
            invariant
                index <= places@.len(),
                places@.len() <= 5,
                width <= 8,
                cells_in(value as int, width as int),
                cells_in(place as int, width as int),
                cells_in(digit as int, 1),
                cells_in(started as int, 1),
                room(old(self).view(), 2048),
                self.wf(),
                self.view().next_free == old(self).view().next_free + 2 * width + 2,
                self.view().array_next == old(self).view().array_next,
            decreases places@.len() - index,
        {
            let power = places[index];
            let is_last = index + 1 == places.len();
            self.zero(digit);
            if is_last {
                self.add_copy(value, digit);
            } else {
                self.num_set(place, width, power);
                self.count_place(value, place, digit, width);
            }
            if is_last {
                self.set(started, 1);
            } else {
                self.if_nonzero(digit, |bf: &mut Bf| requires old(bf).wf(), 0 <= started <= max_addr() ensures final(bf).wf() { bf.set(started, 1) });
            }
            self.if_nonzero(
                started,
                |bf: &mut Bf|
                    requires
                        old(bf).wf(),
                        0 <= digit <= max_addr(),
                    ensures
                        final(bf).wf()
                    {
                        bf.add(digit, 48);
                        bf.write(digit);
                        bf.add(digit, -48);
                    },
            );
            index += 1;
        }
        self.zero(digit);
        self.zero(started);
        self.num_zero(place, width);
        self.num_zero(value, width);
        self.release_to(mark);
    }


    /// Set `out` to `1` when the number at `addr` is negative as a two's
    /// complement value, that is when its top cell is at least 128.
    pub fn num_sign(&mut self, out: Addr, addr: Addr, width: usize)
        requires
            old(self).wf(),
            cells_in(out as int, 1),
            cells_in(addr as int, width as int),
            width >= 1,
            room(old(self).view(), 256),
        ensures
            final(self).wf(),
            same_alloc(final(self).view(), old(self).view()),
    {
        let mark = self.watermark();
        let limit = self.alloc_zeroed(1);
        self.set(limit, 127);
        self.byte_lt(out, limit, addr + (width - 1) as Addr);
        self.zero(limit);
        self.release_to(mark);
    }

    /// Replace the number at `addr` by its two's complement negation.
    pub fn num_negate(&mut self, addr: Addr, width: usize)
        requires
            old(self).wf(),
            cells_in(addr as int, width as int),
            room(old(self).view(), width + 512),
        ensures
            final(self).wf(),
            same_alloc(final(self).view(), old(self).view()),
    {
        let mark = self.watermark();
        let negated = self.alloc_zeroed(width);
        self.num_sub_assign(negated, addr, width);
        self.num_copy(negated, addr, width);
        self.num_zero(negated, width);
        self.release_to(mark);
    }

    /// Copy `src` into `dst` like [`Bf::num_convert`], but when `signed` and
    /// widening, fill the new high cells with the sign of `src`.
    pub fn num_extend(&mut self, src: Addr, src_width: usize, dst: Addr, dst_width: usize, signed: bool)
        requires
            old(self).wf(),
            cells_in(src as int, src_width as int),
            cells_in(dst as int, dst_width as int),
            room(old(self).view(), 512),
        ensures
            final(self).wf(),
            same_alloc(final(self).view(), old(self).view()),
    {
        self.num_convert(src, src_width, dst, dst_width);
        if !signed || dst_width <= src_width || src_width == 0 {
            return;
        }
        let mark = self.watermark();
        let negative = self.alloc_zeroed(1);
        self.num_sign(negative, src, src_width);
        self.open_loop(negative);
        let mut offset: usize = src_width;
        while offset < dst_width
            invariant
                src_width <= offset <= dst_width,
                cells_in(dst as int, dst_width as int),
                self.wf(),
                self.view().next_free == old(self).view().next_free + 1,
                self.view().array_next == old(self).view().array_next,
            decreases dst_width - offset,
        {
            self.set(dst + offset as Addr, 255);
            offset += 1;
        }
        self.zero(negative);
        self.close_loop(negative);
        self.release_to(mark);
    }

    /// Shift the two's complement number at `addr` right by one bit, keeping
    /// its sign; the bit that fell off goes to `bit_out`.
    pub fn num_sar1(&mut self, addr: Addr, width: usize, bit_out: Addr)
        requires
            old(self).wf(),
            cells_in(addr as int, width as int),
            width >= 1,
            cells_in(bit_out as int, 1),
            room(old(self).view(), 512),
        ensures
            final(self).wf(),
            same_alloc(final(self).view(), old(self).view()),
    {
        let mark = self.watermark();
        let negative = self.alloc_zeroed(1);
        self.num_sign(negative, addr, width);
        self.num_shr1(addr, width, bit_out);
        self.open_loop(negative);
        self.add(addr + (width - 1) as Addr, 128);
        self.zero(negative);
        self.close_loop(negative);
        self.release_to(mark);
    }

    /// Shift the two's complement number at `addr` right by a constant
    /// number of bits, keeping its sign.
    pub fn num_sar_const(&mut self, addr: Addr, width: usize, amount: usize)
        requires
            old(self).wf(),
            cells_in(addr as int, width as int),
            width >= 1,
            room(old(self).view(), 1024),
        ensures
            final(self).wf(),
            same_alloc(final(self).view(), old(self).view()),
    {
        // Past the top bit every further shift only repeats the sign.
        let count = if amount >= width * 8 { width * 8 - 1 } else { amount };
        let mark = self.watermark();
        let discard = self.alloc_zeroed(1);
        let mut k: usize = 0;
        while k < count
            invariant
                k <= count,
                cells_in(addr as int, width as int),
                width >= 1,
                cells_in(discard as int, 1),
                room(old(self).view(), 1024),
                self.wf(),
                self.view().next_free == old(self).view().next_free + 1,
                self.view().array_next == old(self).view().array_next,
            decreases count - k,
        {
            self.num_sar1(addr, width, discard);
            k += 1;
        }
        self.zero(discard);
        self.release_to(mark);
    }

    /// Shift the two's complement number at `dst` right by the runtime
    /// amount in `count`, keeping its sign.
    pub fn num_sar_dynamic(&mut self, dst: Addr, width: usize, count: Addr, count_width: usize)
        requires
            old(self).wf(),
            cells_in(dst as int, width as int),
            width >= 1,
            cells_in(count as int, count_width as int),
            count_width <= 8,
            room(old(self).view(), 2048),
        ensures
            final(self).wf(),
            same_alloc(final(self).view(), old(self).view()),
    {
        let mark = self.watermark();
        let remaining = self.alloc_zeroed(count_width);
        self.num_copy(count, remaining, count_width);
        let running = self.alloc_zeroed(1);
        let discard = self.alloc_zeroed(1);
        self.num_is_nonzero(running, remaining, count_width);
        self.open_loop(running);
        self.num_decrement(remaining, count_width);
        self.num_sar1(dst, width, discard);
        self.num_is_nonzero(running, remaining, count_width);
        self.close_loop(running);
        self.zero(discard);
        self.num_zero(remaining, count_width);
        self.release_to(mark);
    }

    /// Store the two's complement quotient and remainder of `lhs / rhs`:
    /// the quotient truncates toward zero and the remainder takes the sign
    /// of the dividend.
    pub fn num_divmod_signed(&mut self, quotient: Addr, remainder: Addr, lhs: Addr, rhs: Addr, width: usize)
        requires
            old(self).wf(),
            cells_in(quotient as int, width as int),
            cells_in(remainder as int, width as int),
            cells_in(lhs as int, width as int),
            cells_in(rhs as int, width as int),
            width >= 1,
            room(old(self).view(), 8 * width + 4096),
        ensures
            final(self).wf(),
            same_alloc(final(self).view(), old(self).view()),
    {
        let mark = self.watermark();
        let left = self.alloc_zeroed(width);
        let right = self.alloc_zeroed(width);
        let left_negative = self.alloc_zeroed(1);
        let right_negative = self.alloc_zeroed(1);
        self.num_copy(lhs, left, width);
        self.num_copy(rhs, right, width);
        self.num_sign(left_negative, left, width);
        self.num_sign(right_negative, right, width);
        self.if_nonzero(left_negative, |bf: &mut Bf| requires old(bf).wf(), cells_in(left as int, width as int), room(old(bf).view(), width + 512) ensures final(bf).wf() { bf.num_negate(left, width) });
        self.if_nonzero(right_negative, |bf: &mut Bf| requires old(bf).wf(), cells_in(right as int, width as int), room(old(bf).view(), width + 512) ensures final(bf).wf() { bf.num_negate(right, width) });
        self.num_divmod(quotient, remainder, left, right, width);
        // The quotient is negative exactly when the signs differ.
        let differ = self.alloc_zeroed(1);
        self.byte_eq(differ, left_negative, right_negative);
        self.if_zero(differ, |bf: &mut Bf| requires old(bf).wf(), cells_in(quotient as int, width as int), room(old(bf).view(), width + 512) ensures final(bf).wf() { bf.num_negate(quotient, width) });
        self.if_nonzero(left_negative, |bf: &mut Bf| requires old(bf).wf(), cells_in(remainder as int, width as int), room(old(bf).view(), width + 512) ensures final(bf).wf() { bf.num_negate(remainder, width) });
        self.zero(differ);
        self.zero(left_negative);
        self.zero(right_negative);
        self.num_zero(left, width);
        self.num_zero(right, width);
        self.release_to(mark);
    }

    /// Write the two's complement number at `addr` in decimal, with a
    /// leading `-` when it is negative.
    pub fn num_print_signed(&mut self, addr: Addr, width: usize)
        requires
            old(self).wf(),
            cells_in(addr as int, width as int),
            1 <= width <= 8,
            room(old(self).view(), 4096),
        ensures
            final(self).wf(),
            same_alloc(final(self).view(), old(self).view()),
    {
        let mark = self.watermark();
        let value = self.alloc_zeroed(width);
        let negative = self.alloc_zeroed(1);
        let scratch = self.alloc_zeroed(1);
        self.num_copy(addr, value, width);
        self.num_sign(negative, value, width);
        self.open_loop(negative);
        self.write_literal(scratch, 45);
        self.zero(scratch);
        self.num_negate(value, width);
        self.zero(negative);
        self.close_loop(negative);
        self.num_print_decimal(value, width);
        self.num_zero(value, width);
        self.release_to(mark);
    }

}

/// Copy `count` cells from `src` to `dst`, lowest first.
pub open spec fn copy_cells(v: BfView, src: int, dst: int, count: nat) -> BfView
    decreases count,
{
    if count == 0 {
        v
    } else {
        let k = count - 1;
        copy_s(copy_cells(v, src, dst, k as nat), src + k, dst + k)
    }
}

/// The first `count` cells of a conversion from `src_width` cells at `src`
/// to cells at `dst`: copied while the source lasts, zeroed after.
pub open spec fn convert_cells(v: BfView, src: int, src_width: int, dst: int, count: nat) -> BfView
    decreases count,
{
    if count == 0 {
        v
    } else {
        let k = count - 1;
        let w = convert_cells(v, src, src_width, dst, k as nat);
        if k < src_width {
            copy_s(w, src + k, dst + k)
        } else {
            zero_s(w, dst + k)
        }
    }
}

/// The byte that `num_set` writes at `offset` is that digit of `value` in
/// base 256.
proof fn lemma_byte_of(value: u64, offset: nat)
    requires
        offset < 8,
    ensures
        ((value >> (8 * offset) as u64) as u8) as int == (value as int / pow256(offset)) % 256,
{
    reveal_with_fuel(pow256, 9);
    let s: u64 = (8 * offset) as u64;
    assert(offset == 0 || offset == 1 || offset == 2 || offset == 3 || offset == 4 || offset == 5 || offset == 6
        || offset == 7);
    if offset == 0 {
        assert(((value >> 0u64) as u8) as int == value as int % 256) by (bit_vector);
    } else if offset == 1 {
        assert(((value >> 8u64) as u8) as int == (value as int / 0x100) % 256) by (bit_vector);
    } else if offset == 2 {
        assert(((value >> 16u64) as u8) as int == (value as int / 0x10000) % 256) by (bit_vector);
    } else if offset == 3 {
        assert(((value >> 24u64) as u8) as int == (value as int / 0x1000000) % 256) by (bit_vector);
    } else if offset == 4 {
        assert(((value >> 32u64) as u8) as int == (value as int / 0x100000000) % 256) by (bit_vector);
    } else if offset == 5 {
        assert(((value >> 40u64) as u8) as int == (value as int / 0x10000000000) % 256) by (bit_vector);
    } else if offset == 6 {
        assert(((value >> 48u64) as u8) as int == (value as int / 0x1000000000000) % 256) by (bit_vector);
    } else {
        assert(((value >> 56u64) as u8) as int == (value as int / 0x100000000000000) % 256) by (bit_vector);
    }
}

} // verus!
