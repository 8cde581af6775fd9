//! Tape layout and runtime indexing for Cranium arrays.
//!
//! Brainfuck cannot compute an address, so indexing by a value only known at
//! run time has to be done by *walking*: the index is carried rightwards one
//! element at a time until it runs out, the element is read or written there,
//! and a trail of breadcrumbs leads the pointer back. That is why an array
//! element costs more than one cell.
//!
//! Each element gets a slot of `stride` cells:
//!
//! | lane | width | purpose |
//! | --- | --- | --- |
//! | `go` | 1 | loop flag; nonzero while the walk should continue |
//! | `crumb` | 1 | breadcrumb marking a slot the walk passed through |
//! | `count` | index width | how many slots are left to travel |
//! | `scratch` | 0 or 2 | borrow bookkeeping for wide index decrements |
//! | `carry` | element width | the value in transit, outbound or inbound |
//! | `data` | element width | the element itself |
//!
//! For arrays of at most 256 elements the counter is a single cell, and "the
//! counter is nonzero" is exactly "keep walking" - so the two lanes share one
//! cell and each step of the walk gets shorter. Wider arrays need a separate
//! flag because a multi-cell counter cannot be tested by one `[`.
//!
//! A guard slot follows the last element, and `stride - 1` zero cells precede
//! the first one because the return walk steps one slot past the front before
//! noticing it has arrived.

use vstd::prelude::*;
use crate::bytes::string_from_ascii;
use crate::cranium::bf::{Addr, Bf, all_commands, is_command, max_addr};
use crate::cranium::num::same_alloc;

verus! {

/// How one array is laid out on the tape.
#[derive(Debug, Clone, Copy, PartialEq, Eq, Structural)]
pub struct ArrayLayout {
    /// Number of elements the array holds.
    pub length: usize,
    /// Cells per element value.
    pub element_width: usize,
    /// Cells used by the travelling index counter.
    pub index_width: usize,
    /// Cells reserved for wide-counter borrow handling.
    pub scratch_width: usize,
    /// Cells per slot.
    pub stride: Addr,
}

/// Longest array that a one-cell index counter can address.
pub const MAX_BYTE_INDEXED_LENGTH: usize = 256;

/// The counter width for an array of `length` elements.
pub open spec fn index_width_for(length: int) -> int {
    if length <= 256 {
        1
    } else {
        2
    }
}

/// Cells per slot for `length` elements of `element_width` cells.
pub open spec fn stride_for(length: int, element_width: int) -> int {
    if index_width_for(length) > 1 {
        2 + 2 + 2 + 2 * element_width
    } else {
        2 + 2 * element_width
    }
}

impl ArrayLayout {
    /// The layout is the one [`ArrayLayout::new`] chooses for its length and
    /// element width.
    pub open spec fn wf(&self) -> bool {
        &&& 2 * self.element_width + 6 <= usize::MAX
        &&& 2 * self.element_width + 6 <= i64::MAX
        &&& self.index_width == index_width_for(self.length as int)
        &&& self.scratch_width == (if self.index_width > 1 { 2int } else { 0int })
        &&& self.stride == stride_for(self.length as int, self.element_width as int)
    }

    /// Offset of the value-in-transit lane, as a number.
    pub open spec fn carry_spec(&self) -> int {
        if self.index_width == 1 {
            2
        } else {
            2 + self.index_width + self.scratch_width
        }
    }

    /// Choose a layout for `length` elements of `element_width` cells each.
    ///
    /// The stride, two lanes per element cell plus at most four bookkeeping
    /// lanes, must be a number of cells both `usize` and [`Addr`] can hold.
    pub fn new(length: usize, element_width: usize) -> (r: Self)
        requires
            2 * element_width + 6 <= usize::MAX,
            2 * element_width + 6 <= i64::MAX,
        ensures
            r.wf(),
            r.length == length,
            r.element_width == element_width,
    {
        let index_width: usize = if length <= MAX_BYTE_INDEXED_LENGTH { 1 } else { 2 };
        let scratch_width: usize = if index_width > 1 { 2 } else { 0 };
        // A one-cell counter doubles as the walk flag, so it costs no lane.
        let counter_lane: usize = if index_width > 1 { index_width } else { 0 };
        let stride = (2 + counter_lane + scratch_width + 2 * element_width) as Addr;
        ArrayLayout { length, element_width, index_width, scratch_width, stride }
    }

    /// Total cells to reserve, including leading pad and the guard slot.
    pub fn region_cells(&self) -> (r: usize)
        requires
            self.wf(),
            (self.stride - 1) + (self.length + 1) * self.stride <= usize::MAX,
        ensures
            r == (self.stride - 1) + (self.length + 1) * self.stride,
    {
        let stride = self.stride as usize;
        proof {
            assert(self.length + 1 <= (self.length + 1) * self.stride) by (nonlinear_arith)
                requires
                    self.stride >= 1,
            ;
        }
        let slots = self.length + 1;
        (stride - 1) + slots * stride
    }

    /// Distance from the start of the reserved region to slot zero.
    pub fn base_offset(&self) -> (r: Addr)
        requires
            self.wf(),
        ensures
            r == self.stride - 1,
    {
        self.stride - 1
    }

    /// Offset of the walk flag inside a slot.
    pub fn go(&self) -> (r: Addr)
        ensures
            r == 0,
    {
        0
    }

    /// Offset of the breadcrumb inside a slot.
    pub fn crumb(&self) -> (r: Addr)
        ensures
            r == 1,
    {
        1
    }

    /// True when the walk flag and the counter occupy the same cell.
    pub fn flag_is_counter(&self) -> (r: bool)
        ensures
            r == (self.index_width == 1),
    {
        self.index_width == 1
    }

    /// Offset of the travelling counter inside a slot.
    pub fn count(&self) -> (r: Addr)
        ensures
            r == (if self.index_width == 1 { 0int } else { 2int }),
    {
        if self.flag_is_counter() {
            self.go()
        } else {
            2
        }
    }

    /// Offset of the borrow scratch lane inside a slot.
    pub fn scratch(&self) -> (r: Addr)
        requires
            self.wf(),
        ensures
            r == 2 + self.index_width,
    {
        2 + self.index_width as Addr
    }

    /// Offset of the value-in-transit lane inside a slot.
    pub fn carry(&self) -> (r: Addr)
        requires
            self.wf(),
        ensures
            r == self.carry_spec(),
    {
        if self.flag_is_counter() {
            2
        } else {
            self.scratch() + self.scratch_width as Addr
        }
    }

    /// Offset of the stored element inside a slot.
    pub fn data(&self) -> (r: Addr)
        requires
            self.wf(),
        ensures
            r == self.carry_spec() + self.element_width,
    {
        self.carry() + self.element_width as Addr
    }

    /// Address of element `index`, for indices known at compile time.
    pub fn element(&self, base: Addr, index: usize) -> (r: Addr)
        requires
            self.wf(),
            0 <= base,
            base + index * self.stride + self.carry_spec() + self.element_width <= max_addr(),
        ensures
            r == base + index * self.stride + self.carry_spec() + self.element_width,
    {
        proof {
            assert(index <= index * self.stride) by (nonlinear_arith)
                requires
                    self.stride >= 1,
            ;
        }
        let offset = index as Addr * self.stride;
        base + offset + self.data()
    }

    /// Address of slot zero's counter lane.
    pub fn counter(&self, base: Addr) -> (r: Addr)
        requires
            0 <= base <= max_addr() - 2,
        ensures
            r == base + (if self.index_width == 1 { 0int } else { 2int }),
    {
        base + self.count()
    }

    /// Address of slot zero's value-in-transit lane.
    pub fn transit(&self, base: Addr) -> (r: Addr)
        requires
            self.wf(),
            0 <= base <= max_addr() - 8,
        ensures
            r == base + self.carry_spec(),
    {
        base + self.carry()
    }
}

/// Offsets a walk body may reach, relative to the slot it starts on.
pub open spec fn near(offset: int) -> bool {
    -0x1_0000_0000 <= offset <= 0x1_0000_0000
}

/// Builds Brainfuck whose moves are relative to a frame that shifts at run
/// time.
struct Relative {
    out: Vec<u8>,
    at: Addr,
}

impl Relative {
    spec fn ok(&self) -> bool {
        all_commands(self.out@) && near(self.at as int)
    }

    fn new() -> (r: Self)
        ensures
            r.ok(),
            r.at == 0,
    {
        Relative { out: Vec::new(), at: 0 }
    }

    fn go(&mut self, to: Addr)
        requires
            old(self).ok(),
            near(to as int),
        ensures
            final(self).ok(),
            final(self).at == to,
    {
        let delta = to - self.at;
        let (ch, count): (u8, i64) = if delta >= 0 { (62u8, delta) } else { (60u8, -delta) };
        let mut k: i64 = 0;
        while k < count
            invariant
                0 <= k <= count,
                is_command(ch),
                all_commands(self.out@),
                near(self.at as int),
            decreases count - k,
        {
            self.out.push(ch);
            k += 1;
        }
        self.at = to;
    }

    fn put(&mut self, code: &[u8])
        requires
            old(self).ok(),
            all_commands(code@),
        ensures
            final(self).ok(),
            final(self).at == old(self).at,
            final(self).out@ == old(self).out@ + code@,
    {
        let mut k: usize = 0;
        while k < code.len()
            invariant
                k <= code@.len(),
                all_commands(code@),
                all_commands(self.out@),
                near(self.at as int),
                self.at == old(self).at,
                self.out@ == old(self).out@ + code@.subrange(0, k as int),
            decreases code@.len() - k,
        {
            self.out.push(code[k]);
            k += 1;
            assert(code@.subrange(0, k as int) =~= code@.subrange(0, k - 1).push(code@[k - 1]));
        }
        assert(code@.subrange(0, k as int) =~= code@);
    }

    fn at(&mut self, cell: Addr, code: &[u8])
        requires
            old(self).ok(),
            near(cell as int),
            all_commands(code@),
        ensures
            final(self).ok(),
            final(self).at == cell,
    {
        self.go(cell);
        self.put(code);
    }
}

/// Whether an indexed access reads the element or overwrites it.
#[derive(Debug, Clone, Copy, PartialEq, Eq, Structural)]
pub enum Access {
    /// Fetch the element into slot zero's transit lane.
    Read,
    /// Store slot zero's transit lane into the element.
    Write,
}

impl Bf {
    /// Emit a dynamically indexed array access.
    ///
    /// On entry the counter lane of slot zero holds the index, the walk flag
    /// holds whether the index is nonzero, and for a write the transit lane
    /// holds the value. On return every bookkeeping lane is zero again, the
    /// data pointer is back at slot zero's transit lane, and for a read that
    /// lane holds the element.
    ///
    /// The width and base bounds keep every cell offset the emitted walk
    /// names, slot count times stride included, inside what an [`Addr`] can
    /// hold; they admit every array a program can declare, whose elements are
    /// one or two cells wide and whose cells the allocator hands out far below
    /// that limit.
    pub fn array_access(&mut self, base: Addr, layout: &ArrayLayout, access: Access)
        requires
            old(self).wf(),
            layout.wf(),
            layout.element_width <= 0x100_0000,
            0 <= base <= max_addr() - 0x1_0000_0000,
        ensures
            final(self).wf(),
            same_alloc(final(self).view(), old(self).view()),
            final(self).view().pos == base + layout.carry_spec(),
    {
        let stride = layout.stride;
        let mut code: Vec<u8> = Vec::new();
        code.push(91u8);
        let out_walk = walk_out_body(layout, access);
        append(&mut code, &out_walk);
        code.push(93u8);
        let body = access_body(layout, access);
        append(&mut code, &body);

        let mut walk_back = Relative::new();
        walk_back.go(layout.crumb() - stride);
        walk_back.put(&[91u8]);
        let back_body = walk_back_body(layout, access);
        walk_back.put(&back_body);
        walk_back.put(&[93u8]);
        append(&mut code, &walk_back.out);

        // The return walk stops one slot in front of the array, so step back
        // onto the transit lane of slot zero.
        let mut landing = Relative::new();
        landing.go(layout.carry() - layout.crumb() + stride);
        append(&mut code, &landing.out);

        proof {
            assert forall|i: int| 0 <= i < code@.len() implies #[trigger] code@[i] < 128 by {
                assert(is_command(code@[i]));
            }
        }
        let text = string_from_ascii(code);
        self.goto(base + layout.go());
        self.emit_raw(text.as_str());
        self.set_pos(base + layout.carry());
    }
}

/// Append every byte of `more` to `code`.
fn append(code: &mut Vec<u8>, more: &[u8])
    requires
        all_commands(old(code)@),
        all_commands(more@),
    ensures
        all_commands(final(code)@),
        final(code)@ == old(code)@ + more@,
{
    let mut k: usize = 0;
    while k < more.len()
        invariant
            k <= more@.len(),
            all_commands(more@),
            all_commands(code@),
            code@ == old(code)@ + more@.subrange(0, k as int),
        decreases more@.len() - k,
    {
        code.push(more[k]);
        k += 1;
        assert(more@.subrange(0, k as int) =~= more@.subrange(0, k - 1).push(more@[k - 1]));
    }
    assert(more@.subrange(0, k as int) =~= more@);
}

/// One step of the outbound walk, entered with the pointer on a slot's flag.
fn walk_out_body(layout: &ArrayLayout, access: Access) -> (r: Vec<u8>)
    requires
        layout.wf(),
        layout.element_width <= 0x100_0000,
    ensures
        all_commands(r@),
{
    let stride = layout.stride;
    let mut r = Relative::new();

    if !layout.flag_is_counter() {
        r.at(layout.go(), &[91u8, 45, 93]);
    }
    r.at(layout.crumb(), &[43u8]);

    if layout.index_width == 1 {
        r.at(layout.count(), &[45u8]);
    } else {
        let low = layout.count();
        let high = layout.count() + 1;
        let spare = layout.scratch();
        let saved = layout.scratch() + 1;

        r.at(low, &[91u8, 45]);
        r.at(spare, &[43u8]);
        r.at(saved, &[43u8]);
        r.at(low, &[93u8]);
        r.at(spare, &[91u8, 45]);
        r.at(low, &[43u8]);
        r.at(spare, &[93u8]);
        // `spare` now asks "was the low cell zero?", which is what decides the
        // borrow into the high cell.
        r.at(spare, &[91u8, 45, 93, 43]);
        r.at(saved, &[91u8]);
        r.at(spare, &[91u8, 45, 93]);
        r.at(saved, &[91u8, 45, 93]);
        r.put(&[93u8]);
        r.at(spare, &[91u8]);
        r.put(&[91u8, 45, 93]);
        r.at(high, &[45u8]);
        r.at(spare, &[93u8]);
        r.at(low, &[45u8]);
    }

    // Hand the remaining count to the next slot. When the counter is also the
    // walk flag the move is all that is needed; otherwise the flag is raised in
    // the same pass so no extra scratch cell is required.
    let mut cell: Addr = 0;
    while cell < layout.index_width as Addr
        invariant
            layout.wf(),
            layout.element_width <= 0x100_0000,
            stride == layout.stride,
            0 <= cell <= layout.index_width,
            r.ok(),
        decreases layout.index_width - cell,
    {
        let here = layout.count() + cell;
        r.at(here, &[91u8, 45]);
        r.at(here + stride, &[43u8]);
        if !layout.flag_is_counter() {
            r.at(stride + layout.go(), &[91u8, 45, 93, 43]);
        }
        r.at(here, &[93u8]);
        cell += 1;
    }

    if access == Access::Write {
        let mut cell: Addr = 0;
        while cell < layout.element_width as Addr
            invariant
                layout.wf(),
                layout.element_width <= 0x100_0000,
                stride == layout.stride,
                0 <= cell <= layout.element_width,
                r.ok(),
            decreases layout.element_width - cell,
        {
            let here = layout.carry() + cell;
            r.at(here, &[91u8, 45]);
            r.at(here + stride, &[43u8]);
            r.at(here, &[93u8]);
            cell += 1;
        }
    }

    r.go(stride + layout.go());
    r.out
}

/// The read or write performed once the walk has arrived.
fn access_body(layout: &ArrayLayout, access: Access) -> (r: Vec<u8>)
    requires
        layout.wf(),
        layout.element_width <= 0x100_0000,
    ensures
        all_commands(r@),
{
    let mut r = Relative::new();
    let mut cell: Addr = 0;
    while cell < layout.element_width as Addr
        invariant
            layout.wf(),
            layout.element_width <= 0x100_0000,
            0 <= cell <= layout.element_width,
            r.ok(),
        decreases layout.element_width - cell,
    {
        let data = layout.data() + cell;
        let carry = layout.carry() + cell;
        match access {
            Access::Read => {
                // The counter lane is spent by now, so it is free scratch.
                let spare = layout.count();
                r.at(data, &[91u8, 45]);
                r.at(carry, &[43u8]);
                r.at(spare, &[43u8]);
                r.at(data, &[93u8]);
                r.at(spare, &[91u8, 45]);
                r.at(data, &[43u8]);
                r.at(spare, &[93u8]);
            },
            Access::Write => {
                r.at(data, &[91u8, 45, 93]);
                r.at(carry, &[91u8, 45]);
                r.at(data, &[43u8]);
                r.at(carry, &[93u8]);
            },
        }
        cell += 1;
    }
    r.go(layout.go());
    r.out
}

/// One step of the return walk, entered with the pointer on a breadcrumb.
fn walk_back_body(layout: &ArrayLayout, access: Access) -> (r: Vec<u8>)
    requires
        layout.wf(),
        layout.element_width <= 0x100_0000,
    ensures
        all_commands(r@),
{
    let stride = layout.stride;
    let mut r = Relative::new();
    r.put(&[45u8]);

    if access == Access::Read {
        let mut cell: Addr = 0;
        while cell < layout.element_width as Addr
            invariant
                layout.wf(),
                layout.element_width <= 0x100_0000,
                stride == layout.stride,
                0 <= cell <= layout.element_width,
                r.ok(),
            decreases layout.element_width - cell,
        {
            let ahead = layout.carry() + cell - layout.crumb() + stride;
            let behind = layout.carry() + cell - layout.crumb();
            r.at(ahead, &[91u8, 45]);
            r.at(behind, &[43u8]);
            r.at(ahead, &[93u8]);
            cell += 1;
        }
    }

    r.go(-stride);
    r.out
}

} // verus!
