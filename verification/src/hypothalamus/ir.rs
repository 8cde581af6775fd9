//! Optimized intermediate representation for Brainfuck programs.
//!
//! Arithmetic targets cells at fixed offsets from the current pointer, clears
//! become stores, scan loops such as `[>]` become pointer searches, and
//! canonical transfer and multiply-transfer loops become a single operation.

use vstd::prelude::*;
use super::bf::{Op, wrap_byte, travel, normalized, op_ok, push_spec, command_op, fold_commands, no_brackets};

verus! {

broadcast use vstd::seq_lib::group_seq_properties;

/// An optimized Brainfuck operation. Offsets are relative to the data
/// pointer; [`Ir::Move`] is the only operation that moves it.
#[derive(Debug, PartialEq, Eq)]
pub enum Ir {
    /// Add `delta` (in `1..=255`) to the cell at `offset`, wrapping.
    Add { offset: i64, delta: i32 },
    /// Set the cell at `offset` to `value`.
    Store { offset: i64, value: u8 },
    /// Move the data pointer by `delta` cells.
    Move(i64),
    /// Read one byte into the cell at `offset`.
    Input { offset: i64 },
    /// Write the cell at `offset`.
    Output { offset: i64 },
    /// Execute `body` while the current cell is nonzero.
    Loop(Vec<Ir>),
    /// Move by `stride` until the current cell is zero.
    Scan(i64),
    /// For each `(offset, factor)`, add `current * factor` to the cell at
    /// `offset`, then clear the current cell.
    AddMul { terms: Vec<(i64, i32)> },
}

/// A Brainfuck machine: the tape of byte cells, indexed by any integer, the
/// data pointer, the input not yet read and the output written so far.
#[verifier::ext_equal]
pub struct Machine {
    pub tape: spec_fn(int) -> u8,
    pub ptr: int,
    pub input: Seq<u8>,
    pub output: Seq<u8>,
}

/// `m` with `delta` added to the cell at `at`, wrapping modulo 256.
pub open spec fn add_at(m: Machine, at: int, delta: int) -> Machine {
    Machine {
        tape: |j: int| if j == at { (((m.tape)(j) + delta) % 256) as u8 } else { (m.tape)(j) },
        ptr: m.ptr,
        input: m.input,
        output: m.output,
    }
}

/// `m` with the cell at `at` set to `v`.
pub open spec fn store_at(m: Machine, at: int, v: u8) -> Machine {
    Machine { tape: |j: int| if j == at { v } else { (m.tape)(j) }, ptr: m.ptr, input: m.input, output: m.output }
}

/// `m` after reading a byte into the cell at `at`; at the end of the input
/// the cell is left as it was.
pub open spec fn read_at(m: Machine, at: int) -> Machine {
    if m.input.len() == 0 {
        m
    } else {
        Machine {
            tape: |j: int| if j == at { m.input[0] } else { (m.tape)(j) },
            ptr: m.ptr,
            input: m.input.drop_first(),
            output: m.output,
        }
    }
}

/// `m` after writing the cell at `at`.
pub open spec fn write_from(m: Machine, at: int) -> Machine {
    Machine { tape: m.tape, ptr: m.ptr, input: m.input, output: m.output.push((m.tape)(at)) }
}

/// `m` with the data pointer moved by `delta`.
pub open spec fn moved(m: Machine, delta: int) -> Machine {
    Machine { tape: m.tape, ptr: m.ptr + delta, input: m.input, output: m.output }
}

/// One Brainfuck operation, for operations other than loops.
pub open spec fn bf_step(m: Machine, op: Op) -> Option<Machine> {
    match op {
        Op::Add(d) => Some(add_at(m, m.ptr, d as int)),
        Op::Move(d) => Some(moved(m, d as int)),
        Op::Input => Some(read_at(m, m.ptr)),
        Op::Output => Some(write_from(m, m.ptr)),
        Op::Clear => Some(store_at(m, m.ptr, 0)),
        Op::Loop(_) => None,
    }
}

/// Running a block of Brainfuck operations without loops.
pub open spec fn bf_run(m: Machine, ops: Seq<Op>) -> Option<Machine>
    decreases ops.len(),
{
    if ops.len() == 0 {
        Some(m)
    } else {
        match bf_run(m, ops.drop_last()) {
            Some(x) => bf_step(x, ops.last()),
            None => None,
        }
    }
}

/// One IR operation, for operations other than loops, scans and transfers:
/// offsets count from the data pointer.
pub open spec fn ir_step(m: Machine, op: Ir) -> Option<Machine> {
    match op {
        Ir::Add { offset, delta } => Some(add_at(m, m.ptr + offset, delta as int)),
        Ir::Store { offset, value } => Some(store_at(m, m.ptr + offset, value)),
        Ir::Move(d) => Some(moved(m, d as int)),
        Ir::Input { offset } => Some(read_at(m, m.ptr + offset)),
        Ir::Output { offset } => Some(write_from(m, m.ptr + offset)),
        _ => None,
    }
}

/// Running a block of IR without loops, scans or transfers.
pub open spec fn ir_run(m: Machine, ops: Seq<Ir>) -> Option<Machine>
    decreases ops.len(),
{
    if ops.len() == 0 {
        Some(m)
    } else {
        match ir_run(m, ops.drop_last()) {
            Some(x) => ir_step(x, ops.last()),
            None => None,
        }
    }
}

/// Whether a block holds no loop.
pub open spec fn no_loops(ops: Seq<Op>) -> bool {
    forall|i: int| 0 <= i < ops.len() ==> !(#[trigger] ops[i] is Loop)
}

/// The pending addition at the offset `o`, or zero when there is none.
pub open spec fn pending_at(p: Seq<(i64, i32)>, o: int) -> int
    decreases p.len(),
{
    if p.len() == 0 {
        0
    } else if p.last().0 as int == o {
        p.last().1 as int
    } else {
        pending_at(p.drop_last(), o)
    }
}

/// `x` with the pending additions made, counted from its data pointer.
pub open spec fn apply_pending(x: Machine, p: Seq<(i64, i32)>) -> Machine {
    Machine {
        tape: |j: int| (((x.tape)(j) + pending_at(p, j - x.ptr)) % 256) as u8,
        ptr: x.ptr,
        input: x.input,
        output: x.output,
    }
}

/// What the Brainfuck machine holds when the IR machine holds `x`, the
/// additions `p` are pending and the pointer is `c` ahead.
pub open spec fn realized(x: Machine, p: Seq<(i64, i32)>, c: int) -> Machine {
    moved(apply_pending(x, p), c)
}

proof fn lemma_ir_run_push(m: Machine, s: Seq<Ir>, op: Ir)
    ensures
        ir_run(m, s.push(op)) == match ir_run(m, s) {
            Some(x) => ir_step(x, op),
            None => None,
        },
{
    assert(s.push(op).drop_last() =~= s);
}

proof fn lemma_bf_run_take(m: Machine, ops: Seq<Op>, k: int)
    requires
        0 <= k < ops.len(),
    ensures
        bf_run(m, ops.take(k + 1)) == match bf_run(m, ops.take(k)) {
            Some(x) => bf_step(x, ops[k]),
            None => None,
        },
{
    assert(ops.take(k + 1).drop_last() =~= ops.take(k));
}

proof fn lemma_mod_sum(t: int, a: int, b: int)
    ensures
        ((t + a) % 256 + b) % 256 == (t + a + b) % 256,
        (t + (a + b) % 256) % 256 == (t + a + b) % 256,
        (t + a % 256) % 256 == (t + a) % 256,
{
    vstd::arithmetic::div_mod::lemma_add_mod_noop_right(t + a, b, 256);
    vstd::arithmetic::div_mod::lemma_add_mod_noop(t + a, b, 256);
    vstd::arithmetic::div_mod::lemma_mod_twice(t + a, 256);
    vstd::arithmetic::div_mod::lemma_add_mod_noop((t + a) % 256, b, 256);
    vstd::arithmetic::div_mod::lemma_add_mod_noop_right(t, a + b, 256);
    vstd::arithmetic::div_mod::lemma_add_mod_noop_right(t, a, 256);
}

/// Additions to one cell combine modulo 256, and one of a multiple of 256
/// changes nothing.
proof fn lemma_add_add(x: Machine, at: int, a: int, b: int)
    ensures
        add_at(add_at(x, at, a), at, b) == add_at(x, at, (a + b) % 256),
        add_at(x, at, a) == add_at(x, at, a % 256),
        a % 256 == 0 ==> add_at(x, at, a) == x,
{
    let t = (x.tape)(at) as int;
    lemma_mod_sum(t, a, b);
    lemma_mod_sum(t, a, 0);
    vstd::arithmetic::div_mod::lemma_small_mod(t as nat, 256);
    assert(add_at(add_at(x, at, a), at, b).tape =~= add_at(x, at, (a + b) % 256).tape);
    assert(add_at(x, at, a).tape =~= add_at(x, at, a % 256).tape);
    if a % 256 == 0 {
        assert(add_at(x, at, a).tape =~= x.tape);
    }
    assert(add_at(add_at(x, at, a), at, b) =~= add_at(x, at, (a + b) % 256));
    assert(add_at(x, at, a) =~= add_at(x, at, a % 256));
    if a % 256 == 0 {
        assert(add_at(x, at, a) =~= x);
    }
}

/// A store decides a cell whatever was added to or stored in it before, and
/// an addition after a store is a store of the sum.
proof fn lemma_store_cell(x: Machine, at: int, v: u8, w: u8, d: int)
    ensures
        store_at(add_at(x, at, d), at, v) == store_at(x, at, v),
        store_at(store_at(x, at, w), at, v) == store_at(x, at, v),
        add_at(store_at(x, at, w), at, d) == store_at(x, at, ((w + d) % 256) as u8),
{
    assert(store_at(add_at(x, at, d), at, v) =~= store_at(x, at, v));
    assert(store_at(store_at(x, at, w), at, v) =~= store_at(x, at, v));
    assert(add_at(store_at(x, at, w), at, d) =~= store_at(x, at, ((w + d) % 256) as u8));
}

/// Every block of the tree moves the pointer a distance that fits an `i64`.
pub open spec fn travel_fits(ops: Seq<Op>) -> bool
    decreases ops,
{
    if ops.len() == 0 {
        true
    } else {
        &&& travel(ops) <= i64::MAX
        &&& travel_fits(ops.drop_last())
        &&& match ops.last() {
            Op::Loop(body) => travel_fits(body@),
            _ => true,
        }
    }
}

/// Whether an IR op is in the form the lowering produces.
pub open spec fn ir_ok(op: Ir) -> bool
    decreases op,
{
    match op {
        Ir::Add { delta, .. } => 1 <= delta <= 255,
        Ir::Move(d) => d != 0,
        Ir::Scan(s) => s != 0,
        Ir::Loop(body) => ir_block_ok(body@),
        Ir::AddMul { terms } => terms_ok(terms@),
        _ => true,
    }
}

/// Transfer terms: offsets strictly increasing and never the source cell,
/// factors nonzero bytes.
pub open spec fn terms_ok(terms: Seq<(i64, i32)>) -> bool {
    &&& forall|i: int| 0 <= i < terms.len() ==> 1 <= (#[trigger] terms[i]).1 <= 255 && terms[i].0 != 0
    &&& forall|i: int, j: int| 0 <= i < j < terms.len() ==> (#[trigger] terms[i]).0 < (#[trigger] terms[j]).0
}

/// Every op of a block, and of every nested block, is in lowered form.
pub open spec fn ir_block_ok(ops: Seq<Ir>) -> bool
    decreases ops,
{
    if ops.len() == 0 {
        true
    } else {
        ir_travel(ops) <= i64::MAX && ir_block_ok(ops.drop_last()) && ir_ok(ops.last())
    }
}

/// Total distance travelled by the top-level moves of an IR block.
pub open spec fn ir_travel(ops: Seq<Ir>) -> int
    decreases ops.len(),
{
    if ops.len() == 0 {
        0
    } else {
        ir_travel(ops.drop_last()) + match ops.last() {
            Ir::Move(d) => if d < 0 {
                -d
            } else {
                d as int
            },
            _ => 0,
        }
    }
}

/// Pending additions: offsets strictly increasing, deltas nonzero bytes.
pub open spec fn pending_ok(p: Seq<(i64, i32)>) -> bool {
    &&& forall|i: int| 0 <= i < p.len() ==> 1 <= (#[trigger] p[i]).1 <= 255
    &&& forall|i: int, j: int| 0 <= i < j < p.len() ==> (#[trigger] p[i]).0 < (#[trigger] p[j]).0
}

proof fn lemma_ir_push(ops: Seq<Ir>, op: Ir)
    ensures
        ops.push(op).drop_last() == ops,
        ops.push(op).last() == op,
        ir_block_ok(ops.push(op)) == (ir_travel(ops.push(op)) <= i64::MAX && ir_block_ok(ops)
            && ir_ok(op)),
        ir_travel(ops.push(op)) == ir_travel(ops) + match op {
            Ir::Move(d) => if d < 0 {
                -d
            } else {
                d as int
            },
            _ => 0,
        },
{
    assert(ops.push(op).drop_last() =~= ops);
}

proof fn lemma_ir_travel_nonneg(ops: Seq<Ir>)
    ensures
        ir_travel(ops) >= 0,
    decreases ops.len(),
{
    if ops.len() > 0 {
        lemma_ir_travel_nonneg(ops.drop_last());
    }
}

/// The pending addition at `offset`, or zero when there is none.
pub open spec fn pending_delta(p: Seq<(i64, i32)>, offset: i64) -> int
    decreases p.len(),
{
    if p.len() == 0 {
        0
    } else if p.last().0 == offset {
        p.last().1 as int
    } else {
        pending_delta(p.drop_last(), offset)
    }
}

/// In a well-formed pending list, the addition at an entry's offset is that
/// entry's, and an offset with no entry has none.
proof fn lemma_pending_delta(p: Seq<(i64, i32)>, offset: i64)
    requires
        pending_ok(p),
    ensures
        forall|i: int| 0 <= i < p.len() && (#[trigger] p[i]).0 == offset ==> pending_delta(p, offset) == p[i].1,
        (forall|i: int| 0 <= i < p.len() ==> (#[trigger] p[i]).0 != offset) ==> pending_delta(p, offset) == 0,
    decreases p.len(),
{
    if p.len() > 0 {
        let q = p.drop_last();
        assert(pending_ok(q)) by {
            assert forall|i: int, j: int| 0 <= i < j < q.len() implies (#[trigger] q[i]).0 < (#[trigger] q[j]).0 by {
                assert(q[i] == p[i] && q[j] == p[j]);
            }
            assert forall|i: int| 0 <= i < q.len() implies 1 <= (#[trigger] q[i]).1 <= 255 by {
                assert(q[i] == p[i]);
            }
        }
        lemma_pending_delta(q, offset);
        assert forall|i: int| 0 <= i < p.len() && (#[trigger] p[i]).0 == offset implies pending_delta(p, offset)
            == p[i].1 by {
            if i < p.len() - 1 {
                assert(p[i] == q[i]);
                assert(p[i].0 < p.last().0);
            }
        }
        if forall|i: int| 0 <= i < p.len() ==> (#[trigger] p[i]).0 != offset {
            assert(p.last().0 != offset);
            assert forall|i: int| 0 <= i < q.len() implies (#[trigger] q[i]).0 != offset by {
                assert(q[i] == p[i]);
            }
        }
    }
}

/// Dropping an entry removes its addition and keeps every other.
proof fn lemma_pending_remove(p: Seq<(i64, i32)>, i: int)
    requires
        pending_ok(p),
        0 <= i < p.len(),
    ensures
        pending_ok(p.remove(i)),
        pending_delta(p.remove(i), p[i].0) == 0,
        forall|o: i64| o != p[i].0 ==> pending_delta(p.remove(i), o) == pending_delta(p, o),
{
    let q = p.remove(i);
    assert forall|a: int, b: int| 0 <= a < b < q.len() implies (#[trigger] q[a]).0 < (#[trigger] q[b]).0 by {
        let a0 = if a < i { a } else { a + 1 };
        let b0 = if b < i { b } else { b + 1 };
        assert(q[a] == p[a0] && q[b] == p[b0]);
    }
    assert forall|a: int| 0 <= a < q.len() implies 1 <= (#[trigger] q[a]).1 <= 255 by {
        let a0 = if a < i { a } else { a + 1 };
        assert(q[a] == p[a0]);
    }
    lemma_pending_delta(q, p[i].0);
    assert forall|a: int| 0 <= a < q.len() implies (#[trigger] q[a]).0 != p[i].0 by {
        let a0 = if a < i { a } else { a + 1 };
        assert(q[a] == p[a0]);
    }
    assert forall|o: i64| o != p[i].0 implies pending_delta(q, o) == pending_delta(p, o) by {
        lemma_pending_delta(q, o);
        lemma_pending_delta(p, o);
        if exists|j: int| 0 <= j < p.len() && p[j].0 == o {
            let j = choose|j: int| 0 <= j < p.len() && p[j].0 == o;
            let jq = if j < i { j } else { j - 1 };
            assert(q[jq] == p[j]);
        } else {
            assert forall|a: int| 0 <= a < q.len() implies (#[trigger] q[a]).0 != o by {
                let a0 = if a < i { a } else { a + 1 };
                assert(q[a] == p[a0]);
            }
        }
    }
}

/// Changing an entry's addition changes only the addition at its offset.
proof fn lemma_pending_set(p: Seq<(i64, i32)>, i: int, v: i32)
    requires
        pending_ok(p),
        0 <= i < p.len(),
        1 <= v <= 255,
    ensures
        pending_ok(p.update(i, (p[i].0, v))),
        pending_delta(p.update(i, (p[i].0, v)), p[i].0) == v,
        forall|o: i64| o != p[i].0 ==> pending_delta(p.update(i, (p[i].0, v)), o) == pending_delta(p, o),
{
    let q = p.update(i, (p[i].0, v));
    assert forall|a: int, b: int| 0 <= a < b < q.len() implies (#[trigger] q[a]).0 < (#[trigger] q[b]).0 by {
        assert(q[a].0 == p[a].0 && q[b].0 == p[b].0);
    }
    assert forall|a: int| 0 <= a < q.len() implies 1 <= (#[trigger] q[a]).1 <= 255 by {
        if a != i {
            assert(q[a] == p[a]);
        }
    }
    lemma_pending_delta(q, p[i].0);
    assert(q[i].0 == p[i].0);
    assert forall|o: i64| o != p[i].0 implies pending_delta(q, o) == pending_delta(p, o) by {
        lemma_pending_delta(q, o);
        lemma_pending_delta(p, o);
        if exists|j: int| 0 <= j < p.len() && p[j].0 == o {
            let j = choose|j: int| 0 <= j < p.len() && p[j].0 == o;
            assert(q[j] == p[j]);
        } else {
            assert forall|a: int| 0 <= a < q.len() implies (#[trigger] q[a]).0 != o by {
                assert(q[a].0 == p[a].0);
            }
        }
    }
}

/// Adding an entry at a fresh offset, in order, adds only that addition.
proof fn lemma_pending_insert(p: Seq<(i64, i32)>, i: int, offset: i64, v: i32)
    requires
        pending_ok(p),
        0 <= i <= p.len(),
        1 <= v <= 255,
        forall|j: int| 0 <= j < i ==> (#[trigger] p[j]).0 < offset,
        forall|j: int| i <= j < p.len() ==> (#[trigger] p[j]).0 > offset,
    ensures
        pending_ok(p.insert(i, (offset, v))),
        pending_delta(p.insert(i, (offset, v)), offset) == v,
        forall|o: i64| o != offset ==> pending_delta(p.insert(i, (offset, v)), o) == pending_delta(p, o),
{
    let q = p.insert(i, (offset, v));
    assert forall|a: int, b: int| 0 <= a < b < q.len() implies (#[trigger] q[a]).0 < (#[trigger] q[b]).0 by {
        if b < i {
            assert(q[a] == p[a] && q[b] == p[b]);
        } else if b == i {
            assert(q[a] == p[a]);
        } else if a < i {
            assert(q[a] == p[a] && q[b] == p[b - 1]);
        } else if a == i {
            assert(q[b] == p[b - 1]);
        } else {
            assert(q[a] == p[a - 1] && q[b] == p[b - 1]);
        }
    }
    assert forall|a: int| 0 <= a < q.len() implies 1 <= (#[trigger] q[a]).1 <= 255 by {
        if a < i {
            assert(q[a] == p[a]);
        } else if a > i {
            assert(q[a] == p[a - 1]);
        }
    }
    lemma_pending_delta(q, offset);
    assert(q[i] == (offset, v));
    assert forall|o: i64| o != offset implies pending_delta(q, o) == pending_delta(p, o) by {
        lemma_pending_delta(q, o);
        lemma_pending_delta(p, o);
        if exists|j: int| 0 <= j < p.len() && p[j].0 == o {
            let j = choose|j: int| 0 <= j < p.len() && p[j].0 == o;
            let jq = if j < i { j } else { j + 1 };
            assert(q[jq] == p[j]);
        } else {
            assert forall|a: int| 0 <= a < q.len() implies (#[trigger] q[a]).0 != o by {
                if a < i {
                    assert(q[a] == p[a]);
                } else if a > i {
                    assert(q[a] == p[a - 1]);
                }
            }
        }
    }
}

/// Add `delta` to the pending addition at `offset`, dropping it when it wraps
/// to zero. Entries stay sorted by offset.
fn add_pending(pending: &mut Vec<(i64, i32)>, offset: i64, delta: i32)
    requires
        pending_ok(old(pending)@),
    ensures
        pending_ok(final(pending)@),
        pending_delta(final(pending)@, offset) == (pending_delta(old(pending)@, offset) + delta) % 256,
        forall|o: i64| o != offset ==> pending_delta(final(pending)@, o) == pending_delta(old(pending)@, o),
{
    let d = wrap_byte(delta);
    let ghost before = pending@;
    let mut i: usize = 0;
    while i < pending.len() && pending[i].0 < offset
        invariant
            i <= pending@.len(),
            pending@ == before,
            pending_ok(before),
            forall|j: int| 0 <= j < i ==> (#[trigger] before[j]).0 < offset,
        decreases pending@.len() - i,
    {
        i += 1;
    }
    proof {
        lemma_pending_delta(before, offset);
    }
    if i < pending.len() && pending[i].0 == offset {
        let previous = pending[i].1;
        let next = (previous + d) % 256;
        assert(next as int == (pending_delta(before, offset) + delta) % 256) by (nonlinear_arith)
            requires
                previous as int == pending_delta(before, offset),
                d as int == delta as int % 256,
                next == (previous + d) % 256,
                1 <= previous <= 255,
                0 <= d < 256,
        ;
        if next == 0 {
            pending.remove(i);
            proof {
                lemma_pending_remove(before, i as int);
            }
        } else {
            pending.set(i, (offset, next));
            proof {
                lemma_pending_set(before, i as int, next);
            }
        }
    } else {
        proof {
            assert forall|j: int| i <= j < before.len() implies (#[trigger] before[j]).0 > offset by {
                if j > i {
                    assert(before[i as int].0 < before[j].0);
                }
            }
            assert forall|j: int| 0 <= j < before.len() implies (#[trigger] before[j]).0 != offset by {
                if j >= i {
                    assert(before[j].0 > offset);
                }
            }
            lemma_pending_delta(before, offset);
        }
        if d != 0 {
            pending.insert(i, (offset, d));
            proof {
                lemma_pending_insert(before, i as int, offset, d);
            }
        }
    }
}

fn ir_abs(d: i64) -> (r: i64)
    requires
        d != i64::MIN,
    ensures
        r == if d < 0 { -d } else { d as int },
{
    if d < 0 {
        -d
    } else {
        d
    }
}

/// The pending addition at an `i64` offset is the one the pending list
/// records; no entry sits at an offset outside the `i64` range.
proof fn lemma_pending_at(p: Seq<(i64, i32)>, o: int)
    ensures
        i64::MIN <= o <= i64::MAX ==> pending_at(p, o) == pending_delta(p, o as i64),
        !(i64::MIN <= o <= i64::MAX) ==> pending_at(p, o) == 0,
    decreases p.len(),
{
    if p.len() > 0 {
        lemma_pending_at(p.drop_last(), o);
    }
}

/// What `add_pending` and `remove_pending` promise of `i64` offsets, for
/// every offset.
proof fn lemma_pending_others(p: Seq<(i64, i32)>, q: Seq<(i64, i32)>, offset: i64)
    requires
        forall|o: i64| o != offset ==> pending_delta(q, o) == pending_delta(p, o),
    ensures
        forall|o: int| o != offset ==> #[trigger] pending_at(q, o) == pending_at(p, o),
        pending_at(q, offset as int) == pending_delta(q, offset),
        pending_at(p, offset as int) == pending_delta(p, offset),
{
    assert forall|o: int| o != offset implies #[trigger] pending_at(q, o) == pending_at(p, o) by {
        lemma_pending_at(q, o);
        lemma_pending_at(p, o);
        if i64::MIN <= o <= i64::MAX {
            assert(pending_delta(q, o as i64) == pending_delta(p, o as i64));
        }
    }
    lemma_pending_at(q, offset as int);
    lemma_pending_at(p, offset as int);
}

proof fn lemma_pending_at_absent(p: Seq<(i64, i32)>, o: int)
    requires
        forall|i: int| 0 <= i < p.len() ==> (#[trigger] p[i]).0 as int != o,
    ensures
        pending_at(p, o) == 0,
    decreases p.len(),
{
    if p.len() > 0 {
        assert(p.last() == p[p.len() - 1]);
        assert forall|i: int| 0 <= i < p.drop_last().len() implies (#[trigger] p.drop_last()[i]).0 as int != o by {
            assert(p.drop_last()[i] == p[i]);
        }
        lemma_pending_at_absent(p.drop_last(), o);
    }
}

proof fn lemma_apply_none(x: Machine)
    ensures
        apply_pending(x, Seq::empty()) == x,
{
    assert forall|j: int| #[trigger] (apply_pending(x, Seq::empty()).tape)(j) == (x.tape)(j) by {
        vstd::arithmetic::div_mod::lemma_small_mod((x.tape)(j) as nat, 256);
    }
    assert(apply_pending(x, Seq::empty()).tape =~= x.tape);
    assert(apply_pending(x, Seq::empty()) =~= x);
}

/// Making one more pending addition is adding it at its offset.
proof fn lemma_apply_next(x: Machine, p: Seq<(i64, i32)>, i: int)
    requires
        pending_ok(p),
        0 <= i < p.len(),
    ensures
        apply_pending(x, p.take(i + 1)) == add_at(apply_pending(x, p.take(i)), x.ptr + p[i].0, p[i].1 as int),
{
    let a = apply_pending(x, p.take(i + 1));
    let b = add_at(apply_pending(x, p.take(i)), x.ptr + p[i].0, p[i].1 as int);
    assert(p.take(i + 1).drop_last() =~= p.take(i));
    assert(p.take(i + 1).last() == p[i]);
    assert forall|k: int| 0 <= k < p.take(i).len() implies (#[trigger] p.take(i)[k]).0 as int != p[i].0 as int by {
        assert(p.take(i)[k] == p[k]);
        assert(p[k].0 < p[i].0);
    }
    lemma_pending_at_absent(p.take(i), p[i].0 as int);
    assert forall|j: int| #[trigger] (a.tape)(j) == (b.tape)(j) by {
        let t = (x.tape)(j) as int;
        if j == x.ptr + p[i].0 {
            lemma_mod_sum(t, 0, p[i].1 as int);
            vstd::arithmetic::div_mod::lemma_small_mod(t as nat, 256);
        }
    }
    assert(a.tape =~= b.tape);
    assert(a =~= b);
}

/// The Brainfuck machine after an addition at the pointer, in terms of the
/// IR machine and the pending additions.
proof fn lemma_realized_add(x: Machine, p: Seq<(i64, i32)>, q: Seq<(i64, i32)>, c: int, d: int)
    requires
        forall|o: int| o != c ==> #[trigger] pending_at(q, o) == pending_at(p, o),
        pending_at(q, c) == (pending_at(p, c) + d) % 256,
    ensures
        add_at(realized(x, p, c), x.ptr + c, d) == realized(x, q, c),
{
    let a = add_at(realized(x, p, c), x.ptr + c, d);
    let b = realized(x, q, c);
    assert forall|j: int| #[trigger] (a.tape)(j) == (b.tape)(j) by {
        let t = (x.tape)(j) as int;
        if j == x.ptr + c {
            lemma_mod_sum(t, pending_at(p, c), d);
        } else {
            assert(pending_at(q, j - x.ptr) == pending_at(p, j - x.ptr));
        }
    }
    assert(a.tape =~= b.tape);
    assert(a =~= b);
}

/// The Brainfuck machine after a clear at the pointer.
proof fn lemma_realized_store(x: Machine, p: Seq<(i64, i32)>, q: Seq<(i64, i32)>, c: int)
    requires
        forall|o: int| o != c ==> #[trigger] pending_at(q, o) == pending_at(p, o),
        pending_at(q, c) == 0,
    ensures
        store_at(realized(x, p, c), x.ptr + c, 0) == realized(store_at(x, x.ptr + c, 0), q, c),
{
    let a = store_at(realized(x, p, c), x.ptr + c, 0);
    let b = realized(store_at(x, x.ptr + c, 0), q, c);
    assert forall|j: int| #[trigger] (a.tape)(j) == (b.tape)(j) by {
        if j != x.ptr + c {
            assert(pending_at(q, j - x.ptr) == pending_at(p, j - x.ptr));
        }
    }
    assert(a.tape =~= b.tape);
    assert(a =~= b);
}

/// Reading and writing do not depend on the data pointer.
proof fn lemma_io_moved(y: Machine, at: int, c: int)
    ensures
        read_at(moved(y, c), at) == moved(read_at(y, at), c),
        write_from(moved(y, c), at) == moved(write_from(y, at), c),
        realized(y, Seq::empty(), c) == moved(y, c),
{
    assert(read_at(moved(y, c), at) =~= moved(read_at(y, at), c));
    assert(write_from(moved(y, c), at) =~= moved(write_from(y, at), c));
    lemma_apply_none(y);
}

/// Running `s` with its last op replaced by `op` runs `s` up to its last op,
/// then `op`.
proof fn lemma_ir_run_last(m: Machine, s: Seq<Ir>)
    requires
        s.len() > 0,
    ensures
        ir_run(m, s) == match ir_run(m, s.drop_last()) {
            Some(x) => ir_step(x, s.last()),
            None => None,
        },
{
}

/// Whether an op is one the straight-line semantics runs.
pub open spec fn straight(op: Ir) -> bool {
    op is Add || op is Store || op is Move || op is Input || op is Output
}

/// Append `op`, folding it into the previous op where that is equivalent.
#[verifier::rlimit(80)]
#[verifier::spinoff_prover]
fn push_ir(output: &mut Vec<Ir>, op: Ir)
    requires
        ir_block_ok(old(output)@),
        match op {
            Ir::Move(d) => ir_travel(old(output)@) + (if d < 0 {
                -d
            } else {
                d as int
            }) <= i64::MAX,
            Ir::Add { .. } | Ir::Store { .. } | Ir::Input { .. } | Ir::Output { .. } | Ir::Scan(
                _,
            ) => true,
            _ => ir_ok(op),
        },
    ensures
        ir_block_ok(final(output)@),
        ir_travel(final(output)@) <= ir_travel(old(output)@) + match op {
            Ir::Move(d) => if d < 0 {
                -d
            } else {
                d as int
            },
            _ => 0,
        },
        straight(op) ==> forall|m: Machine| #[trigger] ir_run(m, final(output)@) == ir_run(m, old(output)@.push(op)),
        straight(op) ==> forall|m: Machine| #[trigger] ir_run(m, final(output)@) == match ir_run(m, old(output)@) {
            Some(x) => ir_step(x, op),
            None => None,
        },
{
    let ghost before = output@;
    let ghost op0 = op;
    proof {
        lemma_ir_travel_nonneg(before);
        if before.len() > 0 {
            lemma_ir_travel_nonneg(before.drop_last());
            assert(ir_block_ok(before.drop_last()) && ir_ok(before.last()));
        }
        assert forall|m: Machine| #[trigger] ir_run(m, before.push(op0)) == match ir_run(m, before) {
            Some(x) => ir_step(x, op0),
            None => None,
        } by {
            lemma_ir_run_push(m, before, op0);
        }
    }
    let n = output.len();
    match op {
        Ir::Add { offset, delta } => {
            let delta0 = delta;
            let delta = wrap_byte(delta);
            if delta == 0 {
                proof {
                    assert forall|m: Machine| #[trigger] ir_run(m, output@) == ir_run(m, before.push(op0)) by {
                        if let Some(x) = ir_run(m, before) {
                            lemma_add_add(x, x.ptr + offset, delta0 as int, 0);
                        }
                    }
                }
                return;
            }
            if n > 0 {
                match &output[n - 1] {
                    Ir::Add { offset: previous_offset, delta: previous_delta } => {
                        if *previous_offset == offset {
                            let sum = (*previous_delta + delta) % 256;
                            let ghost prev = *previous_delta;
                            output.pop();
                            proof {
                                assert(output@ =~= before.drop_last());
                                assert forall|m: Machine| #[trigger] ir_run(m, before.push(op0)) == match ir_run(
                                    m,
                                    before.drop_last(),
                                ) {
                                    Some(x) => Some(add_at(x, x.ptr + offset, sum as int)),
                                    None => None,
                                } by {
                                    lemma_ir_run_last(m, before);
                                    if let Some(x) = ir_run(m, before.drop_last()) {
                                        lemma_add_add(x, x.ptr + offset, prev as int, delta0 as int);
                                        lemma_mod_sum(prev as int, delta0 as int, 0);
                                        lemma_add_add(x, x.ptr + offset, (prev + delta0) % 256, 0);
                                    }
                                }
                            }
                            if sum != 0 {
                                proof {
                                    lemma_ir_push(output@, Ir::Add { offset, delta: sum });
                                }
                                output.push(Ir::Add { offset, delta: sum });
                                proof {
                                    assert forall|m: Machine| #[trigger] ir_run(m, output@) == ir_run(m, before.push(op0)) by {
                                        lemma_ir_run_push(m, before.drop_last(), Ir::Add { offset, delta: sum });
                                    }
                                }
                            } else {
                                proof {
                                    assert forall|m: Machine| #[trigger] ir_run(m, output@) == ir_run(m, before.push(op0)) by {
                                        if let Some(x) = ir_run(m, before.drop_last()) {
                                            lemma_add_add(x, x.ptr + offset, 0, 0);
                                        }
                                    }
                                }
                            }
                            return;
                        }
                    },
                    Ir::Store { offset: previous_offset, value } => {
                        if *previous_offset == offset {
                            let next: u8 = ((*value as u32 + delta as u32) % 256) as u8;
                            let ghost w = *value;
                            output.pop();
                            proof {
                                lemma_ir_push(output@, Ir::Store { offset, value: next });
                            }
                            output.push(Ir::Store { offset, value: next });
                            proof {
                                assert forall|m: Machine| #[trigger] ir_run(m, output@) == ir_run(m, before.push(op0)) by {
                                    lemma_ir_run_last(m, before);
                                    lemma_ir_run_push(m, before.drop_last(), Ir::Store { offset, value: next });
                                    assert(output@ =~= before.drop_last().push(Ir::Store { offset, value: next }));
                                    if let Some(x) = ir_run(m, before.drop_last()) {
                                        lemma_store_cell(x, x.ptr + offset, 0, w, delta0 as int);
                                        lemma_mod_sum(w as int, delta0 as int, 0);
                                    }
                                }
                            }
                            return;
                        }
                    },
                    _ => {},
                }
            }
            proof {
                lemma_ir_push(output@, Ir::Add { offset, delta });
            }
            output.push(Ir::Add { offset, delta });
            proof {
                assert forall|m: Machine| #[trigger] ir_run(m, output@) == ir_run(m, before.push(op0)) by {
                    lemma_ir_run_push(m, before, Ir::Add { offset, delta });
                    if let Some(x) = ir_run(m, before) {
                        lemma_add_add(x, x.ptr + offset, delta0 as int, 0);
                    }
                }
            }
        },
        Ir::Store { offset, value } => {
            if n > 0 {
                let same = match &output[n - 1] {
                    Ir::Add { offset: previous_offset, .. } => *previous_offset == offset,
                    Ir::Store { offset: previous_offset, .. } => *previous_offset == offset,
                    _ => false,
                };
                if same {
                    output.pop();
                    proof {
                        lemma_ir_push(output@, Ir::Store { offset, value });
                    }
                    output.push(Ir::Store { offset, value });
                    proof {
                        assert forall|m: Machine| #[trigger] ir_run(m, output@) == ir_run(m, before.push(op0)) by {
                            lemma_ir_run_last(m, before);
                            lemma_ir_run_push(m, before.drop_last(), Ir::Store { offset, value });
                            assert(output@ =~= before.drop_last().push(Ir::Store { offset, value }));
                            if let Some(x) = ir_run(m, before.drop_last()) {
                                match before.last() {
                                    Ir::Add { delta: d, .. } => {
                                        lemma_store_cell(x, x.ptr + offset, value, 0, d as int);
                                    },
                                    Ir::Store { value: w, .. } => {
                                        lemma_store_cell(x, x.ptr + offset, value, w, 0);
                                    },
                                    _ => {},
                                }
                            }
                        }
                    }
                    return;
                }
            }
            proof {
                lemma_ir_push(output@, Ir::Store { offset, value });
            }
            output.push(Ir::Store { offset, value });
        },
        Ir::Move(delta) => {
            if delta == 0 {
                proof {
                    assert forall|m: Machine| #[trigger] ir_run(m, output@) == ir_run(m, before.push(op0)) by {
                        if let Some(x) = ir_run(m, before) {
                            assert(moved(x, 0) =~= x);
                        }
                    }
                }
                return;
            }
            if n > 0 {
                if let Ir::Move(previous) = &output[n - 1] {
                    let sum = *previous + delta;
                    let ghost prev = *previous;
                    output.pop();
                    if sum != 0 {
                        proof {
                            lemma_ir_push(output@, Ir::Move(sum));
                        }
                        output.push(Ir::Move(sum));
                    }
                    proof {
                        assert forall|m: Machine| #[trigger] ir_run(m, output@) == ir_run(m, before.push(op0)) by {
                            lemma_ir_run_last(m, before);
                            lemma_ir_run_push(m, before.drop_last(), Ir::Move(sum));
                            if sum != 0 {
                                assert(output@ =~= before.drop_last().push(Ir::Move(sum)));
                            } else {
                                assert(output@ =~= before.drop_last());
                            }
                            if let Some(x) = ir_run(m, before.drop_last()) {
                                assert(moved(moved(x, prev as int), delta as int) =~= moved(x, sum as int));
                                assert(moved(x, 0) =~= x);
                            }
                        }
                    }
                    return;
                }
            }
            proof {
                lemma_ir_push(output@, Ir::Move(delta));
            }
            output.push(Ir::Move(delta));
        },
        Ir::Scan(stride) => {
            if stride == 0 {
                return;
            }
            proof {
                lemma_ir_push(output@, Ir::Scan(stride));
            }
            output.push(Ir::Scan(stride));
        },
        other => {
            proof {
                lemma_ir_push(output@, other);
            }
            output.push(other);
        },
    }
}

/// The least `c` in `1..256` with `value * c` equal to 1 modulo 256.
pub open spec fn is_least_inverse(value: int, c: int) -> bool {
    &&& 1 <= c < 256
    &&& (value * c) % 256 == 1
    &&& forall|d: int| 1 <= d < c ==> #[trigger] ((value * d) % 256) != 1
}

/// The multiplicative inverse of `value` modulo 256, if it has one.
fn modular_inverse_256(value: i32) -> (r: Option<i32>)
    ensures
        r matches Some(c) ==> is_least_inverse(value as int % 256, c as int),
        r is None ==> (value as int % 256) % 2 == 0 || forall|d: int|
            1 <= d < 256 ==> #[trigger] (((value as int % 256) * d) % 256) != 1,
{
    let v = wrap_byte(value);
    if v % 2 == 0 {
        return None;
    }
    let mut candidate: i32 = 1;
    while candidate < 256
        invariant
            1 <= candidate <= 256,
            0 <= v < 256,
            v as int == value as int % 256,
            forall|d: int| 1 <= d < candidate ==> #[trigger] ((v * d) % 256) != 1,
        decreases 256 - candidate,
    {
        assert(0 <= v * candidate <= 255 * 256) by (nonlinear_arith)
            requires
                0 <= v < 256,
                1 <= candidate <= 256,
        ;
        if (v * candidate) % 256 == 1 {
            return Some(candidate);
        }
        candidate += 1;
    }
    None
}

/// The transfer terms of a loop body made only of additions whose net effect
/// on the current cell is invertible; `None` otherwise.
fn add_mul_terms(body: &Vec<Ir>) -> (r: Option<Vec<(i64, i32)>>)
    ensures
        r matches Some(terms) ==> terms_ok(terms@),
{
    let mut effects: Vec<(i64, i32)> = Vec::new();
    let mut i: usize = 0;
    while i < body.len()
        invariant
            i <= body.len(),
            pending_ok(effects@),
        decreases body.len() - i,
    {
        match &body[i] {
            Ir::Add { offset, delta } => add_pending(&mut effects, *offset, *delta),
            _ => return None,
        }
        i += 1;
    }
    // Take out the source cell's own delta.
    let mut j: usize = 0;
    while j < effects.len() && effects[j].0 != 0
        invariant
            j <= effects.len(),
        decreases effects.len() - j,
    {
        j += 1;
    }
    if j == effects.len() {
        return None;
    }
    let source_delta = effects[j].1;
    let ghost before = effects@;
    effects.remove(j);
    proof {
        let after = effects@;
        assert forall|a: int, b: int| 0 <= a < b < after.len() implies (#[trigger] after[a]).0
            < (#[trigger] after[b]).0 by {
            let a0 = if a < j { a } else { a + 1 };
            let b0 = if b < j { b } else { b + 1 };
            assert(after[a] == before[a0] && after[b] == before[b0]);
        }
        assert forall|a: int| 0 <= a < after.len() implies (#[trigger] after[a]).0 != 0 by {
            let a0 = if a < j { a } else { a + 1 };
            assert(after[a] == before[a0]);
            if a0 < j {
                assert(before[a0].0 < before[j as int].0);
            } else {
                assert(before[j as int].0 < before[a0].0);
            }
        }
    }
    let inverse = match modular_inverse_256(source_delta) {
        Some(inverse) => inverse,
        None => return None,
    };
    let mut terms: Vec<(i64, i32)> = Vec::new();
    let mut k: usize = 0;
    while k < effects.len()
        invariant
            k <= effects.len(),
            pending_ok(effects@),
            forall|a: int| 0 <= a < effects@.len() ==> (#[trigger] effects@[a]).0 != 0,
            1 <= inverse < 256,
            terms_ok(terms@),
            forall|a: int| 0 <= a < terms@.len() ==> exists|b: int| 0 <= b < k && (#[trigger] terms@[a]).0 == effects@[b].0,
        decreases effects.len() - k,
    {
        let (offset, delta) = effects[k];
        assert(1 <= delta <= 255);
        assert(-255 * 255 <= (-delta) * inverse <= 0) by (nonlinear_arith)
            requires
                1 <= delta <= 255,
                1 <= inverse < 256,
        ;
        let factor = wrap_byte(-delta * inverse);
        if factor != 0 {
            let ghost t = terms@;
            proof {
                assert forall|a: int| 0 <= a < t.len() implies (#[trigger] t[a]).0 < offset by {
                    let b = choose|b: int| 0 <= b < k && t[a].0 == effects@[b].0;
                }
            }
            terms.push((offset, factor));
            proof {
                assert forall|a: int| 0 <= a < terms@.len() implies exists|b: int| 0 <= b < k + 1 && (#[trigger] terms@[a]).0 == effects@[b].0 by {
                    if a < t.len() {
                        let b = choose|b: int| 0 <= b < k && t[a].0 == effects@[b].0;
                        assert(0 <= b < k + 1 && terms@[a].0 == effects@[b].0);
                    } else {
                        assert(terms@[a].0 == effects@[k as int].0);
                    }
                }
            }
        }
        k += 1;
    }
    Some(terms)
}

/// Recognize scan loops, clear and transfer loops; keep anything else.
fn optimize_loop(body: Vec<Ir>) -> (r: Ir)
    requires
        ir_block_ok(body@),
    ensures
        ir_ok(r),
        r is Scan || r is Store || r is AddMul || r is Loop,
{
    if body.len() == 1 {
        if let Ir::Move(stride) = &body[0] {
            if *stride != 0 {
                return Ir::Scan(*stride);
            }
        }
    }
    match add_mul_terms(&body) {
        Some(terms) => {
            if terms.len() == 0 {
                Ir::Store { offset: 0, value: 0 }
            } else {
                Ir::AddMul { terms }
            }
        },
        None => Ir::Loop(body),
    }
}

fn flush_pending_adds(output: &mut Vec<Ir>, pending: &mut Vec<(i64, i32)>)
    requires
        ir_block_ok(old(output)@),
        pending_ok(old(pending)@),
    ensures
        ir_block_ok(final(output)@),
        ir_travel(final(output)@) <= ir_travel(old(output)@),
        final(pending)@.len() == 0,
        forall|m: Machine| #[trigger] ir_run(m, final(output)@) == match ir_run(m, old(output)@) {
            Some(x) => Some(apply_pending(x, old(pending)@)),
            None => None,
        },
{
    let mut i: usize = 0;
    proof {
        assert(pending@.take(0) =~= Seq::<(i64, i32)>::empty());
        assert forall|m: Machine| #[trigger] ir_run(m, output@) == match ir_run(m, old(output)@) {
            Some(x) => Some(apply_pending(x, pending@.take(0))),
            None => None,
        } by {
            if let Some(x) = ir_run(m, old(output)@) {
                lemma_apply_none(x);
            }
        }
    }
    while i < pending.len()
        invariant
            i <= pending.len(),
            pending@ == old(pending)@,
            pending_ok(pending@),
            ir_block_ok(output@),
            ir_travel(output@) <= ir_travel(old(output)@),
            forall|m: Machine| #[trigger] ir_run(m, output@) == match ir_run(m, old(output)@) {
                Some(x) => Some(apply_pending(x, pending@.take(i as int))),
                None => None,
            },
        decreases pending.len() - i,
    {
        let (offset, delta) = pending[i];
        let ghost mid = output@;
        push_ir(output, Ir::Add { offset, delta });
        proof {
            assert forall|m: Machine| #[trigger] ir_run(m, output@) == match ir_run(m, old(output)@) {
                Some(x) => Some(apply_pending(x, pending@.take(i + 1))),
                None => None,
            } by {
                lemma_ir_run_push(m, mid, Ir::Add { offset, delta });
                assert(ir_run(m, mid) == match ir_run(m, old(output)@) {
                    Some(x) => Some(apply_pending(x, pending@.take(i as int))),
                    None => None,
                });
                if let Some(x) = ir_run(m, old(output)@) {
                    lemma_apply_next(x, pending@, i as int);
                }
            }
        }
        i += 1;
    }
    proof {
        assert(pending@.take(i as int) =~= pending@);
    }
    pending.clear();
}

fn remove_pending(pending: &mut Vec<(i64, i32)>, offset: i64)
    requires
        pending_ok(old(pending)@),
    ensures
        pending_ok(final(pending)@),
        pending_delta(final(pending)@, offset) == 0,
        forall|o: i64| o != offset ==> pending_delta(final(pending)@, o) == pending_delta(old(pending)@, o),
{
    let ghost before = pending@;
    let mut i: usize = 0;
    while i < pending.len() && pending[i].0 != offset
        invariant
            i <= pending.len(),
            pending@ == before,
            forall|j: int| 0 <= j < i ==> (#[trigger] before[j]).0 != offset,
        decreases pending.len() - i,
    {
        i += 1;
    }
    if i < pending.len() {
        pending.remove(i);
        proof {
            lemma_pending_remove(before, i as int);
        }
    } else {
        proof {
            lemma_pending_delta(before, offset);
        }
    }
}

proof fn lemma_travel_step(ops: Seq<Op>, k: int)
    requires
        0 <= k < ops.len(),
    ensures
        travel(ops.take(k + 1)) == travel(ops.take(k)) + match ops[k] {
            Op::Move(d) => if d < 0 {
                -d
            } else {
                d as int
            },
            _ => 0,
        },
{
    assert(ops.take(k + 1).drop_last() =~= ops.take(k));
}

proof fn lemma_travel_take_le(ops: Seq<Op>, k: int)
    requires
        0 <= k <= ops.len(),
    ensures
        travel(ops.take(k)) <= travel(ops),
        travel(ops.take(k)) >= 0,
    decreases ops.len() - k,
{
    if k < ops.len() {
        lemma_travel_take_le(ops, k + 1);
        lemma_travel_step(ops, k);
    } else {
        assert(ops.take(k) =~= ops);
    }
    lemma_travel_nonneg_ir(ops.take(k));
}

proof fn lemma_travel_nonneg_ir(ops: Seq<Op>)
    ensures
        travel(ops) >= 0,
    decreases ops.len(),
{
    if ops.len() > 0 {
        lemma_travel_nonneg_ir(ops.drop_last());
    }
}

proof fn lemma_travel_fits_elements(ops: Seq<Op>)
    requires
        travel_fits(ops),
    ensures
        forall|j: int| 0 <= j < ops.len() ==> (#[trigger] ops[j] matches Op::Loop(body) ==> travel_fits(body@)),
        ops.len() > 0 ==> travel(ops) <= i64::MAX,
    decreases ops.len(),
{
    if ops.len() > 0 {
        lemma_travel_fits_elements(ops.drop_last());
        assert forall|j: int| 0 <= j < ops.len() implies (#[trigger] ops[j] matches Op::Loop(body) ==> travel_fits(body@)) by {
            if j < ops.len() - 1 {
                assert(ops[j] == ops.drop_last()[j]);
            }
        }
    }
}

/// Normalized parser output satisfies the travel bound at every level.
pub proof fn lemma_normalized_travel_fits(ops: Seq<Op>)
    requires
        normalized(ops),
    ensures
        travel_fits(ops),
    decreases ops,
{
    if ops.len() > 0 {
        lemma_normalized_travel_fits(ops.drop_last());
        assert(op_ok(ops.last()));
        if let Op::Loop(body) = ops.last() {
            assert(decreases_to!(ops => ops.last()));
            lemma_normalized_travel_fits(body@);
        }
    }
}

#[verifier::loop_isolation(false)]
#[verifier::rlimit(80)]
#[verifier::spinoff_prover]
fn lower_block(ops: &[Op]) -> (r: Vec<Ir>)
    requires
        travel_fits(ops@),
    ensures
        ir_block_ok(r@),
        ir_travel(r@) <= travel(ops@),
        no_loops(ops@) ==> forall|m: Machine| #[trigger] ir_run(m, r@) == bf_run(m, ops@),
    decreases ops@,
{
    let mut output: Vec<Ir> = Vec::new();
    let mut pending: Vec<(i64, i32)> = Vec::new();
    let mut cursor: i64 = 0;
    let mut k: usize = 0;
    proof {
        lemma_travel_fits_elements(ops@);
        assert(ops@.take(0) =~= seq![]);
        lemma_travel_take_le(ops@, 0);
        assert forall|m: Machine| #[trigger] bf_run(m, ops@.take(0)) == match ir_run(m, output@) {
            Some(x) => Some(realized(x, pending@, cursor as int)),
            None => None,
        } by {
            lemma_apply_none(m);
            assert(moved(m, 0) =~= m);
        }
    }
    while k < ops.len()
        invariant
            k <= ops@.len(),
            ir_block_ok(output@),
            pending_ok(pending@),
            ir_travel(output@) + (if cursor < 0 {
                -cursor
            } else {
                cursor as int
            }) <= travel(ops@.take(k as int)),
            travel(ops@.take(k as int)) <= travel(ops@),
            travel(ops@) <= i64::MAX || ops@.len() == 0,
            no_loops(ops@) ==> forall|m: Machine| #[trigger] bf_run(m, ops@.take(k as int)) == match ir_run(m, output@) {
                Some(x) => Some(realized(x, pending@, cursor as int)),
                None => None,
            },
        decreases ops@.len() - k,
    {
        proof {
            lemma_travel_step(ops@, k as int);
            lemma_travel_take_le(ops@, k + 1);
            lemma_ir_travel_nonneg(output@);
        }
        let ghost out0 = output@;
        let ghost pend0 = pending@;
        let ghost c0 = cursor as int;
        match &ops[k] {
            Op::Add(delta) => {
                add_pending(&mut pending, cursor, *delta);
                proof {
                    if no_loops(ops@) {
                        lemma_pending_others(pend0, pending@, cursor);
                        assert forall|m: Machine| #[trigger] bf_run(m, ops@.take(k + 1)) == match ir_run(m, output@) {
                            Some(x) => Some(realized(x, pending@, cursor as int)),
                            None => None,
                        } by {
                            lemma_bf_run_take(m, ops@, k as int);
                            assert(bf_run(m, ops@.take(k as int)) == match ir_run(m, out0) {
                                Some(x) => Some(realized(x, pend0, c0)),
                                None => None,
                            });
                            if let Some(x) = ir_run(m, out0) {
                                lemma_realized_add(x, pend0, pending@, c0, *delta as int);
                            }
                        }
                    }
                }
            },
            Op::Move(delta) => {
                cursor = cursor + *delta;
                proof {
                    if no_loops(ops@) {
                        assert forall|m: Machine| #[trigger] bf_run(m, ops@.take(k + 1)) == match ir_run(m, output@) {
                            Some(x) => Some(realized(x, pending@, cursor as int)),
                            None => None,
                        } by {
                            lemma_bf_run_take(m, ops@, k as int);
                            assert(bf_run(m, ops@.take(k as int)) == match ir_run(m, out0) {
                                Some(x) => Some(realized(x, pend0, c0)),
                                None => None,
                            });
                            if let Some(x) = ir_run(m, out0) {
                                assert(moved(realized(x, pend0, c0), *delta as int) =~= realized(x, pend0, cursor as int));
                            }
                        }
                    }
                }
            },
            Op::Clear => {
                remove_pending(&mut pending, cursor);
                push_ir(&mut output, Ir::Store { offset: cursor, value: 0 });
                proof {
                    if no_loops(ops@) {
                        lemma_pending_others(pend0, pending@, cursor);
                        assert forall|m: Machine| #[trigger] bf_run(m, ops@.take(k + 1)) == match ir_run(m, output@) {
                            Some(x) => Some(realized(x, pending@, cursor as int)),
                            None => None,
                        } by {
                            lemma_bf_run_take(m, ops@, k as int);
                            lemma_ir_run_push(m, out0, Ir::Store { offset: cursor, value: 0 });
                            assert(bf_run(m, ops@.take(k as int)) == match ir_run(m, out0) {
                                Some(x) => Some(realized(x, pend0, c0)),
                                None => None,
                            });
                            if let Some(x) = ir_run(m, out0) {
                                lemma_realized_store(x, pend0, pending@, c0);
                            }
                        }
                    }
                }
            },
            Op::Input => {
                flush_pending_adds(&mut output, &mut pending);
                push_ir(&mut output, Ir::Input { offset: cursor });
                proof {
                    if no_loops(ops@) {
                        assert forall|m: Machine| #[trigger] bf_run(m, ops@.take(k + 1)) == match ir_run(m, output@) {
                            Some(x) => Some(realized(x, pending@, cursor as int)),
                            None => None,
                        } by {
                            lemma_bf_run_take(m, ops@, k as int);
                            assert(bf_run(m, ops@.take(k as int)) == match ir_run(m, out0) {
                                Some(x) => Some(realized(x, pend0, c0)),
                                None => None,
                            });
                            if let Some(x) = ir_run(m, out0) {
                                let y = apply_pending(x, pend0);
                                assert(pending@ =~= Seq::<(i64, i32)>::empty());
                                lemma_io_moved(y, x.ptr + c0, c0);
                                lemma_io_moved(read_at(y, x.ptr + c0), x.ptr + c0, c0);
                            }
                        }
                    }
                }
            },
            Op::Output => {
                flush_pending_adds(&mut output, &mut pending);
                let ghost out1 = output@;
                push_ir(&mut output, Ir::Output { offset: cursor });
                proof {
                    if no_loops(ops@) {
                        assert forall|m: Machine| #[trigger] bf_run(m, ops@.take(k + 1)) == match ir_run(m, output@) {
                            Some(x) => Some(realized(x, pending@, cursor as int)),
                            None => None,
                        } by {
                            lemma_bf_run_take(m, ops@, k as int);
                            lemma_ir_run_push(m, out1, Ir::Output { offset: cursor });
                            assert(bf_run(m, ops@.take(k as int)) == match ir_run(m, out0) {
                                Some(x) => Some(realized(x, pend0, c0)),
                                None => None,
                            });
                            assert(ir_run(m, out1) == match ir_run(m, out0) {
                                Some(x) => Some(apply_pending(x, pend0)),
                                None => None,
                            });
                            if let Some(x) = ir_run(m, out0) {
                                let y = apply_pending(x, pend0);
                                assert(pending@ =~= Seq::<(i64, i32)>::empty());
                                lemma_io_moved(y, x.ptr + c0, c0);
                                lemma_io_moved(write_from(y, x.ptr + c0), x.ptr + c0, c0);
                            }
                        }
                    }
                }
            },
            Op::Loop(body) => {
                flush_pending_adds(&mut output, &mut pending);
                if cursor != 0 {
                    push_ir(&mut output, Ir::Move(cursor));
                    cursor = 0;
                }
                proof {
                    assert(decreases_to!(ops@ => ops@[k as int]));
                    assert(travel_fits(body@));
                }
                let lowered = lower_block(body.as_slice());
                let looped = optimize_loop(lowered);
                proof {
                    lemma_ir_travel_nonneg(output@);
                }
                push_ir(&mut output, looped);
                proof {
                    assert(ops@[k as int] is Loop);
                }
            },
        }
        k += 1;
    }
    proof {
        assert(ops@.take(k as int) =~= ops@);
        lemma_ir_travel_nonneg(output@);
    }
    let ghost out0 = output@;
    let ghost pend0 = pending@;
    flush_pending_adds(&mut output, &mut pending);
    let ghost out1 = output@;
    if cursor != 0 {
        push_ir(&mut output, Ir::Move(cursor));
    }
    proof {
        if no_loops(ops@) {
            assert forall|m: Machine| #[trigger] ir_run(m, output@) == bf_run(m, ops@) by {
                assert(bf_run(m, ops@.take(k as int)) == match ir_run(m, out0) {
                    Some(x) => Some(realized(x, pend0, cursor as int)),
                    None => None,
                });
                assert(ir_run(m, out1) == match ir_run(m, out0) {
                    Some(x) => Some(apply_pending(x, pend0)),
                    None => None,
                });
                if cursor != 0 {
                    lemma_ir_run_push(m, out1, Ir::Move(cursor));
                } else {
                    if let Some(x) = ir_run(m, out0) {
                        assert(moved(apply_pending(x, pend0), 0) =~= apply_pending(x, pend0));
                    }
                }
            }
        }
    }
    output
}

/// Lower parsed Brainfuck operations into optimized IR.
///
/// Wrapping byte-cell semantics are kept and pointer boundaries stay
/// unchecked.
pub fn optimize(ops: &[Op]) -> (r: Vec<Ir>)
    requires
        travel_fits(ops@),
    ensures
        ir_block_ok(r@),
        ir_travel(r@) <= travel(ops@),
        no_loops(ops@) ==> forall|m: Machine| #[trigger] ir_run(m, r@) == bf_run(m, ops@),
{
    lower_block(ops)
}

/// A block fits whenever its travel does and every loop in it fits.
proof fn lemma_travel_fits_from_elements(ops: Seq<Op>)
    requires
        ops.len() == 0 || travel(ops) <= i64::MAX,
        forall|j: int| 0 <= j < ops.len() ==> (#[trigger] ops[j] matches Op::Loop(body) ==> travel_fits(body@)),
    ensures
        travel_fits(ops),
    decreases ops.len(),
{
    if ops.len() > 0 {
        let rest = ops.drop_last();
        lemma_travel_take_le(ops, ops.len() - 1);
        assert(ops.take(ops.len() - 1) =~= rest);
        assert forall|j: int| 0 <= j < rest.len() implies (#[trigger] rest[j] matches Op::Loop(body) ==> travel_fits(body@)) by {
            assert(rest[j] == ops[j]);
        }
        lemma_travel_fits_from_elements(rest);
        assert(ops.last() == ops[ops.len() - 1]);
    }
}

/// Whether every block of `ops` moves the pointer a distance an `i64` holds.
pub fn check_travel(ops: &[Op]) -> (r: bool)
    ensures
        r == travel_fits(ops@),
    decreases ops@,
{
    let mut total: u64 = 0;
    let mut k: usize = 0;
    while k < ops.len()
        invariant
            k <= ops@.len(),
            total == travel(ops@.take(k as int)),
            total <= i64::MAX,
            forall|j: int| 0 <= j < k ==> (#[trigger] ops@[j] matches Op::Loop(body) ==> travel_fits(body@)),
        decreases ops@.len() - k,
    {
        proof {
            lemma_travel_step(ops@, k as int);
        }
        match &ops[k] {
            Op::Move(d) => {
                let step: u64 = if *d < 0 {
                    if *d == i64::MIN {
                        0x8000_0000_0000_0000
                    } else {
                        (-*d) as u64
                    }
                } else {
                    *d as u64
                };
                if step > 0x7fff_ffff_ffff_ffff - total {
                    proof {
                        lemma_travel_take_le(ops@, k + 1);
                        if travel_fits(ops@) {
                            lemma_travel_fits_elements(ops@);
                        }
                    }
                    return false;
                }
                total = total + step;
            },
            Op::Loop(body) => {
                proof {
                    assert(decreases_to!(ops@ => ops@[k as int]));
                }
                if !check_travel(body.as_slice()) {
                    proof {
                        if travel_fits(ops@) {
                            lemma_travel_fits_elements(ops@);
                            assert(ops@[k as int] matches Op::Loop(b) ==> travel_fits(b@));
                        }
                    }
                    return false;
                }
            },
            _ => {},
        }
        k += 1;
    }
    proof {
        assert(ops@.take(k as int) =~= ops@);
        lemma_travel_fits_from_elements(ops@);
    }
    true
}

/// [`optimize`] where the operations allow it: `None` when some block of
/// `ops` moves the pointer further than an `i64` holds.
pub fn optimize_checked(ops: &[Op]) -> (r: Option<Vec<Ir>>)
    ensures
        r is Some <==> travel_fits(ops@),
        r matches Some(code) ==> ir_block_ok(code@) && ir_travel(code@) <= travel(ops@),
{
    if check_travel(ops) {
        Some(optimize(ops))
    } else {
        None
    }
}

/// Running Brainfuck source one command byte at a time, for source without
/// brackets: every byte other than a command leaves the machine alone.
pub open spec fn command_run(m: Machine, s: Seq<u8>) -> Option<Machine>
    decreases s.len(),
{
    if s.len() == 0 {
        Some(m)
    } else {
        match command_run(m, s.drop_last()) {
            Some(x) => match command_op(s.last()) {
                Some(op) => bf_step(x, op),
                None => Some(x),
            },
            None => None,
        }
    }
}

/// Ops a folded command sequence is made of: additions, reads, writes and
/// moves no longer than `bound`.
spec fn simple_ops(ops: Seq<Op>, bound: int) -> bool {
    forall|i: int|
        0 <= i < ops.len() ==> match #[trigger] ops[i] {
            Op::Add(_) | Op::Input | Op::Output => true,
            Op::Move(d) => -bound <= d <= bound,
            _ => false,
        }
}

proof fn lemma_bf_run_push(m: Machine, s: Seq<Op>, op: Op)
    ensures
        bf_run(m, s.push(op)) == match bf_run(m, s) {
            Some(x) => bf_step(x, op),
            None => None,
        },
{
    assert(s.push(op).drop_last() =~= s);
}

proof fn lemma_simple_runs(m: Machine, ops: Seq<Op>, bound: int)
    requires
        simple_ops(ops, bound),
    ensures
        bf_run(m, ops) is Some,
    decreases ops.len(),
{
    if ops.len() > 0 {
        assert forall|i: int| 0 <= i < ops.drop_last().len() implies match #[trigger] ops.drop_last()[i] {
            Op::Add(_) | Op::Input | Op::Output => true,
            Op::Move(d) => -bound <= d <= bound,
            _ => false,
        } by {
            assert(ops.drop_last()[i] == ops[i]);
        }
        lemma_simple_runs(m, ops.drop_last(), bound);
        assert(ops.last() == ops[ops.len() - 1]);
    }
}

/// Folding one more command into normal form keeps the meaning of running
/// the folded block and then that command.
proof fn lemma_push_spec_meaning(m: Machine, ops: Seq<Op>, op: Op, bound: int)
    requires
        simple_ops(ops, bound),
        0 <= bound,
        bound + 1 <= i64::MAX,
        op == Op::Add(1) || op == Op::Add(-1i32) || op == Op::Move(1) || op == Op::Move(-1i64) || op
            == Op::Input || op == Op::Output,
    ensures
        simple_ops(push_spec(ops, op), bound + 1),
        bf_run(m, push_spec(ops, op)) == match bf_run(m, ops) {
            Some(x) => bf_step(x, op),
            None => None,
        },
{
    let q = push_spec(ops, op);
    lemma_simple_runs(m, ops, bound);
    if ops.len() > 0 {
        assert(ops =~= ops.drop_last().push(ops.last()));
        lemma_bf_run_push(m, ops.drop_last(), ops.last());
        assert(ops.last() == ops[ops.len() - 1]);
    }
    lemma_bf_run_push(m, ops, op);
    if ops.len() > 0 {
        assert forall|i: int| 0 <= i < ops.drop_last().len() implies #[trigger] ops.drop_last()[i] == ops[i] by {}
    }
    match op {
        Op::Add(delta) => {
            let d = delta % 256;
            if ops.len() > 0 && ops.last() is Add {
                let prev = ops.last()->Add_0;
                let sum = (prev + d) % 256;
                let x = bf_run(m, ops.drop_last()).unwrap();
                lemma_add_add(x, x.ptr, prev as int, delta as int);
                lemma_mod_sum(prev as int, delta as int, 0);
                lemma_add_add(x, x.ptr, sum, 0);
                if sum != 0 {
                    lemma_bf_run_push(m, ops.drop_last(), Op::Add(sum as i32));
                }
            } else {
                let x = bf_run(m, ops).unwrap();
                lemma_add_add(x, x.ptr, delta as int, 0);
                lemma_bf_run_push(m, ops, Op::Add(d as i32));
            }
        },
        Op::Move(delta) => {
            if ops.len() > 0 && ops.last() is Move {
                let prev = ops.last()->Move_0;
                let sum = prev + delta;
                let x = bf_run(m, ops.drop_last()).unwrap();
                assert(moved(moved(x, prev as int), delta as int) =~= moved(x, sum));
                assert(moved(x, 0) =~= x);
                if sum != 0 {
                    lemma_bf_run_push(m, ops.drop_last(), Op::Move(sum as i64));
                }
            }
        },
        _ => {},
    }
    assert forall|i: int| 0 <= i < q.len() implies match #[trigger] q[i] {
        Op::Add(_) | Op::Input | Op::Output => true,
        Op::Move(d) => -(bound + 1) <= d <= bound + 1,
        _ => false,
    } by {
        if i < ops.len() - 1 || (i < ops.len() && q[i] == ops[i]) {
            if i < ops.len() {
                assert(ops[i] == ops[i]);
            }
        }
    }
}

/// Folding command by command keeps the source's meaning: running the
/// folded operations does what running the source's commands one at a time
/// does, from every machine state.
pub proof fn lemma_folding_keeps_meaning(s: Seq<u8>, m: Machine)
    requires
        s.len() <= i64::MAX,
    ensures
        bf_run(m, fold_commands(s)) == command_run(m, s),
        no_loops(fold_commands(s)),
    decreases s.len(),
{
    lemma_fold_simple(s);
    lemma_fold_meaning(s, m);
    assert forall|i: int| 0 <= i < fold_commands(s).len() implies !(#[trigger] fold_commands(s)[i] is Loop) by {}
}

proof fn lemma_fold_simple(s: Seq<u8>)
    requires
        s.len() <= i64::MAX,
    ensures
        simple_ops(fold_commands(s), s.len() as int),
    decreases s.len(),
{
    if s.len() > 0 {
        lemma_fold_simple(s.drop_last());
        let prev = fold_commands(s.drop_last());
        assert forall|i: int| 0 <= i < prev.len() implies match #[trigger] prev[i] {
            Op::Add(_) | Op::Input | Op::Output => true,
            Op::Move(d) => -(s.len() as int) <= d <= s.len() as int,
            _ => false,
        } by {}
        if let Some(op) = command_op(s.last()) {
            lemma_push_spec_meaning(Machine { tape: |j: int| 0u8, ptr: 0, input: seq![], output: seq![] }, prev, op, (s.len() - 1) as int);
        }
    }
}

proof fn lemma_fold_meaning(s: Seq<u8>, m: Machine)
    requires
        s.len() <= i64::MAX,
    ensures
        bf_run(m, fold_commands(s)) == command_run(m, s),
    decreases s.len(),
{
    if s.len() > 0 {
        lemma_fold_meaning(s.drop_last(), m);
        lemma_fold_simple(s.drop_last());
        if let Some(op) = command_op(s.last()) {
            lemma_push_spec_meaning(m, fold_commands(s.drop_last()), op, (s.len() - 1) as int);
        }
    }
}

} // verus!
