//! Trepan: lift Brainfuck back into structured Cranium.
//!
//! Brainfuck has one anonymous tape and a pointer into it; Cranium has named
//! variables. The two meet exactly when the pointer's position is known at
//! every point in the program, because then every `+`, `.` and `,` names one
//! specific cell, and that cell can simply be a variable. That holds as long
//! as no loop leaves the pointer somewhere other than where it found it, which
//! rules out `[>]`-style scans and any other unbalanced loop. [`lift`] declines
//! those, and says which construct stopped it.
//!
//! Cell positions are tracked in 128-bit arithmetic that saturates at the
//! ends of its range, far beyond any position a program held in memory can
//! reach.

pub mod cli;

use vstd::prelude::*;
use vstd::utf8::*;
use vstd::string::StringSliceAdditionalSpecFns;
use crate::bytes::{decimal, string_bytes, string_from_utf8, push_all, lemma_append_ascii, push_ascii, lemma_decimal_ascii, push_decimal, push_decimal_u128, push_str};
use crate::hypothalamus::bf::{self, SyntaxError, first_unmatched_close, last_unmatched_open, position_at, no_brackets};
use crate::lobe::parser::{never_negative, depth};
use crate::hypothalamus::ir::{self, Ir, ir_block_ok, ir_ok, ir_travel, lemma_normalized_travel_fits, Machine, ir_run, bf_run, command_run, lemma_folding_keeps_meaning};

verus! {

broadcast use vstd::seq_lib::group_seq_properties;

/// Why a program could not be lifted to named variables.
#[derive(Debug, Clone, Copy, PartialEq, Eq, Structural)]
pub enum LiftError {
    /// The Brainfuck itself did not parse.
    Syntax(SyntaxError),
    /// A scan loop such as `[>]` walks until it finds a zero.
    Scan(i64),
    /// A loop body left the pointer `delta` cells from where it started.
    Unbalanced(i64),
}

/// How a refusal reads, as UTF-8.
pub open spec fn lift_error_bytes(e: LiftError) -> Seq<u8> {
    match e {
        LiftError::Syntax(inner) => bf::syntax_error_bytes(inner),
        LiftError::Scan(stride) => encode_utf8("this program scans for a cell (a loop equivalent to `["@)
            + encode_utf8(if stride < 0 { "<"@ } else { ">"@ }) + encode_utf8(
            "]`), so where the pointer stops depends on the data and its cells cannot become variables"@,
        ),
        LiftError::Unbalanced(delta) => {
            let distance: nat = if delta < 0 { (-delta) as nat } else { delta as nat };
            encode_utf8("a loop here leaves the pointer "@) + decimal(distance) + encode_utf8(" cell"@)
                + encode_utf8(if distance == 1 { ""@ } else { "s"@ }) + encode_utf8(
                " from where it started, so the position after it depends on how many times it ran and the cells after it cannot become variables"@,
            )
        },
    }
}

impl LiftError {
    /// The refusal as text, saying why the program cannot be lifted.
    pub fn text(&self) -> (r: String)
        ensures
            encode_utf8(r@) == lift_error_bytes(*self),
    {
        match self {
            LiftError::Syntax(inner) => inner.text(),
            LiftError::Scan(stride) => {
                let mut out: Vec<u8> = Vec::new();
                proof {
                    crate::bytes::lemma_ascii_valid_utf8(out@);
                }
                push_str(&mut out, "this program scans for a cell (a loop equivalent to `[");
                push_str(&mut out, if *stride < 0 { "<" } else { ">" });
                push_str(
                    &mut out,
                    "]`), so where the pointer stops depends on the data and its cells cannot become variables",
                );
                string_from_utf8(out)
            },
            LiftError::Unbalanced(delta) => {
                let distance: u64 = if *delta == i64::MIN {
                    0x8000_0000_0000_0000u64
                } else if *delta < 0 {
                    (-*delta) as u64
                } else {
                    *delta as u64
                };
                let mut out: Vec<u8> = Vec::new();
                proof {
                    crate::bytes::lemma_ascii_valid_utf8(out@);
                }
                push_str(&mut out, "a loop here leaves the pointer ");
                crate::bytes::push_decimal_text(&mut out, distance);
                push_str(&mut out, " cell");
                push_str(&mut out, if distance == 1 { "" } else { "s" });
                push_str(
                    &mut out,
                    " from where it started, so the position after it depends on how many times it ran and the cells after it cannot become variables",
                );
                string_from_utf8(out)
            },
        }
    }
}

/// A Brainfuck program rewritten as Cranium.
#[derive(Debug, Clone)]
pub struct Lifted {
    /// The Cranium source.
    pub source: String,
    /// How many tape cells became variables.
    pub cells: usize,
    /// How many statements the body came to.
    pub statements: usize,
}

// ----- Pointer movement -----

/// Net pointer movement of a block, or `None` when it is not static: a scan
/// anywhere, or a loop whose body does not come back to where it started.
pub open spec fn spec_net(ops: Seq<Ir>) -> Option<int>
    decreases ops,
{
    if ops.len() == 0 {
        Some(0)
    } else {
        match spec_net(ops.drop_last()) {
            None => None,
            Some(d) => match ops.last() {
                Ir::Move(step) => Some(d + step),
                Ir::Loop(body) => if spec_net(body@) == Some(0int) {
                    Some(d)
                } else {
                    None
                },
                Ir::Scan(_) => None,
                _ => Some(d),
            },
        }
    }
}

/// The first construct, in program order, that keeps the pointer from being
/// static.
pub open spec fn spec_check(ops: Seq<Ir>) -> Result<(), LiftError>
    decreases ops,
{
    if ops.len() == 0 {
        Ok(())
    } else {
        match spec_check(ops.drop_last()) {
            Err(e) => Err(e),
            Ok(()) => match ops.last() {
                Ir::Scan(stride) => Err(LiftError::Scan(stride)),
                Ir::Loop(body) => match spec_check(body@) {
                    Err(e) => Err(e),
                    Ok(()) => match spec_net(body@) {
                        Some(d) => if d == 0 {
                            Ok(())
                        } else {
                            Err(LiftError::Unbalanced(d as i64))
                        },
                        None => Ok(()),
                    },
                },
                _ => Ok(()),
            },
        }
    }
}

proof fn lemma_net_bounded(ops: Seq<Ir>)
    requires
        ir_block_ok(ops),
    ensures
        spec_net(ops) matches Some(d) ==> -ir_travel(ops) <= d <= ir_travel(ops),
        ir_travel(ops) <= i64::MAX,
        ir_travel(ops) >= 0,
    decreases ops.len(),
{
    if ops.len() > 0 {
        lemma_net_bounded(ops.drop_last());
    }
}

proof fn lemma_check_ok_net_some(ops: Seq<Ir>)
    requires
        spec_check(ops) is Ok,
    ensures
        spec_net(ops) is Some,
    decreases ops,
{
    if ops.len() > 0 {
        lemma_check_ok_net_some(ops.drop_last());
        if let Ir::Loop(body) = ops.last() {
            assert(decreases_to!(ops => ops.last()));
            lemma_check_ok_net_some(body@);
        }
    }
}

proof fn lemma_block_elements(ops: Seq<Ir>)
    requires
        ir_block_ok(ops),
    ensures
        forall|j: int| 0 <= j < ops.len() ==> ir_ok(#[trigger] ops[j]),
    decreases ops.len(),
{
    if ops.len() > 0 {
        lemma_block_elements(ops.drop_last());
        assert forall|j: int| 0 <= j < ops.len() implies ir_ok(#[trigger] ops[j]) by {
            if j < ops.len() - 1 {
                assert(ops[j] == ops.drop_last()[j]);
            }
        }
    }
}

proof fn lemma_take_step(ops: Seq<Ir>, k: int)
    requires
        0 <= k < ops.len(),
    ensures
        ops.take(k + 1).drop_last() == ops.take(k),
        ops.take(k + 1).last() == ops[k],
        ops.take(k + 1).len() == k + 1,
{
    assert(ops.take(k + 1).drop_last() =~= ops.take(k));
}

proof fn lemma_travel_take(ops: Seq<Ir>, k: int)
    requires
        0 <= k <= ops.len(),
    ensures
        ir_travel(ops.take(k)) <= ir_travel(ops),
    decreases ops.len() - k,
{
    if k < ops.len() {
        lemma_travel_take(ops, k + 1);
        lemma_take_step(ops, k);
        lemma_travel_nonneg(ops.take(k + 1));
    } else {
        assert(ops.take(k) =~= ops);
    }
}

proof fn lemma_travel_nonneg(ops: Seq<Ir>)
    ensures
        ir_travel(ops) >= 0,
    decreases ops.len(),
{
    if ops.len() > 0 {
        lemma_travel_nonneg(ops.drop_last());
    }
}

/// Net pointer movement of a block, or `None` when it is not static.
#[verifier::loop_isolation(false)]
fn net(block: &[Ir]) -> (r: Option<i64>)
    requires
        ir_block_ok(block@),
    ensures
        r matches Some(d) ==> spec_net(block@) == Some(d as int),
        r is None ==> spec_net(block@) is None,
    decreases block@,
{
    let mut delta: i64 = 0;
    let mut k: usize = 0;
    proof {
        assert(block@.take(0) =~= seq![]);
        lemma_block_elements(block@);
    }
    while k < block.len()
        invariant
            k <= block@.len(),
            spec_net(block@.take(k as int)) == Some(delta as int),
            -ir_travel(block@.take(k as int)) <= delta <= ir_travel(block@.take(k as int)),
        decreases block@.len() - k,
    {
        proof {
            lemma_take_step(block@, k as int);
            lemma_travel_take(block@, k + 1);
            lemma_net_bounded(block@);
        }
        match &block[k] {
            Ir::Move(step) => {
                delta = delta + *step;
            },
            Ir::Loop(body) => {
                proof {
                    assert(decreases_to!(block@ => block@[k as int]));
                    assert(ir_ok(block@[k as int]));
                }
                match net(body.as_slice()) {
                    Some(0) => {},
                    _ => {
                        proof {
                            lemma_net_none_extends(block@, k as int + 1);
                        }
                        return None;
                    },
                }
            },
            Ir::Scan(_) => {
                proof {
                    lemma_net_none_extends(block@, k as int + 1);
                }
                return None;
            },
            _ => {},
        }
        k += 1;
    }
    proof {
        assert(block@.take(k as int) =~= block@);
    }
    Some(delta)
}

proof fn lemma_net_none_extends(ops: Seq<Ir>, k: int)
    requires
        0 <= k <= ops.len(),
        spec_net(ops.take(k)) is None,
    ensures
        spec_net(ops) is None,
    decreases ops.len() - k,
{
    if k < ops.len() {
        lemma_take_step(ops, k);
        lemma_net_none_extends(ops, k + 1);
    } else {
        assert(ops.take(k) =~= ops);
    }
}

proof fn lemma_check_err_extends(ops: Seq<Ir>, k: int, e: LiftError)
    requires
        0 <= k <= ops.len(),
        spec_check(ops.take(k)) == Err::<(), LiftError>(e),
    ensures
        spec_check(ops) == Err::<(), LiftError>(e),
    decreases ops.len() - k,
{
    if k < ops.len() {
        lemma_take_step(ops, k);
        lemma_check_err_extends(ops, k + 1, e);
    } else {
        assert(ops.take(k) =~= ops);
    }
}

/// Reject anything whose pointer position cannot be followed statically.
#[verifier::loop_isolation(false)]
fn check_static(block: &[Ir]) -> (r: Result<(), LiftError>)
    requires
        ir_block_ok(block@),
    ensures
        r == spec_check(block@),
    decreases block@,
{
    let mut k: usize = 0;
    proof {
        assert(block@.take(0) =~= seq![]);
        lemma_block_elements(block@);
    }
    while k < block.len()
        invariant
            k <= block@.len(),
            spec_check(block@.take(k as int)) is Ok,
        decreases block@.len() - k,
    {
        proof {
            lemma_take_step(block@, k as int);
        }
        match &block[k] {
            Ir::Scan(stride) => {
                proof {
                    lemma_check_err_extends(block@, k as int + 1, LiftError::Scan(*stride));
                }
                return Err(LiftError::Scan(*stride));
            },
            Ir::Loop(body) => {
                proof {
                    assert(decreases_to!(block@ => block@[k as int]));
                    assert(ir_ok(block@[k as int]));
                }
                match check_static(body.as_slice()) {
                    Err(e) => {
                        proof {
                            lemma_check_err_extends(block@, k as int + 1, e);
                        }
                        return Err(e);
                    },
                    Ok(()) => {},
                }
                match net(body.as_slice()) {
                    Some(0) => {},
                    Some(delta) => {
                        proof {
                            lemma_check_err_extends(
                                block@,
                                k as int + 1,
                                LiftError::Unbalanced(delta),
                            );
                        }
                        return Err(LiftError::Unbalanced(delta));
                    },
                    None => {
                        proof {
                            lemma_check_ok_net_some(body@);
                        }
                    },
                }
            },
            _ => {},
        }
        k += 1;
    }
    proof {
        assert(block@.take(k as int) =~= block@);
    }
    Ok(())
}

// ----- Cell positions -----

/// Clamp to the 128-bit range positions are tracked in.
pub open spec fn sat(x: int) -> int {
    if x > i128::MAX {
        i128::MAX as int
    } else if x < i128::MIN {
        i128::MIN as int
    } else {
        x
    }
}

fn sat_add(a: i128, b: i64) -> (r: i128)
    ensures
        r == sat(a + b),
{
    if b >= 0 {
        if a > i128::MAX - (b as i128) {
            i128::MAX
        } else {
            a + (b as i128)
        }
    } else {
        if a < i128::MIN - (b as i128) {
            i128::MIN
        } else {
            a + (b as i128)
        }
    }
}

/// Where the pointer is after `ops`, having started at `c`.
pub open spec fn cursor_after(ops: Seq<Ir>, c: int) -> int
    decreases ops.len(),
{
    if ops.len() == 0 {
        c
    } else {
        let before = cursor_after(ops.drop_last(), c);
        match ops.last() {
            Ir::Move(step) => sat(before + step),
            _ => before,
        }
    }
}

/// The cells one op touches when the pointer is at `c`. A loop tests the cell
/// it starts on.
pub open spec fn op_cells(op: Ir, c: int) -> Set<int>
    decreases op,
{
    match op {
        Ir::Add { offset, .. } => set![sat(c + offset)],
        Ir::Store { offset, .. } => set![sat(c + offset)],
        Ir::Input { offset } => set![sat(c + offset)],
        Ir::Output { offset } => set![sat(c + offset)],
        Ir::AddMul { terms } => set![c].union(term_positions(terms@, c, terms@.len() as int)),
        Ir::Loop(body) => set![c].union(touched(body@, c)),
        _ => Set::empty(),
    }
}

/// The cells the first `t` transfer terms write, from pointer `c`.
pub open spec fn term_positions(terms: Seq<(i64, i32)>, c: int, t: int) -> Set<int> {
    Set::new(|p: int| exists|i: int| 0 <= i < t && p == sat(c + terms[i].0))
}

proof fn lemma_term_positions_step(terms: Seq<(i64, i32)>, c: int, t: int)
    requires
        0 <= t < terms.len(),
    ensures
        term_positions(terms, c, t + 1) == term_positions(terms, c, t).insert(sat(c + terms[t].0)),
{
    let a = term_positions(terms, c, t + 1);
    let b = term_positions(terms, c, t).insert(sat(c + terms[t].0));
    assert forall|q: int| a.contains(q) == b.contains(q) by {
        if a.contains(q) {
            let i = choose|i: int| 0 <= i < t + 1 && q == sat(c + terms[i].0);
            if i < t {
                assert(term_positions(terms, c, t).contains(q));
            }
        }
        if term_positions(terms, c, t).contains(q) {
            let i = choose|i: int| 0 <= i < t && q == sat(c + terms[i].0);
            assert(0 <= i < t + 1 && q == sat(c + terms[i].0));
        }
        if q == sat(c + terms[t].0) {
            assert(0 <= t < t + 1 && q == sat(c + terms[t].0));
        }
    }
    assert(a =~= b);
}

/// Every cell a block touches, starting at `c`.
pub open spec fn touched(ops: Seq<Ir>, c: int) -> Set<int>
    decreases ops,
{
    if ops.len() == 0 {
        Set::empty()
    } else {
        touched(ops.drop_last(), c).union(op_cells(ops.last(), cursor_after(ops.drop_last(), c)))
    }
}

/// A strictly increasing list of cells, read as a set.
pub open spec fn cell_set(cells: Seq<i128>) -> Set<int> {
    Set::new(|p: int| exists|i: int| 0 <= i < cells.len() && cells[i] == p)
}

pub open spec fn increasing(cells: Seq<i128>) -> bool {
    forall|i: int, j: int| 0 <= i < j < cells.len() ==> (#[trigger] cells[i]) < (#[trigger] cells[j])
}

fn insert_cell(cells: &mut Vec<i128>, p: i128)
    requires
        increasing(old(cells)@),
    ensures
        increasing(final(cells)@),
        cell_set(final(cells)@) == cell_set(old(cells)@).insert(p as int),
{
    let ghost before = cells@;
    let mut i: usize = 0;
    while i < cells.len() && cells[i] < p
        invariant
            i <= cells@.len(),
            cells@ == before,
            forall|j: int| 0 <= j < i ==> (#[trigger] before[j]) < p,
        decreases cells@.len() - i,
    {
        i += 1;
    }
    if i < cells.len() && cells[i] == p {
        assert(cell_set(before).insert(p as int) =~= cell_set(before));
        return;
    }
    cells.insert(i, p);
    proof {
        let after = cells@;
        assert forall|a: int, b: int| 0 <= a < b < after.len() implies (#[trigger] after[a]) < (
        #[trigger] after[b]) by {
            if b < i {
                assert(after[a] == before[a] && after[b] == before[b]);
            } else if b == i {
                assert(after[a] == before[a]);
            } else if a < i {
                assert(after[a] == before[a] && after[b] == before[b - 1]);
            } else if a == i {
                assert(after[b] == before[b - 1]);
                if b - 1 > i {
                    assert(before[i as int] < before[b - 1]);
                }
            } else {
                assert(after[a] == before[a - 1] && after[b] == before[b - 1]);
            }
        }
        assert forall|q: int| cell_set(after).contains(q) == cell_set(before).insert(p as int).contains(q) by {
            if cell_set(after).contains(q) {
                let j = choose|j: int| 0 <= j < after.len() && after[j] == q;
                if j < i {
                    assert(before[j] == q);
                } else if j > i {
                    assert(before[j - 1] == q);
                }
            }
            if cell_set(before).contains(q) {
                let j = choose|j: int| 0 <= j < before.len() && before[j] == q;
                if j < i {
                    assert(after[j] == q);
                } else {
                    assert(after[j + 1] == q);
                }
            }
            if q == p {
                assert(after[i as int] == p);
            }
        }
        assert(cell_set(after) =~= cell_set(before).insert(p as int));
    }
}

/// Record every cell a block touches.
#[verifier::loop_isolation(false)]
fn collect(block: &[Ir], cursor: i128, cells: &mut Vec<i128>)
    requires
        increasing(old(cells)@),
    ensures
        increasing(final(cells)@),
        cell_set(final(cells)@) == cell_set(old(cells)@).union(touched(block@, cursor as int)),
    decreases block@,
{
    let mut c = cursor;
    let mut k: usize = 0;
    proof {
        assert(block@.take(0) =~= seq![]);
        assert(cell_set(cells@).union(touched(seq![], cursor as int)) =~= cell_set(cells@));
    }
    while k < block.len()
        invariant
            k <= block@.len(),
            increasing(cells@),
            c == cursor_after(block@.take(k as int), cursor as int),
            cell_set(cells@) == cell_set(old(cells)@).union(touched(block@.take(k as int), cursor as int)),
        decreases block@.len() - k,
    {
        proof {
            lemma_take_step(block@, k as int);
        }
        let ghost before = cell_set(cells@);
        let ghost c0 = c;
        match &block[k] {
            Ir::Add { offset, .. } | Ir::Store { offset, .. } | Ir::Input { offset } | Ir::Output {
                offset,
            } => {
                let p = sat_add(c, *offset);
                insert_cell(cells, p);
                proof {
                    assert(before.union(op_cells(block@[k as int], c0 as int)) =~= cell_set(cells@));
                }
            },
            Ir::Move(step) => {
                c = sat_add(c, *step);
                proof {
                    assert(before.union(op_cells(block@[k as int], c0 as int)) =~= cell_set(cells@));
                }
            },
            Ir::AddMul { terms } => {
                insert_cell(cells, c);
                let mut t: usize = 0;
                proof {
                    assert(term_positions(terms@, c as int, 0) =~= Set::empty());
                    assert(cell_set(cells@) =~= before.insert(c as int).union(Set::empty()));
                }
                while t < terms.len()
                    invariant
                        t <= terms@.len(),
                        increasing(cells@),
                        cell_set(cells@) == before.insert(c as int).union(
                            term_positions(terms@, c as int, t as int),
                        ),
                    decreases terms@.len() - t,
                {
                    let p = sat_add(c, terms[t].0);
                    let ghost prev = cell_set(cells@);
                    insert_cell(cells, p);
                    t += 1;
                    proof {
                        lemma_term_positions_step(terms@, c as int, t - 1);
                        assert(cell_set(cells@) =~= before.insert(c as int).union(
                            term_positions(terms@, c as int, t as int),
                        ));
                    }
                }
                proof {
                    assert(before.union(op_cells(block@[k as int], c as int)) =~= cell_set(cells@));
                }
            },
            Ir::Loop(body) => {
                insert_cell(cells, c);
                proof {
                    assert(decreases_to!(block@ => block@[k as int]));
                }
                collect(body.as_slice(), c, cells);
                proof {
                    assert(before.union(op_cells(block@[k as int], c as int)) =~= cell_set(cells@));
                }
            },
            Ir::Scan(_) => {
                proof {
                    assert(before.union(op_cells(block@[k as int], c0 as int)) =~= cell_set(cells@));
                }
            },
        }
        k += 1;
        proof {
            assert(touched(block@.take(k as int), cursor as int) == touched(block@.take(k - 1), cursor as int).union(
                op_cells(block@[k - 1], c0 as int)));
            assert(cell_set(cells@) =~= cell_set(old(cells)@).union(
                touched(block@.take(k as int), cursor as int),
            ));
        }
    }
    proof {
        assert(block@.take(k as int) =~= block@);
    }
}

// ----- Emission -----

/// The variable a cell at `offset` becomes: `c` and the offset, or `cm` and
/// its magnitude for cells left of the start.
pub open spec fn name(offset: int) -> Seq<u8> {
    if offset < 0 {
        "cm".spec_bytes() + decimal((-offset) as nat)
    } else {
        "c".spec_bytes() + decimal(offset as nat)
    }
}

fn push_name(out: &mut Vec<u8>, offset: i128)
    requires
        valid_utf8(old(out)@),
    ensures
        final(out)@ == old(out)@ + name(offset as int),
        valid_utf8(final(out)@),
{
    if offset < 0 {
        push_str(out, "cm");
        let magnitude: u128 = if offset == i128::MIN {
            170141183460469231731687303715884105728u128
        } else {
            (-offset) as u128
        };
        let ghost mid = out@;
        push_decimal_u128(out, magnitude);
        proof {
            lemma_decimal_ascii(magnitude as nat);
            lemma_append_ascii(mid, decimal(magnitude as nat));
        }
    } else {
        push_str(out, "c");
        let ghost mid = out@;
        push_decimal_u128(out, offset as u128);
        proof {
            lemma_decimal_ascii(offset as nat);
            lemma_append_ascii(mid, decimal(offset as nat));
        }
    }
}

/// A line break.
pub open spec fn nl() -> Seq<u8> {
    seq![10u8]
}

fn push_newline(out: &mut Vec<u8>)
    requires
        valid_utf8(old(out)@),
    ensures
        final(out)@ == old(out)@ + nl(),
        valid_utf8(final(out)@),
{
    push_ascii(out, 10);
    assert(out@ =~= old(out)@ + nl());
}

/// Four spaces per level.
pub open spec fn indent(depth: nat) -> Seq<u8> {
    Seq::new(4 * depth, |_i: int| 32u8)
}

/// The statements one op becomes, at pointer `c` and nesting `depth`.
pub open spec fn emit_op(op: Ir, c: int, depth: nat) -> Seq<u8>
    decreases op,
{
    match op {
        Ir::Add { offset, delta } => {
            let d = delta as int % 256;
            indent(depth) + name(sat(c + offset)) + adjust(d) + decimal(magnitude(d)) + ";".spec_bytes()
                + nl()
        },
        Ir::Store { offset, value } => indent(depth) + name(sat(c + offset)) + " = ".spec_bytes()
            + decimal(value as nat) + ";".spec_bytes() + nl(),
        Ir::Input { offset } => indent(depth) + name(sat(c + offset)) + " = getc();".spec_bytes() + nl(),
        Ir::Output { offset } => indent(depth) + "putc(".spec_bytes() + name(sat(c + offset))
            + ");".spec_bytes() + nl(),
        Ir::AddMul { terms } => terms_text(terms@, c, depth) + indent(depth) + name(c)
            + " = 0;".spec_bytes() + nl(),
        Ir::Loop(body) => indent(depth) + "while ".spec_bytes() + name(c) + " != 0 {".spec_bytes() + nl()
            + emit(body@, c, deeper(depth)) + indent(depth) + "}".spec_bytes() + nl(),
        _ => seq![],
    }
}

/// A byte delta in `0..256` reads as an addition up to 128 and as a
/// subtraction beyond; both wrap to the same byte.
pub open spec fn adjust(d: int) -> Seq<u8> {
    if d <= 128 {
        " += ".spec_bytes()
    } else {
        " -= ".spec_bytes()
    }
}

/// The amount shown for a byte delta in `0..256`.
pub open spec fn magnitude(d: int) -> nat {
    if d <= 128 {
        d as nat
    } else {
        (256 - d) as nat
    }
}

/// The statement for one transfer term: the source added or subtracted,
/// scaled by the factor when it is not one.
pub open spec fn term_text(term: (i64, i32), c: int, depth: nat) -> Seq<u8> {
    let target = name(sat(c + term.0));
    let source = name(c);
    let f = term.1 as int % 256;
    indent(depth) + target + if f == 1 {
        " += ".spec_bytes() + source + ";".spec_bytes() + nl()
    } else if f == 255 {
        " -= ".spec_bytes() + source + ";".spec_bytes() + nl()
    } else if f <= 128 {
        " += ".spec_bytes() + source + " * ".spec_bytes() + decimal(f as nat) + ";".spec_bytes() + nl()
    } else {
        " -= ".spec_bytes() + source + " * ".spec_bytes() + decimal((256 - f) as nat)
            + ";".spec_bytes() + nl()
    }
}

/// A Cranium compound assignment as lifted code writes it:
/// `target += source;`, `target -= source;`, or either with `* k` after the
/// source.
pub open spec fn assignment_text(depth: nat, target: Seq<u8>, subtract: bool, source: Seq<u8>, scale: Option<nat>) -> Seq<
    u8,
> {
    indent(depth) + target + (if subtract {
        " -= ".spec_bytes()
    } else {
        " += ".spec_bytes()
    }) + source + (match scale {
        Some(k) => " * ".spec_bytes() + decimal(k),
        None => Seq::<u8>::empty(),
    }) + ";".spec_bytes() + nl()
}

/// How many times the source such an assignment adds to the target: the
/// scale, one when there is none, negated for `-=`.
pub open spec fn assignment_factor(subtract: bool, scale: Option<nat>) -> int {
    let k = match scale {
        Some(k) => k as int,
        None => 1,
    };
    if subtract {
        -k
    } else {
        k
    }
}

/// The statement lifted for a transfer term `(offset, factor)` at pointer
/// `c` adds the cell `c` times `factor`, modulo 256, to the cell `offset`
/// away: it assigns to that cell from cell `c`, and its sign and scale
/// multiply to the factor modulo 256.
pub proof fn lemma_term_adds_source_times_factor(term: (i64, i32), c: int, depth: nat)
    ensures
        exists|subtract: bool, scale: Option<nat>|
            #![trigger assignment_text(depth, name(sat(c + term.0)), subtract, name(c), scale)]
            term_text(term, c, depth) == assignment_text(depth, name(sat(c + term.0)), subtract, name(c), scale)
                && (assignment_factor(subtract, scale) - term.1) % 256 == 0,
{
    let byte = term.1 as int % 256;
    let target = name(sat(c + term.0));
    let source = name(c);
    if byte == 1 {
        assert(term_text(term, c, depth) =~= assignment_text(depth, target, false, source, None));
        assert((assignment_factor(false, None) - term.1) % 256 == 0);
    } else if byte == 255 {
        assert(term_text(term, c, depth) =~= assignment_text(depth, target, true, source, None));
        assert((assignment_factor(true, None) - term.1) % 256 == 0);
    } else if byte <= 128 {
        assert(term_text(term, c, depth) =~= assignment_text(depth, target, false, source, Some(byte as nat)));
        assert((assignment_factor(false, Some(byte as nat)) - term.1) % 256 == 0);
    } else {
        assert(term_text(term, c, depth) =~= assignment_text(depth, target, true, source, Some((256 - byte) as nat)));
        assert((assignment_factor(true, Some((256 - byte) as nat)) - term.1) % 256 == 0);
    }
}

/// A Cranium statement adding a constant to a cell, as lifted code writes
/// it: `target += k;` or `target -= k;`.
pub open spec fn constant_assignment_text(depth: nat, target: Seq<u8>, subtract: bool, k: nat) -> Seq<u8> {
    indent(depth) + target + (if subtract {
        " -= ".spec_bytes()
    } else {
        " += ".spec_bytes()
    }) + decimal(k) + ";".spec_bytes() + nl()
}

/// The statement lifted for an addition `Add { offset, delta }` at pointer
/// `c` adds `delta` modulo 256 to the cell `offset` away: its sign and
/// constant give `delta` modulo 256.
pub proof fn lemma_add_statement_adds_delta(offset: i64, delta: i32, c: int, depth: nat)
    ensures
        exists|subtract: bool, k: nat|
            #![trigger constant_assignment_text(depth, name(sat(c + offset)), subtract, k)]
            emit_op(Ir::Add { offset, delta }, c, depth) == constant_assignment_text(
                depth,
                name(sat(c + offset)),
                subtract,
                k,
            ) && ((if subtract {
                -k
            } else {
                k as int
            }) - delta) % 256 == 0,
{
    let byte = delta as int % 256;
    let target = name(sat(c + offset));
    if byte <= 128 {
        assert(emit_op(Ir::Add { offset, delta }, c, depth) =~= constant_assignment_text(depth, target, false, byte as nat));
    } else {
        assert(emit_op(Ir::Add { offset, delta }, c, depth) =~= constant_assignment_text(
            depth,
            target,
            true,
            (256 - byte) as nat,
        ));
    }
}

pub open spec fn terms_text(terms: Seq<(i64, i32)>, c: int, depth: nat) -> Seq<u8>
    decreases terms.len(),
{
    if terms.len() == 0 {
        seq![]
    } else {
        terms_text(terms.drop_last(), c, depth) + term_text(terms.last(), c, depth)
    }
}

/// The statements a block becomes.
pub open spec fn emit(ops: Seq<Ir>, c: int, depth: nat) -> Seq<u8>
    decreases ops,
{
    if ops.len() == 0 {
        seq![]
    } else {
        emit(ops.drop_last(), c, depth) + emit_op(
            ops.last(),
            cursor_after(ops.drop_last(), c),
            depth,
        )
    }
}

/// One more level of nesting, saturating at the widest indentation.
pub open spec fn deeper(depth: nat) -> nat {
    if depth + 1 > usize::MAX {
        depth
    } else {
        depth + 1
    }
}

/// How many statements one op becomes.
pub open spec fn op_statements(op: Ir) -> nat
    decreases op,
{
    match op {
        Ir::Add { .. } | Ir::Store { .. } | Ir::Input { .. } | Ir::Output { .. } => 1,
        Ir::AddMul { terms } => terms@.len() + 1,
        Ir::Loop(body) => statements(body@) + 2,
        _ => 0,
    }
}

/// How many statements a block becomes.
pub open spec fn statements(ops: Seq<Ir>) -> nat
    decreases ops,
{
    if ops.len() == 0 {
        0
    } else {
        statements(ops.drop_last()) + op_statements(ops.last())
    }
}

proof fn lemma_emit_step(ops: Seq<Ir>, k: int, c: int, depth: nat)
    requires
        0 <= k < ops.len(),
    ensures
        emit(ops.take(k + 1), c, depth) == emit(ops.take(k), c, depth) + emit_op(
            ops[k],
            cursor_after(ops.take(k), c),
            depth,
        ),
        statements(ops.take(k + 1)) == statements(ops.take(k)) + op_statements(ops[k]),
        cursor_after(ops.take(k + 1), c) == match ops[k] {
            Ir::Move(step) => sat(cursor_after(ops.take(k), c) + step),
            _ => cursor_after(ops.take(k), c),
        },
{
    lemma_take_step(ops, k);
    let t = ops.take(k + 1);
    assert(t.len() > 0);
    assert(emit(t, c, depth) == emit(t.drop_last(), c, depth) + emit_op(t.last(), cursor_after(t.drop_last(), c), depth));
}

struct Emit {
    out: Vec<u8>,
    statements: usize,
}

fn push_indent(out: &mut Vec<u8>, depth: usize)
    requires
        valid_utf8(old(out)@),
    ensures
        final(out)@ == old(out)@ + indent(depth as nat),
        valid_utf8(final(out)@),
{
    let ghost before = out@;
    let mut i: usize = 0;
    while i < depth
        invariant
            i <= depth,
            out@ == before + Seq::new(4 * i as nat, |_i: int| 32u8),
            valid_utf8(out@),
        decreases depth - i,
    {
        push_ascii(out, 32);
        push_ascii(out, 32);
        push_ascii(out, 32);
        push_ascii(out, 32);
        proof {
            assert(out@ =~= before + Seq::new(4 * (i + 1) as nat, |_i: int| 32u8));
        }
        i += 1;
    }
}

proof fn lemma_decimal_valid(prefix: Seq<u8>, n: nat)
    requires
        valid_utf8(prefix),
    ensures
        valid_utf8(prefix + decimal(n)),
{
    lemma_decimal_ascii(n);
    lemma_append_ascii(prefix, decimal(n));
}

impl Emit {
    spec fn ok(&self) -> bool {
        &&& valid_utf8(self.out@)
        &&& self.statements <= self.out@.len()
    }

    /// End the current statement's line and count it.
    #[verifier::spinoff_prover]
    fn end_line(&mut self)
        requires
            valid_utf8(old(self).out@),
            old(self).statements <= old(self).out@.len(),
        ensures
            final(self).ok(),
            final(self).out@ == old(self).out@ + nl(),
            final(self).statements == old(self).statements + 1,
    {
        push_newline(&mut self.out);
        let n = self.out.len();
        self.statements = self.statements + 1;
    }

    /// The source part of a transfer term, from the operator on.
    #[verifier::rlimit(50)]
    #[verifier::spinoff_prover]
    fn term_rest(&mut self, f: i32, c: i128)
        requires
            old(self).ok(),
            0 <= f < 256,
        ensures
            final(self).ok(),
            final(self).out@ == old(self).out@ + if f == 1 {
                " += ".spec_bytes() + name(c as int) + ";".spec_bytes() + nl()
            } else if f == 255 {
                " -= ".spec_bytes() + name(c as int) + ";".spec_bytes() + nl()
            } else if f <= 128 {
                " += ".spec_bytes() + name(c as int) + " * ".spec_bytes() + decimal(f as nat)
                    + ";".spec_bytes() + nl()
            } else {
                " -= ".spec_bytes() + name(c as int) + " * ".spec_bytes() + decimal((256 - f) as nat)
                    + ";".spec_bytes() + nl()
            },
            final(self).statements == old(self).statements + 1,
    {
        if f == 1 {
            push_str(&mut self.out, " += ");
        } else if f == 255 {
            push_str(&mut self.out, " -= ");
        } else if f <= 128 {
            push_str(&mut self.out, " += ");
        } else {
            push_str(&mut self.out, " -= ");
        }
        push_name(&mut self.out, c);
        if f != 1 && f != 255 {
            push_str(&mut self.out, " * ");
            let ghost mid = self.out@;
            let shown: u64 = if f <= 128 { f as u64 } else { (256 - f) as u64 };
            push_decimal(&mut self.out, shown);
            proof {
                lemma_decimal_valid(mid, shown as nat);
            }
        }
        push_str(&mut self.out, ";");
        self.end_line();
    }

    #[verifier::spinoff_prover]
    fn term(&mut self, term: (i64, i32), c: i128, depth: usize)
        requires
            old(self).ok(),
        ensures
            final(self).ok(),
            final(self).out@ == old(self).out@ + term_text(term, c as int, depth as nat),
            final(self).statements == old(self).statements + 1,
    {
        let (offset, factor) = term;
        push_indent(&mut self.out, depth);
        push_name(&mut self.out, sat_add(c, offset));
        let f = bf::wrap_byte(factor);
        self.term_rest(f, c);
    }

    #[verifier::spinoff_prover]
    fn add(&mut self, offset: i64, delta: i32, c: i128, depth: usize)
        requires
            old(self).ok(),
        ensures
            final(self).ok(),
            final(self).out@ == old(self).out@ + emit_op(Ir::Add { offset, delta }, c as int, depth as nat),
            final(self).statements == old(self).statements + 1,
    {
        let ghost start = self.out@;
        push_indent(&mut self.out, depth);
        push_name(&mut self.out, sat_add(c, offset));
        let d = bf::wrap_byte(delta);
        let amount: u64 = if d <= 128 {
            push_str(&mut self.out, " += ");
            d as u64
        } else {
            push_str(&mut self.out, " -= ");
            (256 - d) as u64
        };
        let ghost mid = self.out@;
        push_decimal(&mut self.out, amount);
        proof {
            lemma_decimal_valid(mid, amount as nat);
        }
        push_str(&mut self.out, ";");
        self.end_line();
        proof {
            assert(self.out@ =~= start + emit_op(Ir::Add { offset, delta }, c as int, depth as nat));
        }
    }

    #[verifier::spinoff_prover]
    fn store(&mut self, offset: i64, value: u8, c: i128, depth: usize)
        requires
            old(self).ok(),
        ensures
            final(self).ok(),
            final(self).out@ == old(self).out@ + emit_op(Ir::Store { offset, value }, c as int, depth as nat),
            final(self).statements == old(self).statements + 1,
    {
        let ghost start = self.out@;
        push_indent(&mut self.out, depth);
        push_name(&mut self.out, sat_add(c, offset));
        push_str(&mut self.out, " = ");
        let ghost mid = self.out@;
        push_decimal(&mut self.out, value as u64);
        proof {
            lemma_decimal_valid(mid, value as nat);
        }
        push_str(&mut self.out, ";");
        self.end_line();
        proof {
            assert(self.out@ =~= start + emit_op(Ir::Store { offset, value }, c as int, depth as nat));
        }
    }

    #[verifier::spinoff_prover]
    fn input(&mut self, offset: i64, c: i128, depth: usize)
        requires
            old(self).ok(),
        ensures
            final(self).ok(),
            final(self).out@ == old(self).out@ + emit_op(Ir::Input { offset }, c as int, depth as nat),
            final(self).statements == old(self).statements + 1,
    {
        push_indent(&mut self.out, depth);
        push_name(&mut self.out, sat_add(c, offset));
        push_str(&mut self.out, " = getc();");
        self.end_line();
    }

    #[verifier::spinoff_prover]
    fn output(&mut self, offset: i64, c: i128, depth: usize)
        requires
            old(self).ok(),
        ensures
            final(self).ok(),
            final(self).out@ == old(self).out@ + emit_op(Ir::Output { offset }, c as int, depth as nat),
            final(self).statements == old(self).statements + 1,
    {
        push_indent(&mut self.out, depth);
        push_str(&mut self.out, "putc(");
        push_name(&mut self.out, sat_add(c, offset));
        push_str(&mut self.out, ");");
        self.end_line();
    }

    #[verifier::spinoff_prover]
    fn add_mul(&mut self, terms: &Vec<(i64, i32)>, c: i128, depth: usize)
        requires
            old(self).ok(),
        ensures
            final(self).ok(),
            final(self).out@ == old(self).out@ + terms_text(terms@, c as int, depth as nat) + indent(
                depth as nat,
            ) + name(c as int) + " = 0;".spec_bytes() + nl(),
            final(self).statements == old(self).statements + terms@.len() + 1,
    {
        let mut t: usize = 0;
        let ghost start = self.out@;
        let ghost count0 = self.statements;
        proof {
            assert(terms@.take(0) =~= seq![]);
        }
        while t < terms.len()
            invariant
                t <= terms@.len(),
                self.ok(),
                self.out@ == start + terms_text(terms@.take(t as int), c as int, depth as nat),
                self.statements == count0 + t,
            decreases terms@.len() - t,
        {
            proof {
                assert(terms@.take(t + 1).drop_last() =~= terms@.take(t as int));
            }
            self.term(terms[t], c, depth);
            t += 1;
            proof {
                assert(self.out@ =~= start + terms_text(terms@.take(t as int), c as int, depth as nat));
            }
        }
        proof {
            assert(terms@.take(t as int) =~= terms@);
        }
        push_indent(&mut self.out, depth);
        push_name(&mut self.out, c);
        push_str(&mut self.out, " = 0;");
        self.end_line();
        proof {
            assert(self.out@ =~= start + terms_text(terms@, c as int, depth as nat) + indent(
                depth as nat,
            ) + name(c as int) + " = 0;".spec_bytes() + nl());
        }
    }

    #[verifier::rlimit(60)]
    #[verifier::spinoff_prover]
    fn op(&mut self, op: &Ir, c: i128, depth: usize)
        requires
            old(self).ok(),
        ensures
            final(self).ok(),
            final(self).out@ == old(self).out@ + emit_op(*op, c as int, depth as nat),
            final(self).statements == old(self).statements + op_statements(*op),
        decreases *op, 0int,
    {
        match op {
            Ir::Add { offset, delta } => self.add(*offset, *delta, c, depth),
            Ir::Store { offset, value } => self.store(*offset, *value, c, depth),
            Ir::Input { offset } => self.input(*offset, c, depth),
            Ir::Output { offset } => self.output(*offset, c, depth),
            Ir::AddMul { terms } => {
                let ghost start = self.out@;
                self.add_mul(terms, c, depth);
                proof {
                    assert(self.out@ =~= start + emit_op(*op, c as int, depth as nat));
                }
            },
            Ir::Loop(body) => {
                proof {
                    assert(decreases_to!(*op => *body));
                }
                self.while_loop(body, c, depth);
            },
            _ => {
                assert(self.out@ =~= old(self).out@ + emit_op(*op, c as int, depth as nat));
            },
        }
    }

    #[verifier::rlimit(50)]
    #[verifier::spinoff_prover]
    fn while_loop(&mut self, body: &Vec<Ir>, c: i128, depth: usize)
        requires
            old(self).ok(),
        ensures
            final(self).ok(),
            final(self).out@ == old(self).out@ + emit_op(Ir::Loop(*body), c as int, depth as nat),
            final(self).statements == old(self).statements + op_statements(Ir::Loop(*body)),
        decreases *body, 0int,
    {
        let ghost start = self.out@;
        push_indent(&mut self.out, depth);
        push_str(&mut self.out, "while ");
        push_name(&mut self.out, c);
        push_str(&mut self.out, " != 0 {");
        self.end_line();
        let inner = if depth < usize::MAX {
            depth + 1
        } else {
            depth
        };
        proof {
            assert(decreases_to!(*body => body@));
        }
        self.block(body.as_slice(), c, inner);
        push_indent(&mut self.out, depth);
        push_str(&mut self.out, "}");
        self.end_line();
        proof {
            assert(self.out@ =~= start + emit_op(Ir::Loop(*body), c as int, depth as nat));
        }
    }

    #[verifier::loop_isolation(false)]
    #[verifier::spinoff_prover]
    fn block(&mut self, block: &[Ir], cursor: i128, depth: usize)
        requires
            old(self).ok(),
        ensures
            final(self).ok(),
            final(self).out@ == old(self).out@ + emit(block@, cursor as int, depth as nat),
            final(self).statements == old(self).statements + statements(block@),
        decreases block@, 1int,
    {
        let mut c = cursor;
        let mut k: usize = 0;
        let ghost start = self.out@;
        let ghost count0 = self.statements;
        proof {
            assert(block@.take(0) =~= seq![]);
        }
        while k < block.len()
            invariant
                k <= block@.len(),
                self.ok(),
                c == cursor_after(block@.take(k as int), cursor as int),
                self.out@ == start + emit(block@.take(k as int), cursor as int, depth as nat),
                self.statements == count0 + statements(block@.take(k as int)),
            decreases block@.len() - k,
        {
            proof {
                lemma_emit_step(block@, k as int, cursor as int, depth as nat);
                assert(decreases_to!(block@ => block@[k as int]));
            }
            let ghost out_k = self.out@;
            if let Ir::Move(step) = &block[k] {
                c = sat_add(c, *step);
            } else {
                self.op(&block[k], c, depth);
            }
            k += 1;
            proof {
                assert(self.out@ =~= start + emit(block@.take(k as int), cursor as int, depth as nat));
            }
        }
        proof {
            assert(block@.take(k as int) =~= block@);
        }
    }
}


// ----- The whole program -----

/// "s" after a count other than one.
pub open spec fn plural(n: nat) -> Seq<u8> {
    if n == 1 {
        seq![]
    } else {
        "s".spec_bytes()
    }
}

/// `prefix` followed by the comment block at the top of a lifted program.
pub open spec fn header(prefix: Seq<u8>, label: Seq<u8>, cells: nat, statements: nat) -> Seq<u8> {
    prefix + "// Lifted from ".spec_bytes() + label
        + " by trepan.\n//\n// The data pointer was known at every point in this program, so its ".spec_bytes()
        + decimal(cells) + " tape\n// cell".spec_bytes() + plural(cells) + " became variable".spec_bytes()
        + plural(cells) + HEADER_MIDDLE.spec_bytes() + decimal(statements) + HEADER_END.spec_bytes()
}

/// The header text between the plural and the statement count.
pub const HEADER_MIDDLE: &'static str = " and there is no tape array. Brainfuck's wrapping\n// byte arithmetic is exactly Cranium's `byte`, so that much carries over\n// unchanged. ";

/// The header text after the statement count.
pub const HEADER_END: &'static str = " statements; the names are tape offsets, because\n// Brainfuck kept none of its own.\n//\n// `,` became `getc()`, which reads 0 at end of input. Brainfuck runtimes\n// disagree here \u{2014} lobe stores 0, hypothalamus leaves the cell alone \u{2014} so a\n// program that reads past the end of its input may not agree with the\n// original.\n\n";

/// `prefix` followed by one `let` per cell, in order.
pub open spec fn declarations(prefix: Seq<u8>, cells: Seq<i128>) -> Seq<u8>
    decreases cells.len(),
{
    if cells.len() == 0 {
        prefix
    } else {
        declarations(prefix, cells.drop_last()) + "let ".spec_bytes() + name(cells.last() as int)
            + " = 0;".spec_bytes() + nl()
    }
}

/// The complete Cranium text of a lifted program.
pub open spec fn lifted_text(label: Seq<u8>, cells: Seq<i128>, body: Seq<u8>, statements: nat) -> Seq<u8> {
    let declared = declarations(header(seq![], label, cells.len(), statements), cells);
    let spaced = if cells.len() == 0 {
        declared
    } else {
        declared + nl()
    };
    spaced + "fn main() {".spec_bytes() + nl() + body + "}".spec_bytes() + nl()
}

/// What lifting the optimized program `code` gives.
pub open spec fn lifts_to(code: Seq<Ir>, label: Seq<u8>, r: Result<Lifted, LiftError>) -> bool {
    match spec_check(code) {
        Err(e) => r == Err::<Lifted, LiftError>(e),
        Ok(()) => match r {
            Ok(l) => exists|cells: Seq<i128>|
                {
                    &&& increasing(cells)
                    &&& cell_set(cells) == touched(code, 0)
                    &&& l.cells == cells.len()
                    &&& l.statements == statements(code)
                    &&& string_bytes(l.source) == lifted_text(label, cells, emit(code, 0, 1), statements(code))
                },
            Err(_) => false,
        },
    }
}

proof fn lemma_check_not_syntax(ops: Seq<Ir>)
    ensures
        spec_check(ops) matches Err(e) ==> !(e is Syntax),
    decreases ops,
{
    if ops.len() > 0 {
        lemma_check_not_syntax(ops.drop_last());
        if let Ir::Loop(body) = ops.last() {
            assert(decreases_to!(ops => ops.last()));
            lemma_check_not_syntax(body@);
        }
    }
}

/// Whether `e` is the error the Brainfuck parser reports for `source`.
pub open spec fn syntax_error_of(source: Seq<u8>, e: SyntaxError) -> bool {
    match e {
        SyntaxError::UnmatchedClose(pos) => first_unmatched_close(source, pos.byte as int) && pos
            == position_at(source, pos.byte as int),
        SyntaxError::UnmatchedOpen(pos) => never_negative(source) && depth(source) > 0
            && last_unmatched_open(source, pos.byte as int) && pos == position_at(source, pos.byte as int),
    }
}

fn write_header(out: &mut Vec<u8>, label: &str, cells: usize, statements: usize)
    requires
        valid_utf8(old(out)@),
    ensures
        final(out)@ == header(old(out)@, label.spec_bytes(), cells as nat, statements as nat),
        valid_utf8(final(out)@),
{
    let ghost start = out@;
    push_str(out, "// Lifted from ");
    push_str(out, label);
    push_str(out, " by trepan.\n//\n// The data pointer was known at every point in this program, so its ");
    let ghost mid = out@;
    push_decimal(out, cells as u64);
    proof {
        lemma_decimal_valid(mid, cells as nat);
    }
    push_str(out, " tape\n// cell");
    if cells != 1 {
        push_str(out, "s");
    }
    push_str(out, " became variable");
    if cells != 1 {
        push_str(out, "s");
    }
    push_str(out, HEADER_MIDDLE);
    let ghost mid2 = out@;
    push_decimal(out, statements as u64);
    proof {
        lemma_decimal_valid(mid2, statements as nat);
    }
    push_str(out, HEADER_END);
}

/// Rewrite Brainfuck `source` as Cranium, naming `label` in the header.
///
/// A source that does not parse gives [`LiftError::Syntax`] with the parser's
/// error. Otherwise the optimized program is lifted: the first scan, or loop
/// that does not bring the pointer back, in program order gives its error;
/// anything else becomes a program with one variable per touched cell, declared
/// in increasing order, and one statement per emitted line of `main`.
pub fn lift(source: &[u8], label: &str) -> (r: Result<Lifted, LiftError>)
    requires
        source@.len() <= isize::MAX,
    ensures
        match r {
            Err(LiftError::Syntax(e)) => syntax_error_of(source@, e),
            _ => never_negative(source@) && depth(source@) == 0 && exists|code: Seq<Ir>|
                ir_block_ok(code) && #[trigger] lifts_to(code, label.spec_bytes(), r),
        },
        no_brackets(source@) ==> exists|code: Seq<Ir>|
            #[trigger] lifts_to(code, label.spec_bytes(), r) && forall|m: Machine|
                #[trigger] ir_run(m, code) == command_run(m, source@),
{
    let ops = match bf::parse(source) {
        Ok(ops) => ops,
        Err(e) => return Err(LiftError::Syntax(e)),
    };
    proof {
        lemma_normalized_travel_fits(ops@);
        if no_brackets(source@) {
            assert forall|m: Machine| #[trigger] bf_run(m, ops@) == command_run(m, source@) by {
                lemma_folding_keeps_meaning(source@, m);
            }
            lemma_folding_keeps_meaning(source@, Machine { tape: |j: int| 0u8, ptr: 0, input: seq![], output: seq![] });
        }
    }
    let code = ir::optimize(ops.as_slice());
    proof {
        if no_brackets(source@) {
            assert forall|m: Machine| #[trigger] ir_run(m, code@) == command_run(m, source@) by {
                assert(bf_run(m, ops@) == command_run(m, source@));
            }
        }
    }
    match check_static(code.as_slice()) {
        Err(e) => {
            proof {
                lemma_check_not_syntax(code@);
                assert(lifts_to(code@, label.spec_bytes(), Err(e)));
            }
            return Err(e);
        },
        Ok(()) => {},
    }
    let mut cells: Vec<i128> = Vec::new();
    proof {
        assert(cell_set(cells@) =~= Set::empty());
    }
    collect(code.as_slice(), 0, &mut cells);
    proof {
        assert(cell_set(cells@) =~= touched(code@, 0));
    }
    let mut emitter = Emit { out: Vec::new(), statements: 0 };
    proof {
        assert(valid_utf8(seq![]));
    }
    emitter.block(code.as_slice(), 0, 1);
    let mut out: Vec<u8> = Vec::new();
    write_header(&mut out, label, cells.len(), emitter.statements);
    let ghost after_header = out@;
    let mut i: usize = 0;
    proof {
        assert(cells@.take(0) =~= seq![]);
    }
    while i < cells.len()
        invariant
            i <= cells@.len(),
            valid_utf8(out@),
            out@ == declarations(after_header, cells@.take(i as int)),
        decreases cells@.len() - i,
    {
        let ghost before = out@;
        push_str(&mut out, "let ");
        push_name(&mut out, cells[i]);
        push_str(&mut out, " = 0;");
        push_newline(&mut out);
        proof {
            assert(cells@.take(i + 1).drop_last() =~= cells@.take(i as int));
        }
        i += 1;

    }
    proof {
        assert(cells@.take(i as int) =~= cells@);
    }
    if cells.len() > 0 {
        push_newline(&mut out);
    }
    push_str(&mut out, "fn main() {");
    push_newline(&mut out);
    let ghost before_body = out@;
    push_all(&mut out, emitter.out.as_slice());
    proof {
        valid_utf8_concat(before_body, emitter.out@);
    }
    push_str(&mut out, "}");
    push_newline(&mut out);
    let ghost text = out@;
    let count = cells.len();
    let lifted = Lifted { source: string_from_utf8(out), cells: count, statements: emitter.statements };
    proof {
        assert(text =~= lifted_text(label.spec_bytes(), cells@, emit(code@, 0, 1), statements(code@)));
        assert(lifts_to(code@, label.spec_bytes(), Ok(lifted)));
    }
    Ok(lifted)
}

} // verus!
