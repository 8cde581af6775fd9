//! Brainfuck parsing and local normalization.
//!
//! Source bytes become a tree of [`Op`] values. Non-command bytes are ignored,
//! bracket nesting is validated, and small local rewrites keep the program's
//! meaning while shrinking it: consecutive additions fold modulo 256,
//! consecutive pointer moves fold, folded runs that cancel out disappear, and
//! the clear loops `[-]` and `[+]` become [`Op::Clear`].

use vstd::prelude::*;
use crate::lobe::parser::{depth, depth_before, never_negative, bracket_delta};

verus! {

broadcast use vstd::seq_lib::group_seq_properties;

/// A normalized Brainfuck operation.
#[derive(Debug, PartialEq, Eq)]
pub enum Op {
    /// Add `delta` to the current cell, wrapping modulo 256. The parser stores
    /// deltas in `1..=255`, so `-` becomes `Add(255)`.
    Add(i32),
    /// Move the data pointer by `delta` cells.
    Move(i64),
    /// Read one byte into the current cell.
    Input,
    /// Write the current cell as one byte.
    Output,
    /// Execute `body` while the current cell is nonzero.
    Loop(Vec<Op>),
    /// Set the current cell to zero.
    Clear,
}

/// Byte and line/column location of a source character.
#[derive(Debug, Clone, Copy, PartialEq, Eq, Structural)]
pub struct SourcePosition {
    /// Zero-based byte offset into the source.
    pub byte: usize,
    /// One-based line number.
    pub line: usize,
    /// One-based column number within the line.
    pub column: usize,
}

/// Returned when Brainfuck brackets do not match.
#[derive(Debug, Clone, Copy, PartialEq, Eq, Structural)]
pub enum SyntaxError {
    /// A `[` was opened but never closed.
    UnmatchedOpen(SourcePosition),
    /// A `]` appeared without an earlier `[`.
    UnmatchedClose(SourcePosition),
}

/// How a bracket error reads, as UTF-8.
pub open spec fn syntax_error_bytes(e: SyntaxError) -> Seq<u8> {
    let (bracket, p) = match e {
        SyntaxError::UnmatchedOpen(p) => ("unmatched '[' at line "@, p),
        SyntaxError::UnmatchedClose(p) => ("unmatched ']' at line "@, p),
    };
    vstd::utf8::encode_utf8(bracket) + crate::bytes::decimal(p.line as nat) + vstd::utf8::encode_utf8(
        ", column "@,
    ) + crate::bytes::decimal(p.column as nat)
}

impl SyntaxError {
    /// The error as text, such as "unmatched '[' at line 3, column 7".
    pub fn text(&self) -> (r: String)
        ensures
            vstd::utf8::encode_utf8(r@) == syntax_error_bytes(*self),
    {
        let mut out: Vec<u8> = Vec::new();
        proof {
            crate::bytes::lemma_ascii_valid_utf8(out@);
        }
        let p = match self {
            SyntaxError::UnmatchedOpen(p) => {
                crate::bytes::push_str(&mut out, "unmatched '[' at line ");
                p
            },
            SyntaxError::UnmatchedClose(p) => {
                crate::bytes::push_str(&mut out, "unmatched ']' at line ");
                p
            },
        };
        crate::bytes::push_decimal_text(&mut out, p.line as u64);
        crate::bytes::push_str(&mut out, ", column ");
        crate::bytes::push_decimal_text(&mut out, p.column as u64);
        crate::bytes::string_from_utf8(out)
    }
}

/// One-based line and column just after the bytes `s`.
pub open spec fn line_col(s: Seq<u8>) -> (int, int)
    decreases s.len(),
{
    if s.len() == 0 {
        (1, 1)
    } else {
        let (line, column) = line_col(s.drop_last());
        if s.last() == 10u8 {
            (line + 1, 1)
        } else {
            (line, column + 1)
        }
    }
}

/// The position of byte `k` of `s`.
pub open spec fn position_at(s: Seq<u8>, k: int) -> SourcePosition {
    SourcePosition {
        byte: k as usize,
        line: line_col(s.take(k)).0 as usize,
        column: line_col(s.take(k)).1 as usize,
    }
}

/// `s[p]` is the `]` at which the nesting depth first goes negative.
pub open spec fn first_unmatched_close(s: Seq<u8>, p: int) -> bool {
    &&& 0 <= p < s.len()
    &&& depth_before(s, p + 1) < 0
    &&& forall|k: int| 0 <= k <= p ==> #[trigger] depth_before(s, k) >= 0
}

/// `s[p]` is the innermost `[` still open at the end of `s`.
pub open spec fn last_unmatched_open(s: Seq<u8>, p: int) -> bool {
    &&& 0 <= p < s.len()
    &&& s[p] == 91u8
    &&& depth_before(s, p) == depth(s) - 1
    &&& forall|m: int| p < m <= s.len() ==> #[trigger] depth_before(s, m) >= depth(s)
}

/// Whether an op may stand in a normalized block: additions are nonzero
/// bytes, moves are nonzero, and loops hold normalized bodies that are not
/// clear loops.
pub open spec fn op_ok(op: Op) -> bool
    decreases op,
{
    match op {
        Op::Add(d) => 1 <= d <= 255,
        Op::Move(d) => d != 0,
        Op::Loop(body) => normalized(body@) && !is_clear_body(body@),
        _ => true,
    }
}

/// Whether `b` may directly follow `a` in a normalized block: runs of
/// additions and runs of moves are folded, and an addition right before a
/// clear is dead.
pub open spec fn pair_ok(a: Op, b: Op) -> bool {
    !(a is Add && b is Add) && !(a is Move && b is Move) && !(a is Add && b is Clear)
}

/// A block in normal form.
pub open spec fn normalized(ops: Seq<Op>) -> bool
    decreases ops,
{
    if ops.len() == 0 {
        true
    } else {
        &&& travel(ops) <= i64::MAX
        &&& normalized(ops.drop_last())
        &&& op_ok(ops.last())
        &&& (ops.len() >= 2 ==> pair_ok(ops[ops.len() - 2], ops.last()))
    }
}

/// `[-]` and `[+]`.
pub open spec fn is_clear_body(ops: Seq<Op>) -> bool {
    ops.len() == 1 && (ops[0] == Op::Add(1) || ops[0] == Op::Add(255))
}

/// Total distance the moves of a block travel, ignoring loop bodies.
pub open spec fn travel(ops: Seq<Op>) -> int
    decreases ops.len(),
{
    if ops.len() == 0 {
        0
    } else {
        travel(ops.drop_last()) + match ops.last() {
            Op::Move(d) => if d < 0 {
                -d
            } else {
                d as int
            },
            _ => 0,
        }
    }
}

proof fn lemma_travel_nonneg(ops: Seq<Op>)
    ensures
        travel(ops) >= 0,
    decreases ops.len(),
{
    if ops.len() > 0 {
        lemma_travel_nonneg(ops.drop_last());
    }
}

proof fn lemma_push_unfold(ops: Seq<Op>, op: Op)
    ensures
        ops.push(op).drop_last() == ops,
        ops.push(op).last() == op,
        normalized(ops.push(op)) == (travel(ops.push(op)) <= i64::MAX && normalized(ops) && op_ok(op) && (ops.len() >= 1 ==> pair_ok(
            ops.last(),
            op,
        ))),
        travel(ops.push(op)) == travel(ops) + match op {
            Op::Move(d) => if d < 0 {
                -d
            } else {
                d as int
            },
            _ => 0,
        },
{
    assert(ops.push(op).drop_last() =~= ops);
}

/// The last move of a block travels no further than the whole block.
proof fn lemma_last_move_bounded(ops: Seq<Op>)
    requires
        ops.len() > 0,
    ensures
        ops.last() matches Op::Move(d) ==> -travel(ops) <= d <= travel(ops),
        travel(ops.drop_last()) <= travel(ops),
{
    lemma_travel_nonneg(ops.drop_last());
}

/// `ops` with `op` appended the way the normal form asks: an addition folds
/// into a preceding addition modulo 256, a move into a preceding move, and a
/// fold that cancels out disappears; an addition right before a clear is
/// dropped, and a clear right after a clear is not repeated.
pub open spec fn push_spec(ops: Seq<Op>, op: Op) -> Seq<Op> {
    match op {
        Op::Add(delta) => {
            let d = delta % 256;
            if d == 0 {
                ops
            } else if ops.len() > 0 && ops.last() is Add {
                let sum = (ops.last()->Add_0 + d) % 256;
                if sum != 0 {
                    ops.drop_last().push(Op::Add(sum as i32))
                } else {
                    ops.drop_last()
                }
            } else {
                ops.push(Op::Add(d as i32))
            }
        },
        Op::Move(delta) => {
            if delta == 0 {
                ops
            } else if ops.len() > 0 && ops.last() is Move {
                let sum = ops.last()->Move_0 + delta;
                if sum != 0 {
                    ops.drop_last().push(Op::Move(sum as i64))
                } else {
                    ops.drop_last()
                }
            } else {
                ops.push(Op::Move(delta))
            }
        },
        Op::Clear => {
            if ops.len() > 0 && ops.last() is Clear {
                ops
            } else if ops.len() > 0 && ops.last() is Add {
                ops.drop_last().push(Op::Clear)
            } else {
                ops.push(Op::Clear)
            }
        },
        other => ops.push(other),
    }
}

/// The operation a command byte other than a bracket stands for, if any.
pub open spec fn command_op(b: u8) -> Option<Op> {
    if b == 43 {
        Some(Op::Add(1))
    } else if b == 45 {
        Some(Op::Add(-1i32))
    } else if b == 62 {
        Some(Op::Move(1))
    } else if b == 60 {
        Some(Op::Move(-1i64))
    } else if b == 46 {
        Some(Op::Output)
    } else if b == 44 {
        Some(Op::Input)
    } else {
        None
    }
}

/// Source without loops, folded command by command into normal form.
pub open spec fn fold_commands(s: Seq<u8>) -> Seq<Op>
    decreases s.len(),
{
    if s.len() == 0 {
        seq![]
    } else {
        match command_op(s.last()) {
            Some(op) => push_spec(fold_commands(s.drop_last()), op),
            None => fold_commands(s.drop_last()),
        }
    }
}

/// Whether a source holds no bracket.
pub open spec fn no_brackets(s: Seq<u8>) -> bool {
    forall|k: int| 0 <= k < s.len() ==> #[trigger] s[k] != 91u8 && s[k] != 93u8
}

/// Append `op`, folding it into the previous op where the normal form asks.
fn push_op(output: &mut Vec<Op>, op: Op)
    requires
        normalized(old(output)@),
        match op {
            Op::Move(d) => travel(old(output)@) + (if d < 0 {
                -d
            } else {
                d as int
            }) <= i64::MAX,
            Op::Loop(body) => op_ok(op),
            _ => true,
        },
    ensures
        normalized(final(output)@),
        final(output)@ == push_spec(old(output)@, op),
        travel(final(output)@) <= travel(old(output)@) + match op {
            Op::Move(d) => if d < 0 {
                -d
            } else {
                d as int
            },
            _ => 0,
        },
{
    let ghost before = output@;
    proof {
        lemma_travel_nonneg(before);
        if before.len() > 0 {
            lemma_last_move_bounded(before);
            lemma_travel_nonneg(before.drop_last());
            assert(normalized(before.drop_last()) && op_ok(before.last()));
        }
    }
    match op {
        Op::Add(delta) => {
            let d = wrap_byte(delta);
            if d == 0 {
                return;
            }
            let n = output.len();
            if n > 0 {
                if let Op::Add(previous) = &output[n - 1] {
                    let sum: i32 = (*previous + d) % 256;
                    output.pop();
                    if sum != 0 {
                        proof {
                            lemma_push_unfold(output@, Op::Add(sum));
                        }
                        output.push(Op::Add(sum));
                    }
                    return;
                }
            }
            proof {
                lemma_push_unfold(output@, Op::Add(d));
            }
            output.push(Op::Add(d));
        },
        Op::Move(delta) => {
            if delta == 0 {
                return;
            }
            let n = output.len();
            if n > 0 {
                if let Op::Move(previous) = &output[n - 1] {
                    let sum: i64 = *previous + delta;
                    output.pop();
                    if sum != 0 {
                        proof {
                            lemma_push_unfold(output@, Op::Move(sum));
                        }
                        output.push(Op::Move(sum));
                    }
                    return;
                }
            }
            proof {
                lemma_push_unfold(output@, Op::Move(delta));
            }
            output.push(Op::Move(delta));
        },
        Op::Clear => {
            let n = output.len();
            if n > 0 {
                if let Op::Clear = &output[n - 1] {
                    return;
                }
                if let Op::Add(_) = &output[n - 1] {
                    output.pop();
                }
            }
            proof {
                lemma_push_unfold(output@, Op::Clear);
            }
            output.push(Op::Clear);
        },
        other => {
            proof {
                lemma_push_unfold(output@, other);
            }
            output.push(other);
        },
    }
}

/// `delta` modulo 256, in `0..256`.
pub fn wrap_byte(delta: i32) -> (r: i32)
    ensures
        r as int == delta as int % 256,
        0 <= r < 256,
{
    if delta >= 0 {
        delta % 256
    } else {
        let m: i32 = (-(delta + 1)) % 256;
        255 - m
    }
}

fn is_clear_loop(ops: &Vec<Op>) -> (r: bool)
    ensures
        r == is_clear_body(ops@),
{
    if ops.len() != 1 {
        return false;
    }
    match &ops[0] {
        Op::Add(d) => *d == 1 || *d == 255,
        _ => false,
    }
}

/// Normalize a loop body, then turn clear loops into [`Op::Clear`].
fn build_loop(ops: Vec<Op>) -> (r: Op)
    requires
        normalized(ops@),
    ensures
        op_ok(r),
        r is Clear || r is Loop,
    decreases ops@, 1int,
{
    let optimized = optimize(ops);
    if is_clear_loop(&optimized) {
        Op::Clear
    } else {
        Op::Loop(optimized)
    }
}

/// Re-fold a block from scratch, rebuilding every loop in it.
#[verifier::loop_isolation(false)]
fn optimize(ops: Vec<Op>) -> (r: Vec<Op>)
    requires
        normalized(ops@),
    ensures
        normalized(r@),
        travel(r@) <= travel(ops@),
    decreases ops@, 0int,
{
    let ghost orig = ops@;
    let mut ops = ops;
    let mut reversed: Vec<Op> = Vec::new();
    while ops.len() > 0
        invariant
            ops@ == orig.take(ops@.len() as int),
            reversed@.len() + ops@.len() == orig.len(),
            forall|j: int|
                0 <= j < reversed@.len() ==> #[trigger] reversed@[j] == orig[orig.len() - 1 - j],
        decreases ops@.len(),
    {
        let op = ops.pop().unwrap();
        reversed.push(op);
    }
    let mut output: Vec<Op> = Vec::new();
    let ghost mut k: int = 0;
    proof {
        assert(orig.take(0) =~= seq![]);
        lemma_travel_nonneg(orig);
        lemma_normalized_elements(orig);
        if orig.len() > 0 {
            assert(travel(orig) <= i64::MAX);
        }
    }
    while reversed.len() > 0
        invariant
            k + reversed@.len() == orig.len(),
            forall|j: int|
                0 <= j < reversed@.len() ==> #[trigger] reversed@[j] == orig[orig.len() - 1 - j],
            normalized(output@),
            travel(output@) <= travel(orig.take(k)),
            travel(orig) <= i64::MAX,
            forall|j: int| 0 <= j < orig.len() ==> op_ok(#[trigger] orig[j]),
            0 <= k <= orig.len(),
        decreases reversed@.len(),
    {
        let ghost item = orig[k];
        let op = reversed.pop().unwrap();
        assert(op == item);
        proof {
            assert(orig.take(k + 1).drop_last() =~= orig.take(k));
            lemma_travel_prefix(orig, k + 1);
            lemma_travel_nonneg(orig.take(k));
        }
        match op {
            Op::Loop(body) => {
                proof {
                    assert(decreases_to!(orig => orig[k]));
                    assert(decreases_to!(orig[k] => body));
                    assert(decreases_to!(body => body@));
                    assert(decreases_to!(orig => body@));
                    assert(decreases_to!(orig, 0int => body@, 1int));
                    lemma_travel_nonneg(body@);
                }
                let rebuilt = build_loop(body);
                push_op(&mut output, rebuilt);
            },
            other => {
                push_op(&mut output, other);
            },
        }
        proof {
            k = k + 1;
        }
    }
    proof {
        assert(orig.take(k) =~= orig);
    }
    output
}

proof fn lemma_normalized_elements(s: Seq<Op>)
    requires
        normalized(s),
    ensures
        forall|j: int| 0 <= j < s.len() ==> op_ok(#[trigger] s[j]),
        s.len() > 0 ==> travel(s) <= i64::MAX,
    decreases s.len(),
{
    if s.len() > 0 {
        lemma_normalized_elements(s.drop_last());
        assert forall|j: int| 0 <= j < s.len() implies op_ok(#[trigger] s[j]) by {
            if j < s.len() - 1 {
                assert(s[j] == s.drop_last()[j]);
            }
        }
    }
}

proof fn lemma_travel_prefix(s: Seq<Op>, k: int)
    requires
        0 <= k <= s.len(),
    ensures
        travel(s.take(k)) <= travel(s),
    decreases s.len() - k,
{
    if k < s.len() {
        lemma_travel_prefix(s, k + 1);
        assert(s.take(k + 1).drop_last() =~= s.take(k));
        lemma_travel_nonneg(s.take(k + 1));
    } else {
        assert(s.take(k) =~= s);
    }
}

struct Frame {
    opening: SourcePosition,
    ops: Vec<Op>,
}

/// The open loops while parsing the first `i` bytes of `s`.
spec fn frames_ok(s: Seq<u8>, i: int, stack: Seq<Frame>) -> bool {
    forall|f: int|
        0 <= f < stack.len() ==> {
            let p = (#[trigger] stack[f]).opening.byte as int;
            &&& p < i
            &&& s[p] == 91u8
            &&& depth_before(s, p) == f
            &&& stack[f].opening == position_at(s, p)
            &&& normalized(stack[f].ops@)
            &&& travel(stack[f].ops@) <= i
            &&& forall|m: int| p < m <= i ==> #[trigger] depth_before(s, m) > f
        }
}

proof fn lemma_parse_step(s: Seq<u8>, i: int)
    requires
        0 <= i < s.len(),
    ensures
        depth_before(s, i + 1) == depth_before(s, i) + bracket_delta(s[i]),
        line_col(s.take(i + 1)) == (if s[i] == 10u8 {
            (line_col(s.take(i)).0 + 1, 1)
        } else {
            (line_col(s.take(i)).0, line_col(s.take(i)).1 + 1)
        }),
{
    assert(s.take(i + 1).drop_last() =~= s.take(i));
}

proof fn lemma_line_col_bounds(s: Seq<u8>)
    ensures
        1 <= line_col(s).0 <= s.len() + 1,
        1 <= line_col(s).1 <= s.len() + 1,
    decreases s.len(),
{
    if s.len() > 0 {
        lemma_line_col_bounds(s.drop_last());
    }
}

/// Frames other than a popped top survive one more byte.
proof fn lemma_frames_extend(s: Seq<u8>, i: int, stack: Seq<Frame>, keep: int)
    requires
        0 <= i < s.len(),
        0 <= keep <= stack.len(),
        frames_ok(s, i, stack),
        depth_before(s, i + 1) >= keep,
    ensures
        frames_ok(s, i + 1, stack.take(keep)),
{
    let st = stack.take(keep);
    assert forall|f: int| 0 <= f < st.len() implies {
        let p = (#[trigger] st[f]).opening.byte as int;
        &&& p < i + 1
        &&& s[p] == 91u8
        &&& depth_before(s, p) == f
        &&& st[f].opening == position_at(s, p)
        &&& normalized(st[f].ops@)
        &&& travel(st[f].ops@) <= i + 1
        &&& forall|m: int| p < m <= i + 1 ==> #[trigger] depth_before(s, m) > f
    } by {
        assert(st[f] == stack[f]);
        let p = stack[f].opening.byte as int;
        assert forall|m: int| p < m <= i + 1 implies #[trigger] depth_before(s, m) > f by {
            if m <= i {
            } else {
                assert(m == i + 1);
            }
        }
    }
}

/// Parse Brainfuck source into normalized operations.
///
/// Only the eight commands are meaningful; every other byte is a comment.
/// Returned operations are locally optimized: `+++` becomes one
/// [`Op::Add`], `><` disappears, and `[-]` becomes [`Op::Clear`].
///
/// # Errors
///
/// [`SyntaxError::UnmatchedClose`] names the first `]` that closes nothing;
/// [`SyntaxError::UnmatchedOpen`] names the innermost `[` left open.
///
/// Source without loops comes out exactly as its commands folded one by one
/// into normal form ([`fold_commands`]).
pub fn parse(source: &[u8]) -> (r: Result<Vec<Op>, SyntaxError>)
    requires
        source@.len() <= isize::MAX,
    ensures
        no_brackets(source@) ==> (r matches Ok(ops) && ops@ == fold_commands(source@)),
        match r {
            Ok(ops) => never_negative(source@) && depth(source@) == 0 && normalized(ops@),
            Err(SyntaxError::UnmatchedClose(pos)) => first_unmatched_close(source@, pos.byte as int)
                && pos == position_at(source@, pos.byte as int),
            Err(SyntaxError::UnmatchedOpen(pos)) => never_negative(source@) && depth(source@) > 0
                && last_unmatched_open(source@, pos.byte as int) && pos == position_at(
                source@,
                pos.byte as int,
            ),
        },
{
    let ghost s = source@;
    let mut stack: Vec<Frame> = Vec::new();
    let mut current: Vec<Op> = Vec::new();
    let mut line: usize = 1;
    let mut column: usize = 1;
    let mut i: usize = 0;
    proof {
        assert(s.take(0) =~= seq![]);
    }
    while i < source.len()
        invariant
            s == source@,
            s.len() <= isize::MAX,
            s.len() <= i64::MAX,
            i <= s.len(),
            (line as int, column as int) == line_col(s.take(i as int)),
            forall|k: int| 0 <= k <= i ==> #[trigger] depth_before(s, k) >= 0,
            depth_before(s, i as int) == stack@.len(),
            frames_ok(s, i as int, stack@),
            normalized(current@),
            travel(current@) <= i,
            no_brackets(s.take(i as int)) ==> current@ == fold_commands(s.take(i as int)) && stack@.len() == 0,
        decreases s.len() - i,
    {
        let byte = source[i];
        proof {
            assert(s.take(i + 1).drop_last() =~= s.take(i as int));
            if no_brackets(s.take(i + 1)) {
                assert(s.take(i + 1)[i as int] == byte);
                assert forall|k: int| 0 <= k < i implies #[trigger] s.take(i as int)[k] != 91u8 && s.take(i as int)[k]
                    != 93u8 by {
                    assert(s.take(i as int)[k] == s.take(i + 1)[k]);
                }
            }
        }
        let position = SourcePosition { byte: i, line, column };
        proof {
            lemma_line_col_bounds(s.take(i as int));
            assert(s.take(i as int).len() == i);
        }
        assert(line <= i + 1 && column <= i + 1);
        proof {
            lemma_parse_step(s, i as int);
            lemma_line_col_bounds(s.take(i + 1));
            lemma_line_col_bounds(s.take(i as int));
            lemma_travel_nonneg(current@);
            assert(depth_before(s, 0) == 0) by {
                assert(s.take(0) =~= seq![]);
            }
        }
        if byte == 43 {
            push_op(&mut current, Op::Add(1));
        } else if byte == 45 {
            push_op(&mut current, Op::Add(-1));
        } else if byte == 62 {
            push_op(&mut current, Op::Move(1));
        } else if byte == 60 {
            push_op(&mut current, Op::Move(-1));
        } else if byte == 46 {
            push_op(&mut current, Op::Output);
        } else if byte == 44 {
            push_op(&mut current, Op::Input);
        } else if byte == 91 {
            let mut parent: Vec<Op> = Vec::new();
            std::mem::swap(&mut parent, &mut current);
            stack.push(Frame { opening: position, ops: parent });
            proof {
                let st = stack@;
                assert forall|f: int| 0 <= f < st.len() implies {
                    let p = (#[trigger] st[f]).opening.byte as int;
                    &&& p < i + 1
                    &&& s[p] == 91u8
                    &&& depth_before(s, p) == f
                    &&& st[f].opening == position_at(s, p)
                    &&& normalized(st[f].ops@)
                    &&& travel(st[f].ops@) <= i + 1
                    &&& forall|m: int| p < m <= i + 1 ==> #[trigger] depth_before(s, m) > f
                } by {
                    if f < st.len() - 1 {
                        assert(st[f] == st.drop_last()[f]);
                        let p = st[f].opening.byte as int;
                        assert forall|m: int| p < m <= i + 1 implies #[trigger] depth_before(s, m)
                            > f by {
                            if m <= i {
                            } else {
                                assert(m == i + 1);
                            }
                        }
                    } else {
                        assert(st[f].opening.byte == i);
                        assert forall|m: int| i < m <= i + 1 implies #[trigger] depth_before(s, m)
                            > f by {
                            assert(m == i + 1);
                        }
                    }
                }
                assert(Seq::<Op>::empty().len() == 0);
            }
        } else if byte == 93 {
            if stack.len() == 0 {
                proof {
                    assert(depth_before(s, i + 1) < 0);
                }
                return Err(SyntaxError::UnmatchedClose(position));
            }
            let frame = stack.pop().unwrap();
            proof {
                lemma_frames_extend(s, i as int, old_stack_of(stack@, frame), stack@.len() as int);
            }
            let loop_op = build_loop(current);
            current = frame.ops;
            push_op(&mut current, loop_op);
        }
        proof {
            if byte != 91 && byte != 93 {
                lemma_frames_extend(s, i as int, stack@, stack@.len() as int);
                assert(stack@.take(stack@.len() as int) =~= stack@);
            }
        }
        if byte == 10 {
            line = line + 1;
            column = 1;
        } else {
            column = column + 1;
        }
        i = i + 1;
    }
    proof {
        assert(s.take(i as int) =~= s);
    }
    if stack.len() != 0 {
        let frame = stack.pop().unwrap();
        return Err(SyntaxError::UnmatchedOpen(frame.opening));
    }
    Ok(current)
}

spec fn old_stack_of(rest: Seq<Frame>, top: Frame) -> Seq<Frame> {
    rest.push(top)
}

} // verus!
