//! Brainfuck source to bytecode, with bracket matching.

use vstd::prelude::*;
use vstd::string::StringSliceAdditionalSpecFns;
use super::types::{Bytecode, Instr};

verus! {

broadcast use vstd::seq_lib::group_seq_properties;

/// Why a program did not parse.
#[derive(Debug, Clone, PartialEq, Eq, Structural)]
pub enum ParseError {
    /// A `]` appeared with no `[` open.
    UnmatchedClose,
    /// The source ended with this many `[` still open.
    UnmatchedOpen(usize),
}

/// How a parse error reads, as UTF-8.
pub open spec fn parse_error_bytes(e: ParseError) -> Seq<u8> {
    match e {
        ParseError::UnmatchedClose => vstd::utf8::encode_utf8("Unmatched closing bracket"@),
        ParseError::UnmatchedOpen(n) => vstd::utf8::encode_utf8("Unmatched opening brackets: "@)
            + crate::bytes::decimal(n as nat) + vstd::utf8::encode_utf8(" remaining"@),
    }
}

impl ParseError {
    /// The error as text.
    pub fn text(&self) -> (r: String)
        ensures
            vstd::utf8::encode_utf8(r@) == parse_error_bytes(*self),
    {
        let mut out: Vec<u8> = Vec::new();
        proof {
            crate::bytes::lemma_ascii_valid_utf8(out@);
        }
        match self {
            ParseError::UnmatchedClose => {
                crate::bytes::push_str(&mut out, "Unmatched closing bracket");
            },
            ParseError::UnmatchedOpen(n) => {
                crate::bytes::push_str(&mut out, "Unmatched opening brackets: ");
                crate::bytes::push_decimal_text(&mut out, *n as u64);
                crate::bytes::push_str(&mut out, " remaining");
            },
        }
        crate::bytes::string_from_utf8(out)
    }
}

/// The eight bytes Brainfuck gives meaning to.
pub open spec fn is_command(b: u8) -> bool {
    b == 62 || b == 60 || b == 43 || b == 45 || b == 46 || b == 44 || b == 91 || b == 93
}

/// The command bytes of `s`, in order; everything else is a comment.
pub open spec fn commands(s: Seq<u8>) -> Seq<u8>
    decreases s.len(),
{
    if s.len() == 0 {
        seq![]
    } else if is_command(s.last()) {
        commands(s.drop_last()).push(s.last())
    } else {
        commands(s.drop_last())
    }
}

/// How a command changes the bracket nesting depth.
pub open spec fn bracket_delta(b: u8) -> int {
    if b == 91 {
        1
    } else if b == 93 {
        -1
    } else {
        0
    }
}

/// Net nesting depth of a command sequence: `[` count minus `]` count.
pub open spec fn depth(c: Seq<u8>) -> int
    decreases c.len(),
{
    if c.len() == 0 {
        0
    } else {
        depth(c.drop_last()) + bracket_delta(c.last())
    }
}

/// Nesting depth before command `k`.
pub open spec fn depth_before(c: Seq<u8>, k: int) -> int {
    depth(c.take(k))
}

/// Every prefix has a non-negative depth: no `]` closes nothing.
pub open spec fn never_negative(c: Seq<u8>) -> bool {
    forall|k: int| 0 <= k <= c.len() ==> #[trigger] depth_before(c, k) >= 0
}

/// Brackets nest properly.
pub open spec fn balanced(c: Seq<u8>) -> bool {
    never_negative(c) && depth(c) == 0
}

/// `[` at `open` and `]` at `close` are partners: the depth comes back to
/// where it was for the first time just after `close`.
pub open spec fn brackets_match(c: Seq<u8>, open: int, close: int) -> bool {
    &&& 0 <= open < close < c.len()
    &&& c[open] == 91u8
    &&& c[close] == 93u8
    &&& depth_before(c, close + 1) == depth_before(c, open)
    &&& forall|k: int| open < k <= close ==> #[trigger] depth_before(c, k) > depth_before(c, open)
}

/// The error a command sequence with unbalanced brackets is reported with.
pub open spec fn parse_error_of(c: Seq<u8>) -> ParseError {
    if !never_negative(c) {
        ParseError::UnmatchedClose
    } else {
        ParseError::UnmatchedOpen(depth(c) as usize)
    }
}

/// The instruction that command `i` of `c` compiles to.
pub open spec fn compiles_to(c: Seq<u8>, i: int, instr: Instr) -> bool {
    let b = c[i];
    if b == 62 {
        instr == Instr::IncrementPtr
    } else if b == 60 {
        instr == Instr::DecrementPtr
    } else if b == 43 {
        instr == Instr::Increment
    } else if b == 45 {
        instr == Instr::Decrement
    } else if b == 46 {
        instr == Instr::Output
    } else if b == 44 {
        instr == Instr::Input
    } else if b == 91 {
        instr matches Instr::JumpIfZero(t) && brackets_match(c, i, t as int)
    } else {
        instr matches Instr::JumpIfNonZero(o) && brackets_match(c, o as int, i)
    }
}

/// `instrs` is the bytecode for the command sequence `c`.
pub open spec fn compiled(c: Seq<u8>, instrs: Seq<Instr>) -> bool {
    &&& instrs.len() == c.len()
    &&& forall|i: int| 0 <= i < c.len() ==> #[trigger] compiles_to(c, i, instrs[i])
}

proof fn lemma_commands_step(s: Seq<u8>, i: int)
    requires
        0 <= i < s.len(),
    ensures
        commands(s.take(i + 1)) == if is_command(s[i]) {
            commands(s.take(i)).push(s[i])
        } else {
            commands(s.take(i))
        },
{
    assert(s.take(i + 1).drop_last() =~= s.take(i));
}

/// A prefix's commands are a prefix of the whole source's commands.
proof fn lemma_commands_prefix(s: Seq<u8>, i: int)
    requires
        0 <= i <= s.len(),
    ensures
        commands(s.take(i)).len() <= commands(s).len(),
        commands(s).take(commands(s.take(i)).len() as int) == commands(s.take(i)),
    decreases s.len() - i,
{
    if i == s.len() {
        assert(s.take(i) =~= s);
    } else {
        lemma_commands_prefix(s, i + 1);
        lemma_commands_step(s, i);
        let a = commands(s.take(i));
        let b = commands(s.take(i + 1));
        assert(commands(s).take(a.len() as int) =~= b.take(a.len() as int));
        assert(b.take(a.len() as int) =~= a);
    }
}

/// Depths of a prefix do not change when more commands follow.
proof fn lemma_depth_before_extend(c: Seq<u8>, d: Seq<u8>, k: int)
    requires
        0 <= k <= c.len(),
        d.take(c.len() as int) == c,
        c.len() <= d.len(),
    ensures
        depth_before(d, k) == depth_before(c, k),
{
    assert(d.take(k) =~= c.take(k));
}

proof fn lemma_depth_push(c: Seq<u8>, b: u8)
    ensures
        depth(c.push(b)) == depth(c) + bracket_delta(b),
        depth_before(c.push(b), c.len() as int + 1) == depth(c) + bracket_delta(b),
        depth_before(c.push(b), c.len() as int) == depth(c),
{
    assert(c.push(b).drop_last() =~= c);
    assert(c.push(b).take(c.len() as int + 1) =~= c.push(b));
    assert(c.push(b).take(c.len() as int) =~= c);
}

/// Facts about `brackets_match` and `compiles_to` survive appending commands.
proof fn lemma_match_extend(c: Seq<u8>, b: u8, open: int, close: int)
    requires
        brackets_match(c, open, close),
    ensures
        brackets_match(c.push(b), open, close),
{
    let d = c.push(b);
    assert(d.take(c.len() as int) =~= c);
    lemma_depth_before_extend(c, d, close + 1);
    lemma_depth_before_extend(c, d, open);
    assert forall|k: int| open < k <= close implies #[trigger] depth_before(d, k) > depth_before(
        d,
        open,
    ) by {
        lemma_depth_before_extend(c, d, k);
    }
}

proof fn lemma_compiles_extend(c: Seq<u8>, b: u8, i: int, instr: Instr)
    requires
        0 <= i < c.len(),
        compiles_to(c, i, instr),
    ensures
        compiles_to(c.push(b), i, instr),
{
    let d = c.push(b);
    assert(d[i] == c[i]);
    match instr {
        Instr::JumpIfZero(t) => {
            if c[i] == 91u8 {
                lemma_match_extend(c, b, i, t as int);
            }
        },
        Instr::JumpIfNonZero(o) => {
            if c[i] == 93u8 {
                lemma_match_extend(c, b, o as int, i);
            }
        },
        _ => {},
    }
}

/// The parser's loop state: `stack` holds the open brackets, in order, each at
/// the depth equal to its position in the stack.
spec fn stack_ok(c: Seq<u8>, stack: Seq<usize>, instrs: Seq<Instr>) -> bool {
    &&& stack.len() == depth(c)
    &&& forall|s: int|
        0 <= s < stack.len() ==> {
            &&& (#[trigger] stack[s]) < c.len()
            &&& c[stack[s] as int] == 91u8
            &&& depth_before(c, stack[s] as int) == s
            &&& instrs[stack[s] as int] is JumpIfZero
            &&& forall|m: int|
                stack[s] < m <= c.len() ==> #[trigger] depth_before(c, m) > s
        }
}

spec fn done_ok(c: Seq<u8>, stack: Seq<usize>, instrs: Seq<Instr>) -> bool {
    forall|j: int|
        0 <= j < c.len() && !stack.contains(j as usize) ==> #[trigger] compiles_to(
            c,
            j,
            instrs[j],
        )
}

proof fn lemma_stack_distinct(c: Seq<u8>, stack: Seq<usize>, instrs: Seq<Instr>, s: int)
    requires
        stack_ok(c, stack, instrs),
        0 <= s < stack.len(),
    ensures
        forall|t: int| 0 <= t < stack.len() && t != s ==> stack[t] != stack[s],
{
    assert forall|t: int| 0 <= t < stack.len() && t != s implies stack[t] != stack[s] by {
        if stack[t] == stack[s] {
            assert(depth_before(c, stack[t] as int) == t);
            assert(depth_before(c, stack[s] as int) == s);
        }
    }
}

proof fn lemma_never_negative_push(c: Seq<u8>, b: u8)
    requires
        never_negative(c),
        depth(c) + bracket_delta(b) >= 0,
    ensures
        never_negative(c.push(b)),
{
    let d = c.push(b);
    lemma_depth_push(c, b);
    assert(d.take(c.len() as int) =~= c);
    assert forall|k: int| 0 <= k <= d.len() implies #[trigger] depth_before(d, k) >= 0 by {
        if k <= c.len() {
            lemma_depth_before_extend(c, d, k);
        }
    }
}

/// The stack entries below the top keep their invariant when a command is
/// appended that does not take the depth below them.
proof fn lemma_stack_entry_extend(c: Seq<u8>, b: u8, stack: Seq<usize>, t: int)
    requires
        0 <= t < stack.len(),
        stack[t] < c.len(),
        depth_before(c, stack[t] as int) == t,
        forall|m: int| stack[t] < m <= c.len() ==> #[trigger] depth_before(c, m) > t,
        depth(c) + bracket_delta(b) > t,
    ensures
        depth_before(c.push(b), stack[t] as int) == t,
        forall|m: int| stack[t] < m <= c.len() + 1 ==> #[trigger] depth_before(c.push(b), m) > t,
{
    let d = c.push(b);
    lemma_depth_push(c, b);
    assert(d.take(c.len() as int) =~= c);
    lemma_depth_before_extend(c, d, stack[t] as int);
    assert forall|m: int| stack[t] < m <= c.len() + 1 implies #[trigger] depth_before(d, m) > t by {
        if m <= c.len() {
            lemma_depth_before_extend(c, d, m);
        }
    }
}

proof fn lemma_step_plain(c: Seq<u8>, b: u8, stack: Seq<usize>, instrs: Seq<Instr>, instr: Instr)
    requires
        never_negative(c),
        instrs.len() == c.len(),
        stack_ok(c, stack, instrs),
        done_ok(c, stack, instrs),
        b != 91u8 && b != 93u8,
        compiles_to(c.push(b), c.len() as int, instr),
        !(instr is JumpIfZero),
    ensures
        never_negative(c.push(b)),
        stack_ok(c.push(b), stack, instrs.push(instr)),
        done_ok(c.push(b), stack, instrs.push(instr)),
{
    let d = c.push(b);
    let n = instrs.push(instr);
    lemma_depth_push(c, b);
    lemma_never_negative_push(c, b);
    assert forall|t: int| 0 <= t < stack.len() implies {
        &&& (#[trigger] stack[t]) < d.len()
        &&& d[stack[t] as int] == 91u8
        &&& depth_before(d, stack[t] as int) == t
        &&& n[stack[t] as int] is JumpIfZero
        &&& forall|m: int| stack[t] < m <= d.len() ==> #[trigger] depth_before(d, m) > t
    } by {
        lemma_stack_entry_extend(c, b, stack, t);
    }
    assert forall|j: int| 0 <= j < d.len() && !stack.contains(j as usize) implies #[trigger] compiles_to(
        d,
        j,
        n[j],
    ) by {
        if j < c.len() {
            lemma_compiles_extend(c, b, j, instrs[j]);
        }
    }
}

proof fn lemma_step_open(c: Seq<u8>, stack: Seq<usize>, instrs: Seq<Instr>)
    requires
        never_negative(c),
        instrs.len() == c.len(),
        stack_ok(c, stack, instrs),
        done_ok(c, stack, instrs),
        c.len() < usize::MAX,
    ensures
        never_negative(c.push(91u8)),
        stack_ok(c.push(91u8), stack.push(c.len() as usize), instrs.push(Instr::JumpIfZero(0))),
        done_ok(c.push(91u8), stack.push(c.len() as usize), instrs.push(Instr::JumpIfZero(0))),
{
    let b = 91u8;
    let d = c.push(b);
    let n = instrs.push(Instr::JumpIfZero(0));
    let st = stack.push(c.len() as usize);
    lemma_depth_push(c, b);
    lemma_never_negative_push(c, b);
    assert forall|t: int| 0 <= t < st.len() implies {
        &&& (#[trigger] st[t]) < d.len()
        &&& d[st[t] as int] == 91u8
        &&& depth_before(d, st[t] as int) == t
        &&& n[st[t] as int] is JumpIfZero
        &&& forall|m: int| st[t] < m <= d.len() ==> #[trigger] depth_before(d, m) > t
    } by {
        if t < stack.len() {
            lemma_stack_entry_extend(c, b, stack, t);
        } else {
            assert forall|m: int| st[t] < m <= d.len() implies #[trigger] depth_before(d, m) > t by {
                assert(m == d.len());
            }
        }
    }
    assert forall|j: int| 0 <= j < d.len() && !st.contains(j as usize) implies #[trigger] compiles_to(
        d,
        j,
        n[j],
    ) by {
        if j == c.len() {
            assert(st[st.len() - 1] == j as usize);
        } else {
            if stack.contains(j as usize) {
                let t = choose|t: int| 0 <= t < stack.len() && stack[t] == j as usize;
                assert(st[t] == j as usize);
            }
            lemma_compiles_extend(c, b, j, instrs[j]);
        }
    }
}

proof fn lemma_step_close(c: Seq<u8>, stack: Seq<usize>, instrs: Seq<Instr>)
    requires
        never_negative(c),
        instrs.len() == c.len(),
        stack_ok(c, stack, instrs),
        done_ok(c, stack, instrs),
        stack.len() > 0,
        c.len() < usize::MAX,
    ensures
        ({
            let open = stack.last();
            let d = c.push(93u8);
            let n = instrs.push(Instr::JumpIfNonZero(open)).update(
                open as int,
                Instr::JumpIfZero(c.len() as usize),
            );
            &&& never_negative(d)
            &&& stack_ok(d, stack.drop_last(), n)
            &&& done_ok(d, stack.drop_last(), n)
        }),
{
    let b = 93u8;
    let open = stack.last();
    let top = stack.len() - 1;
    let idx = c.len();
    let d = c.push(b);
    let n = instrs.push(Instr::JumpIfNonZero(open)).update(open as int, Instr::JumpIfZero(idx as usize));
    let st = stack.drop_last();
    lemma_depth_push(c, b);
    lemma_never_negative_push(c, b);
    lemma_stack_distinct(c, stack, instrs, top);
    assert(d.take(c.len() as int) =~= c);
    lemma_depth_before_extend(c, d, open as int);
    assert forall|k: int| open < k <= idx implies #[trigger] depth_before(d, k) > depth_before(
        d,
        open as int,
    ) by {
        if k <= c.len() {
            lemma_depth_before_extend(c, d, k);
        }
    }
    assert(brackets_match(d, open as int, idx as int));
    assert forall|t: int| 0 <= t < st.len() implies {
        &&& (#[trigger] st[t]) < d.len()
        &&& d[st[t] as int] == 91u8
        &&& depth_before(d, st[t] as int) == t
        &&& n[st[t] as int] is JumpIfZero
        &&& forall|m: int| st[t] < m <= d.len() ==> #[trigger] depth_before(d, m) > t
    } by {
        assert(st[t] == stack[t]);
        lemma_stack_entry_extend(c, b, stack, t);
    }
    assert forall|j: int| 0 <= j < d.len() && !st.contains(j as usize) implies #[trigger] compiles_to(
        d,
        j,
        n[j],
    ) by {
        if j == idx {
        } else if j == open {
        } else {
            if stack.contains(j as usize) {
                let t = choose|t: int| 0 <= t < stack.len() && stack[t] == j as usize;
                if t < top {
                    assert(st[t] == j as usize);
                }
            }
            lemma_compiles_extend(c, b, j, instrs[j]);
        }
    }
}

/// Parse Brainfuck source into bytecode.
///
/// Every byte other than the eight commands is a comment. Each `[` and `]`
/// carries the index of its partner. Fails when the brackets do not balance.
pub fn parse(src: &str) -> (r: Result<Bytecode, ParseError>)
    ensures
        ({
            let c = commands(src.spec_bytes());
            match r {
                Ok(code) => balanced(c) && compiled(c, code.instrs@),
                Err(ParseError::UnmatchedClose) => !never_negative(c),
                Err(ParseError::UnmatchedOpen(n)) => never_negative(c) && depth(c) == n && n > 0,
            }
        }),
{
    let bytes = src.as_bytes();
    let ghost s = bytes@;
    let mut instrs: Vec<Instr> = Vec::new();
    let mut stack: Vec<usize> = Vec::new();
    let mut i: usize = 0;
    assert(s.take(0) =~= seq![]);
    assert forall|k: int| 0 <= k <= 0 implies #[trigger] depth_before(seq![], k) >= 0 by {
        assert(Seq::<u8>::empty().take(k) =~= seq![]);
    }
    while i < bytes.len()
        invariant
            s == bytes@,
            s == src.spec_bytes(),
            i <= bytes.len(),
            instrs@.len() == commands(s.take(i as int)).len(),
            commands(s.take(i as int)).len() <= i,
            never_negative(commands(s.take(i as int))),
            stack_ok(commands(s.take(i as int)), stack@, instrs@),
            done_ok(commands(s.take(i as int)), stack@, instrs@),
        decreases bytes.len() - i,
    {
        let ghost c = commands(s.take(i as int));
        let b = bytes[i];
        proof {
            lemma_commands_step(s, i as int);
        }
        if b == 93 {
            if stack.len() == 0 {
                proof {
                    let d = c.push(b);
                    lemma_depth_push(c, b);
                    lemma_commands_prefix(s, i + 1);
                    let full = commands(s);
                    lemma_depth_before_extend(d, full, d.len() as int);
                    assert(depth_before(full, d.len() as int) < 0);
                    assert(s =~= src.spec_bytes());
                }
                return Err(ParseError::UnmatchedClose);
            }
            let idx = instrs.len();
            proof {
                lemma_step_close(c, stack@, instrs@);
            }
            let open_idx = stack.pop().unwrap();
            instrs.push(Instr::JumpIfNonZero(open_idx));
            instrs.set(open_idx, Instr::JumpIfZero(idx));
        } else if b == 91 {
            let idx = instrs.len();
            proof {
                lemma_step_open(c, stack@, instrs@);
            }
            stack.push(idx);
            instrs.push(Instr::JumpIfZero(0));
        } else if b == 62 || b == 60 || b == 43 || b == 45 || b == 46 || b == 44 {
            let instr = if b == 62 {
                Instr::IncrementPtr
            } else if b == 60 {
                Instr::DecrementPtr
            } else if b == 43 {
                Instr::Increment
            } else if b == 45 {
                Instr::Decrement
            } else if b == 46 {
                Instr::Output
            } else {
                Instr::Input
            };
            proof {
                lemma_step_plain(c, b, stack@, instrs@, instr);
            }
            instrs.push(instr);
        }
        i += 1;
    }
    proof {
        assert(s.take(i as int) =~= s);
        assert(s =~= src.spec_bytes());
    }
    if stack.len() != 0 {
        return Err(ParseError::UnmatchedOpen(stack.len()));
    }
    proof {
        let c = commands(s);
        assert forall|j: int| 0 <= j < c.len() implies #[trigger] compiles_to(c, j, instrs@[j]) by {
            assert(!stack@.contains(j as usize));
        }
    }
    Ok(Bytecode { instrs })
}

} // verus!
