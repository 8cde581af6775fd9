//! LLVM IR generation for normalized Brainfuck operations.
//!
//! The backend emits a complete textual LLVM module containing an internal
//! global byte tape and either a hosted `main` function using libc I/O or a
//! freestanding entry point using caller-provided I/O hook symbols. It does not
//! run LLVM tools itself; callers can write the returned string to a `.ll` file
//! or pass it to a compatible LLVM driver such as `clang`.
//!
//! Before emission, parsed Brainfuck operations are lowered through
//! [`crate::hypothalamus::ir`], so the generated program can use offset
//! arithmetic, direct clear stores, scan loops, and multiply-transfer loops.
//!
//! The generated program models Brainfuck cells as wrapping `i8` values and the
//! data pointer as an `i64` offset into the global tape. Pointer bounds are not
//! checked unless asked for.

use vstd::prelude::*;
use vstd::string::StringSliceAdditionalSpecFns;
use crate::bytes::{decimal, decimal_chars, signed_decimal_chars, push_decimal, push_signed_decimal, lemma_decimal_ascii, lemma_signed_decimal_ascii,
    string_from_ascii, str_contains, str_eq};
use crate::hypothalamus::bf::Op;
use crate::hypothalamus::ir::{optimize, travel_fits, Ir};
use crate::paths::host_is_windows;

verus! {

/// Options controlling LLVM module generation.
#[derive(Debug, Clone)]
pub struct LlvmOptions {
    /// Number of byte cells allocated in the generated global tape; must be
    /// greater than zero.
    pub tape_size: usize,
    /// Optional LLVM target triple embedded in the module.
    pub target_triple: Option<String>,
    /// Optional source filename embedded in the module, escaped for LLVM
    /// string syntax.
    pub source_filename: Option<String>,
    /// Emit runtime tape bounds checks before every cell access.
    pub bounds_check: bool,
    /// Runtime ABI used by the generated module.
    pub runtime: Runtime,
}

/// Runtime ABI used by generated LLVM modules.
#[derive(Debug, Clone, PartialEq, Eq)]
pub enum Runtime {
    /// Emit a hosted C-style `main` and call libc `putchar` / `getchar`.
    Hosted,
    /// Emit a freestanding entry point and call externally supplied I/O hooks.
    Freestanding(FreestandingOptions),
}

/// Symbol names for freestanding LLVM module generation.
#[derive(Debug, Clone, PartialEq, Eq)]
pub struct FreestandingOptions {
    /// Name of the generated Brainfuck entry function, of type `void ()`.
    pub entry_symbol: String,
    /// Name of the external byte-output hook, of type `void (i8)`.
    pub putchar_symbol: String,
    /// Name of the external byte-input hook, of type `i32 ()`, returning `-1`
    /// for end of input.
    pub getchar_symbol: String,
}

impl Default for FreestandingOptions {
    fn default() -> (r: Self)
        ensures
            r.entry_symbol@ == "bf_main"@,
            r.putchar_symbol@ == "bf_putchar"@,
            r.getchar_symbol@ == "bf_getchar"@,
    {
        FreestandingOptions {
            entry_symbol: "bf_main".to_owned(),
            putchar_symbol: "bf_putchar".to_owned(),
            getchar_symbol: "bf_getchar".to_owned(),
        }
    }
}

/// Error returned when LLVM IR cannot be generated from valid operations.
#[derive(Debug, Clone, PartialEq, Eq)]
pub enum CodegenError {
    /// The configured tape has zero cells.
    InvalidTapeSize(usize),
    /// A requested LLVM symbol name cannot be emitted as a simple identifier.
    InvalidSymbolName {
        /// Human-readable role for the invalid symbol.
        kind: &'static str,
        /// Invalid symbol name.
        name: String,
    },
    /// Two runtime symbols were configured with the same name.
    DuplicateSymbolName(String),
}

impl CodegenError {
    /// The error as text.
    pub fn text(&self) -> (r: String)
        ensures
            r@ == match self {
                CodegenError::InvalidTapeSize(size) => "tape size must be greater than zero, got "@
                    + decimal_chars(*size as nat),
                CodegenError::InvalidSymbolName { kind, name } => "invalid "@ + kind@ + " symbol name `"@
                    + name@ + "`"@,
                CodegenError::DuplicateSymbolName(name) => "runtime symbol name `"@ + name@
                    + "` is used more than once"@,
            },
    {
        match self {
            CodegenError::InvalidTapeSize(size) => {
                let mut m = "tape size must be greater than zero, got ".to_owned();
                let n = number(*size as u64);
                m.append(n.as_str());
                m
            },
            CodegenError::InvalidSymbolName { kind, name } => {
                let mut m = "invalid ".to_owned();
                m.append(kind);
                m.append(" symbol name `");
                m.append(name.as_str());
                m.append("`");
                m
            },
            CodegenError::DuplicateSymbolName(name) => {
                let mut m = "runtime symbol name `".to_owned();
                m.append(name.as_str());
                m.append("` is used more than once");
                m
            },
        }
    }
}

/// A byte that may start a symbol: an ASCII letter, `_`, `$` or `.`.
pub open spec fn symbol_start(b: u8) -> bool {
    (65 <= b <= 90) || (97 <= b <= 122) || b == 95 || b == 36 || b == 46
}

/// A byte that may continue a symbol: also an ASCII digit.
pub open spec fn symbol_continue(b: u8) -> bool {
    symbol_start(b) || (48 <= b <= 57)
}

/// A name LLVM can take as a plain identifier.
pub open spec fn symbol_ok(name: Seq<u8>) -> bool {
    name.len() >= 1 && symbol_start(name[0]) && forall|i: int| 1 <= i < name.len() ==> symbol_continue(
        #[trigger] name[i],
    )
}

/// What is wrong with a runtime, checked in order: the entry, putchar and
/// getchar names (`1`, `2`, `3`), then a name used twice (`4`, with the
/// repeated name).
pub open spec fn runtime_problem(rt: Runtime) -> Option<(int, Seq<char>)> {
    match rt {
        Runtime::Hosted => None,
        Runtime::Freestanding(o) => if !symbol_ok(as_bytes_of(o.entry_symbol@)) {
            Some((1, o.entry_symbol@))
        } else if !symbol_ok(as_bytes_of(o.putchar_symbol@)) {
            Some((2, o.putchar_symbol@))
        } else if !symbol_ok(as_bytes_of(o.getchar_symbol@)) {
            Some((3, o.getchar_symbol@))
        } else if o.entry_symbol@ == o.putchar_symbol@ || o.entry_symbol@ == o.getchar_symbol@ {
            Some((4, o.entry_symbol@))
        } else if o.putchar_symbol@ == o.getchar_symbol@ {
            Some((4, o.putchar_symbol@))
        } else {
            None
        },
    }
}

/// The bytes a string of characters is stored as.
pub open spec fn as_bytes_of(s: Seq<char>) -> Seq<u8> {
    vstd::utf8::encode_utf8(s)
}

/// An error as plain values: the problem code and the name it is about.
pub open spec fn error_view(e: CodegenError) -> (int, Seq<char>) {
    match e {
        CodegenError::InvalidTapeSize(_) => (0, Seq::empty()),
        CodegenError::InvalidSymbolName { kind, name } => (
            if kind@ == "entry"@ {
                1int
            } else if kind@ == "putchar"@ {
                2
            } else {
                3
            },
            name@,
        ),
        CodegenError::DuplicateSymbolName(name) => (4, name@),
    }
}

/// Extending an extension of `a` still extends `a`.
proof fn lemma_prefix_trans(a: Seq<char>, b: Seq<char>, c: Seq<char>)
    requires
        a.is_prefix_of(b),
        b.is_prefix_of(c),
    ensures
        a.is_prefix_of(c),
{
    assert forall|i: int| 0 <= i < a.len() implies a[i] == c[i] by {
        assert(a[i] == b[i]);
        assert(b[i] == c[i]);
    }
    assert(a =~= c.subrange(0, a.len() as int));
}

/// The first line of every generated module.
pub open spec fn banner() -> Seq<char> {
    "; Generated by hypothalamus.\n"@
}

/// Generate a complete textual LLVM module for `ops`.
///
/// # Errors
///
/// Returns [`CodegenError::InvalidTapeSize`] if [`LlvmOptions::tape_size`]
/// is zero, and a symbol error for a freestanding runtime whose names are
/// not plain identifiers or repeat.
pub fn generate_module(ops: &[Op], options: &LlvmOptions) -> (r: Result<String, CodegenError>)
    requires
        travel_fits(ops@),
    ensures
        options.tape_size == 0 ==> (r matches Err(CodegenError::InvalidTapeSize(n)) && n == 0),
        options.tape_size > 0 ==> match runtime_problem(options.runtime) {
            Some(p) => r matches Err(e) && error_view(e) == p,
            None => r is Ok,
        },
        r matches Ok(text) ==> banner().is_prefix_of(text@),
{
    if options.tape_size == 0 {
        return Err(CodegenError::InvalidTapeSize(options.tape_size));
    }
    validate_runtime(&options.runtime)?;
    let optimized = optimize(ops);
    let mut emitter = Emitter {
        output: String::new(),
        tape_size: options.tape_size,
        target_triple: options.target_triple.as_ref(),
        source_filename: options.source_filename.as_ref(),
        bounds_check: options.bounds_check,
        runtime: &options.runtime,
        temp_index: 0,
        label_index: 0,
    };
    emitter.emit_preamble();
    emitter.emit_main(optimized.as_slice());
    Ok(emitter.output)
}

/// The name of the temporary numbered `i`.
pub open spec fn temp_name(i: usize) -> Seq<char> {
    "%"@ + decimal_chars(i as nat)
}

/// The label numbered `i` with a given prefix.
pub open spec fn label_name(prefix: Seq<char>, i: usize) -> Seq<char> {
    prefix + "_"@ + decimal_chars(i as nat)
}

/// The counter after handing out the name numbered `i`.
pub open spec fn next_index(i: usize) -> usize {
    if i < usize::MAX {
        (i + 1) as usize
    } else {
        i
    }
}

/// The check that `pointer` is inside the tape, trapping when it is not,
/// using temporary `t` and the trap and continue labels numbered `l` and the
/// one after it.
#[verifier::opaque]
pub open spec fn bounds_check_text(pointer: Seq<char>, tape_size: usize, t: usize, l: usize) -> Seq<char> {
    let flag = temp_name(t);
    let trap = label_name("bounds_trap"@, l);
    let cont = label_name("bounds_cont"@, next_index(l));
    "  "@ + flag + " = icmp ult i64 "@ + pointer + ", "@ + decimal_chars(tape_size as nat) + "\n"@ + "  br i1 "@
        + flag + ", label %"@ + cont + ", label %"@ + trap + "\n"@ + trap + ":"@ + "\n"@
        + "  call void @llvm.trap()"@ + "\n"@ + "  unreachable"@ + "\n"@ + cont + ":"@ + "\n"@
}

/// The temporary holding the data pointer plus `offset`, when temporaries
/// are handed out from `t`.
pub open spec fn cell_pointer(offset: i64, t: usize) -> Seq<char> {
    if offset == 0 {
        temp_name(t)
    } else {
        temp_name(next_index(t))
    }
}

/// The next temporary number once the pointer plus `offset` is computed.
pub open spec fn after_pointer(offset: i64, t: usize) -> usize {
    if offset == 0 {
        next_index(t)
    } else {
        next_index(next_index(t))
    }
}

/// Loading the data pointer, and adding `offset` to it when that is not zero.
pub open spec fn pointer_text(offset: i64, t: usize) -> Seq<char> {
    let load = "  "@ + temp_name(t) + " = load i64, ptr %ptr, align 8"@ + "\n"@;
    if offset == 0 {
        load
    } else {
        load + "  "@ + temp_name(next_index(t)) + " = add i64 "@ + temp_name(t) + ", "@ + signed_decimal_chars(
            offset as int,
        ) + "\n"@
    }
}

/// The bounds check on the pointer, when accesses are checked.
pub open spec fn check_text(offset: i64, tape_size: usize, checked: bool, t: usize, l: usize) -> Seq<char> {
    if checked {
        bounds_check_text(cell_pointer(offset, t), tape_size, after_pointer(offset, t), l)
    } else {
        Seq::empty()
    }
}

/// The temporary number the cell address gets.
pub open spec fn cell_temp(offset: i64, checked: bool, t: usize) -> usize {
    if checked {
        next_index(after_pointer(offset, t))
    } else {
        after_pointer(offset, t)
    }
}

/// The next label number once a cell address is computed.
pub open spec fn labels_after(checked: bool, l: usize) -> usize {
    if checked {
        next_index(next_index(l))
    } else {
        l
    }
}

/// Reading a byte into temporary `b` through the runtime's input hook.
pub open spec fn input_call_text(runtime: Runtime, b: usize) -> Seq<char> {
    match runtime {
        Runtime::Hosted => "  "@ + temp_name(b) + " = call i32 @getchar()"@ + "\n"@,
        Runtime::Freestanding(options) => "  "@ + temp_name(b) + " = call i32 @"@ + options.getchar_symbol@ + "()"@
            + "\n"@,
    }
}

/// The temporary holding `source` times `factor`: `source` itself for a
/// factor of one, otherwise temporary `t`.
pub open spec fn product_name(factor: int, source: Seq<char>, t: usize) -> Seq<char> {
    if factor == 1 {
        source
    } else {
        temp_name(t)
    }
}

/// The temporary number after the product is formed.
pub open spec fn after_product(factor: int, t: usize) -> usize {
    if factor == 1 {
        t
    } else {
        next_index(t)
    }
}

/// Forming `source` times `f` in temporary `t`, when `f` is not one.
pub open spec fn product_text(f: int, source: Seq<char>, t: usize) -> Seq<char> {
    if f == 1 {
        Seq::empty()
    } else {
        "  "@ + temp_name(t) + " = mul i8 "@ + source + ", "@ + decimal_chars(f as nat) + "\n"@
    }
}

/// Adding the value named `product` to the cell `offset`.
#[verifier::opaque]
pub open spec fn add_into_text(offset: i64, product: Seq<char>, tape_size: usize, checked: bool, t: usize, l: usize) -> Seq<
    char,
> {
    let c = cell_temp(offset, checked, t);
    let cur = next_index(c);
    let nxt = next_index(cur);
    cell_ptr_text(offset, tape_size, checked, t, l) + "  "@ + temp_name(cur) + " = load i8, ptr "@ + temp_name(c)
        + ", align 1"@ + "\n"@ + "  "@ + temp_name(nxt) + " = add i8 "@ + temp_name(cur) + ", "@ + product + "\n"@
        + "  store i8 "@ + temp_name(nxt) + ", ptr "@ + temp_name(c) + ", align 1"@ + "\n"@
}

/// Adding `source` times `factor` (taken modulo 256) to the cell `offset`.
pub open spec fn term_text(offset: i64, factor: int, source: Seq<char>, tape_size: usize, checked: bool, t: usize, l: usize) -> Seq<
    char,
> {
    let f = factor % 256;
    if f == 0 {
        Seq::empty()
    } else {
        product_text(f, source, t) + add_into_text(
            offset,
            product_name(f, source, t),
            tape_size,
            checked,
            after_product(f, t),
            l,
        )
    }
}

/// The temporary number after a term.
pub open spec fn term_t(offset: i64, factor: int, checked: bool, t: usize) -> usize {
    let f = factor % 256;
    if f == 0 {
        t
    } else {
        next_index(next_index(next_index(cell_temp(offset, checked, after_product(f, t)))))
    }
}

/// The label number after a term.
pub open spec fn term_l(factor: int, checked: bool, l: usize) -> usize {
    if factor % 256 == 0 {
        l
    } else {
        labels_after(checked, l)
    }
}

/// The temporary number after the first `k` terms.
pub open spec fn terms_t(terms: Seq<(i64, i32)>, k: int, checked: bool, t: usize) -> usize
    decreases k,
{
    if k <= 0 {
        t
    } else {
        term_t(terms[k - 1].0, terms[k - 1].1 as int, checked, terms_t(terms, k - 1, checked, t))
    }
}

/// The label number after the first `k` terms.
pub open spec fn terms_l(terms: Seq<(i64, i32)>, k: int, checked: bool, l: usize) -> usize
    decreases k,
{
    if k <= 0 {
        l
    } else {
        term_l(terms[k - 1].1 as int, checked, terms_l(terms, k - 1, checked, l))
    }
}

/// The first `k` terms of a multiply-transfer.
pub open spec fn terms_text(
    terms: Seq<(i64, i32)>,
    k: int,
    source: Seq<char>,
    tape_size: usize,
    checked: bool,
    t: usize,
    l: usize,
) -> Seq<char>
    decreases k,
{
    if k <= 0 {
        Seq::empty()
    } else {
        terms_text(terms, k - 1, source, tape_size, checked, t, l) + term_text(
            terms[k - 1].0,
            terms[k - 1].1 as int,
            source,
            tape_size,
            checked,
            terms_t(terms, k - 1, checked, t),
            terms_l(terms, k - 1, checked, l),
        )
    }
}

/// Adding `delta` (modulo 256) to the cell `offset`.
pub open spec fn add_text(offset: i64, delta: i32, tape_size: usize, checked: bool, t: usize, l: usize) -> Seq<char> {
    if delta % 256 == 0 {
        Seq::empty()
    } else {
        let c = cell_temp(offset, checked, t);
        let current = next_index(c);
        let next = next_index(current);
        cell_ptr_text(offset, tape_size, checked, t, l) + "  "@ + temp_name(current) + " = load i8, ptr "@ + temp_name(c)
            + ", align 1"@ + "\n"@ + "  "@ + temp_name(next) + " = add i8 "@ + temp_name(current) + ", "@
            + decimal_chars((delta % 256) as nat) + "\n"@ + "  store i8 "@ + temp_name(next) + ", ptr "@ + temp_name(c)
            + ", align 1"@ + "\n"@
    }
}

/// Storing `value` into the cell `offset`.
pub open spec fn set_text(offset: i64, value: u8, tape_size: usize, checked: bool, t: usize, l: usize) -> Seq<char> {
    cell_ptr_text(offset, tape_size, checked, t, l) + "  store i8 "@ + decimal_chars(value as nat) + ", ptr "@
        + temp_name(cell_temp(offset, checked, t)) + ", align 1"@ + "\n"@
}

/// Writing the cell `offset` through the output hook.
pub open spec fn output_text(runtime: Runtime, offset: i64, tape_size: usize, checked: bool, t: usize, l: usize) -> Seq<
    char,
> {
    let c = cell_temp(offset, checked, t);
    let b = next_index(c);
    cell_ptr_text(offset, tape_size, checked, t, l) + "  "@ + temp_name(b) + " = load i8, ptr "@ + temp_name(c)
        + ", align 1"@ + "\n"@ + output_call_text(runtime, b, next_index(b))
}

/// A multiply-transfer: add the current cell times each factor to its
/// offset, then clear the current cell.
pub open spec fn add_mul_text(terms: Seq<(i64, i32)>, tape_size: usize, checked: bool, t: usize, l: usize) -> Seq<char> {
    let c = cell_temp(0, checked, t);
    let src = next_index(c);
    let l1 = labels_after(checked, l);
    cell_ptr_text(0, tape_size, checked, t, l) + "  "@ + temp_name(src) + " = load i8, ptr "@ + temp_name(c)
        + ", align 1"@ + "\n"@ + terms_text(terms, terms.len() as int, temp_name(src), tape_size, checked, next_index(src), l1)
        + "  store i8 "@ + "0"@ + ", ptr "@ + temp_name(c) + ", align 1"@ + "\n"@
}

/// The loop's labels, numbered from `l`.
pub open spec fn loop_labels(l: usize) -> (Seq<char>, Seq<char>, Seq<char>) {
    (
        label_name("loop_check"@, l),
        label_name("loop_body"@, next_index(l)),
        label_name("loop_end"@, next_index(next_index(l))),
    )
}

/// A loop: test the current cell, run `body` while it is nonzero, with
/// temporaries from `t` and labels from `l`.
#[verifier::opaque]
pub open spec fn loop_text(body: Seq<Ir>, tape_size: usize, checked: bool, runtime: Runtime, t: usize, l: usize) -> Seq<
    char,
>
    decreases body, body.len() + 1,
{
    let (check, body_label, end) = loop_labels(l);
    let l3 = next_index(next_index(next_index(l)));
    let tb = after_test(checked, t);
    let lb = labels_after(checked, l3);
    "  br label %"@ + check + "\n"@ + check + ":"@ + "\n"@ + test_text(tape_size, checked, t, l3, end, body_label)
        + body_label + ":"@ + "\n"@ + block_text(body, body.len() as int, tape_size, checked, runtime, tb, lb)
        + "  br label %"@ + check + "\n"@ + end + ":"@ + "\n"@
}

/// The text of one operation, with temporaries from `t` and labels from `l`.
#[verifier::opaque]
pub open spec fn ir_text(op: Ir, tape_size: usize, checked: bool, runtime: Runtime, t: usize, l: usize) -> Seq<char>
    decreases op, 0nat,
{
    match op {
        Ir::Add { offset, delta } => add_text(offset, delta, tape_size, checked, t, l),
        Ir::Store { offset, value } => set_text(offset, value, tape_size, checked, t, l),
        Ir::Move(delta) => move_text(delta, t),
        Ir::Input { offset } => input_text(runtime, offset, tape_size, checked, t, l),
        Ir::Output { offset } => output_text(runtime, offset, tape_size, checked, t, l),
        Ir::Loop(body) => {
            proof {
                assert(decreases_to!(op => op->Loop_0));
                assert(decreases_to!(op->Loop_0 => op->Loop_0@));
            }
            loop_text(body@, tape_size, checked, runtime, t, l)
        },
        Ir::Scan(stride) => scan_text(stride, tape_size, checked, t, l),
        Ir::AddMul { terms } => add_mul_text(terms@, tape_size, checked, t, l),
    }
}

/// The temporary number after one operation.
#[verifier::opaque]
pub open spec fn ir_t(op: Ir, checked: bool, runtime: Runtime, t: usize, l: usize) -> usize
    decreases op, 0nat,
{
    match op {
        Ir::Add { offset, delta } => if delta % 256 == 0 {
            t
        } else {
            next_index(next_index(next_index(cell_temp(offset, checked, t))))
        },
        Ir::Store { offset, value } => next_index(cell_temp(offset, checked, t)),
        Ir::Move(delta) => after_move(delta, t),
        Ir::Input { offset } => next_index(cell_temp(offset, checked, next_index(next_index(next_index(t))))),
        Ir::Output { offset } => {
            let b = next_index(cell_temp(offset, checked, t));
            if runtime is Hosted {
                next_index(next_index(next_index(b)))
            } else {
                next_index(b)
            }
        },
        Ir::Loop(body) => {
            proof {
                assert(decreases_to!(op => op->Loop_0));
                assert(decreases_to!(op->Loop_0 => op->Loop_0@));
            }
            let l3 = next_index(next_index(next_index(l)));
            block_t(body@, body@.len() as int, checked, runtime, after_test(checked, t), labels_after(checked, l3))
        },
        Ir::Scan(stride) => after_move(stride, after_test(checked, t)),
        Ir::AddMul { terms } => {
            let src = next_index(cell_temp(0, checked, t));
            terms_t(terms@, terms@.len() as int, checked, next_index(src))
        },
    }
}

/// The label number after one operation.
#[verifier::opaque]
pub open spec fn ir_l(op: Ir, checked: bool, runtime: Runtime, t: usize, l: usize) -> usize
    decreases op, 0nat,
{
    match op {
        Ir::Add { offset, delta } => if delta % 256 == 0 {
            l
        } else {
            labels_after(checked, l)
        },
        Ir::Store { .. } => labels_after(checked, l),
        Ir::Move(_) => l,
        Ir::Input { .. } => labels_after(checked, next_index(next_index(l))),
        Ir::Output { .. } => labels_after(checked, l),
        Ir::Loop(body) => {
            proof {
                assert(decreases_to!(op => op->Loop_0));
                assert(decreases_to!(op->Loop_0 => op->Loop_0@));
            }
            let l3 = next_index(next_index(next_index(l)));
            block_l(body@, body@.len() as int, checked, runtime, after_test(checked, t), labels_after(checked, l3))
        },
        Ir::Scan(_) => labels_after(checked, next_index(next_index(next_index(l)))),
        Ir::AddMul { terms } => terms_l(terms@, terms@.len() as int, checked, labels_after(checked, l)),
    }
}

/// The temporary number after the first `k` operations of a block.
#[verifier::opaque]
pub open spec fn block_t(ops: Seq<Ir>, k: int, checked: bool, runtime: Runtime, t: usize, l: usize) -> usize
    decreases ops, k,
{
    if k <= 0 || k > ops.len() {
        t
    } else {
        ir_t(ops[k - 1], checked, runtime, block_t(ops, k - 1, checked, runtime, t, l), block_l(ops, k - 1, checked, runtime, t, l))
    }
}

/// The label number after the first `k` operations of a block.
#[verifier::opaque]
pub open spec fn block_l(ops: Seq<Ir>, k: int, checked: bool, runtime: Runtime, t: usize, l: usize) -> usize
    decreases ops, k,
{
    if k <= 0 || k > ops.len() {
        l
    } else {
        ir_l(ops[k - 1], checked, runtime, block_t(ops, k - 1, checked, runtime, t, l), block_l(ops, k - 1, checked, runtime, t, l))
    }
}

/// The text of the first `k` operations of a block.
#[verifier::opaque]
pub open spec fn block_text(ops: Seq<Ir>, k: int, tape_size: usize, checked: bool, runtime: Runtime, t: usize, l: usize) -> Seq<
    char,
>
    decreases ops, k,
{
    if k <= 0 || k > ops.len() {
        Seq::empty()
    } else {
        block_text(ops, k - 1, tape_size, checked, runtime, t, l) + ir_text(
            ops[k - 1],
            tape_size,
            checked,
            runtime,
            block_t(ops, k - 1, checked, runtime, t, l),
            block_l(ops, k - 1, checked, runtime, t, l),
        )
    }
}

/// What LLVM's `i64` binary instruction `opcode` computes from its operands,
/// for the opcodes this backend writes; `None` for any other text.
pub open spec fn i64_binop(opcode: Seq<char>, a: int, b: int) -> Option<int> {
    if opcode == "add"@ {
        Some(a + b)
    } else if opcode == "sub"@ {
        Some(a - b)
    } else if opcode == "mul"@ {
        Some(a * b)
    } else {
        None
    }
}

/// The instruction `dst = opcode i64 src, k`, with the constant `k` in
/// decimal.
pub open spec fn i64_binop_line(dst: Seq<char>, opcode: Seq<char>, src: Seq<char>, k: int) -> Seq<char> {
    "  "@ + dst + " = "@ + opcode + " i64 "@ + src + ", "@ + signed_decimal_chars(k) + "\n"@
}

/// Loading the data pointer into `dst`.
pub open spec fn load_pointer_line(dst: Seq<char>) -> Seq<char> {
    "  "@ + dst + " = load i64, ptr %ptr, align 8"@ + "\n"@
}

/// Storing `src` as the data pointer.
pub open spec fn store_pointer_line(src: Seq<char>) -> Seq<char> {
    "  store i64 "@ + src + ", ptr %ptr, align 8"@ + "\n"@
}

/// Whether `piece` stands somewhere in `text`.
pub open spec fn occurs_in(text: Seq<char>, piece: Seq<char>) -> bool {
    exists|before: Seq<char>, after: Seq<char>| #![trigger before + piece + after] text == before + piece + after
}

/// Text that sets the data pointer to its old value plus `delta`: it loads the
/// pointer, applies one `i64` instruction with a constant, and stores the
/// result back, and that instruction maps every pointer `p` to `p + delta`.
pub open spec fn advances_pointer(text: Seq<char>, delta: int) -> bool {
    exists|a: Seq<char>, b: Seq<char>, opcode: Seq<char>, k: int|
        #![trigger i64_binop_line(b, opcode, a, k)]
        text == load_pointer_line(a) + i64_binop_line(b, opcode, a, k) + store_pointer_line(b) && forall|p: int|
            #[trigger] i64_binop(opcode, p, k) == Some(p + delta)
}

/// Adding `delta` to the data pointer, with temporaries from `t`.
#[verifier::opaque]
pub open spec fn move_text(delta: i64, t: usize) -> Seq<char> {
    if delta == 0 {
        Seq::empty()
    } else {
        "  "@ + temp_name(t) + " = load i64, ptr %ptr, align 8"@ + "\n"@ + "  "@ + temp_name(next_index(t))
            + " = add i64 "@ + temp_name(t) + ", "@ + signed_decimal_chars(delta as int) + "\n"@ + "  store i64 "@
            + temp_name(next_index(t)) + ", ptr %ptr, align 8"@ + "\n"@
    }
}

/// The temporary number after adding `delta` to the data pointer.
pub open spec fn after_move(delta: i64, t: usize) -> usize {
    if delta == 0 {
        t
    } else {
        next_index(next_index(t))
    }
}

/// Testing the current cell and branching to `end` when it is zero and to
/// `body` otherwise, with temporaries from `t` and labels from `l`.
#[verifier::opaque]
pub open spec fn test_text(tape_size: usize, checked: bool, t: usize, l: usize, end: Seq<char>, body: Seq<char>) -> Seq<
    char,
> {
    let c = cell_temp(0, checked, t);
    let byte = next_index(c);
    let flag = next_index(byte);
    cell_ptr_text(0, tape_size, checked, t, l) + "  "@ + temp_name(byte) + " = load i8, ptr "@ + temp_name(c)
        + ", align 1"@ + "\n"@ + "  "@ + temp_name(flag) + " = icmp eq i8 "@ + temp_name(byte) + ", 0"@ + "\n"@
        + "  br i1 "@ + temp_name(flag) + ", label %"@ + end + ", label %"@ + body + "\n"@
}

/// The temporary number after testing the current cell.
pub open spec fn after_test(checked: bool, t: usize) -> usize {
    next_index(next_index(next_index(cell_temp(0, checked, t))))
}

/// A scan: move by `stride` until the current cell is zero, with
/// temporaries from `t` and labels from `l`.
#[verifier::opaque]
pub open spec fn scan_text(stride: i64, tape_size: usize, checked: bool, t: usize, l: usize) -> Seq<char> {
    let check = label_name("scan_check"@, l);
    let body = label_name("scan_body"@, next_index(l));
    let end = label_name("scan_end"@, next_index(next_index(l)));
    let l3 = next_index(next_index(next_index(l)));
    "  br label %"@ + check + "\n"@ + check + ":"@ + "\n"@ + test_text(tape_size, checked, t, l3, end, body) + body
        + ":"@ + "\n"@ + move_text(stride, after_test(checked, t)) + "  br label %"@ + check + "\n"@ + end + ":"@
        + "\n"@
}

/// Calling the input hook, testing for end of input and, when there is a
/// byte, truncating it: everything of reading a byte up to the store, with
/// temporaries from `t` and labels from `l`.
#[verifier::opaque]
pub open spec fn input_head_text(runtime: Runtime, t: usize, l: usize) -> Seq<char> {
    let eof = next_index(t);
    let trunc = next_index(eof);
    let store = label_name("input_store"@, l);
    let cont = label_name("input_cont"@, next_index(l));
    input_call_text(runtime, t) + "  "@ + temp_name(eof) + " = icmp eq i32 "@ + temp_name(t) + ", -1"@ + "\n"@
        + "  br i1 "@ + temp_name(eof) + ", label %"@ + cont + ", label %"@ + store + "\n"@ + store + ":"@ + "\n"@
        + "  "@ + temp_name(trunc) + " = trunc i32 "@ + temp_name(t) + " to i8"@ + "\n"@
}

/// Reading a byte into the cell `offset`, leaving it alone at end of input,
/// with temporaries from `t` and labels from `l`.
#[verifier::opaque]
pub open spec fn input_text(runtime: Runtime, offset: i64, tape_size: usize, checked: bool, t: usize, l: usize) -> Seq<
    char,
> {
    let trunc = next_index(next_index(t));
    let cont = label_name("input_cont"@, next_index(l));
    let t3 = next_index(trunc);
    let l3 = next_index(next_index(l));
    input_head_text(runtime, t, l) + cell_ptr_text(offset, tape_size, checked, t3, l3) + "  store i8 "@ + temp_name(
        trunc,
    ) + ", ptr "@ + temp_name(cell_temp(offset, checked, t3)) + ", align 1"@ + "\n"@ + "  br label %"@ + cont
        + "\n"@ + cont + ":"@ + "\n"@
}

/// Writing the byte in temporary `b` through the runtime's output hook, with
/// temporaries from `t` for the hosted call.
pub open spec fn output_call_text(runtime: Runtime, b: usize, t: usize) -> Seq<char> {
    match runtime {
        Runtime::Hosted => "  "@ + temp_name(t) + " = zext i8 "@ + temp_name(b) + " to i32"@ + "\n"@ + "  "@
            + temp_name(next_index(t)) + " = call i32 @putchar(i32 "@ + temp_name(t) + ")"@ + "\n"@,
        Runtime::Freestanding(options) => "  call void @"@ + options.putchar_symbol@ + "(i8 "@ + temp_name(b)
            + ")"@ + "\n"@,
    }
}

/// The instructions that compute the address of the cell `offset` from the
/// data pointer, with temporaries from `t` and labels from `l`.
#[verifier::opaque]
pub open spec fn cell_ptr_text(offset: i64, tape_size: usize, checked: bool, t: usize, l: usize) -> Seq<char> {
    pointer_text(offset, t) + check_text(offset, tape_size, checked, t, l) + "  "@ + temp_name(
        cell_temp(offset, checked, t),
    ) + " = getelementptr ["@ + decimal_chars(tape_size as nat) + " x i8], ptr @tape, i64 0, i64 "@
        + cell_pointer(offset, t) + "\n"@
}

/// The entry function around a program's operations: its header, the data
/// pointer, the switch of Windows streams to binary when `binary` holds, the
/// operations, and the return.
#[verifier::opaque]
pub open spec fn main_text(ops: Seq<Ir>, tape_size: usize, checked: bool, runtime: Runtime, binary: bool) -> Seq<char> {
    let header = match runtime {
        Runtime::Hosted => "define i32 @main() {"@,
        Runtime::Freestanding(options) => "define void @"@ + options.entry_symbol@ + "() {"@,
    };
    let modes = if binary {
        "  %stdin_mode = call i32 @_setmode(i32 0, i32 32768)"@ + "\n"@
            + "  %stdout_mode = call i32 @_setmode(i32 1, i32 32768)"@ + "\n"@
    } else {
        Seq::empty()
    };
    let ret = match runtime {
        Runtime::Hosted => "  ret i32 0"@,
        Runtime::Freestanding(_) => "  ret void"@,
    };
    header + "\n"@ + "entry"@ + ":"@ + "\n"@ + "  %ptr = alloca i64, align 8"@ + "\n"@
        + "  store i64 0, ptr %ptr, align 8"@ + "\n"@ + modes + block_text(
        ops,
        ops.len() as int,
        tape_size,
        checked,
        runtime,
        0,
        0,
    ) + ret + "\n"@ + "}"@ + "\n"@
}

struct Emitter<'a> {
    output: String,
    tape_size: usize,
    target_triple: Option<&'a String>,
    source_filename: Option<&'a String>,
    bounds_check: bool,
    runtime: &'a Runtime,
    temp_index: usize,
    label_index: usize,
}

/// The decimal spelling of `n`.
fn number(n: u64) -> (r: String)
    ensures
        r@ == decimal_chars(n as nat),
{
    crate::bytes::decimal_text(n)
}

/// The signed decimal spelling of `n`.
fn signed_number(n: i64) -> (r: String)
    ensures
        r@ == signed_decimal_chars(n as int),
{
    crate::bytes::signed_decimal_text(n)
}

impl<'a> Emitter<'a> {
    fn emit_preamble(&mut self)
        requires
            old(self).output@.len() == 0,
        ensures
            banner().is_prefix_of(final(self).output@),
            final(self).tape_size == old(self).tape_size,
            final(self).bounds_check == old(self).bounds_check,
            final(self).runtime == old(self).runtime,
            final(self).temp_index == old(self).temp_index,
            final(self).label_index == old(self).label_index,
            final(self).target_triple == old(self).target_triple,
    {
        self.line("; Generated by hypothalamus.");
        proof {
            reveal_strlit("; Generated by hypothalamus.");
            reveal_strlit("; Generated by hypothalamus.\n");
            reveal_strlit("\n");
            assert(self.output@ =~= banner());
        }
        let ghost start = self.output@;
        if let Some(source_filename) = self.source_filename {
            let mut m = "source_filename = \"".to_owned();
            let escaped = escape_llvm_string(source_filename.as_str());
            m.append(escaped.as_str());
            m.append("\"");
            self.line(m.as_str());
        }
        if let Some(target_triple) = self.target_triple {
            let mut m = "target triple = \"".to_owned();
            let escaped = escape_llvm_string(target_triple.as_str());
            m.append(escaped.as_str());
            m.append("\"");
            self.line(m.as_str());
        }
        self.blank_line();
        let mut m = "@tape = internal global [".to_owned();
        let n = number(self.tape_size as u64);
        m.append(n.as_str());
        m.append(" x i8] zeroinitializer, align 16");
        self.line(m.as_str());
        self.blank_line();
        match self.runtime {
            Runtime::Hosted => {
                self.line("declare i32 @putchar(i32)");
                self.line("declare i32 @getchar()");
                if self.targets_windows() {
                    self.line("declare i32 @_setmode(i32, i32)");
                }
            },
            Runtime::Freestanding(options) => {
                let mut m = "declare void @".to_owned();
                m.append(options.putchar_symbol.as_str());
                m.append("(i8)");
                self.line(m.as_str());
                let mut m = "declare i32 @".to_owned();
                m.append(options.getchar_symbol.as_str());
                m.append("()");
                self.line(m.as_str());
            },
        }
        if self.bounds_check {
            self.line("declare void @llvm.trap()");
        }
        self.blank_line();
        proof {
            lemma_prefix_trans(banner(), start, self.output@);
        }
    }

    #[verifier::rlimit(80)]
    #[verifier::spinoff_prover]
    fn emit_main(&mut self, ops: &[Ir]) -> (binary: bool)
        requires
            old(self).temp_index == 0,
            old(self).label_index == 0,
        ensures
            old(self).output@.is_prefix_of(final(self).output@),
            final(self).output@ == old(self).output@ + main_text(
                ops@,
                old(self).tape_size,
                old(self).bounds_check,
                *old(self).runtime,
                binary,
            ),
            binary ==> old(self).runtime is Hosted,
            old(self).runtime is Hosted ==> (old(self).target_triple matches Some(t) ==> binary
                == crate::bytes::seq_contains(as_bytes_of(t@), as_bytes_of("windows"@))),
            final(self).tape_size == old(self).tape_size,
            final(self).bounds_check == old(self).bounds_check,
            final(self).runtime == old(self).runtime,
    {
        let windows = matches!(self.runtime, Runtime::Hosted) && self.targets_windows();
        let ghost start = self.output@;
        match self.runtime {
            Runtime::Hosted => self.line("define i32 @main() {"),
            Runtime::Freestanding(options) => {
                let mut m = "define void @".to_owned();
                m.append(options.entry_symbol.as_str());
                m.append("() {");
                self.line(m.as_str());
            },
        }
        self.label("entry");
        self.line("  %ptr = alloca i64, align 8");
        self.line("  store i64 0, ptr %ptr, align 8");
        if windows {
            // Windows opens the standard streams in text mode, which would
            // turn every `.` of a newline into two bytes and make `,` stop at
            // a `0x1a`. Brainfuck's streams are bytes, so switch them back.
            // These registers are named so they do not disturb the numbering
            // of the unnamed ones the rest of the function relies on.
            self.line("  %stdin_mode = call i32 @_setmode(i32 0, i32 32768)");
            self.line("  %stdout_mode = call i32 @_setmode(i32 1, i32 32768)");
        }
        let ghost o1 = self.output@;
        self.emit_ops(ops);
        let ghost o2 = self.output@;
        match self.runtime {
            Runtime::Hosted => self.line("  ret i32 0"),
            Runtime::Freestanding(_) => self.line("  ret void"),
        }
        self.line("}");
        proof {
            reveal(main_text);
            assert(self.output@ =~= start + main_text(ops@, self.tape_size, self.bounds_check, *self.runtime, windows));
        }
        windows
    }

    /// Emit one operation.
    #[verifier::rlimit(80)]
    #[verifier::spinoff_prover]
    fn emit_op(&mut self, op: &Ir)
        ensures
            final(self).output@ == old(self).output@ + ir_text(
                *op,
                old(self).tape_size,
                old(self).bounds_check,
                *old(self).runtime,
                old(self).temp_index,
                old(self).label_index,
            ),
            final(self).temp_index == ir_t(
                *op,
                old(self).bounds_check,
                *old(self).runtime,
                old(self).temp_index,
                old(self).label_index,
            ),
            final(self).label_index == ir_l(
                *op,
                old(self).bounds_check,
                *old(self).runtime,
                old(self).temp_index,
                old(self).label_index,
            ),
            final(self).tape_size == old(self).tape_size,
            final(self).bounds_check == old(self).bounds_check,
            final(self).runtime == old(self).runtime,
        decreases *op, 0nat,
    {
        proof {
            reveal(ir_text);
            reveal(ir_t);
            reveal(ir_l);
        }
        match op {
            Ir::Add { offset, delta } => self.emit_add(*offset, *delta),
            Ir::Store { offset, value } => self.emit_set(*offset, *value),
            Ir::Move(delta) => self.emit_move(*delta),
            Ir::Input { offset } => self.emit_input(*offset),
            Ir::Output { offset } => self.emit_output(*offset),
            Ir::Loop(body) => {
                proof {
                    assert(decreases_to!(*op => (*op)->Loop_0));
                    assert(decreases_to!((*op)->Loop_0 => (*op)->Loop_0@));
                }
                self.emit_loop(body.as_slice());
            },
            Ir::Scan(stride) => self.emit_scan(*stride),
            Ir::AddMul { terms } => self.emit_add_mul(terms.as_slice()),
        }
    }

    #[verifier::rlimit(80)]
    #[verifier::spinoff_prover]
    fn emit_ops(&mut self, ops: &[Ir])
        ensures
            old(self).output@.is_prefix_of(final(self).output@),
            final(self).output@ == old(self).output@ + block_text(
                ops@,
                ops@.len() as int,
                old(self).tape_size,
                old(self).bounds_check,
                *old(self).runtime,
                old(self).temp_index,
                old(self).label_index,
            ),
            final(self).temp_index == block_t(
                ops@,
                ops@.len() as int,
                old(self).bounds_check,
                *old(self).runtime,
                old(self).temp_index,
                old(self).label_index,
            ),
            final(self).label_index == block_l(
                ops@,
                ops@.len() as int,
                old(self).bounds_check,
                *old(self).runtime,
                old(self).temp_index,
                old(self).label_index,
            ),
            final(self).tape_size == old(self).tape_size,
            final(self).bounds_check == old(self).bounds_check,
            final(self).runtime == old(self).runtime,
        decreases ops@, 0nat,
    {
        let ghost t0 = self.temp_index;
        let ghost l0 = self.label_index;
        proof {
            reveal(block_text);
            reveal(block_t);
            reveal(block_l);
            assert(self.output@ =~= old(self).output@ + block_text(ops@, 0, self.tape_size, self.bounds_check, *self.runtime, t0, l0));
        }
        let mut k: usize = 0;
        while k < ops.len()
            invariant
                k <= ops@.len(),
                self.output@ == old(self).output@ + block_text(
                    ops@,
                    k as int,
                    self.tape_size,
                    self.bounds_check,
                    *self.runtime,
                    t0,
                    l0,
                ),
                self.temp_index == block_t(ops@, k as int, self.bounds_check, *self.runtime, t0, l0),
                self.label_index == block_l(ops@, k as int, self.bounds_check, *self.runtime, t0, l0),
                self.tape_size == old(self).tape_size,
                self.bounds_check == old(self).bounds_check,
                self.runtime == old(self).runtime,
                t0 == old(self).temp_index,
                l0 == old(self).label_index,
            decreases ops@.len() - k,
        {
            let ghost before = self.output@;
            let ghost tk = self.temp_index;
            let ghost lk = self.label_index;
            proof {
                assert(decreases_to!(ops@ => ops@[k as int]));
            }
            self.emit_op(&ops[k]);
            proof {
                reveal(block_text);
                reveal(block_t);
                reveal(block_l);
                assert(block_text(ops@, k + 1, self.tape_size, self.bounds_check, *self.runtime, t0, l0) =~= block_text(
                    ops@,
                    k as int,
                    self.tape_size,
                    self.bounds_check,
                    *self.runtime,
                    t0,
                    l0,
                ) + ir_text(ops@[k as int], self.tape_size, self.bounds_check, *self.runtime, tk, lk));
            }
            k += 1;
        }
        proof {
            assert(old(self).output@.is_prefix_of(self.output@));
        }
    }

    #[verifier::rlimit(80)]
    #[verifier::spinoff_prover]
    fn emit_add(&mut self, offset: i64, delta: i32)
        ensures
            old(self).output@.is_prefix_of(final(self).output@),
            delta % 256 == 0 ==> final(self).output@ == old(self).output@ && final(self).temp_index == old(
                self,
            ).temp_index && final(self).label_index == old(self).label_index,
            delta % 256 != 0 ==> ({
                let c = cell_temp(offset, old(self).bounds_check, old(self).temp_index);
                let current = next_index(c);
                let next = next_index(current);
                &&& final(self).output@ == old(self).output@ + cell_ptr_text(
                    offset,
                    old(self).tape_size,
                    old(self).bounds_check,
                    old(self).temp_index,
                    old(self).label_index,
                ) + "  "@ + temp_name(current) + " = load i8, ptr "@ + temp_name(c) + ", align 1"@ + "\n"@
                    + "  "@ + temp_name(next) + " = add i8 "@ + temp_name(current) + ", "@ + decimal_chars(
                    (delta % 256) as nat,
                ) + "\n"@ + "  store i8 "@ + temp_name(next) + ", ptr "@ + temp_name(c) + ", align 1"@ + "\n"@
                &&& final(self).temp_index == next_index(next)
                &&& final(self).label_index == labels_after(old(self).bounds_check, old(self).label_index)
            }),
            final(self).tape_size == old(self).tape_size,
            final(self).bounds_check == old(self).bounds_check,
            final(self).runtime == old(self).runtime,
    {
        let ghost d_in = delta;
        let delta = delta % 256;
        let delta = if delta < 0 { delta + 256 } else { delta };
        assert(delta as int == d_in as int % 256);
        if delta == 0 {
            return;
        }
        let ghost start = self.output@;
        let cell_ptr = self.emit_cell_ptr(offset);
        let ghost o1 = self.output@;
        let current = self.temp();
        let mut m = "  ".to_owned();
        m.append(current.as_str());
        m.append(" = load i8, ptr ");
        m.append(cell_ptr.as_str());
        m.append(", align 1");
        self.line(m.as_str());
        let ghost o2 = self.output@;
        assert(o2 =~= o1 + "  "@ + current@ + " = load i8, ptr "@ + cell_ptr@ + ", align 1"@ + "\n"@);
        let next = self.temp();
        let mut m = "  ".to_owned();
        m.append(next.as_str());
        m.append(" = add i8 ");
        m.append(current.as_str());
        m.append(", ");
        let d = signed_number(delta as i64);
        m.append(d.as_str());
        self.line(m.as_str());
        let ghost o3 = self.output@;
        assert(o3 =~= o2 + "  "@ + next@ + " = add i8 "@ + current@ + ", "@ + d@ + "\n"@);
        assert(d@ == decimal_chars((d_in % 256) as nat));
        self.store_line(next.as_str(), cell_ptr.as_str());
        assert(self.output@ =~= o3 + "  store i8 "@ + next@ + ", ptr "@ + cell_ptr@ + ", align 1"@ + "\n"@);
        proof {
            assert(start.is_prefix_of(self.output@));
        }
    }

    /// `store i8 value, ptr cell, align 1`.
    fn store_line(&mut self, value: &str, cell_ptr: &str)
        ensures
            old(self).output@.is_prefix_of(final(self).output@),
            final(self).output@ == old(self).output@ + "  store i8 "@ + value@ + ", ptr "@ + cell_ptr@
                + ", align 1"@ + "\n"@,
            final(self).temp_index == old(self).temp_index,
            final(self).label_index == old(self).label_index,
            final(self).tape_size == old(self).tape_size,
            final(self).bounds_check == old(self).bounds_check,
            final(self).runtime == old(self).runtime,
    {
        let mut m = "  store i8 ".to_owned();
        m.append(value);
        m.append(", ptr ");
        m.append(cell_ptr);
        m.append(", align 1");
        self.line(m.as_str());
    }

    fn emit_set(&mut self, offset: i64, value: u8)
        ensures
            old(self).output@.is_prefix_of(final(self).output@),
            final(self).output@ == old(self).output@ + cell_ptr_text(
                offset,
                old(self).tape_size,
                old(self).bounds_check,
                old(self).temp_index,
                old(self).label_index,
            ) + "  store i8 "@ + decimal_chars(value as nat) + ", ptr "@ + temp_name(
                cell_temp(offset, old(self).bounds_check, old(self).temp_index),
            ) + ", align 1"@ + "\n"@,
            final(self).temp_index == next_index(cell_temp(offset, old(self).bounds_check, old(self).temp_index)),
            final(self).label_index == labels_after(old(self).bounds_check, old(self).label_index),
            final(self).tape_size == old(self).tape_size,
            final(self).bounds_check == old(self).bounds_check,
            final(self).runtime == old(self).runtime,
    {
        let ghost start = self.output@;
        let cell_ptr = self.emit_cell_ptr(offset);
        let v = number(value as u64);
        self.store_line(v.as_str(), cell_ptr.as_str());
        proof {
            assert(start.is_prefix_of(self.output@));
        }
    }

    #[verifier::rlimit(80)]
    #[verifier::spinoff_prover]
    fn emit_move(&mut self, delta: i64)
        ensures
            old(self).output@.is_prefix_of(final(self).output@),
            final(self).output@ == old(self).output@ + move_text(delta, old(self).temp_index),
            final(self).temp_index == after_move(delta, old(self).temp_index),
            final(self).label_index == old(self).label_index,
            final(self).tape_size == old(self).tape_size,
            final(self).bounds_check == old(self).bounds_check,
            final(self).runtime == old(self).runtime,
    {
        proof {
            reveal(move_text);
        }
        if delta == 0 {
            return;
        }
        let ghost start = self.output@;
        let current = self.temp();
        let mut m = "  ".to_owned();
        m.append(current.as_str());
        m.append(" = load i64, ptr %ptr, align 8");
        self.line(m.as_str());
        let ghost o1 = self.output@;
        assert(o1 =~= start + "  "@ + current@ + " = load i64, ptr %ptr, align 8"@ + "\n"@);
        let next = self.temp();
        let mut m = "  ".to_owned();
        m.append(next.as_str());
        m.append(" = add i64 ");
        m.append(current.as_str());
        m.append(", ");
        let d = signed_number(delta);
        m.append(d.as_str());
        self.line(m.as_str());
        let ghost o2 = self.output@;
        assert(o2 =~= o1 + "  "@ + next@ + " = add i64 "@ + current@ + ", "@ + d@ + "\n"@);
        let mut m = "  store i64 ".to_owned();
        m.append(next.as_str());
        m.append(", ptr %ptr, align 8");
        self.line(m.as_str());
        proof {
            assert(start.is_prefix_of(self.output@));
        }
    }

    #[verifier::rlimit(80)]
    #[verifier::spinoff_prover]
    fn emit_input(&mut self, offset: i64)
        ensures
            old(self).output@.is_prefix_of(final(self).output@),
            final(self).output@ == old(self).output@ + input_text(
                *old(self).runtime,
                offset,
                old(self).tape_size,
                old(self).bounds_check,
                old(self).temp_index,
                old(self).label_index,
            ),
            final(self).temp_index == next_index(
                cell_temp(offset, old(self).bounds_check, next_index(next_index(next_index(old(self).temp_index)))),
            ),
            final(self).label_index == labels_after(
                old(self).bounds_check,
                next_index(next_index(old(self).label_index)),
            ),
            final(self).tape_size == old(self).tape_size,
            final(self).bounds_check == old(self).bounds_check,
            final(self).runtime == old(self).runtime,
    {
        proof {
            reveal(input_text);
        }
        let ghost start = self.output@;
        let ghost t0 = self.temp_index;
        let ghost l0 = self.label_index;
        let (truncated, cont_label) = self.input_head();
        let ghost o3 = self.output@;
        let cell_ptr = self.emit_cell_ptr(offset);
        self.store_line(truncated.as_str(), cell_ptr.as_str());
        self.jump(cont_label.as_str());

        self.label(cont_label.as_str());
        assert(self.output@ =~= start + input_text(*self.runtime, offset, self.tape_size, self.bounds_check, t0, l0));
    }

    /// `%t<op><operand><tail>`, defining a new temporary.
    fn temp_line(&mut self, operand: &str, op: &str, tail: &str) -> (r: String)
        ensures
            final(self).output@ == old(self).output@ + "  "@ + temp_name(old(self).temp_index) + op@ + operand@ + tail@
                + "\n"@,
            r@ == temp_name(old(self).temp_index),
            final(self).temp_index == next_index(old(self).temp_index),
            final(self).label_index == old(self).label_index,
            final(self).tape_size == old(self).tape_size,
            final(self).bounds_check == old(self).bounds_check,
            final(self).runtime == old(self).runtime,
    {
        let t = self.temp();
        let mut m = "  ".to_owned();
        m.append(t.as_str());
        m.append(op);
        m.append(operand);
        m.append(tail);
        self.line(m.as_str());
        t
    }

    /// Call the input hook into a new temporary.
    fn call_getchar(&mut self) -> (r: String)
        ensures
            final(self).output@ == old(self).output@ + input_call_text(*old(self).runtime, old(self).temp_index),
            r@ == temp_name(old(self).temp_index),
            final(self).temp_index == next_index(old(self).temp_index),
            final(self).label_index == old(self).label_index,
            final(self).tape_size == old(self).tape_size,
            final(self).bounds_check == old(self).bounds_check,
            final(self).runtime == old(self).runtime,
    {
        let byte = self.temp();
        match self.runtime {
            Runtime::Hosted => {
                let mut m = "  ".to_owned();
                m.append(byte.as_str());
                m.append(" = call i32 @getchar()");
                self.line(m.as_str());
            },
            Runtime::Freestanding(options) => {
                let mut m = "  ".to_owned();
                m.append(byte.as_str());
                m.append(" = call i32 @");
                m.append(options.getchar_symbol.as_str());
                m.append("()");
                self.line(m.as_str());
            },
        }
        byte
    }

    /// Call the input hook, branch past the store at end of input, and
    /// truncate the byte; returns the truncated byte and the label after the
    /// store.
    #[verifier::rlimit(100)]
    #[verifier::spinoff_prover]
    fn input_head(&mut self) -> (r: (String, String))
        ensures
            final(self).output@ == old(self).output@ + input_head_text(
                *old(self).runtime,
                old(self).temp_index,
                old(self).label_index,
            ),
            r.0@ == temp_name(next_index(next_index(old(self).temp_index))),
            r.1@ == label_name("input_cont"@, next_index(old(self).label_index)),
            final(self).temp_index == next_index(next_index(next_index(old(self).temp_index))),
            final(self).label_index == next_index(next_index(old(self).label_index)),
            final(self).tape_size == old(self).tape_size,
            final(self).bounds_check == old(self).bounds_check,
            final(self).runtime == old(self).runtime,
    {
        proof {
            reveal(input_head_text);
        }
        let ghost start = self.output@;
        let ghost t0 = self.temp_index;
        let ghost l0 = self.label_index;
        let byte = self.call_getchar();
        let ghost o1 = self.output@;
        assert(o1 =~= start + input_call_text(*self.runtime, t0));
        let is_eof = self.temp_line(byte.as_str(), " = icmp eq i32 ", ", -1");
        let ghost o2 = self.output@;

        let store_label = self.fresh_label("input_store");
        let cont_label = self.fresh_label("input_cont");
        self.branch(is_eof.as_str(), cont_label.as_str(), store_label.as_str());
        let ghost ob = self.output@;
        let ghost br = "  br i1 "@ + is_eof@ + ", label %"@ + cont_label@ + ", label %"@ + store_label@ + "\n"@;
        assert(ob =~= o2 + br);

        self.label(store_label.as_str());
        let ghost ol = self.output@;
        let ghost lb = store_label@ + ":"@ + "\n"@;
        assert(ol =~= o2 + br + lb);
        let truncated = self.temp_line(byte.as_str(), " = trunc i32 ", " to i8");
        let ghost o3 = self.output@;
        let ghost tr = "  "@ + truncated@ + " = trunc i32 "@ + byte@ + " to i8"@ + "\n"@;
        assert(o3 =~= o2 + br + lb + tr);
        let ghost ec = "  "@ + is_eof@ + " = icmp eq i32 "@ + byte@ + ", -1"@ + "\n"@;
        assert(o2 == o1 + ec);
        assert(input_head_text(*self.runtime, t0, l0) =~= input_call_text(*self.runtime, t0) + ec + br + lb + tr);
        assert(o3 =~= start + input_head_text(*self.runtime, t0, l0));
        (truncated, cont_label)
    }

    #[verifier::rlimit(80)]
    #[verifier::spinoff_prover]
    fn emit_output(&mut self, offset: i64)
        ensures
            old(self).output@.is_prefix_of(final(self).output@),
            ({
                let c = cell_temp(offset, old(self).bounds_check, old(self).temp_index);
                let b = next_index(c);
                &&& final(self).output@ == old(self).output@ + cell_ptr_text(
                    offset,
                    old(self).tape_size,
                    old(self).bounds_check,
                    old(self).temp_index,
                    old(self).label_index,
                ) + "  "@ + temp_name(b) + " = load i8, ptr "@ + temp_name(c) + ", align 1"@ + "\n"@
                    + output_call_text(*old(self).runtime, b, next_index(b))
                &&& final(self).temp_index == (if old(self).runtime is Hosted {
                    next_index(next_index(next_index(b)))
                } else {
                    next_index(b)
                })
            }),
            final(self).label_index == labels_after(old(self).bounds_check, old(self).label_index),
            final(self).tape_size == old(self).tape_size,
            final(self).bounds_check == old(self).bounds_check,
            final(self).runtime == old(self).runtime,
    {
        let ghost start = self.output@;
        let cell_ptr = self.emit_cell_ptr(offset);
        let ghost tb = self.temp_index;
        let byte = self.temp();
        self.load_byte(byte.as_str(), cell_ptr.as_str());
        let ghost o2 = self.output@;
        let ghost t2 = self.temp_index;
        match self.runtime {
            Runtime::Hosted => {
                let widened = self.temp();
                let mut m = "  ".to_owned();
                m.append(widened.as_str());
                m.append(" = zext i8 ");
                m.append(byte.as_str());
                m.append(" to i32");
                self.line(m.as_str());
                let ghost o3 = self.output@;
                assert(o3 =~= o2 + "  "@ + widened@ + " = zext i8 "@ + byte@ + " to i32"@ + "\n"@);
                let result = self.temp();
                let mut m = "  ".to_owned();
                m.append(result.as_str());
                m.append(" = call i32 @putchar(i32 ");
                m.append(widened.as_str());
                m.append(")");
                self.line(m.as_str());
                assert(self.output@ =~= o2 + output_call_text(*self.runtime, tb, t2));
            },
            Runtime::Freestanding(options) => {
                let mut m = "  call void @".to_owned();
                m.append(options.putchar_symbol.as_str());
                m.append("(i8 ");
                m.append(byte.as_str());
                m.append(")");
                self.line(m.as_str());
            },
        }
        proof {
            assert(start.is_prefix_of(self.output@));
        }
    }

    /// `name = load i8, ptr cell, align 1`.
    fn load_byte(&mut self, name: &str, cell_ptr: &str)
        ensures
            old(self).output@.is_prefix_of(final(self).output@),
            final(self).output@ == old(self).output@ + "  "@ + name@ + " = load i8, ptr "@ + cell_ptr@
                + ", align 1"@ + "\n"@,
            final(self).temp_index == old(self).temp_index,
            final(self).label_index == old(self).label_index,
            final(self).tape_size == old(self).tape_size,
            final(self).bounds_check == old(self).bounds_check,
            final(self).runtime == old(self).runtime,
    {
        let mut m = "  ".to_owned();
        m.append(name);
        m.append(" = load i8, ptr ");
        m.append(cell_ptr);
        m.append(", align 1");
        self.line(m.as_str());
    }

    /// `br label %target`.
    fn jump(&mut self, target: &str)
        ensures
            old(self).output@.is_prefix_of(final(self).output@),
            final(self).output@ == old(self).output@ + "  br label %"@ + target@ + "\n"@,
            final(self).temp_index == old(self).temp_index,
            final(self).label_index == old(self).label_index,
            final(self).tape_size == old(self).tape_size,
            final(self).bounds_check == old(self).bounds_check,
            final(self).runtime == old(self).runtime,
    {
        let mut m = "  br label %".to_owned();
        m.append(target);
        self.line(m.as_str());
    }

    /// `br i1 cond, label %yes, label %no`.
    fn branch(&mut self, cond: &str, yes: &str, no: &str)
        ensures
            old(self).output@.is_prefix_of(final(self).output@),
            final(self).output@ == old(self).output@ + "  br i1 "@ + cond@ + ", label %"@ + yes@ + ", label %"@
                + no@ + "\n"@,
            final(self).temp_index == old(self).temp_index,
            final(self).label_index == old(self).label_index,
            final(self).tape_size == old(self).tape_size,
            final(self).bounds_check == old(self).bounds_check,
            final(self).runtime == old(self).runtime,
    {
        let mut m = "  br i1 ".to_owned();
        m.append(cond);
        m.append(", label %");
        m.append(yes);
        m.append(", label %");
        m.append(no);
        self.line(m.as_str());
    }

    /// Test the current cell and branch to `end` when it is zero and to
    /// `body` otherwise.
    #[verifier::rlimit(80)]
    #[verifier::spinoff_prover]
    fn test_current(&mut self, end: &str, body: &str)
        ensures
            old(self).output@.is_prefix_of(final(self).output@),
            final(self).output@ == old(self).output@ + test_text(
                old(self).tape_size,
                old(self).bounds_check,
                old(self).temp_index,
                old(self).label_index,
                end@,
                body@,
            ),
            final(self).temp_index == after_test(old(self).bounds_check, old(self).temp_index),
            final(self).label_index == labels_after(old(self).bounds_check, old(self).label_index),
            final(self).tape_size == old(self).tape_size,
            final(self).bounds_check == old(self).bounds_check,
            final(self).runtime == old(self).runtime,
    {
        proof {
            reveal(test_text);
        }
        let ghost start = self.output@;
        let cell_ptr = self.emit_cell_ptr(0);
        let ghost o1 = self.output@;
        let byte = self.temp();
        self.load_byte(byte.as_str(), cell_ptr.as_str());
        let ghost o2 = self.output@;
        let is_zero = self.temp();
        let mut m = "  ".to_owned();
        m.append(is_zero.as_str());
        m.append(" = icmp eq i8 ");
        m.append(byte.as_str());
        m.append(", 0");
        self.line(m.as_str());
        let ghost o3 = self.output@;
        assert(o3 =~= o2 + "  "@ + is_zero@ + " = icmp eq i8 "@ + byte@ + ", 0"@ + "\n"@);
        self.branch(is_zero.as_str(), end, body);
        assert(self.output@ =~= o3 + "  br i1 "@ + is_zero@ + ", label %"@ + end@ + ", label %"@ + body@ + "\n"@);
        proof {
            assert(start.is_prefix_of(self.output@));
        }
    }

    #[verifier::rlimit(80)]
    #[verifier::spinoff_prover]
    fn emit_loop(&mut self, body: &[Ir])
        ensures
            old(self).output@.is_prefix_of(final(self).output@),
            final(self).output@ == old(self).output@ + loop_text(
                body@,
                old(self).tape_size,
                old(self).bounds_check,
                *old(self).runtime,
                old(self).temp_index,
                old(self).label_index,
            ),
            ({
                let l3 = next_index(next_index(next_index(old(self).label_index)));
                let tb = after_test(old(self).bounds_check, old(self).temp_index);
                let lb = labels_after(old(self).bounds_check, l3);
                &&& final(self).temp_index == block_t(body@, body@.len() as int, old(self).bounds_check, *old(self).runtime, tb, lb)
                &&& final(self).label_index == block_l(body@, body@.len() as int, old(self).bounds_check, *old(self).runtime, tb, lb)
            }),
            final(self).tape_size == old(self).tape_size,
            final(self).bounds_check == old(self).bounds_check,
            final(self).runtime == old(self).runtime,
        decreases body@, 1nat,
    {
        let ghost start = self.output@;
        let check_label = self.fresh_label("loop_check");
        let body_label = self.fresh_label("loop_body");
        let end_label = self.fresh_label("loop_end");
        self.jump(check_label.as_str());
        self.label(check_label.as_str());
        let ghost head = "  br label %"@ + check_label@ + "\n"@ + check_label@ + ":"@ + "\n"@;
        assert(self.output@ =~= start + head);
        let ghost o1 = self.output@;
        let ghost t1 = self.temp_index;
        let ghost l1 = self.label_index;
        self.test_current(end_label.as_str(), body_label.as_str());
        let ghost test = test_text(self.tape_size, self.bounds_check, t1, l1, end_label@, body_label@);
        self.label(body_label.as_str());
        let ghost o2 = self.output@;
        assert(o2 =~= o1 + test + (body_label@ + ":"@ + "\n"@));
        let ghost t2 = self.temp_index;
        let ghost l2 = self.label_index;
        self.emit_ops(body);
        let ghost blk = block_text(body@, body@.len() as int, self.tape_size, self.bounds_check, *self.runtime, t2, l2);
        let ghost o3 = self.output@;
        self.jump(check_label.as_str());
        self.label(end_label.as_str());
        let ghost tail = "  br label %"@ + check_label@ + "\n"@ + end_label@ + ":"@ + "\n"@;
        assert(self.output@ =~= o3 + tail);
        assert(self.output@ =~= start + (head + test + (body_label@ + ":"@ + "\n"@) + blk + tail));
        assert(loop_text(body@, self.tape_size, self.bounds_check, *self.runtime, old(self).temp_index, old(self).label_index)
            == head + test + (body_label@ + ":"@ + "\n"@) + blk + tail) by {
            reveal(loop_text);
        }
    }

    #[verifier::rlimit(80)]
    #[verifier::spinoff_prover]
    fn emit_scan(&mut self, stride: i64)
        ensures
            old(self).output@.is_prefix_of(final(self).output@),
            final(self).output@ == old(self).output@ + scan_text(
                stride,
                old(self).tape_size,
                old(self).bounds_check,
                old(self).temp_index,
                old(self).label_index,
            ),
            final(self).temp_index == after_move(stride, after_test(old(self).bounds_check, old(self).temp_index)),
            final(self).label_index == labels_after(
                old(self).bounds_check,
                next_index(next_index(next_index(old(self).label_index))),
            ),
            final(self).tape_size == old(self).tape_size,
            final(self).bounds_check == old(self).bounds_check,
            final(self).runtime == old(self).runtime,
    {
        proof {
            reveal(scan_text);
        }
        let ghost start = self.output@;
        let ghost t0 = self.temp_index;
        let ghost l0 = self.label_index;
        let check_label = self.fresh_label("scan_check");
        let body_label = self.fresh_label("scan_body");
        let end_label = self.fresh_label("scan_end");
        self.jump(check_label.as_str());
        self.label(check_label.as_str());
        let ghost head = "  br label %"@ + check_label@ + "\n"@ + check_label@ + ":"@ + "\n"@;
        assert(self.output@ =~= start + head);
        let ghost o1 = self.output@;
        let ghost t1 = self.temp_index;
        let ghost l1 = self.label_index;
        self.test_current(end_label.as_str(), body_label.as_str());
        let ghost test = test_text(self.tape_size, self.bounds_check, t1, l1, end_label@, body_label@);
        assert(self.output@ == o1 + test);
        self.label(body_label.as_str());
        let ghost o2 = self.output@;
        let ghost t2 = self.temp_index;
        self.emit_move(stride);
        let ghost mv = move_text(stride, t2);
        assert(self.output@ == o2 + mv);
        let ghost o3 = self.output@;
        self.jump(check_label.as_str());
        self.label(end_label.as_str());
        let ghost tail = "  br label %"@ + check_label@ + "\n"@ + end_label@ + ":"@ + "\n"@;
        assert(self.output@ =~= o3 + tail);
        assert(scan_text(stride, self.tape_size, self.bounds_check, t0, l0) =~= head + test + (body_label@ + ":"@
            + "\n"@) + mv + tail);
        assert(self.output@ =~= start + scan_text(stride, self.tape_size, self.bounds_check, t0, l0));
    }

    #[verifier::rlimit(80)]
    #[verifier::spinoff_prover]
    fn emit_add_mul(&mut self, terms: &[(i64, i32)])
        ensures
            old(self).output@.is_prefix_of(final(self).output@),
            ({
                let c = cell_temp(0, old(self).bounds_check, old(self).temp_index);
                let src = next_index(c);
                let l1 = labels_after(old(self).bounds_check, old(self).label_index);
                &&& final(self).output@ == old(self).output@ + cell_ptr_text(
                    0,
                    old(self).tape_size,
                    old(self).bounds_check,
                    old(self).temp_index,
                    old(self).label_index,
                ) + "  "@ + temp_name(src) + " = load i8, ptr "@ + temp_name(c) + ", align 1"@ + "\n"@
                    + terms_text(
                    terms@,
                    terms@.len() as int,
                    temp_name(src),
                    old(self).tape_size,
                    old(self).bounds_check,
                    next_index(src),
                    l1,
                ) + "  store i8 "@ + "0"@ + ", ptr "@ + temp_name(c) + ", align 1"@ + "\n"@
                &&& final(self).temp_index == terms_t(terms@, terms@.len() as int, old(self).bounds_check, next_index(src))
                &&& final(self).label_index == terms_l(terms@, terms@.len() as int, old(self).bounds_check, l1)
            }),
            final(self).tape_size == old(self).tape_size,
            final(self).bounds_check == old(self).bounds_check,
            final(self).runtime == old(self).runtime,
    {
        let source_ptr = self.emit_cell_ptr(0);
        let source = self.temp();
        self.load_byte(source.as_str(), source_ptr.as_str());
        let ghost base = self.output@;
        let ghost t1 = self.temp_index;
        let ghost l1 = self.label_index;
        let mut k: usize = 0;
        while k < terms.len()
            invariant
                k <= terms@.len(),
                self.output@ == base + terms_text(terms@, k as int, source@, self.tape_size, self.bounds_check, t1, l1),
                self.temp_index == terms_t(terms@, k as int, self.bounds_check, t1),
                self.label_index == terms_l(terms@, k as int, self.bounds_check, l1),
                self.tape_size == old(self).tape_size,
                self.bounds_check == old(self).bounds_check,
                self.runtime == old(self).runtime,
            decreases terms@.len() - k,
        {
            let (offset, factor) = terms[k];
            self.emit_term(offset, factor, source.as_str());
            k += 1;
        }
        let ghost before = self.output@;
        self.store_line("0", source_ptr.as_str());
        proof {
            assert(old(self).output@.is_prefix_of(self.output@));
        }
    }

    /// Add `source` times `factor` to the cell `offset`.
    fn emit_term(&mut self, offset: i64, factor: i32, source: &str)
        ensures
            final(self).output@ == old(self).output@ + term_text(
                offset,
                factor as int,
                source@,
                old(self).tape_size,
                old(self).bounds_check,
                old(self).temp_index,
                old(self).label_index,
            ),
            final(self).temp_index == term_t(offset, factor as int, old(self).bounds_check, old(self).temp_index),
            final(self).label_index == term_l(factor as int, old(self).bounds_check, old(self).label_index),
            final(self).tape_size == old(self).tape_size,
            final(self).bounds_check == old(self).bounds_check,
            final(self).runtime == old(self).runtime,
    {
        let ghost f_in = factor;
        let factor = factor % 256;
        let factor = if factor < 0 { factor + 256 } else { factor };
        assert(factor as int == f_in as int % 256);
        if factor == 0 {
            assert(self.output@ =~= old(self).output@ + Seq::<char>::empty());
            return;
        }
        let product = self.emit_product(factor, source);
        self.add_into(offset, product.as_str());
    }

    /// Form `source` times `factor` in a new temporary, or name `source`
    /// itself for a factor of one.
    fn emit_product(&mut self, factor: i32, source: &str) -> (r: String)
        requires
            1 <= factor <= 255,
        ensures
            final(self).output@ == old(self).output@ + product_text(factor as int, source@, old(self).temp_index),
            r@ == product_name(factor as int, source@, old(self).temp_index),
            final(self).temp_index == after_product(factor as int, old(self).temp_index),
            final(self).label_index == old(self).label_index,
            final(self).tape_size == old(self).tape_size,
            final(self).bounds_check == old(self).bounds_check,
            final(self).runtime == old(self).runtime,
    {
        if factor == 1 {
            assert(self.output@ =~= old(self).output@ + Seq::<char>::empty());
            source.to_owned()
        } else {
            let product = self.temp();
            let mut m = "  ".to_owned();
            m.append(product.as_str());
            m.append(" = mul i8 ");
            m.append(source);
            m.append(", ");
            let f = signed_number(factor as i64);
            m.append(f.as_str());
            self.line(m.as_str());
            assert(self.output@ =~= old(self).output@ + product_text(factor as int, source@, old(self).temp_index));
            product
        }
    }

    /// Add the value named `product` to the cell `offset`.
    #[verifier::rlimit(80)]
    #[verifier::spinoff_prover]
    fn add_into(&mut self, offset: i64, product: &str)
        ensures
            final(self).output@ == old(self).output@ + add_into_text(
                offset,
                product@,
                old(self).tape_size,
                old(self).bounds_check,
                old(self).temp_index,
                old(self).label_index,
            ),
            final(self).temp_index == next_index(
                next_index(next_index(cell_temp(offset, old(self).bounds_check, old(self).temp_index))),
            ),
            final(self).label_index == labels_after(old(self).bounds_check, old(self).label_index),
            final(self).tape_size == old(self).tape_size,
            final(self).bounds_check == old(self).bounds_check,
            final(self).runtime == old(self).runtime,
    {
        proof {
            reveal(add_into_text);
        }
        let cell_ptr = self.emit_cell_ptr(offset);
        let ghost o2 = self.output@;
        let current = self.temp();
        self.load_byte(current.as_str(), cell_ptr.as_str());
        let next = self.temp();
        let mut m = "  ".to_owned();
        m.append(next.as_str());
        m.append(" = add i8 ");
        m.append(current.as_str());
        m.append(", ");
        m.append(product);
        self.line(m.as_str());
        let ghost o3 = self.output@;
        assert(o3 =~= o2 + "  "@ + current@ + " = load i8, ptr "@ + cell_ptr@ + ", align 1"@ + "\n"@ + "  "@ + next@
            + " = add i8 "@ + current@ + ", "@ + product@ + "\n"@);
        self.store_line(next.as_str(), cell_ptr.as_str());
    }

    /// Load the data pointer and add `offset`, naming the result.
    fn load_pointer(&mut self, offset: i64) -> (r: String)
        ensures
            final(self).output@ == old(self).output@ + pointer_text(offset, old(self).temp_index),
            r@ == cell_pointer(offset, old(self).temp_index),
            final(self).temp_index == after_pointer(offset, old(self).temp_index),
            final(self).label_index == old(self).label_index,
            final(self).tape_size == old(self).tape_size,
            final(self).bounds_check == old(self).bounds_check,
            final(self).runtime == old(self).runtime,
    {
        let ghost o0 = self.output@;
        let ghost t0 = self.temp_index;
        let pointer = self.temp();
        let mut m = "  ".to_owned();
        m.append(pointer.as_str());
        m.append(" = load i64, ptr %ptr, align 8");
        self.line(m.as_str());
        if offset == 0 {
            pointer
        } else {
            let adjusted = self.temp();
            let mut m = "  ".to_owned();
            m.append(adjusted.as_str());
            m.append(" = add i64 ");
            m.append(pointer.as_str());
            m.append(", ");
            let o = signed_number(offset);
            m.append(o.as_str());
            self.line(m.as_str());
            assert(self.output@ =~= o0 + pointer_text(offset, t0));
            adjusted
        }
    }

    /// The address of cell `pointer` of the tape, as a new temporary.
    fn cell_address(&mut self, pointer: &str) -> (r: String)
        ensures
            final(self).output@ == old(self).output@ + "  "@ + temp_name(old(self).temp_index)
                + " = getelementptr ["@ + decimal_chars(old(self).tape_size as nat)
                + " x i8], ptr @tape, i64 0, i64 "@ + pointer@ + "\n"@,
            r@ == temp_name(old(self).temp_index),
            final(self).temp_index == next_index(old(self).temp_index),
            final(self).label_index == old(self).label_index,
            final(self).tape_size == old(self).tape_size,
            final(self).bounds_check == old(self).bounds_check,
            final(self).runtime == old(self).runtime,
    {
        let cell_ptr = self.temp();
        let mut m = "  ".to_owned();
        m.append(cell_ptr.as_str());
        m.append(" = getelementptr [");
        let n = number(self.tape_size as u64);
        m.append(n.as_str());
        m.append(" x i8], ptr @tape, i64 0, i64 ");
        m.append(pointer);
        self.line(m.as_str());
        cell_ptr
    }

    #[verifier::rlimit(80)]
    #[verifier::spinoff_prover]
    fn emit_cell_ptr(&mut self, offset: i64) -> (r: String)
        ensures
            old(self).output@.is_prefix_of(final(self).output@),
            final(self).output@ == old(self).output@ + cell_ptr_text(
                offset,
                old(self).tape_size,
                old(self).bounds_check,
                old(self).temp_index,
                old(self).label_index,
            ),
            r@ == temp_name(cell_temp(offset, old(self).bounds_check, old(self).temp_index)),
            final(self).temp_index == next_index(cell_temp(offset, old(self).bounds_check, old(self).temp_index)),
            final(self).label_index == (if old(self).bounds_check {
                next_index(next_index(old(self).label_index))
            } else {
                old(self).label_index
            }),
            final(self).tape_size == old(self).tape_size,
            final(self).bounds_check == old(self).bounds_check,
            final(self).runtime == old(self).runtime,
    {
        proof {
            reveal(cell_ptr_text);
        }
        let ghost o0 = self.output@;
        let ghost t0 = self.temp_index;
        let ghost l0 = self.label_index;
        let pointer = self.load_pointer(offset);
        if self.bounds_check {
            self.emit_bounds_check(pointer.as_str());
        }
        let ghost o2 = self.output@;
        assert(o2 =~= o0 + pointer_text(offset, t0) + check_text(offset, self.tape_size, self.bounds_check, t0, l0));
        let cell_ptr = self.cell_address(pointer.as_str());
        assert(self.output@ =~= o0 + cell_ptr_text(offset, self.tape_size, self.bounds_check, t0, l0));
        cell_ptr
    }

    #[verifier::rlimit(80)]
    #[verifier::spinoff_prover]
    fn emit_bounds_check(&mut self, pointer: &str)
        ensures
            old(self).output@.is_prefix_of(final(self).output@),
            final(self).output@ == old(self).output@ + bounds_check_text(
                pointer@,
                old(self).tape_size,
                old(self).temp_index,
                old(self).label_index,
            ),
            final(self).temp_index == next_index(old(self).temp_index),
            final(self).label_index == next_index(next_index(old(self).label_index)),
            final(self).tape_size == old(self).tape_size,
            final(self).bounds_check == old(self).bounds_check,
            final(self).runtime == old(self).runtime,
    {
        proof {
            reveal(bounds_check_text);
        }
        let ghost start = self.output@;
        let in_bounds = self.temp();
        let mut m = "  ".to_owned();
        m.append(in_bounds.as_str());
        m.append(" = icmp ult i64 ");
        m.append(pointer);
        m.append(", ");
        let n = number(self.tape_size as u64);
        m.append(n.as_str());
        self.line(m.as_str());
        let trap_label = self.fresh_label("bounds_trap");
        let cont_label = self.fresh_label("bounds_cont");
        self.branch(in_bounds.as_str(), cont_label.as_str(), trap_label.as_str());
        self.label(trap_label.as_str());
        self.line("  call void @llvm.trap()");
        self.line("  unreachable");
        self.label(cont_label.as_str());
        proof {
            assert(start.is_prefix_of(self.output@));
        }
    }

    /// Whether the program will run on Windows.
    ///
    /// A target with no explicit triple compiles for whatever host clang runs
    /// on, so the host decides.
    fn targets_windows(&self) -> (r: bool)
        ensures
            self.target_triple matches Some(t) ==> r == crate::bytes::seq_contains(
                as_bytes_of(t@),
                as_bytes_of("windows"@),
            ),
    {
        match self.target_triple {
            Some(triple) => str_contains(triple.as_str(), "windows"),
            None => host_is_windows(),
        }
    }

    fn temp(&mut self) -> (r: String)
        ensures
            final(self).output@ == old(self).output@,
            r@ == temp_name(old(self).temp_index),
            final(self).tape_size == old(self).tape_size,
            final(self).bounds_check == old(self).bounds_check,
            final(self).runtime == old(self).runtime,
            final(self).temp_index == (if old(self).temp_index < usize::MAX {
                old(self).temp_index + 1
            } else {
                old(self).temp_index as int
            }),
            final(self).label_index == old(self).label_index,
    {
        let mut t = "%".to_owned();
        let n = number(self.temp_index as u64);
        t.append(n.as_str());
        if self.temp_index < usize::MAX {
            self.temp_index = self.temp_index + 1;
        }
        t
    }

    fn fresh_label(&mut self, prefix: &str) -> (r: String)
        ensures
            final(self).output@ == old(self).output@,
            r@ == label_name(prefix@, old(self).label_index),
            final(self).tape_size == old(self).tape_size,
            final(self).bounds_check == old(self).bounds_check,
            final(self).runtime == old(self).runtime,
            final(self).label_index == (if old(self).label_index < usize::MAX {
                old(self).label_index + 1
            } else {
                old(self).label_index as int
            }),
            final(self).temp_index == old(self).temp_index,
    {
        let mut t = prefix.to_owned();
        t.append("_");
        let n = number(self.label_index as u64);
        t.append(n.as_str());
        if self.label_index < usize::MAX {
            self.label_index = self.label_index + 1;
        }
        t
    }

    fn label(&mut self, label: &str)
        ensures
            old(self).output@.is_prefix_of(final(self).output@),
            final(self).output@ == old(self).output@ + label@ + ":"@ + "\n"@,
            final(self).temp_index == old(self).temp_index,
            final(self).label_index == old(self).label_index,
            final(self).tape_size == old(self).tape_size,
            final(self).bounds_check == old(self).bounds_check,
            final(self).runtime == old(self).runtime,
    {
        let mut m = label.to_owned();
        m.append(":");
        self.line(m.as_str());
    }

    fn line(&mut self, line: &str)
        ensures
            final(self).output@ == old(self).output@ + line@ + "\n"@,
            final(self).target_triple == old(self).target_triple,
            final(self).temp_index == old(self).temp_index,
            final(self).label_index == old(self).label_index,
            final(self).tape_size == old(self).tape_size,
            final(self).bounds_check == old(self).bounds_check,
            final(self).runtime == old(self).runtime,
            old(self).output@.is_prefix_of(final(self).output@),
    {
        self.output.append(line);
        self.output.append("\n");
    }

    fn blank_line(&mut self)
        ensures
            old(self).output@.is_prefix_of(final(self).output@),
            final(self).output@ == old(self).output@ + "\n"@,
            final(self).tape_size == old(self).tape_size,
            final(self).bounds_check == old(self).bounds_check,
            final(self).runtime == old(self).runtime,
            final(self).temp_index == old(self).temp_index,
            final(self).label_index == old(self).label_index,
            final(self).target_triple == old(self).target_triple,
    {
        self.output.append("\n");
    }
}

/// How LLVM string syntax spells one byte of a string.
pub open spec fn escape_byte(b: u8) -> Seq<u8> {
    if b == 34 {
        seq![92u8, 50, 50]
    } else if b == 92 {
        seq![92u8, 53, 67]
    } else if 32 <= b <= 126 {
        seq![b]
    } else {
        seq![92u8, hex_digit(b / 16), hex_digit(b % 16)]
    }
}

/// The uppercase hexadecimal digit for `d` below sixteen.
pub open spec fn hex_digit(d: u8) -> u8 {
    if d < 10 {
        (48 + d) as u8
    } else {
        (55 + d) as u8
    }
}

/// A string of bytes in LLVM string syntax.
pub open spec fn escaped(b: Seq<u8>) -> Seq<u8>
    decreases b.len(),
{
    if b.len() == 0 {
        Seq::empty()
    } else {
        escaped(b.drop_last()) + escape_byte(b.last())
    }
}

fn hex(d: u8) -> (r: u8)
    requires
        d < 16,
    ensures
        r == hex_digit(d),
{
    if d < 10 {
        48 + d
    } else {
        55 + d
    }
}

/// `value` in LLVM string syntax: quotes, backslashes and bytes outside
/// printable ASCII become `\XX` escapes.
pub fn escape_llvm_string(value: &str) -> (r: String)
    ensures
        as_bytes_of(r@) == escaped(value.spec_bytes()),
{
    let bytes = value.as_bytes();
    let mut out: Vec<u8> = Vec::new();
    let mut k: usize = 0;
    while k < bytes.len()
        invariant
            k <= bytes@.len(),
            out@ == escaped(bytes@.take(k as int)),
            crate::bytes::all_ascii(out@),
        decreases bytes@.len() - k,
    {
        let byte = bytes[k];
        proof {
            assert(bytes@.take(k + 1).drop_last() =~= bytes@.take(k as int));
        }
        let ghost before = out@;
        if byte == 34 {
            out.push(92);
            out.push(50);
            out.push(50);
        } else if byte == 92 {
            out.push(92);
            out.push(53);
            out.push(67);
        } else if 32 <= byte && byte <= 126 {
            out.push(byte);
        } else {
            out.push(92);
            out.push(hex(byte / 16));
            out.push(hex(byte % 16));
        }
        proof {
            assert(out@ =~= before + escape_byte(byte));
        }
        k += 1;
    }
    proof {
        assert(bytes@.take(k as int) =~= bytes@);
    }
    let s = string_from_ascii(out);
    s
}

/// Whether `name` is a plain LLVM identifier.
fn symbol_name_ok(name: &str) -> (r: bool)
    ensures
        r == symbol_ok(name.spec_bytes()),
{
    let b = name.as_bytes();
    if b.len() == 0 {
        return false;
    }
    let first = b[0];
    if !((65 <= first && first <= 90) || (97 <= first && first <= 122) || first == 95 || first == 36 || first
        == 46) {
        assert(!symbol_start(b@[0]));
        return false;
    }
    let mut k: usize = 1;
    while k < b.len()
        invariant
            1 <= k <= b@.len(),
            b@ == name.spec_bytes(),
            forall|i: int| 1 <= i < k ==> symbol_continue(#[trigger] b@[i]),
        decreases b@.len() - k,
    {
        let c = b[k];
        if !((65 <= c && c <= 90) || (97 <= c && c <= 122) || c == 95 || c == 36 || c == 46 || (48 <= c && c
            <= 57)) {
            assert(!symbol_continue(b@[k as int]));
            return false;
        }
        k += 1;
    }
    true
}

fn validate_symbol_name(kind: &'static str, name: &str) -> (r: Result<(), CodegenError>)
    ensures
        r is Ok <==> symbol_ok(name.spec_bytes()),
        r matches Err(CodegenError::InvalidSymbolName { kind: k, name: n }) ==> k == kind && n@ == name@,
        r matches Err(e) ==> e is InvalidSymbolName,
{
    if symbol_name_ok(name) {
        Ok(())
    } else {
        Err(CodegenError::InvalidSymbolName { kind, name: name.to_owned() })
    }
}

fn validate_runtime(runtime: &Runtime) -> (r: Result<(), CodegenError>)
    ensures
        match runtime_problem(*runtime) {
            Some(p) => r matches Err(e) && error_view(e) == p,
            None => r is Ok,
        },
{
    let options = match runtime {
        Runtime::Hosted => {
            return Ok(());
        },
        Runtime::Freestanding(options) => options,
    };
    proof {
        reveal_strlit("entry");
        reveal_strlit("putchar");
        reveal_strlit("getchar");
    }
    if let Err(e) = validate_symbol_name("entry", options.entry_symbol.as_str()) {
        return Err(e);
    }
    if let Err(e) = validate_symbol_name("putchar", options.putchar_symbol.as_str()) {
        proof {
            assert(e is InvalidSymbolName);
            assert("putchar"@ != "entry"@) by {
                reveal_strlit("putchar");
                reveal_strlit("entry");
                assert("putchar"@[0] != "entry"@[0]);
            }
            assert(error_view(e).0 == 2);
        }
        return Err(e);
    }
    if let Err(e) = validate_symbol_name("getchar", options.getchar_symbol.as_str()) {
        proof {
            assert(e is InvalidSymbolName);
            assert("getchar"@ != "entry"@ && "getchar"@ != "putchar"@) by {
                reveal_strlit("putchar");
                reveal_strlit("entry");
                reveal_strlit("getchar");
                assert("getchar"@[0] != "entry"@[0]);
                assert("getchar"@[0] != "putchar"@[0]);
            }
            assert(error_view(e).0 == 3);
        }
        return Err(e);
    }
    if str_eq(options.entry_symbol.as_str(), options.putchar_symbol.as_str()) || str_eq(
        options.entry_symbol.as_str(),
        options.getchar_symbol.as_str(),
    ) {
        return Err(CodegenError::DuplicateSymbolName(options.entry_symbol.clone()));
    }
    if str_eq(options.putchar_symbol.as_str(), options.getchar_symbol.as_str()) {
        return Err(CodegenError::DuplicateSymbolName(options.putchar_symbol.clone()));
    }
    Ok(())
}

/// Moving by `delta` sets the data pointer to its old value plus `delta`.
pub proof fn lemma_move_adds_delta(delta: i64, t: usize)
    requires
        delta != 0,
    ensures
        advances_pointer(move_text(delta, t), delta as int),
{
    reveal(move_text);
    reveal_strlit("add");
    reveal_strlit(" = add i64 ");
    reveal_strlit(" = ");
    reveal_strlit(" i64 ");
    assert(" = add i64 "@ =~= " = "@ + "add"@ + " i64 "@);
    let a = temp_name(t);
    let b = temp_name(next_index(t));
    assert(move_text(delta, t) =~= load_pointer_line(a) + i64_binop_line(b, "add"@, a, delta as int)
        + store_pointer_line(b));
    assert forall|p: int| #[trigger] i64_binop("add"@, p, delta as int) == Some(p + delta) by {}
}

/// A scan's body moves the pointer by `stride`: the scan's text is its test,
/// then text that sets the data pointer to its old value plus `stride`, then
/// the jump back.
pub proof fn lemma_scan_steps_by_stride(stride: i64, tape_size: usize, checked: bool, t: usize, l: usize)
    requires
        stride != 0,
    ensures
        exists|step: Seq<char>|
            #[trigger] advances_pointer(step, stride as int) && occurs_in(scan_text(stride, tape_size, checked, t, l), step),
{
    reveal(scan_text);
    let check = label_name("scan_check"@, l);
    let body = label_name("scan_body"@, next_index(l));
    let end = label_name("scan_end"@, next_index(next_index(l)));
    let l3 = next_index(next_index(next_index(l)));
    let before = "  br label %"@ + check + "\n"@ + check + ":"@ + "\n"@ + test_text(tape_size, checked, t, l3, end, body)
        + body + ":"@ + "\n"@;
    let step = move_text(stride, after_test(checked, t));
    let after = "  br label %"@ + check + "\n"@ + end + ":"@ + "\n"@;
    lemma_move_adds_delta(stride, after_test(checked, t));
    assert(scan_text(stride, tape_size, checked, t, l) =~= before + step + after);
    assert(occurs_in(scan_text(stride, tape_size, checked, t, l), step));
}

/// What LLVM's `i8` binary instruction `opcode` computes from a byte and a
/// constant, wrapping modulo 256, for the opcodes this backend writes.
pub open spec fn i8_binop(opcode: Seq<char>, a: int, b: int) -> Option<int> {
    if opcode == "add"@ {
        Some((a + b) % 256)
    } else if opcode == "sub"@ {
        Some((a - b) % 256)
    } else {
        None
    }
}

/// The instruction `dst = opcode i8 src, k`.
pub open spec fn i8_binop_line(dst: Seq<char>, opcode: Seq<char>, src: Seq<char>, k: nat) -> Seq<char> {
    "  "@ + dst + " = "@ + opcode + " i8 "@ + src + ", "@ + decimal_chars(k) + "\n"@
}

/// Text that adds `delta`, modulo 256, to the byte at the address held in
/// `addr`: it loads the byte, applies one `i8` instruction with a constant,
/// and stores the result back to the same address, and that instruction
/// maps every byte `b` to `b + delta` modulo 256.
pub open spec fn adds_to_cell(text: Seq<char>, addr: Seq<char>, delta: int) -> bool {
    exists|a: Seq<char>, b: Seq<char>, opcode: Seq<char>, k: nat|
        #![trigger i8_binop_line(b, opcode, a, k)]
        text == "  "@ + a + " = load i8, ptr "@ + addr + ", align 1"@ + "\n"@ + i8_binop_line(b, opcode, a, k)
            + "  store i8 "@ + b + ", ptr "@ + addr + ", align 1"@ + "\n"@ && forall|v: int|
            0 <= v < 256 ==> #[trigger] i8_binop(opcode, v, k as int) == Some((v + delta) % 256)
}

/// An addition to a cell computes the cell's address, then adds `delta`
/// modulo 256 to the byte there.
pub proof fn lemma_add_text_adds_delta(offset: i64, delta: i32, tape_size: usize, checked: bool, t: usize, l: usize)
    requires
        delta % 256 != 0,
    ensures
        exists|step: Seq<char>|
            #[trigger] adds_to_cell(step, temp_name(cell_temp(offset, checked, t)), delta as int) && add_text(
                offset,
                delta,
                tape_size,
                checked,
                t,
                l,
            ) == cell_ptr_text(offset, tape_size, checked, t, l) + step,
{
    reveal_strlit("add");
    reveal_strlit(" = add i8 ");
    reveal_strlit(" = ");
    reveal_strlit(" i8 ");
    assert(" = add i8 "@ =~= " = "@ + "add"@ + " i8 "@);
    let c = cell_temp(offset, checked, t);
    let current = next_index(c);
    let next = next_index(current);
    let addr = temp_name(c);
    let k = (delta % 256) as nat;
    let step = "  "@ + temp_name(current) + " = load i8, ptr "@ + addr + ", align 1"@ + "\n"@ + i8_binop_line(
        temp_name(next),
        "add"@,
        temp_name(current),
        k,
    ) + "  store i8 "@ + temp_name(next) + ", ptr "@ + addr + ", align 1"@ + "\n"@;
    assert(add_text(offset, delta, tape_size, checked, t, l) =~= cell_ptr_text(offset, tape_size, checked, t, l)
        + step);
    assert forall|v: int| 0 <= v < 256 implies #[trigger] i8_binop("add"@, v, k as int) == Some((v + delta) % 256) by {
        vstd::arithmetic::div_mod::lemma_add_mod_noop_right(v, delta as int, 256);
    }
    assert(adds_to_cell(step, addr, delta as int));
}

} // verus!
