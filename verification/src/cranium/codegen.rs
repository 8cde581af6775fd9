//! Lowering from the Cranium AST to Brainfuck.
//!
//! There is no call stack on a Brainfuck tape, so every call is inlined and
//! recursion is a compile-time error. Everything else is ordinary: each
//! variable owns a fixed run of cells, expressions evaluate into temporaries
//! that are released at the end of the statement, and structured control flow
//! becomes nested Brainfuck loops.
//!
//! `break`, `continue`, and `return` need a little more: Brainfuck has no jump.
//! A single *control cell* records why execution stopped (`1` continue, `2`
//! break, `3` return), loops fold it into their condition, and the statements
//! after an interruptible statement are wrapped in a "still running?" guard.
//! Blocks that contain none of those keywords pay nothing for the machinery.
//!
//! Signed values are two's complement: sums, differences and products are the
//! same bits as for unsigned values once both operands are sign-extended to
//! the common width, while ordering, division, right shifts, widening and
//! printing look at the sign.
//!
//! Arrays live in their own region above every scalar and temporary, in
//! declaration order. The scalar region's size is only known once a program
//! has been lowered, so [`compile`] lowers it twice: once to measure, once
//! with the arrays placed right above what the first pass used.

use vstd::prelude::*;
use crate::bytes::{decimal_chars, signed_decimal_chars, push_signed_decimal, lemma_signed_decimal_ascii, string_from_ascii, str_eq, all_ascii};
use crate::cranium::array::{Access, ArrayLayout, stride_for};
use crate::cranium::ast::{BinOp, Expr, Function, Item, Param, Program, Stmt, Type, UnOp, scalar, type_width,
    max_of, min_of, spelled_type};
use crate::cranium::bf::{Addr, Bf, all_commands, max_addr};
use crate::cranium::lexer::Span;
use crate::cranium::num::{BitKind, cells_in, room, tape_limit};

verus! {

/// A compiled program.
#[derive(Debug, Clone, PartialEq, Eq)]
pub struct Output {
    /// The emitted Brainfuck.
    pub code: String,
    /// Highest tape cell the program can reach.
    pub cells_used: usize,
    /// Where each array was placed, in declaration order.
    pub arrays: Vec<ArrayPlacement>,
}

/// Where an array landed on the tape.
#[derive(Debug, Clone, PartialEq, Eq)]
pub struct ArrayPlacement {
    /// The array's name.
    pub name: String,
    /// Address of slot zero.
    pub base: Addr,
    /// Number of elements.
    pub length: usize,
}

/// A lowering failure.
#[derive(Debug, Clone, PartialEq, Eq)]
pub struct CompileError {
    /// Human readable description.
    pub message: String,
    /// Where the problem was found.
    pub span: Span,
}

impl CompileError {
    /// The error as `line:column: message`.
    pub fn text(&self) -> (r: String)
        ensures
            r@ == decimal_chars(self.span.line as nat) + ":"@ + decimal_chars(self.span.column as nat) + ": "@
                + self.message@,
    {
        let mut r = decimal_text(self.span.line as u64);
        r.append(":");
        let column = decimal_text(self.span.column as u64);
        r.append(column.as_str());
        r.append(": ");
        r.append(self.message.as_str());
        r
    }
}

/// The decimal spelling of `n`.
fn decimal_text(n: u64) -> (r: String)
    ensures
        r@ == decimal_chars(n as nat),
{
    crate::bytes::decimal_text(n)
}

/// The signed decimal spelling of `n`.
fn signed_text(n: i64) -> (r: String)
    ensures
        r@ == signed_decimal_chars(n as int),
{
    crate::bytes::signed_decimal_text(n)
}

/// The outcome of a lowering step.
pub type CResult<T> = Result<T, CompileError>;

fn error<T>(span: Span, message: String) -> (r: CResult<T>)
    ensures
        r is Err,
{
    Err(CompileError { message, span })
}

/// Reasons execution left a block early, as stored in the control cell.
const CONTROL_CONTINUE: u8 = 1;
const CONTROL_BREAK: u8 = 2;
const CONTROL_RETURN: u8 = 3;

/// The names the compiler implements directly.
pub open spec fn is_builtin(name: Seq<char>) -> bool {
    name == "print"@ || name == "println"@ || name == "putc"@ || name == "getc"@ || name == "puts"@ || name
        == "len"@
}

/// The name an item defines as a function, if it is one.
pub open spec fn function_name(item: Item) -> Option<Seq<char>> {
    match item {
        Item::Function(f) => Some(f.name@),
        _ => None,
    }
}

/// Whether the program defines a function called `name`.
pub open spec fn defines_function(items: Seq<Item>, name: Seq<char>) -> bool {
    exists|i: int| 0 <= i < items.len() && #[trigger] function_name(items[i]) == Some(name)
}

/// Whether the program defines a function under a builtin's name.
pub open spec fn redefines_builtin(items: Seq<Item>) -> bool {
    exists|i: int| 0 <= i < items.len() && (#[trigger] function_name(items[i]) matches Some(n) && is_builtin(n))
}

/// Whether the program defines two functions with one name.
pub open spec fn defines_twice(items: Seq<Item>) -> bool {
    exists|i: int, j: int|
        0 <= i < j < items.len() && (#[trigger] function_name(items[i])) is Some && function_name(items[i])
            == #[trigger] function_name(items[j])
}

/// The program-level reasons lowering is refused before any code is emitted:
/// a function under a builtin's name, a name defined twice, or no `main`.
pub open spec fn refused_program(items: Seq<Item>) -> bool {
    redefines_builtin(items) || defines_twice(items) || !defines_function(items, "main"@)
}

fn builtin(name: &str) -> (r: bool)
    ensures
        r == is_builtin(name@),
{
    str_eq(name, "print") || str_eq(name, "println") || str_eq(name, "putc") || str_eq(name, "getc") || str_eq(
        name,
        "puts",
    ) || str_eq(name, "len")
}

/// Addresses below this bound leave room for every routine a step emits.
pub open spec fn safe_limit() -> int {
    tape_limit() - 0x100_0000
}

/// The cells an array of `length` elements `ew` cells wide needs from
/// `base`, slot zero, up to its guard slot, fit the tape.
pub open spec fn array_fits(base: int, length: int, ew: int) -> bool {
    &&& 0 <= base
    &&& 1 <= ew <= 2
    &&& 0 <= length <= 0x10_0000_0000
    &&& base + (length + 2) * stride_for(length, ew) <= tape_limit()
}

/// A value of type `ty` can live at `addr`.
pub open spec fn value_ok(addr: Addr, ty: Type) -> bool {
    match ty {
        Type::Array { element, length } => scalar(*element) && array_fits(
            addr as int,
            length as int,
            type_width(*element) as int,
        ),
        _ => cells_in(addr as int, type_width(ty) as int),
    }
}

#[derive(Debug)]
struct Binding {
    addr: Addr,
    ty: Type,
}

impl Binding {
    #[verifier::type_invariant]
    spec fn ok(self) -> bool {
        value_ok(self.addr, self.ty)
    }

    fn copy(&self) -> (r: Binding)
        ensures
            r.addr == self.addr,
            r.ty == self.ty,
    {
        proof {
            use_type_invariant(self);
        }
        Binding { addr: self.addr, ty: self.ty.clone() }
    }

    fn as_value(&self) -> (r: Value)
        ensures
            r.addr == self.addr,
            r.ty == self.ty,
    {
        proof {
            use_type_invariant(self);
        }
        Value { addr: self.addr, ty: self.ty.clone() }
    }
}

struct Scope {
    names: Vec<(String, Binding)>,
    /// True for the scope a function body starts with, which hides the
    /// caller's locals.
    barrier: bool,
}

/// An evaluated expression. The cells are readable but must not be written to;
/// operations that produce values always allocate their own destination.
#[derive(Debug)]
struct Value {
    addr: Addr,
    ty: Type,
}

impl Value {
    #[verifier::type_invariant]
    spec fn ok(self) -> bool {
        value_ok(self.addr, self.ty)
    }

    fn addr(&self) -> (r: Addr)
        ensures
            r == self.addr,
            value_ok(self.addr, self.ty),
    {
        proof {
            use_type_invariant(self);
        }
        self.addr
    }

    fn copy(&self) -> (r: Value)
        ensures
            r.addr == self.addr,
            r.ty == self.ty,
    {
        proof {
            use_type_invariant(self);
        }
        Value { addr: self.addr, ty: self.ty.clone() }
    }
}

/// A compile-time constant: its type and the bits it stores.
struct Constant {
    name: String,
    ty: Type,
    bits: u64,
    value: i64,
}

impl Constant {
    #[verifier::type_invariant]
    spec fn ok(self) -> bool {
        scalar(self.ty)
    }
}

/// Somewhere a value can be stored.
enum Place {
    /// A variable, or an array element whose index is known at compile time.
    Direct { addr: Addr, ty: Type },
    /// An array element reached by walking the tape at run time.
    Indexed { base: Addr, layout: ArrayLayout, element: Type, index: Value },
}

impl Place {
    #[verifier::type_invariant]
    spec fn ok(self) -> bool {
        match self {
            Place::Direct { addr, ty } => value_ok(addr, ty),
            Place::Indexed { base, layout, element, index } => {
                &&& scalar(element)
                &&& layout.wf()
                &&& layout.element_width == type_width(element)
                &&& array_fits(base as int, layout.length as int, layout.element_width as int)
                &&& scalar(index.ty)
            },
        }
    }

    fn ty(&self) -> (r: Type)
        ensures
            r == (match *self {
                Place::Direct { ty, .. } => ty,
                Place::Indexed { element, .. } => element,
            }),
    {
        match self {
            Place::Direct { ty, .. } => ty.clone(),
            Place::Indexed { element, .. } => element.clone(),
        }
    }
}

/// How big an expression is, counting every node.
pub open spec fn esize(e: Expr) -> nat
    decreases e,
{
    match e {
        Expr::ArrayLit { elements, .. } => 1 + esizes(elements@),
        Expr::Index { array, index, .. } => 1 + esize(*array) + esize(*index),
        Expr::Call { args, .. } => 1 + esizes(args@),
        Expr::Binary { lhs, rhs, .. } => 1 + esize(*lhs) + esize(*rhs),
        Expr::Unary { operand, .. } => 1 + esize(*operand),
        Expr::Cast { value, .. } => 1 + esize(*value),
        _ => 1,
    }
}

/// How big a run of expressions is.
pub open spec fn esizes(es: Seq<Expr>) -> nat
    decreases es,
{
    if es.len() == 0 {
        0
    } else {
        esizes(es.drop_last()) + esize(es.last())
    }
}

/// How big an optional expression is.
pub open spec fn osize(e: Option<Expr>) -> nat {
    match e {
        Some(x) => esize(x),
        None => 0,
    }
}

/// How big a statement is, counting every node.
pub open spec fn ssize(s: Stmt) -> nat
    decreases s,
{
    match s {
        Stmt::Let { init, .. } => 2 + osize(init),
        Stmt::Assign { target, value, .. } => 2 + esize(target) + esize(value),
        Stmt::If { cond, then_block, else_block, .. } => 2 + esize(cond) + ssizes(then_block@) + match else_block {
            Some(b) => ssizes(b@),
            None => 0,
        },
        Stmt::While { cond, body, .. } => 2 + esize(cond) + ssizes(body@),
        Stmt::For { start, end, body, .. } => 2 + esize(start) + esize(end) + ssizes(body@),
        Stmt::Loop { body, .. } => 2 + ssizes(body@),
        Stmt::Return { value, .. } => 2 + osize(value),
        Stmt::Expr { expr, .. } => 2 + esize(expr),
        Stmt::Block { body, .. } => 2 + ssizes(body@),
        _ => 1,
    }
}

/// How big a run of statements is.
pub open spec fn ssizes(ss: Seq<Stmt>) -> nat
    decreases ss,
{
    if ss.len() == 0 {
        0
    } else {
        ssizes(ss.drop_last()) + ssize(ss.last())
    }
}

proof fn lemma_esizes_part(es: Seq<Expr>, i: int)
    requires
        0 <= i < es.len(),
    ensures
        esize(es[i]) <= esizes(es),
    decreases es.len(),
{
    if i < es.len() - 1 {
        lemma_esizes_part(es.drop_last(), i);
    }
}

proof fn lemma_ssizes_part(ss: Seq<Stmt>, i: int)
    requires
        0 <= i < ss.len(),
    ensures
        ssize(ss[i]) <= ssizes(ss),
    decreases ss.len(),
{
    if i < ss.len() - 1 {
        lemma_ssizes_part(ss.drop_last(), i);
    }
}

/// Dropping a nonempty front of a run of statements makes it smaller.
proof fn lemma_ssizes_suffix(ss: Seq<Stmt>, k: int)
    requires
        1 <= k <= ss.len(),
    ensures
        ssizes(ss.subrange(k, ss.len() as int)) < ssizes(ss),
    decreases ss.len(),
{
    if k == ss.len() {
        assert(ss.subrange(k, ss.len() as int) =~= Seq::<Stmt>::empty());
        assert(ssize(ss.last()) >= 1);
    } else {
        lemma_ssizes_suffix(ss.drop_last(), k);
        assert(ss.subrange(k, ss.len() as int).drop_last() =~= ss.drop_last().subrange(k, ss.len() - 1));
        assert(ss.subrange(k, ss.len() as int).last() == ss.last());
    }
}

/// How many functions are not being inlined right now.
pub open spec fn inactive(a: Seq<bool>) -> nat
    decreases a.len(),
{
    if a.len() == 0 {
        0
    } else {
        inactive(a.drop_last()) + if a.last() {
            0nat
        } else {
            1nat
        }
    }
}

proof fn lemma_activate(a: Seq<bool>, i: int)
    requires
        0 <= i < a.len(),
        !a[i],
    ensures
        inactive(a.update(i, true)) + 1 == inactive(a),
    decreases a.len(),
{
    if i < a.len() - 1 {
        lemma_activate(a.drop_last(), i);
        assert(a.update(i, true).drop_last() =~= a.drop_last().update(i, true));
    } else {
        assert(a.update(i, true).drop_last() =~= a.drop_last());
    }
}

/// `bool` behaves like a `byte` once it takes part in arithmetic.
pub open spec fn promoted(t: Type) -> Type {
    match t {
        Type::Bool => Type::Byte,
        other => other,
    }
}

fn promote(ty: &Type) -> (r: Type)
    ensures
        r == promoted(*ty),
{
    match ty {
        Type::Bool => Type::Byte,
        other => other.clone(),
    }
}

/// Every value of `t` is also a value of `u`.
pub open spec fn fits(t: Type, u: Type) -> bool {
    scalar(t) && scalar(u) && min_of(u) <= min_of(t) && max_of(t) <= max_of(u)
}

/// The type two promoted operands meet at: for unsigned operands the wider
/// one; once either is signed, the narrowest signed type that holds both,
/// if any.
pub open spec fn common_type(l: Type, r: Type) -> Option<Type> {
    if !(scalar(l) && scalar(r)) {
        Some(l)
    } else if !(l is SByte || l is SInt || r is SByte || r is SInt) {
        if l is Int || r is Int {
            Some(Type::Int)
        } else {
            Some(Type::Byte)
        }
    } else if fits(l, Type::SByte) && fits(r, Type::SByte) {
        Some(Type::SByte)
    } else if fits(l, Type::SInt) && fits(r, Type::SInt) {
        Some(Type::SInt)
    } else {
        None
    }
}

fn common(lhs: &Type, rhs: &Type) -> (r: Option<Type>)
    ensures
        r == common_type(*lhs, *rhs),
{
    if !(lhs.is_scalar() && rhs.is_scalar()) {
        return Some(lhs.clone());
    }
    if !(lhs.is_signed() || rhs.is_signed()) {
        if matches!(lhs, Type::Int) || matches!(rhs, Type::Int) {
            return Some(Type::Int);
        }
        return Some(Type::Byte);
    }
    if lhs.fits_in(&Type::SByte) && rhs.fits_in(&Type::SByte) {
        Some(Type::SByte)
    } else if lhs.fits_in(&Type::SInt) && rhs.fits_in(&Type::SInt) {
        Some(Type::SInt)
    } else {
        None
    }
}

/// A value of `from` can be stored where `to` is expected without a cast.
pub open spec fn coercible_to(from: Type, to: Type) -> bool {
    from == to || fits(from, to)
}

fn coercible(from: &Type, to: &Type) -> (r: bool)
    ensures
        r == coercible_to(*from, *to),
{
    same_type(from, to) || from.fits_in(to)
}

/// Whether two types are the same.
fn same_type(a: &Type, b: &Type) -> (r: bool)
    ensures
        r == (*a == *b),
    decreases *a,
{
    match (a, b) {
        (Type::Byte, Type::Byte) => true,
        (Type::Int, Type::Int) => true,
        (Type::SByte, Type::SByte) => true,
        (Type::SInt, Type::SInt) => true,
        (Type::Bool, Type::Bool) => true,
        (Type::Unit, Type::Unit) => true,
        (Type::Array { element: e1, length: l1 }, Type::Array { element: e2, length: l2 }) => {
            *l1 == *l2 && same_type(e1, e2)
        },
        _ => false,
    }
}

/// True when a statement can leave the control cell set for its own block.
pub open spec fn interrupts_spec(s: Stmt) -> bool
    decreases s,
{
    match s {
        Stmt::Break { .. } | Stmt::Continue { .. } | Stmt::Return { .. } => true,
        Stmt::If { then_block, else_block, .. } => any_interrupts(then_block@) || match else_block {
            Some(b) => any_interrupts(b@),
            None => false,
        },
        Stmt::Block { body, .. } => any_interrupts(body@),
        // A loop absorbs its own `break` and `continue`; only `return` escapes.
        Stmt::While { body, .. } | Stmt::Loop { body, .. } | Stmt::For { body, .. } => any_returns(body@),
        _ => false,
    }
}

/// Some statement of the run can interrupt its block.
pub open spec fn any_interrupts(ss: Seq<Stmt>) -> bool
    decreases ss,
{
    if ss.len() == 0 {
        false
    } else {
        any_interrupts(ss.drop_last()) || interrupts_spec(ss.last())
    }
}

/// True when a statement contains a `return`.
pub open spec fn returns_spec(s: Stmt) -> bool
    decreases s,
{
    match s {
        Stmt::Return { .. } => true,
        Stmt::If { then_block, else_block, .. } => any_returns(then_block@) || match else_block {
            Some(b) => any_returns(b@),
            None => false,
        },
        Stmt::Block { body, .. } | Stmt::While { body, .. } | Stmt::Loop { body, .. } | Stmt::For {
            body,
            ..
        } => any_returns(body@),
        _ => false,
    }
}

/// Some statement of the run contains a `return`.
pub open spec fn any_returns(ss: Seq<Stmt>) -> bool
    decreases ss,
{
    if ss.len() == 0 {
        false
    } else {
        any_returns(ss.drop_last()) || returns_spec(ss.last())
    }
}

fn interrupts(stmt: &Stmt) -> (r: bool)
    ensures
        r == interrupts_spec(*stmt),
    decreases *stmt,
{
    match stmt {
        Stmt::Break { .. } | Stmt::Continue { .. } | Stmt::Return { .. } => true,
        Stmt::If { then_block, else_block, .. } => {
            let inner = any_interrupt(then_block.as_slice());
            let other = match else_block {
                Some(body) => any_interrupt(body.as_slice()),
                None => false,
            };
            inner || other
        },
        Stmt::Block { body, .. } => any_interrupt(body.as_slice()),
        Stmt::While { body, .. } | Stmt::Loop { body, .. } | Stmt::For { body, .. } => any_return(
            body.as_slice(),
        ),
        _ => false,
    }
}

fn any_interrupt(body: &[Stmt]) -> (r: bool)
    ensures
        r == any_interrupts(body@),
    decreases body@,
{
    let mut k: usize = 0;
    let mut found = false;
    while k < body.len()
        invariant
            k <= body@.len(),
            found == any_interrupts(body@.take(k as int)),
        decreases body@.len() - k,
    {
        proof {
            assert(body@.take(k + 1).drop_last() =~= body@.take(k as int));
            assert(decreases_to!(body@ => body@[k as int]));
        }
        let here = interrupts(&body[k]);
        found = found || here;
        k += 1;
    }
    proof {
        assert(body@.take(k as int) =~= body@);
    }
    found
}

fn has_return(stmt: &Stmt) -> (r: bool)
    ensures
        r == returns_spec(*stmt),
    decreases *stmt,
{
    match stmt {
        Stmt::Return { .. } => true,
        Stmt::If { then_block, else_block, .. } => {
            let inner = any_return(then_block.as_slice());
            let other = match else_block {
                Some(body) => any_return(body.as_slice()),
                None => false,
            };
            inner || other
        },
        Stmt::Block { body, .. } | Stmt::While { body, .. } | Stmt::Loop { body, .. } | Stmt::For {
            body,
            ..
        } => any_return(body.as_slice()),
        _ => false,
    }
}

fn any_return(body: &[Stmt]) -> (r: bool)
    ensures
        r == any_returns(body@),
    decreases body@,
{
    let mut k: usize = 0;
    let mut found = false;
    while k < body.len()
        invariant
            k <= body@.len(),
            found == any_returns(body@.take(k as int)),
        decreases body@.len() - k,
    {
        proof {
            assert(body@.take(k + 1).drop_last() =~= body@.take(k as int));
            assert(decreases_to!(body@ => body@[k as int]));
        }
        let here = has_return(&body[k]);
        found = found || here;
        k += 1;
    }
    proof {
        assert(body@.take(k as int) =~= body@);
    }
    found
}


struct Compiler<'a> {
    bf: Bf,
    functions: Vec<&'a Function>,
    /// Parallel to `functions`: which are being inlined right now.
    active: Vec<bool>,
    constants: Vec<Constant>,
    scopes: Vec<Scope>,
    returns: Vec<Value>,
    loop_depth: usize,
    control: Addr,
    arrays: Vec<ArrayPlacement>,
}

impl<'a> Compiler<'a> {
    spec fn inv(&self) -> bool {
        &&& self.bf.wf()
        &&& self.active@.len() == self.functions@.len()
        &&& cells_in(self.control as int, 1)
        &&& self.scopes@.len() >= 1
    }

    /// What a successful step leaves as it found it.
    spec fn kept(&self, before: &Self) -> bool {
        &&& self.active@ == before.active@
        &&& self.functions@ == before.functions@
        &&& self.scopes@.len() == before.scopes@.len()
        &&& self.returns@ == before.returns@
        &&& self.loop_depth == before.loop_depth
        &&& self.control == before.control
    }

    /// The emitter has room for whatever one step emits.
    spec fn roomy(&self) -> bool {
        &&& self.bf.view().next_free <= safe_limit()
        &&& self.bf.view().array_next <= safe_limit()
    }

    /// Both allocators are at least `h` cells below the end of the tape.
    spec fn headroom(&self, h: int) -> bool {
        &&& self.bf.view().next_free + h <= tape_limit()
        &&& self.bf.view().array_next + h <= tape_limit()
    }

    fn new(bf: Bf) -> (r: Self)
        requires
            bf.wf(),
        ensures
            r.inv(),
            r.bf == bf,
            r.functions@.len() == 0,
    {
        let mut scopes: Vec<Scope> = Vec::new();
        scopes.push(Scope { names: Vec::new(), barrier: false });
        Compiler {
            bf,
            functions: Vec::new(),
            active: Vec::new(),
            constants: Vec::new(),
            scopes,
            returns: Vec::new(),
            loop_depth: 0,
            control: 0,
            arrays: Vec::new(),
        }
    }

    /// Fail unless the tape can still hold what the next step reserves.
    fn ensure_room(&self, span: Span) -> (r: CResult<()>)
        ensures
            r is Ok <==> self.roomy(),
    {
        if self.bf.view_next_free() > 0xff_ff00_0000 || self.bf.array_next_free() > 0xff_ff00_0000 {
            return error(span, "the program needs more tape than Cranium can address".to_owned());
        }
        Ok(())
    }

    // ---- scopes -----------------------------------------------------------

    fn lookup(&self, name: &str) -> (r: Option<Binding>)
        ensures
            r == scope_lookup(self.scopes@, name@, self.scopes@.len() as int),
    {
        let mut index = self.scopes.len();
        while index > 0
            invariant
                index <= self.scopes@.len(),
                scope_lookup(self.scopes@, name@, self.scopes@.len() as int) == scope_lookup(
                    self.scopes@,
                    name@,
                    index as int,
                ),
            decreases index,
        {
            index -= 1;
            let found = find_binding(&self.scopes[index].names, name);
            if found.is_some() {
                return found;
            }
            if self.scopes[index].barrier && index > 0 {
                return find_binding(&self.scopes[0].names, name);
            }
        }
        None
    }

    fn bind(&mut self, name: &str, binding: Binding)
        requires
            old(self).inv(),
        ensures
            final(self).inv(),
            final(self).kept(old(self)),
            final(self).bf == old(self).bf,
            final(self).scopes@.len() == old(self).scopes@.len(),
            forall|i: int| 0 <= i < old(self).scopes@.len() - 1 ==> final(self).scopes@[i] == old(self).scopes@[i],
            final(self).scopes@.last().barrier == old(self).scopes@.last().barrier,
            first_binding(final(self).scopes@.last().names@, name@) == Some(binding),
            forall|n: Seq<char>|
                n != name@ ==> first_binding(final(self).scopes@.last().names@, n) == first_binding(
                    old(self).scopes@.last().names@,
                    n,
                ),
    {
        let last = self.scopes.len() - 1;
        let mut scope = self.scopes.remove(last);
        let mut k: usize = 0;
        let ghost before = scope.names@;
        let mut found = false;
        while !found && k < scope.names.len()
            invariant
                k <= scope.names@.len(),
                scope.names@ == before,
                forall|j: int| 0 <= j < k ==> before[j].0@ != name@,
                found ==> k < before.len() && before[k as int].0@ == name@,
            decreases scope.names@.len() - k + (if found { 0int } else { 1int }),
        {
            if str_eq(scope.names[k].0.as_str(), name) {
                found = true;
            } else {
                k += 1;
            }
        }
        let entry = (name.to_owned(), binding);
        if found {
            scope.names.set(k, entry);
            proof {
                lemma_first_binding_update(before, name@, k as int, entry);
            }
        } else {
            scope.names.push(entry);
            proof {
                lemma_first_binding_push(before, name@, entry);
            }
        }
        self.scopes.push(scope);
    }

    fn push_scope(&mut self, barrier: bool)
        requires
            old(self).inv(),
        ensures
            final(self).inv(),
            final(self).scopes@.len() == old(self).scopes@.len() + 1,
            final(self).active@ == old(self).active@,
            final(self).functions@ == old(self).functions@,
            final(self).returns@ == old(self).returns@,
            final(self).loop_depth == old(self).loop_depth,
            final(self).control == old(self).control,
            final(self).bf == old(self).bf,
    {
        self.scopes.push(Scope { names: Vec::new(), barrier });
    }

    fn pop_scope(&mut self)
        requires
            old(self).inv(),
        ensures
            final(self).inv(),
            old(self).scopes@.len() > 1 ==> final(self).scopes@.len() == old(self).scopes@.len() - 1,
            final(self).active@ == old(self).active@,
            final(self).functions@ == old(self).functions@,
            final(self).returns@ == old(self).returns@,
            final(self).loop_depth == old(self).loop_depth,
            final(self).control == old(self).control,
            final(self).bf == old(self).bf,
    {
        // The outermost scope holds the globals and is never closed.
        if self.scopes.len() > 1 {
            self.scopes.pop();
        }
    }

    fn find_function(&self, name: &str) -> (r: Option<usize>)
        ensures
            r matches Some(i) ==> i < self.functions@.len() && self.functions@[i as int].name@ == name@,
            r is None ==> forall|j: int| 0 <= j < self.functions@.len() ==> (#[trigger] self.functions@[j]).name@ != name@,
    {
        let mut k: usize = 0;
        while k < self.functions.len()
            invariant
                k <= self.functions@.len(),
                forall|j: int| 0 <= j < k ==> (#[trigger] self.functions@[j]).name@ != name@,
            decreases self.functions@.len() - k,
        {
            if str_eq(self.functions[k].name.as_str(), name) {
                return Some(k);
            }
            k += 1;
        }
        None
    }

    fn find_constant(&self, name: &str) -> (r: Option<usize>)
        ensures
            r matches Some(i) ==> i < self.constants@.len(),
    {
        let mut k: usize = 0;
        while k < self.constants.len()
            invariant
                k <= self.constants@.len(),
            decreases self.constants@.len() - k,
        {
            if str_eq(self.constants[k].name.as_str(), name) {
                return Some(k);
            }
            k += 1;
        }
        None
    }

    // ---- types ------------------------------------------------------------

    fn type_of(&self, expr: &Expr) -> (r: CResult<Type>)
        ensures
            match *expr {
                Expr::Int { value, .. } => r == Ok::<Type, CompileError>(
                    if value <= 255 {
                        Type::Byte
                    } else {
                        Type::Int
                    },
                ),
                Expr::Bool { .. } => r == Ok::<Type, CompileError>(Type::Bool),
                Expr::Str { value, .. } => (value@.len() < 65535 ==> r == Ok::<Type, CompileError>(
                    Type::Array { element: Box::new(Type::Byte), length: (value@.len() + 1) as usize },
                )) && (value@.len() >= 65535 ==> r is Err),
                Expr::ArrayLit { elements, .. } => (elements@.len() == 0 ==> r is Err) && (r matches Ok(
                    t,
                ) ==> t matches Type::Array { length, .. } && length == elements@.len()),
                Expr::Binary { op, lhs, rhs, .. } => {
                    &&& (op is Eq || op is Ne || op is Lt || op is Le || op is Gt || op is Ge || op is And
                        || op is Or) ==> r == Ok::<Type, CompileError>(Type::Bool)
                    &&& match (*lhs, *rhs) {
                        (Expr::Int { value: a, .. }, Expr::Int { value: b, .. }) => (op is Add || op is Sub
                            || op is Mul || op is Div || op is Rem || op is BitAnd || op is BitOr || op is BitXor)
                            ==> r == Ok::<Type, CompileError>(
                            if a <= 255 && b <= 255 {
                                Type::Byte
                            } else {
                                Type::Int
                            },
                        ),
                        _ => true,
                    }
                },
                Expr::Unary { op, .. } => op is Not ==> r == Ok::<Type, CompileError>(Type::Bool),
                Expr::Cast { ty, .. } => r == Ok::<Type, CompileError>(ty),
                Expr::Call { name, .. } => {
                    &&& (name@ == "print"@ || name@ == "println"@ || name@ == "putc"@ || name@
                        == "puts"@) ==> r == Ok::<Type, CompileError>(Type::Unit)
                    &&& name@ == "getc"@ ==> r == Ok::<Type, CompileError>(Type::Byte)
                    &&& name@ == "len"@ ==> r == Ok::<Type, CompileError>(Type::Int)
                },
                _ => true,
            },
        decreases *expr,
    {
        match expr {
            Expr::Int { value, .. } => Ok(if *value <= 255 { Type::Byte } else { Type::Int }),
            Expr::Bool { .. } => Ok(Type::Bool),
            Expr::Str { value, span } => {
                if value.len() >= 65535 {
                    return error(*span, "string literal is too long".to_owned());
                }
                Ok(Type::Array { element: Box::new(Type::Byte), length: value.len() + 1 })
            },
            Expr::ArrayLit { elements, span } => {
                if elements.len() == 0 {
                    return error(*span, "array literals need at least one element".to_owned());
                }
                let mut element = Type::Byte;
                let mut k: usize = 0;
                while k < elements.len()
                    invariant
                        k <= elements@.len(),
                        *expr == (Expr::ArrayLit { elements: *elements, span: *span }),
                    decreases elements@.len() - k,
                {
                    let item = &elements[k];
                    proof {
                        assert(decreases_to!(*expr => (*expr)->elements));
                        assert(decreases_to!((*expr)->elements => (*expr)->elements@));
                        assert(decreases_to!((*expr)->elements@ => (*expr)->elements@[k as int]));
                    }
                    let item_ty = promote(&self.type_of(item)?);
                    if !item_ty.is_scalar() {
                        return error(item.span(), "array elements must be scalars".to_owned());
                    }
                    match common(&element, &item_ty) {
                        Some(t) => {
                            element = t;
                        },
                        None => {
                            return error(item.span(), no_common_type(&element, &item_ty));
                        },
                    }
                    k += 1;
                }
                Ok(Type::Array { element: Box::new(element), length: elements.len() })
            },
            Expr::Name { name, span } => {
                if let Some(binding) = self.lookup(name.as_str()) {
                    return Ok(binding.ty);
                }
                match self.find_constant(name.as_str()) {
                    Some(k) => Ok(self.constants[k].ty.clone()),
                    None => error(*span, quoted(name.as_str(), "` is not defined")),
                }
            },
            Expr::Index { array, span, .. } => match self.type_of(array)? {
                Type::Array { element, .. } => Ok(*element),
                other => {
                    let text = other.text();
                    error(*span, quoted(text.as_str(), "` cannot be indexed"))
                },
            },
            Expr::Call { name, span, .. } => {
                proof {
                    reveal_strlit("print");
                    reveal_strlit("println");
                    reveal_strlit("putc");
                    reveal_strlit("puts");
                    reveal_strlit("getc");
                    reveal_strlit("len");
                    assert("print"@.len() == 5 && "println"@.len() == 7 && "putc"@.len() == 4);
                    assert("puts"@.len() == 4 && "getc"@.len() == 4 && "len"@.len() == 3);
                    assert("putc"@[0] != "getc"@[0] && "puts"@[0] != "getc"@[0]);
                }
                if str_eq(name.as_str(), "print") || str_eq(name.as_str(), "println") || str_eq(name.as_str(), "putc")
                    || str_eq(name.as_str(), "puts") {
                    return Ok(Type::Unit);
                }
                if str_eq(name.as_str(), "getc") {
                    return Ok(Type::Byte);
                }
                if str_eq(name.as_str(), "len") {
                    return Ok(Type::Int);
                }
                match self.find_function(name.as_str()) {
                    Some(k) => Ok(self.functions[k].ret.clone()),
                    None => error(*span, quoted(name.as_str(), "` is not defined")),
                }
            },
            Expr::Binary { op, lhs, rhs, span } => {
                if op.is_comparison() || matches!(op, BinOp::And | BinOp::Or) {
                    Ok(Type::Bool)
                } else if matches!(op, BinOp::Shl | BinOp::Shr) {
                    Ok(promote(&self.type_of(lhs)?))
                } else {
                    let left = promote(&self.type_of(lhs)?);
                    let right = promote(&self.type_of(rhs)?);
                    match common(&left, &right) {
                        Some(t) => Ok(t),
                        None => error(*span, no_common_type(&left, &right)),
                    }
                }
            },
            Expr::Unary { op, operand, .. } => match op {
                UnOp::Not => Ok(Type::Bool),
                UnOp::Neg => Ok(promote(&self.type_of(operand)?).signed_form()),
            },
            Expr::Cast { ty, .. } => Ok(ty.clone()),
        }
    }

    /// The value of a constant expression, as a number in the expression's
    /// own type.
    fn const_eval(&self, expr: &Expr) -> (r: CResult<i64>)
        ensures
            r matches Ok(v) ==> -32768 <= v <= 65535,
            match *expr {
                Expr::Int { value, .. } => value <= 65535 ==> r == Ok::<i64, CompileError>(value as i64),
                Expr::Binary { op, lhs, rhs, .. } => match (*lhs, *rhs) {
                    (Expr::Int { value: a, .. }, Expr::Int { value: b, .. }) => a <= 65535 && b <= 65535 ==> {
                        let m: int = if a <= 255 && b <= 255 {
                            256
                        } else {
                            65536
                        };
                        &&& op is Add ==> r == Ok::<i64, CompileError>(((a + b) % m) as i64)
                        &&& op is Sub ==> r == Ok::<i64, CompileError>(((a - b) % m) as i64)
                        &&& op is Mul ==> r == Ok::<i64, CompileError>(((a * b) % m) as i64)
                        &&& op is Div && b >= 1 ==> r == Ok::<i64, CompileError>((a / b) as i64)
                        &&& op is Rem && b >= 1 ==> r == Ok::<i64, CompileError>((a % b) as i64)
                        &&& (op is Div || op is Rem) && b == 0 ==> r is Err
                    },
                    _ => true,
                },
                _ => true,
            },
        decreases *expr,
    {
        match expr {
            Expr::Int { value, span } => {
                if *value > 65535 {
                    let text = signed_text(65535);
                    let mut m = decimal_text(*value);
                    m.append(" does not fit in `int`");
                    return error(*span, m);
                }
                Ok(*value as i64)
            },
            Expr::Bool { value, .. } => Ok(if *value { 1 } else { 0 }),
            Expr::Name { name, span } => match self.find_constant(name.as_str()) {
                Some(k) => {
                    let v = self.constants[k].value;
                    if v < -32768 || v > 65535 {
                        return error(*span, quoted(name.as_str(), "` is not a compile-time constant"));
                    }
                    Ok(v)
                },
                None => error(*span, quoted(name.as_str(), "` is not a compile-time constant")),
            },
            Expr::Unary { op, operand, .. } => {
                let value = self.const_eval(operand)?;
                match op {
                    UnOp::Not => Ok(if value == 0 { 1 } else { 0 }),
                    UnOp::Neg => {
                        let ty = promote(&self.type_of(operand)?).signed_form();
                        Ok(wrap(-value, &ty))
                    },
                }
            },
            Expr::Cast { value, ty, .. } => {
                let v = self.const_eval(value)?;
                if matches!(ty, Type::Bool) {
                    Ok(if v != 0 { 1 } else { 0 })
                } else {
                    Ok(wrap(v, ty))
                }
            },
            Expr::Binary { op, lhs, rhs, span } => {
                let left = self.const_eval(lhs)?;
                let right = self.const_eval(rhs)?;
                match op {
                    BinOp::Eq => Ok(if left == right { 1 } else { 0 }),
                    BinOp::Ne => Ok(if left != right { 1 } else { 0 }),
                    BinOp::Lt => Ok(if left < right { 1 } else { 0 }),
                    BinOp::Le => Ok(if left <= right { 1 } else { 0 }),
                    BinOp::Gt => Ok(if left > right { 1 } else { 0 }),
                    BinOp::Ge => Ok(if left >= right { 1 } else { 0 }),
                    BinOp::And => Ok(if left != 0 && right != 0 { 1 } else { 0 }),
                    BinOp::Or => Ok(if left != 0 || right != 0 { 1 } else { 0 }),
                    _ => {
                        let ty = self.type_of(expr)?;
                        if !ty.is_scalar() {
                            return error(*span, "this is not a compile-time constant".to_owned());
                        }
                        match op {
                            BinOp::Add => Ok(wrap(left + right, &ty)),
                            BinOp::Sub => Ok(wrap(left - right, &ty)),
                            BinOp::Mul => {
                                proof {
                                    assert(-0x1_0000_0000 <= left * right <= 0x1_0000_0000) by (nonlinear_arith)
                                        requires
                                            -32768 <= left <= 65535,
                                            -32768 <= right <= 65535,
                                    ;
                                }
                                Ok(wrap(left * right, &ty))
                            },
                            BinOp::Div | BinOp::Rem => {
                                if right == 0 {
                                    return error(*span, "constant division by zero".to_owned());
                                }
                                let (q, r) = truncating_divmod(left, right);
                                if matches!(op, BinOp::Div) {
                                    Ok(wrap(q, &ty))
                                } else {
                                    Ok(wrap(r, &ty))
                                }
                            },
                            BinOp::BitAnd => Ok(from_bits(combine_bits(to_bits(left, &ty), to_bits(right, &ty), BitKind::And), &ty)),
                            BinOp::BitOr => Ok(from_bits(combine_bits(to_bits(left, &ty), to_bits(right, &ty), BitKind::Or), &ty)),
                            BinOp::BitXor => Ok(from_bits(combine_bits(to_bits(left, &ty), to_bits(right, &ty), BitKind::Xor), &ty)),
                            BinOp::Shl => Ok(shift_left(left, right, &ty)),
                            _ => Ok(shift_right(left, right, &ty)),
                        }
                    },
                }
            },
            other => error(other.span(), "this is not a compile-time constant".to_owned()),
        }
    }
}

/// What `name` means looking through the first `index` scopes, innermost
/// first: a scope that starts a function body hides every scope outside it
/// but the global one.
spec fn scope_lookup(scopes: Seq<Scope>, name: Seq<char>, index: int) -> Option<Binding>
    decreases index,
{
    if index <= 0 {
        None
    } else {
        match first_binding(scopes[index - 1].names@, name) {
            Some(b) => Some(b),
            None => if scopes[index - 1].barrier && index - 1 > 0 {
                first_binding(scopes[0].names@, name)
            } else {
                scope_lookup(scopes, name, index - 1)
            },
        }
    }
}

/// The binding of the first entry of `names` called `name`.
spec fn first_binding(names: Seq<(String, Binding)>, name: Seq<char>) -> Option<Binding>
    decreases names.len(),
{
    if names.len() == 0 {
        None
    } else if names[0].0@ == name {
        Some(names[0].1)
    } else {
        first_binding(names.drop_first(), name)
    }
}

/// Looking past entries that are not called `name` changes nothing.
proof fn lemma_first_binding_skip(names: Seq<(String, Binding)>, name: Seq<char>, k: int)
    requires
        0 <= k <= names.len(),
        forall|j: int| 0 <= j < k ==> names[j].0@ != name,
    ensures
        first_binding(names, name) == first_binding(names.subrange(k, names.len() as int), name),
    decreases k,
{
    if k > 0 {
        lemma_first_binding_skip(names.drop_first(), name, k - 1);
        assert(names.drop_first().subrange(k - 1, names.len() - 1) =~= names.subrange(k, names.len() as int));
    } else {
        assert(names.subrange(0, names.len() as int) =~= names);
    }
}

/// Rebinding the first entry called `name` makes `name` mean the new binding
/// and leaves every other name as it was.
proof fn lemma_first_binding_update(names: Seq<(String, Binding)>, name: Seq<char>, k: int, x: (String, Binding))
    requires
        0 <= k < names.len(),
        names[k].0@ == name,
        x.0@ == name,
        forall|j: int| 0 <= j < k ==> names[j].0@ != name,
    ensures
        first_binding(names.update(k, x), name) == Some(x.1),
        forall|n: Seq<char>| n != name ==> first_binding(names.update(k, x), n) == first_binding(names, n),
    decreases k,
{
    let u = names.update(k, x);
    if k > 0 {
        lemma_first_binding_update(names.drop_first(), name, k - 1, x);
        assert(u.drop_first() =~= names.drop_first().update(k - 1, x));
    } else {
        assert(u.drop_first() =~= names.drop_first());
    }
    assert forall|n: Seq<char>| n != name implies first_binding(u, n) == first_binding(names, n) by {
        assert(u[0] == if k == 0 { x } else { names[0] });
        if k > 0 {
            assert(first_binding(u.drop_first(), n) == first_binding(names.drop_first(), n));
        } else {
            assert(first_binding(u.drop_first(), n) == first_binding(names.drop_first(), n));
        }
    }
}

/// Adding a binding for a name not yet present makes the name mean it and
/// leaves every other name as it was.
proof fn lemma_first_binding_push(names: Seq<(String, Binding)>, name: Seq<char>, x: (String, Binding))
    requires
        x.0@ == name,
        forall|j: int| 0 <= j < names.len() ==> names[j].0@ != name,
    ensures
        first_binding(names.push(x), name) == Some(x.1),
        forall|n: Seq<char>| n != name ==> first_binding(names.push(x), n) == first_binding(names, n),
    decreases names.len(),
{
    let p = names.push(x);
    if names.len() > 0 {
        lemma_first_binding_push(names.drop_first(), name, x);
        assert(p.drop_first() =~= names.drop_first().push(x));
    } else {
        assert(p.drop_first() =~= Seq::<(String, Binding)>::empty());
    }
    assert forall|n: Seq<char>| n != name implies first_binding(p, n) == first_binding(names, n) by {
        if names.len() > 0 {
            assert(p[0] == names[0]);
            assert(first_binding(p.drop_first(), n) == first_binding(names.drop_first(), n));
        } else {
            assert(p[0] == x);
            assert(first_binding(p.drop_first(), n) is None);
        }
    }
}

/// The binding `name` has among `names`, if any.
fn find_binding(names: &Vec<(String, Binding)>, name: &str) -> (r: Option<Binding>)
    ensures
        r == first_binding(names@, name@),
{
    let mut k: usize = 0;
    while k < names.len()
        invariant
            k <= names@.len(),
            forall|j: int| 0 <= j < k ==> names@[j].0@ != name@,
        decreases names@.len() - k,
    {
        if str_eq(names[k].0.as_str(), name) {
            proof {
                lemma_first_binding_skip(names@, name@, k as int);
            }
            return Some(names[k].1.copy());
        }
        k += 1;
    }
    proof {
        lemma_first_binding_skip(names@, name@, k as int);
    }
    None
}

/// `` `name`tail ``.
fn quoted(name: &str, tail: &str) -> (r: String) {
    let mut m = "`".to_owned();
    m.append(name);
    m.append(tail);
    m
}

/// The message for operands of types that no common type holds.
fn no_common_type(left: &Type, right: &Type) -> (r: String)
    ensures
        r@ == "`"@ + spelled_type(*left) + "` and `"@ + spelled_type(*right)
            + "` have no common type; convert one with `as`"@,
{
    let l = left.text();
    let r = right.text();
    let mut m = "`".to_owned();
    m.append(l.as_str());
    m.append("` and `");
    m.append(r.as_str());
    m.append("` have no common type; convert one with `as`");
    m
}

/// Cells and bits of a scalar type's values, as a modulus.
/// How many values the bits of a scalar type hold.
pub open spec fn modulus_of(ty: Type) -> int {
    match ty {
        Type::Int | Type::SInt => 65536,
        _ => 256,
    }
}

fn modulus(ty: &Type) -> (r: i64)
    ensures
        r == 256 || r == 65536,
        r == modulus_of(*ty),
{
    match ty {
        Type::Int | Type::SInt => 65536,
        _ => 256,
    }
}

/// The bits `v` leaves in a value of `ty`.
fn to_bits(v: i64, ty: &Type) -> (r: i64)
    requires
        -0x1_0000_0000 <= v <= 0x1_0000_0000,
    ensures
        0 <= r < 65536,
        r == (v + 0x2_0000_0000) % modulus_of(*ty),
{
    let m = modulus(ty);
    (v + 0x2_0000_0000) % m
}

/// The value of `ty` whose bits are `b`.
fn from_bits(b: i64, ty: &Type) -> (r: i64)
    requires
        0 <= b < 65536,
    ensures
        -32768 <= r <= 65535,
        r == (if (*ty is SByte || *ty is SInt) && (b as int) % modulus_of(*ty) >= modulus_of(*ty) / 2 {
            (b as int) % modulus_of(*ty) - modulus_of(*ty)
        } else {
            (b as int) % modulus_of(*ty)
        }),
{
    let m = modulus(ty);
    let b = b % m;
    if ty.is_signed() && b >= m / 2 {
        b - m
    } else {
        b
    }
}

/// `v` wrapped into the range of `ty`.
fn wrap(v: i64, ty: &Type) -> (r: i64)
    requires
        -0x1_0000_0000 <= v <= 0x1_0000_0000,
    ensures
        -32768 <= r <= 65535,
        scalar(*ty) && min_of(*ty) <= v <= max_of(*ty) ==> r == v,
        scalar(*ty) && !(*ty is SByte || *ty is SInt) ==> r == (v as int) % modulus_of(*ty),
{
    proof {
        if scalar(*ty) {
            let m = modulus_of(*ty);
            let k: int = 0x2_0000_0000int / m;
            assert(m * k == 0x2_0000_0000int);
            vstd::arithmetic::div_mod::lemma_mod_multiples_vanish(k, v as int, m);
            vstd::arithmetic::div_mod::lemma_mod_twice(v + 0x2_0000_0000int, m);
        }
        if scalar(*ty) && min_of(*ty) <= v <= max_of(*ty) {
            let m = modulus_of(*ty);
            let k: int = 0x2_0000_0000int / m;
            assert(m * k == 0x2_0000_0000int);
            if v >= 0 {
                vstd::arithmetic::div_mod::lemma_small_mod(v as nat, m as nat);
                vstd::arithmetic::div_mod::lemma_mod_multiples_vanish(k, v as int, m);
            } else {
                vstd::arithmetic::div_mod::lemma_small_mod((v + m) as nat, m as nat);
                vstd::arithmetic::div_mod::lemma_mod_multiples_vanish(k - 1, v + m, m);
                assert(m * (k - 1) + (v + m) == v + 0x2_0000_0000int) by (nonlinear_arith)
                    requires
                        m * k == 0x2_0000_0000int,
                ;
            }
        }
    }

    if !ty.is_scalar() {
        return 0;
    }
    from_bits(to_bits(v, ty), ty)
}

/// Division truncating toward zero, with the remainder taking the sign of
/// the dividend.
fn truncating_divmod(l: i64, r: i64) -> (qr: (i64, i64))
    requires
        -32768 <= l <= 65535,
        -32768 <= r <= 65535,
        r != 0,
    ensures
        -65536 <= qr.0 <= 65536,
        -65536 <= qr.1 <= 65536,
        qr.0 * r + qr.1 == l,
        0 <= l ==> 0 <= qr.1,
        l <= 0 ==> qr.1 <= 0,
        -(if r < 0 { -r } else { r as int }) < qr.1 < (if r < 0 { -r } else { r as int }),
        0 <= l && 0 < r ==> qr.0 == l / r && qr.1 == l % r,
{
    let lm: i64 = if l < 0 { -l } else { l };
    let rm: i64 = if r < 0 { -r } else { r };
    let q = lm / rm;
    let m = lm % rm;
    proof {
        vstd::arithmetic::div_mod::lemma_fundamental_div_mod(lm as int, rm as int);
        assert(0 <= m < rm);
        assert(q * rm + m == lm) by (nonlinear_arith)
            requires
                lm == rm * (lm / rm) + (lm % rm),
                q == lm / rm,
                m == lm % rm,
        ;
        assert((-q) * rm == -(q * rm) && q * (-rm) == -(q * rm) && (-q) * (-rm) == q * rm) by (nonlinear_arith);
    }
    let q = if (l < 0) != (r < 0) { -q } else { q };
    let m = if l < 0 { -m } else { m };
    (q, m)
}

/// Combine two 16-bit patterns bit by bit.
fn combine_bits(a: i64, b: i64, kind: BitKind) -> (r: i64)
    requires
        0 <= a < 65536,
        0 <= b < 65536,
    ensures
        0 <= r < 65536,
{
    let x = a as u64;
    let y = b as u64;
    let c = match kind {
        BitKind::And => x & y,
        BitKind::Or => x | y,
        BitKind::Xor => x ^ y,
    };
    proof {
        assert(x & y < 65536 && x | y < 65536 && x ^ y < 65536) by (bit_vector)
            requires
                x < 65536,
                y < 65536,
        ;
    }
    c as i64
}

/// `v << amount` in `ty`.
fn shift_left(v: i64, amount: i64, ty: &Type) -> (r: i64)
    requires
        -32768 <= v <= 65535,
    ensures
        -32768 <= r <= 65535,
{
    if !ty.is_scalar() || amount < 0 || amount >= 16 {
        return 0;
    }
    let b = to_bits(v, ty);
    let shifted = (b as u64) << (amount as u64);
    from_bits((shifted % 65536) as i64, ty)
}

/// `v >> amount` in `ty`: arithmetic for signed types, logical otherwise.
fn shift_right(v: i64, amount: i64, ty: &Type) -> (r: i64)
    requires
        -32768 <= v <= 65535,
    ensures
        -32768 <= r <= 65535,
{
    if !ty.is_scalar() {
        return 0;
    }
    if ty.is_signed() {
        let w = wrap(v, ty);
        if amount < 0 || amount >= 16 {
            return if w < 0 { -1 } else { 0 };
        }
        let a = amount as u64;
        if w >= 0 {
            let m = w as u64;
            proof {
                assert(m >> a <= m) by (bit_vector);
            }
            (m >> a) as i64
        } else {
            // Rounds toward negative infinity, as an arithmetic shift does.
            let m = (-w - 1) as u64;
            proof {
                assert(m >> a <= m) by (bit_vector);
            }
            -((m >> a) as i64) - 1
        }
    } else {
        if amount < 0 || amount >= 16 {
            return 0;
        }
        let b = to_bits(v, ty) as u64;
        let a = amount as u64;
        proof {
            assert(b >> a <= b) by (bit_vector);
        }
        (b >> a) as i64
    }}


/// The bits of `v`, a value of `ty`, as stored on the tape.
fn value_bits(v: i64, ty: &Type) -> (r: u64)
    requires
        -0x1_0000_0000 <= v <= 0x1_0000_0000,
{
    to_bits(v, ty) as u64
}

/// Advice on converting a value of `from` to `to`.
pub open spec fn coercion_hint_spec(from: Type, to: Type) -> Seq<char> {
    if scalar(from) && to is Bool {
        " (compare with `!= 0`)"@
    } else if scalar(from) && scalar(to) {
        " (add `as "@ + spelled_type(to) + "` to convert)"@
    } else {
        ""@
    }
}

/// Why a value of `from` cannot go where `to` is expected, as advice.
fn coercion_hint(from: &Type, to: &Type) -> (r: String)
    ensures
        r@ == coercion_hint_spec(*from, *to),
{
    if from.is_scalar() && matches!(to, Type::Bool) {
        " (compare with `!= 0`)".to_owned()
    } else if from.is_scalar() && to.is_scalar() {
        let t = to.text();
        let mut m = " (add `as ".to_owned();
        m.append(t.as_str());
        m.append("` to convert)");
        m
    } else {
        "".to_owned()
    }
}

/// `v does not fit in `ty``, with advice.
fn does_not_fit(v: i64, from: &Type, to: &Type) -> (r: String)
    ensures
        r@ == signed_decimal_chars(v as int) + " does not fit in `"@ + spelled_type(*to) + "`"@ + coercion_hint_spec(
            *from,
            *to,
        ),
{
    let mut m = signed_text(v);
    let t = to.text();
    m.append(" does not fit in `");
    m.append(t.as_str());
    m.append("`");
    let hint = coercion_hint(from, to);
    m.append(hint.as_str());
    m
}

proof fn lemma_element_in_array(base: int, length: int, ew: int, index: int)
    requires
        array_fits(base, length, ew),
        0 <= index < length,
    ensures
        0 <= index * stride_for(length, ew),
        base + index * stride_for(length, ew) + stride_for(length, ew) <= tape_limit(),
{
    let s = stride_for(length, ew);
    assert(0 <= index * s && index * s + s <= (length + 2) * s) by (nonlinear_arith)
        requires
            0 <= index < length,
            s >= 1,
    ;
}

impl<'a> Compiler<'a> {
    /// Store an evaluated value into `dst`, converting between scalar widths.
    fn store_scalar(&mut self, dst: Addr, dst_ty: &Type, value: &Value, span: Span) -> (r: CResult<()>)
        requires
            old(self).inv(),
            old(self).headroom(0x1_0000),
            value_ok(dst, *dst_ty),
        ensures
            final(self).inv(),
            final(self).kept(old(self)),
            final(self).bf.view().next_free == old(self).bf.view().next_free,
            final(self).bf.view().array_next == old(self).bf.view().array_next,
    {
        if matches!(dst_ty, Type::Unit) {
            return Ok(());
        }
        proof {
            use_type_invariant(value);
        }
        if !coercible(&value.ty, dst_ty) {
            let from = value.ty.text();
            let to = dst_ty.text();
            let mut m = "cannot use `".to_owned();
            m.append(from.as_str());
            m.append("` where `");
            m.append(to.as_str());
            m.append("` is expected");
            let hint = coercion_hint(&value.ty, dst_ty);
            m.append(hint.as_str());
            return error(span, m);
        }
        if !value.ty.is_scalar() || !dst_ty.is_scalar() {
            return error(span, "only scalar values can be stored".to_owned());
        }
        let from_width = value.ty.width();
        let to_width = dst_ty.width();
        let signed = value.ty.is_signed();
        self.bf.num_extend(value.addr, from_width, dst, to_width, signed);
        Ok(())
    }

    /// Set `out` to whether a value is nonzero.
    fn truthy(&mut self, value: &Value, out: Addr, span: Span) -> (r: CResult<()>)
        requires
            old(self).inv(),
            old(self).headroom(0x1_0000),
            cells_in(out as int, 1),
        ensures
            final(self).inv(),
            final(self).kept(old(self)),
            final(self).bf.view().next_free == old(self).bf.view().next_free,
            final(self).bf.view().array_next == old(self).bf.view().array_next,
    {
        proof {
            use_type_invariant(value);
        }
        if !value.ty.is_scalar() {
            let t = value.ty.text();
            return error(span, quoted(t.as_str(), "` is not a condition"));
        }
        let width = value.ty.width();
        self.bf.num_is_nonzero(out, value.addr, width);
        Ok(())
    }

    /// Walk to element `index` of the array at `base` and copy it to `out`.
    fn array_read(&mut self, base: Addr, layout: &ArrayLayout, index: &Value, out: Addr)
        requires
            old(self).inv(),
            old(self).headroom(0x1_0000),
            layout.wf(),
            array_fits(base as int, layout.length as int, layout.element_width as int),
            scalar(index.ty),
            cells_in(out as int, layout.element_width as int),
        ensures
            final(self).inv(),
            final(self).kept(old(self)),
            final(self).bf.view().next_free == old(self).bf.view().next_free,
            final(self).bf.view().array_next == old(self).bf.view().array_next,
    {
        proof {
            use_type_invariant(index);
            assert(layout.stride >= 2);
            assert(base + layout.stride <= tape_limit()) by (nonlinear_arith)
                requires
                    base + (layout.length + 2) * layout.stride <= tape_limit(),
                    layout.stride >= 1,
                    layout.length >= 0,
            ;
        }
        let width = index.ty.width();
        let counter = layout.counter(base);
        self.bf.num_convert(index.addr, width, counter, layout.index_width);
        if !layout.flag_is_counter() {
            self.bf.num_is_nonzero(base + layout.go(), counter, layout.index_width);
        }
        self.bf.array_access(base, layout, Access::Read);
        let transit = layout.transit(base);
        let mut cell: Addr = 0;
        while cell < layout.element_width as Addr
            invariant
                0 <= cell <= layout.element_width,
                layout.wf(),
                layout.element_width <= 2,
                cells_in(out as int, layout.element_width as int),
                cells_in(transit as int, layout.element_width as int),
                self.inv(),
                self.kept(old(self)),
                self.bf.view().next_free == old(self).bf.view().next_free,
                self.bf.view().array_next == old(self).bf.view().array_next,
            decreases layout.element_width - cell,
        {
            self.bf.zero(out + cell);
            self.bf.move_onto(transit + cell, out + cell, false);
            cell += 1;
        }
    }

    /// Walk to element `index` of the array at `base` and overwrite it with
    /// the value at `value`.
    fn array_write(&mut self, base: Addr, layout: &ArrayLayout, index: &Value, value: Addr)
        requires
            old(self).inv(),
            old(self).headroom(0x1_0000),
            layout.wf(),
            array_fits(base as int, layout.length as int, layout.element_width as int),
            scalar(index.ty),
            cells_in(value as int, layout.element_width as int),
        ensures
            final(self).inv(),
            final(self).kept(old(self)),
            final(self).bf.view().next_free == old(self).bf.view().next_free,
            final(self).bf.view().array_next == old(self).bf.view().array_next,
    {
        proof {
            use_type_invariant(index);
            assert(base + layout.stride <= tape_limit()) by (nonlinear_arith)
                requires
                    base + (layout.length + 2) * layout.stride <= tape_limit(),
                    layout.stride >= 1,
                    layout.length >= 0,
            ;
        }
        let width = index.ty.width();
        let counter = layout.counter(base);
        self.bf.num_convert(index.addr, width, counter, layout.index_width);
        if !layout.flag_is_counter() {
            self.bf.num_is_nonzero(base + layout.go(), counter, layout.index_width);
        }
        let transit = layout.transit(base);
        self.bf.num_copy(value, transit, layout.element_width);
        self.bf.array_access(base, layout, Access::Write);
    }

    fn load(&mut self, place: &Place) -> (r: CResult<Value>)
        requires
            old(self).inv(),
            old(self).headroom(0x2_0000),
        ensures
            final(self).inv(),
            final(self).kept(old(self)),
            r matches Ok(v) ==> v.ty == (match *place {
                Place::Direct { ty, .. } => ty,
                Place::Indexed { element, .. } => element,
            }),
    {
        proof {
            use_type_invariant(place);
        }
        match place {
            Place::Direct { addr, ty } => Ok(Value { addr: *addr, ty: ty.clone() }),
            Place::Indexed { base, layout, element, index } => {
                let width = element.width();
                let out = self.bf.alloc_zeroed(width);
                self.array_read(*base, layout, index, out);
                Ok(Value { addr: out, ty: element.clone() })
            },
        }
    }

    fn store(&mut self, place: &Place, value: &Value, span: Span) -> (r: CResult<()>)
        requires
            old(self).inv(),
            old(self).headroom(0x2_0000),
        ensures
            final(self).inv(),
            r is Ok ==> final(self).kept(old(self)),
            final(self).functions@ == old(self).functions@,
    {
        proof {
            use_type_invariant(place);
        }
        match place {
            Place::Direct { addr, ty } => self.store_scalar(*addr, ty, value, span),
            Place::Indexed { base, layout, element, index } => {
                let mark = self.bf.watermark();
                let staged = self.bf.alloc_zeroed(element.width());
                self.store_scalar(staged, element, value, span)?;
                self.array_write(*base, layout, index, staged);
                self.bf.release_to(mark);
                Ok(())
            },
        }
    }

    /// Add one to the number at `addr`.
    fn increment(&mut self, addr: Addr, width: usize)
        requires
            old(self).inv(),
            old(self).headroom(0x1_0000),
            cells_in(addr as int, width as int),
            width <= 2,
        ensures
            final(self).inv(),
            final(self).kept(old(self)),
            final(self).bf.view().next_free == old(self).bf.view().next_free,
            final(self).bf.view().array_next == old(self).bf.view().array_next,
    {
        if width == 1 {
            self.bf.add(addr, 1);
            return;
        }
        let mark = self.bf.watermark();
        let one = self.bf.alloc_zeroed(width);
        self.bf.num_set(one, width, 1);
        self.bf.num_add_assign(addr, one, width);
        self.bf.num_zero(one, width);
        self.bf.release_to(mark);
    }

    /// Reset the control cell if it currently holds `reason`.
    fn clear_control(&mut self, reason: u8)
        requires
            old(self).inv(),
            old(self).headroom(0x1_0000),
        ensures
            final(self).inv(),
            final(self).kept(old(self)),
            final(self).bf.view().next_free == old(self).bf.view().next_free,
            final(self).bf.view().array_next == old(self).bf.view().array_next,
    {
        let mark = self.bf.watermark();
        let matches = self.bf.alloc_zeroed(1);
        let expected = self.bf.alloc_zeroed(1);
        self.bf.set(expected, reason);
        let control = self.control;
        self.bf.byte_eq(matches, control, expected);
        self.bf.open_loop(matches);
        self.bf.zero(control);
        self.bf.zero(matches);
        self.bf.close_loop(matches);
        self.bf.zero(expected);
        self.bf.release_to(mark);
    }

    /// Set `out` to whether `lhs < rhs`, comparing two's complement values
    /// when `signed`.
    fn less_than(&mut self, out: Addr, lhs: Addr, rhs: Addr, width: usize, signed: bool)
        requires
            old(self).inv(),
            old(self).headroom(0x1_0000),
            cells_in(out as int, 1),
            cells_in(lhs as int, width as int),
            cells_in(rhs as int, width as int),
            1 <= width <= 2,
        ensures
            final(self).inv(),
            final(self).kept(old(self)),
            final(self).bf.view().next_free == old(self).bf.view().next_free,
            final(self).bf.view().array_next == old(self).bf.view().array_next,
    {
        if !signed {
            self.bf.num_lt(out, lhs, rhs, width);
            return;
        }
        // Flipping the sign bits turns two's complement order into unsigned
        // order.
        let mark = self.bf.watermark();
        let left = self.bf.alloc_zeroed(width);
        let right = self.bf.alloc_zeroed(width);
        self.bf.num_copy(lhs, left, width);
        self.bf.num_copy(rhs, right, width);
        self.bf.add(left + (width - 1) as Addr, 128);
        self.bf.add(right + (width - 1) as Addr, 128);
        self.bf.num_lt(out, left, right, width);
        self.bf.num_zero(left, width);
        self.bf.num_zero(right, width);
        self.bf.release_to(mark);
    }

    /// Print a byte array up to its first `0`, or to the end.
    fn emit_puts(&mut self, base: Addr, layout: &ArrayLayout)
        requires
            old(self).inv(),
            old(self).headroom(0x2_0000),
            layout.wf(),
            layout.element_width == 1,
            array_fits(base as int, layout.length as int, 1),
        ensures
            final(self).inv(),
            final(self).kept(old(self)),
            final(self).bf.view().next_free == old(self).bf.view().next_free,
            final(self).bf.view().array_next == old(self).bf.view().array_next,
    {
        let mark = self.bf.watermark();
        let iw = layout.index_width;
        let index = self.bf.alloc_zeroed(iw);
        let running = self.bf.alloc_zeroed(1);
        let byte = self.bf.alloc_zeroed(1);
        let limit = self.bf.alloc_zeroed(iw);
        self.bf.num_set(limit, iw, layout.length as u64);
        self.bf.set(running, 1);
        self.bf.open_loop(running);
        let cursor = Value { addr: index, ty: if iw == 1 { Type::Byte } else { Type::Int } };
        self.array_read(base, layout, &cursor, byte);
        self.bf.if_else(
            byte,
            |bf: &mut Bf|
                requires
                    old(bf).wf(),
                    0 <= byte <= max_addr(),
                ensures
                    final(bf).wf(),
                    final(bf).view().next_free == old(bf).view().next_free
                {
                    bf.write(byte);
                    bf.zero(byte);
                },
            |bf: &mut Bf|
                requires
                    old(bf).wf(),
                    0 <= running <= max_addr(),
                ensures
                    final(bf).wf()
                {
                    bf.zero(running);
                },
        );
        self.increment(index, iw);
        let reached_end = self.bf.alloc_zeroed(1);
        self.bf.num_eq(reached_end, index, limit, iw);
        self.bf.open_loop(reached_end);
        self.bf.zero(running);
        self.bf.zero(reached_end);
        self.bf.close_loop(reached_end);
        self.bf.close_loop(running);
        self.bf.zero(byte);
        self.bf.num_zero(index, iw);
        self.bf.num_zero(limit, iw);
        self.bf.release_to(mark);
    }
}


/// How big an optional borrowed expression is.
pub open spec fn orsize(e: Option<&Expr>) -> nat {
    match e {
        Some(x) => esize(*x),
        None => 0,
    }
}

/// How big an optional borrowed block is.
pub open spec fn obsize(b: Option<&[Stmt]>) -> nat {
    match b {
        Some(x) => ssizes(x@),
        None => 0,
    }
}

/// Record `binding` under `name`, replacing an earlier one of that name.
fn insert_binding(names: &mut Vec<(String, Binding)>, name: &str, binding: Binding)
    ensures
        first_binding(final(names)@, name@) == Some(binding),
        forall|n: Seq<char>| n != name@ ==> first_binding(final(names)@, n) == first_binding(old(names)@, n),
{
    let ghost before = names@;
    let mut k: usize = 0;
    let mut found = false;
    while !found && k < names.len()
        invariant
            k <= names@.len(),
            names@ == before,
            forall|j: int| 0 <= j < k ==> before[j].0@ != name@,
            found ==> k < before.len() && before[k as int].0@ == name@,
        decreases names@.len() - k + (if found { 0int } else { 1int }),
    {
        if str_eq(names[k].0.as_str(), name) {
            found = true;
        } else {
            k += 1;
        }
    }
    let entry = (name.to_owned(), binding);
    if found {
        names.set(k, entry);
        proof {
            lemma_first_binding_update(before, name@, k as int, entry);
        }
    } else {
        names.push(entry);
        proof {
            lemma_first_binding_push(before, name@, entry);
        }
    }
}

impl<'a> Compiler<'a> {
    /// Store the value of `expr` into `dst`. A constant that fits the
    /// destination is stored as it is, whatever its own type.
    fn store_expr(&mut self, dst: Addr, dst_ty: &Type, expr: &Expr, span: Span) -> (r: CResult<()>)
        requires
            old(self).inv(),
            value_ok(dst, *dst_ty),
        ensures
            final(self).inv(),
            final(self).functions@ == old(self).functions@,
            r is Ok ==> final(self).kept(old(self)),
        decreases inactive(old(self).active@), esize(*expr), 3nat,
    {
        self.ensure_room(span)?;
        if dst_ty.is_scalar() {
            if let Ok(value_ty) = self.type_of(expr) {
                if !coercible(&value_ty, dst_ty) {
                    if let Ok(v) = self.const_eval(expr) {
                        if v < dst_ty.min_value() || v > dst_ty.max_value() {
                            return error(span, does_not_fit(v, &value_ty, dst_ty));
                        }
                        let width = dst_ty.width();
                        self.bf.num_set(dst, width, value_bits(v, dst_ty));
                        return Ok(());
                    }
                }
            }
        }
        let mark = self.bf.watermark();
        let value = self.eval(expr)?;
        self.ensure_room(span)?;
        self.store_scalar(dst, dst_ty, &value, span)?;
        self.bf.release_to(mark);
        Ok(())
    }

    fn eval(&mut self, expr: &Expr) -> (r: CResult<Value>)
        requires
            old(self).inv(),
        ensures
            final(self).inv(),
            final(self).functions@ == old(self).functions@,
            r is Ok ==> final(self).kept(old(self)),
            !old(self).roomy() ==> r is Err,
            match *expr {
                Expr::Int { value, .. } => {
                    &&& value > 65535 ==> r is Err
                    &&& old(self).roomy() && value <= 65535 ==> (r matches Ok(v) && v.ty == (if value
                        <= 255 {
                        Type::Byte
                    } else {
                        Type::Int
                    }))
                },
                Expr::Bool { .. } => old(self).roomy() ==> (r matches Ok(v) && v.ty == Type::Bool),
                Expr::Str { .. } => r is Err,
                Expr::ArrayLit { .. } => r is Err,
                Expr::Call { name, .. } => !is_builtin(name@) && (forall|j: int|
                    0 <= j < old(self).functions@.len() && (#[trigger] old(self).functions@[j]).name@ == name@
                        ==> old(self).active@[j]) ==> r is Err,
                _ => true,
            },
        decreases inactive(old(self).active@), esize(*expr), 2nat,
    {
        self.ensure_room(expr.span())?;
        match expr {
            Expr::Int { value, span } => {
                let ty = if *value <= 255 { Type::Byte } else { Type::Int };
                if *value > 65535 {
                    let mut m = decimal_text(*value);
                    m.append(" does not fit in `int`");
                    return error(*span, m);
                }
                let width = ty.width();
                let addr = self.bf.alloc_cells(width);
                self.bf.num_set(addr, width, *value);
                Ok(Value { addr, ty })
            },
            Expr::Bool { value, .. } => {
                let addr = self.bf.alloc_cells(1);
                self.bf.set(addr, if *value { 1 } else { 0 });
                Ok(Value { addr, ty: Type::Bool })
            },
            Expr::Str { span, .. } => error(
                *span,
                "string literals can only initialize arrays or be printed".to_owned(),
            ),
            Expr::ArrayLit { span, .. } => error(*span, "array literals can only initialize arrays".to_owned()),
            Expr::Name { name, span } => {
                if let Some(binding) = self.lookup(name.as_str()) {
                    return Ok(binding.as_value());
                }
                if let Some(k) = self.find_constant(name.as_str()) {
                    let constant = &self.constants[k];
                    proof {
                        use_type_invariant(constant);
                    }
                    let ty = constant.ty.clone();
                    let bits = constant.bits;
                    let width = ty.width();
                    let addr = self.bf.alloc_cells(width);
                    self.bf.num_set(addr, width, bits);
                    return Ok(Value { addr, ty });
                }
                error(*span, quoted(name.as_str(), "` is not defined"))
            },
            Expr::Index { .. } => {
                let place = self.place(expr)?;
                self.ensure_room(expr.span())?;
                self.load(&place)
            },
            Expr::Cast { value, ty, span } => {
                let evaluated = self.eval(value)?;
                proof {
                    use_type_invariant(&evaluated);
                }
                if !evaluated.ty.is_scalar() || !ty.is_scalar() {
                    return error(*span, "only scalars can be cast".to_owned());
                }
                self.ensure_room(*span)?;
                let width = ty.width();
                let addr = self.bf.alloc_zeroed(width);
                let from_width = evaluated.ty.width();
                if matches!(ty, Type::Bool) {
                    self.bf.num_is_nonzero(addr, evaluated.addr, from_width);
                } else {
                    let signed = evaluated.ty.is_signed();
                    self.bf.num_extend(evaluated.addr, from_width, addr, width, signed);
                }
                Ok(Value { addr, ty: ty.clone() })
            },
            Expr::Unary { op, operand, span } => {
                let evaluated = self.eval(operand)?;
                proof {
                    use_type_invariant(&evaluated);
                }
                if !evaluated.ty.is_scalar() {
                    return error(
                        *span,
                        (if matches!(op, UnOp::Not) { "`!` needs a scalar" } else { "`-` needs a scalar" }).to_owned(),
                    );
                }
                self.ensure_room(*span)?;
                let from_width = evaluated.ty.width();
                match op {
                    UnOp::Not => {
                        let addr = self.bf.alloc_zeroed(1);
                        self.bf.num_is_zero(addr, evaluated.addr, from_width);
                        Ok(Value { addr, ty: Type::Bool })
                    },
                    UnOp::Neg => {
                        let ty = promote(&evaluated.ty).signed_form();
                        let width = ty.width();
                        let addr = self.bf.alloc_zeroed(width);
                        let staged = self.bf.alloc_zeroed(width);
                        let signed = evaluated.ty.is_signed();
                        self.bf.num_extend(evaluated.addr, from_width, staged, width, signed);
                        self.bf.num_sub_assign(addr, staged, width);
                        Ok(Value { addr, ty })
                    },
                }
            },
            Expr::Binary { op, lhs, rhs, span } => {
                if matches!(op, BinOp::And | BinOp::Or) {
                    return self.short_circuit(*op, lhs, rhs, *span);
                }
                let left = self.eval(lhs)?;
                self.binary(*op, &left, rhs, *span)
            },
            Expr::Call { name, args, span } => self.call(name.as_str(), args.as_slice(), *span),
        }
    }

    /// Apply a binary operator whose left side is already evaluated.
    ///
    /// Compound assignment reuses this so `a[i] += 1` evaluates `i` once.
    fn binary(&mut self, op: BinOp, left: &Value, rhs: &Expr, span: Span) -> (r: CResult<Value>)
        requires
            old(self).inv(),
        ensures
            final(self).inv(),
            final(self).functions@ == old(self).functions@,
            r is Ok ==> final(self).kept(old(self)),
            !scalar(left.ty) ==> r is Err,
            r matches Ok(v) ==> ((op is Eq || op is Ne || op is Lt || op is Le || op is Gt || op is Ge)
                ==> v.ty == Type::Bool),
            r matches Ok(v) ==> scalar(v.ty),
        decreases inactive(old(self).active@), esize(*rhs), 3nat,
    {
        let right = self.eval(rhs)?;
        proof {
            use_type_invariant(left);
            use_type_invariant(&right);
        }
        if !left.ty.is_scalar() || !right.ty.is_scalar() {
            return error(span, quoted(op.spelling(), "` needs scalar operands"));
        }
        self.ensure_room(span)?;
        let left_width = left.ty.width();
        let right_width = right.ty.width();
        if matches!(op, BinOp::Shl | BinOp::Shr) {
            let ty = promote(&left.ty);
            let width = ty.width();
            let signed = ty.is_signed();
            let addr = self.bf.alloc_zeroed(width);
            self.bf.num_extend(left.addr, left_width, addr, width, signed);
            match self.const_eval(rhs) {
                Ok(amount) => {
                    let amount: usize = if amount < 0 { 64 } else { amount as usize };
                    if matches!(op, BinOp::Shl) {
                        self.bf.num_shl_const(addr, width, amount);
                    } else if signed {
                        self.bf.num_sar_const(addr, width, amount);
                    } else {
                        self.bf.num_shr_const(addr, width, amount);
                    }
                },
                Err(_) => {
                    if matches!(op, BinOp::Shr) && signed {
                        self.bf.num_sar_dynamic(addr, width, right.addr, right_width);
                    } else {
                        self.bf.num_shift_dynamic(addr, width, right.addr, right_width, matches!(op, BinOp::Shl));
                    }
                },
            }
            return Ok(Value { addr, ty });
        }

        let left_ty = promote(&left.ty);
        let right_ty = promote(&right.ty);
        let operand_ty = match common(&left_ty, &right_ty) {
            Some(t) => t,
            None => {
                return error(span, no_common_type(&left_ty, &right_ty));
            },
        };
        let width = operand_ty.width();
        let signed = operand_ty.is_signed();
        let staged_left = self.bf.alloc_zeroed(width);
        let staged_right = self.bf.alloc_zeroed(width);
        let left_signed = left.ty.is_signed();
        let right_signed = right.ty.is_signed();
        self.bf.num_extend(left.addr, left_width, staged_left, width, left_signed);
        self.bf.num_extend(right.addr, right_width, staged_right, width, right_signed);

        if op.is_comparison() {
            let addr = self.bf.alloc_zeroed(1);
            match op {
                BinOp::Eq => self.bf.num_eq(addr, staged_left, staged_right, width),
                BinOp::Ne => {
                    let same = self.bf.alloc_zeroed(1);
                    self.bf.num_eq(same, staged_left, staged_right, width);
                    self.bf.is_zero(addr, same);
                },
                BinOp::Lt => self.less_than(addr, staged_left, staged_right, width, signed),
                BinOp::Gt => self.less_than(addr, staged_right, staged_left, width, signed),
                BinOp::Le => {
                    let greater = self.bf.alloc_zeroed(1);
                    self.less_than(greater, staged_right, staged_left, width, signed);
                    self.bf.is_zero(addr, greater);
                },
                _ => {
                    let less = self.bf.alloc_zeroed(1);
                    self.less_than(less, staged_left, staged_right, width, signed);
                    self.bf.is_zero(addr, less);
                },
            }
            return Ok(Value { addr, ty: Type::Bool });
        }

        let addr = self.bf.alloc_zeroed(width);
        match op {
            BinOp::Add => {
                self.bf.num_add_assign(staged_left, staged_right, width);
                self.bf.num_copy(staged_left, addr, width);
            },
            BinOp::Sub => {
                self.bf.num_sub_assign(staged_left, staged_right, width);
                self.bf.num_copy(staged_left, addr, width);
            },
            BinOp::Mul => match self.const_eval(rhs) {
                Ok(factor) => self.bf.num_mul_const(addr, staged_left, width, value_bits(factor, &operand_ty)),
                Err(_) => self.bf.num_mul(addr, staged_left, staged_right, width),
            },
            BinOp::Div => {
                let remainder = self.bf.alloc_zeroed(width);
                if signed {
                    self.bf.num_divmod_signed(addr, remainder, staged_left, staged_right, width);
                } else {
                    self.bf.num_divmod(addr, remainder, staged_left, staged_right, width);
                }
            },
            BinOp::Rem => {
                let quotient = self.bf.alloc_zeroed(width);
                if signed {
                    self.bf.num_divmod_signed(quotient, addr, staged_left, staged_right, width);
                } else {
                    self.bf.num_divmod(quotient, addr, staged_left, staged_right, width);
                }
            },
            BinOp::BitAnd => self.bf.num_bitwise(addr, staged_left, staged_right, width, BitKind::And),
            BinOp::BitOr => self.bf.num_bitwise(addr, staged_left, staged_right, width, BitKind::Or),
            _ => self.bf.num_bitwise(addr, staged_left, staged_right, width, BitKind::Xor),
        }
        Ok(Value { addr, ty: operand_ty })
    }

    fn short_circuit(&mut self, op: BinOp, lhs: &Expr, rhs: &Expr, span: Span) -> (r: CResult<Value>)
        requires
            old(self).inv(),
        ensures
            final(self).inv(),
            final(self).functions@ == old(self).functions@,
            r is Ok ==> final(self).kept(old(self)),
        decreases inactive(old(self).active@), esize(*lhs) + esize(*rhs), 3nat,
    {
        self.ensure_room(span)?;
        let out = self.bf.alloc_zeroed(1);
        let left_flag = self.bf.alloc_zeroed(1);
        let mark = self.bf.watermark();
        let left = self.eval(lhs)?;
        self.ensure_room(span)?;
        self.truthy(&left, left_flag, span)?;
        self.bf.release_to(mark);

        let wants_left = matches!(op, BinOp::And);
        if !wants_left {
            self.bf.set(out, 1);
        }
        // For `&&` the right side only runs when the left was true; for `||`
        // only when it was false.
        let gate = self.bf.alloc_zeroed(1);
        if wants_left {
            self.bf.add_copy(left_flag, gate);
        } else {
            self.bf.is_zero(gate, left_flag);
        }
        self.bf.open_loop(gate);
        let inner = self.bf.watermark();
        let right = self.eval(rhs)?;
        self.ensure_room(span)?;
        let right_flag = self.bf.alloc_zeroed(1);
        self.truthy(&right, right_flag, span)?;
        if wants_left {
            self.bf.open_loop(right_flag);
            self.bf.set(out, 1);
            self.bf.zero(right_flag);
            self.bf.close_loop(right_flag);
        } else {
            self.bf.if_zero(
                right_flag,
                |bf: &mut Bf| requires old(bf).wf(), 0 <= out <= max_addr() ensures final(bf).wf() { bf.zero(out) },
            );
            self.bf.zero(right_flag);
        }
        self.bf.release_to(inner);
        self.bf.zero(gate);
        self.bf.close_loop(gate);
        Ok(Value { addr: out, ty: Type::Bool })
    }

    fn place(&mut self, expr: &Expr) -> (r: CResult<Place>)
        requires
            old(self).inv(),
        ensures
            final(self).inv(),
            final(self).functions@ == old(self).functions@,
            r is Ok ==> final(self).kept(old(self)),
        decreases inactive(old(self).active@), esize(*expr), 1nat,
    {
        match expr {
            Expr::Name { name, span } => {
                if self.find_constant(name.as_str()).is_some() {
                    return error(*span, quoted(name.as_str(), "` is a constant and cannot be assigned"));
                }
                match self.lookup(name.as_str()) {
                    Some(binding) => {
                        proof {
                            use_type_invariant(&binding);
                        }
                        Ok(Place::Direct { addr: binding.addr, ty: binding.ty })
                    },
                    None => error(*span, quoted(name.as_str(), "` is not defined")),
                }
            },
            Expr::Index { array, index, span } => {
                let name = match &**array {
                    Expr::Name { name, .. } => name,
                    _ => {
                        return error(*span, "only named arrays can be indexed".to_owned());
                    },
                };
                let binding = match self.lookup(name.as_str()) {
                    Some(b) => b,
                    None => {
                        return error(*span, quoted(name.as_str(), "` is not defined"));
                    },
                };
                proof {
                    use_type_invariant(&binding);
                }
                let (element, length) = match binding.ty {
                    Type::Array { element, length } => (*element, length),
                    _ => {
                        return error(*span, quoted(name.as_str(), "` is not an array"));
                    },
                };
                let layout = ArrayLayout::new(length, element.width());
                if let Ok(constant) = self.const_eval(index) {
                    if constant < 0 || constant as usize >= length {
                        let mut m = "index ".to_owned();
                        let c = signed_text(constant);
                        m.append(c.as_str());
                        m.append(" is outside `");
                        m.append(name.as_str());
                        m.append("` (length ");
                        let l = decimal_text(length as u64);
                        m.append(l.as_str());
                        m.append(")");
                        return error(index.span(), m);
                    }
                    proof {
                        lemma_element_in_array(binding.addr as int, length as int, layout.element_width as int, constant as int);
                    }
                    let addr = layout.element(binding.addr, constant as usize);
                    return Ok(Place::Direct { addr, ty: element });
                }
                let index_value = self.eval(index)?;
                proof {
                    use_type_invariant(&index_value);
                }
                if !index_value.ty.is_scalar() {
                    return error(index.span(), "array indices must be scalars".to_owned());
                }
                Ok(Place::Indexed { base: binding.addr, layout, element, index: index_value })
            },
            other => error(other.span(), "this expression cannot be assigned to".to_owned()),
        }
    }
}


impl<'a> Compiler<'a> {
    fn call(&mut self, name: &str, args: &[Expr], span: Span) -> (r: CResult<Value>)
        requires
            old(self).inv(),
        ensures
            final(self).inv(),
            final(self).functions@ == old(self).functions@,
            r is Ok ==> final(self).kept(old(self)),
            !is_builtin(name@) && (forall|j: int|
                0 <= j < old(self).functions@.len() && (#[trigger] old(self).functions@[j]).name@ == name@
                    ==> old(self).active@[j]) ==> r is Err,
        decreases inactive(old(self).active@), esizes(args@), 6nat,
    {
        proof {
            reveal_strlit("print");
            reveal_strlit("println");
            reveal_strlit("putc");
            reveal_strlit("puts");
            reveal_strlit("getc");
            reveal_strlit("len");
        }
        if str_eq(name, "print") {
            return self.builtin_print(args, false);
        }
        if str_eq(name, "println") {
            return self.builtin_print(args, true);
        }
        if str_eq(name, "putc") {
            return self.builtin_putc(args, span);
        }
        if str_eq(name, "getc") {
            return self.builtin_getc(args, span);
        }
        if str_eq(name, "puts") {
            return self.builtin_puts(args, span);
        }
        if str_eq(name, "len") {
            return self.builtin_len(args, span);
        }
        match self.find_function(name) {
            Some(k) => self.inline_call(k, args, span),
            None => error(span, quoted(name, "` is not defined")),
        }
    }

    fn inline_call(&mut self, index: usize, args: &[Expr], span: Span) -> (r: CResult<Value>)
        requires
            old(self).inv(),
            index < old(self).functions@.len(),
        ensures
            final(self).inv(),
            final(self).functions@ == old(self).functions@,
            r is Ok ==> final(self).kept(old(self)),
            old(self).active@[index as int] ==> r is Err,
            args@.len() != old(self).functions@[index as int].params@.len() ==> r is Err,
            !old(self).roomy() ==> r is Err,
        decreases inactive(old(self).active@), esizes(args@), 5nat,
    {
        let function: &'a Function = self.functions[index];
        if self.active[index] {
            return error(
                span,
                quoted(
                    function.name.as_str(),
                    "` calls itself; Brainfuck has no call stack, so Cranium inlines every call and cannot compile recursion",
                ),
            );
        }
        if args.len() != function.params.len() {
            let mut m = quoted(function.name.as_str(), "` takes ");
            let want = decimal_text(function.params.len() as u64);
            m.append(want.as_str());
            m.append(" argument(s) but ");
            let got = decimal_text(args.len() as u64);
            m.append(got.as_str());
            m.append(" were given");
            return error(span, m);
        }
        if !function.ret.is_scalar() && !matches!(function.ret, Type::Unit) {
            return error(function.span, "functions can only return scalars".to_owned());
        }
        self.ensure_room(span)?;
        let return_slot = self.bf.alloc_zeroed(function.ret.width());
        let mark = self.bf.watermark();

        let mut names: Vec<(String, Binding)> = Vec::new();
        let mut k: usize = 0;
        while k < args.len()
            invariant
                k <= args@.len(),
                args@.len() == function.params@.len(),
                function == old(self).functions@[index as int],
                index < old(self).functions@.len(),
                self.inv(),
                self.kept(old(self)),
                inactive(self.active@) == inactive(old(self).active@),
                !self.active@[index as int],
            decreases args@.len() - k,
        {
            proof {
                lemma_esizes_part(args@, k as int);
            }
            let binding = self.bind_argument(&function.params[k], &args[k])?;
            insert_binding(&mut names, function.params[k].name.as_str(), binding);
            k += 1;
        }

        let ghost before = self.active@;
        let ghost returns_before = self.returns@;
        self.scopes.push(Scope { names, barrier: true });
        proof {
            lemma_activate(self.active@, index as int);
        }
        self.active.set(index, true);
        self.returns.push(Value { addr: return_slot, ty: function.ret.clone() });
        let outer_loops = self.loop_depth;
        self.loop_depth = 0;

        let result = self.statements(function.body.as_slice());

        self.loop_depth = outer_loops;
        self.returns.pop();
        self.active.set(index, false);
        self.pop_scope();
        result?;
        proof {
            assert(self.active@ =~= before);
            assert(self.returns@ =~= returns_before);
        }

        self.ensure_room(span)?;
        self.clear_control(CONTROL_RETURN);
        self.bf.release_to(mark);
        Ok(Value { addr: return_slot, ty: function.ret.clone() })
    }

    fn bind_argument(&mut self, param: &Param, arg: &Expr) -> (r: CResult<Binding>)
        requires
            old(self).inv(),
        ensures
            final(self).inv(),
            final(self).functions@ == old(self).functions@,
            r is Ok ==> final(self).kept(old(self)),
        decreases inactive(old(self).active@), esize(*arg), 4nat,
    {
        if let Type::Array { .. } = &param.ty {
            // Arrays are passed by reference: the callee shares the caller's
            // cells rather than copying a whole region.
            let (name, span) = match arg {
                Expr::Name { name, span } => (name, *span),
                _ => {
                    return error(arg.span(), "array arguments must be named variables".to_owned());
                },
            };
            let binding = match self.lookup(name.as_str()) {
                Some(b) => b,
                None => {
                    return error(span, quoted(name.as_str(), "` is not defined"));
                },
            };
            if !same_type(&binding.ty, &param.ty) {
                let have = binding.ty.text();
                let want = param.ty.text();
                let mut m = quoted(name.as_str(), "` has type `");
                m.append(have.as_str());
                m.append("` but `");
                m.append(want.as_str());
                m.append("` is expected");
                return error(span, m);
            }
            return Ok(binding);
        }
        if !param.ty.is_scalar() {
            return error(param.span, "parameters must be scalars or arrays".to_owned());
        }
        self.ensure_room(arg.span())?;
        let addr = self.bf.alloc_zeroed(param.ty.width());
        let mark = self.bf.watermark();
        self.store_expr(addr, &param.ty, arg, arg.span())?;
        self.bf.release_to(mark);
        Ok(Binding { addr, ty: param.ty.clone() })
    }

    // ---- builtins ---------------------------------------------------------

    fn builtin_print(&mut self, args: &[Expr], newline: bool) -> (r: CResult<Value>)
        requires
            old(self).inv(),
        ensures
            final(self).inv(),
            final(self).functions@ == old(self).functions@,
            r is Ok ==> final(self).kept(old(self)),
        decreases inactive(old(self).active@), esizes(args@), 3nat,
    {
        let mut k: usize = 0;
        while k < args.len()
            invariant
                k <= args@.len(),
                self.inv(),
                self.kept(old(self)),
                self.functions@ == old(self).functions@,
            decreases args@.len() - k,
        {
            let arg = &args[k];
            proof {
                lemma_esizes_part(args@, k as int);
            }
            self.ensure_room(arg.span())?;
            let mark = self.bf.watermark();
            match arg {
                Expr::Str { value, .. } => {
                    let scratch = self.bf.alloc_zeroed(1);
                    self.bf.write_bytes(scratch, value.as_slice());
                },
                other => {
                    let value = self.eval(other)?;
                    proof {
                        use_type_invariant(&value);
                    }
                    self.ensure_room(other.span())?;
                    match &value.ty {
                        Type::Byte | Type::Int | Type::Bool => {
                            let width = value.ty.width();
                            self.bf.num_print_decimal(value.addr, width);
                        },
                        Type::SByte | Type::SInt => {
                            let width = value.ty.width();
                            self.bf.num_print_signed(value.addr, width);
                        },
                        Type::Array { element, length } => {
                            if !matches!(**element, Type::Byte) {
                                let t = value.ty.text();
                                return error(other.span(), quoted(t.as_str(), "` cannot be printed"));
                            }
                            let layout = ArrayLayout::new(*length, 1);
                            self.emit_puts(value.addr, &layout);
                        },
                        Type::Unit => {
                            return error(other.span(), "`()` cannot be printed".to_owned());
                        },
                    }
                },
            }
            self.bf.release_to(mark);
            k += 1;
        }
        if newline {
            self.ensure_room(Span { file: 0, line: 1, column: 1 })?;
            let mark = self.bf.watermark();
            let scratch = self.bf.alloc_zeroed(1);
            self.bf.write_literal(scratch, 10);
            self.bf.zero(scratch);
            self.bf.release_to(mark);
        }
        Ok(Value { addr: 0, ty: Type::Unit })
    }

    fn builtin_putc(&mut self, args: &[Expr], span: Span) -> (r: CResult<Value>)
        requires
            old(self).inv(),
        ensures
            final(self).inv(),
            final(self).functions@ == old(self).functions@,
            r is Ok ==> final(self).kept(old(self)),
        decreases inactive(old(self).active@), esizes(args@), 3nat,
    {
        if args.len() != 1 {
            return error(span, "`putc` takes exactly one argument".to_owned());
        }
        proof {
            lemma_esizes_part(args@, 0);
        }
        let mark = self.bf.watermark();
        let value = self.eval(&args[0])?;
        proof {
            use_type_invariant(&value);
        }
        if !value.ty.is_scalar() {
            return error(args[0].span(), "`putc` needs a scalar".to_owned());
        }
        self.bf.write(value.addr);
        self.bf.release_to(mark);
        Ok(Value { addr: 0, ty: Type::Unit })
    }

    fn builtin_getc(&mut self, args: &[Expr], span: Span) -> (r: CResult<Value>)
        requires
            old(self).inv(),
        ensures
            final(self).inv(),
            final(self).functions@ == old(self).functions@,
            r is Ok ==> final(self).kept(old(self)),
    {
        if args.len() != 0 {
            return error(span, "`getc` takes no arguments".to_owned());
        }
        self.ensure_room(span)?;
        let addr = self.bf.alloc_cells(1);
        self.bf.read(addr);
        Ok(Value { addr, ty: Type::Byte })
    }

    fn builtin_puts(&mut self, args: &[Expr], span: Span) -> (r: CResult<Value>)
        requires
            old(self).inv(),
        ensures
            final(self).inv(),
            final(self).functions@ == old(self).functions@,
            r is Ok ==> final(self).kept(old(self)),
        decreases inactive(old(self).active@), esizes(args@), 3nat,
    {
        if args.len() != 1 {
            return error(span, "`puts` takes exactly one array".to_owned());
        }
        proof {
            lemma_esizes_part(args@, 0);
        }
        let mark = self.bf.watermark();
        let value = self.eval(&args[0])?;
        proof {
            use_type_invariant(&value);
        }
        let length = match &value.ty {
            Type::Array { element, length } => {
                if !matches!(**element, Type::Byte) {
                    return error(args[0].span(), "`puts` needs a `byte` array".to_owned());
                }
                *length
            },
            _ => {
                return error(args[0].span(), "`puts` needs a `byte` array".to_owned());
            },
        };
        self.ensure_room(span)?;
        let layout = ArrayLayout::new(length, 1);
        self.emit_puts(value.addr, &layout);
        self.bf.release_to(mark);
        Ok(Value { addr: 0, ty: Type::Unit })
    }

    fn builtin_len(&mut self, args: &[Expr], span: Span) -> (r: CResult<Value>)
        requires
            old(self).inv(),
        ensures
            final(self).inv(),
            final(self).functions@ == old(self).functions@,
            r is Ok ==> final(self).kept(old(self)),
    {
        if args.len() != 1 {
            return error(span, "`len` takes exactly one array".to_owned());
        }
        let ty = self.type_of(&args[0])?;
        let length = match ty {
            Type::Array { length, .. } => length,
            _ => {
                return error(args[0].span(), "`len` needs an array".to_owned());
            },
        };
        self.ensure_room(span)?;
        let addr = self.bf.alloc_cells(2);
        self.bf.num_set(addr, 2, length as u64);
        Ok(Value { addr, ty: Type::Int })
    }

    // ---- declarations -----------------------------------------------------

    fn declare(&mut self, name: &str, declared: Option<&Type>, init: Option<&Expr>, span: Span) -> (r: CResult<()>)
        requires
            old(self).inv(),
        ensures
            final(self).inv(),
            final(self).functions@ == old(self).functions@,
            r is Ok ==> final(self).kept(old(self)),
        decreases inactive(old(self).active@), orsize(init) + 1, 1nat,
    {
        let ty = match (declared, init) {
            (Some(ty), _) => ty.clone(),
            (None, Some(expr)) => self.type_of(expr)?,
            (None, None) => {
                return error(span, quoted(name, "` needs a type or an initializer"));
            },
        };
        match ty {
            Type::Array { element, length } => self.declare_array(name, &element, length, init, span),
            Type::Unit => error(span, "variables cannot have type `()`".to_owned()),
            scalar => {
                self.ensure_room(span)?;
                let width = scalar.width();
                let addr = self.bf.alloc_cells(width);
                self.bf.num_zero(addr, width);
                if let Some(expr) = init {
                    let mark = self.bf.watermark();
                    self.store_expr(addr, &scalar, expr, expr.span())?;
                    self.bf.release_to(mark);
                }
                self.bind(name, Binding { addr, ty: scalar });
                Ok(())
            },
        }
    }

    fn declare_array(&mut self, name: &str, element: &Type, length: usize, init: Option<&Expr>, span: Span) -> (r:
        CResult<()>)
        requires
            old(self).inv(),
        ensures
            final(self).inv(),
            final(self).functions@ == old(self).functions@,
            r is Ok ==> final(self).kept(old(self)),
            !scalar(*element) ==> r is Err,
            !old(self).roomy() ==> r is Err,
            init matches Some(e) && !(e is Str || e is ArrayLit) ==> r is Err,
            init matches Some(e) && e matches Expr::Str { value, .. } && (*element != Type::Byte || value@.len()
                >= length) ==> r is Err,
            init matches Some(e) && e matches Expr::ArrayLit { elements, .. } && elements@.len() > length
                ==> r is Err,
            r is Ok ==> (first_binding(final(self).scopes@.last().names@, name@) matches Some(b) && b.ty
                == Type::Array { element: Box::new(*element), length }),
    {
        if !element.is_scalar() {
            return error(span, "arrays must hold `byte`, `int`, `sbyte`, `sint`, or `bool`".to_owned());
        }
        self.ensure_room(span)?;
        let width = element.width();
        let layout = ArrayLayout::new(length, width);
        if length as u64 > 0x10_0000_0000 {
            return error(span, "the program needs more tape than Cranium can address".to_owned());
        }
        let slots = length as u64 + 3;
        let stride = layout.stride as u64;
        proof {
            assert(slots * stride <= 0x10_0000_0003 * 10) by (nonlinear_arith)
                requires
                    slots <= 0x10_0000_0003,
                    stride <= 10,
            ;
        }
        if self.bf.array_next_free() as u64 + slots * stride > 0xff_ff00_0000 {
            return error(span, "the program needs more tape than Cranium can address".to_owned());
        }
        proof {
            assert((length + 1) * stride <= slots * stride && (stride - 1) + (length + 1) * stride <= slots * stride)
                by (nonlinear_arith)
                requires
                    slots == length + 3,
                    stride >= 1,
            ;
        }
        let total = (stride - 1) + (length as u64 + 1) * stride;
        if total > usize::MAX as u64 {
            return error(span, "the program needs more tape than Cranium can address".to_owned());
        }
        let cells = layout.region_cells();
        let region = self.bf.alloc_array(cells);
        let mut offset: usize = 0;
        while offset < cells
            invariant
                offset <= cells,
                region + cells <= tape_limit(),
                0 <= region,
                self.inv(),
                self.kept(old(self)),
            decreases cells - offset,
        {
            self.bf.zero(region + offset as Addr);
            offset += 1;
        }
        let base = region + layout.base_offset();
        proof {
            assert((length + 2) * stride + stride == slots * stride) by (nonlinear_arith)
                requires
                    slots == length + 3,
            ;
            assert(array_fits(base as int, length as int, width as int));
        }

        match init {
            None => {},
            Some(Expr::Str { value, span }) => {
                if !matches!(element, Type::Byte) {
                    return error(*span, "string initializers only work for `byte` arrays".to_owned());
                }
                if value.len() >= length {
                    let mut m = "string needs ".to_owned();
                    let count = value.len() as u64;
                    let n = decimal_text(if count < u64::MAX { count + 1 } else { count });
                    m.append(n.as_str());
                    m.append(" elements including the terminator, but `");
                    m.append(name);
                    m.append("` holds ");
                    let l = decimal_text(length as u64);
                    m.append(l.as_str());
                    return error(*span, m);
                }
                let mut index: usize = 0;
                while index < value.len()
                    invariant
                        index <= value@.len(),
                        value@.len() < length,
                        layout.wf(),
                        layout.length == length,
                        layout.element_width == 1,
                        array_fits(base as int, length as int, 1),
                        self.inv(),
                        self.kept(old(self)),
                    decreases value@.len() - index,
                {
                    proof {
                        lemma_element_in_array(base as int, length as int, 1, index as int);
                    }
                    let cell = layout.element(base, index);
                    self.bf.set(cell, value[index]);
                    index += 1;
                }
            },
            Some(Expr::ArrayLit { elements, span }) => {
                if elements.len() > length {
                    let mut m = "literal has ".to_owned();
                    let n = decimal_text(elements.len() as u64);
                    m.append(n.as_str());
                    m.append(" elements but `");
                    m.append(name);
                    m.append("` holds ");
                    let l = decimal_text(length as u64);
                    m.append(l.as_str());
                    return error(*span, m);
                }
                let mut index: usize = 0;
                while index < elements.len()
                    invariant
                        index <= elements@.len(),
                        elements@.len() <= length,
                        layout.wf(),
                        layout.length == length,
                        layout.element_width == width,
                        width == type_width(*element),
                        scalar(*element),
                        array_fits(base as int, length as int, width as int),
                        self.inv(),
                        self.kept(old(self)),
                    decreases elements@.len() - index,
                {
                    let item = &elements[index];
                    let value = self.const_eval(item)?;
                    if value < element.min_value() || value > element.max_value() {
                        let item_ty = match self.type_of(item) {
                            Ok(t) => t,
                            Err(_) => Type::Int,
                        };
                        return error(item.span(), does_not_fit(value, &item_ty, element));
                    }
                    proof {
                        lemma_element_in_array(base as int, length as int, width as int, index as int);
                    }
                    let cell = layout.element(base, index);
                    self.bf.num_set(cell, width, value_bits(value, element));
                    index += 1;
                }
            },
            Some(other) => {
                return error(
                    other.span(),
                    "arrays can only be initialized with a string or an array literal".to_owned(),
                );
            },
        }
        self.arrays.push(ArrayPlacement { name: name.to_owned(), base, length });
        let ty = Type::Array { element: Box::new(element.clone()), length };
        self.bind(name, Binding { addr: base, ty });
        Ok(())
    }
}


impl<'a> Compiler<'a> {
    // ---- statements -------------------------------------------------------

    fn block(&mut self, body: &[Stmt]) -> (r: CResult<()>)
        requires
            old(self).inv(),
        ensures
            final(self).inv(),
            final(self).functions@ == old(self).functions@,
            r is Ok ==> final(self).kept(old(self)),
        decreases inactive(old(self).active@), ssizes(body@), 2nat,
    {
        let mark = self.bf.watermark();
        self.push_scope(false);
        let result = self.statements(body);
        self.pop_scope();
        self.bf.release_to(mark);
        result
    }

    fn statements(&mut self, body: &[Stmt]) -> (r: CResult<()>)
        requires
            old(self).inv(),
        ensures
            final(self).inv(),
            final(self).functions@ == old(self).functions@,
            r is Ok ==> final(self).kept(old(self)),
        decreases inactive(old(self).active@), ssizes(body@), 1nat,
    {
        let mut index: usize = 0;
        while index < body.len()
            invariant
                index <= body@.len(),
                self.inv(),
                self.kept(old(self)),
            decreases body@.len() - index,
        {
            proof {
                lemma_ssizes_part(body@, index as int);
            }
            self.statement(&body[index])?;
            if index + 1 < body.len() && interrupts(&body[index]) {
                let rest = vstd::slice::slice_subrange(body, index + 1, body.len());
                proof {
                    lemma_ssizes_suffix(body@, index + 1);
                }
                return self.guard_running(rest);
            }
            index += 1;
        }
        Ok(())
    }

    /// Emit `rest` only when the control cell says nothing has interrupted us.
    fn guard_running(&mut self, rest: &[Stmt]) -> (r: CResult<()>)
        requires
            old(self).inv(),
        ensures
            final(self).inv(),
            final(self).functions@ == old(self).functions@,
            r is Ok ==> final(self).kept(old(self)),
        decreases inactive(old(self).active@), ssizes(rest@), 2nat,
    {
        self.ensure_room(Span { file: 0, line: 1, column: 1 })?;
        let flag = self.bf.alloc_zeroed(1);
        let control = self.control;
        self.bf.is_zero(flag, control);
        self.bf.open_loop(flag);
        let mark = self.bf.watermark();
        let result = self.statements(rest);
        self.bf.release_to(mark);
        self.bf.zero(flag);
        self.bf.close_loop(flag);
        result
    }

    fn statement(&mut self, stmt: &Stmt) -> (r: CResult<()>)
        requires
            old(self).inv(),
        ensures
            final(self).inv(),
            final(self).functions@ == old(self).functions@,
            r is Ok ==> final(self).kept(old(self)),
            match *stmt {
                Stmt::Break { .. } => r is Ok <==> old(self).loop_depth > 0,
                Stmt::Continue { .. } => r is Ok <==> old(self).loop_depth > 0,
                Stmt::Return { value, .. } => {
                    &&& old(self).returns@.len() == 0 ==> r is Err
                    &&& old(self).returns@.len() > 0 && value is None ==> (r is Ok <==> old(
                        self,
                    ).returns@.last().ty == Type::Unit)
                    &&& old(self).returns@.len() > 0 && value is Some && old(self).returns@.last().ty
                        == Type::Unit ==> r is Err
                },
                Stmt::Expr { expr, .. } => {
                    &&& (expr is Str || expr is ArrayLit) ==> r is Err
                    &&& !old(self).roomy() ==> r is Err
                },
                _ => true,
            },
        decreases inactive(old(self).active@), ssize(*stmt), 0nat,
    {
        match stmt {
            Stmt::Let { name, ty, init, span } => {
                let declared = match ty {
                    Some(t) => Some(t),
                    None => None,
                };
                let value = match init {
                    Some(e) => Some(e),
                    None => None,
                };
                self.declare(name.as_str(), declared, value, *span)
            },
            Stmt::Block { body, .. } => self.block(body.as_slice()),
            Stmt::Expr { expr, .. } => {
                let mark = self.bf.watermark();
                self.eval(expr)?;
                self.bf.release_to(mark);
                Ok(())
            },
            Stmt::Assign { target, op, value, span } => self.assign(target, *op, value, *span),
            Stmt::If { cond, then_block, else_block, .. } => {
                let otherwise = match else_block {
                    Some(body) => Some(body.as_slice()),
                    None => None,
                };
                self.emit_if(cond, then_block.as_slice(), otherwise)
            },
            Stmt::While { cond, body, .. } => self.emit_loop(Some(cond), body.as_slice()),
            Stmt::Loop { body, .. } => self.emit_loop(None, body.as_slice()),
            Stmt::For { name, start, end, body, span } => self.emit_for(
                name.as_str(),
                start,
                end,
                body.as_slice(),
                *span,
            ),
            Stmt::Break { span } => {
                if self.loop_depth == 0 {
                    return error(*span, "`break` outside a loop".to_owned());
                }
                let control = self.control;
                self.bf.set(control, CONTROL_BREAK);
                Ok(())
            },
            Stmt::Continue { span } => {
                if self.loop_depth == 0 {
                    return error(*span, "`continue` outside a loop".to_owned());
                }
                let control = self.control;
                self.bf.set(control, CONTROL_CONTINUE);
                Ok(())
            },
            Stmt::Return { value, span } => {
                if self.returns.len() == 0 {
                    return error(*span, "`return` outside a function".to_owned());
                }
                let slot = self.returns[self.returns.len() - 1].copy();
                proof {
                    use_type_invariant(&slot);
                }
                match value {
                    None => {
                        if !matches!(slot.ty, Type::Unit) {
                            let t = slot.ty.text();
                            let mut m = "this function must return `".to_owned();
                            m.append(t.as_str());
                            m.append("`");
                            return error(*span, m);
                        }
                    },
                    Some(expr) => {
                        if matches!(slot.ty, Type::Unit) {
                            return error(expr.span(), "this function does not return a value".to_owned());
                        }
                        let mark = self.bf.watermark();
                        self.store_expr(slot.addr, &slot.ty, expr, expr.span())?;
                        self.bf.release_to(mark);
                    },
                }
                let control = self.control;
                self.bf.set(control, CONTROL_RETURN);
                Ok(())
            },
        }
    }

    fn assign(&mut self, target: &Expr, op: Option<BinOp>, value: &Expr, span: Span) -> (r: CResult<()>)
        requires
            old(self).inv(),
        ensures
            final(self).inv(),
            final(self).functions@ == old(self).functions@,
            r is Ok ==> final(self).kept(old(self)),
        decreases inactive(old(self).active@), esize(*target) + esize(*value) + 1, 1nat,
    {
        let mark = self.bf.watermark();
        let place = self.place(target)?;
        let ty = place.ty();
        if !ty.is_scalar() {
            self.bf.release_to(mark);
            return error(span, "only scalar values can be assigned".to_owned());
        }
        self.ensure_room(span)?;
        let stored = self.bf.alloc_zeroed(ty.width());
        let inner = self.bf.watermark();
        match op {
            None => {
                self.store_expr(stored, &ty, value, value.span())?;
            },
            Some(op) => {
                let current = self.load(&place)?;
                let combined = self.binary(op, &current, value, span)?;
                self.ensure_room(span)?;
                self.store_scalar(stored, &ty, &combined, span)?;
            },
        }
        self.bf.release_to(inner);
        self.ensure_room(span)?;
        self.store(&place, &Value { addr: stored, ty }, span)?;
        self.bf.release_to(mark);
        Ok(())
    }

    fn emit_if(&mut self, cond: &Expr, then_block: &[Stmt], else_block: Option<&[Stmt]>) -> (r: CResult<()>)
        requires
            old(self).inv(),
        ensures
            final(self).inv(),
            final(self).functions@ == old(self).functions@,
            r is Ok ==> final(self).kept(old(self)),
        decreases inactive(old(self).active@), esize(*cond) + ssizes(then_block@) + obsize(else_block) + 1, 1nat,
    {
        self.ensure_room(cond.span())?;
        let taken = self.bf.alloc_zeroed(1);
        let skipped = self.bf.alloc_zeroed(1);
        let mark = self.bf.watermark();
        let evaluated = self.eval(cond)?;
        self.ensure_room(cond.span())?;
        self.truthy(&evaluated, taken, cond.span())?;
        self.bf.release_to(mark);
        self.bf.set(skipped, 1);

        self.bf.open_loop(taken);
        self.block(then_block)?;
        self.bf.zero(skipped);
        self.bf.zero(taken);
        self.bf.close_loop(taken);

        self.bf.open_loop(skipped);
        if let Some(body) = else_block {
            self.block(body)?;
        }
        self.bf.zero(skipped);
        self.bf.close_loop(skipped);
        Ok(())
    }

    /// Evaluate a loop condition, folding in "and nothing has interrupted us".
    fn loop_condition(&mut self, cond: Option<&Expr>, out: Addr) -> (r: CResult<()>)
        requires
            old(self).inv(),
            cells_in(out as int, 1),
        ensures
            final(self).inv(),
            final(self).functions@ == old(self).functions@,
            r is Ok ==> final(self).kept(old(self)),
        decreases inactive(old(self).active@), orsize(cond), 3nat,
    {
        let mark = self.bf.watermark();
        match cond {
            Some(expr) => {
                let evaluated = self.eval(expr)?;
                self.ensure_room(expr.span())?;
                self.truthy(&evaluated, out, expr.span())?;
            },
            None => self.bf.set(out, 1),
        }
        self.ensure_room(Span { file: 0, line: 1, column: 1 })?;
        let control = self.control;
        self.bf.if_nonzero(control, |bf: &mut Bf| requires old(bf).wf(), 0 <= out <= max_addr() ensures final(bf).wf() { bf.zero(out) });
        self.bf.release_to(mark);
        Ok(())
    }

    fn emit_loop(&mut self, cond: Option<&Expr>, body: &[Stmt]) -> (r: CResult<()>)
        requires
            old(self).inv(),
        ensures
            final(self).inv(),
            final(self).functions@ == old(self).functions@,
            r is Ok ==> final(self).kept(old(self)),
        decreases inactive(old(self).active@), orsize(cond) + ssizes(body@) + 1, 1nat,
    {
        self.ensure_room(Span { file: 0, line: 1, column: 1 })?;
        let running = self.bf.alloc_zeroed(1);
        self.loop_condition(cond, running)?;

        self.bf.open_loop(running);
        let outer = self.loop_depth;
        self.loop_depth = if outer < usize::MAX { outer + 1 } else { outer };
        let result = self.block(body);
        self.loop_depth = outer;
        result?;
        self.ensure_room(Span { file: 0, line: 1, column: 1 })?;
        self.clear_control(CONTROL_CONTINUE);
        self.loop_condition(cond, running)?;
        self.bf.close_loop(running);
        self.ensure_room(Span { file: 0, line: 1, column: 1 })?;
        self.clear_control(CONTROL_BREAK);
        Ok(())
    }

    fn emit_for(&mut self, name: &str, start: &Expr, end: &Expr, body: &[Stmt], span: Span) -> (r: CResult<()>)
        requires
            old(self).inv(),
        ensures
            final(self).inv(),
            final(self).functions@ == old(self).functions@,
            r is Ok ==> final(self).kept(old(self)),
        decreases inactive(old(self).active@), esize(*start) + esize(*end) + ssizes(body@), 1nat,
    {
        let start_ty = promote(&self.type_of(start)?);
        let end_ty = promote(&self.type_of(end)?);
        let ty = match common(&start_ty, &end_ty) {
            Some(t) => t,
            None => {
                return error(span, no_common_type(&start_ty, &end_ty));
            },
        };
        if !ty.is_scalar() {
            return error(span, "`for` bounds must be scalars".to_owned());
        }
        let width = ty.width();
        let signed = ty.is_signed();

        self.ensure_room(span)?;
        let mark = self.bf.watermark();
        let counter = self.bf.alloc_zeroed(width);
        let limit = self.bf.alloc_zeroed(width);
        let running = self.bf.alloc_zeroed(1);

        let inner = self.bf.watermark();
        self.store_expr(counter, &ty, start, start.span())?;
        self.store_expr(limit, &ty, end, end.span())?;
        self.bf.release_to(inner);

        self.push_scope(false);
        self.bind(name, Binding { addr: counter, ty: ty.clone() });

        self.ensure_room(span)?;
        self.less_than(running, counter, limit, width, signed);
        let control = self.control;
        self.bf.if_nonzero(control, |bf: &mut Bf| requires old(bf).wf(), 0 <= running <= max_addr() ensures final(bf).wf() { bf.zero(running) });

        self.bf.open_loop(running);
        let outer = self.loop_depth;
        self.loop_depth = if outer < usize::MAX { outer + 1 } else { outer };
        let result = self.block(body);
        self.loop_depth = outer;
        result?;
        self.ensure_room(span)?;
        self.clear_control(CONTROL_CONTINUE);
        self.increment(counter, width);
        self.less_than(running, counter, limit, width, signed);
        self.bf.if_nonzero(control, |bf: &mut Bf| requires old(bf).wf(), 0 <= running <= max_addr() ensures final(bf).wf() { bf.zero(running) });
        self.bf.close_loop(running);

        self.clear_control(CONTROL_BREAK);
        self.pop_scope();
        self.bf.release_to(mark);
        Ok(())
    }

    #[verifier::rlimit(80)]
    #[verifier::spinoff_prover]
    fn run(&mut self, program: &'a Program) -> (r: CResult<()>)
        requires
            old(self).inv(),
            old(self).functions@.len() == 0,
        ensures
            final(self).inv(),
            refused_program(program.items@) ==> r is Err,
    {
        let mut k: usize = 0;
        let ghost items = program.items@;
        let ghost mut slot: Seq<int> = Seq::empty();
        let ghost mut origin: Seq<int> = Seq::empty();
        while k < program.items.len()
            invariant
                k <= program.items@.len(),
                items == program.items@,
                self.inv(),
                slot.len() == k,
                origin.len() == self.functions@.len(),
                forall|j: int| 0 <= j < origin.len() ==> 0 <= #[trigger] origin[j] < k && function_name(items[origin[j]])
                    == Some(self.functions@[j].name@),
                forall|i: int| 0 <= i < k && (#[trigger] function_name(items[i])) is Some ==> {
                    &&& !is_builtin(function_name(items[i])->0)
                    &&& 0 <= slot[i] < self.functions@.len()
                    &&& self.functions@[slot[i]].name@ == function_name(items[i])->0
                },
                forall|i: int, i2: int|
                    0 <= i < i2 < k && (#[trigger] function_name(items[i])) is Some ==> function_name(items[i])
                        != #[trigger] function_name(items[i2]),
            decreases program.items@.len() - k,
        {
            let ghost before = self.functions@;
            if let Item::Function(function) = &program.items[k] {
                if builtin(function.name.as_str()) {
                    return error(
                        function.span,
                        quoted(function.name.as_str(), "` is a builtin and cannot be redefined"),
                    );
                }
                if self.find_function(function.name.as_str()).is_some() {
                    return error(function.span, quoted(function.name.as_str(), "` is defined more than once"));
                }
                proof {
                    assert forall|i: int| 0 <= i < k && (#[trigger] function_name(items[i])) is Some implies function_name(
                        items[i],
                    ) != function_name(items[k as int]) by {
                        assert(self.functions@[slot[i]].name@ == function_name(items[i])->0);
                    }
                }
                self.functions.push(function);
                self.active.push(false);
                proof {
                    slot = slot.push(before.len() as int);
                    origin = origin.push(k as int);
                    assert(self.functions@[before.len() as int].name@ == function.name@);
                    assert forall|i: int| 0 <= i < k && (#[trigger] function_name(items[i])) is Some implies self.functions@[slot[i]]
                        == before[slot[i]] by {}
                }
            } else {
                proof {
                    slot = slot.push(0);
                }
            }
            k += 1;
        }

        proof {
            assert(!redefines_builtin(items));
            assert(!defines_twice(items));
        }
        let main = match self.find_function("main") {
            Some(index) => {
                proof {
                    assert(function_name(items[origin[index as int]]) == Some("main"@));
                }
                index
            },
            None => {
                return error(Span { file: 0, line: 1, column: 1 }, "no `main` function".to_owned());
            },
        };
        let main_span = self.functions[main].span;
        if self.functions[main].params.len() != 0 {
            return error(main_span, "`main` cannot take parameters".to_owned());
        }

        self.ensure_room(main_span)?;
        self.control = self.bf.alloc_zeroed(1);

        let mut k: usize = 0;
        while k < program.items.len()
            invariant
                k <= program.items@.len(),
                main < self.functions@.len(),
                self.inv(),
            decreases program.items@.len() - k,
        {
            match &program.items[k] {
                Item::Const { name, ty, value, span } => {
                    let value_ty = self.type_of(value)?;
                    let declared = match ty {
                        Some(t) => t.clone(),
                        None => value_ty.clone(),
                    };
                    if !declared.is_scalar() {
                        return error(*span, "constants must be `byte`, `int`, `sbyte`, `sint`, or `bool`".to_owned());
                    }
                    let evaluated = self.const_eval(value)?;
                    if evaluated < declared.min_value() || evaluated > declared.max_value() {
                        return error(*span, does_not_fit(evaluated, &value_ty, &declared));
                    }
                    if self.find_constant(name.as_str()).is_some() {
                        return error(*span, quoted(name.as_str(), "` is defined more than once"));
                    }
                    let bits = value_bits(evaluated, &declared);
                    self.constants.push(Constant { name: name.clone(), ty: declared, bits, value: evaluated });
                },
                Item::Global { name, ty, init, span } => {
                    let declared = match ty {
                        Some(t) => Some(t),
                        None => None,
                    };
                    let value = match init {
                        Some(e) => Some(e),
                        None => None,
                    };
                    self.declare(name.as_str(), declared, value, *span)?;
                },
                _ => {},
            }
            k += 1;
        }

        let no_args: Vec<Expr> = Vec::new();
        self.inline_call(main, no_args.as_slice(), main_span)?;
        Ok(())
    }
}

/// Lower a parsed program to Brainfuck.
///
/// A program that defines a function under a builtin's name, defines one
/// name twice, or has no `main` is refused before any code is emitted. The
/// program is lowered twice: the first pass measures how many cells the
/// scalars and temporaries need, and the second places the arrays right
/// above them.
pub fn compile(program: &Program) -> (r: CResult<Output>)
    ensures
        r matches Ok(out) ==> all_commands(crate::bytes::string_bytes(out.code)),
        refused_program(program.items@) ==> r is Err,
{
    let mut first = Compiler::new(Bf::new());
    first.run(program)?;
    let scalars = first.bf.scalar_cells();
    let mut compiler = Compiler::new(Bf::with_array_base(scalars as Addr));
    compiler.run(program)?;
    let cells_used = compiler.bf.cells_used();
    let arrays = compiler.arrays;
    let code = compiler.bf.finish();
    Ok(Output { code, cells_used, arrays })
}

} // verus!
