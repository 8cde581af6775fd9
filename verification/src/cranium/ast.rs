//! Abstract syntax tree of a Cranium program.

use vstd::prelude::*;
use super::lexer::Span;
use crate::bytes::{decimal, lemma_decimal_ascii, push_decimal, string_from_ascii};

verus! {

/// A source-level type.
#[derive(Debug, PartialEq, Eq)]
pub enum Type {
    /// Unsigned 8-bit integer in one tape cell.
    Byte,
    /// Unsigned 16-bit integer in two little-endian cells.
    Int,
    /// Signed 8-bit integer, two's complement, in one cell.
    SByte,
    /// Signed 16-bit integer, two's complement, in two little-endian cells.
    SInt,
    /// A byte restricted to `0` or `1`.
    Bool,
    /// Fixed-length array of `element` values; arrays of arrays are not
    /// supported.
    Array { element: Box<Type>, length: usize },
    /// The type of an expression that produces no value.
    Unit,
}

/// Cells one value of a type occupies: the payload only, for an array.
pub open spec fn type_width(t: Type) -> nat
    decreases t,
{
    match t {
        Type::Byte | Type::Bool | Type::SByte => 1,
        Type::Int | Type::SInt => 2,
        Type::Array { element, length } => type_width(*element) * (length as nat),
        Type::Unit => 0,
    }
}

/// Whether arithmetic and comparison accept the type.
pub open spec fn scalar(t: Type) -> bool {
    t is Byte || t is Int || t is SByte || t is SInt || t is Bool
}

/// The largest value of a scalar type; zero for the rest.
pub open spec fn max_of(t: Type) -> int {
    match t {
        Type::Bool => 1,
        Type::Byte => 255,
        Type::Int => 65535,
        Type::SByte => 127,
        Type::SInt => 32767,
        _ => 0,
    }
}

/// The smallest value of a scalar type; zero for the rest.
pub open spec fn min_of(t: Type) -> int {
    match t {
        Type::SByte => -128,
        Type::SInt => -32768,
        _ => 0,
    }
}

impl Type {
    /// Number of tape cells one value occupies; for an array, the payload
    /// only, since the code generator adds its own bookkeeping lanes.
    pub fn width(&self) -> (r: usize)
        requires
            type_width(*self) <= usize::MAX,
        ensures
            r == type_width(*self),
        decreases *self,
    {
        match self {
            Type::Byte | Type::Bool | Type::SByte => 1,
            Type::Int | Type::SInt => 2,
            Type::Array { element, length } => {
                proof {
                    assert(type_width(**element) * *length <= usize::MAX);
                    if *length > 0 {
                        assert(type_width(**element) <= type_width(**element) * *length) by (nonlinear_arith)
                            requires
                                *length >= 1,
                        ;
                    } else {
                        assert(type_width(**element) * *length == 0) by (nonlinear_arith)
                            requires
                                *length == 0,
                        ;
                    }
                }
                if *length == 0 {
                    return 0;
                }
                let w = element.width();
                w * *length
            },
            Type::Unit => 0,
        }
    }

    /// Whether arithmetic and comparison operators accept this type.
    pub fn is_scalar(&self) -> (r: bool)
        ensures
            r == scalar(*self),
    {
        match self {
            Type::Byte | Type::Int | Type::SByte | Type::SInt | Type::Bool => true,
            _ => false,
        }
    }

    /// Whether this is a two's complement type, whose top bit is a sign.
    pub fn is_signed(&self) -> (r: bool)
        ensures
            r == (*self is SByte || *self is SInt),
    {
        match self {
            Type::SByte | Type::SInt => true,
            _ => false,
        }
    }

    /// Largest value representable, for scalars; zero otherwise.
    pub fn max_value(&self) -> (r: i64)
        ensures
            r == max_of(*self),
    {
        match self {
            Type::Bool => 1,
            Type::Byte => 255,
            Type::Int => 65535,
            Type::SByte => 127,
            Type::SInt => 32767,
            _ => 0,
        }
    }

    /// Smallest value representable, for scalars; zero otherwise.
    pub fn min_value(&self) -> (r: i64)
        ensures
            r == min_of(*self),
    {
        match self {
            Type::SByte => -128,
            Type::SInt => -32768,
            _ => 0,
        }
    }

    /// Mask covering every bit a value of this type occupies: the low
    /// `8 * width` bits.
    pub fn mask(&self) -> (r: u64)
        requires
            type_width(*self) <= 8,
        ensures
            r as int == vstd::arithmetic::power2::pow2(8 * type_width(*self)) - 1,
    {
        let width = self.width();
        if width == 0 {
            proof {
                vstd::arithmetic::power2::lemma2_to64();
            }
            return 0;
        }
        let shift: u64 = 64 - 8 * (width as u64);
        let r = u64::MAX >> shift;
        proof {
            lemma_mask(width as u64, shift, r);
        }
        r
    }

    /// Whether every value of this type also fits in `other`.
    pub fn fits_in(&self, other: &Type) -> (r: bool)
        ensures
            r == (scalar(*self) && scalar(*other) && min_of(*other) <= min_of(*self) && max_of(*self)
                <= max_of(*other)),
    {
        self.is_scalar() && other.is_scalar() && other.min_value() <= self.min_value()
            && self.max_value() <= other.max_value()
    }

    /// The signed type that holds this one's values, used by unary `-`.
    pub fn signed_form(&self) -> (r: Type)
        ensures
            r == match *self {
                Type::Bool | Type::Byte | Type::SByte => Type::SByte,
                Type::Int | Type::SInt => Type::SInt,
                other => other,
            },
    {
        match self {
            Type::Bool | Type::Byte | Type::SByte => Type::SByte,
            Type::Int | Type::SInt => Type::SInt,
            Type::Array { element, length } => Type::Array { element: Box::new(clone_type(element)), length: *length },
            Type::Unit => Type::Unit,
        }
    }
}

/// A copy of a type.
pub fn clone_type(t: &Type) -> (r: Type)
    ensures
        r == *t,
    decreases *t,
{
    match t {
        Type::Byte => Type::Byte,
        Type::Int => Type::Int,
        Type::SByte => Type::SByte,
        Type::SInt => Type::SInt,
        Type::Bool => Type::Bool,
        Type::Array { element, length } => Type::Array { element: Box::new(clone_type(element)), length: *length },
        Type::Unit => Type::Unit,
    }
}

proof fn lemma_mask(width: u64, shift: u64, r: u64)
    requires
        1 <= width <= 8,
        shift == 64 - 8 * width,
        r == u64::MAX >> shift,
    ensures
        r as int == vstd::arithmetic::power2::pow2((8 * width) as nat) - 1,
{
    vstd::arithmetic::power2::lemma2_to64();
    vstd::arithmetic::power2::lemma2_to64_rest();
    if width == 1 {
        assert(vstd::arithmetic::power2::pow2(8) == 256);
        assert(r == 0xff) by (bit_vector)
            requires
                r == u64::MAX >> 56u64,
        ;
    } else if width == 2 {
        assert(vstd::arithmetic::power2::pow2(16) == 65536);
        assert(r == 0xffff) by (bit_vector)
            requires
                r == u64::MAX >> 48u64,
        ;
    } else if width == 3 {
        assert(vstd::arithmetic::power2::pow2(24) == 16777216);
        assert(r == 0xff_ffff) by (bit_vector)
            requires
                r == u64::MAX >> 40u64,
        ;
    } else if width == 4 {
        assert(vstd::arithmetic::power2::pow2(32) == 4294967296);
        assert(r == 0xffff_ffff) by (bit_vector)
            requires
                r == u64::MAX >> 32u64,
        ;
    } else if width == 5 {
        assert(vstd::arithmetic::power2::pow2(40) == 1099511627776);
        assert(r == 0xff_ffff_ffff) by (bit_vector)
            requires
                r == u64::MAX >> 24u64,
        ;
    } else if width == 6 {
        assert(vstd::arithmetic::power2::pow2(48) == 281474976710656);
        assert(r == 0xffff_ffff_ffff) by (bit_vector)
            requires
                r == u64::MAX >> 16u64,
        ;
    } else if width == 7 {
        assert(vstd::arithmetic::power2::pow2(56) == 72057594037927936);
        assert(r == 0xff_ffff_ffff_ffff) by (bit_vector)
            requires
                r == u64::MAX >> 8u64,
        ;
    } else {
        assert(vstd::arithmetic::power2::pow2(64) == 18446744073709551616);
        assert(r == 0xffff_ffff_ffff_ffff) by (bit_vector)
            requires
                r == u64::MAX >> 0u64,
        ;
    }
}

/// Binary operators.
#[derive(Debug, Clone, Copy, PartialEq, Eq, Structural)]
pub enum BinOp {
    /// `+`
    Add,
    /// `-`
    Sub,
    /// `*`
    Mul,
    /// `/`
    Div,
    /// `%`
    Rem,
    /// `==`
    Eq,
    /// `!=`
    Ne,
    /// `<`
    Lt,
    /// `<=`
    Le,
    /// `>`
    Gt,
    /// `>=`
    Ge,
    /// `&&`, short-circuiting.
    And,
    /// `||`, short-circuiting.
    Or,
    /// `&`
    BitAnd,
    /// `|`
    BitOr,
    /// `^`
    BitXor,
    /// `<<`
    Shl,
    /// `>>`
    Shr,
}

/// The source spelling of an operator.
pub open spec fn spelling_of(op: BinOp) -> &'static str {
    match op {
        BinOp::Add => "+",
        BinOp::Sub => "-",
        BinOp::Mul => "*",
        BinOp::Div => "/",
        BinOp::Rem => "%",
        BinOp::Eq => "==",
        BinOp::Ne => "!=",
        BinOp::Lt => "<",
        BinOp::Le => "<=",
        BinOp::Gt => ">",
        BinOp::Ge => ">=",
        BinOp::And => "&&",
        BinOp::Or => "||",
        BinOp::BitAnd => "&",
        BinOp::BitOr => "|",
        BinOp::BitXor => "^",
        BinOp::Shl => "<<",
        BinOp::Shr => ">>",
    }
}

/// Whether an operator yields a `bool`.
pub open spec fn comparison(op: BinOp) -> bool {
    op is Eq || op is Ne || op is Lt || op is Le || op is Gt || op is Ge
}

/// The comparisons are exactly the operators spelled `==`, `!=`, `<`, `<=`,
/// `>` or `>=`.
pub proof fn lemma_comparisons_by_spelling(op: BinOp)
    ensures
        comparison(op) <==> {
            let t = spelling_of(op)@;
            t == "=="@ || t == "!="@ || t == "<"@ || t == "<="@ || t == ">"@ || t == ">="@
        },
{
    reveal_strlit("+");
    reveal_strlit("-");
    reveal_strlit("*");
    reveal_strlit("/");
    reveal_strlit("%");
    reveal_strlit("==");
    reveal_strlit("!=");
    reveal_strlit("<");
    reveal_strlit("<=");
    reveal_strlit(">");
    reveal_strlit(">=");
    reveal_strlit("&&");
    reveal_strlit("||");
    reveal_strlit("&");
    reveal_strlit("|");
    reveal_strlit("^");
    reveal_strlit("<<");
    reveal_strlit(">>");
    let t = spelling_of(op)@;
    assert(t.len() >= 1);
    assert("=="@[0] == '=' && "!="@[0] == '!' && "<"@[0] == '<' && "<="@[0] == '<');
    assert(">"@[0] == '>' && ">="@[0] == '>' && "<="@[1] == '=' && ">="@[1] == '=');
    assert("<<"@[1] == '<' && ">>"@[1] == '>' && "=="@[1] == '=' && "!="@[1] == '=');
}

impl BinOp {
    /// Whether the operator yields a `bool`.
    pub fn is_comparison(self) -> (r: bool)
        ensures
            r == (self is Eq || self is Ne || self is Lt || self is Le || self is Gt || self is Ge),
    {
        match self {
            BinOp::Eq | BinOp::Ne | BinOp::Lt | BinOp::Le | BinOp::Gt | BinOp::Ge => true,
            _ => false,
        }
    }

    /// The operator's source spelling.
    pub fn spelling(self) -> (r: &'static str)
        ensures
            r == spelling_of(self),
    {
        match self {
            BinOp::Add => "+",
            BinOp::Sub => "-",
            BinOp::Mul => "*",
            BinOp::Div => "/",
            BinOp::Rem => "%",
            BinOp::Eq => "==",
            BinOp::Ne => "!=",
            BinOp::Lt => "<",
            BinOp::Le => "<=",
            BinOp::Gt => ">",
            BinOp::Ge => ">=",
            BinOp::And => "&&",
            BinOp::Or => "||",
            BinOp::BitAnd => "&",
            BinOp::BitOr => "|",
            BinOp::BitXor => "^",
            BinOp::Shl => "<<",
            BinOp::Shr => ">>",
        }
    }
}

/// Unary operators.
#[derive(Debug, Clone, Copy, PartialEq, Eq, Structural)]
pub enum UnOp {
    /// `!`, logical negation producing a `bool`.
    Not,
    /// `-`, wrapping negation.
    Neg,
}

/// An expression.
#[derive(Debug, PartialEq)]
pub enum Expr {
    /// Integer or character literal.
    Int { value: u64, span: Span },
    /// `true` or `false`.
    Bool { value: bool, span: Span },
    /// `[a, b, c]`, only valid as an array initializer.
    ArrayLit { elements: Vec<Expr>, span: Span },
    /// String literal, only valid as an array initializer or `print` argument.
    Str { value: Vec<u8>, span: Span },
    /// Variable, constant, or parameter reference.
    Name { name: String, span: Span },
    /// `array[index]`
    Index { array: Box<Expr>, index: Box<Expr>, span: Span },
    /// A call to a user function or builtin.
    Call { name: String, args: Vec<Expr>, span: Span },
    /// Binary operation.
    Binary { op: BinOp, lhs: Box<Expr>, rhs: Box<Expr>, span: Span },
    /// Unary operation.
    Unary { op: UnOp, operand: Box<Expr>, span: Span },
    /// `expr as type`
    Cast { value: Box<Expr>, ty: Type, span: Span },
}

/// Where an expression starts.
pub open spec fn expr_span(e: Expr) -> Span {
    match e {
        Expr::Int { span, .. } => span,
        Expr::Bool { span, .. } => span,
        Expr::ArrayLit { span, .. } => span,
        Expr::Str { span, .. } => span,
        Expr::Name { span, .. } => span,
        Expr::Index { span, .. } => span,
        Expr::Call { span, .. } => span,
        Expr::Binary { span, .. } => span,
        Expr::Unary { span, .. } => span,
        Expr::Cast { span, .. } => span,
    }
}

impl Expr {
    /// Where this expression starts.
    pub fn span(&self) -> (r: Span)
        ensures
            r == expr_span(*self),
    {
        match self {
            Expr::Int { span, .. } => *span,
            Expr::Bool { span, .. } => *span,
            Expr::ArrayLit { span, .. } => *span,
            Expr::Str { span, .. } => *span,
            Expr::Name { span, .. } => *span,
            Expr::Index { span, .. } => *span,
            Expr::Call { span, .. } => *span,
            Expr::Binary { span, .. } => *span,
            Expr::Unary { span, .. } => *span,
            Expr::Cast { span, .. } => *span,
        }
    }
}

/// A statement.
#[derive(Debug, PartialEq)]
pub enum Stmt {
    /// `let name: type = init;`
    Let { name: String, ty: Option<Type>, init: Option<Expr>, span: Span },
    /// `target op= value;`, `op` being `None` for a plain assignment.
    Assign { target: Expr, op: Option<BinOp>, value: Expr, span: Span },
    /// `if cond { .. } else { .. }`
    If { cond: Expr, then_block: Vec<Stmt>, else_block: Option<Vec<Stmt>>, span: Span },
    /// `while cond { .. }`
    While { cond: Expr, body: Vec<Stmt>, span: Span },
    /// `for name in start..end { .. }`, `end` exclusive.
    For { name: String, start: Expr, end: Expr, body: Vec<Stmt>, span: Span },
    /// `loop { .. }`, left with `break`.
    Loop { body: Vec<Stmt>, span: Span },
    /// `break;`
    Break { span: Span },
    /// `continue;`
    Continue { span: Span },
    /// `return expr;`
    Return { value: Option<Expr>, span: Span },
    /// An expression evaluated for its side effects.
    Expr { expr: Expr, span: Span },
    /// A nested `{ .. }` scope.
    Block { body: Vec<Stmt>, span: Span },
}

/// A function parameter.
#[derive(Debug, PartialEq)]
pub struct Param {
    /// Parameter name.
    pub name: String,
    /// Parameter type.
    pub ty: Type,
    /// Where the parameter appeared.
    pub span: Span,
}

/// A function definition.
#[derive(Debug, PartialEq)]
pub struct Function {
    /// Function name.
    pub name: String,
    /// Declared parameters.
    pub params: Vec<Param>,
    /// Return type; [`Type::Unit`] when the function returns nothing.
    pub ret: Type,
    /// Function body.
    pub body: Vec<Stmt>,
    /// Where the `fn` appeared.
    pub span: Span,
}

/// A top-level item.
#[derive(Debug, PartialEq)]
pub enum Item {
    /// `import "path";`, replaced by that file's items before compiling.
    Import { path: String, span: Span },
    /// A function definition.
    Function(Function),
    /// A compile-time constant.
    Const { name: String, ty: Option<Type>, value: Expr, span: Span },
    /// A global variable, laid out once for the whole program.
    Global { name: String, ty: Option<Type>, init: Option<Expr>, span: Span },
}

/// A parsed source file: its items in source order.
#[derive(Debug, PartialEq)]
pub struct Program {
    /// Top-level items in source order.
    pub items: Vec<Item>,
}

impl Clone for Type {
    fn clone(&self) -> (r: Self)
        ensures
            r == *self,
    {
        clone_type(self)
    }
}

/// An expression as plain values: names and text by their bytes.
pub enum ExprV {
    Int { value: u64, span: Span },
    Bool { value: bool, span: Span },
    ArrayLit { elements: Seq<ExprV>, span: Span },
    Str { value: Seq<u8>, span: Span },
    Name { name: Seq<u8>, span: Span },
    Index { array: Box<ExprV>, index: Box<ExprV>, span: Span },
    Call { name: Seq<u8>, args: Seq<ExprV>, span: Span },
    Binary { op: BinOp, lhs: Box<ExprV>, rhs: Box<ExprV>, span: Span },
    Unary { op: UnOp, operand: Box<ExprV>, span: Span },
    Cast { value: Box<ExprV>, ty: Type, span: Span },
}

/// The bytes of a string.
pub open spec fn text_bytes(s: String) -> Seq<u8> {
    vstd::utf8::encode_utf8(s@)
}

/// An expression as plain values.
pub open spec fn expr_view(e: Expr) -> ExprV
    decreases e,
{
    match e {
        Expr::Int { value, span } => ExprV::Int { value, span },
        Expr::Bool { value, span } => ExprV::Bool { value, span },
        Expr::ArrayLit { elements, span } => ExprV::ArrayLit { elements: exprs_view(elements@), span },
        Expr::Str { value, span } => ExprV::Str { value: value@, span },
        Expr::Name { name, span } => ExprV::Name { name: text_bytes(name), span },
        Expr::Index { array, index, span } => ExprV::Index {
            array: Box::new(expr_view(*array)),
            index: Box::new(expr_view(*index)),
            span,
        },
        Expr::Call { name, args, span } => ExprV::Call { name: text_bytes(name), args: exprs_view(args@), span },
        Expr::Binary { op, lhs, rhs, span } => ExprV::Binary {
            op,
            lhs: Box::new(expr_view(*lhs)),
            rhs: Box::new(expr_view(*rhs)),
            span,
        },
        Expr::Unary { op, operand, span } => ExprV::Unary { op, operand: Box::new(expr_view(*operand)), span },
        Expr::Cast { value, ty, span } => ExprV::Cast { value: Box::new(expr_view(*value)), ty, span },
    }
}

/// Expressions as plain values.
pub open spec fn exprs_view(es: Seq<Expr>) -> Seq<ExprV>
    decreases es,
{
    if es.len() == 0 {
        Seq::empty()
    } else {
        exprs_view(es.drop_last()).push(expr_view(es.last()))
    }
}

/// An optional expression as plain values.
pub open spec fn opt_expr_view(e: Option<Expr>) -> Option<ExprV> {
    match e {
        Some(x) => Some(expr_view(x)),
        None => None,
    }
}

/// A statement as plain values.
pub enum StmtV {
    Let { name: Seq<u8>, ty: Option<Type>, init: Option<ExprV>, span: Span },
    Assign { target: ExprV, op: Option<BinOp>, value: ExprV, span: Span },
    If { cond: ExprV, then_block: Seq<StmtV>, else_block: Option<Seq<StmtV>>, span: Span },
    While { cond: ExprV, body: Seq<StmtV>, span: Span },
    For { name: Seq<u8>, start: ExprV, end: ExprV, body: Seq<StmtV>, span: Span },
    Loop { body: Seq<StmtV>, span: Span },
    Break { span: Span },
    Continue { span: Span },
    Return { value: Option<ExprV>, span: Span },
    Expr { expr: ExprV, span: Span },
    Block { body: Seq<StmtV>, span: Span },
}

/// A statement as plain values.
pub open spec fn stmt_view(s: Stmt) -> StmtV
    decreases s,
{
    match s {
        Stmt::Let { name, ty, init, span } => StmtV::Let { name: text_bytes(name), ty, init: opt_expr_view(init), span },
        Stmt::Assign { target, op, value, span } => StmtV::Assign {
            target: expr_view(target),
            op,
            value: expr_view(value),
            span,
        },
        Stmt::If { cond, then_block, else_block, span } => StmtV::If {
            cond: expr_view(cond),
            then_block: stmts_view(then_block@),
            else_block: match else_block {
                Some(b) => Some(stmts_view(b@)),
                None => None,
            },
            span,
        },
        Stmt::While { cond, body, span } => StmtV::While { cond: expr_view(cond), body: stmts_view(body@), span },
        Stmt::For { name, start, end, body, span } => StmtV::For {
            name: text_bytes(name),
            start: expr_view(start),
            end: expr_view(end),
            body: stmts_view(body@),
            span,
        },
        Stmt::Loop { body, span } => StmtV::Loop { body: stmts_view(body@), span },
        Stmt::Break { span } => StmtV::Break { span },
        Stmt::Continue { span } => StmtV::Continue { span },
        Stmt::Return { value, span } => StmtV::Return { value: opt_expr_view(value), span },
        Stmt::Expr { expr, span } => StmtV::Expr { expr: expr_view(expr), span },
        Stmt::Block { body, span } => StmtV::Block { body: stmts_view(body@), span },
    }
}

/// Statements as plain values.
pub open spec fn stmts_view(ss: Seq<Stmt>) -> Seq<StmtV>
    decreases ss,
{
    if ss.len() == 0 {
        Seq::empty()
    } else {
        stmts_view(ss.drop_last()).push(stmt_view(ss.last()))
    }
}

/// A parameter as plain values.
pub open spec fn param_view(p: Param) -> (Seq<u8>, Type, Span) {
    (text_bytes(p.name), p.ty, p.span)
}

/// A function as plain values.
pub struct FunctionV {
    pub name: Seq<u8>,
    pub params: Seq<(Seq<u8>, Type, Span)>,
    pub ret: Type,
    pub body: Seq<StmtV>,
    pub span: Span,
}

/// A function as plain values.
pub open spec fn function_view(f: Function) -> FunctionV {
    FunctionV {
        name: text_bytes(f.name),
        params: Seq::new(f.params@.len(), |i: int| param_view(f.params@[i])),
        ret: f.ret,
        body: stmts_view(f.body@),
        span: f.span,
    }
}

/// A top-level item as plain values.
pub enum ItemV {
    Import { path: Seq<char>, span: Span },
    Function(FunctionV),
    Const { name: Seq<u8>, ty: Option<Type>, value: ExprV, span: Span },
    Global { name: Seq<u8>, ty: Option<Type>, init: Option<ExprV>, span: Span },
}

/// A top-level item as plain values.
pub open spec fn item_view(i: Item) -> ItemV {
    match i {
        Item::Import { path, span } => ItemV::Import { path: path@, span },
        Item::Function(f) => ItemV::Function(function_view(f)),
        Item::Const { name, ty, value, span } => ItemV::Const { name: text_bytes(name), ty, value: expr_view(value), span },
        Item::Global { name, ty, init, span } => ItemV::Global { name: text_bytes(name), ty, init: opt_expr_view(init), span },
    }
}

/// A program's items as plain values.
pub open spec fn program_view(p: Program) -> Seq<ItemV> {
    Seq::new(p.items@.len(), |i: int| item_view(p.items@[i]))
}

/// How a type is written in source: `byte`, `int[4]`, `()` for unit.
pub open spec fn spelled_type(t: Type) -> Seq<char>
    decreases t,
{
    match t {
        Type::Byte => "byte"@,
        Type::Int => "int"@,
        Type::SByte => "sbyte"@,
        Type::SInt => "sint"@,
        Type::Bool => "bool"@,
        Type::Unit => "()"@,
        Type::Array { element, length } => spelled_type(*element) + "["@ + vstd::utf8::decode_utf8(decimal(length as nat))
            + "]"@,
    }
}

impl Type {
    /// How the type is written in source.
    pub fn text(&self) -> (r: String)
        ensures
            r@ == spelled_type(*self),
        decreases *self,
    {
        match self {
            Type::Byte => "byte".to_owned(),
            Type::Int => "int".to_owned(),
            Type::SByte => "sbyte".to_owned(),
            Type::SInt => "sint".to_owned(),
            Type::Bool => "bool".to_owned(),
            Type::Unit => "()".to_owned(),
            Type::Array { element, length } => {
                let mut r = element.text();
                r.append("[");
                let mut digits: Vec<u8> = Vec::new();
                push_decimal(&mut digits, *length as u64);
                proof {
                    lemma_decimal_ascii(*length as nat);
                    assert(digits@ =~= decimal(*length as nat));
                }
                let n = string_from_ascii(digits);
                proof {
                    vstd::utf8::encode_utf8_decode_utf8(n@);
                }
                r.append(n.as_str());
                r.append("]");
                r
            },
        }
    }
}

} // verus!
