//! Recursive-descent parser turning tokens into a [`Program`].

use vstd::prelude::*;
use vstd::string::StringSliceAdditionalSpecFns;
use vstd::utf8::*;
use crate::bytes::{all_ascii, bytes_equal, decimal, lemma_ascii_literal, lemma_decimal_ascii, push_decimal, string_from_ascii, utf8_check, utf8_string};
use super::ast::{expr_view, exprs_view, function_view, item_view, opt_expr_view, param_view, program_view, stmt_view, stmts_view, text_bytes, BinOp, Expr, ExprV, Function, FunctionV, Item, ItemV, Param, Program, Stmt, StmtV, Type, UnOp};
use super::lexer::{ascii_chars, char_text, lexeme, Lexeme, Span, Tok, Token};

verus! {

broadcast use vstd::seq_lib::group_seq_properties;

/// The words the parser looks for.
#[derive(Clone, Copy, PartialEq, Eq, Structural)]
pub enum Word {
    Fn,
    Let,
    Const,
    Import,
    If,
    Else,
    While,
    For,
    In,
    Loop,
    Break,
    Continue,
    Return,
    As,
    True,
    False,
    Byte,
    Int,
    SByte,
    SInt,
    Bool,
}

/// The bytes of a word.
pub open spec fn word(w: Word) -> Seq<u8> {
    match w {
        Word::Fn => seq![102u8, 110u8],
        Word::Let => seq![108u8, 101u8, 116u8],
        Word::Const => seq![99u8, 111u8, 110u8, 115u8, 116u8],
        Word::Import => seq![105u8, 109u8, 112u8, 111u8, 114u8, 116u8],
        Word::If => seq![105u8, 102u8],
        Word::Else => seq![101u8, 108u8, 115u8, 101u8],
        Word::While => seq![119u8, 104u8, 105u8, 108u8, 101u8],
        Word::For => seq![102u8, 111u8, 114u8],
        Word::In => seq![105u8, 110u8],
        Word::Loop => seq![108u8, 111u8, 111u8, 112u8],
        Word::Break => seq![98u8, 114u8, 101u8, 97u8, 107u8],
        Word::Continue => seq![99u8, 111u8, 110u8, 116u8, 105u8, 110u8, 117u8, 101u8],
        Word::Return => seq![114u8, 101u8, 116u8, 117u8, 114u8, 110u8],
        Word::As => seq![97u8, 115u8],
        Word::True => seq![116u8, 114u8, 117u8, 101u8],
        Word::False => seq![102u8, 97u8, 108u8, 115u8, 101u8],
        Word::Byte => seq![98u8, 121u8, 116u8, 101u8],
        Word::Int => seq![105u8, 110u8, 116u8],
        Word::SByte => seq![115u8, 98u8, 121u8, 116u8, 101u8],
        Word::SInt => seq![115u8, 105u8, 110u8, 116u8],
        Word::Bool => seq![98u8, 111u8, 111u8, 108u8],
    }
}

/// The text of a word.
fn word_text(w: Word) -> (r: &'static str)
    ensures
        r.spec_bytes() == word(w),
{
    match w {
        Word::Fn => {
            let r: &'static str = "fn";
            proof {
                reveal_strlit("fn");
                lemma_ascii_literal(r);
                assert(r.spec_bytes() =~= word(w));
            }
            r
        },
        Word::Let => {
            let r: &'static str = "let";
            proof {
                reveal_strlit("let");
                lemma_ascii_literal(r);
                assert(r.spec_bytes() =~= word(w));
            }
            r
        },
        Word::Const => {
            let r: &'static str = "const";
            proof {
                reveal_strlit("const");
                lemma_ascii_literal(r);
                assert(r.spec_bytes() =~= word(w));
            }
            r
        },
        Word::Import => {
            let r: &'static str = "import";
            proof {
                reveal_strlit("import");
                lemma_ascii_literal(r);
                assert(r.spec_bytes() =~= word(w));
            }
            r
        },
        Word::If => {
            let r: &'static str = "if";
            proof {
                reveal_strlit("if");
                lemma_ascii_literal(r);
                assert(r.spec_bytes() =~= word(w));
            }
            r
        },
        Word::Else => {
            let r: &'static str = "else";
            proof {
                reveal_strlit("else");
                lemma_ascii_literal(r);
                assert(r.spec_bytes() =~= word(w));
            }
            r
        },
        Word::While => {
            let r: &'static str = "while";
            proof {
                reveal_strlit("while");
                lemma_ascii_literal(r);
                assert(r.spec_bytes() =~= word(w));
            }
            r
        },
        Word::For => {
            let r: &'static str = "for";
            proof {
                reveal_strlit("for");
                lemma_ascii_literal(r);
                assert(r.spec_bytes() =~= word(w));
            }
            r
        },
        Word::In => {
            let r: &'static str = "in";
            proof {
                reveal_strlit("in");
                lemma_ascii_literal(r);
                assert(r.spec_bytes() =~= word(w));
            }
            r
        },
        Word::Loop => {
            let r: &'static str = "loop";
            proof {
                reveal_strlit("loop");
                lemma_ascii_literal(r);
                assert(r.spec_bytes() =~= word(w));
            }
            r
        },
        Word::Break => {
            let r: &'static str = "break";
            proof {
                reveal_strlit("break");
                lemma_ascii_literal(r);
                assert(r.spec_bytes() =~= word(w));
            }
            r
        },
        Word::Continue => {
            let r: &'static str = "continue";
            proof {
                reveal_strlit("continue");
                lemma_ascii_literal(r);
                assert(r.spec_bytes() =~= word(w));
            }
            r
        },
        Word::Return => {
            let r: &'static str = "return";
            proof {
                reveal_strlit("return");
                lemma_ascii_literal(r);
                assert(r.spec_bytes() =~= word(w));
            }
            r
        },
        Word::As => {
            let r: &'static str = "as";
            proof {
                reveal_strlit("as");
                lemma_ascii_literal(r);
                assert(r.spec_bytes() =~= word(w));
            }
            r
        },
        Word::True => {
            let r: &'static str = "true";
            proof {
                reveal_strlit("true");
                lemma_ascii_literal(r);
                assert(r.spec_bytes() =~= word(w));
            }
            r
        },
        Word::False => {
            let r: &'static str = "false";
            proof {
                reveal_strlit("false");
                lemma_ascii_literal(r);
                assert(r.spec_bytes() =~= word(w));
            }
            r
        },
        Word::Byte => {
            let r: &'static str = "byte";
            proof {
                reveal_strlit("byte");
                lemma_ascii_literal(r);
                assert(r.spec_bytes() =~= word(w));
            }
            r
        },
        Word::Int => {
            let r: &'static str = "int";
            proof {
                reveal_strlit("int");
                lemma_ascii_literal(r);
                assert(r.spec_bytes() =~= word(w));
            }
            r
        },
        Word::SByte => {
            let r: &'static str = "sbyte";
            proof {
                reveal_strlit("sbyte");
                lemma_ascii_literal(r);
                assert(r.spec_bytes() =~= word(w));
            }
            r
        },
        Word::SInt => {
            let r: &'static str = "sint";
            proof {
                reveal_strlit("sint");
                lemma_ascii_literal(r);
                assert(r.spec_bytes() =~= word(w));
            }
            r
        },
        Word::Bool => {
            let r: &'static str = "bool";
            proof {
                reveal_strlit("bool");
                lemma_ascii_literal(r);
                assert(r.spec_bytes() =~= word(w));
            }
            r
        },
    }
}

/// A parse failure.
#[derive(Debug, Clone, PartialEq)]
pub struct ParseError {
    /// Human readable description.
    pub message: String,
    /// Where the problem was found.
    pub span: Span,
}

/// A parse outcome at the spec level: the value and the index of the next
/// token, or a message and the index of the token it is reported at.
pub type Parsed<T> = Result<(T, int), (Seq<char>, int)>;

/// The token at `i`, as a plain value; end of input past the end.
pub open spec fn lx(t: Seq<Token>, i: int) -> Lexeme {
    if 0 <= i < t.len() {
        lexeme(t[i].tok)
    } else {
        Lexeme::Eof
    }
}

/// Where the token at `i` starts.
pub open spec fn sp(t: Seq<Token>, i: int) -> Span {
    if 0 <= i < t.len() {
        t[i].span
    } else {
        t.last().span
    }
}

/// A token stream as the tokenizer makes it: at least one token, the last
/// one the end of input.
pub open spec fn stream_ok(t: Seq<Token>) -> bool {
    t.len() >= 1 && lx(t, t.len() - 1) is Eof
}

/// The token at `i` is the punctuation `p`.
pub open spec fn at_p(t: Seq<Token>, i: int, p: Seq<u8>) -> bool {
    lx(t, i) == Lexeme::Punct(p)
}

/// The token at `i` is the word `w`.
pub open spec fn at_w(t: Seq<Token>, i: int, w: Word) -> bool {
    lx(t, i) == Lexeme::Ident(word(w))
}

/// The one-byte punctuation `a`.
pub open spec fn p1(a: u8) -> Seq<u8> {
    seq![a]
}

/// The two-byte punctuation `a b`.
pub open spec fn p2(a: u8, b: u8) -> Seq<u8> {
    seq![a, b]
}

/// Whether a name is reserved.
pub open spec fn is_keyword(b: Seq<u8>) -> bool {
    ||| b == word(Word::Fn)
    ||| b == word(Word::Let)
    ||| b == word(Word::Const)
    ||| b == word(Word::Import)
    ||| b == word(Word::If)
    ||| b == word(Word::Else)
    ||| b == word(Word::While)
    ||| b == word(Word::For)
    ||| b == word(Word::In)
    ||| b == word(Word::Loop)
    ||| b == word(Word::Break)
    ||| b == word(Word::Continue)
    ||| b == word(Word::Return)
    ||| b == word(Word::As)
}

/// How a token is named in a message.
pub open spec fn describe(l: Lexeme) -> Seq<char> {
    match l {
        Lexeme::Ident(b) => "`"@ + decode_utf8(b) + "`"@,
        Lexeme::Int(n) => "`"@ + decode_utf8(decimal(n)) + "`"@,
        Lexeme::Str(_) => "string literal"@,
        Lexeme::Punct(p) => "`"@ + decode_utf8(p) + "`"@,
        Lexeme::Eof => "end of file"@,
    }
}

/// The message for a missing punctuation `p` where `found` is.
pub open spec fn expected(p: Seq<u8>, found: Lexeme) -> Seq<char> {
    "expected `"@ + decode_utf8(p) + "`, found "@ + describe(found)
}

/// The punctuation `p` at `i`, or the error for its absence.
pub open spec fn expect_p(t: Seq<Token>, i: int, p: Seq<u8>) -> Parsed<()> {
    if at_p(t, i, p) {
        Ok(((), i + 1))
    } else {
        Err((expected(p, lx(t, i)), i))
    }
}

/// A name at `i`.
pub open spec fn expect_ident(t: Seq<Token>, i: int) -> Parsed<Seq<u8>> {
    match lx(t, i) {
        Lexeme::Ident(b) => if !is_keyword(b) {
            Ok((b, i + 1))
        } else {
            Err(("`"@ + decode_utf8(b) + "` is a keyword and cannot be a name"@, i))
        },
        other => Err(("expected an identifier, found "@ + describe(other), i)),
    }
}

/// The scalar type a word names.
pub open spec fn named_type(b: Seq<u8>) -> Option<Type> {
    if b == word(Word::Byte) {
        Some(Type::Byte)
    } else if b == word(Word::Int) {
        Some(Type::Int)
    } else if b == word(Word::SByte) {
        Some(Type::SByte)
    } else if b == word(Word::SInt) {
        Some(Type::SInt)
    } else if b == word(Word::Bool) {
        Some(Type::Bool)
    } else {
        None
    }
}

/// Array suffixes `[n]` after a type whose last token ended before `i`.
pub open spec fn ty_suffix(t: Seq<Token>, i: int, ty: Type) -> Parsed<Type>
    decreases t.len() - i,
{
    if 0 <= i < t.len() && at_p(t, i, p1(91)) {
        match lx(t, i + 1) {
            Lexeme::Int(v) => if v > usize::MAX {
                Err(("array length is too large"@, i + 2))
            } else if !at_p(t, i + 2, p1(93)) {
                Err((expected(p1(93), lx(t, i + 2)), i + 2))
            } else if ty is Array {
                Err(("nested array types are not supported"@, i + 3))
            } else if v == 0 {
                Err(("array length must be at least 1"@, i + 3))
            } else {
                ty_suffix(t, i + 3, Type::Array { element: Box::new(ty), length: v as usize })
            },
            other => Err(("expected an array length, found "@ + describe(other), i + 1)),
        }
    } else {
        Ok((ty, i))
    }
}

/// A type at `i`: a scalar name, then array suffixes.
pub open spec fn ty_at(t: Seq<Token>, i: int) -> Parsed<Type> {
    match lx(t, i) {
        Lexeme::Ident(b) => match named_type(b) {
            Some(base) => ty_suffix(t, i + 1, base),
            None => Err(("unknown type `"@ + decode_utf8(b) + "`"@, i + 1)),
        },
        other => Err(("expected a type, found "@ + describe(other), i)),
    }
}

/// The left-associative operator of precedence level `lvl` at `i`, if any:
/// `||`, `&&`, (comparisons), `| ^`, `&`, `<< >>`, `+ -`, `* / %`.
pub open spec fn level_op(lvl: int, l: Lexeme) -> Option<BinOp> {
    match l {
        Lexeme::Punct(p) => if lvl == 0 && p == p2(124, 124) {
            Some(BinOp::Or)
        } else if lvl == 1 && p == p2(38, 38) {
            Some(BinOp::And)
        } else if lvl == 3 && p == p1(124) {
            Some(BinOp::BitOr)
        } else if lvl == 3 && p == p1(94) {
            Some(BinOp::BitXor)
        } else if lvl == 4 && p == p1(38) {
            Some(BinOp::BitAnd)
        } else if lvl == 5 && p == p2(60, 60) {
            Some(BinOp::Shl)
        } else if lvl == 5 && p == p2(62, 62) {
            Some(BinOp::Shr)
        } else if lvl == 6 && p == p1(43) {
            Some(BinOp::Add)
        } else if lvl == 6 && p == p1(45) {
            Some(BinOp::Sub)
        } else if lvl == 7 && p == p1(42) {
            Some(BinOp::Mul)
        } else if lvl == 7 && p == p1(47) {
            Some(BinOp::Div)
        } else if lvl == 7 && p == p1(37) {
            Some(BinOp::Rem)
        } else {
            None
        },
        _ => None,
    }
}

/// The comparison operator at `i`, if any.
pub open spec fn comparison_op(l: Lexeme) -> Option<BinOp> {
    match l {
        Lexeme::Punct(p) => if p == p2(61, 61) {
            Some(BinOp::Eq)
        } else if p == p2(33, 61) {
            Some(BinOp::Ne)
        } else if p == p1(60) {
            Some(BinOp::Lt)
        } else if p == p2(60, 61) {
            Some(BinOp::Le)
        } else if p == p1(62) {
            Some(BinOp::Gt)
        } else if p == p2(62, 61) {
            Some(BinOp::Ge)
        } else {
            None
        },
        _ => None,
    }
}

/// The operator of an assignment at `i`: `=`, or a compound one.
pub open spec fn assign_op(l: Lexeme) -> Option<Option<BinOp>> {
    match l {
        Lexeme::Punct(p) => if p == p1(61) {
            Some(None)
        } else if p == p2(43, 61) {
            Some(Some(BinOp::Add))
        } else if p == p2(45, 61) {
            Some(Some(BinOp::Sub))
        } else if p == p2(42, 61) {
            Some(Some(BinOp::Mul))
        } else if p == p2(47, 61) {
            Some(Some(BinOp::Div))
        } else if p == p2(37, 61) {
            Some(Some(BinOp::Rem))
        } else {
            None
        },
        _ => None,
    }
}

/// `a op b` as plain values.
pub open spec fn binary_v(op: BinOp, lhs: ExprV, rhs: ExprV, span: Span) -> ExprV {
    ExprV::Binary { op, lhs: Box::new(lhs), rhs: Box::new(rhs), span }
}

/// An expression at `i`.
pub open spec fn expr_at(t: Seq<Token>, i: int) -> Parsed<ExprV>
    decreases t.len() - i, 70int,
{
    binary_at(t, i, 0)
}

/// An expression of precedence level `lvl` (0 to 7) or tighter at `i`.
pub open spec fn binary_at(t: Seq<Token>, i: int, lvl: int) -> Parsed<ExprV>
    decreases t.len() - i, 61 - 2 * lvl,
{
    if lvl < 0 || lvl > 7 {
        Err((Seq::empty(), i))
    } else {
        match operand_at(t, i, lvl) {
            Err(e) => Err(e),
            Ok((lhs, j)) => if j < i || j > t.len() {
                Err((Seq::empty(), j))
            } else if lvl == 2 {
                match comparison_op(lx(t, j)) {
                    Some(op) => if 0 <= j < t.len() {
                        match operand_at(t, j + 1, 2) {
                            Err(e) => Err(e),
                            Ok((rhs, k)) => Ok((binary_v(op, lhs, rhs, sp(t, j)), k)),
                        }
                    } else {
                        Err((Seq::empty(), j))
                    },
                    None => Ok((lhs, j)),
                }
            } else {
                binary_rest(t, j, lvl, lhs)
            },
        }
    }
}

/// The operand of a level-`lvl` operator at `i`: the next level, or a cast.
pub open spec fn operand_at(t: Seq<Token>, i: int, lvl: int) -> Parsed<ExprV>
    decreases t.len() - i, 60 - 2 * lvl,
{
    if lvl < 0 || lvl > 7 {
        Err((Seq::empty(), i))
    } else if lvl < 7 {
        binary_at(t, i, lvl + 1)
    } else {
        cast_at(t, i)
    }
}

/// Further `op operand` pairs of level `lvl` after `lhs`, from `i`.
pub open spec fn binary_rest(t: Seq<Token>, i: int, lvl: int, lhs: ExprV) -> Parsed<ExprV>
    decreases t.len() - i, 44int,
{
    if lvl < 0 || lvl > 7 || i < 0 || i >= t.len() {
        Ok((lhs, i))
    } else {
        match level_op(lvl, lx(t, i)) {
            Some(op) => match operand_at(t, i + 1, lvl) {
                Err(e) => Err(e),
                Ok((rhs, k)) => if i < k <= t.len() {
                    binary_rest(t, k, lvl, binary_v(op, lhs, rhs, sp(t, i)))
                } else {
                    Err((Seq::empty(), k))
                },
            },
            None => Ok((lhs, i)),
        }
    }
}

/// A unary expression followed by `as type` casts, at `i`.
pub open spec fn cast_at(t: Seq<Token>, i: int) -> Parsed<ExprV>
    decreases t.len() - i, 40int,
{
    match unary_at(t, i) {
        Err(e) => Err(e),
        Ok((v, j)) => if i <= j <= t.len() {
            cast_rest(t, j, v)
        } else {
            Err((Seq::empty(), j))
        },
    }
}

/// `as type` casts after `v`, from `i`.
pub open spec fn cast_rest(t: Seq<Token>, i: int, v: ExprV) -> Parsed<ExprV>
    decreases t.len() - i, 39int,
{
    if 0 <= i < t.len() && at_w(t, i, Word::As) {
        match ty_at(t, i + 1) {
            Err(e) => Err(e),
            Ok((ty, k)) => if i < k <= t.len() {
                cast_rest(t, k, ExprV::Cast { value: Box::new(v), ty, span: sp(t, i) })
            } else {
                Err((Seq::empty(), k))
            },
        }
    } else {
        Ok((v, i))
    }
}

/// A prefix `!` or `-` chain, then a postfix expression, at `i`.
pub open spec fn unary_at(t: Seq<Token>, i: int) -> Parsed<ExprV>
    decreases t.len() - i, 38int,
{
    let op = if at_p(t, i, p1(33)) {
        Some(UnOp::Not)
    } else if at_p(t, i, p1(45)) {
        Some(UnOp::Neg)
    } else {
        None
    };
    match op {
        Some(o) => if 0 <= i < t.len() {
            match unary_at(t, i + 1) {
                Err(e) => Err(e),
                Ok((operand, j)) => Ok((ExprV::Unary { op: o, operand: Box::new(operand), span: sp(t, i) }, j)),
            }
        } else {
            Err((Seq::empty(), i))
        },
        None => postfix_at(t, i),
    }
}

/// A primary expression followed by `[index]` suffixes, at `i`.
pub open spec fn postfix_at(t: Seq<Token>, i: int) -> Parsed<ExprV>
    decreases t.len() - i, 37int,
{
    match primary_at(t, i) {
        Err(e) => Err(e),
        Ok((v, j)) => if i <= j <= t.len() {
            index_rest(t, j, v)
        } else {
            Err((Seq::empty(), j))
        },
    }
}

/// `[index]` suffixes after `v`, from `i`.
pub open spec fn index_rest(t: Seq<Token>, i: int, v: ExprV) -> Parsed<ExprV>
    decreases t.len() - i, 36int,
{
    if 0 <= i < t.len() && at_p(t, i, p1(91)) {
        match expr_at(t, i + 1) {
            Err(e) => Err(e),
            Ok((index, k)) => match expect_p(t, k, p1(93)) {
                Err(e) => Err(e),
                Ok((_, m)) => if i < m <= t.len() {
                    index_rest(t, m, ExprV::Index { array: Box::new(v), index: Box::new(index), span: sp(t, i) })
                } else {
                    Err((Seq::empty(), m))
                },
            },
        }
    } else {
        Ok((v, i))
    }
}

/// Comma-separated expressions from `i`, after `acc`; at least one.
pub open spec fn list_at(t: Seq<Token>, i: int, acc: Seq<ExprV>) -> Parsed<Seq<ExprV>>
    decreases t.len() - i, 80int,
{
    match expr_at(t, i) {
        Err(e) => Err(e),
        Ok((e, j)) => if 0 <= j < t.len() && at_p(t, j, p1(44)) && j >= i {
            list_at(t, j + 1, acc.push(e))
        } else {
            Ok((acc.push(e), j))
        },
    }
}

/// A bracketed, comma-separated list whose opening token was at `i - 1`,
/// closed by `close`.
pub open spec fn delimited_at(t: Seq<Token>, i: int, close: u8) -> Parsed<Seq<ExprV>>
    decreases t.len() - i, 81int,
{
    if at_p(t, i, p1(close)) {
        Ok((Seq::empty(), i + 1))
    } else {
        match list_at(t, i, Seq::empty()) {
            Err(e) => Err(e),
            Ok((es, j)) => match expect_p(t, j, p1(close)) {
                Err(e) => Err(e),
                Ok((_, k)) => Ok((es, k)),
            },
        }
    }
}

/// A literal, a parenthesized expression, an array literal, a name or a
/// call, at `i`.
pub open spec fn primary_at(t: Seq<Token>, i: int) -> Parsed<ExprV>
    decreases t.len() - i, 33int,
{
    let span = sp(t, i);
    if i < 0 || i >= t.len() {
        Err((Seq::empty(), i))
    } else {
        match lx(t, i) {
            Lexeme::Int(v) => Ok((ExprV::Int { value: v as u64, span }, i + 1)),
            Lexeme::Str(s) => Ok((ExprV::Str { value: s, span }, i + 1)),
            Lexeme::Punct(p) => if p == p1(40) {
                match expr_at(t, i + 1) {
                    Err(e) => Err(e),
                    Ok((inner, j)) => match expect_p(t, j, p1(41)) {
                        Err(e) => Err(e),
                        Ok((_, k)) => Ok((inner, k)),
                    },
                }
            } else if p == p1(91) {
                match delimited_at(t, i + 1, 93) {
                    Err(e) => Err(e),
                    Ok((es, j)) => Ok((ExprV::ArrayLit { elements: es, span }, j)),
                }
            } else {
                Err(("expected an expression, found "@ + describe(lx(t, i)), i))
            },
            Lexeme::Ident(b) => if b == word(Word::True) || b == word(Word::False) {
                Ok((ExprV::Bool { value: b == word(Word::True), span }, i + 1))
            } else if is_keyword(b) {
                Err(("`"@ + decode_utf8(b) + "` cannot start an expression"@, i))
            } else if at_p(t, i + 1, p1(40)) && i + 1 < t.len() {
                match delimited_at(t, i + 2, 41) {
                    Err(e) => Err(e),
                    Ok((args, j)) => Ok((ExprV::Call { name: b, args, span }, j)),
                }
            } else {
                Ok((ExprV::Name { name: b, span }, i + 1))
            },
            Lexeme::Eof => Err(("expected an expression, found "@ + describe(lx(t, i)), i)),
        }
    }
}

/// `: type`, if there is one at `i`.
pub open spec fn ascription_at(t: Seq<Token>, i: int) -> Parsed<Option<Type>> {
    if at_p(t, i, p1(58)) {
        match ty_at(t, i + 1) {
            Err(e) => Err(e),
            Ok((ty, j)) => Ok((Some(ty), j)),
        }
    } else {
        Ok((None, i))
    }
}

/// `= expr`, if there is one at `i`.
pub open spec fn initializer_at(t: Seq<Token>, i: int) -> Parsed<Option<ExprV>> {
    if at_p(t, i, p1(61)) {
        match expr_at(t, i + 1) {
            Err(e) => Err(e),
            Ok((e, j)) => Ok((Some(e), j)),
        }
    } else {
        Ok((None, i))
    }
}

/// The rest of a declaration after its keyword at `i - 1`: a name, an
/// optional type and initializer, and `;`.
pub open spec fn declaration_at(t: Seq<Token>, i: int) -> Parsed<(Seq<u8>, Option<Type>, Option<ExprV>)> {
    match expect_ident(t, i) {
        Err(e) => Err(e),
        Ok((name, j)) => match ascription_at(t, j) {
            Err(e) => Err(e),
            Ok((ty, k)) => match initializer_at(t, k) {
                Err(e) => Err(e),
                Ok((init, m)) => match expect_p(t, m, p1(59)) {
                    Err(e) => Err(e),
                    Ok((_, n)) => Ok(((name, ty, init), n)),
                },
            },
        },
    }
}

/// A `{ ... }` block at `i`.
pub open spec fn block_at(t: Seq<Token>, i: int) -> Parsed<Seq<StmtV>>
    decreases t.len() - i, 2int,
{
    match expect_p(t, i, p1(123)) {
        Err(e) => Err(e),
        Ok((_, j)) => if i < j <= t.len() {
            stmts_at(t, j, Seq::empty())
        } else {
            Err((Seq::empty(), j))
        },
    }
}

/// The statements of a block from `i` to its `}`, after `acc`.
pub open spec fn stmts_at(t: Seq<Token>, i: int, acc: Seq<StmtV>) -> Parsed<Seq<StmtV>>
    decreases t.len() - i, 5int,
{
    if at_p(t, i, p1(125)) {
        Ok((acc, i + 1))
    } else if lx(t, i) is Eof {
        Err(("unexpected end of file inside a block"@, i))
    } else {
        match stmt_at(t, i) {
            Err(e) => Err(e),
            Ok((s, j)) => if i < j <= t.len() {
                stmts_at(t, j, acc.push(s))
            } else {
                Err((Seq::empty(), j))
            },
        }
    }
}

/// A statement at `i`: a block, a declaration, a control-flow statement,
/// an assignment, or an expression.
#[verifier::opaque]
pub open spec fn stmt_at(t: Seq<Token>, i: int) -> Parsed<StmtV>
    decreases t.len() - i, 4int,
{
    let span = sp(t, i);
    if i < 0 || i >= t.len() {
        Err((Seq::empty(), i))
    } else if at_p(t, i, p1(123)) {
        match block_at(t, i) {
            Err(e) => Err(e),
            Ok((body, j)) => Ok((StmtV::Block { body, span }, j)),
        }
    } else if at_w(t, i, Word::Let) {
        match declaration_at(t, i + 1) {
            Err(e) => Err(e),
            Ok(((name, ty, init), j)) => Ok((StmtV::Let { name, ty, init, span }, j)),
        }
    } else if at_w(t, i, Word::If) {
        if_at(t, i + 1, span)
    } else if at_w(t, i, Word::While) {
        while_at(t, i + 1, span)
    } else if at_w(t, i, Word::Loop) {
        match block_at(t, i + 1) {
            Err(e) => Err(e),
            Ok((body, j)) => Ok((StmtV::Loop { body, span }, j)),
        }
    } else if at_w(t, i, Word::For) {
        for_at(t, i + 1, span)
    } else if at_w(t, i, Word::Break) {
        match expect_p(t, i + 1, p1(59)) {
            Err(e) => Err(e),
            Ok((_, j)) => Ok((StmtV::Break { span }, j)),
        }
    } else if at_w(t, i, Word::Continue) {
        match expect_p(t, i + 1, p1(59)) {
            Err(e) => Err(e),
            Ok((_, j)) => Ok((StmtV::Continue { span }, j)),
        }
    } else if at_w(t, i, Word::Return) {
        return_at(t, i + 1, span)
    } else {
        expression_stmt_at(t, i, span)
    }
}

/// The rest of a `while` whose keyword was at `i - 1`.
pub open spec fn while_at(t: Seq<Token>, i: int, span: Span) -> Parsed<StmtV>
    decreases t.len() - i, 3int,
{
    match expr_at(t, i) {
        Err(e) => Err(e),
        Ok((cond, j)) => if i <= j <= t.len() {
            match block_at(t, j) {
                Err(e) => Err(e),
                Ok((body, k)) => Ok((StmtV::While { cond, body, span }, k)),
            }
        } else {
            Err((Seq::empty(), j))
        },
    }
}

/// The rest of a `for` whose keyword was at `i - 1`.
pub open spec fn for_at(t: Seq<Token>, i: int, span: Span) -> Parsed<StmtV>
    decreases t.len() - i, 3int,
{
    match expect_ident(t, i) {
        Err(e) => Err(e),
        Ok((name, j)) => if !at_w(t, j, Word::In) {
            Err(("expected `in` after the loop variable"@, j))
        } else {
            match expr_at(t, j + 1) {
                Err(e) => Err(e),
                Ok((start, k)) => match expect_p(t, k, p2(46, 46)) {
                    Err(e) => Err(e),
                    Ok((_, m)) => match expr_at(t, m) {
                        Err(e) => Err(e),
                        Ok((end, n)) => if i <= n <= t.len() {
                            match block_at(t, n) {
                                Err(e) => Err(e),
                                Ok((body, q)) => Ok((StmtV::For { name, start, end, body, span }, q)),
                            }
                        } else {
                            Err((Seq::empty(), n))
                        },
                    },
                },
            }
        },
    }
}

/// The rest of a `return` whose keyword was at `i - 1`.
pub open spec fn return_at(t: Seq<Token>, i: int, span: Span) -> Parsed<StmtV> {
    let value: Parsed<Option<ExprV>> = if at_p(t, i, p1(59)) {
        Ok((None, i))
    } else {
        match expr_at(t, i) {
            Err(e) => Err(e),
            Ok((v, j)) => Ok((Some(v), j)),
        }
    };
    match value {
        Err(e) => Err(e),
        Ok((v, j)) => match expect_p(t, j, p1(59)) {
            Err(e) => Err(e),
            Ok((_, k)) => Ok((StmtV::Return { value: v, span }, k)),
        },
    }
}

/// An assignment or an expression statement at `i`.
pub open spec fn expression_stmt_at(t: Seq<Token>, i: int, span: Span) -> Parsed<StmtV> {
    match expr_at(t, i) {
        Err(e) => Err(e),
        Ok((e, j)) => match assign_op(lx(t, j)) {
            Some(op) => match expr_at(t, j + 1) {
                Err(e) => Err(e),
                Ok((value, k)) => match expect_p(t, k, p1(59)) {
                    Err(e) => Err(e),
                    Ok((_, m)) => Ok((StmtV::Assign { target: e, op, value, span: sp(t, j) }, m)),
                },
            },
            None => match expect_p(t, j, p1(59)) {
                Err(e) => Err(e),
                Ok((_, k)) => Ok((StmtV::Expr { expr: e, span }, k)),
            },
        },
    }
}

/// The rest of an `if` whose keyword was at `i - 1`: a condition, a block,
/// and an optional `else` block or `else if` chain.
#[verifier::opaque]
pub open spec fn if_at(t: Seq<Token>, i: int, span: Span) -> Parsed<StmtV>
    decreases t.len() - i, 3int,
{
    match expr_at(t, i) {
        Err(e) => Err(e),
        Ok((cond, j)) => if i <= j <= t.len() {
            match block_at(t, j) {
                Err(e) => Err(e),
                Ok((then_block, k)) => if i < k <= t.len() {
                    match else_at(t, k) {
                        Err(e) => Err(e),
                        Ok((else_block, m)) => Ok((StmtV::If { cond, then_block, else_block, span }, m)),
                    }
                } else {
                    Err((Seq::empty(), k))
                },
            }
        } else {
            Err((Seq::empty(), j))
        },
    }
}

/// An optional `else` at `i`: a block, or an `if` chained after it.
pub open spec fn else_at(t: Seq<Token>, i: int) -> Parsed<Option<Seq<StmtV>>>
    decreases t.len() - i, 6int,
{
    if at_w(t, i, Word::Else) && 0 <= i < t.len() {
        if at_w(t, i + 1, Word::If) && i + 1 < t.len() {
            match if_at(t, i + 2, sp(t, i + 1)) {
                Err(e) => Err(e),
                Ok((s, m)) => Ok((Some(seq![s]), m)),
            }
        } else {
            match block_at(t, i + 1) {
                Err(e) => Err(e),
                Ok((b, m)) => Ok((Some(b), m)),
            }
        }
    } else {
        Ok((None, i))
    }
}

/// Parameters from `i`, after `acc`; at least one.
pub open spec fn params_at(t: Seq<Token>, i: int, acc: Seq<(Seq<u8>, Type, Span)>) -> Parsed<Seq<(Seq<u8>, Type, Span)>>
    decreases t.len() - i,
{
    match expect_ident(t, i) {
        Err(e) => Err(e),
        Ok((name, j)) => match expect_p(t, j, p1(58)) {
            Err(e) => Err(e),
            Ok((_, k)) => match ty_at(t, k) {
                Err(e) => Err(e),
                Ok((ty, m)) => {
                    let acc2 = acc.push((name, ty, sp(t, i)));
                    if 0 <= m < t.len() && m > i && at_p(t, m, p1(44)) {
                        params_at(t, m + 1, acc2)
                    } else {
                        Ok((acc2, m))
                    }
                },
            },
        },
    }
}

/// The rest of a function whose `fn` was at `i - 1`.
pub open spec fn function_at(t: Seq<Token>, i: int, span: Span) -> Parsed<FunctionV> {
    match expect_ident(t, i) {
        Err(e) => Err(e),
        Ok((name, j)) => match expect_p(t, j, p1(40)) {
            Err(e) => Err(e),
            Ok((_, k)) => {
                let params: Parsed<Seq<(Seq<u8>, Type, Span)>> = if at_p(t, k, p1(41)) {
                    Ok((Seq::empty(), k))
                } else {
                    params_at(t, k, Seq::empty())
                };
                match params {
                    Err(e) => Err(e),
                    Ok((params, m)) => match expect_p(t, m, p1(41)) {
                        Err(e) => Err(e),
                        Ok((_, n)) => {
                            let ret: Parsed<Type> = if at_p(t, n, p2(45, 62)) {
                                ty_at(t, n + 1)
                            } else {
                                Ok((Type::Unit, n))
                            };
                            match ret {
                                Err(e) => Err(e),
                                Ok((ret, q)) => match block_at(t, q) {
                                    Err(e) => Err(e),
                                    Ok((body, z)) => Ok((FunctionV { name, params, ret, body, span }, z)),
                                },
                            }
                        },
                    },
                }
            },
        },
    }
}

/// The message for a missing import path.
pub open spec fn import_needs_path() -> Seq<char> {
    "`import` needs a quoted path, as in `import \"lib.cra\";`"@
}

/// The rest of an `import` whose keyword was at `i - 1`.
pub open spec fn import_at(t: Seq<Token>, i: int, span: Span) -> Parsed<ItemV> {
    match lx(t, i) {
        Lexeme::Str(b) => if valid_utf8(b) {
            match expect_p(t, i + 1, p1(59)) {
                Err(e) => Err(e),
                Ok((_, j)) => Ok((ItemV::Import { path: decode_utf8(b), span }, j)),
            }
        } else {
            Err(("import paths must be text"@, i + 1))
        },
        _ => Err((import_needs_path(), i)),
    }
}

/// The rest of a `const` whose keyword was at `i - 1`.
pub open spec fn const_at(t: Seq<Token>, i: int, span: Span) -> Parsed<ItemV> {
    match expect_ident(t, i) {
        Err(e) => Err(e),
        Ok((name, j)) => match ascription_at(t, j) {
            Err(e) => Err(e),
            Ok((ty, k)) => match expect_p(t, k, p1(61)) {
                Err(e) => Err(e),
                Ok((_, m)) => match expr_at(t, m) {
                    Err(e) => Err(e),
                    Ok((value, n)) => match expect_p(t, n, p1(59)) {
                        Err(e) => Err(e),
                        Ok((_, q)) => Ok((ItemV::Const { name, ty, value, span }, q)),
                    },
                },
            },
        },
    }
}

/// A top-level item at `i`: an import, a function, a constant or a global.
#[verifier::opaque]
pub open spec fn item_at(t: Seq<Token>, i: int) -> Parsed<ItemV> {
    let span = sp(t, i);
    if at_w(t, i, Word::Import) {
        import_at(t, i + 1, span)
    } else if at_w(t, i, Word::Fn) {
        match function_at(t, i + 1, span) {
            Err(e) => Err(e),
            Ok((f, j)) => Ok((ItemV::Function(f), j)),
        }
    } else if at_w(t, i, Word::Const) {
        const_at(t, i + 1, span)
    } else if at_w(t, i, Word::Let) {
        match declaration_at(t, i + 1) {
            Err(e) => Err(e),
            Ok(((name, ty, init), j)) => Ok((ItemV::Global { name, ty, init, span }, j)),
        }
    } else {
        Err(("expected `import`, `fn`, `const`, or `let` at the top level, found "@ + describe(lx(t, i)), i))
    }
}

/// Items from `i` to the end of input, after `acc`.
#[verifier::rlimit(50)]
pub open spec fn items_at(t: Seq<Token>, i: int, acc: Seq<ItemV>) -> Result<Seq<ItemV>, (Seq<char>, int)>
    decreases t.len() - i,
{
    if lx(t, i) is Eof || i < 0 || i >= t.len() {
        Ok(acc)
    } else {
        match item_at(t, i) {
            Err(e) => Err(e),
            Ok((item, j)) => if i < j <= t.len() {
                items_at(t, j, acc.push(item))
            } else {
                Err((Seq::empty(), j))
            },
        }
    }
}

/// ASCII bytes decode to the characters they are.
pub proof fn lemma_ascii_decode(b: Seq<u8>)
    requires
        all_ascii(b),
    ensures
        decode_utf8(b) == ascii_chars(b),
{
    let c = ascii_chars(b);
    assert(is_ascii_chars(c));
    is_ascii_chars_encode_utf8(c);
    assert(encode_utf8(c) =~= b);
    encode_utf8_decode_utf8(c);
}

/// Whether an outcome of the parser is the spec outcome `s`, the value seen
/// through `view`, with the parser at `end` after a success.
pub open spec fn outcome<T, V>(r: Result<T, ParseError>, s: Parsed<V>, view: spec_fn(T) -> V, t: Seq<Token>, end: int) -> bool {
    match s {
        Ok((v, j)) => r matches Ok(x) && view(x) == v && end == j,
        Err((m, at)) => r matches Err(e) && e.message@ == m && e.span == sp(t, at),
    }
}

/// How a token is named in a message.
fn describe_tok(tok: &Tok) -> (r: String)
    ensures
        r@ == describe(lexeme(*tok)),
{
    match tok {
        Tok::Ident(name) => {
            let mut r = "`".to_owned();
            r.append(name.as_str());
            r.append("`");
            proof {
                encode_utf8_decode_utf8(name@);
            }
            r
        },
        Tok::Int(v) => {
            let mut digits: Vec<u8> = Vec::new();
            push_decimal(&mut digits, *v);
            proof {
                lemma_decimal_ascii(*v as nat);
                assert(digits@ =~= decimal(*v as nat));
            }
            let ghost d = digits@;
            let text = string_from_ascii(digits);
            proof {
                encode_utf8_decode_utf8(text@);
            }
            let mut r = "`".to_owned();
            r.append(text.as_str());
            r.append("`");
            r
        },
        Tok::Str(_) => "string literal".to_owned(),
        Tok::Punct(p) => {
            let mut r = "`".to_owned();
            r.append(*p);
            r.append("`");
            proof {
                encode_utf8_decode_utf8(p@);
            }
            r
        },
        Tok::Eof => "end of file".to_owned(),
    }
}

/// The text of ASCII punctuation bytes.
fn ascii_text(p: &[u8]) -> (r: String)
    requires
        all_ascii(p@),
    ensures
        r@ == decode_utf8(p@),
{
    let mut r = String::new();
    let mut k: usize = 0;
    while k < p.len()
        invariant
            all_ascii(p@),
            k <= p@.len(),
            r@ == ascii_chars(p@.take(k as int)),
        decreases p@.len() - k,
    {
        let c = char_text(p[k] as char);
        r.append(c.as_str());
        k = k + 1;
        proof {
            assert(ascii_chars(p@.take(k as int)) =~= ascii_chars(p@.take(k - 1)).push(p@[k - 1] as char));
        }
    }
    proof {
        assert(p@.take(k as int) =~= p@);
        lemma_ascii_decode(p@);
    }
    r
}

/// Reads tokens from left to right.
struct Parser {
    tokens: Vec<Token>,
    index: usize,
}

impl Parser {
    spec fn t(&self) -> Seq<Token> {
        self.tokens@
    }

    spec fn wf(&self) -> bool {
        stream_ok(self.tokens@) && self.index < self.tokens@.len()
    }

    fn tok(&self) -> (r: &Tok)
        requires
            self.wf(),
        ensures
            lexeme(*r) == lx(self.t(), self.index as int),
    {
        &self.tokens[self.index].tok
    }

    fn span(&self) -> (r: Span)
        requires
            self.wf(),
        ensures
            r == sp(self.t(), self.index as int),
    {
        self.tokens[self.index].span
    }

    fn error(&self, message: String) -> (r: ParseError)
        requires
            self.wf(),
        ensures
            r.message@ == message@,
            r.span == sp(self.t(), self.index as int),
    {
        ParseError { message, span: self.span() }
    }

    /// Move past a token that is not the end of input.
    fn advance(&mut self)
        requires
            old(self).wf(),
            !(lx(old(self).t(), old(self).index as int) is Eof),
        ensures
            final(self).wf(),
            final(self).tokens == old(self).tokens,
            final(self).index == old(self).index + 1,
    {
        let n = self.tokens.len();
        assert(self.index + 1 < n);
        self.index = self.index + 1;
    }

    fn at_punct1(&self, a: u8) -> (r: bool)
        requires
            self.wf(),
        ensures
            r == at_p(self.t(), self.index as int, p1(a)),
    {
        match self.tok() {
            Tok::Punct(p) => {
                let b = p.as_bytes();
                let r = b.len() == 1 && b[0] == a;
                proof {
                    if r {
                        assert(b@ =~= p1(a));
                    }
                }
                r
            },
            _ => false,
        }
    }

    fn at_punct2(&self, a: u8, c: u8) -> (r: bool)
        requires
            self.wf(),
        ensures
            r == at_p(self.t(), self.index as int, p2(a, c)),
    {
        match self.tok() {
            Tok::Punct(p) => {
                let b = p.as_bytes();
                let r = b.len() == 2 && b[0] == a && b[1] == c;
                proof {
                    if r {
                        assert(b@ =~= p2(a, c));
                    }
                }
                r
            },
            _ => false,
        }
    }

    fn at_word(&self, w: Word) -> (r: bool)
        requires
            self.wf(),
        ensures
            r == at_w(self.t(), self.index as int, w),
    {
        match self.tok() {
            Tok::Ident(name) => bytes_equal(name.as_str().as_bytes(), word_text(w).as_bytes()),
            _ => false,
        }
    }

    fn expect1(&mut self, a: u8) -> (r: Result<(), ParseError>)
        requires
            old(self).wf(),
            a < 128,
        ensures
            final(self).wf(),
            final(self).tokens == old(self).tokens,
            final(self).index >= old(self).index,
            outcome(r, expect_p(old(self).t(), old(self).index as int, p1(a)), |u: ()| u, old(self).t(), final(self).index as int),
    {
        if self.at_punct1(a) {
            self.advance();
            Ok(())
        } else {
            let arr = [a];
            proof {
                assert(arr@ =~= p1(a));
            }
            let mut message = "expected `".to_owned();
            message.append(ascii_text(arr.as_slice()).as_str());
            message.append("`, found ");
            message.append(describe_tok(self.tok()).as_str());
            Err(self.error(message))
        }
    }

    fn expect2(&mut self, a: u8, c: u8) -> (r: Result<(), ParseError>)
        requires
            old(self).wf(),
            a < 128,
            c < 128,
        ensures
            final(self).wf(),
            final(self).tokens == old(self).tokens,
            final(self).index >= old(self).index,
            outcome(r, expect_p(old(self).t(), old(self).index as int, p2(a, c)), |u: ()| u, old(self).t(), final(self).index as int),
    {
        if self.at_punct2(a, c) {
            self.advance();
            Ok(())
        } else {
            let arr = [a, c];
            proof {
                assert(arr@ =~= p2(a, c));
            }
            let mut message = "expected `".to_owned();
            message.append(ascii_text(arr.as_slice()).as_str());
            message.append("`, found ");
            message.append(describe_tok(self.tok()).as_str());
            Err(self.error(message))
        }
    }

    fn expect_ident(&mut self) -> (r: Result<String, ParseError>)
        requires
            old(self).wf(),
        ensures
            final(self).wf(),
            final(self).tokens == old(self).tokens,
            final(self).index >= old(self).index,
            outcome(r, expect_ident(old(self).t(), old(self).index as int), |s: String| text_bytes(s), old(self).t(), final(self).index as int),
    {
        match self.tok() {
            Tok::Ident(name) => {
                if is_keyword_text(name.as_str()) {
                    let mut message = "`".to_owned();
                    message.append(name.as_str());
                    message.append("` is a keyword and cannot be a name");
                    proof {
                        encode_utf8_decode_utf8(name@);
                    }
                    Err(self.error(message))
                } else {
                    let owned = name.clone();
                    self.advance();
                    Ok(owned)
                }
            },
            other => {
                let mut message = "expected an identifier, found ".to_owned();
                message.append(describe_tok(other).as_str());
                Err(self.error(message))
            },
        }
    }
}

/// Whether a name is reserved.
fn is_keyword_text(name: &str) -> (r: bool)
    ensures
        r == is_keyword(name.spec_bytes()),
{
    let b = name.as_bytes();
    bytes_equal(b, word_text(Word::Fn).as_bytes()) || bytes_equal(b, word_text(Word::Let).as_bytes())
        || bytes_equal(b, word_text(Word::Const).as_bytes()) || bytes_equal(b, word_text(Word::Import).as_bytes())
        || bytes_equal(b, word_text(Word::If).as_bytes()) || bytes_equal(b, word_text(Word::Else).as_bytes())
        || bytes_equal(b, word_text(Word::While).as_bytes()) || bytes_equal(b, word_text(Word::For).as_bytes())
        || bytes_equal(b, word_text(Word::In).as_bytes()) || bytes_equal(b, word_text(Word::Loop).as_bytes())
        || bytes_equal(b, word_text(Word::Break).as_bytes()) || bytes_equal(b, word_text(Word::Continue).as_bytes())
        || bytes_equal(b, word_text(Word::Return).as_bytes()) || bytes_equal(b, word_text(Word::As).as_bytes())
}

impl Parser {
    fn ty(&mut self) -> (r: Result<Type, ParseError>)
        requires
            old(self).wf(),
        ensures
            final(self).wf(),
            final(self).tokens == old(self).tokens,
            final(self).index >= old(self).index,
            outcome(r, ty_at(old(self).t(), old(self).index as int), |x: Type| x, old(self).t(), final(self).index as int),
    {
        let base = match self.tok() {
            Tok::Ident(name) => {
                let b = name.as_str().as_bytes();
                let found = if bytes_equal(b, word_text(Word::Byte).as_bytes()) {
                    Some(Type::Byte)
                } else if bytes_equal(b, word_text(Word::Int).as_bytes()) {
                    Some(Type::Int)
                } else if bytes_equal(b, word_text(Word::SByte).as_bytes()) {
                    Some(Type::SByte)
                } else if bytes_equal(b, word_text(Word::SInt).as_bytes()) {
                    Some(Type::SInt)
                } else if bytes_equal(b, word_text(Word::Bool).as_bytes()) {
                    Some(Type::Bool)
                } else {
                    None
                };
                match found {
                    Some(ty) => ty,
                    None => {
                        let mut message = "unknown type `".to_owned();
                        message.append(name.as_str());
                        message.append("`");
                        proof {
                            encode_utf8_decode_utf8(name@);
                        }
                        self.advance();
                        return Err(self.error(message));
                    },
                }
            },
            other => {
                let mut message = "expected a type, found ".to_owned();
                message.append(describe_tok(other).as_str());
                return Err(self.error(message));
            },
        };
        self.advance();
        let ghost goal = ty_suffix(self.t(), self.index as int, base);
        let mut ty = base;
        while self.at_punct1(91)
            invariant
                self.wf(),
                self.tokens == old(self).tokens,
                self.index > old(self).index,
                goal == ty_at(old(self).t(), old(self).index as int),
                ty_suffix(self.t(), self.index as int, ty) == goal,
            decreases self.tokens@.len() - self.index,
        {
            self.advance();
            let length = match self.tok() {
                Tok::Int(v) => {
                    let v = *v;
                    self.advance();
                    if (v as u128) > (usize::MAX as u128) {
                        return Err(self.error("array length is too large".to_owned()));
                    }
                    v as usize
                },
                other => {
                    let mut message = "expected an array length, found ".to_owned();
                    message.append(describe_tok(other).as_str());
                    return Err(self.error(message));
                },
            };
            match self.expect1(93) {
                Ok(()) => {},
                Err(e) => {
                    return Err(e);
                },
            }
            if matches!(ty, Type::Array { .. }) {
                return Err(self.error("nested array types are not supported".to_owned()));
            }
            if length == 0 {
                return Err(self.error("array length must be at least 1".to_owned()));
            }
            ty = Type::Array { element: Box::new(ty), length };
        }
        Ok(ty)
    }
}

/// `a op b`.
fn binary(op: BinOp, lhs: Expr, rhs: Expr, span: Span) -> (r: Expr)
    ensures
        expr_view(r) == binary_v(op, expr_view(lhs), expr_view(rhs), span),
{
    Expr::Binary { op, lhs: Box::new(lhs), rhs: Box::new(rhs), span }
}

impl Parser {
    /// The operator of level `lvl` at the current token, if any.
    fn level_op(&self, lvl: usize) -> (r: Option<BinOp>)
        requires
            self.wf(),
        ensures
            r == level_op(lvl as int, lx(self.t(), self.index as int)),
    {
        if lvl == 0 && self.at_punct2(124, 124) {
            Some(BinOp::Or)
        } else if lvl == 1 && self.at_punct2(38, 38) {
            Some(BinOp::And)
        } else if lvl == 3 && self.at_punct1(124) {
            Some(BinOp::BitOr)
        } else if lvl == 3 && self.at_punct1(94) {
            Some(BinOp::BitXor)
        } else if lvl == 4 && self.at_punct1(38) {
            Some(BinOp::BitAnd)
        } else if lvl == 5 && self.at_punct2(60, 60) {
            Some(BinOp::Shl)
        } else if lvl == 5 && self.at_punct2(62, 62) {
            Some(BinOp::Shr)
        } else if lvl == 6 && self.at_punct1(43) {
            Some(BinOp::Add)
        } else if lvl == 6 && self.at_punct1(45) {
            Some(BinOp::Sub)
        } else if lvl == 7 && self.at_punct1(42) {
            Some(BinOp::Mul)
        } else if lvl == 7 && self.at_punct1(47) {
            Some(BinOp::Div)
        } else if lvl == 7 && self.at_punct1(37) {
            Some(BinOp::Rem)
        } else {
            None
        }
    }

    /// The comparison operator at the current token, if any.
    fn comparison_op(&self) -> (r: Option<BinOp>)
        requires
            self.wf(),
        ensures
            r == comparison_op(lx(self.t(), self.index as int)),
    {
        if self.at_punct2(61, 61) {
            Some(BinOp::Eq)
        } else if self.at_punct2(33, 61) {
            Some(BinOp::Ne)
        } else if self.at_punct1(60) {
            Some(BinOp::Lt)
        } else if self.at_punct2(60, 61) {
            Some(BinOp::Le)
        } else if self.at_punct1(62) {
            Some(BinOp::Gt)
        } else if self.at_punct2(62, 61) {
            Some(BinOp::Ge)
        } else {
            None
        }
    }

    fn expr(&mut self) -> (r: Result<Expr, ParseError>)
        requires
            old(self).wf(),
        ensures
            final(self).wf(),
            final(self).tokens == old(self).tokens,
            final(self).index >= old(self).index,
            outcome(r, expr_at(old(self).t(), old(self).index as int), |e: Expr| expr_view(e), old(self).t(), final(self).index as int),
        decreases old(self).tokens@.len() - old(self).index, 70int,
    {
        self.binary_level(0)
    }

    fn binary_level(&mut self, lvl: usize) -> (r: Result<Expr, ParseError>)
        requires
            old(self).wf(),
            lvl <= 7,
        ensures
            final(self).wf(),
            final(self).tokens == old(self).tokens,
            final(self).index >= old(self).index,
            outcome(r, binary_at(old(self).t(), old(self).index as int, lvl as int), |e: Expr| expr_view(e), old(self).t(), final(self).index as int),
        decreases old(self).tokens@.len() - old(self).index, 61 - 2 * lvl,
    {
        let ghost t = self.t();
        let ghost i = self.index as int;
        let mut lhs = match self.operand(lvl) {
            Ok(e) => e,
            Err(e) => {
                return Err(e);
            },
        };
        if lvl == 2 {
            match self.comparison_op() {
                Some(op) => {
                    let span = self.span();
                    self.advance();
                    match self.operand(2) {
                        Ok(rhs) => {
                            return Ok(binary(op, lhs, rhs, span));
                        },
                        Err(e) => {
                            return Err(e);
                        },
                    }
                },
                None => {
                    return Ok(lhs);
                },
            }
        }
        let ghost goal = binary_rest(t, self.index as int, lvl as int, expr_view(lhs));
        loop
            invariant
                self.wf(),
                self.tokens == old(self).tokens,
                t == self.t(),
                i == old(self).index,
                lvl <= 7,
                lvl != 2,
                self.index >= i,
                goal == binary_at(t, i, lvl as int),
                binary_rest(t, self.index as int, lvl as int, expr_view(lhs)) == goal,
            decreases t.len() - self.index,
        {
            let op = match self.level_op(lvl) {
                Some(op) => op,
                None => {
                    return Ok(lhs);
                },
            };
            let span = self.span();
            let ghost j = self.index as int;
            self.advance();
            match self.operand(lvl) {
                Ok(rhs) => {
                    lhs = binary(op, lhs, rhs, span);
                },
                Err(e) => {
                    return Err(e);
                },
            }
        }
    }

    fn operand(&mut self, lvl: usize) -> (r: Result<Expr, ParseError>)
        requires
            old(self).wf(),
            lvl <= 7,
        ensures
            final(self).wf(),
            final(self).tokens == old(self).tokens,
            final(self).index >= old(self).index,
            outcome(r, operand_at(old(self).t(), old(self).index as int, lvl as int), |e: Expr| expr_view(e), old(self).t(), final(self).index as int),
        decreases old(self).tokens@.len() - old(self).index, 60 - 2 * lvl,
    {
        if lvl < 7 {
            self.binary_level(lvl + 1)
        } else {
            self.cast()
        }
    }

    fn cast(&mut self) -> (r: Result<Expr, ParseError>)
        requires
            old(self).wf(),
        ensures
            final(self).wf(),
            final(self).tokens == old(self).tokens,
            final(self).index >= old(self).index,
            outcome(r, cast_at(old(self).t(), old(self).index as int), |e: Expr| expr_view(e), old(self).t(), final(self).index as int),
        decreases old(self).tokens@.len() - old(self).index, 40int,
    {
        let ghost t = self.t();
        let ghost i = self.index as int;
        let mut value = match self.unary() {
            Ok(e) => e,
            Err(e) => {
                return Err(e);
            },
        };
        let ghost goal = cast_rest(t, self.index as int, expr_view(value));
        while self.at_word(Word::As)
            invariant
                self.wf(),
                self.tokens == old(self).tokens,
                t == self.t(),
                i == old(self).index,
                self.index >= i,
                goal == cast_at(t, i),
                cast_rest(t, self.index as int, expr_view(value)) == goal,
            decreases t.len() - self.index,
        {
            let span = self.span();
            self.advance();
            match self.ty() {
                Ok(ty) => {
                    value = Expr::Cast { value: Box::new(value), ty, span };
                },
                Err(e) => {
                    return Err(e);
                },
            }
        }
        Ok(value)
    }

    fn unary(&mut self) -> (r: Result<Expr, ParseError>)
        requires
            old(self).wf(),
        ensures
            final(self).wf(),
            final(self).tokens == old(self).tokens,
            final(self).index >= old(self).index,
            outcome(r, unary_at(old(self).t(), old(self).index as int), |e: Expr| expr_view(e), old(self).t(), final(self).index as int),
        decreases old(self).tokens@.len() - old(self).index, 38int,
    {
        let span = self.span();
        let op = if self.at_punct1(33) {
            UnOp::Not
        } else if self.at_punct1(45) {
            UnOp::Neg
        } else {
            return self.postfix();
        };
        self.advance();
        match self.unary() {
            Ok(operand) => Ok(Expr::Unary { op, operand: Box::new(operand), span }),
            Err(e) => Err(e),
        }
    }

    fn postfix(&mut self) -> (r: Result<Expr, ParseError>)
        requires
            old(self).wf(),
        ensures
            final(self).wf(),
            final(self).tokens == old(self).tokens,
            final(self).index >= old(self).index,
            outcome(r, postfix_at(old(self).t(), old(self).index as int), |e: Expr| expr_view(e), old(self).t(), final(self).index as int),
        decreases old(self).tokens@.len() - old(self).index, 37int,
    {
        let ghost t = self.t();
        let ghost i = self.index as int;
        let mut value = match self.primary() {
            Ok(e) => e,
            Err(e) => {
                return Err(e);
            },
        };
        let ghost goal = index_rest(t, self.index as int, expr_view(value));
        while self.at_punct1(91)
            invariant
                self.wf(),
                self.tokens == old(self).tokens,
                t == self.t(),
                i == old(self).index,
                self.index >= i,
                goal == postfix_at(t, i),
                index_rest(t, self.index as int, expr_view(value)) == goal,
            decreases t.len() - self.index,
        {
            let span = self.span();
            self.advance();
            let index = match self.expr() {
                Ok(e) => e,
                Err(e) => {
                    return Err(e);
                },
            };
            match self.expect1(93) {
                Ok(()) => {},
                Err(e) => {
                    return Err(e);
                },
            }
            value = Expr::Index { array: Box::new(value), index: Box::new(index), span };
        }
        Ok(value)
    }

    /// A comma-separated list closed by `close`, just after its opening.
    fn delimited(&mut self, close: u8) -> (r: Result<Vec<Expr>, ParseError>)
        requires
            old(self).wf(),
            close < 128,
        ensures
            final(self).wf(),
            final(self).tokens == old(self).tokens,
            final(self).index >= old(self).index,
            outcome(r, delimited_at(old(self).t(), old(self).index as int, close), |v: Vec<Expr>| exprs_view(v@), old(self).t(), final(self).index as int),
        decreases old(self).tokens@.len() - old(self).index, 81int,
    {
        let ghost t = self.t();
        let ghost i = self.index as int;
        let mut items: Vec<Expr> = Vec::new();
        if self.at_punct1(close) {
            self.advance();
            return Ok(items);
        }
        let ghost goal = list_at(t, i, Seq::empty());
        loop
            invariant_except_break
                list_at(t, self.index as int, exprs_view(items@)) == goal,
            invariant
                self.wf(),
                self.tokens == old(self).tokens,
                t == self.t(),
                i == old(self).index,
                self.index >= i,
                close < 128,
                !at_p(t, i, p1(close)),
                goal == list_at(t, i, Seq::empty()),
            ensures
                goal == Ok::<(Seq<ExprV>, int), (Seq<char>, int)>((exprs_view(items@), self.index as int)),
            decreases t.len() - self.index,
        {
            let e = match self.expr() {
                Ok(e) => e,
                Err(e) => {
                    return Err(e);
                },
            };
            let ghost before = items@;
            items.push(e);
            proof {
                assert(items@.drop_last() =~= before);
            }
            if !self.at_punct1(44) {
                break;
            }
            self.advance();
        }
        match self.expect1(close) {
            Ok(()) => Ok(items),
            Err(e) => Err(e),
        }
    }
}

impl Parser {
    fn primary(&mut self) -> (r: Result<Expr, ParseError>)
        requires
            old(self).wf(),
        ensures
            final(self).wf(),
            final(self).tokens == old(self).tokens,
            final(self).index >= old(self).index,
            outcome(r, primary_at(old(self).t(), old(self).index as int), |e: Expr| expr_view(e), old(self).t(), final(self).index as int),
        decreases old(self).tokens@.len() - old(self).index, 33int,
    {
        let span = self.span();
        match self.tok() {
            Tok::Int(v) => {
                let value = *v;
                self.advance();
                Ok(Expr::Int { value, span })
            },
            Tok::Str(bytes) => {
                let value = copy_bytes(bytes);
                self.advance();
                Ok(Expr::Str { value, span })
            },
            Tok::Punct(_) => {
                if self.at_punct1(40) {
                    self.advance();
                    let inner = match self.expr() {
                        Ok(e) => e,
                        Err(e) => {
                            return Err(e);
                        },
                    };
                    match self.expect1(41) {
                        Ok(()) => Ok(inner),
                        Err(e) => Err(e),
                    }
                } else if self.at_punct1(91) {
                    self.advance();
                    match self.delimited(93) {
                        Ok(elements) => Ok(Expr::ArrayLit { elements, span }),
                        Err(e) => Err(e),
                    }
                } else {
                    let mut message = "expected an expression, found ".to_owned();
                    message.append(describe_tok(self.tok()).as_str());
                    Err(self.error(message))
                }
            },
            Tok::Ident(name) => {
                if self.at_word(Word::True) || self.at_word(Word::False) {
                    let value = self.at_word(Word::True);
                    self.advance();
                    Ok(Expr::Bool { value, span })
                } else if is_keyword_text(name.as_str()) {
                    let mut message = "`".to_owned();
                    message.append(name.as_str());
                    message.append("` cannot start an expression");
                    proof {
                        encode_utf8_decode_utf8(name@);
                    }
                    Err(self.error(message))
                } else {
                    let name = name.clone();
                    self.advance();
                    if self.at_punct1(40) {
                        self.advance();
                        match self.delimited(41) {
                            Ok(args) => Ok(Expr::Call { name, args, span }),
                            Err(e) => Err(e),
                        }
                    } else {
                        Ok(Expr::Name { name, span })
                    }
                }
            },
            Tok::Eof => {
                let mut message = "expected an expression, found ".to_owned();
                message.append(describe_tok(self.tok()).as_str());
                Err(self.error(message))
            },
        }
    }
}

/// A copy of some bytes.
fn copy_bytes(b: &Vec<u8>) -> (r: Vec<u8>)
    ensures
        r@ == b@,
{
    let mut r: Vec<u8> = Vec::new();
    let mut k: usize = 0;
    while k < b.len()
        invariant
            k <= b@.len(),
            r@ == b@.take(k as int),
        decreases b@.len() - k,
    {
        r.push(b[k]);
        k = k + 1;
        proof {
            assert(r@ =~= b@.take(k as int));
        }
    }
    proof {
        assert(b@.take(k as int) =~= b@);
    }
    r
}

/// An optional block as plain values.
pub open spec fn opt_block_view(x: Option<Vec<Stmt>>) -> Option<Seq<StmtV>> {
    match x {
        Some(b) => Some(stmts_view(b@)),
        None => None,
    }
}

/// A declaration's name, type and initializer as plain values.
pub open spec fn declaration_view(d: (String, Option<Type>, Option<Expr>)) -> (Seq<u8>, Option<Type>, Option<ExprV>) {
    (text_bytes(d.0), d.1, opt_expr_view(d.2))
}

impl Parser {
    fn ascription(&mut self) -> (r: Result<Option<Type>, ParseError>)
        requires
            old(self).wf(),
        ensures
            final(self).wf(),
            final(self).tokens == old(self).tokens,
            final(self).index >= old(self).index,
            outcome(r, ascription_at(old(self).t(), old(self).index as int), |x: Option<Type>| x, old(self).t(), final(self).index as int),
    {
        if self.at_punct1(58) {
            self.advance();
            match self.ty() {
                Ok(ty) => Ok(Some(ty)),
                Err(e) => Err(e),
            }
        } else {
            Ok(None)
        }
    }

    fn initializer(&mut self) -> (r: Result<Option<Expr>, ParseError>)
        requires
            old(self).wf(),
        ensures
            final(self).wf(),
            final(self).tokens == old(self).tokens,
            final(self).index >= old(self).index,
            outcome(r, initializer_at(old(self).t(), old(self).index as int), |x: Option<Expr>| opt_expr_view(x), old(self).t(), final(self).index as int),
    {
        if self.at_punct1(61) {
            self.advance();
            match self.expr() {
                Ok(e) => Ok(Some(e)),
                Err(e) => Err(e),
            }
        } else {
            Ok(None)
        }
    }

    fn declaration(&mut self) -> (r: Result<(String, Option<Type>, Option<Expr>), ParseError>)
        requires
            old(self).wf(),
        ensures
            final(self).wf(),
            final(self).tokens == old(self).tokens,
            final(self).index >= old(self).index,
            r is Ok ==> final(self).index > old(self).index,
            outcome(r, declaration_at(old(self).t(), old(self).index as int), |d: (String, Option<Type>, Option<Expr>)| declaration_view(d), old(self).t(), final(self).index as int),
    {
        let name = match self.expect_ident() {
            Ok(n) => n,
            Err(e) => {
                return Err(e);
            },
        };
        let ty = match self.ascription() {
            Ok(t) => t,
            Err(e) => {
                return Err(e);
            },
        };
        let init = match self.initializer() {
            Ok(x) => x,
            Err(e) => {
                return Err(e);
            },
        };
        match self.expect1(59) {
            Ok(()) => Ok((name, ty, init)),
            Err(e) => Err(e),
        }
    }

    #[verifier::rlimit(100)]
    #[verifier::spinoff_prover]
    fn block(&mut self) -> (r: Result<Vec<Stmt>, ParseError>)
        requires
            old(self).wf(),
        ensures
            final(self).wf(),
            final(self).tokens == old(self).tokens,
            final(self).index >= old(self).index,
            r is Ok ==> final(self).index > old(self).index,
            outcome(r, block_at(old(self).t(), old(self).index as int), |v: Vec<Stmt>| stmts_view(v@), old(self).t(), final(self).index as int),
        decreases old(self).tokens@.len() - old(self).index, 2int,
    {
        let ghost t = self.t();
        let ghost i = self.index as int;
        match self.expect1(123) {
            Ok(()) => {},
            Err(e) => {
                return Err(e);
            },
        }
        let mut body: Vec<Stmt> = Vec::new();
        let ghost goal = stmts_at(t, self.index as int, Seq::empty());
        while !self.at_punct1(125)
            invariant
                self.wf(),
                self.tokens == old(self).tokens,
                t == self.t(),
                i == old(self).index,
                self.index > i,
                goal == block_at(t, i),
                stmts_at(t, self.index as int, stmts_view(body@)) == goal,
            decreases t.len() - self.index,
        {
            if matches!(self.tok(), Tok::Eof) {
                return Err(self.error("unexpected end of file inside a block".to_owned()));
            }
            match self.stmt() {
                Ok(st) => {
                    let ghost before = body@;
                    body.push(st);
                    proof {
                        assert(body@.drop_last() =~= before);
                    }
                },
                Err(e) => {
                    return Err(e);
                },
            }
        }
        self.advance();
        Ok(body)
    }

    #[verifier::rlimit(100)]
    #[verifier::spinoff_prover]
    fn stmt(&mut self) -> (r: Result<Stmt, ParseError>)
        requires
            old(self).wf(),
        ensures
            final(self).wf(),
            final(self).tokens == old(self).tokens,
            final(self).index >= old(self).index,
            r is Ok ==> final(self).index > old(self).index,
            outcome(r, stmt_at(old(self).t(), old(self).index as int), |x: Stmt| stmt_view(x), old(self).t(), final(self).index as int),
        decreases old(self).tokens@.len() - old(self).index, 4int,
    {
        proof {
            reveal(stmt_at);
        }
        let span = self.span();
        if self.at_punct1(123) {
            return match self.block() {
                Ok(body) => Ok(Stmt::Block { body, span }),
                Err(e) => Err(e),
            };
        }
        if self.at_word(Word::Let) {
            self.advance();
            return match self.declaration() {
                Ok((name, ty, init)) => Ok(Stmt::Let { name, ty, init, span }),
                Err(e) => Err(e),
            };
        }
        if self.at_word(Word::If) {
            self.advance();
            return self.if_stmt(span);
        }
        if self.at_word(Word::While) {
            self.advance();
            return self.while_rest(span);
        }
        if self.at_word(Word::Loop) {
            self.advance();
            return match self.block() {
                Ok(body) => Ok(Stmt::Loop { body, span }),
                Err(e) => Err(e),
            };
        }
        if self.at_word(Word::For) {
            self.advance();
            return self.for_rest(span);
        }
        if self.at_word(Word::Break) {
            self.advance();
            return match self.expect1(59) {
                Ok(()) => Ok(Stmt::Break { span }),
                Err(e) => Err(e),
            };
        }
        if self.at_word(Word::Continue) {
            self.advance();
            return match self.expect1(59) {
                Ok(()) => Ok(Stmt::Continue { span }),
                Err(e) => Err(e),
            };
        }
        if self.at_word(Word::Return) {
            self.advance();
            return self.return_rest(span);
        }
        self.expression_stmt(span)
    }

    /// The rest of a `while` whose keyword came just before.
    fn while_rest(&mut self, span: Span) -> (r: Result<Stmt, ParseError>)
        requires
            old(self).wf(),
        ensures
            final(self).wf(),
            final(self).tokens == old(self).tokens,
            final(self).index >= old(self).index,
            r is Ok ==> final(self).index > old(self).index,
            outcome(r, while_at(old(self).t(), old(self).index as int, span), |x: Stmt| stmt_view(x), old(self).t(), final(self).index as int),
        decreases old(self).tokens@.len() - old(self).index, 3int,
    {
        let cond = match self.expr() {
            Ok(e) => e,
            Err(e) => {
                return Err(e);
            },
        };
        match self.block() {
            Ok(body) => Ok(Stmt::While { cond, body, span }),
            Err(e) => Err(e),
        }
    }

    /// The rest of a `for` whose keyword came just before.
    fn for_rest(&mut self, span: Span) -> (r: Result<Stmt, ParseError>)
        requires
            old(self).wf(),
        ensures
            final(self).wf(),
            final(self).tokens == old(self).tokens,
            final(self).index >= old(self).index,
            r is Ok ==> final(self).index > old(self).index,
            outcome(r, for_at(old(self).t(), old(self).index as int, span), |x: Stmt| stmt_view(x), old(self).t(), final(self).index as int),
        decreases old(self).tokens@.len() - old(self).index, 3int,
    {
        let name = match self.expect_ident() {
            Ok(n) => n,
            Err(e) => {
                return Err(e);
            },
        };
        if !self.at_word(Word::In) {
            return Err(self.error("expected `in` after the loop variable".to_owned()));
        }
        self.advance();
        let start = match self.expr() {
            Ok(e) => e,
            Err(e) => {
                return Err(e);
            },
        };
        match self.expect2(46, 46) {
            Ok(()) => {},
            Err(e) => {
                return Err(e);
            },
        }
        let end = match self.expr() {
            Ok(e) => e,
            Err(e) => {
                return Err(e);
            },
        };
        match self.block() {
            Ok(body) => Ok(Stmt::For { name, start, end, body, span }),
            Err(e) => Err(e),
        }
    }

    /// The rest of a `return` whose keyword came just before.
    fn return_rest(&mut self, span: Span) -> (r: Result<Stmt, ParseError>)
        requires
            old(self).wf(),
        ensures
            final(self).wf(),
            final(self).tokens == old(self).tokens,
            final(self).index >= old(self).index,
            r is Ok ==> final(self).index > old(self).index,
            outcome(r, return_at(old(self).t(), old(self).index as int, span), |x: Stmt| stmt_view(x), old(self).t(), final(self).index as int),
    {
        let value = if self.at_punct1(59) {
            None
        } else {
            match self.expr() {
                Ok(e) => Some(e),
                Err(e) => {
                    return Err(e);
                },
            }
        };
        match self.expect1(59) {
            Ok(()) => Ok(Stmt::Return { value, span }),
            Err(e) => Err(e),
        }
    }

    /// An expression statement or an assignment at the current token.
    fn expression_stmt(&mut self, span: Span) -> (r: Result<Stmt, ParseError>)
        requires
            old(self).wf(),
        ensures
            final(self).wf(),
            final(self).tokens == old(self).tokens,
            final(self).index >= old(self).index,
            r is Ok ==> final(self).index > old(self).index,
            outcome(r, expression_stmt_at(old(self).t(), old(self).index as int, span), |x: Stmt| stmt_view(x), old(self).t(), final(self).index as int),
    {
        let expr = match self.expr() {
            Ok(e) => e,
            Err(e) => {
                return Err(e);
            },
        };
        let op_span = self.span();
        let compound = if self.at_punct1(61) {
            Some(None)
        } else if self.at_punct2(43, 61) {
            Some(Some(BinOp::Add))
        } else if self.at_punct2(45, 61) {
            Some(Some(BinOp::Sub))
        } else if self.at_punct2(42, 61) {
            Some(Some(BinOp::Mul))
        } else if self.at_punct2(47, 61) {
            Some(Some(BinOp::Div))
        } else if self.at_punct2(37, 61) {
            Some(Some(BinOp::Rem))
        } else {
            None
        };
        match compound {
            Some(op) => {
                self.advance();
                let value = match self.expr() {
                    Ok(e) => e,
                    Err(e) => {
                        return Err(e);
                    },
                };
                match self.expect1(59) {
                    Ok(()) => Ok(Stmt::Assign { target: expr, op, value, span: op_span }),
                    Err(e) => Err(e),
                }
            },
            None => match self.expect1(59) {
                Ok(()) => Ok(Stmt::Expr { expr, span }),
                Err(e) => Err(e),
            },
        }
    }

    /// The rest of an `if` whose keyword came just before, at `span`.
    fn if_stmt(&mut self, span: Span) -> (r: Result<Stmt, ParseError>)
        requires
            old(self).wf(),
        ensures
            final(self).wf(),
            final(self).tokens == old(self).tokens,
            final(self).index >= old(self).index,
            r is Ok ==> final(self).index > old(self).index,
            outcome(r, if_at(old(self).t(), old(self).index as int, span), |x: Stmt| stmt_view(x), old(self).t(), final(self).index as int),
        decreases old(self).tokens@.len() - old(self).index, 3int,
    {
        proof {
            reveal(if_at);
        }
        let cond = match self.expr() {
            Ok(e) => e,
            Err(e) => {
                return Err(e);
            },
        };
        let then_block = match self.block() {
            Ok(b) => b,
            Err(e) => {
                return Err(e);
            },
        };
        match self.else_part() {
            Ok(else_block) => Ok(Stmt::If { cond, then_block, else_block, span }),
            Err(e) => Err(e),
        }
    }

    /// An optional `else` part at the current token.
    #[verifier::rlimit(100)]
    #[verifier::spinoff_prover]
    fn else_part(&mut self) -> (r: Result<Option<Vec<Stmt>>, ParseError>)
        requires
            old(self).wf(),
        ensures
            final(self).wf(),
            final(self).tokens == old(self).tokens,
            final(self).index >= old(self).index,
            outcome(r, else_at(old(self).t(), old(self).index as int), |x: Option<Vec<Stmt>>| opt_block_view(x), old(self).t(), final(self).index as int),
        decreases old(self).tokens@.len() - old(self).index, 6int,
    {
        if !self.at_word(Word::Else) {
            return Ok(None);
        }
        self.advance();
        if self.at_word(Word::If) {
            let else_span = self.span();
            self.advance();
            match self.if_stmt(else_span) {
                Ok(chain) => {
                    let mut else_block: Vec<Stmt> = Vec::new();
                    else_block.push(chain);
                    proof {
                        assert(else_block@.drop_last() =~= Seq::<Stmt>::empty());
                        assert(stmts_view(else_block@.drop_last()) =~= Seq::<StmtV>::empty());
                        assert(stmts_view(else_block@) =~= seq![stmt_view(else_block@[0])]);
                    }
                    Ok(Some(else_block))
                },
                Err(e) => Err(e),
            }
        } else {
            match self.block() {
                Ok(b) => Ok(Some(b)),
                Err(e) => Err(e),
            }
        }
    }
}

/// A parameter list as plain values.
pub open spec fn params_view(ps: Seq<Param>) -> Seq<(Seq<u8>, Type, Span)> {
    Seq::new(ps.len(), |i: int| param_view(ps[i]))
}

impl Parser {
    fn params(&mut self) -> (r: Result<Vec<Param>, ParseError>)
        requires
            old(self).wf(),
        ensures
            final(self).wf(),
            final(self).tokens == old(self).tokens,
            final(self).index >= old(self).index,
            outcome(r, params_at(old(self).t(), old(self).index as int, Seq::empty()), |v: Vec<Param>| params_view(v@), old(self).t(), final(self).index as int),
    {
        let ghost t = self.t();
        let ghost goal = params_at(t, self.index as int, Seq::empty());
        let mut params: Vec<Param> = Vec::new();
        proof {
            assert(params_view(params@) =~= Seq::empty());
        }
        loop
            invariant_except_break
                params_at(t, self.index as int, params_view(params@)) == goal,
            invariant
                self.wf(),
                self.tokens == old(self).tokens,
                t == self.t(),
                self.index >= old(self).index,
                goal == params_at(t, old(self).index as int, Seq::empty()),
            ensures
                goal == Ok::<(Seq<(Seq<u8>, Type, Span)>, int), (Seq<char>, int)>((params_view(params@), self.index as int)),
            decreases t.len() - self.index,
        {
            let span = self.span();
            let ghost start = self.index as int;
            let name = match self.expect_ident() {
                Ok(n) => n,
                Err(e) => {
                    return Err(e);
                },
            };
            match self.expect1(58) {
                Ok(()) => {},
                Err(e) => {
                    return Err(e);
                },
            }
            let ty = match self.ty() {
                Ok(ty) => ty,
                Err(e) => {
                    return Err(e);
                },
            };
            let ghost before = params@;
            params.push(Param { name, ty, span });
            proof {
                assert(params_view(params@) =~= params_view(before).push(param_view(params@.last())));
            }
            if !self.at_punct1(44) {
                break;
            }
            self.advance();
        }
        Ok(params)
    }

    fn function(&mut self, span: Span) -> (r: Result<Function, ParseError>)
        requires
            old(self).wf(),
        ensures
            final(self).wf(),
            final(self).tokens == old(self).tokens,
            final(self).index >= old(self).index,
            r is Ok ==> final(self).index > old(self).index,
            outcome(r, function_at(old(self).t(), old(self).index as int, span), |f: Function| function_view(f), old(self).t(), final(self).index as int),
    {
        let name = match self.expect_ident() {
            Ok(n) => n,
            Err(e) => {
                return Err(e);
            },
        };
        match self.expect1(40) {
            Ok(()) => {},
            Err(e) => {
                return Err(e);
            },
        }
        let params = if self.at_punct1(41) {
            let v: Vec<Param> = Vec::new();
            proof {
                assert(params_view(v@) =~= Seq::empty());
            }
            v
        } else {
            match self.params() {
                Ok(ps) => ps,
                Err(e) => {
                    return Err(e);
                },
            }
        };
        match self.expect1(41) {
            Ok(()) => {},
            Err(e) => {
                return Err(e);
            },
        }
        let ret = if self.at_punct2(45, 62) {
            self.advance();
            match self.ty() {
                Ok(ty) => ty,
                Err(e) => {
                    return Err(e);
                },
            }
        } else {
            Type::Unit
        };
        match self.block() {
            Ok(body) => {
                let f = Function { name, params, ret, body, span };
                proof {
                    assert(function_view(f).params =~= params_view(f.params@));
                }
                Ok(f)
            },
            Err(e) => Err(e),
        }
    }

    fn import(&mut self, span: Span) -> (r: Result<Item, ParseError>)
        requires
            old(self).wf(),
        ensures
            final(self).wf(),
            final(self).tokens == old(self).tokens,
            final(self).index >= old(self).index,
            r is Ok ==> final(self).index > old(self).index,
            outcome(r, import_at(old(self).t(), old(self).index as int, span), |x: Item| item_view(x), old(self).t(), final(self).index as int),
    {
        let bytes = match self.tok() {
            Tok::Str(b) => copy_bytes(b),
            _ => {
                return Err(self.error(import_needs_path_text()));
            },
        };
        self.advance();
        if !utf8_check(bytes.as_slice()) {
            return Err(self.error("import paths must be text".to_owned()));
        }
        let path = utf8_string(bytes);
        match self.expect1(59) {
            Ok(()) => Ok(Item::Import { path, span }),
            Err(e) => Err(e),
        }
    }

    fn constant(&mut self, span: Span) -> (r: Result<Item, ParseError>)
        requires
            old(self).wf(),
        ensures
            final(self).wf(),
            final(self).tokens == old(self).tokens,
            final(self).index >= old(self).index,
            r is Ok ==> final(self).index > old(self).index,
            outcome(r, const_at(old(self).t(), old(self).index as int, span), |x: Item| item_view(x), old(self).t(), final(self).index as int),
    {
        let name = match self.expect_ident() {
            Ok(n) => n,
            Err(e) => {
                return Err(e);
            },
        };
        let ty = match self.ascription() {
            Ok(t) => t,
            Err(e) => {
                return Err(e);
            },
        };
        match self.expect1(61) {
            Ok(()) => {},
            Err(e) => {
                return Err(e);
            },
        }
        let value = match self.expr() {
            Ok(e) => e,
            Err(e) => {
                return Err(e);
            },
        };
        match self.expect1(59) {
            Ok(()) => Ok(Item::Const { name, ty, value, span }),
            Err(e) => Err(e),
        }
    }

    fn item(&mut self) -> (r: Result<Item, ParseError>)
        requires
            old(self).wf(),
        ensures
            final(self).wf(),
            final(self).tokens == old(self).tokens,
            final(self).index >= old(self).index,
            r is Ok ==> final(self).index > old(self).index,
            outcome(r, item_at(old(self).t(), old(self).index as int), |x: Item| item_view(x), old(self).t(), final(self).index as int),
    {
        proof {
            reveal(item_at);
        }
        let span = self.span();
        if self.at_word(Word::Import) {
            self.advance();
            return self.import(span);
        }
        if self.at_word(Word::Fn) {
            self.advance();
            return match self.function(span) {
                Ok(f) => Ok(Item::Function(f)),
                Err(e) => Err(e),
            };
        }
        if self.at_word(Word::Const) {
            self.advance();
            return self.constant(span);
        }
        if self.at_word(Word::Let) {
            self.advance();
            return match self.declaration() {
                Ok((name, ty, init)) => Ok(Item::Global { name, ty, init, span }),
                Err(e) => Err(e),
            };
        }
        let mut message = "expected `import`, `fn`, `const`, or `let` at the top level, found ".to_owned();
        message.append(describe_tok(self.tok()).as_str());
        Err(self.error(message))
    }
}

/// The message for a missing import path.
fn import_needs_path_text() -> (r: String)
    ensures
        r@ == import_needs_path(),
{
    "`import` needs a quoted path, as in `import \"lib.cra\";`".to_owned()
}

/// A program's items as plain values.
pub open spec fn items_view(items: Seq<Item>) -> Seq<ItemV> {
    Seq::new(items.len(), |i: int| item_view(items[i]))
}

/// Parse a token stream, as [`crate::cranium::lexer::tokenize`] makes it, into a program: its
/// items up to the end of input, or the first error with the position of the
/// token it was found at.
pub fn parse(tokens: Vec<Token>) -> (r: Result<Program, ParseError>)
    requires
        stream_ok(tokens@),
    ensures
        match items_at(tokens@, 0, Seq::empty()) {
            Ok(items) => r matches Ok(p) && program_view(p) == items,
            Err((m, at)) => r matches Err(e) && e.message@ == m && e.span == sp(tokens@, at),
        },
{
    let ghost t = tokens@;
    let mut parser = Parser { tokens, index: 0 };
    let mut items: Vec<Item> = Vec::new();
    let ghost goal = items_at(t, 0, Seq::empty());
    proof {
        assert(items_view(items@) =~= Seq::empty());
    }
    while !matches!(parser.tok(), Tok::Eof)
        invariant
            parser.wf(),
            parser.t() == t,
            t == tokens@,
            goal == items_at(t, 0, Seq::empty()),
            items_at(t, parser.index as int, items_view(items@)) == goal,
        decreases t.len() - parser.index,
    {
        let ghost i = parser.index as int;
        proof {
            assert(!(lx(t, i) is Eof));
        }
        match parser.item() {
            Ok(item) => {
                let ghost before = items@;
                items.push(item);
                proof {
                    assert(items_view(items@) =~= items_view(before).push(item_view(items@.last())));
                }
            },
            Err(e) => {
                proof {
                    assert(items_at(t, i, items_view(items@)) == match item_at(t, i) {
                        Err(x) => Err::<Seq<ItemV>, (Seq<char>, int)>(x),
                        Ok((item, j)) => if i < j <= t.len() {
                            items_at(t, j, items_view(items@).push(item))
                        } else {
                            Err((Seq::empty(), j))
                        },
                    });
                }
                return Err(e);
            },
        }
    }
    let program = Program { items };
    proof {
        assert(program_view(program) =~= items_view(program.items@));
    }
    Ok(program)
}

} // verus!
