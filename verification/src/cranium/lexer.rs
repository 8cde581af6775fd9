//! Tokenizer for Cranium source text.

use vstd::prelude::*;
use vstd::utf8::*;
use vstd::string::StringSliceAdditionalSpecFns;
use crate::bytes::{all_ascii, lemma_ascii_literal, string_from_ascii};
use crate::hypothalamus::bf::line_col;

verus! {

broadcast use vstd::seq_lib::group_seq_properties;

/// Where a token starts: which file, and the one-based line and column.
#[derive(Debug, Clone, Copy, PartialEq, Eq, Structural, Default)]
pub struct Span {
    /// Index of the file in the program's source map.
    pub file: usize,
    /// One-based line number.
    pub line: usize,
    /// One-based column number.
    pub column: usize,
}

/// A lexical token.
#[derive(Debug, Clone, PartialEq)]
pub enum Tok {
    /// Identifier or keyword.
    Ident(String),
    /// Integer literal; character literals lex to this too.
    Int(u64),
    /// String literal with escapes already resolved.
    Str(Vec<u8>),
    /// Punctuation or operator, stored as its source spelling.
    Punct(&'static str),
    /// End of input.
    Eof,
}

/// A token together with the position where it started.
#[derive(Debug, Clone, PartialEq)]
pub struct Token {
    /// The token itself.
    pub tok: Tok,
    /// Where the token starts in the source.
    pub span: Span,
}

/// A lexing failure.
#[derive(Debug, Clone, PartialEq)]
pub struct LexError {
    /// Human readable description.
    pub message: String,
    /// Where the problem was found.
    pub span: Span,
}

/// A token as plain values: identifiers and punctuation by their bytes.
pub enum Lexeme {
    Ident(Seq<u8>),
    Int(nat),
    Str(Seq<u8>),
    Punct(Seq<u8>),
    Eof,
}

/// The plain value of a token.
pub open spec fn lexeme(t: Tok) -> Lexeme {
    match t {
        Tok::Ident(s) => Lexeme::Ident(encode_utf8(s@)),
        Tok::Int(v) => Lexeme::Int(v as nat),
        Tok::Str(b) => Lexeme::Str(b@),
        Tok::Punct(p) => Lexeme::Punct(p.spec_bytes()),
        Tok::Eof => Lexeme::Eof,
    }
}


/// The line and column of byte `i` of `src`, in file 0.
pub open spec fn span_at(src: Seq<u8>, i: int) -> Span {
    Span { file: 0, line: line_col(src.take(i)).0 as usize, column: line_col(src.take(i)).1 as usize }
}

/// `u8::is_ascii_whitespace`: space, tab, line feed, form feed, carriage return.
pub open spec fn is_space(b: u8) -> bool {
    b == 32 || b == 9 || b == 10 || b == 12 || b == 13
}

/// A byte that can start an identifier.
pub open spec fn is_ident_start(b: u8) -> bool {
    (65 <= b <= 90) || (97 <= b <= 122) || b == 95
}

/// A byte that can continue an identifier.
pub open spec fn is_ident_byte(b: u8) -> bool {
    is_ident_start(b) || (48 <= b <= 57)
}

/// The first index at or after `i` that holds a line feed, or the end.
pub open spec fn line_end(src: Seq<u8>, i: int) -> int
    decreases src.len() - i,
{
    if i >= src.len() || src[i] == 10 {
        i
    } else {
        line_end(src, i + 1)
    }
}

/// The index just past the `*/` that closes a block comment whose body
/// starts at `i`, if it is closed.
pub open spec fn comment_end(src: Seq<u8>, i: int) -> Option<int>
    decreases src.len() - i,
{
    if i >= src.len() {
        None
    } else if src[i] == 42 && i + 1 < src.len() && src[i + 1] == 47 {
        Some(i + 2)
    } else {
        comment_end(src, i + 1)
    }
}

pub proof fn lemma_line_end(src: Seq<u8>, i: int)
    requires
        0 <= i,
    ensures
        i <= line_end(src, i),
        i < src.len() ==> line_end(src, i) <= src.len(),
    decreases src.len() - i,
{
    if !(i >= src.len() || src[i] == 10) {
        lemma_line_end(src, i + 1);
    }
}

pub proof fn lemma_comment_end(src: Seq<u8>, i: int)
    requires
        0 <= i,
    ensures
        comment_end(src, i) matches Some(j) ==> i + 2 <= j <= src.len(),
    decreases src.len() - i,
{
    if i < src.len() && !(src[i] == 42 && i + 1 < src.len() && src[i + 1] == 47) {
        lemma_comment_end(src, i + 1);
    }
}

/// Where the next token starts after whitespace and comments from `i`, or
/// the start of a block comment that is never closed. Line comments run to
/// the end of the line; block comments do not nest.
pub open spec fn trivia_end(src: Seq<u8>, i: int) -> Result<int, int>
    decreases src.len() - i,
{
    if 0 <= i < src.len() && is_space(src[i]) {
        trivia_end(src, i + 1)
    } else if 0 <= i && i + 1 < src.len() && src[i] == 47 && src[i + 1] == 47 {
        proof {
            lemma_line_end(src, i + 2);
        }
        trivia_end(src, line_end(src, i + 2))
    } else if 0 <= i && i + 1 < src.len() && src[i] == 47 && src[i + 1] == 42 {
        proof {
            lemma_comment_end(src, i + 2);
        }
        match comment_end(src, i + 2) {
            Some(j) => trivia_end(src, j),
            None => Err(i),
        }
    } else {
        Ok(i)
    }
}

/// The index just past the identifier bytes from `i`.
pub open spec fn ident_end(src: Seq<u8>, i: int) -> int
    decreases src.len() - i,
{
    if 0 <= i < src.len() && is_ident_byte(src[i]) {
        ident_end(src, i + 1)
    } else {
        i
    }
}

/// The value of a digit in bases up to 16, or 16 for any other byte.
pub open spec fn digit_value(b: u8) -> int {
    if 48 <= b <= 57 {
        b - 48
    } else if 97 <= b <= 102 {
        b - 87
    } else if 65 <= b <= 70 {
        b - 55
    } else {
        16
    }
}

/// The digits of a literal in `radix` from `i`, with underscores dropped,
/// and the index just past them.
pub open spec fn digits_from(src: Seq<u8>, i: int, radix: int) -> (Seq<u8>, int)
    decreases src.len() - i,
{
    if 0 <= i < src.len() && src[i] == 95 {
        digits_from(src, i + 1, radix)
    } else if 0 <= i < src.len() && digit_value(src[i]) < radix {
        let (rest, end) = digits_from(src, i + 1, radix);
        (seq![src[i]] + rest, end)
    } else {
        (Seq::empty(), i)
    }
}

/// The value of `digits` in `radix`.
pub open spec fn digits_value(digits: Seq<u8>, radix: int) -> int
    decreases digits.len(),
{
    if digits.len() == 0 {
        0
    } else {
        digits_value(digits.drop_last(), radix) * radix + digit_value(digits.last())
    }
}

/// Bytes as the characters they are in ASCII.
pub open spec fn ascii_chars(b: Seq<u8>) -> Seq<char> {
    Seq::new(b.len(), |k: int| b[k] as char)
}

/// A lexing outcome: a token and the index just past it, or an error's
/// message and the index it is reported at.
pub type Lexed<T> = Result<(T, int), (Seq<char>, int)>;

/// An integer literal from `i`: `0x` and `0b` prefixes select the base.
pub open spec fn number_at(src: Seq<u8>, i: int) -> Lexed<Lexeme> {
    let prefixed = i + 1 < src.len() && src[i] == 48 && (src[i + 1] == 120 || src[i + 1] == 88 || src[i + 1] == 98
        || src[i + 1] == 66);
    let radix = if !prefixed {
        10
    } else if src[i + 1] == 120 || src[i + 1] == 88 {
        16
    } else {
        2
    };
    let (digits, end) = digits_from(src, if prefixed {
        i + 2
    } else {
        i
    }, radix);
    if digits.len() == 0 {
        Err(("integer literal has no digits"@, i))
    } else if digits_value(digits, radix) > u64::MAX {
        Err(("integer literal `"@ + ascii_chars(digits) + "` does not fit in 64 bits"@, i))
    } else {
        Ok((Lexeme::Int(digits_value(digits, radix) as nat), end))
    }
}

/// The byte an escape at `i` (just past the backslash) stands for, and the
/// index after it.
pub open spec fn escape_at(src: Seq<u8>, i: int) -> Lexed<u8> {
    if i >= src.len() {
        Err(("unterminated escape sequence"@, i))
    } else {
        let b = src[i];
        if b == 110 {
            Ok((10u8, i + 1))
        } else if b == 114 {
            Ok((13u8, i + 1))
        } else if b == 116 {
            Ok((9u8, i + 1))
        } else if b == 48 {
            Ok((0u8, i + 1))
        } else if b == 101 {
            Ok((27u8, i + 1))
        } else if b == 92 {
            Ok((92u8, i + 1))
        } else if b == 39 {
            Ok((39u8, i + 1))
        } else if b == 34 {
            Ok((34u8, i + 1))
        } else if b == 120 {
            if !(i + 1 < src.len() && digit_value(src[i + 1]) < 16) {
                Err(("`\\x` needs two hex digits"@, i + 1))
            } else if !(i + 2 < src.len() && digit_value(src[i + 2]) < 16) {
                Err(("`\\x` needs two hex digits"@, i + 2))
            } else {
                Ok(((digit_value(src[i + 1]) * 16 + digit_value(src[i + 2])) as u8, i + 3))
            }
        } else {
            Err(("unknown escape `\\"@ + seq![b as char] + "`"@, i + 1))
        }
    }
}

/// The rest of a string literal whose body continues at `i`, after the
/// bytes `acc`; `start` is where its quote was.
pub open spec fn string_from(src: Seq<u8>, start: int, i: int, acc: Seq<u8>) -> Lexed<Seq<u8>>
    decreases src.len() - i,
{
    if i < 0 || i >= src.len() || src[i] == 10 {
        Err(("unterminated string literal"@, start))
    } else if src[i] == 34 {
        Ok((acc, i + 1))
    } else if src[i] == 92 {
        match escape_at(src, i + 1) {
            Err(e) => Err(e),
            Ok((b, j)) => string_from(src, start, j, acc.push(b)),
        }
    } else {
        string_from(src, start, i + 1, acc.push(src[i]))
    }
}

/// A character literal whose quote is at `i`.
pub open spec fn char_at(src: Seq<u8>, i: int) -> Lexed<Lexeme> {
    let p = i + 1;
    if p >= src.len() || src[p] == 10 {
        Err(("unterminated character literal"@, p))
    } else {
        let value: Lexed<u8> = if src[p] == 92 {
            escape_at(src, p + 1)
        } else {
            Ok((src[p], p + 1))
        };
        match value {
            Err(e) => Err(e),
            Ok((v, q)) => if q < src.len() && src[q] == 39 {
                Ok((Lexeme::Int(v as nat), q + 1))
            } else {
                Err(("character literal must contain exactly one byte"@, q))
            },
        }
    }
}

/// The operator or punctuation at `i`, longest first.
pub open spec fn punct_at(src: Seq<u8>, i: int) -> Lexed<Lexeme> {
    if i + 1 < src.len() && is_punct2(src[i], src[i + 1]) {
        Ok((Lexeme::Punct(src.subrange(i, i + 2)), i + 2))
    } else if is_punct1(src[i]) {
        Ok((Lexeme::Punct(src.subrange(i, i + 1)), i + 1))
    } else {
        Err(("unexpected character `"@ + seq![src[i] as char] + "`"@, i))
    }
}

/// The two-byte operators: `&& || == != <= >= += -= *= /= %= .. -> << >>`.
pub open spec fn is_punct2(a: u8, b: u8) -> bool {
    (a == 38 && b == 38) || (a == 124 && b == 124) || (a == 61 && b == 61) || (a == 33 && b == 61) || (a == 60 && b == 61) || (a == 62 && b == 61) || (a == 43 && b == 61) || (a == 45 && b == 61) || (a == 42 && b == 61) || (a == 47 && b == 61) || (a == 37 && b == 61) || (a == 46 && b == 46) || (a == 45 && b == 62) || (a == 60 && b == 60) || (a == 62 && b == 62)
}

/// The one-byte operators and punctuation: `+ - * / % = < > ! ( ) { } [ ] , ; : & | ^`.
pub open spec fn is_punct1(a: u8) -> bool {
    a == 43 || a == 45 || a == 42 || a == 47 || a == 37 || a == 61 || a == 60 || a == 62 || a == 33 || a == 40 || a == 41 || a == 123 || a == 125 || a == 91 || a == 93 || a == 44 || a == 59 || a == 58 || a == 38 || a == 124 || a == 94
}

/// The two-byte operator spelled `a b`, if there is one.
fn punct2(a: u8, b: u8) -> (r: Option<&'static str>)
    ensures
        r is Some <==> is_punct2(a, b),
        r matches Some(s) ==> s.spec_bytes() == seq![a, b],
{
    if a == 38 && b == 38 {
        let r: &'static str = "&&";
        proof {
            reveal_strlit("&&");
            lemma_ascii_literal(r);
            assert(r.spec_bytes() =~= seq![a, b]);
        }
        return Some(r);
    }
    if a == 124 && b == 124 {
        let r: &'static str = "||";
        proof {
            reveal_strlit("||");
            lemma_ascii_literal(r);
            assert(r.spec_bytes() =~= seq![a, b]);
        }
        return Some(r);
    }
    if a == 61 && b == 61 {
        let r: &'static str = "==";
        proof {
            reveal_strlit("==");
            lemma_ascii_literal(r);
            assert(r.spec_bytes() =~= seq![a, b]);
        }
        return Some(r);
    }
    if a == 33 && b == 61 {
        let r: &'static str = "!=";
        proof {
            reveal_strlit("!=");
            lemma_ascii_literal(r);
            assert(r.spec_bytes() =~= seq![a, b]);
        }
        return Some(r);
    }
    if a == 60 && b == 61 {
        let r: &'static str = "<=";
        proof {
            reveal_strlit("<=");
            lemma_ascii_literal(r);
            assert(r.spec_bytes() =~= seq![a, b]);
        }
        return Some(r);
    }
    if a == 62 && b == 61 {
        let r: &'static str = ">=";
        proof {
            reveal_strlit(">=");
            lemma_ascii_literal(r);
            assert(r.spec_bytes() =~= seq![a, b]);
        }
        return Some(r);
    }
    if a == 43 && b == 61 {
        let r: &'static str = "+=";
        proof {
            reveal_strlit("+=");
            lemma_ascii_literal(r);
            assert(r.spec_bytes() =~= seq![a, b]);
        }
        return Some(r);
    }
    if a == 45 && b == 61 {
        let r: &'static str = "-=";
        proof {
            reveal_strlit("-=");
            lemma_ascii_literal(r);
            assert(r.spec_bytes() =~= seq![a, b]);
        }
        return Some(r);
    }
    if a == 42 && b == 61 {
        let r: &'static str = "*=";
        proof {
            reveal_strlit("*=");
            lemma_ascii_literal(r);
            assert(r.spec_bytes() =~= seq![a, b]);
        }
        return Some(r);
    }
    if a == 47 && b == 61 {
        let r: &'static str = "/=";
        proof {
            reveal_strlit("/=");
            lemma_ascii_literal(r);
            assert(r.spec_bytes() =~= seq![a, b]);
        }
        return Some(r);
    }
    if a == 37 && b == 61 {
        let r: &'static str = "%=";
        proof {
            reveal_strlit("%=");
            lemma_ascii_literal(r);
            assert(r.spec_bytes() =~= seq![a, b]);
        }
        return Some(r);
    }
    if a == 46 && b == 46 {
        let r: &'static str = "..";
        proof {
            reveal_strlit("..");
            lemma_ascii_literal(r);
            assert(r.spec_bytes() =~= seq![a, b]);
        }
        return Some(r);
    }
    if a == 45 && b == 62 {
        let r: &'static str = "->";
        proof {
            reveal_strlit("->");
            lemma_ascii_literal(r);
            assert(r.spec_bytes() =~= seq![a, b]);
        }
        return Some(r);
    }
    if a == 60 && b == 60 {
        let r: &'static str = "<<";
        proof {
            reveal_strlit("<<");
            lemma_ascii_literal(r);
            assert(r.spec_bytes() =~= seq![a, b]);
        }
        return Some(r);
    }
    if a == 62 && b == 62 {
        let r: &'static str = ">>";
        proof {
            reveal_strlit(">>");
            lemma_ascii_literal(r);
            assert(r.spec_bytes() =~= seq![a, b]);
        }
        return Some(r);
    }
    None
}

/// The one-byte operator spelled `a`, if there is one.
fn punct1(a: u8) -> (r: Option<&'static str>)
    ensures
        r is Some <==> is_punct1(a),
        r matches Some(s) ==> s.spec_bytes() == seq![a],
{
    if a == 43 {
        let r: &'static str = "+";
        proof {
            reveal_strlit("+");
            lemma_ascii_literal(r);
            assert(r.spec_bytes() =~= seq![a]);
        }
        return Some(r);
    }
    if a == 45 {
        let r: &'static str = "-";
        proof {
            reveal_strlit("-");
            lemma_ascii_literal(r);
            assert(r.spec_bytes() =~= seq![a]);
        }
        return Some(r);
    }
    if a == 42 {
        let r: &'static str = "*";
        proof {
            reveal_strlit("*");
            lemma_ascii_literal(r);
            assert(r.spec_bytes() =~= seq![a]);
        }
        return Some(r);
    }
    if a == 47 {
        let r: &'static str = "/";
        proof {
            reveal_strlit("/");
            lemma_ascii_literal(r);
            assert(r.spec_bytes() =~= seq![a]);
        }
        return Some(r);
    }
    if a == 37 {
        let r: &'static str = "%";
        proof {
            reveal_strlit("%");
            lemma_ascii_literal(r);
            assert(r.spec_bytes() =~= seq![a]);
        }
        return Some(r);
    }
    if a == 61 {
        let r: &'static str = "=";
        proof {
            reveal_strlit("=");
            lemma_ascii_literal(r);
            assert(r.spec_bytes() =~= seq![a]);
        }
        return Some(r);
    }
    if a == 60 {
        let r: &'static str = "<";
        proof {
            reveal_strlit("<");
            lemma_ascii_literal(r);
            assert(r.spec_bytes() =~= seq![a]);
        }
        return Some(r);
    }
    if a == 62 {
        let r: &'static str = ">";
        proof {
            reveal_strlit(">");
            lemma_ascii_literal(r);
            assert(r.spec_bytes() =~= seq![a]);
        }
        return Some(r);
    }
    if a == 33 {
        let r: &'static str = "!";
        proof {
            reveal_strlit("!");
            lemma_ascii_literal(r);
            assert(r.spec_bytes() =~= seq![a]);
        }
        return Some(r);
    }
    if a == 40 {
        let r: &'static str = "(";
        proof {
            reveal_strlit("(");
            lemma_ascii_literal(r);
            assert(r.spec_bytes() =~= seq![a]);
        }
        return Some(r);
    }
    if a == 41 {
        let r: &'static str = ")";
        proof {
            reveal_strlit(")");
            lemma_ascii_literal(r);
            assert(r.spec_bytes() =~= seq![a]);
        }
        return Some(r);
    }
    if a == 123 {
        let r: &'static str = "{";
        proof {
            reveal_strlit("{");
            lemma_ascii_literal(r);
            assert(r.spec_bytes() =~= seq![a]);
        }
        return Some(r);
    }
    if a == 125 {
        let r: &'static str = "}";
        proof {
            reveal_strlit("}");
            lemma_ascii_literal(r);
            assert(r.spec_bytes() =~= seq![a]);
        }
        return Some(r);
    }
    if a == 91 {
        let r: &'static str = "[";
        proof {
            reveal_strlit("[");
            lemma_ascii_literal(r);
            assert(r.spec_bytes() =~= seq![a]);
        }
        return Some(r);
    }
    if a == 93 {
        let r: &'static str = "]";
        proof {
            reveal_strlit("]");
            lemma_ascii_literal(r);
            assert(r.spec_bytes() =~= seq![a]);
        }
        return Some(r);
    }
    if a == 44 {
        let r: &'static str = ",";
        proof {
            reveal_strlit(",");
            lemma_ascii_literal(r);
            assert(r.spec_bytes() =~= seq![a]);
        }
        return Some(r);
    }
    if a == 59 {
        let r: &'static str = ";";
        proof {
            reveal_strlit(";");
            lemma_ascii_literal(r);
            assert(r.spec_bytes() =~= seq![a]);
        }
        return Some(r);
    }
    if a == 58 {
        let r: &'static str = ":";
        proof {
            reveal_strlit(":");
            lemma_ascii_literal(r);
            assert(r.spec_bytes() =~= seq![a]);
        }
        return Some(r);
    }
    if a == 38 {
        let r: &'static str = "&";
        proof {
            reveal_strlit("&");
            lemma_ascii_literal(r);
            assert(r.spec_bytes() =~= seq![a]);
        }
        return Some(r);
    }
    if a == 124 {
        let r: &'static str = "|";
        proof {
            reveal_strlit("|");
            lemma_ascii_literal(r);
            assert(r.spec_bytes() =~= seq![a]);
        }
        return Some(r);
    }
    if a == 94 {
        let r: &'static str = "^";
        proof {
            reveal_strlit("^");
            lemma_ascii_literal(r);
            assert(r.spec_bytes() =~= seq![a]);
        }
        return Some(r);
    }
    None
}

/// The token that starts at `i`, a byte that is not trivia.
pub open spec fn token_at(src: Seq<u8>, i: int) -> Lexed<Lexeme> {
    let b = src[i];
    if is_ident_start(b) {
        Ok((Lexeme::Ident(src.subrange(i, ident_end(src, i))), ident_end(src, i)))
    } else if 48 <= b <= 57 {
        number_at(src, i)
    } else if b == 34 {
        match string_from(src, i, i + 1, Seq::empty()) {
            Err(e) => Err(e),
            Ok((s, j)) => Ok((Lexeme::Str(s), j)),
        }
    } else if b == 39 {
        char_at(src, i)
    } else {
        punct_at(src, i)
    }
}

pub proof fn lemma_trivia_end(src: Seq<u8>, i: int)
    requires
        0 <= i <= src.len(),
    ensures
        trivia_end(src, i) matches Ok(j) ==> i <= j <= src.len(),
        trivia_end(src, i) matches Err(j) ==> i <= j < src.len(),
    decreases src.len() - i,
{
    if 0 <= i < src.len() && is_space(src[i]) {
        lemma_trivia_end(src, i + 1);
    } else if 0 <= i && i + 1 < src.len() && src[i] == 47 && src[i + 1] == 47 {
        lemma_line_end(src, i + 2);
        lemma_trivia_end(src, line_end(src, i + 2));
    } else if 0 <= i && i + 1 < src.len() && src[i] == 47 && src[i + 1] == 42 {
        lemma_comment_end(src, i + 2);
        if let Some(j) = comment_end(src, i + 2) {
            lemma_trivia_end(src, j);
        }
    }
}

pub proof fn lemma_ident_end(src: Seq<u8>, i: int)
    requires
        0 <= i <= src.len(),
    ensures
        i <= ident_end(src, i) <= src.len(),
        forall|k: int| i <= k < ident_end(src, i) ==> is_ident_byte(#[trigger] src[k]),
        ident_end(src, i) < src.len() ==> !is_ident_byte(src[ident_end(src, i)]),
    decreases src.len() - i,
{
    if 0 <= i < src.len() && is_ident_byte(src[i]) {
        lemma_ident_end(src, i + 1);
    }
}

pub proof fn lemma_digits_from(src: Seq<u8>, i: int, radix: int)
    requires
        0 <= i <= src.len(),
    ensures
        i <= digits_from(src, i, radix).1 <= src.len(),
        digits_from(src, i, radix).0.len() <= digits_from(src, i, radix).1 - i,
    decreases src.len() - i,
{
    if 0 <= i < src.len() && (src[i] == 95 || digit_value(src[i]) < radix) {
        lemma_digits_from(src, i + 1, radix);
    }
}

pub proof fn lemma_string_from(src: Seq<u8>, start: int, i: int, acc: Seq<u8>)
    requires
        0 <= i <= src.len(),
    ensures
        string_from(src, start, i, acc) matches Ok((s, j)) ==> i < j <= src.len(),
    decreases src.len() - i,
{
    if !(i < 0 || i >= src.len() || src[i] == 10) && src[i] != 34 {
        if src[i] == 92 {
            if let Ok((b, j)) = escape_at(src, i + 1) {
                lemma_string_from(src, start, j, acc.push(b));
            }
        } else {
            lemma_string_from(src, start, i + 1, acc.push(src[i]));
        }
    }
}

pub proof fn lemma_token_at(src: Seq<u8>, i: int)
    requires
        0 <= i < src.len(),
    ensures
        token_at(src, i) matches Ok((t, j)) ==> i < j <= src.len(),
{
    lemma_ident_end(src, i);
    lemma_string_from(src, i, i + 1, Seq::empty());
    let prefixed = i + 1 < src.len() && src[i] == 48 && (src[i + 1] == 120 || src[i + 1] == 88 || src[i + 1] == 98
        || src[i + 1] == 66);
    lemma_digits_from(src, if prefixed { i + 2 } else { i }, if !prefixed {
        10
    } else if src[i + 1] == 120 || src[i + 1] == 88 {
        16
    } else {
        2
    });
}

/// The tokens from `i` on, each with the index it starts at, ending with
/// the end-of-input token; or the first error.
pub open spec fn lex_from(src: Seq<u8>, i: int) -> Result<Seq<(Lexeme, int)>, (Seq<char>, int)>
    decreases src.len() - i,
{
    if i < 0 || i > src.len() {
        Ok(Seq::empty())
    } else {
        proof {
            lemma_trivia_end(src, i);
        }
        match trivia_end(src, i) {
            Err(at) => Err(("unterminated block comment"@, at)),
            Ok(j) => if j >= src.len() {
                Ok(seq![(Lexeme::Eof, j)])
            } else {
                proof {
                    lemma_token_at(src, j);
                }
                match token_at(src, j) {
                    Err(e) => Err(e),
                    Ok((t, k)) => match lex_from(src, k) {
                        Ok(rest) => Ok(seq![(t, j)] + rest),
                        Err(e) => Err(e),
                    },
                }
            },
        }
    }
}

/// A successful lexing run ends with the end-of-input token.
pub proof fn lemma_lexed_ends_with_eof(src: Seq<u8>, i: int)
    requires
        0 <= i <= src.len(),
        lex_from(src, i) is Ok,
    ensures
        lex_from(src, i)->Ok_0.len() >= 1,
        lex_from(src, i)->Ok_0.last().0 is Eof,
    decreases src.len() - i,
{
    lemma_trivia_end(src, i);
    match trivia_end(src, i) {
        Err(_) => {},
        Ok(j) => {
            if j < src.len() {
                lemma_token_at(src, j);
                match token_at(src, j) {
                    Err(_) => {},
                    Ok((t, k)) => {
                        lemma_lexed_ends_with_eof(src, k);
                        let rest = lex_from(src, k)->Ok_0;
                        assert((seq![(t, j)] + rest).last() == rest.last());
                    },
                }
            }
        },
    }
}

/// The same tokens, each marked as coming from file `file`.
pub fn in_file(tokens: Vec<Token>, file: usize) -> (r: Vec<Token>)
    ensures
        r@.len() == tokens@.len(),
        forall|k: int| 0 <= k < r@.len() ==> (#[trigger] r@[k]).tok == tokens@[k].tok && r@[k].span.file == file
            && r@[k].span.line == tokens@[k].span.line && r@[k].span.column == tokens@[k].span.column,
{
    let mut out: Vec<Token> = Vec::new();
    let mut rest = tokens;
    let ghost all = rest@;
    let mut k: usize = 0;
    let n = rest.len();
    let mut reversed: Vec<Token> = Vec::new();
    while rest.len() > 0
        invariant
            rest@.len() + reversed@.len() == n,
            n == all.len(),
            rest@ == all.take(rest@.len() as int),
            forall|m: int| 0 <= m < reversed@.len() ==> (#[trigger] reversed@[m]).tok == all[n - 1 - m].tok
                && reversed@[m].span.file == file && reversed@[m].span.line == all[n - 1 - m].span.line
                && reversed@[m].span.column == all[n - 1 - m].span.column,
        decreases rest@.len(),
    {
        let t = rest.pop().unwrap();
        proof {
            assert(rest@ =~= all.take(rest@.len() as int));
        }
        reversed.push(Token { tok: t.tok, span: Span { file, line: t.span.line, column: t.span.column } });
    }
    while reversed.len() > 0
        invariant
            reversed@.len() + out@.len() == n,
            n == all.len(),
            forall|m: int| 0 <= m < reversed@.len() ==> (#[trigger] reversed@[m]).tok == all[n - 1 - m].tok
                && reversed@[m].span.file == file && reversed@[m].span.line == all[n - 1 - m].span.line
                && reversed@[m].span.column == all[n - 1 - m].span.column,
            forall|m: int| 0 <= m < out@.len() ==> (#[trigger] out@[m]).tok == all[m].tok && out@[m].span.file == file
                && out@[m].span.line == all[m].span.line && out@[m].span.column == all[m].span.column,
        decreases reversed@.len(),
    {
        let t = reversed.pop().unwrap();
        out.push(t);
    }
    out
}

/// `char::to_string`: the one-character string.
#[verifier::external_body]
pub(crate) fn char_text(c: char) -> (s: String)
    ensures
        s@ == seq![c],
{
    c.to_string()
}

/// Line and column grow by at most one per byte.
pub proof fn lemma_line_col_bounds(s: Seq<u8>)
    ensures
        1 <= line_col(s).0 <= s.len() + 1,
        1 <= line_col(s).1 <= s.len() + 1,
    decreases s.len(),
{
    if s.len() > 0 {
        lemma_line_col_bounds(s.drop_last());
    }
}

/// The value of a digit in bases up to 16, or 16 for any other byte.
fn digit_of(b: u8) -> (r: u32)
    ensures
        r == digit_value(b),
{
    if 48 <= b && b <= 57 {
        (b - 48) as u32
    } else if 97 <= b && b <= 102 {
        (b - 87) as u32
    } else if 65 <= b && b <= 70 {
        (b - 55) as u32
    } else {
        16
    }
}

/// A prefix of a literal's digits is worth no more than all of them.
proof fn lemma_digits_grow(d: Seq<u8>, k: int, radix: int)
    requires
        0 <= k <= d.len(),
        radix >= 1,
        forall|i: int| 0 <= i < d.len() ==> digit_value(#[trigger] d[i]) < radix,
    ensures
        0 <= digits_value(d.take(k), radix) <= digits_value(d, radix),
    decreases d.len(),
{
    if k < d.len() {
        lemma_digits_grow(d.drop_last(), k, radix);
        assert(d.drop_last().take(k) =~= d.take(k));
        let v = digits_value(d.drop_last(), radix);
        assert(v * radix >= v) by (nonlinear_arith)
            requires
                v >= 0,
                radix >= 1,
        ;
    } else {
        assert(d.take(k) =~= d);
        lemma_digits_grow_nonneg(d, radix);
    }
}

proof fn lemma_digits_grow_nonneg(d: Seq<u8>, radix: int)
    requires
        radix >= 1,
        forall|i: int| 0 <= i < d.len() ==> digit_value(#[trigger] d[i]) < radix,
    ensures
        0 <= digits_value(d, radix),
    decreases d.len(),
{
    if d.len() > 0 {
        lemma_digits_grow_nonneg(d.drop_last(), radix);
        let v = digits_value(d.drop_last(), radix);
        assert(v * radix >= 0) by (nonlinear_arith)
            requires
                v >= 0,
                radix >= 1,
        ;
    }
}

/// The value of `digits` in `radix`, if it fits in 64 bits.
fn digits_to_u64(digits: &Vec<u8>, radix: u32) -> (r: Option<u64>)
    requires
        radix >= 1,
        forall|i: int| 0 <= i < digits@.len() ==> digit_value(#[trigger] digits@[i]) < radix,
    ensures
        r matches Some(v) ==> v == digits_value(digits@, radix as int),
        r is None <==> digits_value(digits@, radix as int) > u64::MAX,
{
    let mut value: u64 = 0;
    let mut k: usize = 0;
    while k < digits.len()
        invariant
            radix >= 1,
            forall|i: int| 0 <= i < digits@.len() ==> digit_value(#[trigger] digits@[i]) < radix,
            k <= digits@.len(),
            value == digits_value(digits@.take(k as int), radix as int),
        decreases digits@.len() - k,
    {
        proof {
            assert(digits@.take(k + 1).drop_last() =~= digits@.take(k as int));
            assert(digits@.take(k + 1).last() == digits@[k as int]);
        }
        let d = digit_of(digits[k]);
        let next = match value.checked_mul(radix as u64) {
            Some(m) => m.checked_add(d as u64),
            None => None,
        };
        match next {
            Some(v) => {
                value = v;
            },
            None => {
                proof {
                    lemma_digits_grow(digits@, k + 1, radix as int);
                }
                return None;
            },
        }
        k = k + 1;
    }
    proof {
        assert(digits@.take(k as int) =~= digits@);
    }
    Some(value)
}

/// Where lexing has got to.
struct Lexer<'a> {
    src: &'a [u8],
    index: usize,
    line: usize,
    column: usize,
}

impl<'a> Lexer<'a> {
    spec fn wf(&self) -> bool {
        &&& self.index <= self.src@.len()
        &&& self.src@.len() <= isize::MAX
        &&& self.line == line_col(self.src@.take(self.index as int)).0
        &&& self.column == line_col(self.src@.take(self.index as int)).1
    }

    fn span(&self) -> (r: Span)
        requires
            self.wf(),
        ensures
            r == span_at(self.src@, self.index as int),
    {
        Span { file: 0, line: self.line, column: self.column }
    }

    fn error(&self, message: String) -> (r: LexError)
        requires
            self.wf(),
        ensures
            r.message@ == message@,
            r.span == span_at(self.src@, self.index as int),
    {
        LexError { message, span: self.span() }
    }

    fn peek(&self) -> (r: Option<u8>)
        requires
            self.wf(),
        ensures
            r == if self.index < self.src@.len() {
                Some(self.src@[self.index as int])
            } else {
                None::<u8>
            },
    {
        if self.index < self.src.len() {
            Some(self.src[self.index])
        } else {
            None
        }
    }

    fn peek_at(&self, offset: usize) -> (r: Option<u8>)
        requires
            self.wf(),
            offset <= 2,
        ensures
            r == if self.index + offset < self.src@.len() {
                Some(self.src@[self.index + offset])
            } else {
                None::<u8>
            },
    {
        if offset < self.src.len() - self.index {
            Some(self.src[self.index + offset])
        } else {
            None
        }
    }

    fn bump(&mut self)
        requires
            old(self).wf(),
            old(self).index < old(self).src@.len(),
        ensures
            final(self).wf(),
            final(self).src == old(self).src,
            final(self).index == old(self).index + 1,
    {
        let byte = self.src[self.index];
        proof {
            let t = self.src@.take(self.index + 1);
            assert(t.drop_last() =~= self.src@.take(self.index as int));
            lemma_line_col_bounds(self.src@.take(self.index as int));
        }
        self.index = self.index + 1;
        if byte == 10 {
            self.line = self.line + 1;
            self.column = 1;
        } else {
            self.column = self.column + 1;
        }
    }

    fn skip_line(&mut self)
        requires
            old(self).wf(),
        ensures
            final(self).wf(),
            final(self).src == old(self).src,
            final(self).index == line_end(old(self).src@, old(self).index as int),
    {
        let ghost stop = line_end(self.src@, self.index as int);
        while self.index < self.src.len() && self.src[self.index] != 10
            invariant
                self.wf(),
                self.src == old(self).src,
                stop == line_end(old(self).src@, old(self).index as int),
                line_end(self.src@, self.index as int) == stop,
            decreases self.src@.len() - self.index,
        {
            self.bump();
        }
    }

    fn skip_block(&mut self) -> (r: bool)
        requires
            old(self).wf(),
        ensures
            final(self).wf(),
            final(self).src == old(self).src,
            match comment_end(old(self).src@, old(self).index as int) {
                Some(j) => r && final(self).index == j,
                None => !r,
            },
    {
        let ghost close = comment_end(self.src@, self.index as int);
        while self.index < self.src.len()
            invariant
                self.wf(),
                self.src == old(self).src,
                close == comment_end(old(self).src@, old(self).index as int),
                comment_end(self.src@, self.index as int) == close,
            decreases self.src@.len() - self.index,
        {
            if self.src[self.index] == 42 && self.peek_at(1) == Some(47u8) {
                self.bump();
                self.bump();
                return true;
            }
            self.bump();
        }
        false
    }

    fn skip_trivia(&mut self) -> (r: Result<(), LexError>)
        requires
            old(self).wf(),
        ensures
            final(self).wf(),
            final(self).src == old(self).src,
            match trivia_end(old(self).src@, old(self).index as int) {
                Ok(j) => r is Ok && final(self).index == j,
                Err(at) => r matches Err(e) && e.message@ == "unterminated block comment"@ && e.span == span_at(
                    old(self).src@,
                    at,
                ),
            },
    {
        let ghost goal = trivia_end(self.src@, self.index as int);
        loop
            invariant
                self.wf(),
                self.src == old(self).src,
                goal == trivia_end(old(self).src@, old(self).index as int),
                trivia_end(self.src@, self.index as int) == goal,
            decreases self.src@.len() - self.index,
        {
            let here = self.peek();
            let next = self.peek_at(1);
            if let Some(b) = here {
                if b == 32 || b == 9 || b == 10 || b == 12 || b == 13 {
                    self.bump();
                } else if b == 47 && next == Some(47u8) {
                    self.bump();
                    self.bump();
                    proof {
                        lemma_line_end(self.src@, self.index as int);
                    }
                    self.skip_line();
                } else if b == 47 && next == Some(42u8) {
                    let start = self.span();
                    self.bump();
                    self.bump();
                    proof {
                        lemma_comment_end(self.src@, self.index as int);
                    }
                    if !self.skip_block() {
                        return Err(LexError { message: "unterminated block comment".to_owned(), span: start });
                    }
                } else {
                    return Ok(());
                }
            } else {
                return Ok(());
            }
        }
    }
}

impl<'a> Lexer<'a> {
    fn lex_ident(&mut self) -> (r: Tok)
        requires
            old(self).wf(),
        ensures
            final(self).wf(),
            final(self).src == old(self).src,
            final(self).index == ident_end(old(self).src@, old(self).index as int),
            lexeme(r) == Lexeme::Ident(old(self).src@.subrange(old(self).index as int, final(self).index as int)),
    {
        let start = self.index;
        let mut bytes: Vec<u8> = Vec::new();
        let ghost stop = ident_end(self.src@, self.index as int);
        proof {
            lemma_ident_end(self.src@, self.index as int);
        }
        while self.index < self.src.len() && is_ident_char(self.src[self.index])
            invariant
                self.wf(),
                self.src == old(self).src,
                start == old(self).index,
                start <= self.index,
                stop == ident_end(self.src@, start as int),
                ident_end(self.src@, self.index as int) == stop,
                bytes@ == self.src@.subrange(start as int, self.index as int),
                forall|k: int| 0 <= k < bytes@.len() ==> is_ident_byte(#[trigger] bytes@[k]),
            decreases self.src@.len() - self.index,
        {
            bytes.push(self.src[self.index]);
            self.bump();
            proof {
                assert(bytes@ =~= self.src@.subrange(start as int, self.index as int));
            }
        }
        proof {
            assert(all_ascii(bytes@)) by {
                assert forall|k: int| 0 <= k < bytes@.len() implies bytes@[k] < 128 by {
                    assert(is_ident_byte(bytes@[k]));
                }
            }
        }
        let ghost b = bytes@;
        let text = string_from_ascii(bytes);
        Tok::Ident(text)
    }

    fn lex_number(&mut self) -> (r: Result<Tok, LexError>)
        requires
            old(self).wf(),
            old(self).index < old(self).src@.len(),
        ensures
            final(self).wf(),
            final(self).src == old(self).src,
            match number_at(old(self).src@, old(self).index as int) {
                Ok((t, j)) => r matches Ok(tok) && lexeme(tok) == t && final(self).index == j,
                Err((m, at)) => r matches Err(e) && e.message@ == m && e.span == span_at(old(self).src@, at),
            },
    {
        let ghost src = self.src@;
        let ghost i = self.index as int;
        let span = self.span();
        let first = self.peek();
        let second = self.peek_at(1);
        let prefixed = first == Some(48u8) && (second == Some(120u8) || second == Some(88u8) || second == Some(98u8)
            || second == Some(66u8));
        let radix: u32 = if !prefixed {
            10
        } else if second == Some(120u8) || second == Some(88u8) {
            16
        } else {
            2
        };
        if prefixed {
            self.bump();
            self.bump();
        }
        let ghost from = self.index as int;
        let ghost target = digits_from(src, from, radix as int);
        proof {
            lemma_digits_from(src, from, radix as int);
        }
        let mut digits: Vec<u8> = Vec::new();
        while self.index < self.src.len()
            invariant
                self.wf(),
                self.src == old(self).src,
                src == self.src@,
                from <= self.index,
                target == digits_from(src, from, radix as int),
                target == (digits@ + digits_from(src, self.index as int, radix as int).0, digits_from(
                    src,
                    self.index as int,
                    radix as int,
                ).1),
                forall|k: int| 0 <= k < digits@.len() ==> digit_value(#[trigger] digits@[k]) < radix,
            ensures
                self.wf(),
                self.src == old(self).src,
                src == self.src@,
                target == (digits@ + digits_from(src, self.index as int, radix as int).0, digits_from(
                    src,
                    self.index as int,
                    radix as int,
                ).1),
                forall|k: int| 0 <= k < digits@.len() ==> digit_value(#[trigger] digits@[k]) < radix,
                digits_from(src, self.index as int, radix as int).0.len() == 0,
                digits_from(src, self.index as int, radix as int).1 == self.index,
            decreases src.len() - self.index,
        {
            let byte = self.src[self.index];
            if byte == 95 {
                self.bump();
            } else if digit_of(byte) < radix {
                let ghost before = digits@;
                digits.push(byte);
                self.bump();
                proof {
                    let rest = digits_from(src, self.index as int, radix as int);
                    assert(digits@ + rest.0 =~= before + (seq![byte] + rest.0));
                }
            } else {
                break;
            }
        }
        proof {
            assert(digits@ + digits_from(src, self.index as int, radix as int).0 =~= digits@);
            assert(target.0 == digits@);
            assert(target.1 == self.index);
            assert(from == if prefixed { i + 2 } else { i });
            assert(span == span_at(src, i));
            let p = i + 1 < src.len() && src[i] == 48 && (src[i + 1] == 120 || src[i + 1] == 88 || src[i + 1] == 98
                || src[i + 1] == 66);
            assert(p == prefixed);
        }
        if digits.len() == 0 {
            return Err(LexError { message: "integer literal has no digits".to_owned(), span });
        }
        match digits_to_u64(&digits, radix) {
            Some(value) => Ok(Tok::Int(value)),
            None => {
                let mut message = "integer literal `".to_owned();
                let mut k: usize = 0;
                while k < digits.len()
                    invariant
                        k <= digits@.len(),
                        message@ == "integer literal `"@ + ascii_chars(digits@.take(k as int)),
                    decreases digits@.len() - k,
                {
                    let c = char_text(digits[k] as char);
                    message.append(c.as_str());
                    k = k + 1;
                    proof {
                        assert(ascii_chars(digits@.take(k as int)) =~= ascii_chars(digits@.take(k - 1)).push(
                            digits@[k - 1] as char,
                        ));
                    }
                }
                message.append("` does not fit in 64 bits");
                proof {
                    assert(digits@.take(k as int) =~= digits@);
                }
                Err(LexError { message, span })
            },
        }
    }
}

/// Whether a byte continues an identifier.
fn is_ident_char(b: u8) -> (r: bool)
    ensures
        r == is_ident_byte(b),
{
    (65 <= b && b <= 90) || (97 <= b && b <= 122) || b == 95 || (48 <= b && b <= 57)
}

impl<'a> Lexer<'a> {
    /// The value of the hex digit at the current byte, or 16.
    fn hex_digit(&self) -> (r: u32)
        requires
            self.wf(),
        ensures
            r <= 16,
            r < 16 <==> (self.index < self.src@.len() && digit_value(self.src@[self.index as int]) < 16),
            r < 16 ==> r == digit_value(self.src@[self.index as int]),
    {
        if self.index < self.src.len() {
            digit_of(self.src[self.index])
        } else {
            16
        }
    }

    fn lex_escape(&mut self) -> (r: Result<u8, LexError>)
        requires
            old(self).wf(),
        ensures
            final(self).wf(),
            final(self).src == old(self).src,
            match escape_at(old(self).src@, old(self).index as int) {
                Ok((b, j)) => r == Ok::<u8, LexError>(b) && final(self).index == j,
                Err((m, at)) => r matches Err(e) && e.message@ == m && e.span == span_at(old(self).src@, at),
            },
    {
        let byte = match self.peek() {
            Some(b) => b,
            None => {
                return Err(self.error("unterminated escape sequence".to_owned()));
            },
        };
        self.bump();
        if byte == 110 {
            Ok(10)
        } else if byte == 114 {
            Ok(13)
        } else if byte == 116 {
            Ok(9)
        } else if byte == 48 {
            Ok(0)
        } else if byte == 101 {
            Ok(27)
        } else if byte == 92 {
            Ok(92)
        } else if byte == 39 {
            Ok(39)
        } else if byte == 34 {
            Ok(34)
        } else if byte == 120 {
            let high = self.hex_digit();
            if high >= 16 {
                return Err(self.error("`\\x` needs two hex digits".to_owned()));
            }
            self.bump();
            let low = self.hex_digit();
            if low >= 16 {
                return Err(self.error("`\\x` needs two hex digits".to_owned()));
            }
            self.bump();
            Ok((high * 16 + low) as u8)
        } else {
            let mut message = "unknown escape `\\".to_owned();
            let c = char_text(byte as char);
            message.append(c.as_str());
            message.append("`");
            Err(self.error(message))
        }
    }

    fn lex_string(&mut self) -> (r: Result<Vec<u8>, LexError>)
        requires
            old(self).wf(),
            old(self).index < old(self).src@.len(),
        ensures
            final(self).wf(),
            final(self).src == old(self).src,
            match string_from(old(self).src@, old(self).index as int, old(self).index + 1, Seq::empty()) {
                Ok((b, j)) => r matches Ok(v) && v@ == b && final(self).index == j,
                Err((m, at)) => r matches Err(e) && e.message@ == m && e.span == span_at(old(self).src@, at),
            },
    {
        let ghost start = self.index as int;
        let ghost goal = string_from(self.src@, start, start + 1, Seq::empty());
        let span = self.span();
        self.bump();
        let mut bytes: Vec<u8> = Vec::new();
        loop
            invariant
                self.wf(),
                self.src == old(self).src,
                start == old(self).index,
                span == span_at(self.src@, start),
                goal == string_from(old(self).src@, start, start + 1, Seq::empty()),
                string_from(self.src@, start, self.index as int, bytes@) == goal,
            decreases self.src@.len() - self.index,
        {
            let here = self.peek();
            match here {
                None => {
                    return Err(LexError { message: "unterminated string literal".to_owned(), span });
                },
                Some(b) => {
                    if b == 10 {
                        return Err(LexError { message: "unterminated string literal".to_owned(), span });
                    } else if b == 34 {
                        self.bump();
                        return Ok(bytes);
                    } else if b == 92 {
                        self.bump();
                        let escaped = self.lex_escape();
                        match escaped {
                            Ok(v) => {
                                bytes.push(v);
                            },
                            Err(e) => {
                                return Err(e);
                            },
                        }
                    } else {
                        self.bump();
                        bytes.push(b);
                    }
                },
            }
        }
    }

    fn lex_char(&mut self) -> (r: Result<Tok, LexError>)
        requires
            old(self).wf(),
            old(self).index < old(self).src@.len(),
        ensures
            final(self).wf(),
            final(self).src == old(self).src,
            match char_at(old(self).src@, old(self).index as int) {
                Ok((t, j)) => r matches Ok(tok) && lexeme(tok) == t && final(self).index == j,
                Err((m, at)) => r matches Err(e) && e.message@ == m && e.span == span_at(old(self).src@, at),
            },
    {
        self.bump();
        let value = match self.peek() {
            None => {
                return Err(self.error("unterminated character literal".to_owned()));
            },
            Some(b) => {
                if b == 10 {
                    return Err(self.error("unterminated character literal".to_owned()));
                } else if b == 92 {
                    self.bump();
                    match self.lex_escape() {
                        Ok(v) => v,
                        Err(e) => {
                            return Err(e);
                        },
                    }
                } else {
                    self.bump();
                    b
                }
            },
        };
        if self.peek() != Some(39u8) {
            return Err(self.error("character literal must contain exactly one byte".to_owned()));
        }
        self.bump();
        Ok(Tok::Int(value as u64))
    }

    fn lex_punct(&mut self) -> (r: Result<Tok, LexError>)
        requires
            old(self).wf(),
            old(self).index < old(self).src@.len(),
        ensures
            final(self).wf(),
            final(self).src == old(self).src,
            match punct_at(old(self).src@, old(self).index as int) {
                Ok((t, j)) => r matches Ok(tok) && lexeme(tok) == t && final(self).index == j,
                Err((m, at)) => r matches Err(e) && e.message@ == m && e.span == span_at(old(self).src@, at),
            },
    {
        let a = self.src[self.index];
        if let Some(b) = self.peek_at(1) {
            if let Some(text) = punct2(a, b) {
                proof {
                    assert(self.src@.subrange(self.index as int, self.index + 2) =~= seq![a, b]);
                }
                self.bump();
                self.bump();
                return Ok(Tok::Punct(text));
            }
        }
        if let Some(text) = punct1(a) {
            proof {
                assert(self.src@.subrange(self.index as int, self.index + 1) =~= seq![a]);
            }
            self.bump();
            return Ok(Tok::Punct(text));
        }
        let mut message = "unexpected character `".to_owned();
        let c = char_text(a as char);
        message.append(c.as_str());
        message.append("`");
        Err(self.error(message))
    }

    fn lex_token(&mut self) -> (r: Result<Tok, LexError>)
        requires
            old(self).wf(),
            old(self).index < old(self).src@.len(),
        ensures
            final(self).wf(),
            final(self).src == old(self).src,
            match token_at(old(self).src@, old(self).index as int) {
                Ok((t, j)) => r matches Ok(tok) && lexeme(tok) == t && final(self).index == j,
                Err((m, at)) => r matches Err(e) && e.message@ == m && e.span == span_at(old(self).src@, at),
            },
    {
        let byte = self.src[self.index];
        if (65 <= byte && byte <= 90) || (97 <= byte && byte <= 122) || byte == 95 {
            Ok(self.lex_ident())
        } else if 48 <= byte && byte <= 57 {
            self.lex_number()
        } else if byte == 34 {
            match self.lex_string() {
                Ok(bytes) => Ok(Tok::Str(bytes)),
                Err(e) => Err(e),
            }
        } else if byte == 39 {
            self.lex_char()
        } else {
            self.lex_punct()
        }
    }
}

/// The tokens as plain values, each with where it starts.
pub open spec fn tokens_view(src: Seq<u8>, tokens: Seq<Token>, lexed: Seq<(Lexeme, int)>) -> bool {
    &&& tokens.len() == lexed.len()
    &&& forall|k: int|
        0 <= k < tokens.len() ==> lexeme((#[trigger] tokens[k]).tok) == lexed[k].0 && tokens[k].span == span_at(
            src,
            lexed[k].1,
        )
}

/// Split Cranium source into tokens, ending with an end-of-input token, each
/// with where it starts.
///
/// Line comments start with `//`, block comments are `/* ... */` and do not
/// nest. Every other byte must belong to a token.
pub fn tokenize(src: &str) -> (r: Result<Vec<Token>, LexError>)
    requires
        src.spec_bytes().len() <= isize::MAX,
    ensures
        match lex_from(src.spec_bytes(), 0) {
            Ok(lexed) => r matches Ok(tokens) && tokens_view(src.spec_bytes(), tokens@, lexed),
            Err((m, at)) => r matches Err(e) && e.message@ == m && e.span == span_at(src.spec_bytes(), at),
        },
{
    let bytes = src.as_bytes();
    let mut lexer = Lexer { src: bytes, index: 0, line: 1, column: 1 };
    proof {
        assert(bytes@.take(0) =~= Seq::<u8>::empty());
    }
    let ghost whole = lex_from(bytes@, 0);
    let mut tokens: Vec<Token> = Vec::new();
    let ghost mut done: Seq<(Lexeme, int)> = Seq::empty();
    loop
        invariant
            lexer.wf(),
            lexer.src@ == bytes@,
            bytes@ == src.spec_bytes(),
            whole == lex_from(bytes@, 0),
            tokens_view(bytes@, tokens@, done),
            whole == match lex_from(bytes@, lexer.index as int) {
                Ok(rest) => Ok(done + rest),
                Err(e) => Err::<Seq<(Lexeme, int)>, (Seq<char>, int)>(e),
            },
        decreases bytes@.len() - lexer.index,
    {
        let ghost i = lexer.index as int;
        proof {
            lemma_trivia_end(bytes@, i);
        }
        match lexer.skip_trivia() {
            Ok(()) => {},
            Err(e) => {
                return Err(e);
            },
        }
        let span = lexer.span();
        if lexer.index >= bytes.len() {
            let ghost j = lexer.index as int;
            tokens.push(Token { tok: Tok::Eof, span });
            proof {
                let last = seq![(Lexeme::Eof, j)];
                assert(tokens_view(bytes@, tokens@, done + last)) by {
                    assert forall|k: int| 0 <= k < tokens@.len() implies lexeme((#[trigger] tokens@[k]).tok)
                        == (done + last)[k].0 && tokens@[k].span == span_at(bytes@, (done + last)[k].1) by {
                        if k < done.len() {
                            assert(tokens@[k] == old_tokens_at(tokens@, k));
                        }
                    }
                }
            }
            return Ok(tokens);
        }
        let ghost j = lexer.index as int;
        proof {
            lemma_token_at(bytes@, j);
        }
        match lexer.lex_token() {
            Ok(tok) => {
                let ghost lx = lexeme(tok);
                tokens.push(Token { tok, span });
                proof {
                    let prev = done;
                    done = done.push((lx, j));
                    assert forall|k: int| 0 <= k < tokens@.len() implies lexeme((#[trigger] tokens@[k]).tok)
                        == done[k].0 && tokens@[k].span == span_at(bytes@, done[k].1) by {
                        if k < prev.len() {
                            assert(tokens@[k] == old_tokens_at(tokens@, k));
                        }
                    }
                    match lex_from(bytes@, lexer.index as int) {
                        Ok(rest) => {
                            assert(prev + (seq![(lx, j)] + rest) =~= done + rest);
                        },
                        Err(e) => {},
                    }
                }
            },
            Err(e) => {
                return Err(e);
            },
        }
    }
}

/// Token `k`, named so that it can stand in a proof.
spec fn old_tokens_at(tokens: Seq<Token>, k: int) -> Token {
    tokens[k]
}

} // verus!
