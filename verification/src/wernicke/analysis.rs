//! What an editor is told about a Cranium program: its top-level definitions,
//! how they are written, and what is worth offering while typing. Everything
//! is read off the same syntax tree the compiler uses.

use vstd::prelude::*;
use crate::bytes::str_eq;
use crate::cranium::ast::{spelled_type, Function, Item, Param, Program, Type};
use crate::cranium::lexer::Span;
use crate::cranium::module::{gather, no_imports, Loader, SourceMap};
use crate::cranium::codegen::refused_program;
use crate::cranium::Error;
use crate::wernicke::text::Lines;
use vstd::string::StringSliceAdditionalSpecFns;

verus! {

broadcast use vstd::seq_lib::group_seq_properties;

/// What a name refers to.
#[derive(Debug, Clone, Copy, PartialEq, Eq, Structural)]
pub enum SymbolKind {
    /// A function.
    Function,
    /// A compile-time constant.
    Constant,
    /// A global variable.
    Variable,
}

/// The protocol's number for a kind of symbol.
pub open spec fn symbol_code(k: SymbolKind) -> i64 {
    match k {
        SymbolKind::Function => 12,
        SymbolKind::Constant => 14,
        SymbolKind::Variable => 13,
    }
}

impl SymbolKind {
    /// The protocol's numbering for this kind.
    pub fn lsp_code(self) -> (r: i64)
        ensures
            r == symbol_code(self),
    {
        match self {
            SymbolKind::Function => 12,
            SymbolKind::Constant => 14,
            SymbolKind::Variable => 13,
        }
    }
}

/// A top-level definition.
#[derive(Debug, Clone)]
pub struct Symbol {
    /// The name it is known by.
    pub name: String,
    /// What sort of thing it is.
    pub kind: SymbolKind,
    /// A one-line summary, as it would be written in source.
    pub detail: String,
    /// Where it is defined.
    pub span: Span,
}

/// A symbol as plain values.
pub struct SymbolV {
    pub name: Seq<char>,
    pub kind: SymbolKind,
    pub detail: Seq<char>,
    pub span: Span,
}

/// A symbol as plain values.
pub open spec fn symbol_view(s: Symbol) -> SymbolV {
    SymbolV { name: s.name@, kind: s.kind, detail: s.detail@, span: s.span }
}

/// The builtins the compiler provides, with the signature to show for each.
pub const BUILTINS: [(&'static str, &'static str); 6] = [
    ("print", "print(value, ...)  numbers in decimal, strings as text"),
    ("println", "println(value, ...)  the same, then a newline"),
    ("putc", "putc(byte)  write one raw byte"),
    ("getc", "getc() -> byte  read one byte; 0 at end of input"),
    ("puts", "puts(array)  write a byte array up to its first 0"),
    ("len", "len(array) -> int  the array's length"),
];

/// Words that are part of the language rather than a program.
pub const KEYWORDS: [&'static str; 16] = [
    "fn",
    "let",
    "const",
    "import",
    "if",
    "else",
    "while",
    "for",
    "in",
    "loop",
    "break",
    "continue",
    "return",
    "as",
    "true",
    "false",
];

/// The built-in types.
pub const TYPES: [&'static str; 5] = ["byte", "int", "sbyte", "sint", "bool"];

/// `name: type`.
pub open spec fn param_text(p: Param) -> Seq<char> {
    p.name@ + ": "@ + spelled_type(p.ty)
}

/// Parameters, separated by `, `.
pub open spec fn params_text(ps: Seq<Param>) -> Seq<char>
    decreases ps.len(),
{
    if ps.len() == 0 {
        Seq::empty()
    } else if ps.len() == 1 {
        param_text(ps[0])
    } else {
        params_text(ps.drop_last()) + ", "@ + param_text(ps.last())
    }
}

/// A function's signature as the source would write it.
pub open spec fn signature_text(f: Function) -> Seq<char> {
    "fn "@ + f.name@ + "("@ + params_text(f.params@) + ")"@ + if f.ret is Unit {
        Seq::empty()
    } else {
        " -> "@ + spelled_type(f.ret)
    }
}

/// `keyword name` or `keyword name: type`.
pub open spec fn declared_text(keyword: Seq<char>, name: String, ty: Option<Type>) -> Seq<char> {
    match ty {
        Some(t) => keyword + name@ + ": "@ + spelled_type(t),
        None => keyword + name@,
    }
}

/// The definition an item makes, if it makes one.
pub open spec fn symbol_of(item: Item) -> Option<SymbolV> {
    match item {
        Item::Function(f) => Some(
            SymbolV { name: f.name@, kind: SymbolKind::Function, detail: signature_text(f), span: f.span },
        ),
        Item::Const { name, ty, span, .. } => Some(
            SymbolV { name: name@, kind: SymbolKind::Constant, detail: declared_text("const "@, name, ty), span },
        ),
        Item::Global { name, ty, span, .. } => Some(
            SymbolV { name: name@, kind: SymbolKind::Variable, detail: declared_text("let "@, name, ty), span },
        ),
        Item::Import { .. } => None,
    }
}

/// The definitions of `items`, in order.
pub open spec fn symbols_of(items: Seq<Item>) -> Seq<SymbolV>
    decreases items.len(),
{
    if items.len() == 0 {
        Seq::empty()
    } else {
        let before = symbols_of(items.drop_last());
        match symbol_of(items.last()) {
            Some(s) => before.push(s),
            None => before,
        }
    }
}

/// Symbols as plain values.
pub open spec fn symbols_view(v: Seq<Symbol>) -> Seq<SymbolV> {
    Seq::new(v.len(), |i: int| symbol_view(v[i]))
}

/// Append `text` for a declared type, when there is one.
fn declared(keyword: &str, name: &String, ty: &Option<Type>) -> (r: String)
    ensures
        r@ == declared_text(keyword@, *name, *ty),
{
    let mut r = keyword.to_owned();
    r.append(name.as_str());
    if let Some(t) = ty {
        r.append(": ");
        r.append(t.text().as_str());
    }
    r
}

/// A function's signature, written the way the source would.
pub fn signature(function: &Function) -> (r: String)
    ensures
        r@ == signature_text(*function),
{
    let mut params = String::new();
    let mut k: usize = 0;
    while k < function.params.len()
        invariant
            k <= function.params@.len(),
            params@ == params_text(function.params@.take(k as int)),
        decreases function.params@.len() - k,
    {
        let p: &Param = &function.params[k];
        if k > 0 {
            params.append(", ");
        }
        params.append(p.name.as_str());
        params.append(": ");
        params.append(p.ty.text().as_str());
        k = k + 1;
        proof {
            let taken = function.params@.take(k as int);
            assert(taken.drop_last() =~= function.params@.take(k - 1));
            if k == 1 {
                assert(function.params@.take(0) =~= Seq::<Param>::empty());
            }
        }
    }
    proof {
        assert(function.params@.take(k as int) =~= function.params@);
    }
    let mut r = "fn ".to_owned();
    r.append(function.name.as_str());
    r.append("(");
    r.append(params.as_str());
    r.append(")");
    if !matches!(function.ret, Type::Unit) {
        r.append(" -> ");
        r.append(function.ret.text().as_str());
    }
    r
}

/// Every top-level definition in a program, in order; imports define
/// nothing.
pub fn symbols(program: &Program) -> (r: Vec<Symbol>)
    ensures
        symbols_view(r@) == symbols_of(program.items@),
{
    let mut out: Vec<Symbol> = Vec::new();
    let mut k: usize = 0;
    while k < program.items.len()
        invariant
            k <= program.items@.len(),
            symbols_view(out@) == symbols_of(program.items@.take(k as int)),
        decreases program.items@.len() - k,
    {
        let ghost before = out@;
        match &program.items[k] {
            Item::Function(function) => {
                out.push(Symbol {
                    name: function.name.clone(),
                    kind: SymbolKind::Function,
                    detail: signature(function),
                    span: function.span,
                });
            },
            Item::Const { name, ty, span, .. } => {
                out.push(Symbol {
                    name: name.clone(),
                    kind: SymbolKind::Constant,
                    detail: declared("const ", name, ty),
                    span: *span,
                });
            },
            Item::Global { name, ty, span, .. } => {
                out.push(Symbol {
                    name: name.clone(),
                    kind: SymbolKind::Variable,
                    detail: declared("let ", name, ty),
                    span: *span,
                });
            },
            Item::Import { .. } => {},
        }
        k = k + 1;
        proof {
            assert(program.items@.take(k as int).drop_last() =~= program.items@.take(k - 1));
            assert(symbols_view(out@) =~= symbols_of(program.items@.take(k as int)));
        }
    }
    proof {
        assert(program.items@.take(k as int) =~= program.items@);
    }
    out
}

/// The index of the first symbol named `word`.
pub open spec fn first_named(syms: Seq<SymbolV>, word: Seq<char>) -> Option<int>
    decreases syms.len(),
{
    if syms.len() == 0 {
        None
    } else {
        match first_named(syms.drop_last(), word) {
            Some(k) => Some(k),
            None => if syms.last().name == word {
                Some(syms.len() - 1)
            } else {
                None
            },
        }
    }
}

/// The help for the first builtin from `i` on named `word`.
pub open spec fn builtin_from(word: Seq<char>, i: int) -> Option<Seq<char>>
    decreases 6 - i,
{
    if i < 0 || i >= 6 {
        None
    } else if BUILTINS@[i].0@ == word {
        Some(BUILTINS@[i].1@)
    } else {
        builtin_from(word, i + 1)
    }
}

/// The help for a builtin named `word`.
pub open spec fn builtin_help(word: Seq<char>) -> Option<Seq<char>> {
    builtin_from(word, 0)
}

/// The help for a built-in type named `word`.
pub open spec fn type_help(word: Seq<char>) -> Option<Seq<char>> {
    if exists|i: int| 0 <= i < 5 && (#[trigger] TYPES@[i])@ == word {
        Some(
            if word == "byte"@ {
                "byte  unsigned 8-bit, one cell, wrapping"@
            } else if word == "int"@ {
                "int  unsigned 16-bit, two cells, wrapping"@
            } else if word == "sbyte"@ {
                "sbyte  signed 8-bit, one cell, wrapping"@
            } else if word == "sint"@ {
                "sint  signed 16-bit, two cells, wrapping"@
            } else {
                "bool  true or false, one cell"@
            },
        )
    } else {
        None
    }
}

/// Whether `word` is a keyword.
pub open spec fn is_keyword_word(word: Seq<char>) -> bool {
    exists|i: int| 0 <= i < 16 && (#[trigger] KEYWORDS@[i])@ == word
}

/// What hovering over `word` shows: the program's own definition first,
/// then a builtin, a type, or a keyword.
pub open spec fn hover_text(word: Seq<char>, syms: Seq<SymbolV>) -> Option<Seq<char>> {
    match first_named(syms, word) {
        Some(k) => Some(syms[k].detail),
        None => match builtin_help(word) {
            Some(h) => Some(h),
            None => match type_help(word) {
                Some(h) => Some(h),
                None => if is_keyword_word(word) {
                    Some("`"@ + word + "` is a keyword"@)
                } else {
                    None
                },
            },
        },
    }
}

/// The symbols of an optional program.
pub open spec fn program_symbols(program: Option<&Program>) -> Seq<SymbolV> {
    match program {
        Some(p) => symbols_of(p.items@),
        None => Seq::empty(),
    }
}

/// The first symbol named `word`, if any.
fn find_symbol(syms: &Vec<Symbol>, word: &str) -> (r: Option<usize>)
    ensures
        r matches Some(k) ==> k < syms@.len() && first_named(symbols_view(syms@), word@) == Some(k as int),
        r is None ==> first_named(symbols_view(syms@), word@) is None,
{
    let ghost v = symbols_view(syms@);
    let mut k: usize = 0;
    proof {
        assert(v.take(0) =~= Seq::<SymbolV>::empty());
    }
    while k < syms.len()
        invariant
            k <= syms@.len(),
            v == symbols_view(syms@),
            first_named(v.take(k as int), word@) is None,
        decreases syms@.len() - k,
    {
        let hit = str_eq(syms[k].name.as_str(), word);
        proof {
            assert(v.take(k + 1).drop_last() =~= v.take(k as int));
            assert(v.take(k + 1).last() == v[k as int]);
        }
        if hit {
            proof {
                lemma_first_named_prefix(v, word@, k + 1);
            }
            return Some(k);
        }
        k = k + 1;
    }
    proof {
        assert(v.take(k as int) =~= v);
    }
    None
}

/// Looking further on does not change a first match.
proof fn lemma_first_named_prefix(syms: Seq<SymbolV>, word: Seq<char>, n: int)
    requires
        0 <= n <= syms.len(),
        first_named(syms.take(n), word) is Some,
    ensures
        first_named(syms, word) == first_named(syms.take(n), word),
    decreases syms.len() - n,
{
    if n < syms.len() {
        assert(syms.take(n + 1).drop_last() =~= syms.take(n));
        lemma_first_named_prefix(syms, word, n + 1);
    } else {
        assert(syms.take(n) =~= syms);
    }
}

/// What to show when hovering over `word`.
pub fn describe(word: &str, program: Option<&Program>) -> (r: Option<String>)
    ensures
        match hover_text(word@, program_symbols(program)) {
            Some(t) => r matches Some(s) && s@ == t,
            None => r is None,
        },
{
    let syms = match program {
        Some(p) => symbols(p),
        None => Vec::new(),
    };
    proof {
        if program is None {
            assert(symbols_view(syms@) =~= Seq::<SymbolV>::empty());
        }
    }
    if let Some(k) = find_symbol(&syms, word) {
        proof {
            assert(k < syms@.len());
            assert(symbols_view(syms@) == program_symbols(program));
            assert(first_named(program_symbols(program), word@) == Some(k as int));
            assert(symbols_view(syms@)[k as int].detail == syms@[k as int].detail@);
        }
        let detail = syms[k].detail.clone();
        assert(detail@ == syms@[k as int].detail@);
        return Some(detail);
    }
    let mut b: usize = 0;
    while b < 6
        invariant
            b <= 6,
            first_named(program_symbols(program), word@) is None,
            builtin_from(word@, 0) == builtin_from(word@, b as int),
            forall|j: int| 0 <= j < b ==> (#[trigger] BUILTINS@[j]).0@ != word@,
        decreases 6 - b,
    {
        if str_eq(BUILTINS[b].0, word) {
            return Some(BUILTINS[b].1.to_owned());
        }
        b = b + 1;
    }
    let mut t: usize = 0;
    while t < 5
        invariant
            t <= 5,
            first_named(program_symbols(program), word@) is None,
            builtin_help(word@) is None,
            forall|j: int| 0 <= j < t ==> (#[trigger] TYPES@[j])@ != word@,
        decreases 5 - t,
    {
        if str_eq(TYPES[t], word) {
            proof {
                assert(0 <= t < 5 && TYPES@[t as int]@ == word@);
            }
            let help = if str_eq(word, "byte") {
                "byte  unsigned 8-bit, one cell, wrapping"
            } else if str_eq(word, "int") {
                "int  unsigned 16-bit, two cells, wrapping"
            } else if str_eq(word, "sbyte") {
                "sbyte  signed 8-bit, one cell, wrapping"
            } else if str_eq(word, "sint") {
                "sint  signed 16-bit, two cells, wrapping"
            } else {
                "bool  true or false, one cell"
            };
            return Some(help.to_owned());
        }
        t = t + 1;
    }
    let mut w: usize = 0;
    while w < 16
        invariant
            w <= 16,
            first_named(program_symbols(program), word@) is None,
            builtin_help(word@) is None,
            forall|j: int| 0 <= j < 5 ==> (#[trigger] TYPES@[j])@ != word@,
            forall|j: int| 0 <= j < w ==> (#[trigger] KEYWORDS@[j])@ != word@,
        decreases 16 - w,
    {
        if str_eq(KEYWORDS[w], word) {
            proof {
                assert(0 <= w < 16 && KEYWORDS@[w as int]@ == word@);
            }
            let mut r = "`".to_owned();
            r.append(word);
            r.append("` is a keyword");
            return Some(r);
        }
        w = w + 1;
    }
    None
}

/// The completion kinds of the protocol.
pub open spec fn completion_code(k: SymbolKind) -> i64 {
    match k {
        SymbolKind::Function => 3,
        SymbolKind::Constant => 21,
        SymbolKind::Variable => 6,
    }
}

/// Everything offered while typing, as (label, kind, detail): the keywords,
/// the types, the builtins, then the program's own definitions.
pub open spec fn completion_list(syms: Seq<SymbolV>) -> Seq<(Seq<char>, i64, Seq<char>)> {
    Seq::new(16, |i: int| keyword_entry(i)) + Seq::new(5, |i: int| type_entry(i)) + Seq::new(
        6,
        |i: int| builtin_entry(i),
    ) + Seq::new(syms.len(), |i: int| symbol_entry(syms[i]))
}

/// The completion for keyword `i`.
pub open spec fn keyword_entry(i: int) -> (Seq<char>, i64, Seq<char>) {
    (KEYWORDS@[i]@, 14i64, "keyword"@)
}

/// The completion for type `i`.
pub open spec fn type_entry(i: int) -> (Seq<char>, i64, Seq<char>) {
    (TYPES@[i]@, 22i64, "type"@)
}

/// The completion for builtin `i`.
pub open spec fn builtin_entry(i: int) -> (Seq<char>, i64, Seq<char>) {
    (BUILTINS@[i].0@, 3i64, BUILTINS@[i].1@)
}

/// The completion for a symbol of the program.
pub open spec fn symbol_entry(s: SymbolV) -> (Seq<char>, i64, Seq<char>) {
    (s.name, completion_code(s.kind), s.detail)
}

/// Completions as plain values.
pub open spec fn completions_view(v: Seq<(String, i64, String)>) -> Seq<(Seq<char>, i64, Seq<char>)> {
    Seq::new(v.len(), |i: int| (v[i].0@, v[i].1, v[i].2@))
}

/// Everything worth offering as a completion.
pub fn completions(program: Option<&Program>) -> (r: Vec<(String, i64, String)>)
    ensures
        completions_view(r@) == completion_list(program_symbols(program)),
{
    let mut out: Vec<(String, i64, String)> = Vec::new();
    let ghost target = completion_list(program_symbols(program));
    let mut k: usize = 0;
    while k < 16
        invariant
            k <= 16,
            out@.len() == k,
            completions_view(out@) == Seq::new(k as nat, |i: int| keyword_entry(i)),
        decreases 16 - k,
    {
        let ghost before = out@;
        let word = KEYWORDS[k];
        let label = word.to_owned();
        let detail = "keyword".to_owned();
        proof {
            assert(word == KEYWORDS@[k as int]);
            assert(label@ == KEYWORDS@[k as int]@);
            assert(detail@ == "keyword"@);
        }
        out.push((label, 14, detail));
        proof {
            assert(completions_view(out@)[k as int] == keyword_entry(k as int));
        }
        k = k + 1;
        proof {
            assert forall|i: int| 0 <= i < k implies #[trigger] completions_view(out@)[i] == keyword_entry(i) by {
                if i < k - 1 {
                    assert(out@[i] == before[i]);
                    assert(completions_view(before)[i] == keyword_entry(i));
                }
            }
            assert(completions_view(out@) =~= Seq::new(k as nat, |i: int| keyword_entry(i)));
        }
    }
    let ghost first = completions_view(out@);
    let mut k: usize = 0;
    while k < 5
        invariant
            k <= 5,
            first.len() == 16,
            out@.len() == 16 + k,
            completions_view(out@) == first + Seq::new(k as nat, |i: int| type_entry(i)),
        decreases 5 - k,
    {
        let ghost before = out@;
        let label = TYPES[k].to_owned();
        let detail = "type".to_owned();
        out.push((label, 22, detail));
        proof {
            assert(completions_view(out@)[16 + k] == type_entry(k as int));
        }
        k = k + 1;
        proof {
            let target = first + Seq::new(k as nat, |i: int| type_entry(i));
            let prev = first + Seq::new((k - 1) as nat, |i: int| type_entry(i));
            assert forall|i: int| 0 <= i < 16 + k implies #[trigger] completions_view(out@)[i] == target[i] by {
                if i < 16 + k - 1 {
                    assert(out@[i] == before[i]);
                    assert(completions_view(before)[i] == prev[i]);
                }
            }
            assert(completions_view(out@) =~= target);
        }
    }
    let ghost second = completions_view(out@);
    let mut k: usize = 0;
    while k < 6
        invariant
            k <= 6,
            second.len() == 21,
            out@.len() == 21 + k,
            completions_view(out@) == second + Seq::new(k as nat, |i: int| builtin_entry(i)),
        decreases 6 - k,
    {
        let ghost before = out@;
        let label = BUILTINS[k].0.to_owned();
        let detail = BUILTINS[k].1.to_owned();
        out.push((label, 3, detail));
        proof {
            assert(completions_view(out@)[21 + k] == builtin_entry(k as int));
        }
        k = k + 1;
        proof {
            let target = second + Seq::new(k as nat, |i: int| builtin_entry(i));
            let prev = second + Seq::new((k - 1) as nat, |i: int| builtin_entry(i));
            assert forall|i: int| 0 <= i < 21 + k implies #[trigger] completions_view(out@)[i] == target[i] by {
                if i < 21 + k - 1 {
                    assert(out@[i] == before[i]);
                    assert(completions_view(before)[i] == prev[i]);
                }
            }
            assert(completions_view(out@) =~= target);
        }
    }
    let ghost third = completions_view(out@);
    if let Some(p) = program {
        let syms = symbols(p);
        let ghost v = symbols_view(syms@);
        let mut k: usize = 0;
        while k < syms.len()
            invariant
                k <= syms@.len(),
                v == symbols_view(syms@),
                third.len() == 27,
                out@.len() == 27 + k,
                completions_view(out@) == third + Seq::new(k as nat, |i: int| symbol_entry(v[i])),
            decreases syms@.len() - k,
        {
            let code: i64 = match syms[k].kind {
                SymbolKind::Function => 3,
                SymbolKind::Constant => 21,
                SymbolKind::Variable => 6,
            };
            let ghost before = out@;
            let label = syms[k].name.clone();
            let detail = syms[k].detail.clone();
            out.push((label, code, detail));
            proof {
                assert(completions_view(out@)[27 + k] == symbol_entry(v[k as int]));
            }
            k = k + 1;
            proof {
                let target = third + Seq::new(k as nat, |i: int| symbol_entry(v[i]));
                let prev = third + Seq::new((k - 1) as nat, |i: int| symbol_entry(v[i]));
                assert forall|i: int| 0 <= i < 27 + k implies #[trigger] completions_view(out@)[i] == target[i] by {
                    if i < 27 + k - 1 {
                        assert(out@[i] == before[i]);
                        assert(completions_view(before)[i] == prev[i]);
                    }
                }
                assert(completions_view(out@) =~= target);
            }
        }
        proof {
            assert(completions_view(out@) =~= target);
        }
    } else {
        proof {
            assert(completions_view(out@) =~= target);
        }
    }
    out
}


/// Open buffers, keyed by the names the compiler gives files.
#[derive(Debug)]
pub struct Workspace {
    open: Vec<(String, Lines)>,
}

/// The result of looking at a project once.
pub struct Analysis {
    /// The whole program, when it parsed.
    pub program: Option<Program>,
    /// The files it was built from.
    pub sources: SourceMap,
    /// The first problem found, if any.
    pub error: Option<Error>,
}

/// The text of each open buffer, by name.
pub open spec fn buffers(open: Seq<(String, Lines)>) -> Map<Seq<char>, Seq<u8>>
    decreases open.len(),
{
    if open.len() == 0 {
        Map::empty()
    } else {
        buffers(open.drop_last()).insert(open.last().0@, open.last().1.bytes())
    }
}

/// No name is open twice.
pub open spec fn distinct_names(open: Seq<(String, Lines)>) -> bool {
    forall|i: int, j: int| 0 <= i < j < open.len() ==> open[i].0@ != open[j].0@
}

proof fn lemma_buffers_at(open: Seq<(String, Lines)>, i: int)
    requires
        distinct_names(open),
        0 <= i < open.len(),
    ensures
        buffers(open).contains_key(open[i].0@),
        buffers(open)[open[i].0@] == open[i].1.bytes(),
    decreases open.len(),
{
    if i < open.len() - 1 {
        lemma_buffers_at(open.drop_last(), i);
    }
}

proof fn lemma_buffers_absent(open: Seq<(String, Lines)>, name: Seq<char>)
    requires
        forall|i: int| 0 <= i < open.len() ==> open[i].0@ != name,
    ensures
        !buffers(open).contains_key(name),
    decreases open.len(),
{
    if open.len() > 0 {
        lemma_buffers_absent(open.drop_last(), name);
    }
}

proof fn lemma_buffers_keys(open: Seq<(String, Lines)>, name: Seq<char>)
    requires
        buffers(open).contains_key(name),
    ensures
        exists|i: int| 0 <= i < open.len() && open[i].0@ == name,
    decreases open.len(),
{
    if open.last().0@ != name {
        lemma_buffers_keys(open.drop_last(), name);
        let i = choose|i: int| 0 <= i < open.len() - 1 && open.drop_last()[i].0@ == name;
        assert(open[i].0@ == name);
    }
}

/// Replacing the buffer of an open name replaces its text.
proof fn lemma_buffers_update(open: Seq<(String, Lines)>, k: int, entry: (String, Lines))
    requires
        distinct_names(open),
        0 <= k < open.len(),
        entry.0@ == open[k].0@,
    ensures
        buffers(open.update(k, entry)) == buffers(open).insert(entry.0@, entry.1.bytes()),
    decreases open.len(),
{
    let after = open.update(k, entry);
    if k == open.len() - 1 {
        assert(after.drop_last() =~= open.drop_last());
        assert(buffers(after) =~= buffers(open).insert(entry.0@, entry.1.bytes()));
    } else {
        lemma_buffers_update(open.drop_last(), k, entry);
        assert(after.drop_last() =~= open.drop_last().update(k, entry));
        assert(open.last().0@ != entry.0@);
        assert(buffers(after) =~= buffers(open).insert(entry.0@, entry.1.bytes()));
    }
}

impl Workspace {
    /// The open buffers' texts, by name.
    pub closed spec fn view(&self) -> Map<Seq<char>, Seq<u8>> {
        buffers(self.open@)
    }

    /// The workspace's invariant: each name is open once and each buffer is
    /// indexed.
    pub closed spec fn wf(&self) -> bool {
        distinct_names(self.open@) && forall|i: int| 0 <= i < self.open@.len() ==> (#[trigger] self.open@[i]).1.wf()
    }

    /// A workspace with nothing open.
    pub fn new() -> (r: Self)
        ensures
            r.wf(),
            r.view() == Map::<Seq<char>, Seq<u8>>::empty(),
    {
        Workspace { open: Vec::new() }
    }

    fn find(&self, name: &str) -> (r: Option<usize>)
        requires
            self.wf(),
        ensures
            match r {
                Some(i) => i < self.open@.len() && self.open@[i as int].0@ == name@,
                None => forall|i: int| 0 <= i < self.open@.len() ==> self.open@[i].0@ != name@,
            },
    {
        let mut k: usize = 0;
        while k < self.open.len()
            invariant
                k <= self.open@.len(),
                forall|i: int| 0 <= i < k ==> self.open@[i].0@ != name@,
            decreases self.open@.len() - k,
        {
            if str_eq(self.open[k].0.as_str(), name) {
                return Some(k);
            }
            k += 1;
        }
        None
    }

    /// Record or replace the buffer named `name`.
    pub fn set(&mut self, name: &str, text: &str)
        requires
            old(self).wf(),
            text.spec_bytes().len() <= isize::MAX,
        ensures
            final(self).wf(),
            final(self).view() == old(self).view().insert(name@, text.spec_bytes()),
    {
        let lines = Lines::new(text);
        let ghost before = self.open@;
        match self.find(name) {
            Some(k) => {
                self.open.set(k, (name.to_owned(), lines));
                proof {
                    lemma_buffers_update(before, k as int, self.open@[k as int]);
                    assert(self.open@ =~= before.update(k as int, self.open@[k as int]));
                    assert(distinct_names(self.open@)) by {
                        assert forall|i: int, j: int| 0 <= i < j < self.open@.len() implies self.open@[i].0@
                            != self.open@[j].0@ by {
                            if i != k && j != k {
                                assert(self.open@[i] == before[i]);
                                assert(self.open@[j] == before[j]);
                            } else if i == k {
                                assert(self.open@[j] == before[j]);
                            } else {
                                assert(self.open@[i] == before[i]);
                            }
                        }
                    }
                }
            },
            None => {
                self.open.push((name.to_owned(), lines));
                proof {
                    assert(self.open@.drop_last() =~= before);
                }
            },
        }
    }

    /// Forget the buffer named `name`, so its file is read from disk again.
    pub fn remove(&mut self, name: &str)
        requires
            old(self).wf(),
        ensures
            final(self).wf(),
            final(self).view() == old(self).view().remove(name@),
    {
        let ghost before = self.open@;
        match self.find(name) {
            Some(k) => {
                self.open.remove(k);
                proof {
                    lemma_buffers_remove(before, k as int);
                }
            },
            None => {
                proof {
                    lemma_buffers_absent(before, name@);
                    assert(buffers(before).remove(name@) =~= buffers(before));
                }
            },
        }
    }

    /// The buffer named `name`, if it is open.
    pub fn document(&self, name: &str) -> (r: Option<&Lines>)
        requires
            self.wf(),
        ensures
            match r {
                Some(lines) => self.view().contains_key(name@) && lines.bytes() == self.view()[name@] && lines.wf(),
                None => !self.view().contains_key(name@),
            },
    {
        match self.find(name) {
            Some(k) => {
                proof {
                    lemma_buffers_at(self.open@, k as int);
                }
                Some(&self.open[k].1)
            },
            None => {
                proof {
                    lemma_buffers_absent(self.open@, name@);
                }
                None
            },
        }
    }

    /// Compile a project, keeping both the tree and the first error. Open
    /// buffers are read before `disk` is asked.
    pub fn analyze<L: Loader>(&self, entry: &str, disk: L) -> (r: Analysis)
        ensures
            r.program is None ==> r.error is Some,
            r.program matches Some(p) ==> {
                &&& no_imports(p.items@)
                &&& r.sources.view().len() >= 1
                &&& r.sources.view()[0] == entry@
                &&& refused_program(p.items@) ==> r.error is Some
            },
    {
        let mut loader = Overlay { open: &self.open, disk };
        match gather(entry, &mut loader) {
            Ok(loaded) => {
                // Parsing succeeded, so go on to the part that finds undefined
                // names and type mismatches: lowering it for real.
                let error = match crate::cranium::codegen::compile(&loaded.program) {
                    Ok(_) => None,
                    Err(err) => Some(Error::at(&loaded.sources, err.span, err.message)),
                };
                Analysis { program: Some(loaded.program), sources: loaded.sources, error }
            },
            Err(failure) => {
                let error = Some(Error::from_gather(&failure.sources, entry, failure.error));
                Analysis { program: None, sources: failure.sources, error }
            },
        }
    }
}

/// Removing entry `k` removes its name.
proof fn lemma_buffers_remove(open: Seq<(String, Lines)>, k: int)
    requires
        distinct_names(open),
        0 <= k < open.len(),
    ensures
        buffers(open.remove(k)) == buffers(open).remove(open[k].0@),
{
    let rest = open.remove(k);
    assert(distinct_names(rest)) by {
        assert forall|i: int, j: int| 0 <= i < j < rest.len() implies rest[i].0@ != rest[j].0@ by {
            let ii = if i < k { i } else { i + 1 };
            let jj = if j < k { j } else { j + 1 };
            assert(rest[i] == open[ii]);
            assert(rest[j] == open[jj]);
        }
    }
    let name = open[k].0@;
    assert forall|n: Seq<char>| #[trigger] buffers(rest).contains_key(n) == buffers(open).remove(name).contains_key(n) by {
        if buffers(rest).contains_key(n) {
            lemma_buffers_keys(rest, n);
            let i = choose|i: int| 0 <= i < rest.len() && rest[i].0@ == n;
            let ii = if i < k { i } else { i + 1 };
            assert(rest[i] == open[ii]);
            lemma_buffers_at(open, ii);
        } else if buffers(open).remove(name).contains_key(n) {
            lemma_buffers_keys(open, n);
            let i = choose|i: int| 0 <= i < open.len() && open[i].0@ == n;
            assert(i != k);
            let ri = if i < k { i } else { i - 1 };
            assert(rest[ri] == open[i]);
            lemma_buffers_at(rest, ri);
        }
    }
    assert forall|n: Seq<char>| buffers(rest).contains_key(n) implies buffers(rest)[n] == buffers(open).remove(name)[n] by {
        lemma_buffers_keys(rest, n);
        let i = choose|i: int| 0 <= i < rest.len() && rest[i].0@ == n;
        let ii = if i < k { i } else { i + 1 };
        assert(rest[i] == open[ii]);
        lemma_buffers_at(rest, i);
        lemma_buffers_at(open, ii);
    }
    assert(buffers(rest) =~= buffers(open).remove(name));
}

/// Serves open buffers first, falling back to another loader.
struct Overlay<'a, L: Loader> {
    open: &'a Vec<(String, Lines)>,
    disk: L,
}

impl<'a, L: Loader> Overlay<'a, L> {
    /// Whether a buffer is open under `name`.
    pub closed spec fn has_buffer(&self, name: Seq<char>) -> bool {
        exists|i: int| 0 <= i < self.open@.len() && self.open@[i].0@ == name
    }

    /// Whether `bytes` is the text of the first buffer open under `name`.
    pub closed spec fn first_buffer(&self, name: Seq<char>, bytes: Seq<u8>) -> bool {
        exists|i: int|
            0 <= i < self.open@.len() && self.open@[i].0@ == name && self.open@[i].1.bytes() == bytes && (
            forall|j: int| 0 <= j < i ==> self.open@[j].0@ != name)
    }
}

impl<'a, L: Loader> Loader for Overlay<'a, L> {
    fn resolve(&mut self, from: &str, path: &str) -> Result<String, String> {
        self.disk.resolve(from, path)
    }

    fn read(&mut self, name: &str) -> (r: Result<String, String>)
        ensures
            old(self).has_buffer(name@) ==> (r matches Ok(t) && old(self).first_buffer(
                name@,
                vstd::utf8::encode_utf8(t@),
            )),
    {
        let mut k: usize = 0;
        while k < self.open.len()
            invariant
                k <= self.open@.len(),
                self.open == old(self).open,
                forall|j: int| 0 <= j < k ==> self.open@[j].0@ != name@,
            decreases self.open@.len() - k,
        {
            if str_eq(self.open[k].0.as_str(), name) {
                let t = self.open[k].1.text().to_owned();
                assert(vstd::utf8::encode_utf8(t@) == self.open@[k as int].1.bytes());
                return Ok(t);
            }
            k += 1;
        }
        self.disk.read(name)
    }
}

} // verus!
