use bf_tools::cranium::lexer::{tokenize, Span, Tok};

fn kinds(src: &str) -> Vec<Tok> {
    tokenize(src)
        .expect("valid source")
        .into_iter()
        .map(|token| token.tok)
        .collect()
}

#[test]
fn lexes_declarations() {
    assert_eq!(
        kinds("let x = 5;"),
        vec![
            Tok::Ident("let".into()),
            Tok::Ident("x".into()),
            Tok::Punct("="),
            Tok::Int(5),
            Tok::Punct(";"),
            Tok::Eof,
        ]
    );
}

#[test]
fn prefers_longest_operator() {
    assert_eq!(
        kinds("a <= b"),
        vec![
            Tok::Ident("a".into()),
            Tok::Punct("<="),
            Tok::Ident("b".into()),
            Tok::Eof,
        ]
    );
}

#[test]
fn resolves_escapes_and_radixes() {
    assert_eq!(
        kinds("\"a\\n\" 0xff 0b1010 '\\t'"),
        vec![
            Tok::Str(vec![97, 10]),
            Tok::Int(255),
            Tok::Int(10),
            Tok::Int(9),
            Tok::Eof,
        ]
    );
}

#[test]
fn skips_comments() {
    assert_eq!(
        kinds("// gone\n/* also gone */ 1"),
        vec![Tok::Int(1), Tok::Eof]
    );
}

#[test]
fn reports_unterminated_string() {
    let err = tokenize("\"oops").expect_err("string is unterminated");
    assert!(err.message.contains("unterminated string"));
}

#[test]
fn tokens_carry_their_line_and_column() {
    let tokens = tokenize("a\n  bb").expect("valid source");
    assert_eq!(tokens[0].span, Span { file: 0, line: 1, column: 1 });
    assert_eq!(tokens[1].span, Span { file: 0, line: 2, column: 3 });
    assert_eq!(tokens[2].span, Span { file: 0, line: 2, column: 5 });
}

#[test]
fn underscores_separate_digits() {
    assert_eq!(kinds("1_000 0x_1F"), vec![Tok::Int(1000), Tok::Int(31), Tok::Eof]);
}

#[test]
fn refuses_what_is_not_a_token() {
    let err = tokenize("a $").expect_err("`$` is no token");
    assert_eq!(err.message, "unexpected character `$`");
    assert_eq!(err.span, Span { file: 0, line: 1, column: 3 });

    let err = tokenize("0x").expect_err("no digits");
    assert_eq!(err.message, "integer literal has no digits");

    let err = tokenize("99999999999999999999").expect_err("too large");
    assert_eq!(
        err.message,
        "integer literal `99999999999999999999` does not fit in 64 bits"
    );

    let err = tokenize("/* open").expect_err("unclosed comment");
    assert_eq!(err.message, "unterminated block comment");

    let err = tokenize("'ab'").expect_err("two bytes");
    assert_eq!(err.message, "character literal must contain exactly one byte");

    let err = tokenize("\"\\q\"").expect_err("unknown escape");
    assert_eq!(err.message, "unknown escape `\\q`");
}

#[test]
fn hex_escapes_need_two_digits() {
    assert_eq!(kinds("'\\x41'"), vec![Tok::Int(65), Tok::Eof]);
    let err = tokenize("'\\x4'").expect_err("one hex digit");
    assert_eq!(err.message, "`\\x` needs two hex digits");
}
