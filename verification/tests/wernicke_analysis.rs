use bf_tools::cranium::ast::Program;
use bf_tools::cranium::lexer::tokenize;
use bf_tools::cranium::parser::parse;
use bf_tools::wernicke::analysis::{completions, describe, signature, symbols, SymbolKind};

fn program_of(source: &str) -> Program {
    let tokens = tokenize(source).expect("valid tokens");
    parse(tokens).expect("valid program")
}

#[test]
fn lists_top_level_definitions() {
    let program = program_of(
        "const K = 1;\nlet total: int = 0;\nfn add(a: byte, b: byte) -> int { return 0; }\nfn main() { }\n",
    );
    let found = symbols(&program);
    let names: Vec<&str> = found.iter().map(|s| s.name.as_str()).collect();
    assert_eq!(names, ["K", "total", "add", "main"]);

    assert_eq!(found[0].kind, SymbolKind::Constant);
    assert_eq!(found[1].detail, "let total: int");
    assert_eq!(found[2].detail, "fn add(a: byte, b: byte) -> int");
    assert_eq!(found[3].detail, "fn main()");
}

#[test]
fn describes_names_types_and_builtins() {
    let program = program_of("fn square(n: byte) -> int { return 0; }\n");
    assert_eq!(
        describe("square", Some(&program)).as_deref(),
        Some("fn square(n: byte) -> int")
    );
    assert!(describe("putc", None).unwrap().contains("raw byte"));
    assert!(describe("sint", None).unwrap().contains("signed 16-bit"));
    assert!(describe("while", None).unwrap().contains("keyword"));
    assert_eq!(describe("nothing_at_all", Some(&program)), None);
}

#[test]
fn offers_keywords_builtins_and_program_names() {
    let program = program_of("const LIMIT = 5;\nfn helper() { }\n");
    let offered = completions(Some(&program));
    let labels: Vec<&str> = offered.iter().map(|(label, _, _)| label.as_str()).collect();

    assert!(labels.contains(&"while"));
    assert!(labels.contains(&"sbyte"));
    assert!(labels.contains(&"println"));
    assert!(labels.contains(&"LIMIT"));
    assert!(labels.contains(&"helper"));
}

#[test]
fn signatures_spell_array_parameters_and_kinds_have_codes() {
    let program = program_of("fn fill(buf: byte[16], n: int) { }\n");
    let Some(bf_tools::cranium::ast::Item::Function(function)) = program.items.first() else {
        panic!("expected a function");
    };
    assert_eq!(signature(function), "fn fill(buf: byte[16], n: int)");
    assert_eq!(SymbolKind::Function.lsp_code(), 12);
    assert_eq!(SymbolKind::Constant.lsp_code(), 14);
    assert_eq!(SymbolKind::Variable.lsp_code(), 13);
    let offered = completions(None);
    assert_eq!(offered.len(), 16 + 5 + 6);
    assert_eq!(offered[0], ("fn".to_string(), 14, "keyword".to_string()));
}
