use bf_tools::trepan::cli::{default_output, parse_args};
use bf_tools::trepan::{lift, LiftError};

fn body(source: &str) -> String {
    let lifted = lift(source.as_bytes(), "test").expect("lifts");
    let start = lifted.source.find("fn main() {\n").expect("has a main");
    lifted.source[start + "fn main() {\n".len()..]
        .strip_suffix("}\n")
        .expect("main is closed")
        .to_string()
}

fn args(values: &[&str]) -> Vec<String> {
    values.iter().map(|value| value.to_string()).collect()
}

#[test]
fn adds_become_assignments_to_named_cells() {
    assert_eq!(body("+++>++"), "    c0 += 3;\n    c1 += 2;\n");
}

#[test]
fn a_large_delta_reads_as_a_subtraction() {
    // 255 `+` is one `-` on a wrapping byte.
    let source = "+".repeat(255);
    assert_eq!(body(&source), "    c0 -= 1;\n");
}

#[test]
fn clear_loops_become_stores() {
    assert_eq!(body("+++[-]"), "    c0 = 0;\n");
}

#[test]
fn a_clear_after_a_read_keeps_the_read() {
    assert_eq!(body(",[-]"), "    c0 = getc();\n    c0 = 0;\n");
}

#[test]
fn transfer_loops_become_addition() {
    assert_eq!(
        body("+++[->+<]"),
        "    c0 += 3;\n    c1 += c0;\n    c0 = 0;\n"
    );
}

#[test]
fn multiply_loops_keep_their_factor() {
    assert_eq!(
        body("++[->+++<]"),
        "    c0 += 2;\n    c1 += c0 * 3;\n    c0 = 0;\n"
    );
}

#[test]
fn io_becomes_getc_and_putc() {
    assert_eq!(body(",."), "    c0 = getc();\n    putc(c0);\n");
}

#[test]
fn loops_nest_and_the_pointer_comes_back() {
    assert_eq!(
        body("+>+[<[->+<]>-]"),
        "    c0 += 1;\n    c1 += 1;\n    while c1 != 0 {\n        c1 += c0;\n        \
         c0 = 0;\n        c1 -= 1;\n    }\n"
    );
}

#[test]
fn declares_every_cell_it_touches() {
    let lifted = lift(b">>+<<+", "test").expect("lifts");
    assert!(lifted.source.contains("let c0 = 0;"), "{}", lifted.source);
    assert!(lifted.source.contains("let c2 = 0;"), "{}", lifted.source);
    // Cell 1 is only passed over, never touched.
    assert!(!lifted.source.contains("let c1 = 0;"), "{}", lifted.source);
    assert_eq!(lifted.cells, 2);
}

#[test]
fn declines_a_scan() {
    assert_eq!(lift(b"+>+[>]", "test").unwrap_err(), LiftError::Scan(1));
}

#[test]
fn declines_an_unbalanced_loop() {
    assert_eq!(
        lift(b"+[>+]", "test").unwrap_err(),
        LiftError::Unbalanced(1)
    );
}

#[test]
fn reports_where_the_brainfuck_does_not_parse() {
    assert!(matches!(lift(b"+[+", "test"), Err(LiftError::Syntax(_))));
}

#[test]
fn an_empty_program_still_lifts() {
    let lifted = lift(b"", "test").expect("lifts");
    assert_eq!(lifted.cells, 0);
    assert!(
        lifted.source.ends_with("fn main() {\n}\n"),
        "{}",
        lifted.source
    );
}

#[test]
fn the_label_names_the_source_in_the_header() {
    let lifted = lift(b"+", "hello.bf").expect("lifts");
    assert!(lifted.source.contains("hello.bf"), "{}", lifted.source);
    assert_eq!(lifted.statements, 1);
}

#[test]
fn takes_an_input_and_an_output() {
    let options = parse_args(&args(&["in.bf", "-o", "out.cra"])).expect("parses");

    assert_eq!(options.input, "in.bf");
    assert_eq!(options.output, Some("out.cra".to_string()));
    assert!(!options.stdout);
}

#[test]
fn a_dash_means_standard_output() {
    let options = parse_args(&args(&["in.bf", "-o", "-"])).expect("parses");

    assert!(options.stdout);
    assert_eq!(options.output, None);
}

#[test]
fn defaults_the_output_to_a_cra_beside_the_input() {
    assert_eq!(default_output("bf/hello.bf"), "bf/hello.cra");
}

#[test]
fn rejects_a_second_input() {
    assert!(parse_args(&args(&["one.bf", "two.bf"])).is_err());
}

#[test]
fn rejects_an_unknown_option() {
    assert!(parse_args(&args(&["in.bf", "--lift-everything"])).is_err());
}

#[test]
fn needs_an_input() {
    assert!(parse_args(&args(&["--stats"])).is_err());
}

#[test]
fn lifted_cranium_compiles_and_does_what_the_brainfuck_did() {
    let hello = "++++++++[>++++[>++>+++>+++>+<<<<-]>+>+>->>+[<]<-]>>.>---.+++++++..+++.>>.<-.<.+++.------.--------.>>+.>++.";
    let simple = "++++++++[>++++++++<-]>+.+.+.";
    for source in [simple, hello] {
        let mut runtime = bf_tools::lobe::create_runtime_with_tape(source, bf_tools::lobe::CellSize::Bits8, 30_000)
            .expect("valid brainfuck");
        let mut original = Vec::new();
        runtime.run_with_io(&[], &mut original).expect("runs");
        let lifted = match bf_tools::trepan::lift(source.as_bytes(), "test") {
            Ok(lifted) => lifted,
            Err(_) => continue,
        };
        let compiled = bf_tools::cranium::compile_str(&lifted.source)
            .unwrap_or_else(|error| panic!("{}\n\n{}", error.text(), lifted.source));
        let mut runtime = bf_tools::lobe::create_runtime_with_tape(
            &compiled.code,
            bf_tools::lobe::CellSize::Bits8,
            compiled.cells_used.max(30_000),
        )
        .expect("cranium emits valid brainfuck");
        let mut output = Vec::new();
        runtime.run_with_io(&[], &mut output).expect("runs");
        assert_eq!(output, original);
    }
}
