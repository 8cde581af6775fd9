use bf_tools::lobe::{create_runtime, create_runtime_with_tape, CellSize, ParseError, DEFAULT_TAPE_SIZE};

fn run_bytes(src: &str, cell_size: CellSize, input: &[u8]) -> Vec<u8> {
    let mut runtime = create_runtime(src, cell_size).unwrap();
    let mut output = Vec::new();
    runtime.run_with_io(input, &mut output).unwrap();
    output
}

fn run_text(src: &str) -> String {
    String::from_utf8(run_bytes(src, CellSize::Bits8, &[])).unwrap()
}

#[test]
fn test_parser_bracket_matching() {
    assert!(create_runtime("++[>+<-]", CellSize::Bits8).is_ok());
    assert!(create_runtime("++[>+<-", CellSize::Bits8).is_err());
    assert!(create_runtime("++>+<-]", CellSize::Bits8).is_err());
    assert!(create_runtime("++[>+[<-]]", CellSize::Bits8).is_ok());
}

#[test]
fn test_parser_comment_stripping() {
    let output = run_bytes(
        "This is a comment +>++.< and more comment",
        CellSize::Bits8,
        &[],
    );

    assert_eq!(output, vec![2]);
}

#[test]
fn test_hello_world_output() {
    let hello_world = "++++++++[>++++[>++>+++>+++>+<<<<-]>+>+>->>+[<]<-]>>.>---.+++++++..+++.>>.<-.<.+++.------.--------.>>+.>++.";

    assert_eq!(run_text(hello_world), "Hello World!\n");
}

#[test]
fn test_simple_increment_output() {
    assert_eq!(run_bytes("+++++.", CellSize::Bits8, &[]), vec![5]);
}

#[test]
fn test_data_pointer_movement() {
    assert_eq!(run_bytes(">++<+>.", CellSize::Bits8, &[]), vec![2]);
}

#[test]
fn test_empty_program() {
    assert_eq!(run_bytes("", CellSize::Bits8, &[]), Vec::<u8>::new());
}

#[test]
fn test_loop_execution() {
    assert_eq!(run_bytes("+++++[-].", CellSize::Bits8, &[]), vec![0]);
}

#[test]
fn test_nested_loops() {
    assert_eq!(
        run_bytes("++[>++[>++<-]<-]>>.", CellSize::Bits8, &[]),
        vec![8]
    );
}

#[test]
fn test_pointer_wrapping() {
    assert_eq!(run_bytes("<+.", CellSize::Bits8, &[]), vec![1]);
}

#[test]
fn test_input_echo() {
    assert_eq!(run_bytes(",.", CellSize::Bits8, b"A"), b"A");
}

#[test]
fn test_eof_input_sets_cell_to_zero() {
    assert_eq!(run_bytes(",.", CellSize::Bits8, &[]), vec![0]);
}

#[test]
fn test_non_8_bit_cell_wrapping_outputs_number() {
    let output = String::from_utf8(run_bytes("-.", CellSize::Bits16, &[])).unwrap();

    assert_eq!(output, "65535");
}

#[test]
fn test_output_writes_raw_bytes() {
    let program = "+".repeat(200) + ".";
    assert_eq!(run_bytes(&program, CellSize::Bits8, &[]), vec![200]);
}

#[test]
fn test_tape_size_is_configurable() {
    let runtime = create_runtime_with_tape("+", CellSize::Bits8, 100_000).unwrap();
    assert_eq!(runtime.tape_size(), 100_000);

    let runtime = create_runtime_with_tape("+", CellSize::Bits8, 0).unwrap();
    assert_eq!(runtime.tape_size(), DEFAULT_TAPE_SIZE);
}

#[test]
fn test_pointer_wraps_at_the_configured_tape_size() {
    let mut runtime = create_runtime_with_tape(
        "<+++++++++++++++++++++++++++++++++++++++++++++++++.",
        CellSize::Bits8,
        4,
    )
    .unwrap();
    let mut output = Vec::new();
    runtime.run_with_io(&[], &mut output).unwrap();
    assert_eq!(output, vec![49]);
    assert_eq!(runtime.tape_size(), 4);
}

#[test]
fn wide_cells_wrap_at_their_width() {
    assert_eq!(run_bytes("-+.", CellSize::Bits16, &[]), b"0");
    assert_eq!(run_bytes("-.", CellSize::Bits32, &[]), b"4294967295");
    assert_eq!(run_bytes("-.", CellSize::Bits64, &[]), b"18446744073709551615");
}

#[test]
fn unbalanced_brackets_report_which_side() {
    assert_eq!(create_runtime("]", CellSize::Bits8).err(), Some(ParseError::UnmatchedClose));
    assert_eq!(create_runtime("[[]", CellSize::Bits8).err(), Some(ParseError::UnmatchedOpen(1)));
}
