use bf_tools::hypothalamus::codegen::Runtime;
use bf_tools::hypothalamus::driver::CompilerConfig;
use bf_tools::hypothalamus::target::TargetProfile;
use bf_tools::cranium::wrap;
use bf_tools::hypothalamus::bf::parse;
use bf_tools::lobe::{create_runtime, CellSize};
use bf_tools::trepan::{lift, LiftError};

#[test]
fn bracket_errors_name_the_line_and_column() {
    let error = parse(b"+\n +[").unwrap_err();
    assert_eq!(error.text(), "unmatched '[' at line 2, column 3");
    let error = parse(b"]").unwrap_err();
    assert_eq!(error.text(), "unmatched ']' at line 1, column 1");
}

#[test]
fn declined_lifts_say_why() {
    let scan = LiftError::Scan(1).text();
    assert!(scan.contains("`[>]`"), "{scan}");
    assert!(scan.contains("cannot become variables"), "{scan}");
    assert!(LiftError::Scan(-1).text().contains("`[<]`"));
    assert_eq!(
        LiftError::Unbalanced(-1).text(),
        "a loop here leaves the pointer 1 cell from where it started, so the position after it \
         depends on how many times it ran and the cells after it cannot become variables"
    );
    assert!(LiftError::Unbalanced(3).text().contains("pointer 3 cells from"));
    assert!(LiftError::Unbalanced(i64::MIN).text().contains("pointer 9223372036854775808 cells"));
    let error = lift(b"[>]", "scan.bf").unwrap_err();
    let message = error.text();
    assert!(message.contains("pointer"), "{message}");
    assert!(message.contains("cannot become variables"), "{message}");
    assert_eq!(lift(b"[", "open.bf").unwrap_err().text(), "unmatched '[' at line 1, column 1");
}

#[test]
fn lobe_parse_errors_read_as_before() {
    let error = create_runtime("[[", CellSize::Bits8).err().expect("unbalanced");
    assert_eq!(error.text(), "Unmatched opening brackets: 2 remaining");
    let error = create_runtime("]", CellSize::Bits8).err().expect("unbalanced");
    assert_eq!(error.text(), "Unmatched closing bracket");
}

#[test]
fn emitted_code_is_wrapped_at_seventy_two_commands() {
    assert_eq!(wrap(""), "\n");
    assert_eq!(wrap("+-"), "+-\n");
    let code = "+".repeat(150);
    let wrapped = wrap(&code);
    let lines: Vec<&str> = wrapped.lines().collect();
    assert_eq!(lines.len(), 3);
    assert_eq!(lines[0].len(), 72);
    assert_eq!(lines[1].len(), 72);
    assert_eq!(lines[2].len(), 6);
    assert!(wrapped.ends_with('\n'));
}

#[test]
fn a_config_asks_for_its_tape_and_runtime() {
    let mut config = CompilerConfig::new("hello.bf");
    config.tape_size = 1234;
    config.bounds_check = true;
    let options = config.codegen_options();
    assert_eq!(options.tape_size, 1234);
    assert!(options.bounds_check);
    assert!(options.binary_stdio);
    assert!(matches!(options.runtime, Runtime::Hosted));

    let freestanding = CompilerConfig::for_target("kernel.bf", TargetProfile::resolve("x86_64-none"));
    match freestanding.codegen_options().runtime {
        Runtime::Freestanding(hooks) => assert_eq!(hooks.entry_symbol, "bf_main"),
        Runtime::Hosted => panic!("a freestanding target keeps its hooks"),
    }
}
