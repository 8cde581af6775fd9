use bf_tools::hypothalamus::bf::Op;
use bf_tools::hypothalamus::llvm::{generate_module, CodegenError, FreestandingOptions, LlvmOptions, Runtime};
use bf_tools::DEFAULT_TAPE_SIZE;

fn options() -> LlvmOptions {
    LlvmOptions {
        tape_size: DEFAULT_TAPE_SIZE,
        target_triple: Some("x86_64-unknown-linux-gnu".to_string()),
        source_filename: Some("test.bf".to_string()),
        bounds_check: false,
        runtime: Runtime::Hosted,
    }
}

#[test]
fn emits_module_header_and_main() {
    let ir = generate_module(&[], &options()).expect("codegen");
    assert!(ir.contains("target triple = \"x86_64-unknown-linux-gnu\""));
    assert!(ir.contains("@tape = internal global [30000 x i8] zeroinitializer"));
    assert!(ir.contains("define i32 @main()"));
    assert!(ir.contains("ret i32 0"));
}

#[test]
fn input_leaves_cell_unchanged_on_eof() {
    let ir = generate_module(&[Op::Input], &options()).expect("codegen");
    assert!(ir.contains("call i32 @getchar()"));
    assert!(ir.contains("icmp eq i32"));
    assert!(ir.contains("input_store_"));
    assert!(ir.contains("input_cont_"));
}

#[test]
fn output_names_putchar_result() {
    let ir = generate_module(&[Op::Output], &options()).expect("codegen");
    assert!(ir.contains(" = call i32 @putchar(i32 "));
}

#[test]
fn emits_loop_blocks() {
    let ir = generate_module(&[Op::Loop(vec![Op::Add(254)])], &options()).expect("codegen");
    assert!(ir.contains("loop_check_"));
    assert!(ir.contains("loop_body_"));
    assert!(ir.contains("loop_end_"));
}

#[test]
fn emits_scan_blocks() {
    let ir = generate_module(&[Op::Loop(vec![Op::Move(1)])], &options()).expect("codegen");
    assert!(ir.contains("scan_check_"));
    assert!(ir.contains("scan_body_"));
    assert!(ir.contains("scan_end_"));
}

#[test]
fn emits_multiply_transfer_loop_without_runtime_loop() {
    let ir = generate_module(
        &[
            Op::Loop(vec![
                Op::Add(255),
                Op::Move(1),
                Op::Add(3),
                Op::Move(1),
                Op::Add(2),
                Op::Move(-2),
            ]),
            Op::Move(1),
            Op::Output,
        ],
        &options(),
    )
    .expect("codegen");

    assert!(ir.contains("mul i8"));
    assert!(ir.contains("store i8 0"));
    assert!(!ir.contains("loop_check_"));
}

#[test]
fn rejects_empty_tape() {
    let mut options = options();
    options.tape_size = 0;
    assert_eq!(
        generate_module(&[], &options).expect_err("invalid tape"),
        CodegenError::InvalidTapeSize(0)
    );
}

#[test]
fn emits_optional_bounds_checks() {
    let mut options = options();
    options.bounds_check = true;
    let ir = generate_module(&[Op::Add(1)], &options).expect("codegen");

    assert!(ir.contains("declare void @llvm.trap()"));
    assert!(ir.contains("bounds_trap_"));
    assert!(ir.contains("icmp ult i64"));
}

#[test]
fn emits_freestanding_entry_and_io_hooks() {
    let mut options = options();
    options.runtime = Runtime::Freestanding(FreestandingOptions::default());

    let ir = generate_module(&[Op::Input, Op::Output], &options).expect("codegen");

    assert!(ir.contains("define void @bf_main()"));
    assert!(ir.contains("declare void @bf_putchar(i8)"));
    assert!(ir.contains("declare i32 @bf_getchar()"));
    assert!(ir.contains("call void @bf_putchar(i8 "));
    assert!(!ir.contains("@putchar"));
    assert!(!ir.contains("define i32 @main()"));
}

#[test]
fn rejects_invalid_freestanding_symbols() {
    let mut options = options();
    options.runtime = Runtime::Freestanding(FreestandingOptions {
        entry_symbol: "bf-main".to_string(),
        ..FreestandingOptions::default()
    });

    assert_eq!(
        generate_module(&[], &options).expect_err("invalid symbol"),
        CodegenError::InvalidSymbolName {
            kind: "entry",
            name: "bf-main".to_string()
        }
    );
}

#[test]
fn windows_targets_switch_the_streams_to_binary() {
    let ir = generate_module(
        &[Op::Output],
        &LlvmOptions {
            target_triple: Some("x86_64-pc-windows-msvc".to_string()),
            ..options()
        },
    )
    .expect("codegen");

    assert!(ir.contains("declare i32 @_setmode(i32, i32)"));
    assert!(ir.contains("%stdin_mode = call i32 @_setmode(i32 0, i32 32768)"));
    assert!(ir.contains("%stdout_mode = call i32 @_setmode(i32 1, i32 32768)"));
}

#[test]
fn other_targets_leave_the_streams_alone() {
    let ir = generate_module(&[Op::Output], &options()).expect("codegen");
    assert!(!ir.contains("_setmode"));
}

#[test]
fn freestanding_targets_have_no_streams_to_switch() {
    let ir = generate_module(
        &[Op::Output],
        &LlvmOptions {
            target_triple: Some("x86_64-pc-windows-msvc".to_string()),
            runtime: Runtime::Freestanding(FreestandingOptions::default()),
            ..options()
        },
    )
    .expect("codegen");

    assert!(!ir.contains("_setmode"));
}
