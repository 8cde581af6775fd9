use bf_tools::hypothalamus::bf::parse;
use bf_tools::hypothalamus::ir::Ir;
use bf_tools::hypothalamus::runner::{run_ir, run_ops, Machine, RunError};

fn run(source: &[u8], input: &[u8]) -> Result<Vec<u8>, RunError> {
    let ops = parse(source).expect("valid Brainfuck");
    let mut output = Vec::new();
    run_ops(&ops, 30_000, input, &mut output)?;
    Ok(output)
}

#[test]
fn runs_output_program() {
    assert_eq!(run(b"+++++[>++++++++<-]>+.", b"").unwrap(), b")");
}

#[test]
fn reads_stdin_and_leaves_cell_on_eof() {
    assert_eq!(run(b",+.,+.", b"A").unwrap(), b"BC");
}

#[test]
fn reports_pointer_underflow() {
    let ops = parse(b"<").expect("valid Brainfuck");
    let mut output = Vec::new();

    assert!(matches!(
        run_ops(&ops, 30_000, b"", &mut output),
        Err(RunError::PointerOutOfBounds { pointer: -1 })
    ));
}

#[test]
fn an_empty_tape_is_refused() {
    let ops = parse(b"+.").expect("valid Brainfuck");
    let mut output = Vec::new();
    assert_eq!(run_ops(&ops, 0, b"", &mut output), Err(RunError::EmptyTape));
    assert!(output.is_empty());
}

#[test]
fn running_off_the_top_of_the_tape_is_reported() {
    let mut output = Vec::new();
    let program = vec![Ir::Move(3)];
    assert_eq!(
        run_ir(&program, 3, b"", &mut output),
        Err(RunError::PointerOutOfBounds { pointer: 3 })
    );
}

#[test]
fn transfers_and_scans_run_as_written() {
    // 5 copied twice over, then a scan back to the cleared source.
    let program = vec![
        Ir::Add { offset: 0, delta: 5 },
        Ir::AddMul { terms: vec![(1, 2)] },
        Ir::Move(1),
        Ir::Output { offset: 0 },
        Ir::Scan(-1),
        Ir::Output { offset: 0 },
    ];
    let mut output = Vec::new();
    assert_eq!(run_ir(&program, 8, b"", &mut output), Ok(()));
    assert_eq!(output, vec![10, 0]);
}

#[test]
fn a_machine_steps_one_operation_at_a_time() {
    let program = vec![Ir::Store { offset: 0, value: 7 }, Ir::Output { offset: 0 }];
    let mut machine = Machine::new(&program, 4);
    assert!(!machine.is_halted());
    assert_eq!(machine.step(None), Ok(None));
    assert_eq!(machine.tape()[0], 7);
    assert_eq!(machine.step(None), Ok(Some(7)));
    assert!(machine.is_halted());
}
