use bf_tools::hypothalamus::bf::{parse, Op, SourcePosition, SyntaxError};
use bf_tools::hypothalamus::ir::{check_travel, optimize, optimize_checked, Ir};

#[test]
fn ignores_non_commands_and_combines_runs() {
    let ops = parse(b"++ ignored -- >><< .").expect("valid program");
    assert_eq!(ops, vec![Op::Output]);
}

#[test]
fn builds_nested_loops() {
    let ops = parse(b"+[>+[<-]>]").expect("valid program");
    assert_eq!(
        ops,
        vec![
            Op::Add(1),
            Op::Loop(vec![
                Op::Move(1),
                Op::Add(1),
                Op::Loop(vec![Op::Move(-1), Op::Add(255)]),
                Op::Move(1)
            ])
        ]
    );
}

#[test]
fn recognizes_clear_loops() {
    assert_eq!(parse(b"[-][+]").expect("valid program"), vec![Op::Clear]);
}

#[test]
fn reports_unmatched_close() {
    let err = parse(b"]").expect_err("program should be invalid");
    assert_eq!(
        err,
        SyntaxError::UnmatchedClose(SourcePosition {
            byte: 0,
            line: 1,
            column: 1
        })
    );
}

#[test]
fn reports_unmatched_open() {
    let err = parse(b"\n[").expect_err("program should be invalid");
    assert_eq!(
        err,
        SyntaxError::UnmatchedOpen(SourcePosition {
            byte: 1,
            line: 2,
            column: 1
        })
    );
}

#[test]
fn combines_offset_arithmetic() {
    let ops = parse(b">+<->").expect("valid program");
    assert_eq!(
        optimize(&ops),
        vec![
            Ir::Add {
                offset: 0,
                delta: 255
            },
            Ir::Add {
                offset: 1,
                delta: 1
            },
            Ir::Move(1)
        ]
    );
}

#[test]
fn removes_dead_add_before_clear() {
    let ops = parse(b"+++[-]").expect("valid program");
    assert_eq!(
        optimize(&ops),
        vec![Ir::Store {
            offset: 0,
            value: 0
        }]
    );
}

#[test]
fn recognizes_scan_loops() {
    let ops = parse(b"[>]").expect("valid program");
    assert_eq!(optimize(&ops), vec![Ir::Scan(1)]);
}

#[test]
fn recognizes_multiply_transfer_loops() {
    let ops = parse(b"[->+++>++<<]").expect("valid program");
    assert_eq!(
        optimize(&ops),
        vec![Ir::AddMul {
            terms: vec![(1, 3), (2, 2)]
        }]
    );
}

#[test]
fn recognizes_incrementing_transfer_loops() {
    let ops = parse(b"[+>+<]").expect("valid program");
    assert_eq!(
        optimize(&ops),
        vec![Ir::AddMul {
            terms: vec![(1, 255)]
        }]
    );
}

#[test]
fn leaves_non_terminating_linear_loops_alone() {
    let ops = parse(b"[--]").expect("valid program");
    assert_eq!(
        optimize(&ops),
        vec![Ir::Loop(vec![Ir::Add {
            offset: 0,
            delta: 254
        }])]
    );
}

#[test]
fn clear_after_moves_keeps_pointer_travel() {
    let ops = parse(b">>[-]<").expect("valid program");
    assert_eq!(
        optimize(&ops),
        vec![
            Ir::Store {
                offset: 2,
                value: 0
            },
            Ir::Move(1)
        ]
    );
}

#[test]
fn wrap_byte_reduces_deltas() {
    use_wrap();
}

fn use_wrap() {
    assert_eq!(bf_tools::hypothalamus::bf::wrap_byte(-1), 255);
    assert_eq!(bf_tools::hypothalamus::bf::wrap_byte(256), 0);
    assert_eq!(bf_tools::hypothalamus::bf::wrap_byte(513), 1);
}

#[test]
fn checked_optimization_accepts_parsed_programs() {
    let ops = parse(b"[+>+<]").unwrap();
    assert!(check_travel(&ops));
    assert_eq!(optimize_checked(&ops), Some(vec![Ir::AddMul { terms: vec![(1, 255)] }]));
}

#[test]
fn checked_optimization_refuses_travel_past_an_i64() {
    let ops = vec![Op::Move(i64::MAX), Op::Output, Op::Move(1)];
    assert!(!check_travel(&ops));
    assert_eq!(optimize_checked(&ops), None);
    let nested = vec![Op::Loop(vec![Op::Move(i64::MIN)])];
    assert!(!check_travel(&nested));
}

#[test]
fn straight_line_source_folds_command_by_command() {
    assert_eq!(parse(b"+++--a>><").unwrap(), vec![Op::Add(1), Op::Move(1)]);
    assert_eq!(parse(b"+-><comment").unwrap(), vec![]);
    assert_eq!(parse(b"-.,").unwrap(), vec![Op::Add(255), Op::Output, Op::Input]);
}
