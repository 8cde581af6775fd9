use bf_tools::cranium::ast::{BinOp, Expr, Item, Program, Stmt, Type};
use bf_tools::cranium::lexer::tokenize;
use bf_tools::cranium::parser::{parse, ParseError};

fn parse_src(src: &str) -> Result<Program, ParseError> {
    parse(tokenize(src).expect("valid tokens"))
}

#[test]
fn parses_a_function() {
    let program = parse_src("fn main() { let x: byte = 1; }").expect("valid program");
    let Item::Function(function) = &program.items[0] else {
        panic!("expected a function");
    };
    assert_eq!(function.name, "main");
    assert_eq!(function.ret, Type::Unit);
    assert_eq!(function.body.len(), 1);
}

#[test]
fn respects_precedence() {
    let program = parse_src("fn main() { let x = 1 + 2 * 3; }").expect("valid program");
    let Item::Function(function) = &program.items[0] else {
        panic!("expected a function");
    };
    let Stmt::Let {
        init: Some(init), ..
    } = &function.body[0]
    else {
        panic!("expected a let with an initializer");
    };
    let Expr::Binary { op, rhs, .. } = init else {
        panic!("expected a binary expression");
    };
    assert_eq!(*op, BinOp::Add);
    assert!(matches!(**rhs, Expr::Binary { op: BinOp::Mul, .. }));
}

#[test]
fn parses_else_if_chains() {
    let program =
        parse_src("fn main() { if 1 { } else if 2 { } else { } }").expect("valid program");
    let Item::Function(function) = &program.items[0] else {
        panic!("expected a function");
    };
    let Stmt::If {
        else_block: Some(chain),
        ..
    } = &function.body[0]
    else {
        panic!("expected an if with an else");
    };
    assert!(matches!(chain[0], Stmt::If { .. }));
}

#[test]
fn rejects_nested_array_types() {
    let err = parse_src("fn main() { let g: byte[2][2]; }").expect_err("nested arrays");
    assert!(err.message.contains("nested array"));
}

#[test]
fn parses_compound_assignment() {
    let program = parse_src("fn main() { let x = 0; x += 2; }").expect("valid program");
    let Item::Function(function) = &program.items[0] else {
        panic!("expected a function");
    };
    assert!(matches!(
        function.body[1],
        Stmt::Assign {
            op: Some(BinOp::Add),
            ..
        }
    ));
}

#[test]
fn parses_items_of_every_kind() {
    let program = parse_src(
        "import \"lib.cra\"; const N: byte = 3; let g: int[4]; fn f(a: byte, b: sint) -> bool { return a < 2; }",
    )
    .expect("valid program");
    assert_eq!(program.items.len(), 4);
    assert!(matches!(&program.items[0], Item::Import { path, .. } if path == "lib.cra"));
    assert!(matches!(&program.items[1], Item::Const { name, ty: Some(Type::Byte), .. } if name == "N"));
    assert!(matches!(
        &program.items[2],
        Item::Global { ty: Some(Type::Array { length: 4, .. }), init: None, .. }
    ));
    let Item::Function(function) = &program.items[3] else {
        panic!("expected a function");
    };
    assert_eq!(function.params.len(), 2);
    assert_eq!(function.params[1].ty, Type::SInt);
    assert_eq!(function.ret, Type::Bool);
}

#[test]
fn parses_calls_casts_indexing_and_loops() {
    let program = parse_src(
        "fn main() { for i in 0..10 { a[i] = f(i, -x) as byte; } while !done { break; } loop { continue; } }",
    )
    .expect("valid program");
    let Item::Function(function) = &program.items[0] else {
        panic!("expected a function");
    };
    let Stmt::For { body, .. } = &function.body[0] else {
        panic!("expected a for loop");
    };
    let Stmt::Assign { target, value, op: None, .. } = &body[0] else {
        panic!("expected an assignment");
    };
    assert!(matches!(target, Expr::Index { .. }));
    let Expr::Cast { value: inner, ty: Type::Byte, .. } = value else {
        panic!("expected a cast");
    };
    assert!(matches!(&**inner, Expr::Call { name, args, .. } if name == "f" && args.len() == 2));
    assert!(matches!(function.body[1], Stmt::While { .. }));
    assert!(matches!(function.body[2], Stmt::Loop { .. }));
}

#[test]
fn reports_what_it_expected_and_where() {
    let err = parse_src("fn main() { let x = 1 }").expect_err("missing semicolon");
    assert_eq!(err.message, "expected `;`, found `}`");
    assert_eq!(err.span.line, 1);
    assert_eq!(err.span.column, 23);

    let err = parse_src("fn if() {}").expect_err("keyword name");
    assert_eq!(err.message, "`if` is a keyword and cannot be a name");

    let err = parse_src("let x: float;").expect_err("unknown type");
    assert_eq!(err.message, "unknown type `float`");

    let err = parse_src("42").expect_err("no item");
    assert_eq!(
        err.message,
        "expected `import`, `fn`, `const`, or `let` at the top level, found `42`"
    );

    let err = parse_src("fn main() {").expect_err("unclosed block");
    assert_eq!(err.message, "unexpected end of file inside a block");
}

#[test]
fn comparisons_are_the_operators_spelled_as_comparisons() {
    let all = [
        BinOp::Add, BinOp::Sub, BinOp::Mul, BinOp::Div, BinOp::Rem, BinOp::Eq, BinOp::Ne,
        BinOp::Lt, BinOp::Le, BinOp::Gt, BinOp::Ge, BinOp::And, BinOp::Or, BinOp::BitAnd,
        BinOp::BitOr, BinOp::BitXor, BinOp::Shl, BinOp::Shr,
    ];
    for op in all {
        let spelled = ["==", "!=", "<", "<=", ">", ">="].contains(&op.spelling());
        assert_eq!(op.is_comparison(), spelled, "{op:?}");
    }
}
