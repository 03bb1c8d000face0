use minilang::common::{ErrorKind, Expr, Position, Program, Stmt, Token, Type};
use minilang::lexer::tokenize;
use minilang::parser::expressions::parse_expression;
use minilang::parser::Parser;

fn parse_src(src: &str) -> Result<Program, minilang::common::CompileError> {
    let tokens = tokenize(src).expect("lexes");
    Parser::new(tokens).parse()
}

fn expr_of(src: &str) -> Expr {
    let mut parser = Parser::new(tokenize(src).unwrap());
    parse_expression(&mut parser).unwrap()
}

fn int_of(e: &Expr) -> i64 {
    match e {
        Expr::IntegerLiteral(n) => *n,
        other => panic!("not an integer literal: {:?}", other),
    }
}

fn binary(e: &Expr) -> (&str, &Expr, &Expr) {
    match e {
        Expr::BinaryOperator { operator, left, right } => (operator.as_str(), left, right),
        other => panic!("not a binary operator: {:?}", other),
    }
}

fn main_body(p: &Program) -> &Vec<Stmt> {
    match &p.functions[0] {
        Stmt::Function { body, .. } => body,
        other => panic!("not a function: {:?}", other),
    }
}

#[test]
fn operators_chain_to_the_right_without_precedence() {
    // 2 + 3 * 4 reads as 2 + (3 * 4).
    let e = expr_of("2 + 3 * 4");
    let (op, l, r) = binary(&e);
    assert_eq!(op, "+");
    assert_eq!(int_of(l), 2);
    let (op2, l2, r2) = binary(r);
    assert_eq!(op2, "*");
    assert_eq!((int_of(l2), int_of(r2)), (3, 4));

    // 2 * 3 + 4 reads as 2 * (3 + 4), not as (2 * 3) + 4.
    let e = expr_of("2 * 3 + 4");
    let (op, l, r) = binary(&e);
    assert_eq!(op, "*");
    assert_eq!(int_of(l), 2);
    assert_eq!(binary(r).0, "+");

    // 1 - 2 - 3 reads as 1 - (2 - 3).
    let e = expr_of("1 - 2 - 3");
    let (op, l, r) = binary(&e);
    assert_eq!((op, int_of(l)), ("-", 1));
    let (op2, l2, r2) = binary(r);
    assert_eq!((op2, int_of(l2), int_of(r2)), ("-", 2, 3));
}

#[test]
fn comparison_takes_the_whole_right_side() {
    let e = expr_of("a < b + 1");
    match e {
        Expr::BooleanComparison { lvalue, operator, rvalue } => {
            assert!(matches!(*lvalue, Expr::Variable(ref n) if n == "a"));
            assert_eq!(operator, Token::LessThan);
            assert_eq!(binary(&rvalue).0, "+");
        }
        other => panic!("{:?}", other),
    }
}

#[test]
fn operators_after_a_call_continue_the_chain() {
    // 1 + f(2) * 3 reads as 1 + (f(2) * 3).
    let e = expr_of("1 + f(2) * 3");
    let (op, l, r) = binary(&e);
    assert_eq!((op, int_of(l)), ("+", 1));
    let (op2, l2, r2) = binary(r);
    assert_eq!(op2, "*");
    assert!(matches!(l2, Expr::Call { callee, args } if callee == "f" && args.len() == 1));
    assert_eq!(int_of(r2), 3);
}

#[test]
fn call_followed_by_an_operator() {
    let mut parser = Parser::new(tokenize("f(1) + 2;").unwrap());
    let e = parse_expression(&mut parser).unwrap();
    let (op, l, r) = binary(&e);
    assert_eq!(op, "+");
    assert!(matches!(l, Expr::Call { callee, .. } if callee == "f"));
    assert_eq!(int_of(r), 2);
    let e = expr_of("print(1) == 0");
    assert!(matches!(e, Expr::BooleanComparison { .. }));
}

#[test]
fn operator_before_a_delimiter_is_an_error() {
    let mut parser = Parser::new(tokenize("1 + ;").unwrap());
    let err = parse_expression(&mut parser).unwrap_err();
    assert_eq!(err.kind, ErrorKind::Parse);
    assert_eq!(err.position, Position::new(1, 5));
}

#[test]
fn program_with_externs_and_functions() {
    let p = parse_src(
        "extern fn exit(code: int);\nextern fn getenv(n: int, m: bool) str;\nfn add(a: int, b: int) { } return a + b;\nfn main() { print(add(1, 2)); }",
    )
    .unwrap();
    assert_eq!(p.externs.len(), 2);
    assert_eq!(p.externs[0].name, "exit");
    assert_eq!(p.externs[0].args, vec![("code".to_string(), Type::Int)]);
    assert_eq!(p.externs[0].return_type, "");
    assert_eq!(p.externs[1].return_type, "str");
    assert_eq!(p.externs[1].args[1], ("m".to_string(), Type::Bool));
    assert_eq!(p.functions.len(), 2);
    match &p.functions[0] {
        Stmt::Function { name, args, body, return_expr } => {
            assert_eq!(name, "add");
            assert_eq!(args.len(), 2);
            assert!(body.is_empty());
            assert_eq!(binary(return_expr.as_ref().unwrap()).0, "+");
        }
        other => panic!("{:?}", other),
    }
}

#[test]
fn statements_of_every_kind() {
    let p = parse_src(
        "fn main() { var x: int = 1; x = x + 1; while x < 3 { x = x + 1; } return x; }",
    )
    .unwrap();
    let body = main_body(&p);
    assert_eq!(body.len(), 4);
    assert!(matches!(&body[0], Stmt::VariableDecl { name, var_type, .. } if name == "x" && var_type == "int"));
    assert!(matches!(&body[1], Stmt::Assignment { name, .. } if name == "x"));
    assert!(matches!(&body[2], Stmt::While { body, .. } if body.len() == 1));
    assert!(matches!(&body[3], Stmt::Return(Expr::Variable(n)) if n == "x"));
}

#[test]
fn semicolons_between_statements_are_optional() {
    let p = parse_src("fn main() { print(1) print(2); print(3) }").unwrap();
    assert_eq!(main_body(&p).len(), 3);
}

#[test]
fn else_if_is_the_only_statement_of_the_else_branch() {
    let p = parse_src(
        "fn main() { if a == 1 { print(1); } else if a == 2 { print(2); } else { print(3); } }",
    )
    .unwrap();
    match &main_body(&p)[0] {
        Stmt::IfStatement { body, else_body: Some(eb), .. } => {
            assert_eq!(body.len(), 1);
            assert_eq!(eb.len(), 1);
            assert!(matches!(&eb[0], Stmt::IfStatement { else_body: Some(inner), .. } if inner.len() == 1));
        }
        other => panic!("{:?}", other),
    }
}

#[test]
fn nested_block_is_read_and_dropped() {
    let p = parse_src("fn main() { { print(\"x\"); } }").unwrap();
    let body = main_body(&p);
    assert_eq!(body.len(), 1);
    assert!(matches!(&body[0], Stmt::ExprStmt(Expr::BooleanLiteral(true))));
}

#[test]
fn else_without_block_is_an_error() {
    let err = parse_src("fn main() { if true { } else print(1); }").unwrap_err();
    assert_eq!(err.kind, ErrorKind::Parse);
    assert_eq!(err.position, Position::new(1, 30));
}

#[test]
fn unexpected_top_level_token_is_an_error() {
    let err = parse_src("var x: int = 1;").unwrap_err();
    assert_eq!(err.kind, ErrorKind::Parse);
    assert_eq!(err.position, Position::new(1, 1));
}

#[test]
fn unknown_parameter_type_is_an_error() {
    let err = parse_src("fn f(a: fn) { }").unwrap_err();
    assert_eq!(err.position, Position::new(1, 9));
    let err = parse_src("fn f(a: x) { }").unwrap_err();
    assert_eq!(err.position, Position::new(1, 9));
}

#[test]
fn variable_type_must_be_int_or_bool() {
    let err = parse_src("fn main() { var s: str = 1; }").unwrap_err();
    assert_eq!(err.kind, ErrorKind::Parse);
    assert_eq!(err.position, Position::new(1, 20));
}

#[test]
fn missing_closing_brace_is_an_error_at_the_end() {
    let err = parse_src("fn main() { print(1);").unwrap_err();
    assert_eq!(err.position, Position::new(0, 0));
}

#[test]
fn colon_after_the_parameter_list_is_not_in_the_grammar() {
    let err = parse_src("fn main(): { print(1); }").unwrap_err();
    assert_eq!(err.kind, ErrorKind::Parse);
    assert_eq!(err.position, Position::new(1, 10));
}

#[test]
fn empty_program_has_no_declarations() {
    let p = parse_src("").unwrap();
    assert!(p.functions.is_empty() && p.externs.is_empty());
    let p = Parser::new(Vec::new()).parse().unwrap();
    assert!(p.functions.is_empty());
}

#[test]
fn keyword_where_a_name_belongs_is_an_error() {
    let err = parse_src("fn while() { }").unwrap_err();
    assert_eq!(err.position, Position::new(1, 4));
}

#[test]
fn extern_return_type_must_be_a_name() {
    // `int` is a keyword, so it cannot name an extern's return type.
    let err = parse_src("extern fn f() int;").unwrap_err();
    assert_eq!(err.position, Position::new(1, 15));
}
