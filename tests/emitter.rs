use minilang::common::{ErrorKind, Expr, Stmt};
use minilang::emitter::CodeGenerator;
use minilang::lexer::tokenize;
use minilang::parser::Parser;

fn main_fn(src: &str) -> Stmt {
    let mut p = Parser::new(tokenize(src).unwrap()).parse().unwrap();
    p.functions.remove(0)
}

fn emit(src: &str) -> String {
    let mut g = CodeGenerator::new();
    g.generate(&main_fn(src)).unwrap();
    g.output
}

#[test]
fn one_constant_per_distinct_string() {
    let out = emit("fn main() { print(\"x\"); print(\"x\"); print(\"y z\"); }");
    assert_eq!(out.matches(": db \"x\", 0").count(), 1);
    assert!(out.contains("str_0: db \"x\", 0\n"));
    assert!(out.contains("str_1: db \"y z\", 0\n"));
    assert_eq!(out.matches("mov rax, str_0\n").count(), 2);
}

#[test]
fn whole_output_of_a_small_program() {
    let out = emit("fn main() { var x: int = 2 + 3; print(x); print(\"hi\"); }");
    let expected = "section .data\n\
x: dq 0\n\
str_0: db \"hi\", 0\n\
fmt_str: db \"%s\", 10, 0\n\
fmt_int: db \"%d\", 10, 0\n\
\nsection .text\n\
default rel\n\
global main\n\
extern printf\n\n\
main:\n\
push rbp\n\
mov rax, 2\n\
push rax\n\
mov rax, 3\n\
pop rbx\n\
add rax, rbx\n\
mov [x], rax\n\
mov rax, [x]\n\
mov rdi, fmt_int\n\
mov rsi, rax\n\
xor rax, rax\n\
call printf\n\
mov rax, str_0\n\
mov rdi, fmt_str\n\
mov rsi, rax\n\
xor rax, rax\n\
call printf\n\
pop rbp\n\
mov rax, 0\n\
ret\n";
    assert_eq!(out, expected);
}

#[test]
fn if_labels_use_the_variable_count() {
    let out = emit("fn main() { var a: int = 1; var b: int = 0; if a < b { print(1); } else { print(2); } }");
    assert!(out.contains("cmp rbx, rax\nsetl al\nmovzx rax, al\ncmp rax, 0\nje if_2\n"));
    assert!(out.contains("jmp end_2\nif_2:\n"));
    assert!(out.contains("end_2:\n"));
}

#[test]
fn quotes_in_strings_are_escaped() {
    let ast = Stmt::Function {
        name: "main".to_string(),
        args: Vec::new(),
        body: vec![Stmt::ExprStmt(Expr::Call {
            callee: "print".to_string(),
            args: vec![Expr::StringLiteral("say \"hi\"".to_string())],
        })],
        return_expr: None,
    };
    let mut g = CodeGenerator::new();
    g.generate(&ast).unwrap();
    assert!(g.output.contains("str_0: db \"say \\\"hi\\\"\", 0\n"));
}

#[test]
fn largest_integer_is_written_in_decimal() {
    let out = emit("fn main() { var x: int = 9223372036854775807; }");
    assert!(out.contains("mov rax, 9223372036854775807\n"));
}

#[test]
fn strings_are_collected_from_every_expression() {
    let out = emit("fn main() { var s: int = \"v\"; s = \"w\" + 1; if \"c\" == s { print(\"v\"); } }");
    assert!(out.contains("str_0: db \"v\", 0\n"));
    assert!(out.contains("str_1: db \"w\", 0\n"));
    assert!(out.contains("str_2: db \"c\", 0\n"));
    assert_eq!(out.matches(": db \"v\"").count(), 1);
}

#[test]
fn while_and_return_are_codegen_errors() {
    let mut g = CodeGenerator::new();
    let err = g.generate(&main_fn("fn main() { while true { print(\"w\"); } }")).unwrap_err();
    assert_eq!(err.kind, ErrorKind::Codegen);
    let mut g = CodeGenerator::new();
    let err = g.generate(&main_fn("fn main() { return 1; }")).unwrap_err();
    assert_eq!(err.kind, ErrorKind::Codegen);
}

#[test]
fn subtraction_and_division_keep_operand_order() {
    let out = emit("fn main() { var a: int = 7 - 2; var b: int = 8 / 4; }");
    assert!(out.contains("mov rax, 7\npush rax\nmov rax, 2\npop rbx\nsub rbx, rax\nmov rax, rbx\n"));
    assert!(out.contains("mov rax, 8\npush rax\nmov rax, 4\npop rbx\nxchg rax, rbx\ncqo\nidiv rbx\n"));
}

#[test]
fn unknown_operator_is_an_error() {
    let ast = Stmt::Function {
        name: "main".to_string(),
        args: Vec::new(),
        body: vec![Stmt::ExprStmt(Expr::BinaryOperator {
            operator: "%".to_string(),
            left: Box::new(Expr::IntegerLiteral(1)),
            right: Box::new(Expr::IntegerLiteral(2)),
        })],
        return_expr: None,
    };
    let mut g = CodeGenerator::new();
    assert_eq!(g.generate(&ast).unwrap_err().kind, ErrorKind::Codegen);
}

#[test]
fn negative_integer_is_written_with_a_sign() {
    let ast = Stmt::Function {
        name: "main".to_string(),
        args: Vec::new(),
        body: vec![Stmt::ExprStmt(Expr::IntegerLiteral(i64::MIN))],
        return_expr: None,
    };
    let mut g = CodeGenerator::new();
    g.generate(&ast).unwrap();
    assert!(g.output.contains("mov rax, -9223372036854775808\n"));
}

#[test]
fn non_function_gets_only_data_and_exit() {
    let mut g = CodeGenerator::new();
    g.generate(&Stmt::ExprStmt(Expr::BooleanLiteral(true))).unwrap();
    assert!(!g.output.contains("main:\n"));
    assert!(g.output.ends_with("extern printf\n\npop rbp\nmov rax, 0\nret\n"));
}
