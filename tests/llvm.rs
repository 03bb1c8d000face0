use inkwell::context::Context;
use minilang::common::{CompileError, ErrorKind};
use minilang::lexer::tokenize;
use minilang::llvm_emit::generate_module;
use minilang::parser::Parser;

/// Compiles `src` into a fresh LLVM module, checks it with LLVM's verifier,
/// and returns its textual IR.
fn llvm_text(src: &str) -> Result<String, CompileError> {
    let program = Parser::new(tokenize(src).unwrap()).parse().unwrap();
    let context = Context::create();
    let module = context.create_module("main");
    let builder = context.create_builder();
    generate_module(&context, &module, &builder, &program)?;
    if let Err(msg) = module.verify() {
        panic!("LLVM rejects the module: {}\n{}", msg.to_string(), module.print_to_string().to_string());
    }
    Ok(module.print_to_string().to_string())
}

fn function_text<'a>(ir: &'a str, name: &str) -> &'a str {
    let start = ir.find(&format!("@{}(", name)).expect("function defined");
    let rest = &ir[start..];
    let end = rest.find("\n}\n").expect("end of function");
    &rest[..end]
}

#[test]
fn scenario_arithmetic_module_is_valid() {
    let ir = llvm_text("fn main() { var x: int = 2 + 3 * 4; print(x); }").unwrap();
    assert!(ir.contains("declare i32 @printf(i8*, ...)"));
    let main = function_text(&ir, "main");
    // LLVM folds the constants: 2 + (3 * 4) is stored as 14.
    assert!(main.contains("store i64 14"));
    assert!(main.contains("ret i64 0"));
}

#[test]
fn scenario_if_else_module_is_valid() {
    let ir = llvm_text("fn main() { if true { print(\"a\"); } else { print(\"b\"); } }").unwrap();
    let main = function_text(&ir, "main");
    assert!(main.contains("then:"));
    assert!(main.contains("else:"));
    assert!(main.contains("ifcont:"));
    assert!(ir.contains("c\"a\\00\""));
    assert!(ir.contains("c\"b\\00\""));
}

#[test]
fn scenario_exit_module_has_no_return_in_main() {
    let ir = llvm_text("extern fn exit(code: int);\nfn main() { print(1); exit(0); }").unwrap();
    assert!(ir.contains("declare void @exit(i64)"));
    let main = function_text(&ir, "main");
    assert!(main.contains("call void @exit(i64 0)"));
    assert!(main.contains("unreachable"));
    assert!(!main.contains("ret "));
}

#[test]
fn scenario_nested_block_prints_nothing() {
    let ir = llvm_text("fn main() { { print(\"x\"); } }").unwrap();
    let main = function_text(&ir, "main");
    assert!(!main.contains("@printf"));
}

#[test]
fn repeated_string_gets_two_constants() {
    let ir = llvm_text("fn main() { print(\"x\"); print(\"x\"); }").unwrap();
    assert_eq!(ir.matches("c\"x\\00\"").count(), 2);
}

#[test]
fn loops_calls_and_forward_references_are_valid() {
    let src = "fn main() { var i: int = 0; while i < 3 { if i == 1 { print(twice(i)); } else if i == 2 { print(0 - i); } i = i + 1; } }\nfn twice(n: int) { } return n * 2;";
    let ir = llvm_text(src).unwrap();
    let main = function_text(&ir, "main");
    assert_eq!(main.matches("while.cond").count() >= 1, true);
    assert!(main.contains("call i64 @twice("));
    assert!(ir.contains("define i64 @twice(i64 %0)"));
}

#[test]
fn returns_in_both_branches_are_valid() {
    let ir = llvm_text("fn pick(a: bool) { if a { return 1; } else { return 2; } }").unwrap();
    assert!(function_text(&ir, "pick").contains("ret i64 1"));
}

#[test]
fn unlowerable_program_is_a_codegen_error() {
    assert_eq!(llvm_text("fn main() { print(nope); }").unwrap_err().kind, ErrorKind::Codegen);
}

#[test]
fn code_after_a_nested_return_is_valid() {
    let ir = llvm_text("fn f() { if true { return 1; print(2); if false { } } }").unwrap();
    assert!(function_text(&ir, "f").contains("dead:"));
}
