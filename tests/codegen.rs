use minilang::common::{CompileError, ErrorKind, Program};
use minilang::lexer::tokenize;
use minilang::llvm_codegen::{
    lower_program, ArithOp, BlockKind, FormatKind, Instr, IrFunction, IrModule, Predicate,
    Terminator, Value,
};
use minilang::parser::Parser;

fn program(src: &str) -> Program {
    Parser::new(tokenize(src).expect("lexes")).parse().expect("parses")
}

fn lower(src: &str) -> Result<IrModule, CompileError> {
    lower_program(&program(src))
}

fn function<'a>(m: &'a IrModule, name: &str) -> &'a IrFunction {
    m.functions.iter().find(|f| f.name == name).expect("function present")
}

fn all_instrs(f: &IrFunction) -> Vec<&Instr> {
    f.blocks.iter().flat_map(|b| b.instrs.iter()).collect()
}

fn ret_count(f: &IrFunction) -> usize {
    f.blocks.iter().filter(|b| matches!(b.term, Some(Terminator::Return(_)))).count()
}

fn global_strings(f: &IrFunction) -> Vec<String> {
    all_instrs(f)
        .into_iter()
        .filter_map(|i| match i {
            Instr::GlobalString { text } => Some(text.clone()),
            _ => None,
        })
        .collect()
}

#[test]
fn arithmetic_lowers_right_operand_first_grouped() {
    // var x: int = 2 + 3 * 4 groups as 2 + (3 * 4) = 14.
    let m = lower("fn main() { var x: int = 2 + 3 * 4; print(x); }").unwrap();
    let f = function(&m, "main");
    let instrs = all_instrs(f);
    let mul = instrs
        .iter()
        .position(|i| matches!(i, Instr::Arith { op: ArithOp::Mul, lhs: Value::Const(3), rhs: Value::Const(4) }))
        .expect("3 * 4");
    let add = instrs
        .iter()
        .position(|i| matches!(i, Instr::Arith { op: ArithOp::Add, lhs: Value::Const(2), rhs: Value::Inst(0, _) }))
        .expect("2 + (3 * 4)");
    assert!(mul < add);
    assert!(instrs.iter().any(|i| matches!(i, Instr::Print { format: FormatKind::Int, .. })));
    assert_eq!(ret_count(f), 1);
    assert!(matches!(f.blocks[0].term, Some(Terminator::Return(Value::Const(0)))));
}

#[test]
fn if_else_with_constant_condition_branches_to_then() {
    let m = lower("fn main() { if true { print(\"a\"); } else { print(\"b\"); } }").unwrap();
    let f = function(&m, "main");
    assert_eq!(f.blocks.len(), 4);
    assert_eq!(f.blocks[1].kind, BlockKind::Then);
    assert_eq!(f.blocks[2].kind, BlockKind::Else);
    assert_eq!(f.blocks[3].kind, BlockKind::Merge);
    // The test is 1 != 0, which always takes the then-branch.
    assert!(matches!(
        f.blocks[0].instrs.last(),
        Some(Instr::Compare { pred: Predicate::Ne, lhs: Value::Const(1), rhs: Value::Const(0) })
    ));
    assert!(matches!(
        f.blocks[0].term,
        Some(Terminator::Branch { then_block: 1, else_block: 2, .. })
    ));
    assert!(matches!(&f.blocks[1].instrs[0], Instr::GlobalString { text } if text == "a"));
    assert!(matches!(&f.blocks[2].instrs[0], Instr::GlobalString { text } if text == "b"));
    assert_eq!(f.blocks[1].term, Some(Terminator::Jump(3)));
    assert_eq!(f.blocks[2].term, Some(Terminator::Jump(3)));
}

#[test]
fn exit_call_suppresses_the_trailing_return() {
    let m = lower("extern fn exit(code: int);\nfn main() { print(1); exit(0); }").unwrap();
    let f = function(&m, "main");
    assert_eq!(ret_count(f), 0);
    assert_eq!(f.blocks.last().unwrap().term, Some(Terminator::Unreachable));
    assert!(matches!(all_instrs(f).last(), Some(Instr::Call { callee, args }) if callee == "exit" && args == &vec![Value::Const(0)]));
    let exit = function(&m, "exit");
    assert!(exit.blocks.is_empty());
    assert_eq!(exit.ret, None);
}

#[test]
fn statements_after_exit_are_not_lowered() {
    let m = lower("extern fn exit(code: int);\nfn main() { exit(1); print(2); } return 5;").unwrap();
    let f = function(&m, "main");
    assert_eq!(ret_count(f), 0);
    assert!(!all_instrs(f).iter().any(|i| matches!(i, Instr::Print { .. })));
}

#[test]
fn nested_block_emits_nothing() {
    let m = lower("fn main() { { print(\"x\"); } }").unwrap();
    let f = function(&m, "main");
    assert!(all_instrs(f).is_empty());
    assert_eq!(f.blocks.len(), 1);
}

#[test]
fn each_string_occurrence_is_its_own_constant() {
    let m = lower("fn main() { print(\"x\"); print(\"x\"); }").unwrap();
    assert_eq!(global_strings(function(&m, "main")), vec!["x".to_string(), "x".to_string()]);
}

#[test]
fn three_regions_per_if_and_per_while_at_any_depth() {
    let src = "fn main() { var i: int = 0; while i < 3 { if i == 1 { print(i); } else if i == 2 { while false { } } i = i + 1; } if true { } }";
    let m = lower(src).unwrap();
    let f = function(&m, "main");
    // two whiles and three ifs
    assert_eq!(f.blocks.len(), 1 + 3 * 5);
    let count = |k: BlockKind| f.blocks.iter().filter(|b| b.kind == k).count();
    assert_eq!(count(BlockKind::LoopCond), 2);
    assert_eq!(count(BlockKind::LoopBody), 2);
    assert_eq!(count(BlockKind::LoopAfter), 2);
    assert_eq!(count(BlockKind::Then), 3);
    assert_eq!(count(BlockKind::Else), 3);
    assert_eq!(count(BlockKind::Merge), 3);
    assert!(f.blocks.iter().all(|b| b.term.is_some()));
}

#[test]
fn forward_reference_compiles() {
    let m = lower("fn f() { g(); } fn g() { print(1); }").unwrap();
    let f = function(&m, "f");
    assert!(all_instrs(f).iter().any(|i| matches!(i, Instr::Call { callee, .. } if callee == "g")));
}

#[test]
fn recursion_compiles() {
    let m = lower("fn down(n: int) { if n > 0 { down(n - 1); } } return n;").unwrap();
    let f = function(&m, "down");
    assert_eq!(f.params.len(), 1);
    assert_eq!(ret_count(f), 1);
}

#[test]
fn parameters_are_stored_in_cells_at_entry() {
    let m = lower("fn add(a: int, b: bool) { } return a + b;").unwrap();
    let f = function(&m, "add");
    let entry = &f.blocks[0].instrs;
    assert!(matches!(&entry[0], Instr::Alloca { name } if name == "a"));
    assert!(matches!(&entry[1], Instr::Store { value: Value::Param(0), .. }));
    assert!(matches!(&entry[2], Instr::Alloca { name } if name == "b"));
    assert!(matches!(&entry[3], Instr::Store { value: Value::Param(1), .. }));
}

#[test]
fn explicit_return_ends_the_body() {
    let m = lower("fn main() { return 3; print(1); } return 4;").unwrap();
    let f = function(&m, "main");
    assert_eq!(f.blocks[0].term, Some(Terminator::Return(Value::Const(3))));
    assert_eq!(ret_count(f), 1);
}

#[test]
fn comparisons_are_widened() {
    let m = lower("fn main() { var b: bool = 1 <= 2; }").unwrap();
    let instrs = all_instrs(function(&m, "main"));
    assert!(matches!(instrs[0], Instr::Compare { pred: Predicate::Sle, .. }));
    assert!(matches!(instrs[1], Instr::Widen { value: Value::Inst(0, 0) }));
}

#[test]
fn undeclared_variable_is_a_codegen_error() {
    let err = lower("fn main() { print(y); }").unwrap_err();
    assert_eq!(err.kind, ErrorKind::Codegen);
    let err = lower("fn main() { y = 1; }").unwrap_err();
    assert_eq!(err.kind, ErrorKind::Codegen);
}

#[test]
fn undeclared_function_is_a_codegen_error() {
    assert_eq!(lower("fn main() { nothere(1); }").unwrap_err().kind, ErrorKind::Codegen);
}

#[test]
fn wrong_argument_count_is_a_codegen_error() {
    assert!(lower("fn f(a: int) { } fn main() { f(1, 2); }").is_err());
}

#[test]
fn input_is_not_wired() {
    assert_eq!(lower("fn main() { var x: int = input(); }").unwrap_err().kind, ErrorKind::Codegen);
}

#[test]
fn print_without_argument_is_a_codegen_error() {
    assert!(lower("fn main() { print(); }").is_err());
}

#[test]
fn string_passed_as_integer_is_converted() {
    let m = lower("extern fn puts(s: int) status;\nfn main() { puts(\"hi\"); }").unwrap();
    let instrs = all_instrs(function(&m, "main"));
    assert!(matches!(instrs[0], Instr::GlobalString { .. }));
    assert!(matches!(instrs[1], Instr::PtrToInt { value: Value::Inst(0, 0) }));
    assert!(matches!(instrs[2], Instr::Call { .. }));
    assert_eq!(function(&m, "puts").ret, Some(minilang::llvm_codegen::CellKind::Ptr));
    assert_eq!(function(&m, "puts").params, vec![minilang::llvm_codegen::CellKind::Int]);
}

#[test]
fn extern_with_other_return_type_returns_a_pointer() {
    let m = lower("extern fn getenv(k: int) cstr;\nfn main() { }").unwrap();
    assert_eq!(function(&m, "getenv").ret, Some(minilang::llvm_codegen::CellKind::Ptr));
}

#[test]
fn later_declaration_hides_an_earlier_one() {
    // The second `f` takes two parameters; a call with one fails.
    assert!(lower("fn f(a: int) { } fn f(a: int, b: int) { } fn main() { f(1); }").is_err());
    assert!(lower("fn f(a: int) { } fn f(a: int, b: int) { } fn main() { f(1, 2); }").is_ok());
}

#[test]
fn module_lists_externs_then_functions() {
    let m = lower("fn main() { } extern fn exit(code: int);").unwrap();
    let names: Vec<&str> = m.functions.iter().map(|f| f.name.as_str()).collect();
    assert_eq!(names, vec!["exit", "main"]);
}

#[test]
fn operands_are_passed_left_then_right() {
    let m = lower("fn main() { var a: int = 1; var b: int = a - 2; }").unwrap();
    let instrs = all_instrs(function(&m, "main"));
    // a is loaded first, then 2 is the right operand.
    let load = instrs.iter().position(|i| matches!(i, Instr::Load { .. })).unwrap();
    assert!(matches!(instrs[load + 1], Instr::Arith { op: ArithOp::Sub, lhs: Value::Inst(0, l), rhs: Value::Const(2) } if *l == load));
}

#[test]
fn call_arguments_are_the_lowered_values_in_order() {
    let m = lower("fn g(a: int, b: int) { } fn main() { g(5, 1 + 2); }").unwrap();
    let instrs = all_instrs(function(&m, "main"));
    assert!(matches!(instrs.last(), Some(Instr::Call { callee, args }) if callee == "g" && args[0] == Value::Const(5) && matches!(args[1], Value::Inst(0, 0))));
}

#[test]
fn statements_after_a_nested_return_are_lowered_in_a_fresh_block() {
    let m = lower("fn f() { if true { return 1; if false { } } }").unwrap();
    let f = function(&m, "f");
    // entry, then/else/merge of the outer if, the fresh block, and
    // then/else/merge of the inner if
    assert_eq!(f.blocks.len(), 8);
    assert_eq!(f.blocks[4].kind, BlockKind::Dead);
    assert_eq!(f.blocks[1].term, Some(Terminator::Return(Value::Const(1))));
    assert!(f.blocks.iter().all(|b| b.term.is_some()));
}

#[test]
fn final_exit_after_a_nested_return_ends_unreachable() {
    let m = lower("extern fn exit(code: int);\nfn main() { if true { return 2; } exit(0); }").unwrap();
    let f = function(&m, "main");
    assert_eq!(f.blocks[3].term, Some(Terminator::Unreachable));
    assert!(matches!(f.blocks[3].instrs.last(), Some(Instr::Call { callee, .. }) if callee == "exit"));
}

#[test]
fn trailing_return_expression_is_returned() {
    let m = lower("fn f() { } return 2 * 3;").unwrap();
    let f = function(&m, "f");
    assert!(matches!(f.blocks[0].instrs[0], Instr::Arith { op: ArithOp::Mul, lhs: Value::Const(2), rhs: Value::Const(3) }));
    assert_eq!(f.blocks[0].term, Some(Terminator::Return(Value::Inst(0, 0))));
}
