use vstd::prelude::*;
use inkwell::basic_block::BasicBlock;
use inkwell::builder::Builder;
use inkwell::context::Context;
use inkwell::module::Module;
use inkwell::types::{BasicMetadataTypeEnum, BasicType, BasicTypeEnum, FunctionType};
use inkwell::values::{BasicMetadataValueEnum, BasicValueEnum, FunctionValue, IntValue, PointerValue};
use inkwell::AddressSpace;
use crate::common::{program_view, CompileError, ErrorKind, Position, Program};
use crate::llvm_codegen::{
    lower_program, program_ok, ArithOp, BlockKind, CellKind, FormatKind, Instr, IrFunction,
    IrModule, Predicate, Terminator, Value,
};

verus! {

#[verifier::external_type_specification]
#[verifier::external_body]
pub struct ExContext(Context);

#[verifier::external_type_specification]
#[verifier::external_body]
pub struct ExModule<'ctx>(Module<'ctx>);

#[verifier::external_type_specification]
#[verifier::external_body]
pub struct ExBuilder<'ctx>(Builder<'ctx>);

#[verifier::external_type_specification]
#[verifier::external_body]
pub struct ExBasicBlock<'ctx>(BasicBlock<'ctx>);

#[verifier::external_type_specification]
#[verifier::external_body]
pub struct ExFunctionValue<'ctx>(FunctionValue<'ctx>);

#[verifier::external_type_specification]
#[verifier::external_body]
pub struct ExBasicValueEnum<'ctx>(BasicValueEnum<'ctx>);

#[verifier::external_type_specification]
#[verifier::external_body]
pub struct ExIntValue<'ctx>(IntValue<'ctx>);

#[verifier::external_type_specification]
#[verifier::external_body]
pub struct ExPointerValue<'ctx>(PointerValue<'ctx>);

#[verifier::external_type_specification]
#[verifier::external_body]
pub struct ExBasicTypeEnum<'ctx>(BasicTypeEnum<'ctx>);

#[verifier::external_type_specification]
#[verifier::external_body]
pub struct ExFunctionType<'ctx>(FunctionType<'ctx>);

/// Relies on `Context::i64_type`, taken as a basic type.
#[verifier::external_body]
fn i64_type<'ctx>(context: &'ctx Context) -> BasicTypeEnum<'ctx> {
    context.i64_type().as_basic_type_enum()
}

/// Relies on `Context::i32_type`, taken as a basic type.
#[verifier::external_body]
fn i32_type<'ctx>(context: &'ctx Context) -> BasicTypeEnum<'ctx> {
    context.i32_type().as_basic_type_enum()
}

/// Relies on `IntType::ptr_type`: a pointer to the context's 8-bit type in
/// the default address space.
#[verifier::external_body]
fn i8_ptr_type<'ctx>(context: &'ctx Context) -> BasicTypeEnum<'ctx> {
    context.i8_type().ptr_type(AddressSpace::default()).as_basic_type_enum()
}

/// Relies on `BasicType::fn_type`: a function type returning `ret`.
#[verifier::external_body]
fn fn_type<'ctx>(ret: BasicTypeEnum<'ctx>, params: &Vec<BasicTypeEnum<'ctx>>, variadic: bool) -> FunctionType<'ctx> {
    let params: Vec<BasicMetadataTypeEnum<'ctx>> = params.iter().map(|t| (*t).into()).collect();
    ret.fn_type(&params, variadic)
}

/// Relies on `VoidType::fn_type`: a function type returning nothing.
#[verifier::external_body]
fn void_fn_type<'ctx>(context: &'ctx Context, params: &Vec<BasicTypeEnum<'ctx>>) -> FunctionType<'ctx> {
    let params: Vec<BasicMetadataTypeEnum<'ctx>> = params.iter().map(|t| (*t).into()).collect();
    context.void_type().fn_type(&params, false)
}

/// Relies on `Module::add_function`, with the default linkage.
#[verifier::external_body]
fn add_function<'ctx>(module: &Module<'ctx>, name: &str, ty: FunctionType<'ctx>) -> FunctionValue<'ctx> {
    module.add_function(name, ty, None)
}

/// Relies on `Context::append_basic_block`.
#[verifier::external_body]
fn append_basic_block<'ctx>(context: &'ctx Context, f: FunctionValue<'ctx>, name: &str) -> BasicBlock<'ctx> {
    context.append_basic_block(f, name)
}

/// Relies on `Builder::position_at_end`.
#[verifier::external_body]
fn position_at_end<'ctx>(builder: &Builder<'ctx>, block: BasicBlock<'ctx>) {
    builder.position_at_end(block)
}

/// Relies on `FunctionValue::get_nth_param`, which computes `n + 1` and so
/// needs `n` below `u32::MAX`.
#[verifier::external_body]
fn nth_param<'ctx>(f: FunctionValue<'ctx>, n: u32) -> Option<BasicValueEnum<'ctx>>
    requires
        n < u32::MAX,
{
    f.get_nth_param(n)
}

/// Relies on `IntType::const_int` for the context's 64-bit type, with the
/// bits of `n` sign-extended.
#[verifier::external_body]
fn const_i64<'ctx>(context: &'ctx Context, n: i64) -> BasicValueEnum<'ctx> {
    context.i64_type().const_int(n as u64, true).into()
}

/// Relies on the `IntValue` variant of `BasicValueEnum`: the integer value
/// that `v` holds, if it holds one.
#[verifier::external_body]
fn as_int<'ctx>(v: BasicValueEnum<'ctx>) -> Option<IntValue<'ctx>> {
    match v {
        BasicValueEnum::IntValue(i) => Some(i),
        _ => None,
    }
}

/// Relies on the `PointerValue` variant of `BasicValueEnum`: the pointer
/// value that `v` holds, if it holds one.
#[verifier::external_body]
fn as_pointer<'ctx>(v: BasicValueEnum<'ctx>) -> Option<PointerValue<'ctx>> {
    match v {
        BasicValueEnum::PointerValue(p) => Some(p),
        _ => None,
    }
}

/// Relies on `Builder::build_global_string_ptr`: a pointer to a new
/// constant string. The text goes to LLVM as a C string, so a literal with
/// an embedded NUL character ends there.
#[verifier::external_body]
fn global_string<'ctx>(builder: &Builder<'ctx>, text: &str, name: &str) -> Option<BasicValueEnum<'ctx>> {
    builder.build_global_string_ptr(text, name).ok().map(|g| g.as_pointer_value().into())
}

/// Relies on `Builder::build_alloca`.
#[verifier::external_body]
fn build_alloca<'ctx>(builder: &Builder<'ctx>, ty: BasicTypeEnum<'ctx>, name: &str) -> Option<BasicValueEnum<'ctx>> {
    builder.build_alloca(ty, name).ok().map(|p| p.into())
}

/// Relies on `Builder::build_store`; false where it fails.
#[verifier::external_body]
fn build_store<'ctx>(builder: &Builder<'ctx>, ptr: PointerValue<'ctx>, value: BasicValueEnum<'ctx>) -> bool {
    builder.build_store(ptr, value).is_ok()
}

/// Relies on `Builder::build_load` (the form with typed pointers).
#[verifier::external_body]
fn build_load<'ctx>(builder: &Builder<'ctx>, ptr: PointerValue<'ctx>, name: &str) -> Option<BasicValueEnum<'ctx>> {
    builder.build_load(ptr, name).ok()
}

/// Relies on `Builder::build_int_add`.
#[verifier::external_body]
fn build_int_add<'ctx>(builder: &Builder<'ctx>, l: IntValue<'ctx>, r: IntValue<'ctx>) -> Option<BasicValueEnum<'ctx>> {
    builder.build_int_add(l, r, "addtmp").ok().map(|v| v.into())
}

/// Relies on `Builder::build_int_sub`.
#[verifier::external_body]
fn build_int_sub<'ctx>(builder: &Builder<'ctx>, l: IntValue<'ctx>, r: IntValue<'ctx>) -> Option<BasicValueEnum<'ctx>> {
    builder.build_int_sub(l, r, "subtmp").ok().map(|v| v.into())
}

/// Relies on `Builder::build_int_mul`.
#[verifier::external_body]
fn build_int_mul<'ctx>(builder: &Builder<'ctx>, l: IntValue<'ctx>, r: IntValue<'ctx>) -> Option<BasicValueEnum<'ctx>> {
    builder.build_int_mul(l, r, "multmp").ok().map(|v| v.into())
}

/// Relies on `Builder::build_int_signed_div`.
#[verifier::external_body]
fn build_int_signed_div<'ctx>(builder: &Builder<'ctx>, l: IntValue<'ctx>, r: IntValue<'ctx>) -> Option<BasicValueEnum<'ctx>> {
    builder.build_int_signed_div(l, r, "divtmp").ok().map(|v| v.into())
}

/// Relies on `Builder::build_int_compare`, with each predicate taken as
/// the `IntPredicate` of the same name.
#[verifier::external_body]
fn build_int_compare<'ctx>(builder: &Builder<'ctx>, pred: Predicate, l: IntValue<'ctx>, r: IntValue<'ctx>) -> Option<BasicValueEnum<'ctx>> {
    let p = match pred {
        Predicate::Eq => inkwell::IntPredicate::EQ,
        Predicate::Ne => inkwell::IntPredicate::NE,
        Predicate::Slt => inkwell::IntPredicate::SLT,
        Predicate::Sle => inkwell::IntPredicate::SLE,
        Predicate::Sgt => inkwell::IntPredicate::SGT,
        Predicate::Sge => inkwell::IntPredicate::SGE,
    };
    builder.build_int_compare(p, l, r, "cmptmp").ok().map(|v| v.into())
}

/// Relies on `Builder::build_int_z_extend`, to the context's 64-bit type.
#[verifier::external_body]
fn build_int_z_extend<'ctx>(builder: &Builder<'ctx>, context: &'ctx Context, v: IntValue<'ctx>) -> Option<BasicValueEnum<'ctx>> {
    builder.build_int_z_extend(v, context.i64_type(), "widen").ok().map(|v| v.into())
}

/// Relies on `Builder::build_ptr_to_int`, to the context's 64-bit type.
#[verifier::external_body]
fn build_ptr_to_int<'ctx>(builder: &Builder<'ctx>, context: &'ctx Context, p: PointerValue<'ctx>) -> Option<BasicValueEnum<'ctx>> {
    builder.build_ptr_to_int(p, context.i64_type(), "ptoi").ok().map(|v| v.into())
}

/// Relies on `Builder::build_call`: `None` where it fails, otherwise the
/// call's result if the callee returns one.
#[verifier::external_body]
fn build_call<'ctx>(builder: &Builder<'ctx>, f: FunctionValue<'ctx>, args: &Vec<BasicValueEnum<'ctx>>, name: &str) -> Option<Option<BasicValueEnum<'ctx>>> {
    let args: Vec<BasicMetadataValueEnum<'ctx>> = args.iter().map(|a| (*a).into()).collect();
    builder.build_call(f, &args, name).ok().map(|c| c.try_as_basic_value().left())
}

/// Relies on `Builder::build_unconditional_branch`; false where it fails.
#[verifier::external_body]
fn build_unconditional_branch<'ctx>(builder: &Builder<'ctx>, to: BasicBlock<'ctx>) -> bool {
    builder.build_unconditional_branch(to).is_ok()
}

/// Relies on `Builder::build_conditional_branch`; false where it fails.
#[verifier::external_body]
fn build_conditional_branch<'ctx>(builder: &Builder<'ctx>, cond: IntValue<'ctx>, then_block: BasicBlock<'ctx>, else_block: BasicBlock<'ctx>) -> bool {
    builder.build_conditional_branch(cond, then_block, else_block).is_ok()
}

/// Relies on `Builder::build_return`; false where it fails.
#[verifier::external_body]
fn build_return<'ctx>(builder: &Builder<'ctx>, v: BasicValueEnum<'ctx>) -> bool {
    builder.build_return(Some(&v)).is_ok()
}

/// Relies on `Builder::build_unreachable`; false where it fails.
#[verifier::external_body]
fn build_unreachable<'ctx>(builder: &Builder<'ctx>) -> bool {
    builder.build_unreachable().is_ok()
}

fn llvm_error(message: &str) -> (r: CompileError)
    ensures
        r.kind == ErrorKind::Codegen,
{
    CompileError::new(ErrorKind::Codegen, message, Position::new(0, 0))
}

/// The LLVM type of a storage kind: a 64-bit integer, or a pointer to bytes.
fn cell_type<'ctx>(context: &'ctx Context, kind: CellKind) -> BasicTypeEnum<'ctx> {
    match kind {
        CellKind::Int => i64_type(context),
        CellKind::Ptr => i8_ptr_type(context),
    }
}

fn block_label(kind: BlockKind) -> &'static str {
    match kind {
        BlockKind::Entry => "entry",
        BlockKind::Then => "then",
        BlockKind::Else => "else",
        BlockKind::Merge => "ifcont",
        BlockKind::LoopCond => "while.cond",
        BlockKind::LoopBody => "while.body",
        BlockKind::LoopAfter => "while.after",
        BlockKind::Dead => "dead",
    }
}

/// The LLVM function of the last declaration named `name`.
fn find_function<'ctx>(ir: &IrModule, declared: &Vec<FunctionValue<'ctx>>, name: &str) -> Option<FunctionValue<'ctx>> {
    let mut k = ir.functions.len();
    while k > 0
        invariant
            k <= ir.functions@.len(),
        decreases k,
    {
        k = k - 1;
        if crate::text::str_eq(ir.functions[k].name.as_str(), name) && k < declared.len() {
            return Some(declared[k]);
        }
    }
    None
}

/// The LLVM value of an operand: a constant, a parameter, or the result of
/// an instruction emitted before, in an earlier block (`done`) or earlier in
/// the current one (`row`).
fn resolve<'ctx>(
    context: &'ctx Context,
    function: FunctionValue<'ctx>,
    done: &Vec<Vec<Option<BasicValueEnum<'ctx>>>>,
    row: &Vec<Option<BasicValueEnum<'ctx>>>,
    v: Value,
) -> Option<BasicValueEnum<'ctx>> {
    match v {
        Value::Const(n) => Some(const_i64(context, n)),
        Value::Param(i) => {
            if i >= u32::MAX as usize {
                None
            } else {
                nth_param(function, i as u32)
            }
        },
        Value::Inst(b, i) => {
            if b < done.len() {
                if i < done[b].len() {
                    done[b][i]
                } else {
                    None
                }
            } else if b == done.len() && i < row.len() {
                row[i]
            } else {
                None
            }
        },
    }
}

fn resolve_int<'ctx>(
    context: &'ctx Context,
    function: FunctionValue<'ctx>,
    done: &Vec<Vec<Option<BasicValueEnum<'ctx>>>>,
    row: &Vec<Option<BasicValueEnum<'ctx>>>,
    v: Value,
) -> Option<IntValue<'ctx>> {
    match resolve(context, function, done, row, v) {
        Some(x) => as_int(x),
        None => None,
    }
}

fn resolve_pointer<'ctx>(
    context: &'ctx Context,
    function: FunctionValue<'ctx>,
    done: &Vec<Vec<Option<BasicValueEnum<'ctx>>>>,
    row: &Vec<Option<BasicValueEnum<'ctx>>>,
    v: Value,
) -> Option<PointerValue<'ctx>> {
    match resolve(context, function, done, row, v) {
        Some(x) => as_pointer(x),
        None => None,
    }
}

/// Emits one instruction; `Err` where an operand is missing or of the wrong
/// kind, or LLVM refuses the instruction.
fn emit_instr<'ctx>(
    context: &'ctx Context,
    builder: &Builder<'ctx>,
    ir: &IrModule,
    declared: &Vec<FunctionValue<'ctx>>,
    function: FunctionValue<'ctx>,
    formats: (BasicValueEnum<'ctx>, BasicValueEnum<'ctx>),
    printf: FunctionValue<'ctx>,
    done: &Vec<Vec<Option<BasicValueEnum<'ctx>>>>,
    row: &Vec<Option<BasicValueEnum<'ctx>>>,
    instr: &Instr,
) -> (r: Result<Option<BasicValueEnum<'ctx>>, CompileError>)
    ensures
        r is Err ==> r->Err_0.kind == ErrorKind::Codegen,
{
    let missing = "an operand is undefined or of the wrong kind";
    match instr {
        Instr::Alloca { name } => match build_alloca(builder, i64_type(context), name.as_str()) {
            Some(p) => Ok(Some(p)),
            None => Err(llvm_error("alloca refused")),
        },
        Instr::Store { cell, value } => {
            let p = match resolve_pointer(context, function, done, row, *cell) {
                Some(p) => p,
                None => return Err(llvm_error(missing)),
            };
            let v = match resolve(context, function, done, row, *value) {
                Some(v) => v,
                None => return Err(llvm_error(missing)),
            };
            if build_store(builder, p, v) {
                Ok(None)
            } else {
                Err(llvm_error("store refused"))
            }
        },
        Instr::Load { cell } => {
            let p = match resolve_pointer(context, function, done, row, *cell) {
                Some(p) => p,
                None => return Err(llvm_error(missing)),
            };
            match build_load(builder, p, "load") {
                Some(v) => Ok(Some(v)),
                None => Err(llvm_error("load refused")),
            }
        },
        Instr::Arith { op, lhs, rhs } => {
            let (l, r) = match (
                resolve_int(context, function, done, row, *lhs),
                resolve_int(context, function, done, row, *rhs),
            ) {
                (Some(l), Some(r)) => (l, r),
                _ => return Err(llvm_error(missing)),
            };
            let v = match op {
                ArithOp::Add => build_int_add(builder, l, r),
                ArithOp::Sub => build_int_sub(builder, l, r),
                ArithOp::Mul => build_int_mul(builder, l, r),
                ArithOp::SDiv => build_int_signed_div(builder, l, r),
            };
            match v {
                Some(v) => Ok(Some(v)),
                None => Err(llvm_error("arithmetic refused")),
            }
        },
        Instr::Compare { pred, lhs, rhs } => {
            let (l, r) = match (
                resolve_int(context, function, done, row, *lhs),
                resolve_int(context, function, done, row, *rhs),
            ) {
                (Some(l), Some(r)) => (l, r),
                _ => return Err(llvm_error(missing)),
            };
            match build_int_compare(builder, *pred, l, r) {
                Some(v) => Ok(Some(v)),
                None => Err(llvm_error("comparison refused")),
            }
        },
        Instr::Widen { value } => {
            let v = match resolve_int(context, function, done, row, *value) {
                Some(v) => v,
                None => return Err(llvm_error(missing)),
            };
            match build_int_z_extend(builder, context, v) {
                Some(v) => Ok(Some(v)),
                None => Err(llvm_error("extension refused")),
            }
        },
        Instr::PtrToInt { value } => {
            let p = match resolve_pointer(context, function, done, row, *value) {
                Some(p) => p,
                None => return Err(llvm_error(missing)),
            };
            match build_ptr_to_int(builder, context, p) {
                Some(v) => Ok(Some(v)),
                None => Err(llvm_error("conversion refused")),
            }
        },
        Instr::GlobalString { text } => match global_string(builder, text.as_str(), "str") {
            Some(v) => Ok(Some(v)),
            None => Err(llvm_error("string constant refused")),
        },
        Instr::Call { callee, args } => {
            let target = match find_function(ir, declared, callee.as_str()) {
                Some(f) => f,
                None => return Err(llvm_error("call of an undeclared function")),
            };
            let mut vals: Vec<BasicValueEnum<'ctx>> = Vec::new();
            let mut i: usize = 0;
            while i < args.len()
                invariant
                    i <= args@.len(),
                decreases args@.len() - i,
            {
                match resolve(context, function, done, row, args[i]) {
                    Some(v) => vals.push(v),
                    None => return Err(llvm_error(missing)),
                }
                i = i + 1;
            }
            match build_call(builder, target, &vals, "calltmp") {
                Some(result) => Ok(result),
                None => Err(llvm_error("call refused")),
            }
        },
        Instr::Print { format, arg } => {
            let fmt = match format {
                FormatKind::Int => formats.0,
                FormatKind::Str => formats.1,
            };
            let v = match resolve(context, function, done, row, *arg) {
                Some(v) => v,
                None => return Err(llvm_error(missing)),
            };
            let mut vals: Vec<BasicValueEnum<'ctx>> = Vec::new();
            vals.push(fmt);
            vals.push(v);
            match build_call(builder, printf, &vals, "") {
                Some(_) => Ok(None),
                None => Err(llvm_error("call refused")),
            }
        },
    }
}

/// Emits the body of the `k`th function of `ir`: its blocks in order, each
/// with its instructions and its terminator.
fn emit_function<'ctx>(
    context: &'ctx Context,
    builder: &Builder<'ctx>,
    ir: &IrModule,
    declared: &Vec<FunctionValue<'ctx>>,
    k: usize,
    printf: FunctionValue<'ctx>,
) -> (r: Result<(), CompileError>)
    requires
        k < ir.functions@.len(),
        declared@.len() == ir.functions@.len(),
    ensures
        r is Err ==> r->Err_0.kind == ErrorKind::Codegen,
{
    let f: &IrFunction = &ir.functions[k];
    let function = declared[k];
    if f.blocks.len() == 0 {
        return Ok(());
    }
    let mut blocks: Vec<BasicBlock<'ctx>> = Vec::new();
    let mut b: usize = 0;
    while b < f.blocks.len()
        invariant
            b <= f.blocks@.len(),
            blocks@.len() == b,
        decreases f.blocks@.len() - b,
    {
        blocks.push(append_basic_block(context, function, block_label(f.blocks[b].kind)));
        b = b + 1;
    }
    position_at_end(builder, blocks[0]);
    let fmt_int = match global_string(builder, "%ld\n", "fmt_int") {
        Some(v) => v,
        None => return Err(llvm_error("string constant refused")),
    };
    let fmt_str = match global_string(builder, "%s\n", "fmt_str") {
        Some(v) => v,
        None => return Err(llvm_error("string constant refused")),
    };
    let mut done: Vec<Vec<Option<BasicValueEnum<'ctx>>>> = Vec::new();
    let mut b: usize = 0;
    while b < f.blocks.len()
        invariant
            b <= f.blocks@.len(),
            blocks@.len() == f.blocks@.len(),
        decreases f.blocks@.len() - b,
    {
        position_at_end(builder, blocks[b]);
        let block = &f.blocks[b];
        let mut row: Vec<Option<BasicValueEnum<'ctx>>> = Vec::new();
        let mut i: usize = 0;
        while i < block.instrs.len()
            invariant
                i <= block.instrs@.len(),
            decreases block.instrs@.len() - i,
        {
            let result = match emit_instr(
                context,
                builder,
                ir,
                declared,
                function,
                (fmt_int, fmt_str),
                printf,
                &done,
                &row,
                &block.instrs[i],
            ) {
                Ok(v) => v,
                Err(e) => return Err(e),
            };
            row.push(result);
            i = i + 1;
        }
        let ok = match block.term {
            Some(Terminator::Jump(to)) => to < blocks.len() && build_unconditional_branch(
                builder,
                blocks[to],
            ),
            Some(Terminator::Branch { cond, then_block, else_block }) => {
                match resolve_int(context, function, &done, &row, cond) {
                    Some(c) => then_block < blocks.len() && else_block < blocks.len()
                        && build_conditional_branch(builder, c, blocks[then_block], blocks[else_block]),
                    None => false,
                }
            },
            Some(Terminator::Return(v)) => match resolve(context, function, &done, &row, v) {
                Some(x) => build_return(builder, x),
                None => false,
            },
            Some(Terminator::Unreachable) => build_unreachable(builder),
            None => build_unreachable(builder),
        };
        if !ok {
            return Err(llvm_error("a terminator could not be emitted"));
        }
        done.push(row);
        b = b + 1;
    }
    Ok(())
}

/// Declares the formatted-output routine `printf` and every function of
/// `ir` in `module`, then emits the body of each function that has one.
/// Only the output of `lower_program` is handed to it.
fn emit_module<'ctx>(
    context: &'ctx Context,
    module: &Module<'ctx>,
    builder: &Builder<'ctx>,
    ir: &IrModule,
) -> (r: Result<(), CompileError>)
    ensures
        r is Err ==> r->Err_0.kind == ErrorKind::Codegen,
{
    let mut printf_params: Vec<BasicTypeEnum<'ctx>> = Vec::new();
    printf_params.push(i8_ptr_type(context));
    let printf = add_function(module, "printf", fn_type(i32_type(context), &printf_params, true));
    let mut declared: Vec<FunctionValue<'ctx>> = Vec::new();
    let mut k: usize = 0;
    while k < ir.functions.len()
        invariant
            k <= ir.functions@.len(),
            declared@.len() == k,
        decreases ir.functions@.len() - k,
    {
        let f = &ir.functions[k];
        let mut params: Vec<BasicTypeEnum<'ctx>> = Vec::new();
        let mut i: usize = 0;
        while i < f.params.len()
            invariant
                i <= f.params@.len(),
            decreases f.params@.len() - i,
        {
            params.push(cell_type(context, f.params[i]));
            i = i + 1;
        }
        let ty = match f.ret {
            None => void_fn_type(context, &params),
            Some(kind) => fn_type(cell_type(context, kind), &params, false),
        };
        declared.push(add_function(module, f.name.as_str(), ty));
        k = k + 1;
    }
    let mut k: usize = 0;
    while k < ir.functions.len()
        invariant
            k <= ir.functions@.len(),
            declared@.len() == ir.functions@.len(),
        decreases ir.functions@.len() - k,
    {
        match emit_function(context, builder, ir, &declared, k, printf) {
            Ok(()) => {},
            Err(e) => return Err(e),
        }
        k = k + 1;
    }
    Ok(())
}

/// Compiles a program into `module`: lowers it (see `lower_program`) and
/// emits the result through `builder`. It fails where the program cannot be
/// lowered, or where LLVM refuses what is emitted.
/// A string literal that holds a NUL character reaches LLVM cut at it.
pub fn generate_module<'ctx>(
    context: &'ctx Context,
    module: &Module<'ctx>,
    builder: &Builder<'ctx>,
    program: &Program,
) -> (r: Result<(), CompileError>)
    ensures
        r is Ok ==> program_ok(program_view(*program)),
        !program_ok(program_view(*program)) ==> r is Err,
        r is Err ==> r->Err_0.kind == ErrorKind::Codegen,
{
    let ir = match lower_program(program) {
        Ok(ir) => ir,
        Err(e) => return Err(e),
    };
    emit_module(context, module, builder, &ir)
}

} // verus!
