use vstd::prelude::*;
use crate::common::{
    ExprV, expr_view, exprs_view, lemma_exprs_view_index, lemma_exprs_view_push, CompileError,
    ErrorKind, Expr, Position, Token,
};
use crate::llvm_codegen::{
    operands_code, args_code, args_ok, arith_of, code_of, expr_code, expr_ok, find_sig, int_code, lookup,
    sigs_view, ArithOp, CellKind, FnSig, FormatKind, FunctionBuilder, Instr, InstrV, Predicate,
    SigV, Value, pred_of,
};
use crate::parser::grammar::is_comparison;
use crate::text::str_eq;

verus! {

broadcast use vstd::seq::group_seq_axioms, vstd::std_specs::vec::group_vec_axioms;

/// An error of the code generator; the tree carries no positions.
pub fn codegen_error(message: &str) -> (r: CompileError)
    ensures
        r.kind == ErrorKind::Codegen,
{
    CompileError::new(ErrorKind::Codegen, message, Position::new(0, 0))
}

/// What lowering an expression leaves of the builder: the same blocks, the
/// same terminators, the same variables and position.
pub open spec fn keeps_shape(before: FunctionBuilder, after: FunctionBuilder) -> bool {
    &&& after.wf()
    &&& after.current == before.current
    &&& after.vars == before.vars
    &&& after.blocks@.len() == before.blocks@.len()
    &&& forall|k: int| 0 <= k < before.blocks@.len() ==> #[trigger] after.blocks@[k].term == before.blocks@[k].term
    &&& forall|k: int| 0 <= k < before.blocks@.len() ==> #[trigger] after.blocks@[k].kind == before.blocks@[k].kind
    &&& forall|k: int|
        0 <= k < before.blocks@.len() && k != before.current ==> #[trigger] after.blocks@[k]
            == before.blocks@[k]
}

/// The code of the current block, as the contracts see it.
pub open spec fn cur_code(f: FunctionBuilder) -> Seq<InstrV> {
    code_of(f.blocks@[f.current as int])
}

/// The index the next instruction of the current block gets.
pub open spec fn next_index(f: FunctionBuilder) -> int {
    f.blocks@[f.current as int].instrs@.len() as int
}

/// `v` as a 64-bit integer: a pointer is converted.
pub fn to_int(f: &mut FunctionBuilder, v: Value, kind: CellKind) -> (r: Value)
    requires
        old(f).wf(),
    ensures
        keeps_shape(*old(f), *final(f)),
        ({
            let ic = int_code(old(f).current, next_index(*old(f)), v, kind);
            &&& cur_code(*final(f)) == cur_code(*old(f)) + ic.0
            &&& r == ic.1
        }),
{
    assert(cur_code(*f) =~= cur_code(*f) + Seq::empty());
    match kind {
        CellKind::Int => v,
        CellKind::Ptr => f.emit(Instr::PtrToInt { value: v }),
    }
}

fn arith_op(symbol: &str) -> (r: Option<ArithOp>)
    ensures
        r == arith_of(symbol@),
{
    if str_eq(symbol, "+") {
        Some(ArithOp::Add)
    } else if str_eq(symbol, "-") {
        Some(ArithOp::Sub)
    } else if str_eq(symbol, "*") {
        Some(ArithOp::Mul)
    } else if str_eq(symbol, "/") {
        Some(ArithOp::SDiv)
    } else {
        None
    }
}

fn predicate(t: &Token) -> (r: Option<Predicate>)
    ensures
        r is Some <==> is_comparison(*t),
        r is Some ==> r->Some_0 == pred_of(*t),
{
    match t {
        Token::Equality => Some(Predicate::Eq),
        Token::NotEqual => Some(Predicate::Ne),
        Token::LessThan => Some(Predicate::Slt),
        Token::LessThanOrEqual => Some(Predicate::Sle),
        Token::GreaterThan => Some(Predicate::Sgt),
        Token::GreaterThanOrEqual => Some(Predicate::Sge),
        _ => None,
    }
}

/// Lowers an expression into the current block and returns its value and
/// how it is held. It succeeds exactly when the expression can be lowered
/// with the signatures and variables at hand, and then appends exactly the
/// code `expr_code` gives: each string literal a constant of its own,
/// operands left to right.
pub fn codegen_expr(expr: &Expr, f: &mut FunctionBuilder, function_table: &Vec<FnSig>) -> (r:
    Result<(Value, CellKind), CompileError>)
    requires
        old(f).wf(),
    ensures
        keeps_shape(*old(f), *final(f)),
        r is Ok <==> expr_ok(sigs_view(function_table@), old(f).names(), expr_view(*expr)),
        r is Ok ==> ({
            let out = expr_code(
                sigs_view(function_table@),
                old(f).vars@,
                old(f).current,
                next_index(*old(f)),
                expr_view(*expr),
            );
            &&& cur_code(*final(f)) == cur_code(*old(f)) + out.0
            &&& r->Ok_0 == (out.1, out.2)
        }),
        r is Err ==> r->Err_0.kind == ErrorKind::Codegen,
    decreases expr, 2int,
{
    match expr {
        Expr::Call { .. } => codegen_call(expr, f, function_table),
        Expr::Variable(name) => {
            match f.find_var(name.as_str()) {
                Some(cell) => {
                    let v = f.emit(Instr::Load { cell });
                    Ok((v, CellKind::Int))
                },
                None => Err(codegen_error("use of an undeclared variable")),
            }
        },
        Expr::StringLiteral(s) => {
            let v = f.emit(Instr::GlobalString { text: s.clone() });
            Ok((v, CellKind::Ptr))
        },
        Expr::IntegerLiteral(n) => Ok((Value::Const(*n), CellKind::Int)),
        Expr::BooleanLiteral(b) => Ok((Value::Const(if *b { 1 } else { 0 }), CellKind::Int)),
        Expr::BinaryOperator { .. } | Expr::BooleanComparison { .. } => codegen_operator(
            expr,
            f,
            function_table,
        ),
    }
}

/// A call: of `print`, or of a declared function with its arguments.
fn codegen_call(expr: &Expr, f: &mut FunctionBuilder, function_table: &Vec<FnSig>) -> (r:
    Result<(Value, CellKind), CompileError>)
    requires
        old(f).wf(),
        *expr is Call,
    ensures
        keeps_shape(*old(f), *final(f)),
        r is Ok <==> expr_ok(sigs_view(function_table@), old(f).names(), expr_view(*expr)),
        r is Ok ==> ({
            let out = expr_code(
                sigs_view(function_table@),
                old(f).vars@,
                old(f).current,
                next_index(*old(f)),
                expr_view(*expr),
            );
            &&& cur_code(*final(f)) == cur_code(*old(f)) + out.0
            &&& r->Ok_0 == (out.1, out.2)
        }),
        r is Err ==> r->Err_0.kind == ErrorKind::Codegen,
    decreases expr, 1int,
{
    let ghost sigs = sigs_view(function_table@);
    let ghost c0 = cur_code(*f);
    let ghost vars = f.vars@;
    let ghost c = f.current;
    let ghost k0 = next_index(*f);
    assert(c0 =~= c0 + Seq::empty());
    match expr {
        Expr::Call { callee, args } => {
            proof {
                lemma_exprs_view_index(args@);
            }
            if str_eq(callee.as_str(), "print") {
                if args.len() == 0 {
                    return Err(codegen_error("print expects an argument"));
                }
                match &args[0] {
                    Expr::StringLiteral(s) => {
                        let text = f.emit(Instr::GlobalString { text: s.clone() });
                        f.emit(Instr::Print { format: FormatKind::Str, arg: text });
                    },
                    other => {
                        let (v, kind) = match codegen_expr(other, f, function_table) {
                            Ok(x) => x,
                            Err(e) => return Err(e),
                        };
                        let ghost x = expr_code(sigs, vars, c, k0, expr_view(*other));
                        let v = to_int(f, v, kind);
                        let ghost xi = int_code(c, k0 + x.0.len(), x.1, x.2);
                        f.emit(Instr::Print { format: FormatKind::Int, arg: v });
                        assert(cur_code(*f) =~= c0 + (x.0 + xi.0).push(
                            InstrV::Print { format: FormatKind::Int, arg: xi.1 },
                        ));
                    },
                }
                Ok((Value::Const(0), CellKind::Int))
            } else if str_eq(callee.as_str(), "input") {
                Err(codegen_error("input is not supported by this code generator"))
            } else {
                let k = match find_sig(function_table, callee.as_str()) {
                    Some(k) => k,
                    None => return Err(codegen_error("call of an undeclared function")),
                };
                if args.len() != function_table[k].arg_types.len() {
                    return Err(codegen_error("wrong number of arguments"));
                }
                let vals = match codegen_args(args, f, function_table) {
                    Ok(v) => v,
                    Err(e) => return Err(e),
                };
                let ghost a = args_code(sigs, vars, c, k0, exprs_view(args@));
                let call = f.emit(Instr::Call { callee: callee.clone(), args: vals });
                assert(cur_code(*f) =~= c0 + a.0.push(InstrV::Call { callee: callee@, args: a.1 }));
                match function_table[k].ret_type {
                    None => Ok((Value::Const(0), CellKind::Int)),
                    Some(kind) => Ok((call, kind)),
                }
            }
        },
        _ => Err(codegen_error("not a call")),
    }
}

/// The two operands of operator `expr`, the left one first, each made an
/// integer.
fn codegen_operands(expr: &Expr, f: &mut FunctionBuilder, function_table: &Vec<FnSig>) -> (r:
    Result<(Value, Value), CompileError>)
    requires
        old(f).wf(),
        *expr is BinaryOperator || *expr is BooleanComparison,
    ensures
        keeps_shape(*old(f), *final(f)),
        r is Ok <==> match expr_view(*expr) {
            ExprV::BinaryOperator { left, right, .. } => expr_ok(sigs_view(function_table@), old(f).names(), *left)
                && expr_ok(sigs_view(function_table@), old(f).names(), *right),
            ExprV::BooleanComparison { lvalue, rvalue, .. } => expr_ok(sigs_view(function_table@), old(f).names(), *lvalue)
                && expr_ok(sigs_view(function_table@), old(f).names(), *rvalue),
            _ => false,
        },
        r is Ok ==> ({
            let out = operands_code(
                sigs_view(function_table@),
                old(f).vars@,
                old(f).current,
                next_index(*old(f)),
                expr_view(*expr),
            );
            &&& cur_code(*final(f)) == cur_code(*old(f)) + out.0
            &&& r->Ok_0 == (out.1, out.2)
        }),
        r is Err ==> r->Err_0.kind == ErrorKind::Codegen,
    decreases expr, 0int,
{
    let ghost sigs = sigs_view(function_table@);
    let ghost c0 = cur_code(*f);
    let ghost vars = f.vars@;
    let ghost c = f.current;
    let ghost k0 = next_index(*f);
    let (left, right) = match expr {
        Expr::BinaryOperator { left, right, .. } => (left, right),
        Expr::BooleanComparison { lvalue, rvalue, .. } => (lvalue, rvalue),
        _ => return Err(codegen_error("not an operator")),
    };
    let (l, lk) = match codegen_expr(left, f, function_table) {
        Ok(x) => x,
        Err(e) => return Err(e),
    };
    let ghost lc = expr_code(sigs, vars, c, k0, expr_view(**left));
    let ghost c1 = cur_code(*f);
    let (r, rk) = match codegen_expr(right, f, function_table) {
        Ok(x) => x,
        Err(e) => return Err(e),
    };
    let ghost rc = expr_code(sigs, vars, c, k0 + lc.0.len(), expr_view(**right));
    assert(cur_code(*f) =~= c0 + (lc.0 + rc.0));
    let ghost c2 = cur_code(*f);
    let l = to_int(f, l, lk);
    let ghost li = int_code(c, k0 + lc.0.len() + rc.0.len(), lc.1, lc.2);
    assert(cur_code(*f) =~= c0 + (lc.0 + rc.0 + li.0));
    let r = to_int(f, r, rk);
    let ghost ri = int_code(c, k0 + lc.0.len() + rc.0.len() + li.0.len(), rc.1, rc.2);
    assert(cur_code(*f) =~= c0 + (lc.0 + rc.0 + li.0 + ri.0));
    Ok((l, r))
}

/// An arithmetic or comparison operator: its operands, then the operation
/// on them as integers; a comparison is widened to 64 bits.
fn codegen_operator(expr: &Expr, f: &mut FunctionBuilder, function_table: &Vec<FnSig>) -> (r:
    Result<(Value, CellKind), CompileError>)
    requires
        old(f).wf(),
        *expr is BinaryOperator || *expr is BooleanComparison,
    ensures
        keeps_shape(*old(f), *final(f)),
        r is Ok <==> expr_ok(sigs_view(function_table@), old(f).names(), expr_view(*expr)),
        r is Ok ==> ({
            let out = expr_code(
                sigs_view(function_table@),
                old(f).vars@,
                old(f).current,
                next_index(*old(f)),
                expr_view(*expr),
            );
            &&& cur_code(*final(f)) == cur_code(*old(f)) + out.0
            &&& r->Ok_0 == (out.1, out.2)
        }),
        r is Err ==> r->Err_0.kind == ErrorKind::Codegen,
    decreases expr, 1int,
{
    let ghost c0 = cur_code(*f);
    let ghost o = operands_code(
        sigs_view(function_table@),
        f.vars@,
        f.current,
        next_index(*f),
        expr_view(*expr),
    );
    let ghost k0 = next_index(*f);
    let ghost c = f.current;
    match expr {
        Expr::BinaryOperator { operator, .. } => {
            let op = match arith_op(operator.as_str()) {
                Some(op) => op,
                None => return Err(codegen_error("unsupported arithmetic operator")),
            };
            let (l, r) = match codegen_operands(expr, f, function_table) {
                Ok(x) => x,
                Err(e) => return Err(e),
            };
            let v = f.emit(Instr::Arith { op, lhs: l, rhs: r });
            assert(cur_code(*f) =~= c0 + o.0.push(InstrV::Arith { op, lhs: o.1, rhs: o.2 }));
            Ok((v, CellKind::Int))
        },
        Expr::BooleanComparison { operator, .. } => {
            let pred = match predicate(operator) {
                Some(p) => p,
                None => return Err(codegen_error("unsupported comparison operator")),
            };
            let (l, r) = match codegen_operands(expr, f, function_table) {
                Ok(x) => x,
                Err(e) => return Err(e),
            };
            let cmp = f.emit(Instr::Compare { pred, lhs: l, rhs: r });
            let v = f.emit(Instr::Widen { value: cmp });
            assert(cur_code(*f) =~= c0 + o.0.push(InstrV::Compare { pred, lhs: o.1, rhs: o.2 }).push(
                InstrV::Widen { value: crate::llvm_codegen::inst(c, k0 + o.0.len()) },
            ));
            Ok((v, CellKind::Int))
        },
        _ => Err(codegen_error("not an operator")),
    }
}

/// Lowers call arguments in order, each as a 64-bit integer.
pub fn codegen_args(args: &Vec<Expr>, f: &mut FunctionBuilder, function_table: &Vec<FnSig>) -> (r:
    Result<Vec<Value>, CompileError>)
    requires
        old(f).wf(),
    ensures
        keeps_shape(*old(f), *final(f)),
        r is Ok <==> args_ok(sigs_view(function_table@), old(f).names(), exprs_view(args@)),
        r is Ok ==> ({
            let out = args_code(
                sigs_view(function_table@),
                old(f).vars@,
                old(f).current,
                next_index(*old(f)),
                exprs_view(args@),
            );
            &&& cur_code(*final(f)) == cur_code(*old(f)) + out.0
            &&& r->Ok_0@ == out.1
        }),
        r is Err ==> r->Err_0.kind == ErrorKind::Codegen,
    decreases args, 3int,
{
    let ghost sigs = sigs_view(function_table@);
    let ghost c0 = cur_code(*f);
    let ghost vars = f.vars@;
    let ghost c = f.current;
    let ghost k = next_index(*f);
    let mut vals: Vec<Value> = Vec::new();
    let mut i: usize = 0;
    assert(exprs_view(args@.subrange(0, 0)) =~= Seq::empty());
    assert(c0 =~= c0 + Seq::empty());
    while i < args.len()
        invariant
            i <= args@.len(),
            c0 == cur_code(*old(f)),
            vars == old(f).vars@,
            c == old(f).current,
            k == next_index(*old(f)),
            cur_code(*f) == c0 + args_code(sigs, vars, c, k, exprs_view(args@.subrange(0, i as int))).0,
            vals@ == args_code(sigs, vars, c, k, exprs_view(args@.subrange(0, i as int))).1,
            keeps_shape(*old(f), *f),
            vals@.len() == i,
            sigs == sigs_view(function_table@),
            args_ok(sigs, old(f).names(), exprs_view(args@.subrange(0, i as int))),
        decreases args@.len() - i,
    {
        proof {
            assert(decreases_to!(args@ => args@[i as int]));
        }
        let (v, kind) = match codegen_expr(&args[i], f, function_table) {
            Ok(x) => x,
            Err(e) => {
                proof {
                    lemma_args_ok_prefix(sigs, old(f).names(), args@, i as int + 1);
                }
                return Err(e);
            },
        };
        let ghost pv = exprs_view(args@.subrange(0, i as int));
        let ghost p = args_code(sigs, vars, c, k, pv);
        let ghost x = expr_code(sigs, vars, c, k + p.0.len(), expr_view(args@[i as int]));
        let v = to_int(f, v, kind);
        vals.push(v);
        proof {
            assert(args@.subrange(0, i + 1) =~= args@.subrange(0, i as int).push(args@[i as int]));
            lemma_exprs_view_push(args@.subrange(0, i as int), args@[i as int]);
            assert(pv.push(expr_view(args@[i as int])).drop_last() =~= pv);
            let xi = int_code(c, k + p.0.len() + x.0.len(), x.1, x.2);
            assert(cur_code(*f) =~= c0 + (p.0 + x.0 + xi.0));
        }
        i = i + 1;
    }
    assert(args@.subrange(0, args@.len() as int) =~= args@);
    Ok(vals)
}

/// A failing argument fails the whole list.
proof fn lemma_args_ok_prefix(sigs: Seq<crate::llvm_codegen::SigV>, vars: Seq<Seq<char>>, args: Seq<Expr>, n: int)
    requires
        0 < n <= args.len(),
        !expr_ok(sigs, vars, expr_view(args[n - 1])),
    ensures
        !args_ok(sigs, vars, exprs_view(args)),
    decreases args.len() - n,
{
    lemma_exprs_view_index(args);
    if n == args.len() {
        assert(exprs_view(args).last() == expr_view(args[n - 1]));
    } else {
        lemma_args_ok_drop(sigs, vars, exprs_view(args), n);
    }
}

proof fn lemma_args_ok_drop(sigs: Seq<crate::llvm_codegen::SigV>, vars: Seq<Seq<char>>, args: Seq<crate::common::ExprV>, n: int)
    requires
        0 < n <= args.len(),
        !expr_ok(sigs, vars, args[n - 1]),
    ensures
        !args_ok(sigs, vars, args),
    decreases args.len(),
{
    if n < args.len() {
        lemma_args_ok_drop(sigs, vars, args.drop_last(), n);
    }
}

} // verus!
