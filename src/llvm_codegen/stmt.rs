use vstd::prelude::*;
use crate::common::{expr_view, lemma_stmts_view_index, stmt_view, stmts_view, CompileError, ErrorKind, Expr, Stmt};
use crate::llvm_codegen::{
    ends_list, has_return, has_return_list, is_exit_call, body_ends, body_ok, no_return,
    blocks_body, blocks_stmt, blocks_list, list_ok, list_closes, sigs_view, stmt_ok, var_names, BlockKind, FnSig,
    FunctionBuilder, Instr, Predicate, Terminator, Value,
};
use crate::llvm_codegen::expr::{codegen_error, codegen_expr, cur_code, next_index, to_int};
use crate::llvm_codegen::{code_of, expr_code, inst, int_code, var_cell, InstrV, SigV};
use crate::common::{ExprV, StmtV};
use crate::text::str_eq;

verus! {

broadcast use vstd::seq::group_seq_axioms, vstd::std_specs::vec::group_vec_axioms;

/// What lowering statements may change of the builder: the current block
/// and the blocks it appends; it never shrinks the block list.
pub open spec fn frame(before: FunctionBuilder, after: FunctionBuilder) -> bool {
    &&& after.wf()
    &&& after.blocks@.len() >= before.blocks@.len()
    &&& (after.current == before.current || after.current >= before.blocks@.len())
    &&& forall|k: int| 0 <= k < before.blocks@.len() ==> #[trigger] after.blocks@[k].kind == before.blocks@[k].kind
    &&& forall|k: int|
        0 <= k < before.blocks@.len() && k != before.current ==> #[trigger] after.blocks@[k]
            == before.blocks@[k]
}

/// The three blocks an `if` appends are its then, else and merge regions;
/// those of a `while` its condition, body and after regions.
pub open spec fn opens_regions(before: FunctionBuilder, after: FunctionBuilder, s: crate::common::StmtV) -> bool {
    let n = before.blocks@.len() as int;
    match s {
        crate::common::StmtV::IfStatement { .. } => {
            &&& after.blocks@[n].kind == BlockKind::Then
            &&& after.blocks@[n + 1].kind == BlockKind::Else
            &&& after.blocks@[n + 2].kind == BlockKind::Merge
        },
        crate::common::StmtV::While { .. } => {
            &&& after.blocks@[n].kind == BlockKind::LoopCond
            &&& after.blocks@[n + 1].kind == BlockKind::LoopBody
            &&& after.blocks@[n + 2].kind == BlockKind::LoopAfter
        },
        _ => true,
    }
}

/// The code that branches on a condition in block `c` from index `k`: the
/// condition as an integer, compared with 0; and the comparison's result.
pub open spec fn cond_code(sigs: Seq<SigV>, vars: Seq<(String, Value)>, c: usize, k: int, cond: ExprV) -> (
    Seq<InstrV>,
    Value,
) {
    let e = expr_code(sigs, vars, c, k, cond);
    let ii = int_code(c, k + e.0.len(), e.1, e.2);
    (
        (e.0 + ii.0).push(InstrV::Compare { pred: Predicate::Ne, lhs: ii.1, rhs: Value::Const(0) }),
        inst(c, k + e.0.len() + ii.0.len()),
    )
}

/// The block that lowering continues in after `s`, lowered in block `cur`
/// with `len` blocks: the merge or after region of an `if` or `while`.
pub open spec fn stmt_end(cur: int, len: int, s: StmtV) -> int {
    match s {
        StmtV::IfStatement { .. } => len + 2,
        StmtV::While { .. } => len + 2,
        _ => cur,
    }
}

/// The block that lowering continues in after a statement list.
pub open spec fn body_end(cur: int, len: int, stmts: Seq<StmtV>) -> int
    decreases stmts.len(),
{
    if stmts.len() == 0 {
        cur
    } else if ends_list(stmts[0]) {
        stmt_end(cur, len, stmts[0])
    } else {
        body_end(stmt_end(cur, len, stmts[0]), len + blocks_stmt(stmts[0]), stmts.drop_first())
    }
}

/// A region that does not end on its own jumps to `target` from the block
/// it finished in.
pub open spec fn region_jumps(after: FunctionBuilder, b: int, stmts: Seq<StmtV>, target: usize) -> bool {
    !list_closes(stmts) ==> after.blocks@[b].term == Some(Terminator::Jump(target))
}

/// What lowering `s` emits, beyond the regions its nested statements open:
/// - a `var` lowers its value, makes it an integer, allocates a cell and
///   stores the value into it, and declares the name with that cell;
/// - an assignment stores the value into the name's latest cell;
/// - an expression statement lowers the expression; a call of `exit` then
///   ends the block as unreachable;
/// - a `return` ends the block returning the value as an integer;
/// - an `if` branches from its block on the condition being nonzero to its
///   then and else regions, each of which jumps to the merge region unless
///   it ends on its own, and lowering continues in the merge region;
/// - a `while` jumps to its condition region, which branches to the body
///   region or the after region; the body jumps back to the condition
///   unless it ends on its own, and lowering continues after the loop.
pub open spec fn stmt_lowered(before: FunctionBuilder, after: FunctionBuilder, sigs: Seq<SigV>, s: StmtV) -> bool {
    let c = before.current;
    let k = next_index(before);
    let n = before.blocks@.len() as int;
    match s {
        StmtV::VariableDecl { name, value, .. } => {
            let e = expr_code(sigs, before.vars@, c, k, value);
            let ii = int_code(c, k + e.0.len(), e.1, e.2);
            let a = k + e.0.len() + ii.0.len();
            &&& cur_code(after) == cur_code(before) + e.0 + ii.0 + seq![
                InstrV::Alloca { name },
                InstrV::Store { cell: inst(c, a), value: ii.1 },
            ]
            &&& after.vars@.len() == before.vars@.len() + 1
            &&& after.vars@.drop_last() == before.vars@
            &&& after.vars@.last().0@ == name
            &&& after.vars@.last().1 == inst(c, a)
        },
        StmtV::Assignment { name, value } => {
            let e = expr_code(sigs, before.vars@, c, k, value);
            let ii = int_code(c, k + e.0.len(), e.1, e.2);
            cur_code(after) == cur_code(before) + e.0 + ii.0 + seq![
                InstrV::Store { cell: var_cell(before.vars@, name)->Some_0, value: ii.1 },
            ]
        },
        StmtV::ExprStmt(e) => {
            &&& cur_code(after) == cur_code(before) + expr_code(sigs, before.vars@, c, k, e).0
            &&& is_exit_call(s) ==> after.blocks@[c as int].term == Some(Terminator::Unreachable)
        },
        StmtV::Return(e) => {
            let x = expr_code(sigs, before.vars@, c, k, e);
            let ii = int_code(c, k + x.0.len(), x.1, x.2);
            &&& cur_code(after) == cur_code(before) + x.0 + ii.0
            &&& after.blocks@[c as int].term == Some(Terminator::Return(ii.1))
        },
        StmtV::IfStatement { condition, body, else_body } => {
            let cc = cond_code(sigs, before.vars@, c, k, condition);
            &&& code_of(after.blocks@[c as int]) == cur_code(before) + cc.0
            &&& after.blocks@[c as int].term == Some(
                Terminator::Branch { cond: cc.1, then_block: n as usize, else_block: (n + 1) as usize },
            )
            &&& region_jumps(after, list_end(n, n + 3, body), body, (n + 2) as usize)
            &&& region_jumps(
                after,
                list_end(n + 1, n + 3 + blocks_list(body), else_seq(else_body)),
                else_seq(else_body),
                (n + 2) as usize,
            )
        },
        StmtV::While { condition, body } => {
            let cc = cond_code(sigs, before.vars@, n as usize, 0, condition);
            &&& after.blocks@[c as int].term == Some(Terminator::Jump(n as usize))
            &&& code_of(after.blocks@[n]) == cc.0
            &&& after.blocks@[n].term == Some(
                Terminator::Branch { cond: cc.1, then_block: (n + 1) as usize, else_block: (n + 2) as usize },
            )
            &&& region_jumps(after, list_end(n + 1, n + 3, body), body, n as usize)
        },
        _ => after.blocks@ == before.blocks@,
    }
}

/// The statements of an optional else branch.
pub open spec fn else_seq(e: Option<Seq<StmtV>>) -> Seq<StmtV> {
    match e {
        Some(b) => b,
        None => Seq::empty(),
    }
}

/// The block that lowering continues in after a nested statement list;
/// after a `return` or a call of `exit` that is not last, the rest goes to
/// a fresh block.
pub open spec fn list_end(cur: int, len: int, stmts: Seq<StmtV>) -> int
    decreases stmts.len(),
{
    if stmts.len() == 0 {
        cur
    } else {
        let l1 = len + blocks_stmt(stmts[0]);
        if ends_list(stmts[0]) && stmts.len() > 1 {
            list_end(l1, l1 + 1, stmts.drop_first())
        } else {
            list_end(stmt_end(cur, len, stmts[0]), l1, stmts.drop_first())
        }
    }
}

/// Where a nested list's lowering continues: where it started, or in a
/// block it opened.
pub proof fn lemma_list_end_range(cur: int, len: int, stmts: Seq<StmtV>)
    ensures
        list_end(cur, len, stmts) == cur || len <= list_end(cur, len, stmts) < len + blocks_list(stmts),
    decreases stmts.len(),
{
    if stmts.len() > 0 {
        let l1 = len + blocks_stmt(stmts[0]);
        if ends_list(stmts[0]) && stmts.len() > 1 {
            lemma_list_end_range(l1, l1 + 1, stmts.drop_first());
        } else {
            lemma_list_end_range(stmt_end(cur, len, stmts[0]), l1, stmts.drop_first());
        }
    }
}

/// Where a function body's lowering continues: where it started, or in a
/// region it opened.
pub proof fn lemma_body_end_range(cur: int, len: int, stmts: Seq<StmtV>)
    ensures
        body_end(cur, len, stmts) == cur || len <= body_end(cur, len, stmts) < len + blocks_body(stmts),
    decreases stmts.len(),
{
    if stmts.len() > 0 && !ends_list(stmts[0]) {
        lemma_body_end_range(stmt_end(cur, len, stmts[0]), len + blocks_stmt(stmts[0]), stmts.drop_first());
    }
}

/// What lowering `s` promises: it succeeds exactly when `s` can be lowered,
/// and then declares what `s` declares, opens its regions, ends the block
/// exactly when `s` ends its list, continues where `stmt_end` says, and
/// emits what `stmt_lowered` says.
pub open spec fn stmt_done(before: FunctionBuilder, after: FunctionBuilder, sigs: Seq<SigV>, s: StmtV, ok: bool) -> bool {
    let out = stmt_ok(sigs, before.names(), s);
    &&& ok <==> out is Some
    &&& ok ==> after.names() == out->Some_0
    &&& ok ==> after.blocks@.len() == before.blocks@.len() + blocks_stmt(s)
    &&& ok ==> (after.closed() <==> ends_list(s))
    &&& ok ==> opens_regions(before, after, s)
    &&& ok ==> after.current == stmt_end(before.current as int, before.blocks@.len() as int, s)
    &&& ok ==> stmt_lowered(before, after, sigs, s)
}

/// Whether `e`, as a statement, is a call of `exit`.
fn is_exit(e: &Expr) -> (r: bool)
    ensures
        r == is_exit_call(crate::common::StmtV::ExprStmt(expr_view(*e))),
{
    match e {
        Expr::Call { callee, .. } => str_eq(callee.as_str(), "exit"),
        _ => false,
    }
}

/// Whether lowering stops after `s` in its list: a `return`, or a call of
/// `exit`.
fn ends(s: &Stmt) -> (r: bool)
    ensures
        r == ends_list(stmt_view(*s)),
{
    match s {
        Stmt::Return(_) => true,
        Stmt::ExprStmt(e) => is_exit(e),
        _ => false,
    }
}

/// Lowers `cond` and branches on whether it is nonzero.
fn branch_on(
    cond: &Expr,
    f: &mut FunctionBuilder,
    function_table: &Vec<FnSig>,
    then_block: usize,
    else_block: usize,
) -> (r: Result<(), CompileError>)
    requires
        old(f).wf(),
        !old(f).closed(),
    ensures
        final(f).wf(),
        final(f).current == old(f).current,
        final(f).vars == old(f).vars,
        final(f).blocks@.len() == old(f).blocks@.len(),
        r is Ok <==> crate::llvm_codegen::expr_ok(sigs_view(function_table@), old(f).names(), expr_view(*cond)),
        r is Ok ==> final(f).closed(),
        r is Ok ==> ({
            let cc = cond_code(
                sigs_view(function_table@),
                old(f).vars@,
                old(f).current,
                next_index(*old(f)),
                expr_view(*cond),
            );
            &&& cur_code(*final(f)) == cur_code(*old(f)) + cc.0
            &&& final(f).blocks@[old(f).current as int].term == Some(
                Terminator::Branch { cond: cc.1, then_block, else_block },
            )
        }),
        forall|k: int| 0 <= k < old(f).blocks@.len() && k != old(f).current ==> #[trigger] final(f).blocks@[k] == old(f).blocks@[k],
        forall|k: int| 0 <= k < old(f).blocks@.len() ==> #[trigger] final(f).blocks@[k].kind == old(f).blocks@[k].kind,
        no_return(old(f).blocks@) ==> no_return(final(f).blocks@),
        r is Err ==> r->Err_0.kind == ErrorKind::Codegen,
{
    let (c, kind) = match codegen_expr(cond, f, function_table) {
        Ok(x) => x,
        Err(e) => return Err(e),
    };
    let ghost c0 = cur_code(*old(f));
    let ghost e = expr_code(sigs_view(function_table@), old(f).vars@, old(f).current, next_index(*old(f)), expr_view(*cond));
    let c = to_int(f, c, kind);
    let t = f.emit(Instr::Compare { pred: Predicate::Ne, lhs: c, rhs: Value::Const(0) });
    let ghost ii = int_code(old(f).current, next_index(*old(f)) + e.0.len(), e.1, e.2);
    assert(cur_code(*f) =~= c0 + (e.0 + ii.0).push(InstrV::Compare { pred: Predicate::Ne, lhs: ii.1, rhs: Value::Const(0) }));
    f.terminate(Terminator::Branch { cond: t, then_block, else_block });
    Ok(())
}

/// Lowers one statement into the current block. It succeeds exactly when
/// the statement can be lowered; it then declares what the statement
/// declares, opens three regions for each `if` and each `while` in it, and
/// ends the current block exactly when the statement is a `return` or a
/// call of `exit`.
pub fn codegen_stmt(stmt: &Stmt, f: &mut FunctionBuilder, function_table: &Vec<FnSig>) -> (r:
    Result<(), CompileError>)
    requires
        old(f).wf(),
        !old(f).closed(),
    ensures
        frame(*old(f), *final(f)),
        stmt_done(*old(f), *final(f), sigs_view(function_table@), stmt_view(*stmt), r is Ok),
        no_return(old(f).blocks@) && !has_return(stmt_view(*stmt)) ==> no_return(final(f).blocks@),
        r is Err ==> r->Err_0.kind == ErrorKind::Codegen,
    decreases stmt, 1int,
{
    let ghost sigs = sigs_view(function_table@);
    let ghost b0 = *f;
    let ghost c = f.current;
    let ghost k = next_index(*f);
    let ghost n = f.blocks@.len() as int;
    assert(cur_code(b0) =~= cur_code(b0) + Seq::empty());
    match stmt {
        Stmt::VariableDecl { name, value, .. } => {
            let (v, kind) = match codegen_expr(value, f, function_table) {
                Ok(x) => x,
                Err(e) => return Err(e),
            };
            let ghost e = expr_code(sigs, b0.vars@, c, k, expr_view(*value));
            let v = to_int(f, v, kind);
            let ghost ii = int_code(c, k + e.0.len(), e.1, e.2);
            let cell = f.emit(Instr::Alloca { name: name.clone() });
            f.emit(Instr::Store { cell, value: v });
            assert(cur_code(*f) =~= cur_code(b0) + e.0 + ii.0 + seq![
                InstrV::Alloca { name: name@ },
                InstrV::Store { cell: inst(c, k + e.0.len() + ii.0.len()), value: ii.1 },
            ]);
            let ghost old_vars = f.vars@;
            f.vars.push((name.clone(), cell));
            assert(var_names(f.vars@) =~= var_names(old_vars).push(name@));
            assert(f.vars@.drop_last() =~= old_vars);
            Ok(())
        },
        Stmt::Assignment { name, value } => {
            let cell = match f.find_var(name.as_str()) {
                Some(c) => c,
                None => return Err(codegen_error("assignment to an undeclared variable")),
            };
            let (v, kind) = match codegen_expr(value, f, function_table) {
                Ok(x) => x,
                Err(e) => return Err(e),
            };
            let ghost e = expr_code(sigs, b0.vars@, c, k, expr_view(*value));
            let v = to_int(f, v, kind);
            let ghost ii = int_code(c, k + e.0.len(), e.1, e.2);
            f.emit(Instr::Store { cell, value: v });
            assert(cur_code(*f) =~= cur_code(b0) + e.0 + ii.0 + seq![InstrV::Store { cell, value: ii.1 }]);
            Ok(())
        },
        Stmt::ExprStmt(e) => {
            match codegen_expr(e, f, function_table) {
                Ok(_) => {},
                Err(err) => return Err(err),
            }
            if is_exit(e) {
                // `exit` does not return: nothing may follow it in this block.
                f.terminate(Terminator::Unreachable);
            }
            Ok(())
        },
        Stmt::Return(e) => {
            let (v, kind) = match codegen_expr(e, f, function_table) {
                Ok(x) => x,
                Err(err) => return Err(err),
            };
            let ghost x = expr_code(sigs, b0.vars@, c, k, expr_view(*e));
            let v = to_int(f, v, kind);
            let ghost ii = int_code(c, k + x.0.len(), x.1, x.2);
            assert(cur_code(*f) =~= cur_code(b0) + x.0 + ii.0);
            f.terminate(Terminator::Return(v));
            Ok(())
        },
        Stmt::IfStatement { .. } => codegen_if(stmt, f, function_table),
        Stmt::While { .. } => codegen_while(stmt, f, function_table),
        _ => Ok(()),
    }
}

/// An `if` statement: see `stmt_lowered`.
fn codegen_if(stmt: &Stmt, f: &mut FunctionBuilder, function_table: &Vec<FnSig>) -> (r:
    Result<(), CompileError>)
    requires
        old(f).wf(),
        !old(f).closed(),
        *stmt is IfStatement,
    ensures
        frame(*old(f), *final(f)),
        stmt_done(*old(f), *final(f), sigs_view(function_table@), stmt_view(*stmt), r is Ok),
        no_return(old(f).blocks@) && !has_return(stmt_view(*stmt)) ==> no_return(final(f).blocks@),
        r is Err ==> r->Err_0.kind == ErrorKind::Codegen,
    decreases stmt, 0int,
{
    let ghost sigs = sigs_view(function_table@);
    let ghost b0 = *f;
    let ghost c = f.current;
    let ghost k = next_index(*f);
    let ghost n = f.blocks@.len() as int;
    match stmt {
        Stmt::IfStatement { condition, body, else_body } => {
            let then_bb = f.append_block(BlockKind::Then);
            let else_bb = f.append_block(BlockKind::Else);
            let merge_bb = f.append_block(BlockKind::Merge);
            match branch_on(condition, f, function_table, then_bb, else_bb) {
                Ok(()) => {},
                Err(e) => return Err(e),
            }
            assert(f.blocks@[else_bb as int].term is None);
            assert(f.blocks@[merge_bb as int].term is None);
            let ghost g1 = *f;
            f.position_at_end(then_bb);
            let ghost before_then = *f;
            let ghost bv = stmts_view(body@);
            match codegen_block(body, f, function_table) {
                Ok(_) => {},
                Err(e) => return Err(e),
            }
            let ghost t_end = list_end(n, n + 3, bv);
            proof {
                lemma_list_end_range(n, n + 3, bv);
            }
            assert(f.blocks@[else_bb as int] == before_then.blocks@[else_bb as int]);
            assert(f.blocks@[c as int] == g1.blocks@[c as int]);
            f.terminate(Terminator::Jump(merge_bb));
            let ghost g3 = *f;
            assert(!list_closes(bv) ==> g3.blocks@[t_end].term == Some(Terminator::Jump(merge_bb)));
            f.position_at_end(else_bb);
            let ghost ev = else_seq(match else_body {
                Some(eb) => Some(stmts_view(eb@)),
                None => None,
            });
            let ghost l3 = n + 3 + blocks_list(bv);
            match else_body {
                Some(eb) => {
                    match codegen_block(eb, f, function_table) {
                        Ok(_) => {},
                        Err(e) => return Err(e),
                    }
                },
                None => {
                    assert(ev =~= Seq::<StmtV>::empty());
                },
            }
            proof {
                lemma_list_end_range(n + 1, l3, ev);
            }
            let ghost e_end = list_end(n + 1, l3, ev);
            assert(f.current == e_end);
            assert(f.blocks@[c as int] == g1.blocks@[c as int]);
            assert(f.blocks@[t_end] == g3.blocks@[t_end]);
            f.terminate(Terminator::Jump(merge_bb));
            assert(!list_closes(ev) ==> f.blocks@[e_end].term == Some(Terminator::Jump(merge_bb)));
            f.position_at_end(merge_bb);
            Ok(())
        },
        _ => Ok(()),
    }
}

/// A `while` statement: see `stmt_lowered`.
fn codegen_while(stmt: &Stmt, f: &mut FunctionBuilder, function_table: &Vec<FnSig>) -> (r:
    Result<(), CompileError>)
    requires
        old(f).wf(),
        !old(f).closed(),
        *stmt is While,
    ensures
        frame(*old(f), *final(f)),
        stmt_done(*old(f), *final(f), sigs_view(function_table@), stmt_view(*stmt), r is Ok),
        no_return(old(f).blocks@) && !has_return(stmt_view(*stmt)) ==> no_return(final(f).blocks@),
        r is Err ==> r->Err_0.kind == ErrorKind::Codegen,
    decreases stmt, 0int,
{
    let ghost sigs = sigs_view(function_table@);
    let ghost b0 = *f;
    let ghost c = f.current;
    let ghost k = next_index(*f);
    let ghost n = f.blocks@.len() as int;
    match stmt {
        Stmt::While { condition, body } => {
            let cond_bb = f.append_block(BlockKind::LoopCond);
            let body_bb = f.append_block(BlockKind::LoopBody);
            let after_bb = f.append_block(BlockKind::LoopAfter);
            f.terminate(Terminator::Jump(cond_bb));
            f.position_at_end(cond_bb);
            assert(cur_code(*f) =~= Seq::<InstrV>::empty());
            match branch_on(condition, f, function_table, body_bb, after_bb) {
                Ok(()) => {},
                Err(e) => return Err(e),
            }
            let ghost g1 = *f;
            assert(code_of(g1.blocks@[n]) =~= cond_code(sigs, b0.vars@, n as usize, 0, expr_view(*condition)).0);
            f.position_at_end(body_bb);
            let ghost bv = stmts_view(body@);
            match codegen_block(body, f, function_table) {
                Ok(_) => {},
                Err(e) => return Err(e),
            }
            proof {
                lemma_list_end_range(n + 1, n + 3, bv);
            }
            assert(f.blocks@[c as int] == g1.blocks@[c as int]);
            assert(f.blocks@[n] == g1.blocks@[n]);
            f.terminate(Terminator::Jump(cond_bb));
            f.position_at_end(after_bb);
            Ok(())
        },
        _ => Ok(()),
    }
}

/// `b` is `a` with a fresh, empty `Dead` block added and made current.
pub open spec fn opens_dead_block(a: FunctionBuilder, b: FunctionBuilder) -> bool {
    &&& b.blocks@.len() == a.blocks@.len() + 1
    &&& b.blocks@.subrange(0, a.blocks@.len() as int) == a.blocks@
    &&& b.blocks@.last().kind == BlockKind::Dead
    &&& b.blocks@.last().instrs@.len() == 0
    &&& b.blocks@.last().term is None
    &&& b.current == a.blocks@.len()
    &&& b.vars == a.vars
}

/// A run of builder states through a nested list: `st[i]` before
/// statement `i`, `md[i]` after it as `stmt_done` says, and the next state
/// either `md[i]` or, after a `return` or call of `exit` that more
/// statements follow, `md[i]` with a fresh block.
pub open spec fn list_trace(
    st: Seq<FunctionBuilder>,
    md: Seq<FunctionBuilder>,
    before: FunctionBuilder,
    after: FunctionBuilder,
    sigs: Seq<SigV>,
    stmts: Seq<StmtV>,
) -> bool {
    let n = stmts.len() as int;
    &&& st.len() == n + 1
    &&& md.len() == n
    &&& st[0] == before
    &&& st[n] == after
    &&& forall|i: int| 0 <= i < n ==> stmt_done(#[trigger] st[i], md[i], sigs, stmts[i], true)
    &&& forall|i: int|
        0 <= i < n ==> if ends_list(stmts[i]) && i + 1 < n {
            opens_dead_block(md[i], #[trigger] st[i + 1])
        } else {
            st[i + 1] == md[i]
        }
}

/// Lowering a nested list took `before` to `after` statement by statement.
pub open spec fn list_lowered(before: FunctionBuilder, after: FunctionBuilder, sigs: Seq<SigV>, stmts: Seq<StmtV>) -> bool {
    exists|st: Seq<FunctionBuilder>, md: Seq<FunctionBuilder>| #[trigger] list_trace(st, md, before, after, sigs, stmts)
}

/// Lowers a nested statement list whole, in order. After a `return` or a
/// call of `exit` that is not the last statement, the rest is lowered into
/// a fresh block.
pub fn codegen_block(stmts: &Vec<Stmt>, f: &mut FunctionBuilder, function_table: &Vec<FnSig>) -> (r:
    Result<(), CompileError>)
    requires
        old(f).wf(),
        !old(f).closed(),
    ensures
        frame(*old(f), *final(f)),
        ({
            let sv = stmts_view(stmts@);
            let out = list_ok(sigs_view(function_table@), old(f).names(), sv);
            &&& r is Ok <==> out is Some
            &&& r is Ok ==> final(f).names() == out->Some_0
            &&& r is Ok ==> final(f).blocks@.len() == old(f).blocks@.len() + blocks_list(sv)
            &&& r is Ok ==> (final(f).closed() <==> list_closes(sv))
            &&& r is Ok ==> final(f).current == list_end(old(f).current as int, old(f).blocks@.len() as int, sv)
            &&& r is Ok ==> list_lowered(*old(f), *final(f), sigs_view(function_table@), sv)
        }),
        no_return(old(f).blocks@) && !has_return_list(stmts_view(stmts@)) ==> no_return(final(f).blocks@),
        r is Err ==> r->Err_0.kind == ErrorKind::Codegen,
    decreases stmts, 2int,
{
    let ghost sigs = sigs_view(function_table@);
    let ghost sv = stmts_view(stmts@);
    let ghost n = stmts@.len() as int;
    proof {
        lemma_stmts_view_index(stmts@);
        assert(sv.subrange(0, n) =~= sv);
    }
    let mut k: usize = 0;
    let ghost mut st: Seq<FunctionBuilder> = seq![*f];
    let ghost mut md: Seq<FunctionBuilder> = Seq::empty();
    while k < stmts.len()
        invariant
            sigs == sigs_view(function_table@),
            sv == stmts_view(stmts@),
            n == stmts@.len(),
            sv.len() == n,
            forall|i: int| 0 <= i < n ==> #[trigger] sv[i] == stmt_view(stmts@[i]),
            k <= n,
            frame(*old(f), *f),
            st.len() == k + 1,
            md.len() == k,
            st[0] == *old(f),
            st[k as int] == *f,
            forall|i: int| 0 <= i < k ==> stmt_done(#[trigger] st[i], md[i], sigs, sv[i], true),
            forall|i: int|
                0 <= i < k ==> if ends_list(sv[i]) && i + 1 < n {
                    opens_dead_block(md[i], #[trigger] st[i + 1])
                } else {
                    st[i + 1] == md[i]
                },
            k < n ==> !f.closed(),
            k == n ==> (f.closed() <==> list_closes(sv)),
            k < n ==> list_closes(sv) == list_closes(sv.subrange(k as int, n)),
            list_ok(sigs, old(f).names(), sv) == list_ok(sigs, f.names(), sv.subrange(k as int, n)),
            f.blocks@.len() + blocks_list(sv.subrange(k as int, n)) == old(f).blocks@.len() + blocks_list(sv),
            list_end(old(f).current as int, old(f).blocks@.len() as int, sv) == list_end(f.current as int, f.blocks@.len() as int, sv.subrange(k as int, n)),
            no_return(old(f).blocks@) && !has_return_list(sv) ==> no_return(f.blocks@) && !has_return_list(sv.subrange(k as int, n)),
        decreases n - k,
    {
        let ghost rest = sv.subrange(k as int, n);
        proof {
            assert(rest[0] == sv[k as int]);
            assert(rest.drop_first() =~= sv.subrange(k + 1, n));
            assert(decreases_to!(stmts@ => stmts@[k as int]));
        }
        let s = &stmts[k];
        let ghost pre = *f;
        match codegen_stmt(s, f, function_table) {
            Ok(()) => {},
            Err(e) => return Err(e),
        }
        let ghost mid = *f;
        if ends(s) && k + 1 < stmts.len() {
            let d = f.append_block(BlockKind::Dead);
            f.position_at_end(d);
            assert(f.blocks@.subrange(0, mid.blocks@.len() as int) =~= mid.blocks@);
        }
        proof {
            md = md.push(mid);
            st = st.push(*f);
            assert(st[k as int] == pre);
        }
        k = k + 1;
        proof {
            if k == n {
                assert(sv.subrange(k as int, n).len() == 0);
            }
        }
    }
    assert(list_trace(st, md, *old(f), *f, sigs, sv));
    Ok(())
}

/// How many statements of a function body are lowered: all of them, or up
/// to and including the first that ends the body.
pub open spec fn lowered_count(stmts: Seq<StmtV>) -> nat
    decreases stmts.len(),
{
    if stmts.len() == 0 {
        0
    } else if ends_list(stmts[0]) {
        1
    } else {
        1 + lowered_count(stmts.drop_first())
    }
}

/// A run of builder states through a function body: each lowered statement
/// takes one state to the next as `stmt_done` says.
pub open spec fn body_trace(
    st: Seq<FunctionBuilder>,
    before: FunctionBuilder,
    after: FunctionBuilder,
    sigs: Seq<SigV>,
    stmts: Seq<StmtV>,
) -> bool {
    let m = lowered_count(stmts) as int;
    &&& st.len() == m + 1
    &&& st[0] == before
    &&& st[m] == after
    &&& forall|i: int| 0 <= i < m ==> stmt_done(#[trigger] st[i], st[i + 1], sigs, stmts[i], true)
}

/// Lowering a function body took `before` to `after` statement by
/// statement, each as `stmt_lowered` describes, and nothing after the
/// statement that ends the body.
pub open spec fn body_lowered(before: FunctionBuilder, after: FunctionBuilder, sigs: Seq<SigV>, stmts: Seq<StmtV>) -> bool {
    exists|st: Seq<FunctionBuilder>| #[trigger] body_trace(st, before, after, sigs, stmts)
}

/// Lowers a function body in order and stops after a statement that ends
/// it; the result says whether one did.
pub fn codegen_body(stmts: &Vec<Stmt>, f: &mut FunctionBuilder, function_table: &Vec<FnSig>) -> (r:
    Result<bool, CompileError>)
    requires
        old(f).wf(),
        !old(f).closed(),
    ensures
        frame(*old(f), *final(f)),
        ({
            let sv = stmts_view(stmts@);
            let out = body_ok(sigs_view(function_table@), old(f).names(), sv);
            &&& r is Ok <==> out is Some
            &&& r is Ok ==> final(f).names() == out->Some_0
            &&& r is Ok ==> final(f).blocks@.len() == old(f).blocks@.len() + blocks_body(sv)
            &&& r is Ok ==> r->Ok_0 == body_ends(sv)
            &&& r is Ok ==> (final(f).closed() <==> body_ends(sv))
            &&& r is Ok ==> final(f).current == body_end(old(f).current as int, old(f).blocks@.len() as int, sv)
            &&& r is Ok ==> body_lowered(*old(f), *final(f), sigs_view(function_table@), sv)
        }),
        no_return(old(f).blocks@) && !has_return_list(stmts_view(stmts@)) ==> no_return(final(f).blocks@),
        r is Err ==> r->Err_0.kind == ErrorKind::Codegen,
    decreases stmts, 2int,
{
    let ghost sigs = sigs_view(function_table@);
    let ghost sv = stmts_view(stmts@);
    let ghost n = stmts@.len() as int;
    proof {
        lemma_stmts_view_index(stmts@);
        assert(sv.subrange(0, n) =~= sv);
    }
    let mut k: usize = 0;
    let ghost mut st: Seq<FunctionBuilder> = seq![*f];
    while k < stmts.len()
        invariant
            sigs == sigs_view(function_table@),
            sv == stmts_view(stmts@),
            n == stmts@.len(),
            sv.len() == n,
            forall|i: int| 0 <= i < n ==> #[trigger] sv[i] == stmt_view(stmts@[i]),
            k <= n,
            frame(*old(f), *f),
            !f.closed(),
            st.len() == k + 1,
            st[0] == *old(f),
            st[k as int] == *f,
            forall|i: int| 0 <= i < k ==> stmt_done(#[trigger] st[i], st[i + 1], sigs, sv[i], true),
            forall|i: int| 0 <= i < k ==> !ends_list(#[trigger] sv[i]),
            lowered_count(sv) == k + lowered_count(sv.subrange(k as int, n)),
            body_ok(sigs, old(f).names(), sv) == body_ok(sigs, f.names(), sv.subrange(k as int, n)),
            f.blocks@.len() + blocks_body(sv.subrange(k as int, n)) == old(f).blocks@.len() + blocks_body(sv),
            body_ends(sv) == body_ends(sv.subrange(k as int, n)),
            body_end(old(f).current as int, old(f).blocks@.len() as int, sv) == body_end(f.current as int, f.blocks@.len() as int, sv.subrange(k as int, n)),
            no_return(old(f).blocks@) && !has_return_list(sv) ==> no_return(f.blocks@) && !has_return_list(sv.subrange(k as int, n)),
        decreases n - k,
    {
        let ghost rest = sv.subrange(k as int, n);
        proof {
            assert(rest[0] == sv[k as int]);
            assert(rest.drop_first() =~= sv.subrange(k + 1, n));
            assert(decreases_to!(stmts@ => stmts@[k as int]));
        }
        let s = &stmts[k];
        let ghost pre = *f;
        match codegen_stmt(s, f, function_table) {
            Ok(()) => {},
            Err(e) => return Err(e),
        }
        proof {
            st = st.push(*f);
            assert(st[k as int] == pre);
        }
        if ends(s) {
            assert(body_trace(st, *old(f), *f, sigs, sv));
            return Ok(true);
        }
        k = k + 1;
    }
    proof {
        assert(sv.subrange(n, n).len() == 0);
        assert(body_trace(st, *old(f), *f, sigs, sv));
    }
    Ok(false)
}

} // verus!
