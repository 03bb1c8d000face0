use vstd::prelude::*;
use crate::common::{
    Token,
    extern_view, externs_view, program_view, stmt_view, stmts_view, lemma_stmts_view_index,
    CompileError, ErrorKind, ExprV, ExternFunction, ExternV, Program, ProgramV, Stmt, StmtV, Type,
};
use crate::llvm_codegen::expr::{codegen_error, codegen_expr, to_int};
use crate::llvm_codegen::stmt::{codegen_body, body_end, body_lowered};
use crate::llvm_codegen::expr::{cur_code, next_index};
use crate::common::{expr_view, params_view};
use crate::text::str_eq;
use crate::parser::grammar::is_comparison;

pub mod expr;
pub mod stmt;

verus! {

broadcast use vstd::seq::group_seq_axioms, vstd::std_specs::vec::group_vec_axioms;

/// How a value is held: a 64-bit integer or an opaque pointer.
#[derive(Debug, Clone, Copy, PartialEq, Eq, Structural)]
pub enum CellKind {
    Int,
    Ptr,
}

/// An operand: a constant, an incoming parameter, or the result of the
/// instruction at (block, index) of the same function.
#[derive(Debug, Clone, Copy, PartialEq, Eq, Structural)]
pub enum Value {
    Const(i64),
    Param(usize),
    Inst(usize, usize),
}

#[derive(Debug, Clone, Copy, PartialEq, Eq, Structural)]
pub enum ArithOp {
    Add,
    Sub,
    Mul,
    SDiv,
}

/// Signed integer comparisons.
#[derive(Debug, Clone, Copy, PartialEq, Eq, Structural)]
pub enum Predicate {
    Eq,
    Ne,
    Slt,
    Sle,
    Sgt,
    Sge,
}

/// The format a value is printed with: `"%ld\n"` or `"%s\n"`.
#[derive(Debug, Clone, Copy, PartialEq, Eq, Structural)]
pub enum FormatKind {
    Int,
    Str,
}

#[derive(Debug)]
pub enum Instr {
    /// A fresh 64-bit cell for the named variable; its result is the cell.
    Alloca { name: String },
    Store { cell: Value, value: Value },
    /// Loads the 64-bit integer in a cell.
    Load { cell: Value },
    Arith { op: ArithOp, lhs: Value, rhs: Value },
    /// A one-bit comparison result.
    Compare { pred: Predicate, lhs: Value, rhs: Value },
    /// Zero-extends a one-bit value to 64 bits.
    Widen { value: Value },
    PtrToInt { value: Value },
    /// A constant string of its own; its result points to it.
    GlobalString { text: String },
    /// A direct call; its result is the callee's, if it returns one.
    Call { callee: String, args: Vec<Value> },
    /// A call of the formatted-output routine with one argument.
    Print { format: FormatKind, arg: Value },
}

#[derive(Debug, Clone, Copy, PartialEq, Eq, Structural)]
pub enum Terminator {
    Jump(usize),
    /// Branches on a one-bit value.
    Branch { cond: Value, then_block: usize, else_block: usize },
    Return(Value),
    Unreachable,
}

/// What a basic block was made for.
#[derive(Debug, Clone, Copy, PartialEq, Eq, Structural)]
pub enum BlockKind {
    Entry,
    Then,
    Else,
    Merge,
    LoopCond,
    LoopBody,
    LoopAfter,
    /// The rest of a nested statement list after a `return` or a call of
    /// `exit` in it: reachable from nowhere, but lowered all the same.
    Dead,
}

#[derive(Debug)]
pub struct Block {
    pub kind: BlockKind,
    pub instrs: Vec<Instr>,
    pub term: Option<Terminator>,
}

/// A function of the module; one with no blocks is a declaration.
#[derive(Debug)]
pub struct IrFunction {
    pub name: String,
    pub params: Vec<CellKind>,
    pub ret: Option<CellKind>,
    pub blocks: Vec<Block>,
}

/// The lowered program: one function per source function and extern, in
/// the order externs first, then functions. Every module also declares the
/// formatted-output routine that `Print` calls.
#[derive(Debug)]
pub struct IrModule {
    pub functions: Vec<IrFunction>,
}

/// The callable shape of a function or extern.
#[derive(Debug)]
pub struct FnSig {
    pub name: String,
    pub arg_types: Vec<CellKind>,
    pub ret_type: Option<CellKind>,
}

/// A signature as the contracts see it.
pub struct SigV {
    pub name: Seq<char>,
    pub arity: nat,
    pub ret: Option<CellKind>,
}

pub open spec fn sig_view(s: FnSig) -> SigV {
    SigV { name: s.name@, arity: s.arg_types@.len(), ret: s.ret_type }
}

pub open spec fn sigs_view(s: Seq<FnSig>) -> Seq<SigV> {
    s.map_values(|x: FnSig| sig_view(x))
}

/// The index of the last signature named `name`: a later declaration hides
/// an earlier one of the same name.
pub open spec fn lookup(sigs: Seq<SigV>, name: Seq<char>) -> Option<int>
    decreases sigs.len(),
{
    if sigs.len() == 0 {
        None
    } else if sigs.last().name == name {
        Some(sigs.len() - 1)
    } else {
        lookup(sigs.drop_last(), name)
    }
}

pub open spec fn arith_of(symbol: Seq<char>) -> Option<ArithOp> {
    if symbol == "+"@ {
        Some(ArithOp::Add)
    } else if symbol == "-"@ {
        Some(ArithOp::Sub)
    } else if symbol == "*"@ {
        Some(ArithOp::Mul)
    } else if symbol == "/"@ {
        Some(ArithOp::SDiv)
    } else {
        None
    }
}

/// Whether an expression can be lowered with signatures `sigs` and the
/// variables `vars` declared: every variable and callee it names is known,
/// every call has as many arguments as its callee has parameters, `print`
/// has an argument, `input` is not used, and every operator is supported.
pub open spec fn expr_ok(sigs: Seq<SigV>, vars: Seq<Seq<char>>, e: ExprV) -> bool
    decreases e,
{
    match e {
        ExprV::Call { callee, args } => if callee == "print"@ {
            args.len() > 0 && (args[0] is StringLiteral || expr_ok(sigs, vars, args[0]))
        } else if callee == "input"@ {
            false
        } else {
            match lookup(sigs, callee) {
                Some(k) => args.len() == sigs[k].arity && args_ok(sigs, vars, args),
                None => false,
            }
        },
        ExprV::Variable(n) => vars.contains(n),
        ExprV::BinaryOperator { operator, left, right } => arith_of(operator) is Some && expr_ok(
            sigs,
            vars,
            *left,
        ) && expr_ok(sigs, vars, *right),
        ExprV::BooleanComparison { lvalue, operator, rvalue } => is_comparison(operator)
            && expr_ok(sigs, vars, *lvalue) && expr_ok(sigs, vars, *rvalue),
        _ => true,
    }
}

pub open spec fn args_ok(sigs: Seq<SigV>, vars: Seq<Seq<char>>, args: Seq<ExprV>) -> bool
    decreases args,
{
    if args.len() == 0 {
        true
    } else {
        args_ok(sigs, vars, args.drop_last()) && expr_ok(sigs, vars, args.last())
    }
}

/// A call of the process-terminating `exit`, as a statement.
pub open spec fn is_exit_call(s: StmtV) -> bool {
    s matches StmtV::ExprStmt(ExprV::Call { callee, .. }) && callee == "exit"@
}

/// A statement after which nothing of its statement list is lowered.
pub open spec fn ends_list(s: StmtV) -> bool {
    s is Return || is_exit_call(s)
}

/// Whether a nested statement list leaves its last block ended: its last
/// statement is a `return` or a call of `exit`.
pub open spec fn list_closes(stmts: Seq<StmtV>) -> bool
    decreases stmts.len(),
{
    if stmts.len() == 0 {
        false
    } else if stmts.len() == 1 {
        ends_list(stmts[0])
    } else {
        list_closes(stmts.drop_first())
    }
}

/// Whether lowering a function body stops at a statement that ends it.
pub open spec fn body_ends(stmts: Seq<StmtV>) -> bool
    decreases stmts.len(),
{
    if stmts.len() == 0 {
        false
    } else {
        ends_list(stmts[0]) || body_ends(stmts.drop_first())
    }
}

/// The variables declared after lowering `s` with `vars` declared, or
/// `None` if `s` cannot be lowered.
pub open spec fn stmt_ok(sigs: Seq<SigV>, vars: Seq<Seq<char>>, s: StmtV) -> Option<
    Seq<Seq<char>>,
>
    decreases s,
{
    match s {
        StmtV::VariableDecl { name, value, .. } => if expr_ok(sigs, vars, value) {
            Some(vars.push(name))
        } else {
            None
        },
        StmtV::Assignment { name, value } => if vars.contains(name) && expr_ok(sigs, vars, value) {
            Some(vars)
        } else {
            None
        },
        StmtV::IfStatement { condition, body, else_body } => if !expr_ok(sigs, vars, condition) {
            None
        } else {
            match list_ok(sigs, vars, body) {
                None => None,
                Some(v) => match else_body {
                    None => Some(v),
                    Some(eb) => list_ok(sigs, v, eb),
                },
            }
        },
        StmtV::While { condition, body } => if !expr_ok(sigs, vars, condition) {
            None
        } else {
            list_ok(sigs, vars, body)
        },
        StmtV::ExprStmt(e) => if expr_ok(sigs, vars, e) {
            Some(vars)
        } else {
            None
        },
        StmtV::Return(e) => if expr_ok(sigs, vars, e) {
            Some(vars)
        } else {
            None
        },
        _ => Some(vars),
    }
}

/// Lowering a statement list: in order, up to and including the first
/// statement that ends it.
pub open spec fn body_ok(sigs: Seq<SigV>, vars: Seq<Seq<char>>, stmts: Seq<StmtV>) -> Option<
    Seq<Seq<char>>,
>
    decreases stmts,
{
    if stmts.len() == 0 {
        Some(vars)
    } else {
        match stmt_ok(sigs, vars, stmts[0]) {
            None => None,
            Some(v) => if ends_list(stmts[0]) {
                Some(v)
            } else {
                body_ok(sigs, v, stmts.drop_first())
            },
        }
    }
}

/// A nested statement list, lowered whole: each statement in turn.
pub open spec fn list_ok(sigs: Seq<SigV>, vars: Seq<Seq<char>>, stmts: Seq<StmtV>) -> Option<
    Seq<Seq<char>>,
>
    decreases stmts,
{
    if stmts.len() == 0 {
        Some(vars)
    } else {
        match stmt_ok(sigs, vars, stmts[0]) {
            None => None,
            Some(v) => list_ok(sigs, v, stmts.drop_first()),
        }
    }
}

/// The blocks a nested statement list opens: those of its statements, and
/// one more after each `return` or call of `exit` that is not last.
pub open spec fn blocks_list(stmts: Seq<StmtV>) -> nat
    decreases stmts,
{
    if stmts.len() == 0 {
        0
    } else {
        blocks_stmt(stmts[0]) + (if ends_list(stmts[0]) && stmts.len() > 1 {
            1nat
        } else {
            0nat
        }) + blocks_list(stmts.drop_first())
    }
}

/// The blocks a lowered statement opens: three for each `if` (then, else,
/// merge) and three for each `while` (condition, body, after),
/// nested ones included.
pub open spec fn blocks_stmt(s: StmtV) -> nat
    decreases s,
{
    match s {
        StmtV::IfStatement { body, else_body, .. } => 3 + blocks_list(body) + match else_body {
            Some(eb) => blocks_list(eb),
            None => 0,
        },
        StmtV::While { body, .. } => 3 + blocks_list(body),
        _ => 0,
    }
}

/// The blocks a function body opens: those of its statements up to and
/// including the first that ends it.
pub open spec fn blocks_body(stmts: Seq<StmtV>) -> nat
    decreases stmts,
{
    if stmts.len() == 0 {
        0
    } else if ends_list(stmts[0]) {
        blocks_stmt(stmts[0])
    } else {
        blocks_stmt(stmts[0]) + blocks_body(stmts.drop_first())
    }
}

/// Whether a `return` statement stands anywhere in `s`.
pub open spec fn has_return(s: StmtV) -> bool
    decreases s,
{
    match s {
        StmtV::Return(_) => true,
        StmtV::IfStatement { body, else_body, .. } => has_return_list(body) || match else_body {
            Some(eb) => has_return_list(eb),
            None => false,
        },
        StmtV::While { body, .. } => has_return_list(body),
        _ => false,
    }
}

pub open spec fn has_return_list(stmts: Seq<StmtV>) -> bool
    decreases stmts,
{
    if stmts.len() == 0 {
        false
    } else {
        has_return(stmts[0]) || has_return_list(stmts.drop_first())
    }
}

pub open spec fn is_return(t: Option<Terminator>) -> bool {
    t matches Some(Terminator::Return(_))
}

/// No block of `blocks` ends in a return.
pub open spec fn no_return(blocks: Seq<Block>) -> bool {
    forall|i: int| 0 <= i < blocks.len() ==> !is_return(#[trigger] blocks[i].term)
}

pub open spec fn var_names(vars: Seq<(String, Value)>) -> Seq<Seq<char>> {
    vars.map_values(|v: (String, Value)| v.0@)
}

/// The cell of the most recently declared variable named `n`.
pub open spec fn var_cell(vars: Seq<(String, Value)>, n: Seq<char>) -> Option<Value>
    decreases vars.len(),
{
    if vars.len() == 0 {
        None
    } else if vars.last().0@ == n {
        Some(vars.last().1)
    } else {
        var_cell(vars.drop_last(), n)
    }
}

proof fn lemma_var_cell_last(vars: Seq<(String, Value)>, n: Seq<char>, k: int)
    requires
        0 <= k < vars.len(),
        vars[k].0@ == n,
        forall|m: int| k < m < vars.len() ==> (#[trigger] vars[m]).0@ != n,
    ensures
        var_cell(vars, n) == Some(vars[k].1),
    decreases vars.len(),
{
    if k < vars.len() - 1 {
        assert(vars.last() == vars[vars.len() - 1]);
        lemma_var_cell_last(vars.drop_last(), n, k);
    }
}

proof fn lemma_var_cell_none(vars: Seq<(String, Value)>, n: Seq<char>)
    requires
        forall|m: int| 0 <= m < vars.len() ==> (#[trigger] vars[m]).0@ != n,
    ensures
        var_cell(vars, n) is None,
    decreases vars.len(),
{
    if vars.len() > 0 {
        assert(vars.last() == vars[vars.len() - 1]);
        lemma_var_cell_none(vars.drop_last(), n);
    }
}

/// An instruction as the contracts see it: text as characters, operand
/// lists as sequences.
pub enum InstrV {
    Alloca { name: Seq<char> },
    Store { cell: Value, value: Value },
    Load { cell: Value },
    Arith { op: ArithOp, lhs: Value, rhs: Value },
    Compare { pred: Predicate, lhs: Value, rhs: Value },
    Widen { value: Value },
    PtrToInt { value: Value },
    GlobalString { text: Seq<char> },
    Call { callee: Seq<char>, args: Seq<Value> },
    Print { format: FormatKind, arg: Value },
}

pub open spec fn instr_view(i: Instr) -> InstrV {
    match i {
        Instr::Alloca { name } => InstrV::Alloca { name: name@ },
        Instr::Store { cell, value } => InstrV::Store { cell, value },
        Instr::Load { cell } => InstrV::Load { cell },
        Instr::Arith { op, lhs, rhs } => InstrV::Arith { op, lhs, rhs },
        Instr::Compare { pred, lhs, rhs } => InstrV::Compare { pred, lhs, rhs },
        Instr::Widen { value } => InstrV::Widen { value },
        Instr::PtrToInt { value } => InstrV::PtrToInt { value },
        Instr::GlobalString { text } => InstrV::GlobalString { text: text@ },
        Instr::Call { callee, args } => InstrV::Call { callee: callee@, args: args@ },
        Instr::Print { format, arg } => InstrV::Print { format, arg },
    }
}

/// The instructions of a block, as the contracts see them.
pub open spec fn code_of(b: Block) -> Seq<InstrV> {
    b.instrs@.map_values(|i: Instr| instr_view(i))
}

/// The result of the instruction at index `k` of block `c`.
pub open spec fn inst(c: usize, k: int) -> Value {
    Value::Inst(c, k as usize)
}

pub open spec fn pred_of(t: Token) -> Predicate {
    match t {
        Token::Equality => Predicate::Eq,
        Token::NotEqual => Predicate::Ne,
        Token::LessThan => Predicate::Slt,
        Token::LessThanOrEqual => Predicate::Sle,
        Token::GreaterThan => Predicate::Sgt,
        _ => Predicate::Sge,
    }
}

/// The code that makes `v` (held as `kind`) a 64-bit integer when it is
/// emitted at index `k` of block `c`, and the integer.
pub open spec fn int_code(c: usize, k: int, v: Value, kind: CellKind) -> (Seq<InstrV>, Value) {
    match kind {
        CellKind::Int => (Seq::empty(), v),
        CellKind::Ptr => (seq![InstrV::PtrToInt { value: v }], inst(c, k)),
    }
}

/// The code that lowering `e` appends to block `c`, whose next index is
/// `k`, with the value it yields and how that value is held. Operands are
/// lowered left to right and made integers; a string literal is a constant
/// of its own; a variable is a load of its latest cell; `print` yields 0; a
/// call of a function that returns nothing yields 0.
pub open spec fn expr_code(
    sigs: Seq<SigV>,
    vars: Seq<(String, Value)>,
    c: usize,
    k: int,
    e: ExprV,
) -> (Seq<InstrV>, Value, CellKind)
    decreases e, 1int,
{
    match e {
        ExprV::IntegerLiteral(n) => (Seq::empty(), Value::Const(n), CellKind::Int),
        ExprV::BooleanLiteral(b) => (Seq::empty(), Value::Const(if b { 1 } else { 0 }), CellKind::Int),
        ExprV::StringLiteral(s) => (seq![InstrV::GlobalString { text: s }], inst(c, k), CellKind::Ptr),
        ExprV::Variable(n) => (seq![InstrV::Load { cell: var_cell(vars, n)->Some_0 }], inst(c, k), CellKind::Int),
        ExprV::BinaryOperator { operator, left, right } => {
            let o = operands_code(sigs, vars, c, k, e);
            (
                o.0.push(InstrV::Arith { op: arith_of(operator)->Some_0, lhs: o.1, rhs: o.2 }),
                inst(c, k + o.0.len()),
                CellKind::Int,
            )
        },
        ExprV::BooleanComparison { lvalue, operator, rvalue } => {
            let o = operands_code(sigs, vars, c, k, e);
            (
                o.0.push(InstrV::Compare { pred: pred_of(operator), lhs: o.1, rhs: o.2 }).push(
                    InstrV::Widen { value: inst(c, k + o.0.len()) },
                ),
                inst(c, k + o.0.len() + 1),
                CellKind::Int,
            )
        },
        ExprV::Call { callee, args } => if callee == "print"@ {
            if args.len() == 0 {
                (Seq::empty(), Value::Const(0), CellKind::Int)
            } else if args[0] is StringLiteral {
                (
                    seq![
                        InstrV::GlobalString { text: args[0]->StringLiteral_0 },
                        InstrV::Print { format: FormatKind::Str, arg: inst(c, k) },
                    ],
                    Value::Const(0),
                    CellKind::Int,
                )
            } else {
                let x = expr_code(sigs, vars, c, k, args[0]);
                let xi = int_code(c, k + x.0.len(), x.1, x.2);
                (
                    (x.0 + xi.0).push(InstrV::Print { format: FormatKind::Int, arg: xi.1 }),
                    Value::Const(0),
                    CellKind::Int,
                )
            }
        } else {
            let a = args_code(sigs, vars, c, k, args);
            let code = a.0.push(InstrV::Call { callee, args: a.1 });
            match sigs[lookup(sigs, callee)->Some_0].ret {
                None => (code, Value::Const(0), CellKind::Int),
                Some(kind) => (code, inst(c, k + a.0.len()), kind),
            }
        },
    }
}

/// The code of the two operands of operator `e`, the left one first, then each made an
/// integer, with the two integers.
pub open spec fn operands_code(
    sigs: Seq<SigV>,
    vars: Seq<(String, Value)>,
    c: usize,
    k: int,
    e: ExprV,
) -> (Seq<InstrV>, Value, Value)
    decreases e, 0int,
{
    match e {
        ExprV::BinaryOperator { left, right, .. } => {
            let l = expr_code(sigs, vars, c, k, *left);
            let r = expr_code(sigs, vars, c, k + l.0.len(), *right);
            let li = int_code(c, k + l.0.len() + r.0.len(), l.1, l.2);
            let ri = int_code(c, k + l.0.len() + r.0.len() + li.0.len(), r.1, r.2);
            (l.0 + r.0 + li.0 + ri.0, li.1, ri.1)
        },
        ExprV::BooleanComparison { lvalue, rvalue, .. } => {
            let l = expr_code(sigs, vars, c, k, *lvalue);
            let r = expr_code(sigs, vars, c, k + l.0.len(), *rvalue);
            let li = int_code(c, k + l.0.len() + r.0.len(), l.1, l.2);
            let ri = int_code(c, k + l.0.len() + r.0.len() + li.0.len(), r.1, r.2);
            (l.0 + r.0 + li.0 + ri.0, li.1, ri.1)
        },
        _ => (Seq::empty(), Value::Const(0), Value::Const(0)),
    }
}


/// The code of call arguments, each lowered in turn and made an integer,
/// with their values in order.
pub open spec fn args_code(
    sigs: Seq<SigV>,
    vars: Seq<(String, Value)>,
    c: usize,
    k: int,
    args: Seq<ExprV>,
) -> (Seq<InstrV>, Seq<Value>)
    decreases args, 2int,
{
    if args.len() == 0 {
        (Seq::empty(), Seq::empty())
    } else {
        let p = args_code(sigs, vars, c, k, args.drop_last());
        let x = expr_code(sigs, vars, c, k + p.0.len(), args.last());
        let xi = int_code(c, k + p.0.len() + x.0.len(), x.1, x.2);
        (p.0 + x.0 + xi.0, p.1.push(xi.1))
    }
}

/// The body of one function while it is being lowered: its blocks, the one
/// instructions go to, and the variables declared so far with their cells.
pub struct FunctionBuilder {
    pub blocks: Vec<Block>,
    pub current: usize,
    pub vars: Vec<(String, Value)>,
}

impl FunctionBuilder {
    pub open spec fn wf(&self) -> bool {
        self.current < self.blocks@.len()
    }

    pub open spec fn names(&self) -> Seq<Seq<char>> {
        var_names(self.vars@)
    }

    /// Whether the current block already has its terminator.
    pub open spec fn closed(&self) -> bool {
        self.blocks@[self.current as int].term is Some
    }

    /// A builder positioned in a fresh entry block.
    pub fn new() -> (r: Self)
        ensures
            r.wf(),
            r.blocks@.len() == 1,
            r.current == 0,
            r.vars@.len() == 0,
            r.blocks@[0].kind == BlockKind::Entry,
            !r.closed(),
            no_return(r.blocks@),
    {
        let mut blocks: Vec<Block> = Vec::new();
        blocks.push(Block { kind: BlockKind::Entry, instrs: Vec::new(), term: None });
        FunctionBuilder { blocks, current: 0, vars: Vec::new() }
    }

    /// Appends an instruction to the current block and returns its result.
    pub fn emit(&mut self, i: Instr) -> (r: Value)
        requires
            old(self).wf(),
        ensures
            final(self).wf(),
            final(self).current == old(self).current,
            final(self).vars == old(self).vars,
            final(self).blocks@.len() == old(self).blocks@.len(),
            forall|k: int| 0 <= k < old(self).blocks@.len() ==> #[trigger] final(self).blocks@[k].term == old(self).blocks@[k].term,
            forall|k: int| 0 <= k < old(self).blocks@.len() && k != old(self).current ==> #[trigger] final(self).blocks@[k] == old(self).blocks@[k],
            final(self).blocks@[old(self).current as int].instrs@ == old(self).blocks@[old(self).current as int].instrs@.push(i),
            code_of(final(self).blocks@[old(self).current as int]) == code_of(old(self).blocks@[old(self).current as int]).push(instr_view(i)),
            final(self).blocks@[old(self).current as int].kind == old(self).blocks@[old(self).current as int].kind,
            r == Value::Inst(old(self).current as usize, old(self).blocks@[old(self).current as int].instrs@.len() as usize),
    {
        let c = self.current;
        let n = self.blocks[c].instrs.len();
        let ghost before = self.blocks@[c as int].instrs@;
        let ghost iv = instr_view(i);
        self.blocks[c].instrs.push(i);
        assert(self.blocks@[c as int].instrs@.map_values(|x: Instr| instr_view(x)) =~= before.map_values(|x: Instr| instr_view(x)).push(iv));
        Value::Inst(c, n)
    }

    /// Ends the current block with `t`, unless it has ended already.
    pub fn terminate(&mut self, t: Terminator)
        requires
            old(self).wf(),
        ensures
            final(self).wf(),
            final(self).current == old(self).current,
            final(self).vars == old(self).vars,
            final(self).blocks@.len() == old(self).blocks@.len(),
            final(self).closed(),
            forall|k: int| 0 <= k < old(self).blocks@.len() && k != old(self).current ==> #[trigger] final(self).blocks@[k] == old(self).blocks@[k],
            old(self).closed() ==> final(self).blocks@ == old(self).blocks@,
            !old(self).closed() ==> final(self).blocks@[old(self).current as int].term == Some(t),
            final(self).blocks@[old(self).current as int].kind == old(self).blocks@[old(self).current as int].kind,
            final(self).blocks@[old(self).current as int].instrs == old(self).blocks@[old(self).current as int].instrs,
    {
        let c = self.current;
        if self.blocks[c].term.is_none() {
            self.blocks[c].term = Some(t);
        }
    }

    /// Adds an empty block and returns its index.
    pub fn append_block(&mut self, kind: BlockKind) -> (r: usize)
        requires
            old(self).wf(),
        ensures
            final(self).wf(),
            final(self).current == old(self).current,
            final(self).vars == old(self).vars,
            final(self).blocks@.len() == old(self).blocks@.len() + 1,
            r == old(self).blocks@.len(),
            forall|k: int| 0 <= k < old(self).blocks@.len() ==> #[trigger] final(self).blocks@[k] == old(self).blocks@[k],
            final(self).blocks@[r as int].term is None,
            final(self).blocks@[r as int].kind == kind,
            final(self).blocks@[r as int].instrs@.len() == 0,
    {
        let n = self.blocks.len();
        self.blocks.push(Block { kind, instrs: Vec::new(), term: None });
        n
    }

    /// Directs instructions to block `b`.
    pub fn position_at_end(&mut self, b: usize)
        requires
            old(self).wf(),
            b < old(self).blocks@.len(),
        ensures
            final(self).wf(),
            final(self).current == b,
            final(self).vars == old(self).vars,
            final(self).blocks == old(self).blocks,
    {
        self.current = b;
    }

    /// The cell of the most recently declared variable named `name`.
    pub fn find_var(&self, name: &str) -> (r: Option<Value>)
        ensures
            r is Some <==> self.names().contains(name@),
            r == var_cell(self.vars@, name@),
    {
        let mut k = self.vars.len();
        while k > 0
            invariant
                k <= self.vars@.len(),
                forall|m: int| k <= m < self.vars@.len() ==> (#[trigger] self.vars@[m]).0@ != name@,
            decreases k,
        {
            k = k - 1;
            if crate::text::str_eq(self.vars[k].0.as_str(), name) {
                assert(self.names()[k as int] == name@);
                proof {
                    lemma_var_cell_last(self.vars@, name@, k as int);
                }
                return Some(self.vars[k].1);
            }
        }
        assert forall|m: int| 0 <= m < self.names().len() implies self.names()[m] != name@ by {
            assert(self.vars@[m].0@ != name@);
        }
        proof {
            lemma_var_cell_none(self.vars@, name@);
        }
        None
    }
}

/// The storage kind of a declared type.
pub fn cell_kind(t: Type) -> (r: CellKind)
    ensures
        r == CellKind::Int,
{
    match t {
        Type::Int | Type::Bool => CellKind::Int,
    }
}

/// The index of the signature that a call of `name` uses.
pub fn find_sig(sigs: &Vec<FnSig>, name: &str) -> (r: Option<usize>)
    ensures
        r matches Some(k) ==> k < sigs@.len() && lookup(sigs_view(sigs@), name@) == Some(k as int),
        r is None ==> lookup(sigs_view(sigs@), name@) is None,
{
    let mut k = sigs.len();
    assert(sigs_view(sigs@).subrange(0, k as int) =~= sigs_view(sigs@));
    while k > 0
        invariant
            k <= sigs@.len(),
            lookup(sigs_view(sigs@), name@) == lookup(sigs_view(sigs@).subrange(0, k as int), name@),
        decreases k,
    {
        let ghost sv = sigs_view(sigs@).subrange(0, k as int);
        assert(sv.drop_last() =~= sigs_view(sigs@).subrange(0, k - 1));
        if crate::text::str_eq(sigs[k - 1].name.as_str(), name) {
            return Some(k - 1);
        }
        k = k - 1;
    }
    None
}

/// The names of a parameter list.
pub open spec fn param_names(args: Seq<(Seq<char>, Type)>) -> Seq<Seq<char>> {
    args.map_values(|p: (Seq<char>, Type)| p.0)
}

/// Whether a function can be lowered with signatures `sigs`: its body, with
/// the parameters declared, and then its trailing return expression, unless
/// the body ends on its own.
pub open spec fn fn_ok(sigs: Seq<SigV>, f: StmtV) -> bool {
    match f {
        StmtV::Function { args, body, return_expr, .. } => match body_ok(
            sigs,
            param_names(args),
            body,
        ) {
            None => false,
            Some(v) => body_ends(body) || match return_expr {
                Some(e) => expr_ok(sigs, v, e),
                None => true,
            },
        },
        _ => true,
    }
}

/// What an extern returns: nothing when it has no return type or is
/// `exit`, an integer for `int` and `bool`, a pointer for any other name.
pub open spec fn extern_ret(name: Seq<char>, return_type: Seq<char>) -> Option<CellKind> {
    if name == "exit"@ || return_type.len() == 0 {
        None
    } else if return_type == "int"@ || return_type == "bool"@ {
        Some(CellKind::Int)
    } else {
        Some(CellKind::Ptr)
    }
}

pub open spec fn extern_sig(e: ExternV) -> SigV {
    SigV { name: e.name, arity: e.args.len(), ret: extern_ret(e.name, e.return_type) }
}

/// The signatures of the function declarations among `fns`; each returns
/// an integer.
pub open spec fn fn_sigs(fns: Seq<StmtV>) -> Seq<SigV>
    decreases fns.len(),
{
    if fns.len() == 0 {
        Seq::empty()
    } else {
        fn_sigs(fns.drop_last()) + match fns.last() {
            StmtV::Function { name, args, .. } => seq![
                SigV { name, arity: args.len(), ret: Some(CellKind::Int) },
            ],
            _ => Seq::empty(),
        }
    }
}

/// Every extern and every function of the program, externs first, each in
/// source order. It is complete before any body is lowered.
pub open spec fn signature_table(p: ProgramV) -> Seq<SigV> {
    p.externs.map_values(|e: ExternV| extern_sig(e)) + fn_sigs(p.functions)
}

/// The signature table of a program.
pub fn build_signature_table(program: &Program) -> (r: Vec<FnSig>)
    ensures
        sigs_view(r@) == signature_table(program_view(*program)),
{
    let ghost pv = program_view(*program);
    let mut table: Vec<FnSig> = Vec::new();
    let mut i: usize = 0;
    while i < program.externs.len()
        invariant
            pv == program_view(*program),
            i <= program.externs@.len(),
            sigs_view(table@) =~= pv.externs.subrange(0, i as int).map_values(|e: ExternV| extern_sig(e)),
        decreases program.externs@.len() - i,
    {
        let ext = &program.externs[i];
        let mut arg_types: Vec<CellKind> = Vec::new();
        let mut j: usize = 0;
        while j < ext.args.len()
            invariant
                j <= ext.args@.len(),
                arg_types@.len() == j,
            decreases ext.args@.len() - j,
        {
            arg_types.push(cell_kind(ext.args[j].1));
            j = j + 1;
        }
        let ret_type = if str_eq(ext.name.as_str(), "exit") || ext.return_type.as_str().unicode_len() == 0 {
            None
        } else if str_eq(ext.return_type.as_str(), "int") || str_eq(ext.return_type.as_str(), "bool") {
            Some(CellKind::Int)
        } else {
            Some(CellKind::Ptr)
        };
        let ghost before = sigs_view(table@);
        table.push(FnSig { name: ext.name.clone(), arg_types, ret_type });
        proof {
            assert(pv.externs[i as int] == extern_view(program.externs@[i as int]));
            assert(sigs_view(table@) =~= before.push(sig_view(table@.last())));
            assert(pv.externs.subrange(0, i + 1) =~= pv.externs.subrange(0, i as int).push(pv.externs[i as int]));
        }
        i = i + 1;
    }
    assert(pv.externs.subrange(0, pv.externs.len() as int) =~= pv.externs);
    let ghost ext_sigs = sigs_view(table@);
    let mut i: usize = 0;
    proof {
        lemma_stmts_view_index(program.functions@);
        assert(pv.functions.subrange(0, 0) =~= Seq::<StmtV>::empty());
        assert(ext_sigs + fn_sigs(Seq::<StmtV>::empty()) =~= ext_sigs);
    }
    while i < program.functions.len()
        invariant
            pv == program_view(*program),
            i <= program.functions@.len(),
            pv.functions.len() == program.functions@.len(),
            forall|k: int| 0 <= k < pv.functions.len() ==> #[trigger] pv.functions[k] == stmt_view(program.functions@[k]),
            ext_sigs == pv.externs.map_values(|e: ExternV| extern_sig(e)),
            sigs_view(table@) == ext_sigs + fn_sigs(pv.functions.subrange(0, i as int)),
        decreases program.functions@.len() - i,
    {
        let ghost before = sigs_view(table@);
        assert(pv.functions.subrange(0, i + 1).drop_last() =~= pv.functions.subrange(0, i as int));
        match &program.functions[i] {
            Stmt::Function { name, args, .. } => {
                let mut arg_types: Vec<CellKind> = Vec::new();
                let mut j: usize = 0;
                while j < args.len()
                    invariant
                        j <= args@.len(),
                        arg_types@.len() == j,
                    decreases args@.len() - j,
                {
                    arg_types.push(cell_kind(args[j].1));
                    j = j + 1;
                }
                table.push(FnSig { name: name.clone(), arg_types, ret_type: Some(CellKind::Int) });
                proof {
                    assert(sigs_view(table@) =~= before.push(sig_view(table@.last())));
                    assert(sigs_view(table@) =~= ext_sigs + fn_sigs(pv.functions.subrange(0, i + 1)));
                }
            },
            _ => {
                assert(sigs_view(table@) =~= ext_sigs + fn_sigs(pv.functions.subrange(0, i + 1)));
            },
        }
        i = i + 1;
    }
    assert(pv.functions.subrange(0, pv.functions.len() as int) =~= pv.functions);
    table
}

/// What lowering function `f` gives: a function of the same name with an
/// integer cell per parameter, returning an integer, with one entry block
/// and three more for each `if` and each `while` that is lowered. Where the
/// body does not end on its own, the block it finished in returns the
/// trailing return expression, or 0 without one; a body that ends on a call
/// of `exit` and holds no `return` returns nowhere.
pub open spec fn fn_lowered(sigs: Seq<SigV>, f: StmtV, ir: IrFunction) -> bool {
    match f {
        StmtV::Function { name, args, body, return_expr } => {
            let end = body_end(0, 1, body);
            &&& ir.name@ == name
            &&& ir.params@.len() == args.len()
            &&& forall|i: int| 0 <= i < ir.params@.len() ==> #[trigger] ir.params@[i] == CellKind::Int
            &&& ir.ret == Some(CellKind::Int)
            &&& ir.blocks@.len() == 1 + blocks_body(body)
            &&& ir.blocks@[0].kind == BlockKind::Entry
            &&& !body_ends(body) ==> (ir.blocks@[end].term matches Some(Terminator::Return(_)))
            &&& (!body_ends(body) && return_expr is None) ==> ir.blocks@[end].term == Some(
                Terminator::Return(Value::Const(0)),
            )
            &&& (!has_return_list(body) && body_ends(body)) ==> no_return(ir.blocks@)
            &&& (!has_return_list(body) && body.len() > 0 && is_exit_call(body.last()))
                ==> no_return(ir.blocks@)
            &&& exists|pb: FunctionBuilder, fb: FunctionBuilder| #[trigger]
                fn_trace(pb, fb, ir, sigs, args, body, return_expr)
        },
        _ => true,
    }
}

/// The lowering of a function, state by state: `pb` has the parameters in
/// their cells in the entry block; the body takes it to `fb` as
/// `body_lowered` says; where the body does not end on its own, the block
/// it finished in then returns the trailing expression's value as an
/// integer, or 0 without one, and the function's blocks are `fb`'s so
/// completed.
pub open spec fn fn_trace(
    pb: FunctionBuilder,
    fb: FunctionBuilder,
    ir: IrFunction,
    sigs: Seq<SigV>,
    args: Seq<(Seq<char>, Type)>,
    body: Seq<StmtV>,
    return_expr: Option<ExprV>,
) -> bool {
    let c = fb.current as int;
    &&& pb.wf()
    &&& pb.blocks@.len() == 1
    &&& pb.current == 0
    &&& !pb.closed()
    &&& pb.names() == param_names(args)
    &&& body_lowered(pb, fb, sigs, body)
    &&& if body_ends(body) {
        ir.blocks@ == fb.blocks@
    } else {
        &&& ir.blocks@.len() == fb.blocks@.len()
        &&& forall|i: int| 0 <= i < ir.blocks@.len() && i != c ==> #[trigger] ir.blocks@[i] == fb.blocks@[i]
        &&& match return_expr {
            None => {
                &&& code_of(ir.blocks@[c]) == cur_code(fb)
                &&& ir.blocks@[c].term == Some(Terminator::Return(Value::Const(0)))
            },
            Some(e) => {
                let x = expr_code(sigs, fb.vars@, fb.current, next_index(fb), e);
                let ii = int_code(fb.current, next_index(fb) + x.0.len(), x.1, x.2);
                &&& code_of(ir.blocks@[c]) == cur_code(fb) + x.0 + ii.0
                &&& ir.blocks@[c].term == Some(Terminator::Return(ii.1))
            },
        }
    }
}

/// What declaring extern `e` gives: a function without blocks, of the same
/// name, with an integer cell per parameter and the return kind of its
/// signature.
pub open spec fn extern_lowered(e: ExternV, ir: IrFunction) -> bool {
    &&& ir.name@ == e.name
    &&& ir.params@.len() == e.args.len()
    &&& forall|i: int| 0 <= i < ir.params@.len() ==> #[trigger] ir.params@[i] == CellKind::Int
    &&& ir.ret == extern_ret(e.name, e.return_type)
    &&& ir.blocks@.len() == 0
}

/// Lowers one function. It succeeds exactly when the function can be
/// lowered with `function_table`, and then gives what `fn_lowered` says.
pub fn codegen_function(func: &Stmt, function_table: &Vec<FnSig>) -> (r: Result<
    IrFunction,
    CompileError,
>)
    requires
        *func is Function,
    ensures
        r is Ok <==> fn_ok(sigs_view(function_table@), stmt_view(*func)),
        r is Err ==> r->Err_0.kind == ErrorKind::Codegen,
        r is Ok ==> fn_lowered(sigs_view(function_table@), stmt_view(*func), r->Ok_0),
{
    match func {
        Stmt::Function { name, args, body, return_expr } => {
            proof {
                let bv = stmts_view(body@);
                if bv.len() > 0 && is_exit_call(bv.last()) {
                    lemma_last_ends_body(bv);
                }
            }
            let mut f = FunctionBuilder::new();
            let mut params: Vec<CellKind> = Vec::new();
            let mut i: usize = 0;
            let ghost pv = crate::common::params_view(args@);
            assert(f.blocks@[0].kind == BlockKind::Entry);
            assert(var_names(f.vars@) =~= param_names(pv.subrange(0, 0)));
            while i < args.len()
                invariant
                    pv == crate::common::params_view(args@),
                    i <= args@.len(),
                    f.wf(),
                    f.current == 0,
                    f.blocks@.len() == 1,
                    !f.closed(),
                    no_return(f.blocks@),
                    f.blocks@[0].kind == BlockKind::Entry,
                    params@.len() == i,
                    forall|j: int| 0 <= j < params@.len() ==> #[trigger] params@[j] == CellKind::Int,
                    f.names() == param_names(pv.subrange(0, i as int)),
                decreases args@.len() - i,
            {
                let cell = f.emit(Instr::Alloca { name: args[i].0.clone() });
                f.emit(Instr::Store { cell, value: Value::Param(i) });
                let ghost old_vars = f.vars@;
                f.vars.push((args[i].0.clone(), cell));
                params.push(cell_kind(args[i].1));
                proof {
                    assert(var_names(f.vars@) =~= var_names(old_vars).push(args@[i as int].0@));
                    assert(param_names(pv.subrange(0, i + 1)) =~= param_names(pv.subrange(0, i as int)).push(args@[i as int].0@));
                }
                i = i + 1;
            }
            assert(pv.subrange(0, pv.len() as int) =~= pv);
            let ghost pb = f;
            let ended = match codegen_body(body, &mut f, function_table) {
                Ok(e) => e,
                Err(e) => return Err(e),
            };
            let ghost fb = f;
            assert(f.current == body_end(0, 1, stmts_view(body@)));
            if !ended {
                match return_expr {
                    Some(e) => {
                        let (v, kind) = match codegen_expr(e, &mut f, function_table) {
                            Ok(x) => x,
                            Err(err) => return Err(err),
                        };
                        let v = to_int(&mut f, v, kind);
                        let ghost x = expr_code(sigs_view(function_table@), fb.vars@, fb.current, next_index(fb), expr_view(*e));
                        let ghost ii = int_code(fb.current, next_index(fb) + x.0.len(), x.1, x.2);
                        assert(cur_code(f) =~= cur_code(fb) + x.0 + ii.0);
                        f.terminate(Terminator::Return(v));
                    },
                    None => {
                        f.terminate(Terminator::Return(Value::Const(0)));
                    },
                }
            }
            let r = IrFunction { name: name.clone(), params, ret: Some(CellKind::Int), blocks: f.blocks };
            assert(fn_trace(pb, fb, r, sigs_view(function_table@), params_view(args@), stmts_view(body@), match return_expr {
                Some(e) => Some(expr_view(*e)),
                None => None,
            }));
            Ok(r)
        },
        _ => Err(codegen_error("not a function declaration")),
    }
}

/// The `if` and `while` statements in `s`, at any depth.
pub open spec fn cf_stmt(s: StmtV) -> nat
    decreases s,
{
    match s {
        StmtV::IfStatement { body, else_body, .. } => 1 + cf_list(body) + match else_body {
            Some(eb) => cf_list(eb),
            None => 0,
        },
        StmtV::While { body, .. } => 1 + cf_list(body),
        _ => 0,
    }
}

pub open spec fn cf_list(l: Seq<StmtV>) -> nat
    decreases l,
{
    if l.len() == 0 {
        0
    } else {
        cf_stmt(l[0]) + cf_list(l.drop_first())
    }
}

/// The `if` and `while` statements of a function body that are lowered.
pub open spec fn cf_body(l: Seq<StmtV>) -> nat
    decreases l.len(),
{
    if l.len() == 0 {
        0
    } else if ends_list(l[0]) {
        cf_stmt(l[0])
    } else {
        cf_stmt(l[0]) + cf_body(l.drop_first())
    }
}

/// The fresh blocks in `s` that hold what follows a nested `return` or
/// call of `exit`.
pub open spec fn dead_stmt(s: StmtV) -> nat
    decreases s,
{
    match s {
        StmtV::IfStatement { body, else_body, .. } => dead_list(body) + match else_body {
            Some(eb) => dead_list(eb),
            None => 0,
        },
        StmtV::While { body, .. } => dead_list(body),
        _ => 0,
    }
}

pub open spec fn dead_list(l: Seq<StmtV>) -> nat
    decreases l,
{
    if l.len() == 0 {
        0
    } else {
        dead_stmt(l[0]) + (if ends_list(l[0]) && l.len() > 1 {
            1nat
        } else {
            0nat
        }) + dead_list(l.drop_first())
    }
}

pub open spec fn dead_body(l: Seq<StmtV>) -> nat
    decreases l.len(),
{
    if l.len() == 0 {
        0
    } else if ends_list(l[0]) {
        dead_stmt(l[0])
    } else {
        dead_stmt(l[0]) + dead_body(l.drop_first())
    }
}

/// A statement opens three blocks for each `if` and each `while` in it, at
/// any depth, besides the fresh blocks after nested `return`s and `exit`s.
pub proof fn lemma_blocks_stmt(s: StmtV)
    ensures
        blocks_stmt(s) == 3 * cf_stmt(s) + dead_stmt(s),
    decreases s,
{
    match s {
        StmtV::IfStatement { body, else_body, .. } => {
            lemma_blocks_list(body);
            match else_body {
                Some(eb) => lemma_blocks_list(eb),
                None => {},
            }
        },
        StmtV::While { body, .. } => lemma_blocks_list(body),
        _ => {},
    }
}

pub proof fn lemma_blocks_list(l: Seq<StmtV>)
    ensures
        blocks_list(l) == 3 * cf_list(l) + dead_list(l),
    decreases l,
{
    if l.len() > 0 {
        lemma_blocks_stmt(l[0]);
        lemma_blocks_list(l.drop_first());
    }
}

proof fn lemma_blocks_body(l: Seq<StmtV>)
    ensures
        blocks_body(l) == 3 * cf_body(l) + dead_body(l),
    decreases l.len(),
{
    if l.len() > 0 {
        lemma_blocks_stmt(l[0]);
        if !ends_list(l[0]) {
            lemma_blocks_body(l.drop_first());
        }
    }
}

/// Three regions per `if` and per `while`: a lowered function has its entry
/// block, three blocks for each `if` and each `while` lowered, at any
/// depth, and one fresh block after each nested `return` or call of `exit`
/// that more statements follow.
pub proof fn lemma_three_regions(sigs: Seq<SigV>, f: StmtV, ir: IrFunction)
    requires
        f is Function,
        fn_lowered(sigs, f, ir),
    ensures
        ir.blocks@.len() == 1 + 3 * cf_body(f->Function_body) + dead_body(f->Function_body),
{
    lemma_blocks_body(f->Function_body);
}

/// The functions before index `k` come first among those before `m`.
proof fn lemma_fn_sigs_mono(s: Seq<StmtV>, k: int, m: int)
    requires
        0 <= k < m <= s.len(),
    ensures
        fn_sigs(s.subrange(0, k)).len() + (if s[k] is Function { 1int } else { 0int }) <= fn_sigs(
            s.subrange(0, m),
        ).len(),
    decreases m,
{
    assert(s.subrange(0, m).drop_last() =~= s.subrange(0, m - 1));
    if m > k + 1 {
        lemma_fn_sigs_mono(s, k, m - 1);
    }
}

/// Whether every function of the program can be lowered with its
/// signature table.
pub open spec fn program_ok(p: ProgramV) -> bool {
    forall|k: int| 0 <= k < p.functions.len() ==> fn_ok(signature_table(p), #[trigger] p.functions[k])
}

/// Lowers a whole program: first the signature table of all externs and
/// functions, so that a body may call a function declared after it, then
/// each function body. It succeeds exactly when every function can be
/// lowered with that table; the module then declares each extern and
/// defines each function.
pub fn lower_program(program: &Program) -> (r: Result<IrModule, CompileError>)
    ensures
        r is Ok <==> program_ok(program_view(*program)),
        r is Err ==> r->Err_0.kind == ErrorKind::Codegen,
        r is Ok ==> r->Ok_0.functions@.len() == program.externs@.len() + fn_sigs(program_view(*program).functions).len(),
        r is Ok ==> forall|i: int|
            0 <= i < program.externs@.len() ==> extern_lowered(
                #[trigger] program_view(*program).externs[i],
                r->Ok_0.functions@[i],
            ),
        r is Ok ==> forall|k: int|
            0 <= k < program.functions@.len() && (#[trigger] program_view(*program).functions[k]) is Function
                ==> fn_lowered(
                signature_table(program_view(*program)),
                program_view(*program).functions[k],
                r->Ok_0.functions@[(program.externs@.len() + fn_sigs(
                    program_view(*program).functions.subrange(0, k),
                ).len()) as int],
            ),
        program.functions@.len() == 0 ==> r is Ok,
{
    let ghost pv = program_view(*program);
    let table = build_signature_table(program);
    let mut functions: Vec<IrFunction> = Vec::new();
    let mut i: usize = 0;
    while i < program.externs.len()
        invariant
            i <= program.externs@.len(),
            functions@.len() == i,
            pv == program_view(*program),
            sigs_view(table@) == signature_table(pv),
            forall|j: int| 0 <= j < i ==> extern_lowered(#[trigger] pv.externs[j], functions@[j]),
        decreases program.externs@.len() - i,
    {
        let ext = &program.externs[i];
        let mut params: Vec<CellKind> = Vec::new();
        let mut j: usize = 0;
        while j < ext.args.len()
            invariant
                j <= ext.args@.len(),
                params@.len() == j,
                forall|m: int| 0 <= m < params@.len() ==> #[trigger] params@[m] == CellKind::Int,
            decreases ext.args@.len() - j,
        {
            params.push(cell_kind(ext.args[j].1));
            j = j + 1;
        }
        // Externs come first in the table, in the same order.
        assert(sigs_view(table@).len() == table@.len());
        assert(pv.externs.len() == program.externs@.len());
        assert(signature_table(pv).len() == pv.externs.len() + fn_sigs(pv.functions).len());
        let ret = table[i].ret_type;
        assert(sigs_view(table@)[i as int] == extern_sig(pv.externs[i as int]));
        assert(pv.externs[i as int] == extern_view(program.externs@[i as int]));
        functions.push(IrFunction { name: ext.name.clone(), params, ret, blocks: Vec::new() });
        i = i + 1;
    }
    let mut i: usize = 0;
    proof {
        lemma_stmts_view_index(program.functions@);
        assert(pv.functions.subrange(0, 0) =~= Seq::<StmtV>::empty());
    }
    while i < program.functions.len()
        invariant
            pv == program_view(*program),
            sigs_view(table@) == signature_table(pv),
            i <= program.functions@.len(),
            pv.functions.len() == program.functions@.len(),
            forall|k: int| 0 <= k < pv.functions.len() ==> #[trigger] pv.functions[k] == stmt_view(program.functions@[k]),
            forall|k: int| 0 <= k < i ==> fn_ok(signature_table(pv), #[trigger] pv.functions[k]),
            functions@.len() == program.externs@.len() + fn_sigs(pv.functions.subrange(0, i as int)).len(),
            forall|j: int| 0 <= j < program.externs@.len() ==> extern_lowered(#[trigger] pv.externs[j], functions@[j]),
            forall|k: int|
                0 <= k < i && (#[trigger] pv.functions[k]) is Function ==> fn_lowered(
                    signature_table(pv),
                    pv.functions[k],
                    functions@[(program.externs@.len() + fn_sigs(pv.functions.subrange(0, k)).len()) as int],
                ),
        decreases program.functions@.len() - i,
    {
        assert(pv.functions.subrange(0, i + 1).drop_last() =~= pv.functions.subrange(0, i as int));
        let func = &program.functions[i];
        let ghost before = functions@;
        if let Stmt::Function { .. } = func {
            match codegen_function(func, &table) {
                Ok(lowered) => functions.push(lowered),
                Err(e) => return Err(e),
            }
        }
        proof {
            let ext = program.externs@.len();
            assert forall|k: int|
                0 <= k < i + 1 && (#[trigger] pv.functions[k]) is Function implies fn_lowered(
                    signature_table(pv),
                    pv.functions[k],
                    functions@[(ext + fn_sigs(pv.functions.subrange(0, k)).len()) as int],
                ) by {
                if k < i {
                    lemma_fn_sigs_mono(pv.functions, k, i as int);
                    assert(functions@[(ext + fn_sigs(pv.functions.subrange(0, k)).len()) as int]
                        == before[(ext + fn_sigs(pv.functions.subrange(0, k)).len()) as int]);
                }
            }
            assert forall|j: int| 0 <= j < ext implies extern_lowered(#[trigger] pv.externs[j], functions@[j]) by {
                assert(functions@[j] == before[j]);
            }
        }
        i = i + 1;
    }
    assert(pv.functions.subrange(0, pv.functions.len() as int) =~= pv.functions);
    Ok(IrModule { functions })
}

/// A list whose last statement ends it is a list that ends: nothing after
/// a final call of `exit` is lowered, not even the implicit return.
pub proof fn lemma_last_ends_body(stmts: Seq<StmtV>)
    requires
        stmts.len() > 0,
        ends_list(stmts.last()),
    ensures
        body_ends(stmts),
    decreases stmts.len(),
{
    if !ends_list(stmts[0]) {
        assert(stmts.drop_first().last() == stmts.last());
        lemma_last_ends_body(stmts.drop_first());
    }
}

proof fn lemma_lookup_found(sigs: Seq<SigV>, k: int)
    requires
        0 <= k < sigs.len(),
    ensures
        lookup(sigs, sigs[k].name) is Some,
    decreases sigs.len(),
{
    if sigs.last().name != sigs[k].name {
        lemma_lookup_found(sigs.drop_last(), k);
    }
}

proof fn lemma_fn_sigs_holds(fns: Seq<StmtV>, k: int)
    requires
        0 <= k < fns.len(),
        fns[k] is Function,
    ensures
        exists|m: int| 0 <= m < fn_sigs(fns).len() && (#[trigger] fn_sigs(fns)[m]).name == fns[k]->Function_name
            && fn_sigs(fns)[m].arity == fns[k]->Function_args.len(),
    decreases fns.len(),
{
    let init = fn_sigs(fns.drop_last());
    if k == fns.len() - 1 {
        let m = init.len() as int;
        assert(fn_sigs(fns)[m].name == fns[k]->Function_name);
    } else {
        lemma_fn_sigs_holds(fns.drop_last(), k);
        let m = choose|m: int| 0 <= m < init.len() && (#[trigger] init[m]).name == fns.drop_last()[k]->Function_name
            && init[m].arity == fns.drop_last()[k]->Function_args.len();
        assert(fn_sigs(fns)[m] == init[m]);
    }
}

/// Forward references: whatever the order of declarations, a call of any
/// function of the program finds a signature of that name, so lowering a
/// body never fails because its callee is declared later.
pub proof fn lemma_forward_reference(p: ProgramV, k: int)
    requires
        0 <= k < p.functions.len(),
        p.functions[k] is Function,
    ensures
        lookup(signature_table(p), p.functions[k]->Function_name) is Some,
{
    let ext = p.externs.map_values(|e: ExternV| extern_sig(e));
    lemma_fn_sigs_holds(p.functions, k);
    let m = choose|m: int| 0 <= m < fn_sigs(p.functions).len() && (#[trigger] fn_sigs(p.functions)[m]).name
        == p.functions[k]->Function_name && fn_sigs(p.functions)[m].arity == p.functions[k]->Function_args.len();
    assert(signature_table(p)[ext.len() + m] == fn_sigs(p.functions)[m]);
    lemma_lookup_found(signature_table(p), ext.len() + m);
}

} // verus!
