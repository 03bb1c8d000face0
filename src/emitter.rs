use vstd::prelude::*;
use crate::common::{
    expr_view, exprs_view, lemma_exprs_view_index, lemma_stmts_view_index, stmt_view, stmts_view,
    CompileError, ErrorKind, Expr, ExprV, Position, Stmt, StmtV, Token,
};
use crate::text::{int_text, nat_text, push_char, push_int, push_nat, push_str, str_eq};
use vstd::seq_lib::lemma_concat_associative;

verus! {

broadcast use vstd::seq::group_seq_axioms, vstd::std_specs::vec::group_vec_axioms;

/// The string literals of an expression, in order of occurrence.
pub open spec fn expr_strings(e: ExprV) -> Seq<Seq<char>>
    decreases e,
{
    match e {
        ExprV::Call { args, .. } => args_strings(args),
        ExprV::StringLiteral(s) => seq![s],
        ExprV::BinaryOperator { left, right, .. } => expr_strings(*left) + expr_strings(*right),
        ExprV::BooleanComparison { lvalue, rvalue, .. } => expr_strings(*lvalue) + expr_strings(
            *rvalue,
        ),
        _ => Seq::empty(),
    }
}

pub open spec fn args_strings(args: Seq<ExprV>) -> Seq<Seq<char>>
    decreases args,
{
    if args.len() == 0 {
        Seq::empty()
    } else {
        args_strings(args.drop_last()) + expr_strings(args.last())
    }
}

/// The string literals of a statement, nested statements included, in
/// order of occurrence.
pub open spec fn stmt_strings(s: StmtV) -> Seq<Seq<char>>
    decreases s,
{
    match s {
        StmtV::ExprStmt(e) => expr_strings(e),
        StmtV::Return(e) => expr_strings(e),
        StmtV::VariableDecl { value, .. } => expr_strings(value),
        StmtV::Assignment { value, .. } => expr_strings(value),
        StmtV::While { condition, body } => expr_strings(condition) + list_strings(body),
        StmtV::IfStatement { condition, body, else_body } => expr_strings(condition) + list_strings(
            body,
        ) + match else_body {
            Some(eb) => list_strings(eb),
            None => Seq::empty(),
        },
        _ => Seq::empty(),
    }
}

pub open spec fn list_strings(l: Seq<StmtV>) -> Seq<Seq<char>>
    decreases l,
{
    if l.len() == 0 {
        Seq::empty()
    } else {
        list_strings(l.drop_last()) + stmt_strings(l.last())
    }
}

/// The variables a statement declares, in order, those in nested
/// statements included.
pub open spec fn stmt_vars(s: StmtV) -> Seq<Seq<char>>
    decreases s,
{
    match s {
        StmtV::VariableDecl { name, .. } => seq![name],
        StmtV::IfStatement { body, else_body, .. } => list_vars(body) + match else_body {
            Some(eb) => list_vars(eb),
            None => Seq::empty(),
        },
        StmtV::While { body, .. } => list_vars(body),
        _ => Seq::empty(),
    }
}

pub open spec fn list_vars(l: Seq<StmtV>) -> Seq<Seq<char>>
    decreases l,
{
    if l.len() == 0 {
        Seq::empty()
    } else {
        list_vars(l.drop_last()) + stmt_vars(l.last())
    }
}

/// `acc` followed by each string of `occ` that it does not hold yet: one
/// entry per distinct content, in order of first occurrence.
pub open spec fn dedup_into(acc: Seq<Seq<char>>, occ: Seq<Seq<char>>) -> Seq<Seq<char>>
    decreases occ.len(),
{
    if occ.len() == 0 {
        acc
    } else {
        let d = dedup_into(acc, occ.drop_last());
        if d.contains(occ.last()) {
            d
        } else {
            d.push(occ.last())
        }
    }
}

pub proof fn lemma_dedup_into_concat(acc: Seq<Seq<char>>, a: Seq<Seq<char>>, b: Seq<Seq<char>>)
    ensures
        dedup_into(acc, a + b) == dedup_into(dedup_into(acc, a), b),
    decreases b.len(),
{
    if b.len() == 0 {
        assert(a + b =~= a);
    } else {
        assert((a + b).drop_last() =~= a + b.drop_last());
        lemma_dedup_into_concat(acc, a, b.drop_last());
    }
}

/// The index of the first entry equal to `s`.
pub open spec fn index_of(strs: Seq<Seq<char>>, s: Seq<char>) -> Option<int>
    decreases strs.len(),
{
    if strs.len() == 0 {
        None
    } else {
        match index_of(strs.drop_last(), s) {
            Some(k) => Some(k),
            None => if strs.last() == s {
                Some(strs.len() - 1)
            } else {
                None
            },
        }
    }
}

pub open spec fn string_label(k: nat) -> Seq<char> {
    "str_"@ + nat_text(k)
}

/// Escapes the double quotes of `s` with a backslash.
pub open spec fn escape(s: Seq<char>) -> Seq<char>
    decreases s.len(),
{
    if s.len() == 0 {
        Seq::empty()
    } else if s.last() == '"' {
        escape(s.drop_last()) + seq!['\\', '"']
    } else {
        escape(s.drop_last()).push(s.last())
    }
}

pub open spec fn arith_text(op: Seq<char>) -> Option<Seq<char>> {
    if op == "+"@ {
        Some("add rax, rbx\n"@)
    } else if op == "-"@ {
        Some("sub rbx, rax\nmov rax, rbx\n"@)
    } else if op == "*"@ {
        Some("imul rax, rbx\n"@)
    } else if op == "/"@ {
        Some("xchg rax, rbx\ncqo\nidiv rbx\n"@)
    } else {
        None
    }
}

pub open spec fn set_text(t: Token) -> Option<Seq<char>> {
    match t {
        Token::Equality => Some("sete al\n"@),
        Token::GreaterThan => Some("setg al\n"@),
        Token::LessThan => Some("setl al\n"@),
        Token::GreaterThanOrEqual => Some("setge al\n"@),
        Token::LessThanOrEqual => Some("setle al\n"@),
        Token::NotEqual => Some("setne al\n"@),
        _ => None,
    }
}

/// What a call emits after its arguments.
pub open spec fn call_text(callee: Seq<char>, args: Seq<ExprV>) -> Seq<char> {
    if callee == "print"@ {
        if args.len() == 0 {
            Seq::empty()
        } else {
            (if args[0] is StringLiteral {
                "mov rdi, fmt_str\n"@
            } else {
                "mov rdi, fmt_int\n"@
            }) + "mov rsi, rax\n"@ + "xor rax, rax\n"@ + "call printf\n"@
        }
    } else if callee == "input"@ {
        "call scanf\n"@
    } else {
        Seq::empty()
    }
}

/// The assembly of an expression, which leaves its value in `rax`; `None`
/// where a string was not collected or an operator is unknown.
pub open spec fn expr_text(strs: Seq<Seq<char>>, e: ExprV) -> Option<Seq<char>>
    decreases e,
{
    match e {
        ExprV::Call { callee, args } => match args_text(strs, args) {
            Some(t) => Some(t + call_text(callee, args)),
            None => None,
        },
        ExprV::StringLiteral(s) => match index_of(strs, s) {
            Some(k) => Some("mov rax, "@ + string_label(k as nat) + "\n"@),
            None => None,
        },
        ExprV::IntegerLiteral(n) => Some("mov rax, "@ + int_text(n as int) + "\n"@),
        ExprV::BooleanLiteral(b) => Some(
            if b {
                "mov rax, 1\n"@
            } else {
                "mov rax, 0\n"@
            },
        ),
        ExprV::BinaryOperator { operator, left, right } => match (
            expr_text(strs, *left),
            expr_text(strs, *right),
            arith_text(operator),
        ) {
            (Some(l), Some(r), Some(op)) => Some(l + "push rax\n"@ + r + "pop rbx\n"@ + op),
            _ => None,
        },
        ExprV::Variable(n) => Some("mov rax, ["@ + n + "]\n"@),
        ExprV::BooleanComparison { lvalue, operator, rvalue } => match (
            expr_text(strs, *lvalue),
            expr_text(strs, *rvalue),
            set_text(operator),
        ) {
            (Some(l), Some(r), Some(set)) => Some(
                l + "push rax\n"@ + r + "pop rbx\n"@ + "cmp rbx, rax\n"@ + set + "movzx rax, al\n"@,
            ),
            _ => None,
        },
    }
}

/// The arguments of a call, last one first.
pub open spec fn args_text(strs: Seq<Seq<char>>, args: Seq<ExprV>) -> Option<Seq<char>>
    decreases args,
{
    if args.len() == 0 {
        Some(Seq::empty())
    } else {
        match (expr_text(strs, args.last()), args_text(strs, args.drop_last())) {
            (Some(a), Some(rest)) => Some(a + rest),
            _ => None,
        }
    }
}

/// The assembly of a statement. Both labels of an `if` are numbered by
/// the count `nvars` of collected variables.
pub open spec fn stmt_text(strs: Seq<Seq<char>>, nvars: nat, s: StmtV) -> Option<Seq<char>>
    decreases s,
{
    match s {
        StmtV::VariableDecl { name, value, .. } => match expr_text(strs, value) {
            Some(t) => Some(t + "mov ["@ + name + "], rax\n"@),
            None => None,
        },
        StmtV::Assignment { name, value } => match expr_text(strs, value) {
            Some(t) => Some(t + "mov ["@ + name + "], rax\n"@),
            None => None,
        },
        StmtV::ExprStmt(e) => expr_text(strs, e),
        StmtV::IfStatement { condition, body, else_body } => {
            let n = nat_text(nvars);
            match (
                expr_text(strs, condition),
                list_text(strs, nvars, body),
                match else_body {
                    Some(eb) => list_text(strs, nvars, eb),
                    None => Some(Seq::empty()),
                },
            ) {
                (Some(c), Some(b), Some(e)) => Some(
                    c + "cmp rax, 0\n"@ + "je if_"@ + n + "\n"@ + b + "jmp end_"@ + n + "\n"@
                        + "if_"@ + n + ":\n"@ + e + "end_"@ + n + ":\n"@,
                ),
                _ => None,
            }
        },
        StmtV::While { .. } => None,
        StmtV::Return(_) => None,
        _ => Some(Seq::empty()),
    }
}

pub open spec fn list_text(strs: Seq<Seq<char>>, nvars: nat, l: Seq<StmtV>) -> Option<Seq<char>>
    decreases l,
{
    if l.len() == 0 {
        Some(Seq::empty())
    } else {
        match (list_text(strs, nvars, l.drop_last()), stmt_text(strs, nvars, l.last())) {
            (Some(a), Some(b)) => Some(a + b),
            _ => None,
        }
    }
}

pub open spec fn var_lines(vars: Seq<Seq<char>>) -> Seq<char>
    decreases vars.len(),
{
    if vars.len() == 0 {
        Seq::empty()
    } else {
        var_lines(vars.drop_last()) + vars.last() + ": dq 0\n"@
    }
}

pub open spec fn string_lines(strs: Seq<Seq<char>>) -> Seq<char>
    decreases strs.len(),
{
    if strs.len() == 0 {
        Seq::empty()
    } else {
        string_lines(strs.drop_last()) + string_label((strs.len() - 1) as nat) + ": db \""@
            + escape(strs.last()) + "\", 0\n"@
    }
}

/// The data section and the start of the text section.
pub open spec fn preamble(vars: Seq<Seq<char>>, strs: Seq<Seq<char>>) -> Seq<char> {
    "section .data\n"@ + var_lines(vars) + string_lines(strs) + "fmt_str: db \"%s\", 10, 0\n"@
        + "fmt_int: db \"%d\", 10, 0\n"@ + "\nsection .text\n"@ + "default rel\n"@
        + "global main\n"@ + "extern printf\n\n"@
}

pub open spec fn postamble() -> Seq<char> {
    "pop rbp\n"@ + "mov rax, 0\n"@ + "ret\n"@
}

/// Emits NASM assembly for a program of one function, `main`: each variable
/// is a zeroed cell in the data section, each distinct string literal a
/// constant of its own.
pub struct CodeGenerator {
    pub output: String,
    strings: Vec<String>,
    variables: Vec<String>,
}

pub open spec fn views(v: Seq<String>) -> Seq<Seq<char>> {
    v.map_values(|s: String| s@)
}

impl CodeGenerator {
    /// The assembly written so far.
    pub closed spec fn output_view(&self) -> Seq<char> {
        self.output@
    }

    /// The string constants collected, one per distinct content.
    pub closed spec fn strings_view(&self) -> Seq<Seq<char>> {
        views(self.strings@)
    }

    /// The variables collected, in order of declaration.
    pub closed spec fn variables_view(&self) -> Seq<Seq<char>> {
        views(self.variables@)
    }

    pub fn new() -> (r: Self)
        ensures
            r.output_view().len() == 0,
            r.strings_view().len() == 0,
            r.variables_view().len() == 0,
    {
        CodeGenerator { output: String::new(), strings: Vec::new(), variables: Vec::new() }
    }

    /// Collects the variables and strings of `ast`, then writes the data
    /// section, `main` with the statements of the function's body, and the
    /// return of 0. It fails where a string was not collected or an
    /// operator is unknown.
    pub fn generate(&mut self, ast: &Stmt) -> (r: Result<(), CompileError>)
        requires
            old(self).output_view().len() == 0,
            old(self).strings_view().len() == 0,
            old(self).variables_view().len() == 0,
        ensures
            match stmt_view(*ast) {
                StmtV::Function { body, .. } => {
                    let strs = dedup_into(Seq::empty(), list_strings(body));
                    let vars = list_vars(body);
                    &&& final(self).strings_view() == strs
                    &&& final(self).variables_view() == vars
                    &&& r is Ok <==> list_text(strs, vars.len(), body) is Some
                    &&& r is Ok ==> final(self).output_view() == preamble(vars, strs) + "main:\n"@
                        + "push rbp\n"@ + list_text(strs, vars.len(), body)->Some_0 + postamble()
                },
                _ => r is Ok && final(self).output_view() == preamble(Seq::empty(), Seq::empty()) + postamble(),
            },
            r is Err ==> r->Err_0.kind == ErrorKind::Codegen,
    {
        self.collect_strings(ast);
        push_str(&mut self.output, "section .data\n");
        assert(self.output@ =~= "section .data\n"@);
        self.write_variables();
        self.write_strings();
        push_str(&mut self.output, "fmt_str: db \"%s\", 10, 0\n");
        push_str(&mut self.output, "fmt_int: db \"%d\", 10, 0\n");
        push_str(&mut self.output, "\nsection .text\n");
        push_str(&mut self.output, "default rel\n");
        push_str(&mut self.output, "global main\n");
        push_str(&mut self.output, "extern printf\n\n");
        let ghost pre = self.output@;
        assert(pre == preamble(views(self.variables@), views(self.strings@)));
        if let Stmt::Function { body, .. } = ast {
            push_str(&mut self.output, "main:\n");
            push_str(&mut self.output, "push rbp\n");
            let ghost head = self.output@;
            let ghost sv = stmts_view(body@);
            proof {
                lemma_stmts_view_index(body@);
                assert(sv.subrange(0, 0) =~= Seq::<StmtV>::empty());
                assert(head + Seq::<char>::empty() =~= head);
            }
            let mut j: usize = 0;
            while j < body.len()
                invariant
                    sv == stmts_view(body@),
                    sv.len() == body@.len(),
                    forall|m: int| 0 <= m < sv.len() ==> #[trigger] sv[m] == stmt_view(body@[m]),
                    j <= body@.len(),
                    stmt_view(*ast) == (StmtV::Function {
                        name: (stmt_view(*ast))->Function_name,
                        args: (stmt_view(*ast))->Function_args,
                        body: sv,
                        return_expr: (stmt_view(*ast))->Function_return_expr,
                    }),
                    self.strings_view() == dedup_into(Seq::empty(), list_strings(sv)),
                    self.variables_view() == list_vars(sv),
                    pre == preamble(list_vars(sv), dedup_into(Seq::empty(), list_strings(sv))),
                    head == pre + "main:\n"@ + "push rbp\n"@,
                    list_text(self.strings_view(), self.variables_view().len(), sv.subrange(0, j as int)) is Some,
                    self.output@ == head + list_text(self.strings_view(), self.variables_view().len(), sv.subrange(0, j as int))->Some_0,
                decreases body@.len() - j,
            {
                let ghost before = self.output@;
                match self.generate_stmt(&body[j]) {
                    Ok(()) => {},
                    Err(e) => {
                        proof {
                            lemma_list_text_none(self.strings_view(), self.variables_view().len(), sv, j as int);
                        }
                        return Err(e);
                    },
                }
                proof {
                    assert(sv.subrange(0, j + 1).drop_last() =~= sv.subrange(0, j as int));
                    assert(self.output@ =~= head + list_text(self.strings_view(), self.variables_view().len(), sv.subrange(0, j + 1))->Some_0);
                }
                j = j + 1;
            }
            assert(sv.subrange(0, sv.len() as int) =~= sv);
            let ghost text = self.output@;
            push_str(&mut self.output, "pop rbp\n");
            push_str(&mut self.output, "mov rax, 0\n");
            push_str(&mut self.output, "ret\n");
            assert(self.output@ =~= text + postamble());
            return Ok(());
        }
        assert(self.strings_view() =~= Seq::empty());
        assert(self.variables_view() =~= Seq::empty());
        push_str(&mut self.output, "pop rbp\n");
        push_str(&mut self.output, "mov rax, 0\n");
        push_str(&mut self.output, "ret\n");
        assert(self.output@ =~= pre + postamble());
        Ok(())
    }

    fn write_variables(&mut self)
        ensures
            final(self).strings == old(self).strings,
            final(self).variables == old(self).variables,
            final(self).output@ == old(self).output@ + var_lines(views(old(self).variables@)),
    {
        let ghost vs = views(self.variables@);
        assert(vs.subrange(0, 0) =~= Seq::<Seq<char>>::empty());
        assert(old(self).output@ + Seq::<char>::empty() =~= old(self).output@);
        let mut i: usize = 0;
        while i < self.variables.len()
            invariant
                vs == views(self.variables@),
                self.strings == old(self).strings,
                self.variables == old(self).variables,
                i <= self.variables@.len(),
                self.output@ == old(self).output@ + var_lines(vs.subrange(0, i as int)),
            decreases self.variables@.len() - i,
        {
            push_str(&mut self.output, self.variables[i].as_str());
            push_str(&mut self.output, ": dq 0\n");
            proof {
                assert(vs.subrange(0, i + 1).drop_last() =~= vs.subrange(0, i as int));
                assert(self.output@ =~= old(self).output@ + var_lines(vs.subrange(0, i + 1)));
            }
            i = i + 1;
        }
        assert(vs.subrange(0, vs.len() as int) =~= vs);
    }

    fn write_strings(&mut self)
        ensures
            final(self).strings == old(self).strings,
            final(self).variables == old(self).variables,
            final(self).output@ == old(self).output@ + string_lines(views(old(self).strings@)),
    {
        let ghost ss = views(self.strings@);
        assert(ss.subrange(0, 0) =~= Seq::<Seq<char>>::empty());
        assert(old(self).output@ + Seq::<char>::empty() =~= old(self).output@);
        let mut k: usize = 0;
        while k < self.strings.len()
            invariant
                ss == views(self.strings@),
                self.strings == old(self).strings,
                self.variables == old(self).variables,
                k <= self.strings@.len(),
                self.output@ == old(self).output@ + string_lines(ss.subrange(0, k as int)),
            decreases self.strings@.len() - k,
        {
            push_str(&mut self.output, "str_");
            push_nat(&mut self.output, k as u64);
            push_str(&mut self.output, ": db \"");
            push_escaped(&mut self.output, self.strings[k].as_str());
            push_str(&mut self.output, "\", 0\n");
            proof {
                assert(ss.subrange(0, k + 1).drop_last() =~= ss.subrange(0, k as int));
                assert(self.output@ =~= old(self).output@ + string_lines(ss.subrange(0, k + 1)));
            }
            k = k + 1;
        }
        assert(ss.subrange(0, ss.len() as int) =~= ss);
    }

    fn collect_strings(&mut self, ast: &Stmt)
        requires
            old(self).strings_view().len() == 0,
            old(self).variables_view().len() == 0,
        ensures
            final(self).output == old(self).output,
            match stmt_view(*ast) {
                StmtV::Function { body, .. } => {
                    &&& final(self).strings_view() == dedup_into(Seq::empty(), list_strings(body))
                    &&& final(self).variables_view() == list_vars(body)
                },
                _ => final(self).strings_view().len() == 0 && final(self).variables_view().len() == 0,
            },
    {
        if let Stmt::Function { body, .. } = ast {
            assert(self.strings_view() =~= Seq::empty());
            assert(self.variables_view() =~= Seq::empty());
            self.visit_list(body);
            assert(Seq::<Seq<char>>::empty() + list_vars(stmts_view(body@)) =~= list_vars(stmts_view(body@)));
        }
    }

    fn visit_list(&mut self, body: &Vec<Stmt>)
        ensures
            final(self).output == old(self).output,
            final(self).strings_view() == dedup_into(old(self).strings_view(), list_strings(stmts_view(body@))),
            final(self).variables_view() == old(self).variables_view() + list_vars(stmts_view(body@)),
        decreases body,
    {
        let ghost sv = stmts_view(body@);
        let ghost s0 = self.strings_view();
        let ghost v0 = self.variables_view();
        proof {
            lemma_stmts_view_index(body@);
            assert(sv.subrange(0, 0) =~= Seq::<StmtV>::empty());
            assert(v0 + Seq::<Seq<char>>::empty() =~= v0);
        }
        let mut j: usize = 0;
        while j < body.len()
            invariant
                sv == stmts_view(body@),
                sv.len() == body@.len(),
                forall|m: int| 0 <= m < sv.len() ==> #[trigger] sv[m] == stmt_view(body@[m]),
                j <= body@.len(),
                self.output == old(self).output,
                s0 == old(self).strings_view(),
                v0 == old(self).variables_view(),
                self.strings_view() == dedup_into(s0, list_strings(sv.subrange(0, j as int))),
                self.variables_view() == v0 + list_vars(sv.subrange(0, j as int)),
            decreases body@.len() - j,
        {
            proof {
                assert(decreases_to!(body@ => body@[j as int]));
            }
            self.visit_stmt(&body[j]);
            proof {
                let p = sv.subrange(0, j + 1);
                assert(p.drop_last() =~= sv.subrange(0, j as int));
                lemma_dedup_into_concat(s0, list_strings(sv.subrange(0, j as int)), stmt_strings(sv[j as int]));
                assert(self.variables_view() =~= v0 + list_vars(p));
            }
            j = j + 1;
        }
        assert(sv.subrange(0, sv.len() as int) =~= sv);
    }

    fn visit_stmt(&mut self, stmt: &Stmt)
        ensures
            final(self).output == old(self).output,
            final(self).strings_view() == dedup_into(old(self).strings_view(), stmt_strings(stmt_view(*stmt))),
            final(self).variables_view() == old(self).variables_view() + stmt_vars(stmt_view(*stmt)),
        decreases stmt,
    {
        match stmt {
            Stmt::VariableDecl { name, value, .. } => {
                self.visit_expr(value);
                let ghost before = self.variables@;
                self.variables.push(name.clone());
                assert(views(self.variables@) =~= views(before) + seq![name@]);
            },
            Stmt::ExprStmt(expr) | Stmt::Return(expr) | Stmt::Assignment { value: expr, .. } => {
                self.visit_expr(expr);
                assert(self.variables_view() =~= old(self).variables_view() + Seq::empty());
            },
            Stmt::While { condition, body } => {
                let ghost s0 = self.strings_view();
                self.visit_expr(condition);
                self.visit_list(body);
                proof {
                    lemma_dedup_into_concat(s0, expr_strings(expr_view(*condition)), list_strings(stmts_view(body@)));
                }
            },
            Stmt::IfStatement { condition, body, else_body } => {
                let ghost s0 = self.strings_view();
                self.visit_expr(condition);
                let ghost s1 = self.strings_view();
                self.visit_list(body);
                let ghost s2 = self.strings_view();
                let ghost v2 = self.variables_view();
                proof {
                    lemma_dedup_into_concat(s0, expr_strings(expr_view(*condition)), list_strings(stmts_view(body@)));
                }
                match else_body {
                    Some(eb) => {
                        self.visit_list(eb);
                        proof {
                            lemma_dedup_into_concat(
                                s0,
                                expr_strings(expr_view(*condition)) + list_strings(stmts_view(body@)),
                                list_strings(stmts_view(eb@)),
                            );
                        }
                        assert(self.variables_view() =~= old(self).variables_view() + stmt_vars(stmt_view(*stmt)));
                    },
                    None => {
                        assert(expr_strings(expr_view(*condition)) + list_strings(stmts_view(body@)) + Seq::empty()
                            =~= expr_strings(expr_view(*condition)) + list_strings(stmts_view(body@)));
                        assert(self.variables_view() =~= old(self).variables_view() + stmt_vars(stmt_view(*stmt)));
                    },
                }
            },
            _ => {
                assert(self.variables_view() =~= old(self).variables_view() + Seq::empty());
            },
        }
    }

    fn visit_expr(&mut self, expr: &Expr)
        ensures
            final(self).output == old(self).output,
            final(self).variables == old(self).variables,
            final(self).strings_view() == dedup_into(old(self).strings_view(), expr_strings(expr_view(*expr))),
        decreases expr,
    {
        match expr {
            Expr::Call { args, .. } => {
                self.visit_args(args);
                assert(expr_strings(expr_view(*expr)) == args_strings(exprs_view(args@)));
            },
            Expr::StringLiteral(s) => {
                self.define_string(s.as_str());
                assert(seq![s@].drop_last() =~= Seq::<Seq<char>>::empty());
                assert(dedup_into(old(self).strings_view(), Seq::empty()) == old(self).strings_view());
            },
            Expr::BinaryOperator { left, right, .. } | Expr::BooleanComparison {
                lvalue: left,
                rvalue: right,
                ..
            } => {
                let ghost s0 = self.strings_view();
                self.visit_expr(left);
                self.visit_expr(right);
                proof {
                    lemma_dedup_into_concat(s0, expr_strings(expr_view(**left)), expr_strings(expr_view(**right)));
                }
            },
            _ => {
                assert(expr_strings(expr_view(*expr)) =~= Seq::empty());
                assert(dedup_into(old(self).strings_view(), Seq::empty()) == old(self).strings_view());
            },
        }
    }

    fn visit_args(&mut self, args: &Vec<Expr>)
        ensures
            final(self).output == old(self).output,
            final(self).variables == old(self).variables,
            final(self).strings_view() == dedup_into(old(self).strings_view(), args_strings(exprs_view(args@))),
        decreases args,
    {
        let ghost av = exprs_view(args@);
        let ghost s0 = self.strings_view();
        proof {
            lemma_exprs_view_index(args@);
            assert(av.subrange(0, 0) =~= Seq::<ExprV>::empty());
        }
        let mut j: usize = 0;
        while j < args.len()
            invariant
                av == exprs_view(args@),
                av.len() == args@.len(),
                forall|m: int| 0 <= m < av.len() ==> #[trigger] av[m] == expr_view(args@[m]),
                j <= args@.len(),
                self.output == old(self).output,
                self.variables == old(self).variables,
                s0 == old(self).strings_view(),
                self.strings_view() == dedup_into(s0, args_strings(av.subrange(0, j as int))),
            decreases args@.len() - j,
        {
            proof {
                assert(decreases_to!(args@ => args@[j as int]));
            }
            self.visit_expr(&args[j]);
            proof {
                assert(av.subrange(0, j + 1).drop_last() =~= av.subrange(0, j as int));
                lemma_dedup_into_concat(s0, args_strings(av.subrange(0, j as int)), expr_strings(av[j as int]));
            }
            j = j + 1;
        }
        assert(av.subrange(0, av.len() as int) =~= av);
    }

    /// Adds `s` to the string constants unless it is there already.
    fn define_string(&mut self, s: &str)
        ensures
            final(self).output == old(self).output,
            final(self).variables == old(self).variables,
            final(self).strings_view() == (if old(self).strings_view().contains(s@) {
                old(self).strings_view()
            } else {
                old(self).strings_view().push(s@)
            }),
    {
        match self.get_string_index(s) {
            Some(_) => {},
            None => {
                let ghost before = self.strings@;
                self.strings.push(String::from_str(s));
                assert(views(self.strings@) =~= views(before).push(s@));
            },
        }
    }

    /// The index of the constant that holds `s`.
    fn get_string_index(&self, s: &str) -> (r: Option<usize>)
        ensures
            r matches Some(k) ==> index_of(self.strings_view(), s@) == Some(k as int),
            r is None ==> index_of(self.strings_view(), s@) is None,
            r is Some <==> self.strings_view().contains(s@),
    {
        let ghost ss = self.strings_view();
        let mut k: usize = 0;
        while k < self.strings.len()
            invariant
                ss == self.strings_view(),
                k <= ss.len(),
                index_of(ss.subrange(0, k as int), s@) is None,
                forall|m: int| 0 <= m < k ==> ss[m] != s@,
            decreases ss.len() - k,
        {
            assert(ss.subrange(0, k + 1).drop_last() =~= ss.subrange(0, k as int));
            if str_eq(self.strings[k].as_str(), s) {
                proof {
                    lemma_index_of_prefix(ss, k as int + 1, s@);
                    assert(ss[k as int] == s@);
                }
                return Some(k);
            }
            k = k + 1;
        }
        assert(ss.subrange(0, ss.len() as int) =~= ss);
        None
    }

    /// Appends `t`, keeping the output equal to `base + acc` extended by it.
    fn put(&mut self, t: &str, Ghost(base): Ghost<Seq<char>>, Ghost(acc): Ghost<Seq<char>>)
        requires
            old(self).output@ == base + acc,
        ensures
            final(self).output@ == base + (acc + t@),
            final(self).strings == old(self).strings,
            final(self).variables == old(self).variables,
    {
        push_str(&mut self.output, t);
        assert(self.output@ =~= base + (acc + t@));
    }

    /// Appends the decimal digits of `n`, as `put` does.
    fn put_nat(&mut self, n: u64, Ghost(base): Ghost<Seq<char>>, Ghost(acc): Ghost<Seq<char>>)
        requires
            old(self).output@ == base + acc,
        ensures
            final(self).output@ == base + (acc + nat_text(n as nat)),
            final(self).strings == old(self).strings,
            final(self).variables == old(self).variables,
    {
        push_nat(&mut self.output, n);
        assert(self.output@ =~= base + (acc + nat_text(n as nat)));
    }

    fn generate_stmt(&mut self, stmt: &Stmt) -> (r: Result<(), CompileError>)
        ensures
            final(self).strings == old(self).strings,
            final(self).variables == old(self).variables,
            match stmt_text(old(self).strings_view(), old(self).variables_view().len(), stmt_view(*stmt)) {
                Some(t) => r is Ok && final(self).output@ == old(self).output@ + t,
                None => r is Err && r->Err_0.kind == ErrorKind::Codegen,
            },
        decreases stmt, 1int,
    {
        let ghost o = self.output@;
        let ghost strs = self.strings_view();
        match stmt {
            Stmt::VariableDecl { name, value, .. } | Stmt::Assignment { name, value } => {
                match self.generate_expr(value) {
                    Ok(()) => {},
                    Err(e) => return Err(e),
                }
                let ghost t = expr_text(strs, expr_view(*value))->Some_0;
                self.put("mov [", Ghost(o), Ghost(t));
                self.put(name.as_str(), Ghost(o), Ghost(t + "mov ["@));
                self.put("], rax\n", Ghost(o), Ghost(t + "mov ["@ + name@));
                Ok(())
            },
            Stmt::ExprStmt(expr) => self.generate_expr(expr),
            Stmt::IfStatement { .. } => self.generate_if(stmt),
            Stmt::While { .. } | Stmt::Return(_) => Err(
                CompileError::new(
                    ErrorKind::Codegen,
                    "loops and returns are not supported by the assembly backend",
                    Position::new(0, 0),
                ),
            ),
            _ => {
                assert(self.output@ =~= o + Seq::empty());
                Ok(())
            },
        }
    }

    /// An `if`: a jump over the then-branch where the condition is zero,
    /// and one over the else-branch at the end of the then-branch. Both
    /// labels are numbered by the variable count that the collection pass
    /// left.
    fn generate_if(&mut self, stmt: &Stmt) -> (r: Result<(), CompileError>)
        requires
            *stmt is IfStatement,
        ensures
            final(self).strings == old(self).strings,
            final(self).variables == old(self).variables,
            match stmt_text(old(self).strings_view(), old(self).variables_view().len(), stmt_view(*stmt)) {
                Some(t) => r is Ok && final(self).output@ == old(self).output@ + t,
                None => r is Err && r->Err_0.kind == ErrorKind::Codegen,
            },
        decreases stmt, 0int,
    {
        let ghost o = self.output@;
        let ghost strs = self.strings_view();
        let ghost nv = self.variables_view().len();
        match stmt {
            Stmt::IfStatement { condition, body, else_body } => {
                let n = self.variables.len() as u64;
                let ghost ns = nat_text(n as nat);
                match self.generate_expr(condition) {
                    Ok(()) => {},
                    Err(e) => return Err(e),
                }
                let ghost c = expr_text(strs, expr_view(*condition))->Some_0;
                self.put("cmp rax, 0\n", Ghost(o), Ghost(c));
                let ghost a1 = c + "cmp rax, 0\n"@;
                self.put("je if_", Ghost(o), Ghost(a1));
                let ghost a2 = a1 + "je if_"@;
                self.put_nat(n, Ghost(o), Ghost(a2));
                let ghost a3 = a2 + ns;
                self.put("\n", Ghost(o), Ghost(a3));
                let ghost a4 = a3 + "\n"@;
                match self.generate_list(body) {
                    Ok(()) => {},
                    Err(e) => {
                        proof {
                            assert(stmt_text(strs, nv, stmt_view(*stmt)) is None);
                        }
                        return Err(e);
                    },
                }
                let ghost b = list_text(strs, nv, stmts_view(body@))->Some_0;
                proof {
                    lemma_concat_associative(o, a4, b);
                }
                let ghost a5 = a4 + b;
                self.put("jmp end_", Ghost(o), Ghost(a5));
                let ghost a6 = a5 + "jmp end_"@;
                self.put_nat(n, Ghost(o), Ghost(a6));
                let ghost a7 = a6 + ns;
                self.put("\n", Ghost(o), Ghost(a7));
                let ghost a8 = a7 + "\n"@;
                self.put("if_", Ghost(o), Ghost(a8));
                let ghost a9 = a8 + "if_"@;
                self.put_nat(n, Ghost(o), Ghost(a9));
                let ghost a10 = a9 + ns;
                self.put(":\n", Ghost(o), Ghost(a10));
                let ghost a11 = a10 + ":\n"@;
                let ghost e: Seq<char>;
                match else_body {
                    Some(eb) => {
                        match self.generate_list(eb) {
                            Ok(()) => {},
                            Err(err) => return Err(err),
                        }
                        proof {
                            e = list_text(strs, nv, stmts_view(eb@))->Some_0;
                            lemma_concat_associative(o, a11, e);
                        }
                    },
                    None => {
                        proof {
                            e = Seq::empty();
                            assert(self.output@ =~= o + (a11 + e));
                        }
                    },
                }
                let ghost a12 = a11 + e;
                self.put("end_", Ghost(o), Ghost(a12));
                let ghost a13 = a12 + "end_"@;
                self.put_nat(n, Ghost(o), Ghost(a13));
                let ghost a14 = a13 + ns;
                self.put(":\n", Ghost(o), Ghost(a14));
                Ok(())
            },
            _ => {
                assert(self.output@ =~= o + Seq::empty());
                Ok(())
            },
        }
    }

    fn generate_list(&mut self, body: &Vec<Stmt>) -> (r: Result<(), CompileError>)
        ensures
            final(self).strings == old(self).strings,
            final(self).variables == old(self).variables,
            match list_text(old(self).strings_view(), old(self).variables_view().len(), stmts_view(body@)) {
                Some(t) => r is Ok && final(self).output@ == old(self).output@ + t,
                None => r is Err && r->Err_0.kind == ErrorKind::Codegen,
            },
        decreases body, 2int,
    {
        let ghost sv = stmts_view(body@);
        let ghost strs = self.strings_view();
        let ghost nv = self.variables_view().len();
        proof {
            lemma_stmts_view_index(body@);
            assert(sv.subrange(0, 0) =~= Seq::<StmtV>::empty());
            assert(old(self).output@ + Seq::<char>::empty() =~= old(self).output@);
        }
        let mut j: usize = 0;
        while j < body.len()
            invariant
                sv == stmts_view(body@),
                sv.len() == body@.len(),
                forall|m: int| 0 <= m < sv.len() ==> #[trigger] sv[m] == stmt_view(body@[m]),
                j <= body@.len(),
                self.strings == old(self).strings,
                self.variables == old(self).variables,
                strs == old(self).strings_view(),
                nv == old(self).variables_view().len(),
                list_text(strs, nv, sv.subrange(0, j as int)) is Some,
                self.output@ == old(self).output@ + list_text(strs, nv, sv.subrange(0, j as int))->Some_0,
            decreases body@.len() - j,
        {
            proof {
                assert(decreases_to!(body@ => body@[j as int]));
            }
            match self.generate_stmt(&body[j]) {
                Ok(()) => {},
                Err(e) => {
                    proof {
                        lemma_list_text_none(strs, nv, sv, j as int);
                    }
                    return Err(e);
                },
            }
            proof {
                assert(sv.subrange(0, j + 1).drop_last() =~= sv.subrange(0, j as int));
                assert(self.output@ =~= old(self).output@ + list_text(strs, nv, sv.subrange(0, j + 1))->Some_0);
            }
            j = j + 1;
        }
        assert(sv.subrange(0, sv.len() as int) =~= sv);
        Ok(())
    }

    /// The arguments of a call, last one first.
    fn generate_args(&mut self, args: &Vec<Expr>) -> (r: Result<(), CompileError>)
        ensures
            final(self).strings == old(self).strings,
            final(self).variables == old(self).variables,
            match args_text(old(self).strings_view(), exprs_view(args@)) {
                Some(t) => r is Ok && final(self).output@ == old(self).output@ + t,
                None => r is Err && r->Err_0.kind == ErrorKind::Codegen,
            },
        decreases args, 2int,
    {
        let ghost av = exprs_view(args@);
        let ghost strs = self.strings_view();
        proof {
            lemma_exprs_view_index(args@);
            assert(av.subrange(av.len() as int, av.len() as int) =~= Seq::<ExprV>::empty());
            assert(old(self).output@ + Seq::<char>::empty() =~= old(self).output@);
        }
        let mut j: usize = args.len();
        while j > 0
            invariant
                av == exprs_view(args@),
                av.len() == args@.len(),
                forall|m: int| 0 <= m < av.len() ==> #[trigger] av[m] == expr_view(args@[m]),
                j <= args@.len(),
                self.strings == old(self).strings,
                self.variables == old(self).variables,
                strs == old(self).strings_view(),
                rev_text(strs, av, j as int) is Some,
                self.output@ == old(self).output@ + rev_text(strs, av, j as int)->Some_0,
            decreases j,
        {
            proof {
                assert(decreases_to!(args@ => args@[j - 1]));
            }
            let ghost before = self.output@;
            match self.generate_expr(&args[j - 1]) {
                Ok(()) => {},
                Err(e) => {
                    proof {
                        lemma_rev_text_step(strs, av, j as int);
                        lemma_rev_text_none_all(strs, av, j as int - 1);
                    }
                    return Err(e);
                },
            }
            proof {
                lemma_rev_text_step(strs, av, j as int);
                assert(self.output@ =~= old(self).output@ + rev_text(strs, av, j - 1)->Some_0);
            }
            j = j - 1;
        }
        proof {
            lemma_rev_text_full(strs, av);
        }
        Ok(())
    }


    fn generate_expr(&mut self, expr: &Expr) -> (r: Result<(), CompileError>)
        ensures
            final(self).strings == old(self).strings,
            final(self).variables == old(self).variables,
            match expr_text(old(self).strings_view(), expr_view(*expr)) {
                Some(t) => r is Ok && final(self).output@ == old(self).output@ + t,
                None => r is Err && r->Err_0.kind == ErrorKind::Codegen,
            },
        decreases expr, 1int,
    {
        let ghost o = self.output@;
        let ghost strs = self.strings_view();
        assert(o =~= o + Seq::empty());
        match expr {
            Expr::Call { callee, args } => {
                match self.generate_args(args) {
                    Ok(()) => {},
                    Err(e) => return Err(e),
                }
                let ghost a = args_text(strs, exprs_view(args@))->Some_0;
                if str_eq(callee.as_str(), "print") {
                    if args.len() > 0 {
                        proof {
                            lemma_exprs_view_index(args@);
                        }
                        let fmt = match &args[0] {
                            Expr::StringLiteral(_) => "mov rdi, fmt_str\n",
                            _ => "mov rdi, fmt_int\n",
                        };
                        self.put(fmt, Ghost(o), Ghost(a));
                        self.put("mov rsi, rax\n", Ghost(o), Ghost(a + fmt@));
                        self.put("xor rax, rax\n", Ghost(o), Ghost(a + fmt@ + "mov rsi, rax\n"@));
                        self.put(
                            "call printf\n",
                            Ghost(o),
                            Ghost(a + fmt@ + "mov rsi, rax\n"@ + "xor rax, rax\n"@),
                        );
                        assert(self.output@ =~= o + (a + call_text(callee@, exprs_view(args@))));
                    } else {
                        assert(self.output@ =~= o + (a + call_text(callee@, exprs_view(args@))));
                    }
                } else if str_eq(callee.as_str(), "input") {
                    self.put("call scanf\n", Ghost(o), Ghost(a));
                } else {
                    assert(self.output@ =~= o + (a + call_text(callee@, exprs_view(args@))));
                }
                Ok(())
            },
            Expr::StringLiteral(s) => {
                match self.get_string_index(s.as_str()) {
                    Some(k) => {
                        self.put("mov rax, ", Ghost(o), Ghost(Seq::empty()));
                        self.put("str_", Ghost(o), Ghost(Seq::empty() + "mov rax, "@));
                        self.put_nat(k as u64, Ghost(o), Ghost(Seq::empty() + "mov rax, "@ + "str_"@));
                        self.put(
                            "\n",
                            Ghost(o),
                            Ghost(Seq::empty() + "mov rax, "@ + "str_"@ + nat_text(k as nat)),
                        );
                        assert(self.output@ =~= o + expr_text(strs, expr_view(*expr))->Some_0);
                        Ok(())
                    },
                    None => Err(
                        CompileError::new(
                            ErrorKind::Codegen,
                            "string literal was not collected",
                            Position::new(0, 0),
                        ),
                    ),
                }
            },
            Expr::IntegerLiteral(n) => {
                push_str(&mut self.output, "mov rax, ");
                push_int(&mut self.output, *n);
                push_str(&mut self.output, "\n");
                assert(self.output@ =~= o + expr_text(strs, expr_view(*expr))->Some_0);
                Ok(())
            },
            Expr::BooleanLiteral(b) => {
                if *b {
                    push_str(&mut self.output, "mov rax, 1\n");
                } else {
                    push_str(&mut self.output, "mov rax, 0\n");
                }
                Ok(())
            },
            Expr::BinaryOperator { .. } | Expr::BooleanComparison { .. } => self.generate_operator(expr),
            Expr::Variable(name) => {
                push_str(&mut self.output, "mov rax, [");
                push_str(&mut self.output, name.as_str());
                push_str(&mut self.output, "]\n");
                assert(self.output@ =~= o + expr_text(strs, expr_view(*expr))->Some_0);
                Ok(())
            },
        }
    }

    /// An arithmetic or comparison operator: the left operand is saved on
    /// the stack while the right one is computed, then restored into `rbx`.
    fn generate_operator(&mut self, expr: &Expr) -> (r: Result<(), CompileError>)
        requires
            *expr is BinaryOperator || *expr is BooleanComparison,
        ensures
            final(self).strings == old(self).strings,
            final(self).variables == old(self).variables,
            match expr_text(old(self).strings_view(), expr_view(*expr)) {
                Some(t) => r is Ok && final(self).output@ == old(self).output@ + t,
                None => r is Err && r->Err_0.kind == ErrorKind::Codegen,
            },
        decreases expr, 0int,
    {
        let ghost o = self.output@;
        let ghost strs = self.strings_view();
        let (left, right, tail) = match expr {
            Expr::BinaryOperator { operator, left, right } => {
                let op = if str_eq(operator.as_str(), "+") {
                    "add rax, rbx\n"
                } else if str_eq(operator.as_str(), "-") {
                    "sub rbx, rax\nmov rax, rbx\n"
                } else if str_eq(operator.as_str(), "*") {
                    "imul rax, rbx\n"
                } else if str_eq(operator.as_str(), "/") {
                    "xchg rax, rbx\ncqo\nidiv rbx\n"
                } else {
                    return Err(
                        CompileError::new(
                            ErrorKind::Codegen,
                            "unsupported operator",
                            Position::new(0, 0),
                        ),
                    );
                };
                (left, right, op)
            },
            Expr::BooleanComparison { lvalue, operator, rvalue } => {
                let set = match operator {
                    Token::Equality => "sete al\n",
                    Token::GreaterThan => "setg al\n",
                    Token::LessThan => "setl al\n",
                    Token::GreaterThanOrEqual => "setge al\n",
                    Token::LessThanOrEqual => "setle al\n",
                    Token::NotEqual => "setne al\n",
                    _ => {
                        return Err(
                            CompileError::new(
                                ErrorKind::Codegen,
                                "unsupported comparison operator",
                                Position::new(0, 0),
                            ),
                        );
                    },
                };
                (lvalue, rvalue, set)
            },
            _ => {
                return Err(
                    CompileError::new(ErrorKind::Codegen, "not an operator", Position::new(0, 0)),
                );
            },
        };
        match self.generate_expr(left) {
            Ok(()) => {},
            Err(e) => return Err(e),
        }
        let ghost l = expr_text(strs, expr_view(**left))->Some_0;
        self.put("push rax\n", Ghost(o), Ghost(l));
        let ghost a1 = l + "push rax\n"@;
        match self.generate_expr(right) {
            Ok(()) => {},
            Err(e) => return Err(e),
        }
        let ghost r = expr_text(strs, expr_view(**right))->Some_0;
        proof {
            lemma_concat_associative(o, a1, r);
        }
        let ghost a2 = a1 + r;
        self.put("pop rbx\n", Ghost(o), Ghost(a2));
        let ghost a3 = a2 + "pop rbx\n"@;
        if matches!(expr, Expr::BinaryOperator { .. }) {
            self.put(tail, Ghost(o), Ghost(a3));
        } else {
            self.put("cmp rbx, rax\n", Ghost(o), Ghost(a3));
            self.put(tail, Ghost(o), Ghost(a3 + "cmp rbx, rax\n"@));
            self.put("movzx rax, al\n", Ghost(o), Ghost(a3 + "cmp rbx, rax\n"@ + tail@));
        }
        Ok(())
    }
}

/// The text of arguments `j..` of a call, last one first.
pub open spec fn rev_text(strs: Seq<Seq<char>>, args: Seq<ExprV>, j: int) -> Option<Seq<char>> {
    args_text(strs, args.subrange(j, args.len() as int))
}

proof fn lemma_rev_text_full(strs: Seq<Seq<char>>, args: Seq<ExprV>)
    ensures
        rev_text(strs, args, 0) == args_text(strs, args),
{
    assert(args.subrange(0, args.len() as int) =~= args);
}

/// Prepending an argument appends its text: arguments are emitted last
/// one first.
proof fn lemma_args_text_cons(strs: Seq<Seq<char>>, x: ExprV, t: Seq<ExprV>)
    ensures
        args_text(strs, seq![x] + t) == match (args_text(strs, t), expr_text(strs, x)) {
            (Some(a), Some(b)) => Some(a + b),
            _ => None::<Seq<char>>,
        },
    decreases t.len(),
{
    let s = seq![x] + t;
    if t.len() == 0 {
        assert(s.drop_last() =~= Seq::<ExprV>::empty());
        assert(s.last() == x);
        match expr_text(strs, x) {
            Some(b) => {
                assert(b + Seq::<char>::empty() =~= Seq::<char>::empty() + b);
            },
            None => {},
        }
    } else {
        assert(s.drop_last() =~= seq![x] + t.drop_last());
        assert(s.last() == t.last());
        lemma_args_text_cons(strs, x, t.drop_last());
        match (args_text(strs, t.drop_last()), expr_text(strs, x), expr_text(strs, t.last())) {
            (Some(a), Some(b), Some(c)) => {
                assert(c + (a + b) =~= (c + a) + b);
            },
            _ => {},
        }
    }
}

proof fn lemma_rev_text_step(strs: Seq<Seq<char>>, args: Seq<ExprV>, j: int)
    requires
        0 < j <= args.len(),
    ensures
        rev_text(strs, args, j - 1) == match (rev_text(strs, args, j), expr_text(strs, args[j - 1])) {
            (Some(a), Some(b)) => Some(a + b),
            _ => None::<Seq<char>>,
        },
{
    assert(args.subrange(j - 1, args.len() as int) =~= seq![args[j - 1]] + args.subrange(j, args.len() as int));
    lemma_args_text_cons(strs, args[j - 1], args.subrange(j, args.len() as int));
}

/// Arguments whose text fails make the whole list fail.
proof fn lemma_rev_text_none_all(strs: Seq<Seq<char>>, args: Seq<ExprV>, j: int)
    requires
        0 <= j <= args.len(),
        rev_text(strs, args, j) is None,
    ensures
        args_text(strs, args) is None,
    decreases j,
{
    if j == 0 {
        lemma_rev_text_full(strs, args);
    } else {
        lemma_rev_text_step(strs, args, j);
        lemma_rev_text_none_all(strs, args, j - 1);
    }
}

proof fn lemma_list_text_none(strs: Seq<Seq<char>>, nv: nat, l: Seq<StmtV>, j: int)
    requires
        0 <= j < l.len(),
        stmt_text(strs, nv, l[j]) is None,
    ensures
        list_text(strs, nv, l) is None,
    decreases l.len(),
{
    if j < l.len() - 1 {
        lemma_list_text_none(strs, nv, l.drop_last(), j);
    }
}

proof fn lemma_index_of_prefix(ss: Seq<Seq<char>>, n: int, s: Seq<char>)
    requires
        0 < n <= ss.len(),
        ss[n - 1] == s,
        index_of(ss.subrange(0, n - 1), s) is None,
    ensures
        index_of(ss, s) == Some(n - 1),
    decreases ss.len(),
{
    if n == ss.len() {
        assert(ss.drop_last() =~= ss.subrange(0, n - 1));
    } else {
        assert(ss.drop_last().subrange(0, n - 1) =~= ss.subrange(0, n - 1));
        lemma_index_of_prefix(ss.drop_last(), n, s);
    }
}

/// Appends `s` with each double quote escaped by a backslash.
fn push_escaped(out: &mut String, s: &str)
    ensures
        final(out)@ == old(out)@ + escape(s@),
{
    let n = s.unicode_len();
    let mut k: usize = 0;
    assert(s@.subrange(0, 0) =~= Seq::<char>::empty());
    assert(old(out)@ + Seq::<char>::empty() =~= old(out)@);
    while k < n
        invariant
            n == s@.len(),
            k <= n,
            out@ == old(out)@ + escape(s@.subrange(0, k as int)),
        decreases n - k,
    {
        let c = s.get_char(k);
        assert(s@.subrange(0, k + 1).drop_last() =~= s@.subrange(0, k as int));
        if c == '"' {
            push_char(out, '\\');
            push_char(out, '"');
        } else {
            push_char(out, c);
        }
        assert(out@ =~= old(out)@ + escape(s@.subrange(0, k + 1)));
        k = k + 1;
    }
    assert(s@.subrange(0, n as int) =~= s@);
}

} // verus!
