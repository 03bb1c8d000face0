use vstd::prelude::*;
use crate::text::{nat_text, push_nat, push_str};

verus! {

broadcast use vstd::seq::group_seq_axioms, vstd::std_specs::vec::group_vec_axioms;

/// A 1-based line and column in the source text.
#[derive(Debug, Copy, Clone, PartialEq, Eq, Structural)]
pub struct Position {
    pub line: usize,
    pub column: usize,
}

impl Position {
    pub fn new(line: usize, column: usize) -> (r: Self)
        ensures
            r.line == line,
            r.column == column,
    {
        Position { line, column }
    }
}

#[derive(Clone, Copy, Debug, PartialEq, Eq, Structural)]
pub enum Keyword {
    Fn,
    Extern,
    Var,
    Return,
    Int,
    Bool,
    True,
    False,
    If,
    Else,
    While,
}

#[derive(Debug, Copy, Clone, PartialEq, Eq, Structural)]
pub enum Type {
    Int,
    Bool,
}

/// The reserved call targets; they are tokens of their own, so no
/// identifier can name or shadow them.
#[derive(Debug, Copy, Clone, PartialEq, Eq, Structural)]
pub enum Builtin {
    Print,
    Input,
}

#[derive(Debug, Clone, PartialEq)]
pub enum Token {
    Keyword(Keyword),
    Builtin(Builtin),
    LeftParen,
    RightParen,
    Colon,
    Comma,
    Equals,
    Plus,
    Minus,
    Asterisk,
    Slash,
    Equality,
    NotEqual,
    LessThan,
    LessThanOrEqual,
    GreaterThan,
    GreaterThanOrEqual,
    StringLiteral(String),
    NumberLiteral(i64),
    Identifier(String),
    EOF,
    LeftBrace,
    RightBrace,
    Semicolon,
}

/// Token equality as the parser sees it: text payloads compare by content.
pub open spec fn token_eq(a: Token, b: Token) -> bool {
    match (a, b) {
        (Token::StringLiteral(x), Token::StringLiteral(y)) => x@ == y@,
        (Token::Identifier(x), Token::Identifier(y)) => x@ == y@,
        (Token::StringLiteral(_), _) => false,
        (Token::Identifier(_), _) => false,
        (_, Token::StringLiteral(_)) => false,
        (_, Token::Identifier(_)) => false,
        _ => a == b,
    }
}

/// Two tokens are of the same kind when they are the same variant,
/// whatever their payloads.
pub open spec fn same_kind(a: Token, b: Token) -> bool {
    match (a, b) {
        (Token::Keyword(_), Token::Keyword(_)) => true,
        (Token::Builtin(_), Token::Builtin(_)) => true,
        (Token::StringLiteral(_), Token::StringLiteral(_)) => true,
        (Token::NumberLiteral(_), Token::NumberLiteral(_)) => true,
        (Token::Identifier(_), Token::Identifier(_)) => true,
        (Token::Keyword(_), _) => false,
        (Token::Builtin(_), _) => false,
        (Token::StringLiteral(_), _) => false,
        (Token::NumberLiteral(_), _) => false,
        (Token::Identifier(_), _) => false,
        (_, Token::Keyword(_)) => false,
        (_, Token::Builtin(_)) => false,
        (_, Token::StringLiteral(_)) => false,
        (_, Token::NumberLiteral(_)) => false,
        (_, Token::Identifier(_)) => false,
        _ => a == b,
    }
}

impl Token {
    /// A copy that is equal to the original.
    pub fn duplicate(&self) -> (r: Token)
        ensures
            r == *self,
    {
        match self {
            Token::Keyword(k) => Token::Keyword(*k),
            Token::Builtin(b) => Token::Builtin(*b),
            Token::LeftParen => Token::LeftParen,
            Token::RightParen => Token::RightParen,
            Token::Colon => Token::Colon,
            Token::Comma => Token::Comma,
            Token::Equals => Token::Equals,
            Token::Plus => Token::Plus,
            Token::Minus => Token::Minus,
            Token::Asterisk => Token::Asterisk,
            Token::Slash => Token::Slash,
            Token::Equality => Token::Equality,
            Token::NotEqual => Token::NotEqual,
            Token::LessThan => Token::LessThan,
            Token::LessThanOrEqual => Token::LessThanOrEqual,
            Token::GreaterThan => Token::GreaterThan,
            Token::GreaterThanOrEqual => Token::GreaterThanOrEqual,
            Token::StringLiteral(s) => Token::StringLiteral(s.clone()),
            Token::NumberLiteral(n) => Token::NumberLiteral(*n),
            Token::Identifier(s) => Token::Identifier(s.clone()),
            Token::EOF => Token::EOF,
            Token::LeftBrace => Token::LeftBrace,
            Token::RightBrace => Token::RightBrace,
            Token::Semicolon => Token::Semicolon,
        }
    }

    /// Equality with text payloads compared by content.
    pub fn equals(&self, other: &Token) -> (r: bool)
        ensures
            r == token_eq(*self, *other),
    {
        match (self, other) {
            (Token::StringLiteral(x), Token::StringLiteral(y)) => *x == *y,
            (Token::Identifier(x), Token::Identifier(y)) => *x == *y,
            (Token::Keyword(x), Token::Keyword(y)) => *x == *y,
            (Token::Builtin(x), Token::Builtin(y)) => *x == *y,
            (Token::NumberLiteral(x), Token::NumberLiteral(y)) => *x == *y,
            _ => self.same_kind(other),
        }
    }

    /// Whether the two tokens are the same variant.
    pub fn same_kind(&self, other: &Token) -> (r: bool)
        ensures
            r == same_kind(*self, *other),
    {
        match (self, other) {
            (Token::Keyword(_), Token::Keyword(_)) => true,
            (Token::Builtin(_), Token::Builtin(_)) => true,
            (Token::LeftParen, Token::LeftParen) => true,
            (Token::RightParen, Token::RightParen) => true,
            (Token::Colon, Token::Colon) => true,
            (Token::Comma, Token::Comma) => true,
            (Token::Equals, Token::Equals) => true,
            (Token::Plus, Token::Plus) => true,
            (Token::Minus, Token::Minus) => true,
            (Token::Asterisk, Token::Asterisk) => true,
            (Token::Slash, Token::Slash) => true,
            (Token::Equality, Token::Equality) => true,
            (Token::NotEqual, Token::NotEqual) => true,
            (Token::LessThan, Token::LessThan) => true,
            (Token::LessThanOrEqual, Token::LessThanOrEqual) => true,
            (Token::GreaterThan, Token::GreaterThan) => true,
            (Token::GreaterThanOrEqual, Token::GreaterThanOrEqual) => true,
            (Token::StringLiteral(_), Token::StringLiteral(_)) => true,
            (Token::NumberLiteral(_), Token::NumberLiteral(_)) => true,
            (Token::Identifier(_), Token::Identifier(_)) => true,
            (Token::EOF, Token::EOF) => true,
            (Token::LeftBrace, Token::LeftBrace) => true,
            (Token::RightBrace, Token::RightBrace) => true,
            (Token::Semicolon, Token::Semicolon) => true,
            _ => false,
        }
    }
}

/// A parsed program: function declarations and extern declarations, each in
/// source order.
#[derive(Debug)]
pub struct Program {
    pub functions: Vec<Stmt>,
    pub externs: Vec<ExternFunction>,
}

/// A foreign function; an empty `return_type` means it returns nothing.
#[derive(Debug, Clone)]
pub struct ExternFunction {
    pub name: String,
    pub args: Vec<(String, Type)>,
    pub return_type: String,
}

#[derive(Debug)]
pub enum Stmt {
    Function { name: String, args: Vec<(String, Type)>, body: Vec<Stmt>, return_expr: Option<Expr> },
    Return(Expr),
    ExternFunction(ExternFunction),
    VariableDecl { name: String, var_type: String, value: Expr },
    Assignment { name: String, value: Expr },
    IfStatement { condition: Expr, body: Vec<Stmt>, else_body: Option<Vec<Stmt>> },
    While { condition: Expr, body: Vec<Stmt> },
    ExprStmt(Expr),
}

#[derive(Debug)]
pub enum Expr {
    Call { callee: String, args: Vec<Expr> },
    Variable(String),
    StringLiteral(String),
    IntegerLiteral(i64),
    BooleanLiteral(bool),
    BinaryOperator { operator: String, left: Box<Expr>, right: Box<Expr> },
    BooleanComparison { lvalue: Box<Expr>, operator: Token, rvalue: Box<Expr> },
}

/// The mathematical value of an [`Expr`]: text as character sequences,
/// argument lists as sequences.
pub enum ExprV {
    Call { callee: Seq<char>, args: Seq<ExprV> },
    Variable(Seq<char>),
    StringLiteral(Seq<char>),
    IntegerLiteral(i64),
    BooleanLiteral(bool),
    BinaryOperator { operator: Seq<char>, left: Box<ExprV>, right: Box<ExprV> },
    BooleanComparison { lvalue: Box<ExprV>, operator: Token, rvalue: Box<ExprV> },
}

pub struct ExternV {
    pub name: Seq<char>,
    pub args: Seq<(Seq<char>, Type)>,
    pub return_type: Seq<char>,
}

/// The mathematical value of a [`Stmt`].
pub enum StmtV {
    Function { name: Seq<char>, args: Seq<(Seq<char>, Type)>, body: Seq<StmtV>, return_expr: Option<ExprV> },
    Return(ExprV),
    ExternFunction(ExternV),
    VariableDecl { name: Seq<char>, var_type: Seq<char>, value: ExprV },
    Assignment { name: Seq<char>, value: ExprV },
    IfStatement { condition: ExprV, body: Seq<StmtV>, else_body: Option<Seq<StmtV>> },
    While { condition: ExprV, body: Seq<StmtV> },
    ExprStmt(ExprV),
}

pub struct ProgramV {
    pub functions: Seq<StmtV>,
    pub externs: Seq<ExternV>,
}

pub open spec fn expr_view(e: Expr) -> ExprV
    decreases e,
{
    match e {
        Expr::Call { callee, args } => ExprV::Call { callee: callee@, args: exprs_view(args@) },
        Expr::Variable(n) => ExprV::Variable(n@),
        Expr::StringLiteral(s) => ExprV::StringLiteral(s@),
        Expr::IntegerLiteral(n) => ExprV::IntegerLiteral(n),
        Expr::BooleanLiteral(b) => ExprV::BooleanLiteral(b),
        Expr::BinaryOperator { operator, left, right } => ExprV::BinaryOperator {
            operator: operator@,
            left: Box::new(expr_view(*left)),
            right: Box::new(expr_view(*right)),
        },
        Expr::BooleanComparison { lvalue, operator, rvalue } => ExprV::BooleanComparison {
            lvalue: Box::new(expr_view(*lvalue)),
            operator,
            rvalue: Box::new(expr_view(*rvalue)),
        },
    }
}

pub open spec fn exprs_view(s: Seq<Expr>) -> Seq<ExprV>
    decreases s,
{
    if s.len() == 0 {
        Seq::empty()
    } else {
        exprs_view(s.drop_last()).push(expr_view(s.last()))
    }
}

pub open spec fn params_view(s: Seq<(String, Type)>) -> Seq<(Seq<char>, Type)> {
    s.map_values(|p: (String, Type)| (p.0@, p.1))
}

pub open spec fn extern_view(e: ExternFunction) -> ExternV {
    ExternV { name: e.name@, args: params_view(e.args@), return_type: e.return_type@ }
}

pub open spec fn externs_view(s: Seq<ExternFunction>) -> Seq<ExternV> {
    s.map_values(|e: ExternFunction| extern_view(e))
}

pub open spec fn stmt_view(s: Stmt) -> StmtV
    decreases s,
{
    match s {
        Stmt::Function { name, args, body, return_expr } => StmtV::Function {
            name: name@,
            args: params_view(args@),
            body: stmts_view(body@),
            return_expr: match return_expr {
                Some(e) => Some(expr_view(e)),
                None => None,
            },
        },
        Stmt::Return(e) => StmtV::Return(expr_view(e)),
        Stmt::ExternFunction(e) => StmtV::ExternFunction(extern_view(e)),
        Stmt::VariableDecl { name, var_type, value } => StmtV::VariableDecl {
            name: name@,
            var_type: var_type@,
            value: expr_view(value),
        },
        Stmt::Assignment { name, value } => StmtV::Assignment { name: name@, value: expr_view(value) },
        Stmt::IfStatement { condition, body, else_body } => StmtV::IfStatement {
            condition: expr_view(condition),
            body: stmts_view(body@),
            else_body: match else_body {
                Some(b) => Some(stmts_view(b@)),
                None => None,
            },
        },
        Stmt::While { condition, body } => StmtV::While {
            condition: expr_view(condition),
            body: stmts_view(body@),
        },
        Stmt::ExprStmt(e) => StmtV::ExprStmt(expr_view(e)),
    }
}

pub open spec fn stmts_view(s: Seq<Stmt>) -> Seq<StmtV>
    decreases s,
{
    if s.len() == 0 {
        Seq::empty()
    } else {
        stmts_view(s.drop_last()).push(stmt_view(s.last()))
    }
}

pub open spec fn program_view(p: Program) -> ProgramV {
    ProgramV { functions: stmts_view(p.functions@), externs: externs_view(p.externs@) }
}

pub proof fn lemma_exprs_view_push(s: Seq<Expr>, e: Expr)
    ensures
        exprs_view(s.push(e)) == exprs_view(s).push(expr_view(e)),
{
    assert(s.push(e).drop_last() =~= s);
}

pub proof fn lemma_exprs_view_index(s: Seq<Expr>)
    ensures
        exprs_view(s).len() == s.len(),
        forall|i: int| 0 <= i < s.len() ==> #[trigger] exprs_view(s)[i] == expr_view(s[i]),
    decreases s.len(),
{
    if s.len() > 0 {
        lemma_exprs_view_index(s.drop_last());
    }
}

pub proof fn lemma_stmts_view_index(s: Seq<Stmt>)
    ensures
        stmts_view(s).len() == s.len(),
        forall|i: int| 0 <= i < s.len() ==> #[trigger] stmts_view(s)[i] == stmt_view(s[i]),
    decreases s.len(),
{
    if s.len() > 0 {
        lemma_stmts_view_index(s.drop_last());
    }
}

pub proof fn lemma_stmts_view_push(s: Seq<Stmt>, e: Stmt)
    ensures
        stmts_view(s.push(e)) == stmts_view(s).push(stmt_view(e)),
{
    assert(s.push(e).drop_last() =~= s);
}

/// What stage of the compiler rejected the input.
#[derive(Debug, Copy, Clone, PartialEq, Eq, Structural)]
pub enum ErrorKind {
    /// A character that starts no token, or a malformed literal.
    Lex,
    /// A token the grammar does not allow where it stands.
    Parse,
    /// A program the parser accepted but the code generator cannot lower.
    Codegen,
}

#[derive(Debug)]
pub struct CompileError {
    pub kind: ErrorKind,
    pub message: String,
    pub position: Position,
}

impl CompileError {
    pub fn new(kind: ErrorKind, message: &str, position: Position) -> (r: Self)
        ensures
            r.kind == kind,
            r.message@ == message@,
            r.position == position,
    {
        CompileError { kind, message: String::from_str(message), position }
    }

    /// The error as shown to a user: `Error at LINE:COLUMN`, then the
    /// message on a line of its own.
    pub fn describe(&self) -> (r: String)
        ensures
            r@ == "Error at "@ + nat_text(self.position.line as nat) + ":"@ + nat_text(
                self.position.column as nat,
            ) + "\n"@ + self.message@,
    {
        let mut r = String::new();
        push_str(&mut r, "Error at ");
        push_nat(&mut r, self.position.line as u64);
        push_str(&mut r, ":");
        push_nat(&mut r, self.position.column as u64);
        push_str(&mut r, "\n");
        push_str(&mut r, self.message.as_str());
        assert(r@ =~= "Error at "@ + nat_text(self.position.line as nat) + ":"@ + nat_text(
            self.position.column as nat,
        ) + "\n"@ + self.message@);
        r
    }
}

} // verus!
