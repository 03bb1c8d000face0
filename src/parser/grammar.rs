use vstd::prelude::*;
use crate::common::{
    same_kind, token_eq, Builtin, ExprV, ExternV, Keyword, Position, ProgramV, StmtV, Token, Type,
};

verus! {

/// The token stream the parser reads: each token with where it starts.
pub type Toks = Seq<(Token, Position)>;

/// A parse of one construct starting at some index: what it yields and the
/// index just past it, or the position of the token where it fails.
pub type Parsed<T> = Result<(T, int), Position>;

/// The token at index `i`; past the end the stream reads as `EOF`.
pub open spec fn tok(t: Toks, i: int) -> Token {
    if 0 <= i < t.len() {
        t[i].0
    } else {
        Token::EOF
    }
}

/// The position of the token at index `i`; past the end it is 0:0.
pub open spec fn tpos(t: Toks, i: int) -> Position {
    if 0 <= i < t.len() {
        t[i].1
    } else {
        Position { line: 0, column: 0 }
    }
}

/// The delimiters at which an expression ends.
pub open spec fn std_stops() -> Seq<Token> {
    seq![
        Token::LeftBrace,
        Token::RightBrace,
        Token::Semicolon,
        Token::Comma,
        Token::RightParen,
        Token::EOF,
    ]
}

pub open spec fn in_stops(stops: Seq<Token>, x: Token) -> bool {
    exists|k: int| 0 <= k < stops.len() && token_eq(#[trigger] stops[k], x)
}

pub open spec fn is_delimiter(x: Token) -> bool {
    x is LeftBrace || x is RightBrace || x is Semicolon || x is Comma || x is RightParen || x is EOF
}

pub open spec fn is_arith(x: Token) -> bool {
    x is Plus || x is Minus || x is Asterisk || x is Slash
}

pub open spec fn is_comparison(x: Token) -> bool {
    x is Equality || x is GreaterThan || x is LessThan || x is GreaterThanOrEqual
        || x is LessThanOrEqual || x is NotEqual
}

pub open spec fn arith_symbol(x: Token) -> Seq<char> {
    if x is Plus {
        "+"@
    } else if x is Minus {
        "-"@
    } else if x is Asterisk {
        "*"@
    } else {
        "/"@
    }
}

pub open spec fn builtin_name(b: Builtin) -> Seq<char> {
    match b {
        Builtin::Print => "print"@,
        Builtin::Input => "input"@,
    }
}

pub open spec fn kw_type(k: Keyword) -> Option<Type> {
    match k {
        Keyword::Int => Some(Type::Int),
        Keyword::Bool => Some(Type::Bool),
        _ => None,
    }
}

/// Index `j`, or the one after it where a token of kind `x` stands there.
pub open spec fn skip_one(t: Toks, j: int, x: Token) -> int {
    if same_kind(tok(t, j), x) {
        j + 1
    } else {
        j
    }
}

/// An expression: one primary (a call among them) and the operators that
/// follow it.
pub open spec fn expr(t: Toks, stops: Seq<Token>, i: int) -> Parsed<ExprV>
    decreases t.len() - i, 1int,
{
    match tok(t, i) {
        Token::Builtin(b) => after_call(t, stops, i, call(t, i + 1, builtin_name(b))),
        Token::Keyword(Keyword::True) => ops(t, stops, i + 1, ExprV::BooleanLiteral(true)),
        Token::Keyword(Keyword::False) => ops(t, stops, i + 1, ExprV::BooleanLiteral(false)),
        Token::Identifier(n) => if tok(t, i + 1) is LeftParen {
            after_call(t, stops, i, call(t, i + 1, n@))
        } else {
            ops(t, stops, i + 1, ExprV::Variable(n@))
        },
        Token::NumberLiteral(v) => ops(t, stops, i + 1, ExprV::IntegerLiteral(v)),
        Token::StringLiteral(s) => ops(t, stops, i + 1, ExprV::StringLiteral(s@)),
        _ => Err(tpos(t, i)),
    }
}

/// The operators after a call that started at index `i`.
pub open spec fn after_call(t: Toks, stops: Seq<Token>, i: int, c: Parsed<ExprV>) -> Parsed<ExprV>
    decreases t.len() - i, 0int,
{
    match c {
        Ok((e, j)) => if i < j <= t.len() {
            ops(t, stops, j, e)
        } else {
            Err(tpos(t, j))
        },
        Err(p) => Err(p),
    }
}

/// The node that operator `x` makes of its two operands.
pub open spec fn operator_node(x: Token, left: ExprV, right: ExprV) -> ExprV {
    if is_arith(x) {
        ExprV::BinaryOperator { operator: arith_symbol(x), left: Box::new(left), right: Box::new(right) }
    } else {
        ExprV::BooleanComparison { lvalue: Box::new(left), operator: x, rvalue: Box::new(right) }
    }
}

/// The operators after an operand `left`: each takes `left` as its left
/// operand and a whole expression as its right one, with no precedence.
pub open spec fn ops(t: Toks, stops: Seq<Token>, i: int, left: ExprV) -> Parsed<ExprV>
    decreases t.len() - i, 0int,
{
    let x = tok(t, i);
    if is_delimiter(x) {
        Ok((left, i))
    } else if is_arith(x) || is_comparison(x) {
        if in_stops(stops, tok(t, i + 1)) {
            Err(tpos(t, i + 1))
        } else {
            match expr(t, stops, i + 1) {
                Err(p) => Err(p),
                Ok((r, j)) => if i < j <= t.len() {
                    ops(t, stops, j, operator_node(x, left, r))
                } else {
                    Err(tpos(t, j))
                },
            }
        }
    } else {
        Ok((left, i))
    }
}

/// A call's parenthesised argument list, after its callee.
pub open spec fn call(t: Toks, i: int, callee: Seq<char>) -> Parsed<ExprV>
    decreases t.len() - i, 3int,
{
    if tok(t, i) is LeftParen {
        match call_args(t, i + 1, seq![]) {
            Ok((a, j)) => Ok((ExprV::Call { callee, args: a }, j)),
            Err(p) => Err(p),
        }
    } else {
        Err(tpos(t, i))
    }
}

/// The arguments after `acc`, up to and including the closing parenthesis;
/// each may be followed by a comma.
pub open spec fn call_args(t: Toks, i: int, acc: Seq<ExprV>) -> Parsed<Seq<ExprV>>
    decreases t.len() - i, 2int,
{
    if tok(t, i) is RightParen {
        Ok((acc, i + 1))
    } else {
        match expr(t, std_stops(), i) {
            Err(p) => Err(p),
            Ok((e, j)) => {
                let k = skip_one(t, j, Token::Comma);
                if i < k <= t.len() {
                    call_args(t, k, acc.push(e))
                } else {
                    Err(tpos(t, k))
                }
            },
        }
    }
}

/// A brace-delimited block.
pub open spec fn block(t: Toks, i: int) -> Parsed<Seq<StmtV>>
    decreases t.len() - i, 1int,
{
    if tok(t, i) is LeftBrace {
        stmts(t, i + 1, seq![])
    } else {
        Err(tpos(t, i))
    }
}

/// The statements of a block after `acc`, up to and including its closing
/// brace; each may be followed by one semicolon.
pub open spec fn stmts(t: Toks, i: int, acc: Seq<StmtV>) -> Parsed<Seq<StmtV>>
    decreases t.len() - i, 5int,
{
    match tok(t, i) {
        Token::RightBrace => Ok((acc, i + 1)),
        Token::EOF => Err(tpos(t, i)),
        _ => match stmt(t, i) {
            Err(p) => Err(p),
            Ok((s, j)) => {
                let k = skip_one(t, j, Token::Semicolon);
                if i < k <= t.len() {
                    stmts(t, k, acc.push(s))
                } else {
                    Err(tpos(t, k))
                }
            },
        },
    }
}

/// One statement. A nested block is read and dropped: it stands as the
/// expression statement `true`.
pub open spec fn stmt(t: Toks, i: int) -> Parsed<StmtV>
    decreases t.len() - i, 4int,
{
    match tok(t, i) {
        Token::Keyword(Keyword::Var) => var_decl(t, i),
        Token::Keyword(Keyword::If) => if_stmt(t, i),
        Token::Keyword(Keyword::While) => while_stmt(t, i),
        Token::LeftBrace => match block(t, i) {
            Ok((_, j)) => Ok((StmtV::ExprStmt(ExprV::BooleanLiteral(true)), j)),
            Err(p) => Err(p),
        },
        Token::RightBrace => Err(tpos(t, i)),
        Token::EOF => Err(tpos(t, i)),
        Token::Keyword(Keyword::Return) => match expr(t, std_stops(), i + 1) {
            Ok((e, j)) => Ok((StmtV::Return(e), skip_one(t, j, Token::Semicolon))),
            Err(p) => Err(p),
        },
        _ => if tok(t, i + 1) is Equals {
            assignment(t, i)
        } else {
            match expr(t, std_stops(), i) {
                Ok((e, j)) => Ok((StmtV::ExprStmt(e), j)),
                Err(p) => Err(p),
            }
        },
    }
}

/// `var name: type = expr`, with `int` or `bool` as the type.
pub open spec fn var_decl(t: Toks, i: int) -> Parsed<StmtV>
    decreases t.len() - i, 1int,
{
    if !(tok(t, i) == Token::Keyword(Keyword::Var)) {
        Err(tpos(t, i))
    } else {
        match tok(t, i + 1) {
            Token::Identifier(n) => if !(tok(t, i + 2) is Colon) {
                Err(tpos(t, i + 2))
            } else {
                let ty: Option<Seq<char>> = match tok(t, i + 3) {
                    Token::Keyword(Keyword::Int) => Some("int"@),
                    Token::Keyword(Keyword::Bool) => Some("bool"@),
                    _ => None,
                };
                match ty {
                    None => Err(tpos(t, i + 3)),
                    Some(ty) => if !(tok(t, i + 4) is Equals) {
                        Err(tpos(t, i + 4))
                    } else {
                        match expr(t, std_stops(), i + 5) {
                            Ok((e, j)) => Ok(
                                (StmtV::VariableDecl { name: n@, var_type: ty, value: e }, j),
                            ),
                            Err(p) => Err(p),
                        }
                    },
                }
            },
            _ => Err(tpos(t, i + 1)),
        }
    }
}

/// `name = expr`.
pub open spec fn assignment(t: Toks, i: int) -> Parsed<StmtV>
    decreases t.len() - i, 1int,
{
    match tok(t, i) {
        Token::Identifier(n) => if !(tok(t, i + 1) is Equals) {
            Err(tpos(t, i + 1))
        } else {
            match expr(t, std_stops(), i + 2) {
                Ok((e, j)) => Ok((StmtV::Assignment { name: n@, value: e }, j)),
                Err(p) => Err(p),
            }
        },
        _ => Err(tpos(t, i)),
    }
}

/// `if cond { ... }`, optionally followed by `else { ... }` or by `else` and
/// another `if`, which then is the only statement of the else branch.
pub open spec fn if_stmt(t: Toks, i: int) -> Parsed<StmtV>
    decreases t.len() - i, 1int,
{
    if !(tok(t, i) == Token::Keyword(Keyword::If)) {
        Err(tpos(t, i))
    } else {
        match expr(t, std_stops(), i + 1) {
            Err(p) => Err(p),
            Ok((c, j)) => if !(i < j <= t.len()) {
                Err(tpos(t, j))
            } else {
                match block(t, j) {
                    Err(p) => Err(p),
                    Ok((body, k)) => if !(j < k <= t.len()) {
                        Err(tpos(t, k))
                    } else if tok(t, k) == Token::Keyword(Keyword::Else) {
                        if tok(t, k + 1) == Token::Keyword(Keyword::If) {
                            match if_stmt(t, k + 1) {
                                Ok((s, m)) => Ok(
                                    (
                                        StmtV::IfStatement {
                                            condition: c,
                                            body,
                                            else_body: Some(seq![s]),
                                        },
                                        m,
                                    ),
                                ),
                                Err(p) => Err(p),
                            }
                        } else if tok(t, k + 1) is LeftBrace {
                            match block(t, k + 1) {
                                Ok((eb, m)) => Ok(
                                    (
                                        StmtV::IfStatement {
                                            condition: c,
                                            body,
                                            else_body: Some(eb),
                                        },
                                        m,
                                    ),
                                ),
                                Err(p) => Err(p),
                            }
                        } else {
                            Err(tpos(t, k + 1))
                        }
                    } else {
                        Ok((StmtV::IfStatement { condition: c, body, else_body: None }, k))
                    },
                }
            },
        }
    }
}

/// `while cond { ... }`.
pub open spec fn while_stmt(t: Toks, i: int) -> Parsed<StmtV>
    decreases t.len() - i, 1int,
{
    if !(tok(t, i) == Token::Keyword(Keyword::While)) {
        Err(tpos(t, i))
    } else {
        match expr(t, std_stops(), i + 1) {
            Err(p) => Err(p),
            Ok((c, j)) => if !(i < j <= t.len()) {
                Err(tpos(t, j))
            } else {
                match block(t, j) {
                    Err(p) => Err(p),
                    Ok((body, k)) => Ok((StmtV::While { condition: c, body }, k)),
                }
            },
        }
    }
}

/// The `name: type` pairs after `acc`, up to and including the closing
/// parenthesis; each may be followed by a comma.
pub open spec fn params(t: Toks, i: int, acc: Seq<(Seq<char>, Type)>) -> Parsed<
    Seq<(Seq<char>, Type)>,
>
    decreases t.len() - i,
{
    match tok(t, i) {
        Token::RightParen => Ok((acc, i + 1)),
        Token::Identifier(n) => if !(tok(t, i + 1) is Colon) {
            Err(tpos(t, i + 1))
        } else {
            match tok(t, i + 2) {
                Token::Keyword(k) => match kw_type(k) {
                    Some(ty) => params(t, skip_one(t, i + 3, Token::Comma), acc.push((n@, ty))),
                    None => Err(tpos(t, i + 2)),
                },
                _ => Err(tpos(t, i + 2)),
            }
        },
        _ => Err(tpos(t, i)),
    }
}

/// A parenthesised parameter list.
pub open spec fn param_list(t: Toks, i: int) -> Parsed<Seq<(Seq<char>, Type)>> {
    if tok(t, i) is LeftParen {
        params(t, i + 1, seq![])
    } else {
        Err(tpos(t, i))
    }
}

/// `fn name(params) { ... }`, optionally followed by `return expr` and a
/// semicolon.
pub open spec fn function(t: Toks, i: int) -> Parsed<StmtV> {
    if !(tok(t, i) == Token::Keyword(Keyword::Fn)) {
        Err(tpos(t, i))
    } else {
        match tok(t, i + 1) {
            Token::Identifier(n) => match param_list(t, i + 2) {
                Err(p) => Err(p),
                Ok((ps, j)) => match block(t, j) {
                    Err(p) => Err(p),
                    Ok((body, k)) => if tok(t, k) == Token::Keyword(Keyword::Return) {
                        match expr(t, std_stops(), k + 1) {
                            Ok((e, m)) => Ok(
                                (
                                    StmtV::Function {
                                        name: n@,
                                        args: ps,
                                        body,
                                        return_expr: Some(e),
                                    },
                                    skip_one(t, m, Token::Semicolon),
                                ),
                            ),
                            Err(p) => Err(p),
                        }
                    } else {
                        Ok((StmtV::Function { name: n@, args: ps, body, return_expr: None }, k))
                    },
                },
            },
            _ => Err(tpos(t, i + 1)),
        }
    }
}

/// `extern fn name(params) [return-type-name];`
pub open spec fn extern_decl(t: Toks, i: int) -> Parsed<ExternV> {
    if !(tok(t, i) == Token::Keyword(Keyword::Extern)) {
        Err(tpos(t, i))
    } else if !(tok(t, i + 1) == Token::Keyword(Keyword::Fn)) {
        Err(tpos(t, i + 1))
    } else {
        match tok(t, i + 2) {
            Token::Identifier(n) => match param_list(t, i + 3) {
                Err(p) => Err(p),
                Ok((ps, j)) => match tok(t, j) {
                    Token::Identifier(rt) => if tok(t, j + 1) is Semicolon {
                        Ok((ExternV { name: n@, args: ps, return_type: rt@ }, j + 2))
                    } else {
                        Err(tpos(t, j + 1))
                    },
                    Token::Semicolon => Ok(
                        (ExternV { name: n@, args: ps, return_type: Seq::empty() }, j + 1),
                    ),
                    _ => Err(tpos(t, j)),
                },
            },
            _ => Err(tpos(t, i + 2)),
        }
    }
}

/// The declarations from index `i` to the end, after those already read.
pub open spec fn program(t: Toks, i: int, fns: Seq<StmtV>, exts: Seq<ExternV>) -> Result<
    ProgramV,
    Position,
>
    decreases t.len() - i,
{
    match tok(t, i) {
        Token::EOF => Ok(ProgramV { functions: fns, externs: exts }),
        Token::Keyword(Keyword::Extern) => match extern_decl(t, i) {
            Err(p) => Err(p),
            Ok((e, j)) => if i < j <= t.len() {
                program(t, j, fns, exts.push(e))
            } else {
                Err(tpos(t, j))
            },
        },
        Token::Keyword(Keyword::Fn) => match function(t, i) {
            Err(p) => Err(p),
            Ok((f, j)) => if i < j <= t.len() {
                program(t, j, fns.push(f), exts)
            } else {
                Err(tpos(t, j))
            },
        },
        _ => Err(tpos(t, i)),
    }
}

/// The whole token stream read as a program.
pub open spec fn parse_program(t: Toks) -> Result<ProgramV, Position> {
    program(t, 0, seq![], seq![])
}

} // verus!
