use vstd::prelude::*;
use crate::common::{expr_view, CompileError, ErrorKind, Expr, Keyword, Token, Builtin};
use crate::parser::{agrees, functions, Parser};
use crate::parser::grammar::{expr, in_stops, is_arith, ops, operator_node, std_stops, tok};

verus! {

/// An expression that ends at any of the usual delimiters.
pub fn parse_expression(parser: &mut Parser) -> (r: Result<Expr, CompileError>)
    requires
        old(parser).wf(),
    ensures
        agrees(r, expr(old(parser).toks(), std_stops(), old(parser).at()), |e: Expr| expr_view(e), *old(parser), *final(parser)),
    decreases old(parser).toks().len() - old(parser).at(), 2int,
{
    let stops = [
        Token::LeftBrace,
        Token::RightBrace,
        Token::Semicolon,
        Token::Comma,
        Token::RightParen,
        Token::EOF,
    ];
    assert(stops@ =~= std_stops());
    parse_expression_until(parser, &stops)
}

/// Whether `t` is one of `stops`.
fn is_stop(t: &Token, stops: &[Token]) -> (r: bool)
    ensures
        r == in_stops(stops@, *t),
{
    let mut k: usize = 0;
    while k < stops.len()
        invariant
            k <= stops@.len(),
            forall|m: int| 0 <= m < k ==> !crate::common::token_eq(#[trigger] stops@[m], *t),
        decreases stops.len() - k,
    {
        if stops[k].equals(t) {
            return true;
        }
        k = k + 1;
    }
    false
}

/// An expression: a primary followed by any number of operators, each with
/// a whole expression as its right operand. An operator directly followed by
/// one of `stop_tokens` is an error.
pub fn parse_expression_until(parser: &mut Parser, stop_tokens: &[Token]) -> (r: Result<
    Expr,
    CompileError,
>)
    requires
        old(parser).wf(),
    ensures
        agrees(r, expr(old(parser).toks(), stop_tokens@, old(parser).at()), |e: Expr| expr_view(e), *old(parser), *final(parser)),
    decreases old(parser).toks().len() - old(parser).at(), 1int,
{
    let ghost t = parser.toks();
    let ghost i0 = parser.at();
    let ghost stops = stop_tokens@;
    let mut left = match &parser.current_token.0 {
        Token::Builtin(builtin) => {
            let callee = match builtin {
                Builtin::Print => String::from_str("print"),
                Builtin::Input => String::from_str("input"),
            };
            parser.advance();
            match functions::parse_call(parser, callee) {
                Ok(c) => c,
                Err(e) => return Err(e),
            }
        },
        Token::Keyword(Keyword::True) => {
            parser.advance();
            Expr::BooleanLiteral(true)
        },
        Token::Keyword(Keyword::False) => {
            parser.advance();
            Expr::BooleanLiteral(false)
        },
        Token::Identifier(name) => {
            let name = name.clone();
            parser.advance();
            if matches!(parser.current_token.0, Token::LeftParen) {
                match functions::parse_call(parser, name) {
                    Ok(c) => c,
                    Err(e) => return Err(e),
                }
            } else {
                Expr::Variable(name)
            }
        },
        Token::NumberLiteral(n) => {
            let value = *n;
            parser.advance();
            Expr::IntegerLiteral(value)
        },
        Token::StringLiteral(s) => {
            let s = s.clone();
            parser.advance();
            Expr::StringLiteral(s)
        },
        _ => {
            return Err(
                CompileError::new(
                    ErrorKind::Parse,
                    "Unexpected token in expression",
                    parser.current_token.1,
                ),
            );
        },
    };
    loop
        invariant
            t == old(parser).toks(),
            i0 == old(parser).at(),
            stops == stop_tokens@,
            parser.wf(),
            parser.toks() == t,
            i0 < parser.at() <= t.len(),
            ops(t, stops, parser.at(), expr_view(left)) == expr(t, stops, i0),
        ensures
            parser.wf(),
            parser.toks() == t,
            i0 < parser.at() <= t.len(),
            expr(t, stops, i0) == Ok::<_, crate::common::Position>((expr_view(left), parser.at())),
        decreases t.len() - parser.at(),
    {
        let ghost i = parser.at();
        match &parser.current_token.0 {
            Token::LeftBrace | Token::RightBrace | Token::Semicolon | Token::Comma
            | Token::RightParen | Token::EOF => {
                break ;
            },
            Token::Plus | Token::Minus | Token::Asterisk | Token::Slash | Token::Equality
            | Token::GreaterThan | Token::LessThan | Token::GreaterThanOrEqual
            | Token::LessThanOrEqual | Token::NotEqual => {
                let op = parser.current_token.0.duplicate();
                parser.advance();
                if is_stop(&parser.current_token.0, stop_tokens) {
                    return Err(
                        CompileError::new(
                            ErrorKind::Parse,
                            "Expected an expression after the operator",
                            parser.current_token.1,
                        ),
                    );
                }
                let right = match parse_expression_until(parser, stop_tokens) {
                    Err(e) => return Err(e),
                    Ok(x) => x,
                };
                let ghost lv = expr_view(left);
                left = if is_arith_token(&op) {
                    Expr::BinaryOperator {
                        operator: parser.get_operator(&op),
                        left: Box::new(left),
                        right: Box::new(right),
                    }
                } else {
                    Expr::BooleanComparison {
                        lvalue: Box::new(left),
                        operator: op,
                        rvalue: Box::new(right),
                    }
                };
                assert(expr_view(left) == operator_node(op, lv, expr_view(right)));
            },
            _ => break ,
        }
    }
    Ok(left)
}

fn is_arith_token(t: &Token) -> (r: bool)
    ensures
        r == is_arith(*t),
{
    matches!(t, Token::Plus | Token::Minus | Token::Asterisk | Token::Slash)
}

} // verus!
