use vstd::prelude::*;
use crate::common::{stmt_view, CompileError, ErrorKind, Keyword, Stmt, Token};
use crate::parser::{agrees, expressions, Parser};
use crate::parser::grammar::{assignment, var_decl};

verus! {

/// `var name: type = expr`, where the type is `int` or `bool`.
pub fn parse_variable_decl(parser: &mut Parser) -> (r: Result<Stmt, CompileError>)
    requires
        old(parser).wf(),
    ensures
        agrees(r, var_decl(old(parser).toks(), old(parser).at()), |s: Stmt| stmt_view(s), *old(parser), *final(parser)),
    decreases old(parser).toks().len() - old(parser).at(), 1int,
{
    match parser.expect_keyword(Keyword::Var) {
        Err(e) => return Err(e),
        Ok(()) => {},
    }
    let name = match parser.parse_identifier() {
        Err(e) => return Err(e),
        Ok(n) => n,
    };
    match parser.expect(Token::Colon) {
        Err(e) => return Err(e),
        Ok(()) => {},
    }
    let var_type = match parser.current_token.0 {
        Token::Keyword(Keyword::Int) => String::from_str("int"),
        Token::Keyword(Keyword::Bool) => String::from_str("bool"),
        _ => {
            return Err(
                CompileError::new(
                    ErrorKind::Parse,
                    "Expected a known type in the variable declaration",
                    parser.current_token.1,
                ),
            );
        },
    };
    parser.advance();
    match parser.expect(Token::Equals) {
        Err(e) => return Err(e),
        Ok(()) => {},
    }
    let value = match expressions::parse_expression(parser) {
        Err(e) => return Err(e),
        Ok(v) => v,
    };
    Ok(Stmt::VariableDecl { name, var_type, value })
}

/// `name = expr`.
pub fn parse_variable_assignment(parser: &mut Parser) -> (r: Result<Stmt, CompileError>)
    requires
        old(parser).wf(),
    ensures
        agrees(r, assignment(old(parser).toks(), old(parser).at()), |s: Stmt| stmt_view(s), *old(parser), *final(parser)),
    decreases old(parser).toks().len() - old(parser).at(), 1int,
{
    let name = match parser.parse_identifier() {
        Err(e) => return Err(e),
        Ok(n) => n,
    };
    match parser.expect(Token::Equals) {
        Err(e) => return Err(e),
        Ok(()) => {},
    }
    let value = match expressions::parse_expression(parser) {
        Err(e) => return Err(e),
        Ok(v) => v,
    };
    Ok(Stmt::Assignment { name, value })
}

} // verus!
