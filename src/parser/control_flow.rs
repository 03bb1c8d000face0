use vstd::prelude::*;
use crate::common::{lemma_stmts_view_push, stmts_view, stmt_view, CompileError, ErrorKind, Keyword, Stmt, Token};
use crate::parser::{agrees, expressions, Parser};
use crate::parser::grammar::{if_stmt, while_stmt};

verus! {

/// `if cond { ... }` with an optional `else { ... }` or `else if ...`; a
/// chained `if` is the only statement of the else branch.
pub fn parse_if_statement(parser: &mut Parser) -> (r: Result<Stmt, CompileError>)
    requires
        old(parser).wf(),
    ensures
        agrees(r, if_stmt(old(parser).toks(), old(parser).at()), |s: Stmt| stmt_view(s), *old(parser), *final(parser)),
    decreases old(parser).toks().len() - old(parser).at(), 1int,
{
    match parser.expect_keyword(Keyword::If) {
        Err(e) => return Err(e),
        Ok(()) => {},
    }
    let condition = match expressions::parse_expression(parser) {
        Err(e) => return Err(e),
        Ok(c) => c,
    };
    let body = match parser.parse_block() {
        Err(e) => return Err(e),
        Ok(b) => b,
    };
    let mut else_body = None;
    if matches!(parser.current_token.0, Token::Keyword(Keyword::Else)) {
        parser.advance();
        if matches!(parser.current_token.0, Token::Keyword(Keyword::If)) {
            let else_if = match parse_if_statement(parser) {
                Err(e) => return Err(e),
                Ok(s) => s,
            };
            let ghost sv = crate::common::stmt_view(else_if);
            let v = vec![else_if];
            proof {
                lemma_stmts_view_push(Seq::empty(), v@[0]);
                assert(v@ =~= Seq::<Stmt>::empty().push(v@[0]));
                assert(seq![sv] =~= Seq::<crate::common::StmtV>::empty().push(sv));
                assert(stmts_view(Seq::<Stmt>::empty()) =~= Seq::empty());
            }
            else_body = Some(v);
        } else if matches!(parser.current_token.0, Token::LeftBrace) {
            else_body = match parser.parse_block() {
                Err(e) => return Err(e),
                Ok(b) => Some(b),
            };
        } else {
            return Err(
                CompileError::new(
                    ErrorKind::Parse,
                    "Expected '{' after 'else'",
                    parser.current_token.1,
                ),
            );
        }
    }
    Ok(Stmt::IfStatement { condition, body, else_body })
}

/// `while cond { ... }`.
pub fn parse_while_statement(parser: &mut Parser) -> (r: Result<Stmt, CompileError>)
    requires
        old(parser).wf(),
    ensures
        agrees(r, while_stmt(old(parser).toks(), old(parser).at()), |s: Stmt| stmt_view(s), *old(parser), *final(parser)),
    decreases old(parser).toks().len() - old(parser).at(), 1int,
{
    match parser.expect_keyword(Keyword::While) {
        Err(e) => return Err(e),
        Ok(()) => {},
    }
    let condition = match expressions::parse_expression(parser) {
        Err(e) => return Err(e),
        Ok(c) => c,
    };
    let body = match parser.parse_block() {
        Err(e) => return Err(e),
        Ok(b) => b,
    };
    Ok(Stmt::While { condition, body })
}

} // verus!
