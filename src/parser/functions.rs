use vstd::prelude::*;
use crate::common::{
    expr_view, extern_view, lemma_exprs_view_push, params_view, stmt_view, CompileError,
    ErrorKind, Expr, ExternFunction, Keyword, Stmt, Token, Type,
};
use crate::parser::{agrees, expressions, Parser};
use crate::parser::grammar::{call_args, call, extern_decl, function, param_list, params, tok};
use crate::type_system::keyword_to_type;

verus! {

broadcast use vstd::seq::group_seq_axioms;

/// `extern fn name(params)` followed by an optional return type name and a
/// semicolon; without a return type the function returns nothing, which the
/// empty name stands for.
pub fn parse_extern_function(parser: &mut Parser) -> (r: Result<ExternFunction, CompileError>)
    requires
        old(parser).wf(),
    ensures
        agrees(r, extern_decl(old(parser).toks(), old(parser).at()), |e: ExternFunction| extern_view(e), *old(parser), *final(parser)),
{
    match parser.expect_keyword(Keyword::Extern) {
        Err(e) => return Err(e),
        Ok(()) => {},
    }
    match parser.expect_keyword(Keyword::Fn) {
        Err(e) => return Err(e),
        Ok(()) => {},
    }
    let name = match parser.parse_identifier() {
        Err(e) => return Err(e),
        Ok(n) => n,
    };
    let args = match parse_extern_function_args(parser) {
        Err(e) => return Err(e),
        Ok(a) => a,
    };
    let return_type = if let Token::Identifier(t) = &parser.current_token.0 {
        let t = t.clone();
        parser.advance();
        t
    } else if matches!(parser.current_token.0, Token::Semicolon) {
        String::new()
    } else {
        return Err(
            CompileError::new(
                ErrorKind::Parse,
                "Expected a return type or ';' after the extern function's parameters",
                parser.current_token.1,
            ),
        );
    };
    match parser.expect(Token::Semicolon) {
        Err(e) => return Err(e),
        Ok(()) => {},
    }
    Ok(ExternFunction { name, args, return_type })
}

/// The parameter list of an extern function.
pub fn parse_extern_function_args(parser: &mut Parser) -> (r: Result<
    Vec<(String, Type)>,
    CompileError,
>)
    requires
        old(parser).wf(),
    ensures
        agrees(r, param_list(old(parser).toks(), old(parser).at()), |a: Vec<(String, Type)>| params_view(a@), *old(parser), *final(parser)),
{
    parse_function_declaration_arguments_with_types(parser)
}

/// `fn name(params) { ... }`, optionally followed by `return expr` and a
/// semicolon.
pub fn parse_function(parser: &mut Parser) -> (r: Result<Stmt, CompileError>)
    requires
        old(parser).wf(),
    ensures
        agrees(r, function(old(parser).toks(), old(parser).at()), |s: Stmt| stmt_view(s), *old(parser), *final(parser)),
{
    match parser.expect_keyword(Keyword::Fn) {
        Err(e) => return Err(e),
        Ok(()) => {},
    }
    let name = match parser.parse_identifier() {
        Err(e) => return Err(e),
        Ok(n) => n,
    };
    let args = match parse_function_declaration_arguments_with_types(parser) {
        Err(e) => return Err(e),
        Ok(a) => a,
    };
    let body = match parser.parse_block() {
        Err(e) => return Err(e),
        Ok(b) => b,
    };
    let mut return_expr = None;
    if matches!(parser.current_token.0, Token::Keyword(Keyword::Return)) {
        parser.advance();
        return_expr = match expressions::parse_expression(parser) {
            Err(e) => return Err(e),
            Ok(x) => Some(x),
        };
        if matches!(parser.current_token.0, Token::Semicolon) {
            parser.advance();
        }
    }
    Ok(Stmt::Function { name, args, body, return_expr })
}

/// A parenthesised list of `name: type` pairs, each type `int` or `bool`.
pub fn parse_function_declaration_arguments_with_types(parser: &mut Parser) -> (r: Result<
    Vec<(String, Type)>,
    CompileError,
>)
    requires
        old(parser).wf(),
    ensures
        agrees(r, param_list(old(parser).toks(), old(parser).at()), |a: Vec<(String, Type)>| params_view(a@), *old(parser), *final(parser)),
{
    let ghost t = parser.toks();
    let ghost i0 = parser.at();
    match parser.expect(Token::LeftParen) {
        Err(e) => return Err(e),
        Ok(()) => {},
    }
    let mut args: Vec<(String, Type)> = Vec::new();
    assert(params_view(args@) =~= Seq::empty());
    while !matches!(parser.current_token.0, Token::RightParen)
        invariant
            t == old(parser).toks(),
            i0 == old(parser).at(),
            parser.wf(),
            parser.toks() == t,
            i0 < parser.at() <= t.len(),
            tok(t, i0) is LeftParen,
            params(t, parser.at(), params_view(args@)) == params(t, i0 + 1, seq![]),
        decreases t.len() - parser.at(),
    {
        let name = match parser.parse_identifier() {
            Err(e) => return Err(e),
            Ok(n) => n,
        };
        match parser.expect(Token::Colon) {
            Err(e) => return Err(e),
            Ok(()) => {},
        }
        let ty = if let Token::Keyword(kw) = &parser.current_token.0 {
            match keyword_to_type(kw, &parser.current_token.1) {
                Err(e) => return Err(e),
                Ok(ty) => ty,
            }
        } else {
            return Err(
                CompileError::new(
                    ErrorKind::Parse,
                    "Expected a type in the parameter list",
                    parser.current_token.1,
                ),
            );
        };
        parser.advance();
        let ghost pv = params_view(args@);
        args.push((name, ty));
        assert(params_view(args@) =~= pv.push((name@, ty)));
        if matches!(parser.current_token.0, Token::Comma) {
            parser.advance();
        }
    }
    match parser.expect(Token::RightParen) {
        Err(e) => return Err(e),
        Ok(()) => {},
    }
    Ok(args)
}

/// The parenthesised, comma-separated arguments of a call to `callee`.
pub fn parse_call(parser: &mut Parser, callee: String) -> (r: Result<Expr, CompileError>)
    requires
        old(parser).wf(),
    ensures
        agrees(r, call(old(parser).toks(), old(parser).at(), callee@), |e: Expr| expr_view(e), *old(parser), *final(parser)),
    decreases old(parser).toks().len() - old(parser).at(), 3int,
{
    let ghost t = parser.toks();
    let ghost i0 = parser.at();
    match parser.expect(Token::LeftParen) {
        Err(e) => return Err(e),
        Ok(()) => {},
    }
    let mut args: Vec<Expr> = Vec::new();
    assert(crate::common::exprs_view(args@) =~= Seq::empty());
    while !matches!(parser.current_token.0, Token::RightParen)
        invariant
            t == old(parser).toks(),
            i0 == old(parser).at(),
            parser.wf(),
            parser.toks() == t,
            i0 < parser.at() <= t.len(),
            tok(t, i0) is LeftParen,
            call_args(t, parser.at(), crate::common::exprs_view(args@)) == call_args(t, i0 + 1, seq![]),
        decreases t.len() - parser.at(),
    {
        let arg = match expressions::parse_expression(parser) {
            Err(e) => return Err(e),
            Ok(x) => x,
        };
        if matches!(parser.current_token.0, Token::Comma) {
            parser.advance();
        }
        proof {
            lemma_exprs_view_push(args@, arg);
        }
        args.push(arg);
    }
    match parser.expect(Token::RightParen) {
        Err(e) => return Err(e),
        Ok(()) => {},
    }
    Ok(Expr::Call { callee, args })
}

} // verus!
