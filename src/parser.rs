use vstd::prelude::*;
use crate::common::{
    lemma_stmts_view_push, program_view, same_kind, stmt_view, stmts_view, CompileError,
    ErrorKind, Expr, Keyword, Position, Program, ProgramV, Stmt, Token,
};
use crate::parser::grammar::{
    arith_symbol, block, is_arith, parse_program, program, std_stops, stmt, stmts, tok, tpos,
    Parsed, Toks,
};

pub mod control_flow;
pub mod expressions;
pub mod functions;
pub mod grammar;
pub mod variables;

verus! {

broadcast use vstd::seq::group_seq_axioms;

/// A recursive-descent parser over a token stream, with one token of
/// lookahead.
pub struct Parser {
    pub(crate) tokens: Vec<(Token, Position)>,
    pub(crate) current_token: (Token, Position),
    pub(crate) index: usize,
}

/// How a parse step ended, against what the grammar says of the tokens:
/// on success the value read and the index after it, which lies past the
/// start; on failure the position of the offending token.
pub open spec fn agrees<A, V>(
    r: Result<A, CompileError>,
    s: Parsed<V>,
    view: spec_fn(A) -> V,
    before: Parser,
    after: Parser,
) -> bool {
    &&& after.wf()
    &&& after.toks() == before.toks()
    &&& match s {
        Ok((v, j)) => {
            &&& r is Ok
            &&& view(r->Ok_0) == v
            &&& after.at() == j
            &&& before.at() < j <= before.toks().len()
        },
        Err(p) => {
            &&& r is Err
            &&& r->Err_0.position == p
            &&& r->Err_0.kind == ErrorKind::Parse
        },
    }
}

impl Parser {
    /// The token stream.
    pub open(crate) spec fn toks(&self) -> Toks {
        self.tokens@
    }

    /// The index of the current token.
    pub open(crate) spec fn at(&self) -> int {
        self.index as int
    }

    pub open(crate) spec fn wf(&self) -> bool {
        &&& self.index <= self.tokens@.len()
        &&& self.current_token == (tok(self.tokens@, self.index as int), tpos(
            self.tokens@,
            self.index as int,
        ))
    }

    pub fn new(tokens: Vec<(Token, Position)>) -> (r: Self)
        ensures
            r.wf(),
            r.toks() == tokens@,
            r.at() == 0,
    {
        let current_token = if tokens.len() > 0 {
            (tokens[0].0.duplicate(), tokens[0].1)
        } else {
            (Token::EOF, Position::new(0, 0))
        };
        Parser { tokens, current_token, index: 0 }
    }

    /// Reads the whole program: extern and function declarations up to the
    /// end of the stream.
    pub fn parse(&mut self) -> (r: Result<Program, CompileError>)
        requires
            old(self).wf(),
        ensures
            final(self).wf(),
            final(self).toks() == old(self).toks(),
            match program(old(self).toks(), old(self).at(), seq![], seq![]) {
                Ok(v) => r matches Ok(p) && program_view(p) == v,
                Err(pos) => r matches Err(e) && e.position == pos && e.kind == ErrorKind::Parse,
            },
    {
        let ghost t = self.tokens@;
        let ghost i0 = self.index as int;
        let mut functions: Vec<Stmt> = Vec::new();
        let mut externs: Vec<crate::common::ExternFunction> = Vec::new();
        assert(stmts_view(functions@) =~= Seq::empty());
        assert(crate::common::externs_view(externs@) =~= Seq::empty());
        while !matches!(self.current_token.0, Token::EOF)
            invariant
                t == old(self).toks(),
                i0 == old(self).at(),
                self.wf(),
                self.toks() == t,
                i0 <= self.at() <= t.len(),
                program(t, self.at(), stmts_view(functions@), crate::common::externs_view(externs@))
                    == program(t, i0, seq![], seq![]),
            decreases t.len() - self.at(),
        {
            match &self.current_token.0 {
                Token::Keyword(Keyword::Extern) => {
                    match functions::parse_extern_function(self) {
                        Ok(e) => {
                            proof {
                                assert(crate::common::externs_view(externs@.push(e)) =~= crate::common::externs_view(externs@).push(
                                    crate::common::extern_view(e),
                                ));
                            }
                            externs.push(e);
                        },
                        Err(e) => return Err(e),
                    }
                },
                Token::Keyword(Keyword::Fn) => {
                    match functions::parse_function(self) {
                        Ok(f) => {
                            proof {
                                lemma_stmts_view_push(functions@, f);
                            }
                            functions.push(f);
                        },
                        Err(e) => return Err(e),
                    }
                },
                _ => {
                    return Err(
                        CompileError::new(
                            ErrorKind::Parse,
                            "Unexpected token at top level",
                            self.current_token.1,
                        ),
                    );
                },
            }
        }
        Ok(Program { functions, externs })
    }

    pub(crate) fn parse_block(&mut self) -> (r: Result<Vec<Stmt>, CompileError>)
        requires
            old(self).wf(),
        ensures
            agrees(r, block(old(self).toks(), old(self).at()), |b: Vec<Stmt>| stmts_view(b@), *old(self), *final(self)),
        decreases old(self).toks().len() - old(self).at(), 1int,
    {
        let ghost t = self.tokens@;
        let ghost i0 = self.index as int;
        match self.expect(Token::LeftBrace) {
            Err(e) => return Err(e),
            Ok(()) => {},
        }
        let mut body: Vec<Stmt> = Vec::new();
        assert(stmts_view(body@) =~= Seq::empty());
        while !(matches!(self.current_token.0, Token::RightBrace) || matches!(self.current_token.0, Token::EOF))
            invariant
                t == old(self).toks(),
                i0 == old(self).at(),
                self.wf(),
                self.toks() == t,
                i0 < self.at() <= t.len(),
                tok(t, i0) is LeftBrace,
                stmts(t, self.at(), stmts_view(body@)) == stmts(t, i0 + 1, seq![]),
            decreases t.len() - self.at(),
        {
            let stmt = match self.parse_statement() {
                Err(e) => return Err(e),
                Ok(s) => s,
            };
            if matches!(self.current_token.0, Token::Semicolon) {
                self.advance();
            }
            proof {
                lemma_stmts_view_push(body@, stmt);
            }
            body.push(stmt);
        }
        match self.expect(Token::RightBrace) {
            Err(e) => return Err(e),
            Ok(()) => {},
        }
        Ok(body)
    }

    pub(crate) fn parse_statement(&mut self) -> (r: Result<Stmt, CompileError>)
        requires
            old(self).wf(),
        ensures
            agrees(r, stmt(old(self).toks(), old(self).at()), |s: Stmt| stmt_view(s), *old(self), *final(self)),
        decreases old(self).toks().len() - old(self).at(), 4int,
    {
        match &self.current_token.0 {
            Token::Keyword(Keyword::Var) => variables::parse_variable_decl(self),
            Token::Keyword(Keyword::If) => control_flow::parse_if_statement(self),
            Token::Keyword(Keyword::While) => control_flow::parse_while_statement(self),
            Token::LeftBrace => {
                // The block is read and its statements dropped.
                match self.parse_block() {
                    Err(e) => Err(e),
                    Ok(_) => Ok(Stmt::ExprStmt(Expr::BooleanLiteral(true))),
                }
            },
            Token::RightBrace | Token::EOF => Err(
                CompileError::new(
                    ErrorKind::Parse,
                    "Unexpected block delimiter or end of input in statement context",
                    self.current_token.1,
                ),
            ),
            Token::Keyword(Keyword::Return) => {
                self.advance();
                let expr = match expressions::parse_expression(self) {
                    Err(e) => return Err(e),
                    Ok(x) => x,
                };
                if matches!(self.current_token.0, Token::Semicolon) {
                    self.advance();
                }
                Ok(Stmt::Return(expr))
            },
            _ => {
                if matches!(self.peek().0, Token::Equals) {
                    return variables::parse_variable_assignment(self);
                }
                self.parse_expression_statement()
            },
        }
    }

    fn parse_expression_statement(&mut self) -> (r: Result<Stmt, CompileError>)
        requires
            old(self).wf(),
        ensures
            agrees(
                r,
                match grammar::expr(old(self).toks(), std_stops(), old(self).at()) {
                    Ok((e, j)) => Ok((crate::common::StmtV::ExprStmt(e), j)),
                    Err(p) => Err(p),
                },
                |s: Stmt| stmt_view(s),
                *old(self),
                *final(self),
            ),
        decreases old(self).toks().len() - old(self).at(), 3int,
    {
        match expressions::parse_expression(self) {
            Ok(e) => Ok(Stmt::ExprStmt(e)),
            Err(e) => Err(e),
        }
    }

    /// Moves past the current token, which must be the keyword `keyword`.
    pub(crate) fn expect_keyword(&mut self, keyword: Keyword) -> (r: Result<(), CompileError>)
        requires
            old(self).wf(),
        ensures
            final(self).wf(),
            final(self).toks() == old(self).toks(),
            tok(old(self).toks(), old(self).at()) == Token::Keyword(keyword) ==> r is Ok
                && final(self).at() == old(self).at() + 1,
            tok(old(self).toks(), old(self).at()) != Token::Keyword(keyword) ==> (r matches Err(e)
                && e.position == tpos(old(self).toks(), old(self).at()) && e.kind == ErrorKind::Parse),
    {
        if let Token::Keyword(k) = &self.current_token.0 {
            if *k == keyword {
                self.advance();
                return Ok(());
            }
        }
        Err(CompileError::new(ErrorKind::Parse, "Expected a keyword", self.current_token.1))
    }

    /// Moves past the current token, which must be of the same kind as
    /// `expected`.
    pub(crate) fn expect(&mut self, expected: Token) -> (r: Result<(), CompileError>)
        requires
            old(self).wf(),
            !(expected is EOF),
        ensures
            final(self).wf(),
            final(self).toks() == old(self).toks(),
            same_kind(tok(old(self).toks(), old(self).at()), expected) ==> r is Ok
                && final(self).at() == old(self).at() + 1,
            !same_kind(tok(old(self).toks(), old(self).at()), expected) ==> (r matches Err(e)
                && e.position == tpos(old(self).toks(), old(self).at()) && e.kind == ErrorKind::Parse),
    {
        if self.current_token.0.same_kind(&expected) {
            self.advance();
            Ok(())
        } else {
            Err(CompileError::new(ErrorKind::Parse, "Unexpected token", self.current_token.1))
        }
    }

    /// Reads an identifier and returns its name.
    pub(crate) fn parse_identifier(&mut self) -> (r: Result<String, CompileError>)
        requires
            old(self).wf(),
        ensures
            final(self).wf(),
            final(self).toks() == old(self).toks(),
            match tok(old(self).toks(), old(self).at()) {
                Token::Identifier(n) => r matches Ok(s) && s@ == n@ && final(self).at() == old(
                    self,
                ).at() + 1,
                _ => r matches Err(e) && e.position == tpos(old(self).toks(), old(self).at())
                    && e.kind == ErrorKind::Parse,
            },
    {
        if let Token::Identifier(name) = &self.current_token.0 {
            let name = name.clone();
            self.advance();
            Ok(name)
        } else {
            Err(CompileError::new(ErrorKind::Parse, "Expected identifier", self.current_token.1))
        }
    }

    pub(crate) fn advance(&mut self)
        requires
            old(self).wf(),
            old(self).at() < old(self).toks().len(),
        ensures
            final(self).wf(),
            final(self).toks() == old(self).toks(),
            final(self).at() == old(self).at() + 1,
    {
        let n = self.tokens.len();
        self.index = self.index + 1;
        if self.index >= n {
            self.current_token = (Token::EOF, Position::new(0, 0));
            return;
        }
        self.current_token = (self.tokens[self.index].0.duplicate(), self.tokens[self.index].1);
    }

    /// The symbol of an arithmetic operator token.
    pub(crate) fn get_operator(&self, token: &Token) -> (r: String)
        requires
            is_arith(*token),
        ensures
            r@ == arith_symbol(*token),
    {
        match token {
            Token::Plus => String::from_str("+"),
            Token::Minus => String::from_str("-"),
            Token::Asterisk => String::from_str("*"),
            _ => String::from_str("/"),
        }
    }

    /// The token after the current one, with its position.
    pub(crate) fn peek(&self) -> (r: (Token, Position))
        requires
            self.wf(),
        ensures
            r == (tok(self.toks(), self.at() + 1), tpos(self.toks(), self.at() + 1)),
    {
        if self.index < self.tokens.len() && self.index + 1 < self.tokens.len() {
            (self.tokens[self.index + 1].0.duplicate(), self.tokens[self.index + 1].1)
        } else {
            (Token::EOF, Position::new(0, 0))
        }
    }
}

} // verus!
