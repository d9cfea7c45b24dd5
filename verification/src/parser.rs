//! The parser: from tokens to statements, by recursive descent.

use vstd::prelude::*;
use std::rc::Rc;
use crate::expr::{expr_view, exprs_view, lemma_exprs_view, Expr, ExprView};
use crate::grammar;
use crate::grammar::{syntax_error, Parsed};
use crate::grammar_laws::{all_enclosed, all_shaped, lemma_declaration, lemma_program_rest};
use crate::stmt::{lemma_stmts_view, stmt_view, stmts_view, tokens_view, Stmt, StmtView};
use crate::token::{Literal, Token, TokenType, TokenView};
use crate::{diagnostics_view, Diagnostic, DiagnosticView, Lox};

verus! {

/// What a rule of the parser returns in place of a value when it fails. The
/// error itself is among the parser's diagnostics.
#[derive(Debug, Clone, Copy, PartialEq, Eq, Structural)]
pub struct ParseError;

/// A parser: the tokens, the place of the next token, and the errors
/// reported so far.
pub struct Parser {
    tokens: Vec<Token>,
    current: usize,
    errors: Vec<Diagnostic>,
    inside: bool,
}

/// Whether `r` is the expression, or the failure, that the grammar gives as
/// `value`.
pub open spec fn agrees(r: Result<Expr, ParseError>, value: Option<ExprView>) -> bool {
    match r {
        Ok(e) => value == Some(e@),
        Err(_) => value is None,
    }
}

/// Whether `r` is the statement, or the failure, that the grammar gives as
/// `value`.
pub open spec fn accords(r: Result<Stmt, ParseError>, value: Option<StmtView>) -> bool {
    match r {
        Ok(s) => value == Some(s@),
        Err(_) => value is None,
    }
}

/// One statement after another, as a list.
fn pair(first: Stmt, second: Stmt) -> (both: Vec<Stmt>)
    ensures
        stmts_view(both@) == seq![first@, second@],
{
    let mut both: Vec<Stmt> = Vec::new();
    both.push(first);
    both.push(second);
    proof {
        lemma_stmts_view(both@);
        assert(stmts_view(both@) =~= seq![first@, second@]);
    }
    both
}

/// The statement that a `for` loop stands for.
fn for_loop(
    initializer: Option<Stmt>,
    condition: Option<Expr>,
    increment: Option<Expr>,
    body: Stmt,
) -> (r: Stmt)
    ensures
        r@ == grammar::for_loop(
            match initializer {
                Some(s) => Some(s@),
                None => None,
            },
            match condition {
                Some(e) => Some(e@),
                None => None,
            },
            match increment {
                Some(e) => Some(e@),
                None => None,
            },
            body@,
        ),
{
    let ghost inner = body@;
    let body = match increment {
        Some(e) => {
            let block = Stmt::Block(Rc::new(pair(body, Stmt::Expr(Rc::new(e)))));
            assert(block@ == StmtView::Block(seq![inner, StmtView::Expr(e@)]));
            block
        },
        None => body,
    };
    let ghost stepped = body@;
    let condition = match condition {
        Some(e) => e,
        None => Expr::Literal(Literal::Bool(true)),
    };
    let ghost test = condition@;
    let body = Stmt::While { condition: Rc::new(condition), body: Rc::new(body) };
    assert(body@ == StmtView::While { condition: test, body: Box::new(stepped) });
    let ghost looping = body@;
    match initializer {
        Some(s) => {
            let block = Stmt::Block(Rc::new(pair(s, body)));
            assert(block@ == StmtView::Block(seq![s@, looping]));
            block
        },
        None => body,
    }
}

impl Parser {
    /// The tokens being parsed.
    pub closed spec fn tokens(&self) -> Seq<TokenView> {
        tokens_view(self.tokens@)
    }

    /// The place of the next token.
    pub closed spec fn position(&self) -> int {
        self.current as int
    }

    /// The errors reported so far.
    pub closed spec fn errors(&self) -> Seq<DiagnosticView> {
        diagnostics_view(self.errors@)
    }

    /// The tokens end with the token that marks the end, the place of the
    /// next token is among them, and the parser is in no function's body.
    pub closed spec fn wf(&self) -> bool {
        &&& self.tokens.len() > 0
        &&& self.tokens[self.tokens.len() - 1].type_ == TokenType::Eof
        &&& self.current < self.tokens.len()
        &&& !self.inside
    }

    spec fn ready(&self) -> bool {
        &&& self.tokens.len() > 0
        &&& self.tokens[self.tokens.len() - 1].type_ == TokenType::Eof
        &&& self.current < self.tokens.len()
    }

    /// The state after a rule that began in state `before` and gave `p`.
    spec fn gives<T>(&self, before: &Parser, p: Parsed<T>) -> bool {
        &&& self.ready()
        &&& self.tokens == before.tokens
        &&& self.inside == before.inside
        &&& self.current == p.pos
        &&& self.current >= before.current
        &&& self.errors() == p.errors
    }

    /// A parser at the first of `tokens`.
    pub fn new(tokens: Vec<Token>) -> (r: Self)
        requires
            tokens.len() > 0,
            tokens[tokens.len() - 1].type_ == TokenType::Eof,
        ensures
            r.wf(),
            r.tokens() == tokens_view(tokens@),
            r.position() == 0,
            r.errors() == Seq::<DiagnosticView>::empty(),
    {
        let r = Parser { tokens, current: 0, errors: Vec::new(), inside: false };
        assert(r.errors() =~= Seq::<DiagnosticView>::empty());
        r
    }

    /// The errors reported so far.
    pub fn diagnostics(&self) -> (r: &Vec<Diagnostic>)
        ensures
            diagnostics_view(r@) == self.errors(),
    {
        &self.errors
    }

    /// Parses a program: its statements, in order. A malformed declaration
    /// is reported and left out.
    #[verifier::loop_isolation(false)]
    pub fn parse(&mut self) -> (r: Vec<Stmt>)
        requires
            old(self).wf(),
        ensures
            final(self).wf(),
            final(self).tokens() == old(self).tokens(),
            final(self).position() == grammar::program_rest(
                old(self).tokens(),
                old(self).position(),
                old(self).errors(),
                Seq::empty(),
            ).pos,
            final(self).errors() == grammar::program_rest(
                old(self).tokens(),
                old(self).position(),
                old(self).errors(),
                Seq::empty(),
            ).errors,
            Some(stmts_view(r@)) == grammar::program_rest(
                old(self).tokens(),
                old(self).position(),
                old(self).errors(),
                Seq::empty(),
            ).value,
            grammar::at_end(final(self).tokens(), final(self).position()),
            all_enclosed(stmts_view(r@), false),
            all_shaped(stmts_view(r@)),
    {
        let ghost ts = self.tokens();
        let ghost goal = grammar::program_rest(ts, self.position(), self.errors(), Seq::empty());
        let mut statements: Vec<Stmt> = Vec::new();
        assert(stmts_view(statements@) =~= Seq::empty());
        proof {
            lemma_program_rest(ts, self.position(), self.errors(), Seq::empty());
        }
        while !self.is_at_end()
            invariant
                self.ready(),
                !self.inside,
                self.tokens == old(self).tokens,
                goal == grammar::program_rest(
                    ts,
                    self.position(),
                    self.errors(),
                    stmts_view(statements@),
                ),
            decreases self.tokens.len() - self.current,
        {
            proof {
                lemma_declaration(ts, self.position(), self.errors(), false);
            }
            match self.declaration() {
                Some(s) => {
                    assert(statements@.push(s).drop_last() =~= statements@);
                    statements.push(s);
                },
                None => {},
            }
        }
        statements
    }

    fn statement(&mut self) -> (r: Result<Stmt, ParseError>)
        requires
            old(self).ready(),
        ensures
            final(self).gives(
                old(self),
                grammar::statement(
                    old(self).tokens(),
                    old(self).position(),
                    old(self).errors(),
                    old(self).inside,
                ),
            ),
            accords(
                r,
                grammar::statement(
                    old(self).tokens(),
                    old(self).position(),
                    old(self).errors(),
                    old(self).inside,
                ).value,
            ),
        decreases old(self).tokens.len() - old(self).current, 158int,
    {
        if self.match_one(TokenType::For) {
            return self.for_stmt();
        }
        if self.match_one(TokenType::If) {
            return self.if_stmt();
        }
        if self.match_one(TokenType::Print) {
            return self.print_stmt();
        }
        if self.match_one(TokenType::Return) {
            return self.return_stmt();
        }
        if self.match_one(TokenType::While) {
            return self.while_stmt();
        }
        if self.match_one(TokenType::LeftBrace) {
            return Ok(Stmt::Block(Rc::new(self.block()?)));
        }
        self.expr_stmt()
    }

    /// An expression, unless the next token is of kind `closing`.
    fn clause(&mut self, closing: TokenType) -> (r: Result<Option<Expr>, ParseError>)
        requires
            old(self).ready(),
        ensures
            final(self).gives(
                old(self),
                grammar::clause(
                    old(self).tokens(),
                    old(self).position(),
                    old(self).errors(),
                    closing,
                ),
            ),
            match r {
                Ok(Some(e)) => grammar::clause(
                    old(self).tokens(),
                    old(self).position(),
                    old(self).errors(),
                    closing,
                ).value == Some(Some(e@)),
                Ok(None) => grammar::clause(
                    old(self).tokens(),
                    old(self).position(),
                    old(self).errors(),
                    closing,
                ).value == Some(None::<ExprView>),
                Err(_) => grammar::clause(
                    old(self).tokens(),
                    old(self).position(),
                    old(self).errors(),
                    closing,
                ).value is None,
            },
        decreases old(self).tokens.len() - old(self).current, 141int,
    {
        if !self.check(&closing) {
            Ok(Some(self.expression_inner()?))
        } else {
            Ok(None)
        }
    }

    fn for_stmt(&mut self) -> (r: Result<Stmt, ParseError>)
        requires
            old(self).ready(),
        ensures
            final(self).gives(
                old(self),
                grammar::for_stmt(
                    old(self).tokens(),
                    old(self).position(),
                    old(self).errors(),
                    old(self).inside,
                ),
            ),
            accords(
                r,
                grammar::for_stmt(
                    old(self).tokens(),
                    old(self).position(),
                    old(self).errors(),
                    old(self).inside,
                ).value,
            ),
        decreases old(self).tokens.len() - old(self).current, 157int,
    {
        self.consume(&TokenType::LeftParen, "Expect '(' after 'for'.")?;

        let initializer = if self.match_one(TokenType::Semicolon) {
            None
        } else if self.match_one(TokenType::Var) {
            Some(self.var_decl()?)
        } else {
            Some(self.expr_stmt()?)
        };

        self.for_rest(initializer)
    }

    /// A `for` loop after its first clause.
    fn for_rest(&mut self, initializer: Option<Stmt>) -> (r: Result<Stmt, ParseError>)
        requires
            old(self).ready(),
        ensures
            final(self).gives(
                old(self),
                grammar::for_rest(
                    old(self).tokens(),
                    old(self).position(),
                    old(self).errors(),
                    old(self).inside,
                    match initializer {
                        Some(s) => Some(s@),
                        None => None,
                    },
                ),
            ),
            accords(
                r,
                grammar::for_rest(
                    old(self).tokens(),
                    old(self).position(),
                    old(self).errors(),
                    old(self).inside,
                    match initializer {
                        Some(s) => Some(s@),
                        None => None,
                    },
                ).value,
            ),
        decreases old(self).tokens.len() - old(self).current, 156int,
    {
        let condition = self.clause(TokenType::Semicolon)?;
        self.consume(&TokenType::Semicolon, "Expect ';' after loop condition.")?;

        let increment = self.clause(TokenType::RightParen)?;
        self.consume(&TokenType::RightParen, "Expect ')' after for clauses.")?;

        let body = self.statement()?;
        Ok(for_loop(initializer, condition, increment, body))
    }

    fn if_stmt(&mut self) -> (r: Result<Stmt, ParseError>)
        requires
            old(self).ready(),
        ensures
            final(self).gives(
                old(self),
                grammar::if_stmt(
                    old(self).tokens(),
                    old(self).position(),
                    old(self).errors(),
                    old(self).inside,
                ),
            ),
            accords(
                r,
                grammar::if_stmt(
                    old(self).tokens(),
                    old(self).position(),
                    old(self).errors(),
                    old(self).inside,
                ).value,
            ),
        decreases old(self).tokens.len() - old(self).current, 157int,
    {
        self.consume(&TokenType::LeftParen, "Expect '(' after 'if'.")?;
        let condition = self.expression_inner()?;
        self.consume(&TokenType::RightParen, "Expect ')' after if condition.")?;

        let then_branch = Rc::new(self.statement()?);
        let else_branch = if self.match_one(TokenType::Else) {
            Some(Rc::new(self.statement()?))
        } else {
            None
        };

        Ok(Stmt::If { condition: Rc::new(condition), then_branch, else_branch })
    }

    fn print_stmt(&mut self) -> (r: Result<Stmt, ParseError>)
        requires
            old(self).ready(),
        ensures
            final(self).gives(
                old(self),
                grammar::print_stmt(old(self).tokens(), old(self).position(), old(self).errors()),
            ),
            accords(
                r,
                grammar::print_stmt(
                    old(self).tokens(),
                    old(self).position(),
                    old(self).errors(),
                ).value,
            ),
        decreases old(self).tokens.len() - old(self).current, 157int,
    {
        let value = self.expression_inner()?;
        self.consume(&TokenType::Semicolon, "Expect ';' after value.")?;
        Ok(Stmt::Print(Rc::new(value)))
    }

    /// A `return` after its keyword.
    fn return_stmt(&mut self) -> (r: Result<Stmt, ParseError>)
        requires
            old(self).ready(),
            old(self).current >= 1,
        ensures
            final(self).gives(
                old(self),
                grammar::return_stmt(
                    old(self).tokens(),
                    old(self).position(),
                    old(self).errors(),
                    old(self).inside,
                ),
            ),
            accords(
                r,
                grammar::return_stmt(
                    old(self).tokens(),
                    old(self).position(),
                    old(self).errors(),
                    old(self).inside,
                ).value,
            ),
        decreases old(self).tokens.len() - old(self).current, 157int,
    {
        let keyword = self.previous();
        if !self.inside {
            return Err(self.error(&keyword, "Can't return from top-level code."));
        }
        let value = match self.clause(TokenType::Semicolon)? {
            Some(e) => Some(Rc::new(e)),
            None => None,
        };
        self.consume(&TokenType::Semicolon, "Expect ';' after return value.")?;
        Ok(Stmt::Return { keyword, value })
    }

    fn while_stmt(&mut self) -> (r: Result<Stmt, ParseError>)
        requires
            old(self).ready(),
        ensures
            final(self).gives(
                old(self),
                grammar::while_stmt(
                    old(self).tokens(),
                    old(self).position(),
                    old(self).errors(),
                    old(self).inside,
                ),
            ),
            accords(
                r,
                grammar::while_stmt(
                    old(self).tokens(),
                    old(self).position(),
                    old(self).errors(),
                    old(self).inside,
                ).value,
            ),
        decreases old(self).tokens.len() - old(self).current, 157int,
    {
        self.consume(&TokenType::LeftParen, "Expect '(' after 'while'.")?;
        let condition = self.expression_inner()?;
        self.consume(&TokenType::RightParen, "Expect ')' after condition.")?;
        let body = self.statement()?;

        Ok(Stmt::While { condition: Rc::new(condition), body: Rc::new(body) })
    }

    fn expr_stmt(&mut self) -> (r: Result<Stmt, ParseError>)
        requires
            old(self).ready(),
        ensures
            final(self).gives(
                old(self),
                grammar::expr_stmt(old(self).tokens(), old(self).position(), old(self).errors()),
            ),
            accords(
                r,
                grammar::expr_stmt(
                    old(self).tokens(),
                    old(self).position(),
                    old(self).errors(),
                ).value,
            ),
        decreases old(self).tokens.len() - old(self).current, 150int,
    {
        let expr = self.expression_inner()?;
        self.consume(&TokenType::Semicolon, "Expect ';' after expression.")?;
        Ok(Stmt::Expr(Rc::new(expr)))
    }

    /// A function after `fun`. `kind` is what it is called in messages.
    #[verifier::loop_isolation(false)]
    fn function(&mut self, kind: &str) -> (r: Result<Stmt, ParseError>)
        requires
            old(self).ready(),
        ensures
            final(self).gives(
                old(self),
                grammar::function(
                    old(self).tokens(),
                    old(self).position(),
                    old(self).errors(),
                    kind@,
                ),
            ),
            accords(
                r,
                grammar::function(
                    old(self).tokens(),
                    old(self).position(),
                    old(self).errors(),
                    kind@,
                ).value,
            ),
        decreases old(self).tokens.len() - old(self).current, 157int,
    {
        let ghost ts = self.tokens();
        let mut expect_name = "Expect ".to_owned();
        expect_name.append(kind);
        expect_name.append(" name.");
        let name = self.consume(&TokenType::Identifier, expect_name.as_str())?;
        let mut expect_paren = "Expect '(' after ".to_owned();
        expect_paren.append(kind);
        expect_paren.append(" name.");
        self.consume(&TokenType::LeftParen, expect_paren.as_str())?;
        let ghost open = *self;
        let ghost list = if grammar::check(ts, open.position(), TokenType::RightParen) {
            grammar::ok(Seq::<TokenView>::empty(), open.position(), open.errors())
        } else {
            grammar::parameters(ts, open.position(), open.errors(), Seq::empty())
        };
        let mut params: Vec<Token> = Vec::new();
        assert(tokens_view(params@) =~= Seq::empty());
        let mut more = !self.check(&TokenType::RightParen);
        while more
            invariant
                self.ready(),
                self.tokens == old(self).tokens,
                self.inside == old(self).inside,
                self.current >= open.current,
                more ==> list == grammar::parameters(
                    ts,
                    self.position(),
                    self.errors(),
                    tokens_view(params@),
                ),
                !more ==> list == (Parsed {
                    value: Some(tokens_view(params@)),
                    pos: self.position(),
                    errors: self.errors(),
                }),
            decreases self.tokens.len() - self.current, (if more {
                1int
            } else {
                0int
            }),
        {
            if params.len() >= 255 {
                let at = self.peek().clone();
                self.error(&at, "Can't have more than 255 parameters.");
            }
            let ghost before = tokens_view(params@);
            let param = self.consume(&TokenType::Identifier, "Expect parameter name.")?;
            params.push(param);
            assert(tokens_view(params@) =~= before.push(param@));
            more = self.match_one(TokenType::Comma);
        }
        self.consume(&TokenType::RightParen, "Expect ')' after parameters.")?;

        let mut expect_brace = "Expect '{' before ".to_owned();
        expect_brace.append(kind);
        expect_brace.append(" body.");
        self.consume(&TokenType::LeftBrace, expect_brace.as_str())?;
        let outer = self.inside;
        self.inside = true;
        let body = self.block();
        self.inside = outer;
        let body = body?;
        Ok(Stmt::Function { name, params: Rc::new(params), body: Rc::new(body) })
    }

    /// The declarations of a block and its closing brace.
    #[verifier::loop_isolation(false)]
    fn block(&mut self) -> (r: Result<Vec<Stmt>, ParseError>)
        requires
            old(self).ready(),
        ensures
            final(self).gives(
                old(self),
                grammar::block(
                    old(self).tokens(),
                    old(self).position(),
                    old(self).errors(),
                    old(self).inside,
                ),
            ),
            match r {
                Ok(stmts) => grammar::block(
                    old(self).tokens(),
                    old(self).position(),
                    old(self).errors(),
                    old(self).inside,
                ).value == Some(stmts_view(stmts@)),
                Err(_) => grammar::block(
                    old(self).tokens(),
                    old(self).position(),
                    old(self).errors(),
                    old(self).inside,
                ).value is None,
            },
        decreases old(self).tokens.len() - old(self).current, 162int,
    {
        let ghost ts = self.tokens();
        let ghost goal = grammar::block(ts, self.position(), self.errors(), self.inside);
        let mut stmts: Vec<Stmt> = Vec::new();
        assert(stmts_view(stmts@) =~= Seq::empty());
        while !self.check(&TokenType::RightBrace) && !self.is_at_end()
            invariant
                self.ready(),
                self.tokens == old(self).tokens,
                self.inside == old(self).inside,
                self.current >= old(self).current,
                goal == grammar::block_rest(
                    ts,
                    self.position(),
                    self.errors(),
                    self.inside,
                    stmts_view(stmts@),
                ),
            decreases self.tokens.len() - self.current,
        {
            proof {
                lemma_declaration(ts, self.position(), self.errors(), self.inside);
            }
            match self.declaration() {
                Some(s) => {
                    assert(stmts@.push(s).drop_last() =~= stmts@);
                    stmts.push(s);
                },
                None => {},
            }
        }
        self.consume(&TokenType::RightBrace, "Expect '}' after block.")?;
        Ok(stmts)
    }

    /// A declaration, or nothing where it was malformed: then the tokens up
    /// to the next place where a statement may begin are given up.
    fn declaration(&mut self) -> (r: Option<Stmt>)
        requires
            old(self).ready(),
        ensures
            final(self).gives(
                old(self),
                grammar::declaration(
                    old(self).tokens(),
                    old(self).position(),
                    old(self).errors(),
                    old(self).inside,
                ),
            ),
            match r {
                Some(s) => grammar::declaration(
                    old(self).tokens(),
                    old(self).position(),
                    old(self).errors(),
                    old(self).inside,
                ).value == Some(s@),
                None => grammar::declaration(
                    old(self).tokens(),
                    old(self).position(),
                    old(self).errors(),
                    old(self).inside,
                ).value is None,
            },
        decreases old(self).tokens.len() - old(self).current, 160int,
    {
        match self.declaration_helper() {
            Ok(n) => Some(n),
            Err(_) => {
                self.synchronize();
                None
            },
        }
    }

    fn declaration_helper(&mut self) -> (r: Result<Stmt, ParseError>)
        requires
            old(self).ready(),
        ensures
            final(self).gives(
                old(self),
                grammar::declaration_helper(
                    old(self).tokens(),
                    old(self).position(),
                    old(self).errors(),
                    old(self).inside,
                ),
            ),
            accords(
                r,
                grammar::declaration_helper(
                    old(self).tokens(),
                    old(self).position(),
                    old(self).errors(),
                    old(self).inside,
                ).value,
            ),
        decreases old(self).tokens.len() - old(self).current, 159int,
    {
        if self.match_one(TokenType::Fun) {
            return self.function("function");
        }
        if self.match_one(TokenType::Var) {
            return self.var_decl();
        }
        self.statement()
    }

    fn var_decl(&mut self) -> (r: Result<Stmt, ParseError>)
        requires
            old(self).ready(),
        ensures
            final(self).gives(
                old(self),
                grammar::var_decl(old(self).tokens(), old(self).position(), old(self).errors()),
            ),
            accords(
                r,
                grammar::var_decl(
                    old(self).tokens(),
                    old(self).position(),
                    old(self).errors(),
                ).value,
            ),
        decreases old(self).tokens.len() - old(self).current, 157int,
    {
        let name = self.consume(&TokenType::Identifier, "Expect variable name.")?;

        let initializer = if self.match_one(TokenType::Equal) {
            Some(Rc::new(self.expression_inner()?))
        } else {
            None
        };

        let _ = self.consume(&TokenType::Semicolon, "Expect ';' after variable declaration.");
        Ok(Stmt::Var { name, initializer })
    }

    /// Parses an expression.
    pub fn expression(&mut self) -> (r: Result<Expr, ParseError>)
        requires
            old(self).wf(),
        ensures
            final(self).wf(),
            final(self).tokens() == old(self).tokens(),
            final(self).position() == grammar::expression(
                old(self).tokens(),
                old(self).position(),
                old(self).errors(),
            ).pos,
            final(self).errors() == grammar::expression(
                old(self).tokens(),
                old(self).position(),
                old(self).errors(),
            ).errors,
            agrees(
                r,
                grammar::expression(
                    old(self).tokens(),
                    old(self).position(),
                    old(self).errors(),
                ).value,
            ),
    {
        self.expression_inner()
    }

    fn expression_inner(&mut self) -> (r: Result<Expr, ParseError>)
        requires
            old(self).ready(),
        ensures
            final(self).gives(
                old(self),
                grammar::expression(old(self).tokens(), old(self).position(), old(self).errors()),
            ),
            agrees(
                r,
                grammar::expression(
                    old(self).tokens(),
                    old(self).position(),
                    old(self).errors(),
                ).value,
            ),
        decreases old(self).tokens.len() - old(self).current, 111int,
    {
        self.assignment()
    }

    fn assignment(&mut self) -> (r: Result<Expr, ParseError>)
        requires
            old(self).ready(),
        ensures
            final(self).gives(
                old(self),
                grammar::assignment(old(self).tokens(), old(self).position(), old(self).errors()),
            ),
            agrees(
                r,
                grammar::assignment(
                    old(self).tokens(),
                    old(self).position(),
                    old(self).errors(),
                ).value,
            ),
        decreases old(self).tokens.len() - old(self).current, 110int,
    {
        let expr = self.or()?;

        if self.match_one(TokenType::Equal) {
            let equals = self.previous();
            let value = self.assignment()?;

            match expr {
                Expr::Variable(token) => {
                    return Ok(Expr::Assign { name: token, value: Rc::new(value) });
                },
                _ => {
                    return Err(self.error(&equals, "Invalid assignment target."));
                },
            }
        }
        Ok(expr)
    }

    fn or(&mut self) -> (r: Result<Expr, ParseError>)
        requires
            old(self).ready(),
        ensures
            final(self).gives(
                old(self),
                grammar::binary(0, old(self).tokens(), old(self).position(), old(self).errors()),
            ),
            agrees(
                r,
                grammar::binary(
                    0,
                    old(self).tokens(),
                    old(self).position(),
                    old(self).errors(),
                ).value,
            ),
        decreases old(self).tokens.len() - old(self).current, 100int,
    {
        self.binary(0)
    }

    fn and(&mut self) -> (r: Result<Expr, ParseError>)
        requires
            old(self).ready(),
        ensures
            final(self).gives(
                old(self),
                grammar::binary(1, old(self).tokens(), old(self).position(), old(self).errors()),
            ),
            agrees(
                r,
                grammar::binary(
                    1,
                    old(self).tokens(),
                    old(self).position(),
                    old(self).errors(),
                ).value,
            ),
        decreases old(self).tokens.len() - old(self).current, 96int,
    {
        self.binary(1)
    }

    fn equality(&mut self) -> (r: Result<Expr, ParseError>)
        requires
            old(self).ready(),
        ensures
            final(self).gives(
                old(self),
                grammar::binary(2, old(self).tokens(), old(self).position(), old(self).errors()),
            ),
            agrees(
                r,
                grammar::binary(
                    2,
                    old(self).tokens(),
                    old(self).position(),
                    old(self).errors(),
                ).value,
            ),
        decreases old(self).tokens.len() - old(self).current, 92int,
    {
        self.binary(2)
    }

    fn comparison(&mut self) -> (r: Result<Expr, ParseError>)
        requires
            old(self).ready(),
        ensures
            final(self).gives(
                old(self),
                grammar::binary(3, old(self).tokens(), old(self).position(), old(self).errors()),
            ),
            agrees(
                r,
                grammar::binary(
                    3,
                    old(self).tokens(),
                    old(self).position(),
                    old(self).errors(),
                ).value,
            ),
        decreases old(self).tokens.len() - old(self).current, 88int,
    {
        self.binary(3)
    }

    fn term(&mut self) -> (r: Result<Expr, ParseError>)
        requires
            old(self).ready(),
        ensures
            final(self).gives(
                old(self),
                grammar::binary(4, old(self).tokens(), old(self).position(), old(self).errors()),
            ),
            agrees(
                r,
                grammar::binary(
                    4,
                    old(self).tokens(),
                    old(self).position(),
                    old(self).errors(),
                ).value,
            ),
        decreases old(self).tokens.len() - old(self).current, 84int,
    {
        self.binary(4)
    }

    fn factor(&mut self) -> (r: Result<Expr, ParseError>)
        requires
            old(self).ready(),
        ensures
            final(self).gives(
                old(self),
                grammar::binary(5, old(self).tokens(), old(self).position(), old(self).errors()),
            ),
            agrees(
                r,
                grammar::binary(
                    5,
                    old(self).tokens(),
                    old(self).position(),
                    old(self).errors(),
                ).value,
            ),
        decreases old(self).tokens.len() - old(self).current, 80int,
    {
        self.binary(5)
    }

    /// The operand of an operator of level `level`.
    fn operand(&mut self, level: u8) -> (r: Result<Expr, ParseError>)
        requires
            old(self).ready(),
            level <= 5,
        ensures
            final(self).gives(
                old(self),
                grammar::binary(
                    level as nat + 1,
                    old(self).tokens(),
                    old(self).position(),
                    old(self).errors(),
                ),
            ),
            agrees(
                r,
                grammar::binary(
                    level as nat + 1,
                    old(self).tokens(),
                    old(self).position(),
                    old(self).errors(),
                ).value,
            ),
        decreases old(self).tokens.len() - old(self).current, 98 - 4 * level,
    {
        if level == 0 {
            self.and()
        } else if level == 1 {
            self.equality()
        } else if level == 2 {
            self.comparison()
        } else if level == 3 {
            self.term()
        } else if level == 4 {
            self.factor()
        } else {
            self.unary()
        }
    }

    /// Whether the next token is an operator of level `level`.
    fn operator(&self, level: u8) -> (r: bool)
        requires
            self.ready(),
            level <= 5,
        ensures
            r == (!grammar::at_end(self.tokens(), self.position()) && grammar::operator(
                level as nat,
                self.tokens()[self.position()].type_,
            )),
    {
        if self.is_at_end() {
            return false;
        }
        let t = self.peek().type_;
        if level == 0 {
            t == TokenType::Or
        } else if level == 1 {
            t == TokenType::And
        } else if level == 2 {
            t == TokenType::BangEqual || t == TokenType::EqualEqual
        } else if level == 3 {
            t == TokenType::Greater || t == TokenType::GreaterEqual || t == TokenType::Less || t
                == TokenType::LessEqual
        } else if level == 4 {
            t == TokenType::Minus || t == TokenType::Plus
        } else {
            t == TokenType::Slash || t == TokenType::Star
        }
    }

    /// Operands joined by operators of level `level`, grouped to the left.
    #[verifier::loop_isolation(false)]
    fn binary(&mut self, level: u8) -> (r: Result<Expr, ParseError>)
        requires
            old(self).ready(),
            level <= 5,
        ensures
            final(self).gives(
                old(self),
                grammar::binary(
                    level as nat,
                    old(self).tokens(),
                    old(self).position(),
                    old(self).errors(),
                ),
            ),
            agrees(
                r,
                grammar::binary(
                    level as nat,
                    old(self).tokens(),
                    old(self).position(),
                    old(self).errors(),
                ).value,
            ),
        decreases old(self).tokens.len() - old(self).current, 99 - 4 * level,
    {
        let ghost ts = self.tokens();
        let ghost goal = grammar::binary(level as nat, ts, self.position(), self.errors());
        let mut expr = self.operand(level)?;
        while self.operator(level)
            invariant
                level <= 5,
                self.ready(),
                self.tokens == old(self).tokens,
                self.inside == old(self).inside,
                self.current >= old(self).current,
                ts == self.tokens(),
                goal == grammar::binary_rest(
                    level as nat,
                    ts,
                    self.position(),
                    self.errors(),
                    expr@,
                ),
            decreases self.tokens.len() - self.current,
        {
            let op = self.advance();
            let right = self.operand(level)?;
            expr = if level < 2 {
                Expr::Logical { left: Rc::new(expr), op, right: Rc::new(right) }
            } else {
                Expr::Binary { left: Rc::new(expr), op, right: Rc::new(right) }
            };
        }
        Ok(expr)
    }

    fn unary(&mut self) -> (r: Result<Expr, ParseError>)
        requires
            old(self).ready(),
        ensures
            final(self).gives(
                old(self),
                grammar::unary(old(self).tokens(), old(self).position(), old(self).errors()),
            ),
            agrees(
                r,
                grammar::unary(old(self).tokens(), old(self).position(), old(self).errors()).value,
            ),
        decreases old(self).tokens.len() - old(self).current, 10int,
    {
        if self.match_(&[TokenType::Bang, TokenType::Minus]) {
            let operator = self.previous();
            let right = self.unary()?;
            return Ok(Expr::Unary { op: operator, right: Rc::new(right) });
        }
        self.call()
    }

    /// The arguments of a call and its closing parenthesis.
    #[verifier::loop_isolation(false)]
    fn finish_call(&mut self, callee: Expr) -> (r: Result<Expr, ParseError>)
        requires
            old(self).ready(),
        ensures
            final(self).gives(
                old(self),
                grammar::finish_call(
                    old(self).tokens(),
                    old(self).position(),
                    old(self).errors(),
                    callee@,
                ),
            ),
            agrees(
                r,
                grammar::finish_call(
                    old(self).tokens(),
                    old(self).position(),
                    old(self).errors(),
                    callee@,
                ).value,
            ),
        decreases old(self).tokens.len() - old(self).current, 120int,
    {
        let ghost ts = self.tokens();
        let ghost list = if grammar::check(ts, self.position(), TokenType::RightParen) {
            grammar::ok(Seq::<ExprView>::empty(), self.position(), self.errors())
        } else {
            grammar::arguments(ts, self.position(), self.errors(), Seq::empty())
        };
        let mut arguments: Vec<Expr> = Vec::new();
        assert(exprs_view(arguments@) =~= Seq::empty());
        let mut more = !self.check(&TokenType::RightParen);
        while more
            invariant
                self.ready(),
                self.tokens == old(self).tokens,
                self.inside == old(self).inside,
                self.current >= old(self).current,
                more ==> list == grammar::arguments(
                    ts,
                    self.position(),
                    self.errors(),
                    exprs_view(arguments@),
                ),
                !more ==> list == (Parsed {
                    value: Some(exprs_view(arguments@)),
                    pos: self.position(),
                    errors: self.errors(),
                }),
            decreases self.tokens.len() - self.current, (if more {
                1int
            } else {
                0int
            }),
        {
            proof {
                lemma_exprs_view(arguments@);
            }
            if arguments.len() >= 255 {
                let at = self.peek().clone();
                self.error(&at, "Can't have more than 255 arguments.");
            }
            let one = self.expression_inner()?;
            assert(arguments@.push(one).drop_last() =~= arguments@);
            arguments.push(one);
            more = self.match_one(TokenType::Comma);
        }
        let paren = self.consume(&TokenType::RightParen, "Expect ')' after arguments.")?;
        Ok(Expr::Call { callee: Rc::new(callee), paren, arguments: Rc::new(arguments) })
    }

    #[verifier::loop_isolation(false)]
    fn call(&mut self) -> (r: Result<Expr, ParseError>)
        requires
            old(self).ready(),
        ensures
            final(self).gives(
                old(self),
                grammar::call(old(self).tokens(), old(self).position(), old(self).errors()),
            ),
            agrees(
                r,
                grammar::call(old(self).tokens(), old(self).position(), old(self).errors()).value,
            ),
        decreases old(self).tokens.len() - old(self).current, 9int,
    {
        let ghost ts = self.tokens();
        let ghost goal = grammar::call(ts, self.position(), self.errors());
        let mut expr = self.primary()?;
        let mut more = true;
        while more
            invariant
                self.ready(),
                self.tokens == old(self).tokens,
                self.inside == old(self).inside,
                self.current >= old(self).current,
                more ==> goal == grammar::call_rest(ts, self.position(), self.errors(), expr@),
                !more ==> goal == (Parsed {
                    value: Some(expr@),
                    pos: self.position(),
                    errors: self.errors(),
                }),
            decreases self.tokens.len() - self.current, (if more {
                1int
            } else {
                0int
            }),
        {
            if self.match_one(TokenType::LeftParen) {
                expr = self.finish_call(expr)?;
            } else {
                more = false;
            }
        }
        Ok(expr)
    }

    fn primary(&mut self) -> (r: Result<Expr, ParseError>)
        requires
            old(self).ready(),
        ensures
            final(self).gives(
                old(self),
                grammar::primary(old(self).tokens(), old(self).position(), old(self).errors()),
            ),
            agrees(
                r,
                grammar::primary(
                    old(self).tokens(),
                    old(self).position(),
                    old(self).errors(),
                ).value,
            ),
        decreases old(self).tokens.len() - old(self).current, 8int,
    {
        if self.match_one(TokenType::False) {
            return Ok(Expr::Literal(Literal::Bool(false)));
        }
        if self.match_one(TokenType::True) {
            return Ok(Expr::Literal(Literal::Bool(true)));
        }
        if self.match_one(TokenType::Nil) {
            return Ok(Expr::Literal(Literal::Nil));
        }
        if self.match_(&[TokenType::Number, TokenType::String]) {
            return Ok(Expr::Literal(self.previous().literal));
        }
        if self.match_one(TokenType::Identifier) {
            return Ok(Expr::Variable(self.previous()));
        }
        if self.match_one(TokenType::LeftParen) {
            let expr = self.expression_inner()?;
            let _ = self.consume(&TokenType::RightParen, "Expect ')' after expression.");
            return Ok(Expr::Grouping { expression: Rc::new(expr) });
        }
        let at = self.peek().clone();
        Err(self.error(&at, "Expect expression."))
    }

    /// Takes the next token if it is of kind `t`; else reports `message`.
    fn consume(&mut self, t: &TokenType, message: &str) -> (r: Result<Token, ParseError>)
        requires
            old(self).ready(),
        ensures
            final(self).gives(
                old(self),
                grammar::consume(
                    old(self).tokens(),
                    old(self).position(),
                    old(self).errors(),
                    *t,
                    message@,
                ),
            ),
            match r {
                Ok(token) => grammar::consume(
                    old(self).tokens(),
                    old(self).position(),
                    old(self).errors(),
                    *t,
                    message@,
                ).value == Some(token@),
                Err(_) => grammar::consume(
                    old(self).tokens(),
                    old(self).position(),
                    old(self).errors(),
                    *t,
                    message@,
                ).value is None,
            },
    {
        if self.check(t) {
            return Ok(self.advance());
        }
        let at = self.peek().clone();
        Err(self.error(&at, message))
    }

    /// Reports a syntax error at `token`.
    fn error(&mut self, token: &Token, message: &str) -> (e: ParseError)
        ensures
            final(self).tokens == old(self).tokens,
            final(self).inside == old(self).inside,
            final(self).current == old(self).current,
            final(self).errors() == old(self).errors().push(syntax_error(token@, message@)),
    {
        let ghost before = self.errors();
        self.errors.push(Lox::token_error(token, message));
        assert(self.errors() =~= before.push(syntax_error(token@, message@)));
        ParseError
    }

    /// Gives up the next token and those after it, up to the next place
    /// where a statement may begin.
    fn synchronize(&mut self)
        requires
            old(self).ready(),
        ensures
            final(self).ready(),
            final(self).tokens == old(self).tokens,
            final(self).inside == old(self).inside,
            final(self).errors == old(self).errors,
            final(self).current >= old(self).current,
            final(self).current == grammar::synchronize(old(self).tokens(), old(self).position()),
    {
        self.advance();

        while !self.is_at_end()
            invariant
                self.ready(),
                self.tokens == old(self).tokens,
                self.inside == old(self).inside,
                self.errors == old(self).errors,
                self.current >= old(self).current,
                grammar::boundary(self.tokens(), self.position()) == grammar::synchronize(
                    old(self).tokens(),
                    old(self).position(),
                ),
            decreases self.tokens.len() - self.current,
        {
            if self.current >= 1 && self.previous().type_ == TokenType::Semicolon {
                return ;
            }
            let t = self.peek().type_;
            if t == TokenType::Class || t == TokenType::Fun || t == TokenType::Var || t
                == TokenType::For || t == TokenType::If || t == TokenType::While || t
                == TokenType::Print || t == TokenType::Return {
                return ;
            }
            self.advance();
        }
    }

    /// Takes the next token if it is of kind `t`.
    fn match_one(&mut self, t: TokenType) -> (r: bool)
        requires
            old(self).ready(),
        ensures
            final(self).ready(),
            final(self).tokens == old(self).tokens,
            final(self).inside == old(self).inside,
            final(self).errors == old(self).errors,
            r == grammar::check(old(self).tokens(), old(self).position(), t),
            final(self).current == if r {
                old(self).current + 1
            } else {
                old(self).current as int
            },
    {
        if self.check(&t) {
            self.advance();
            return true;
        }
        false
    }

    /// Takes the next token if its kind is one of `types`.
    fn match_(&mut self, types: &[TokenType]) -> (r: bool)
        requires
            old(self).ready(),
        ensures
            final(self).ready(),
            final(self).tokens == old(self).tokens,
            final(self).inside == old(self).inside,
            final(self).errors == old(self).errors,
            r == exists|i: int|
                0 <= i < types@.len() && grammar::check(
                    old(self).tokens(),
                    old(self).position(),
                    #[trigger] types@[i],
                ),
            final(self).current == if r {
                old(self).current + 1
            } else {
                old(self).current as int
            },
    {
        let mut i: usize = 0;
        while i < types.len()
            invariant
                i <= types.len(),
                self.ready(),
                *self == *old(self),
                forall|j: int|
                    0 <= j < i ==> !grammar::check(
                        self.tokens(),
                        self.position(),
                        #[trigger] types@[j],
                    ),
            decreases types.len() - i,
        {
            if self.check(&types[i]) {
                self.advance();
                return true;
            }
            i += 1;
        }
        false
    }

    /// Takes the next token, unless it marks the end, and returns the token
    /// now behind.
    fn advance(&mut self) -> (t: Token)
        requires
            old(self).ready(),
        ensures
            final(self).ready(),
            final(self).tokens == old(self).tokens,
            final(self).inside == old(self).inside,
            final(self).errors == old(self).errors,
            final(self).current == if grammar::at_end(old(self).tokens(), old(self).position()) {
                old(self).current as int
            } else {
                old(self).current + 1
            },
            !grammar::at_end(old(self).tokens(), old(self).position()) ==> t@ == old(
                self,
            ).tokens()[old(self).position()],
    {
        if !self.is_at_end() {
            self.current += 1;
            self.tokens[self.current - 1].clone()
        } else {
            self.tokens[self.current].clone()
        }
    }

    fn check(&self, t: &TokenType) -> (r: bool)
        requires
            self.ready(),
        ensures
            r == grammar::check(self.tokens(), self.position(), *t),
    {
        if self.is_at_end() {
            return false;
        }
        self.peek().type_ == *t
    }

    fn is_at_end(&self) -> (r: bool)
        requires
            self.ready(),
        ensures
            r == grammar::at_end(self.tokens(), self.position()),
    {
        self.peek().type_ == TokenType::Eof
    }

    fn peek(&self) -> (t: &Token)
        requires
            self.ready(),
        ensures
            t@ == self.tokens()[self.position()],
            *t == self.tokens[self.current as int],
    {
        &self.tokens[self.current]
    }

    /// The token before the next one, which is not the first.
    fn previous(&self) -> (t: Token)
        requires
            self.ready(),
            self.current >= 1,
        ensures
            t@ == self.tokens()[self.position() - 1],
    {
        self.tokens[self.current - 1].clone()
    }
}

} // verus!
