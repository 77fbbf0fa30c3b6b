//! The parser: a token sequence to statements, or to one expression.

pub mod completeness;
pub mod error;
pub mod expr;
pub mod grammar;
pub mod soundness;
pub mod stmt;
pub mod syntax;

pub use crate::parser::error::{ParseError, ParseResult};
pub use crate::parser::expr::{
    Assign, Binary, BinaryOp, Expr, Grouping, Literal, LiteralType, Unary, UnaryOp, Variable,
};

use vstd::prelude::*;
use crate::lexer::keywords::Keyword;
use crate::lexer::token::{Token, TokenType, TokenTypeView, TokenView};
use crate::parser::error::ParseErrorView;
use crate::parser::expr::ExprView;
use crate::parser::grammar::{
    assignment, binary, binary_rest, block_rest, declaration, expression, expression_statement,
    has_next, is_stream, lemma_block_rest_closes, lemma_block_rest_continues,
    lemma_block_rest_skips_trivia, lemma_primary_skips_trivia, lemma_statement_skips_trivia,
    lemma_upcoming, lemma_upcoming_monotonic, next_is, operand, outcome, parsed, prefix_operator,
    primary, print_statement, program, program_rest, statement, synchronize, synchronize_rest,
    token_views, unary, upcoming, var_declaration, within, Level, Parsed,
};
use crate::parser::soundness::lemma_parser_decides_syntax;
use crate::parser::stmt::{
    lemma_block_view, stmt_views, Block, Expression, Print, Stmt, StmtView, Var,
};
use crate::parser::syntax::writes_program;

verus! {

/// Parses a token sequence by recursive descent.
pub struct Parser<'a> {
    tokens: &'a [Token],
    current: usize,
}

/// The outcome of parsing an expression, with text as character sequences.
pub open spec fn expr_outcome(r: ParseResult<Expr>) -> Result<ExprView, ParseErrorView> {
    match r {
        Ok(expr) => Ok(expr@),
        Err(error) => Err(error@),
    }
}

/// The outcome of parsing a statement, with text as character sequences.
pub open spec fn stmt_outcome(r: ParseResult<Stmt>) -> Result<StmtView, ParseErrorView> {
    match r {
        Ok(stmt) => Ok(stmt@),
        Err(error) => Err(error@),
    }
}

/// The outcome of parsing statements, with text as character sequences.
pub open spec fn stmts_outcome(r: ParseResult<Vec<Stmt>>) -> Result<Seq<StmtView>, ParseErrorView> {
    match r {
        Ok(stmts) => Ok(stmt_views(stmts@)),
        Err(error) => Err(error@),
    }
}

/// The outcome of requiring a token, with text as character sequences.
pub open spec fn unit_outcome(r: ParseResult<()>) -> Result<(), ParseErrorView> {
    match r {
        Ok(()) => Ok(()),
        Err(error) => Err(error@),
    }
}

/// The first error of a parse, with text as character sequences.
pub open spec fn error_view(error: Option<ParseError>) -> Option<ParseErrorView> {
    match error {
        Some(error) => Some(error@),
        None => None,
    }
}

impl<'a> Parser<'a> {
    #[verifier::type_invariant]
    spec fn well_formed(&self) -> bool {
        is_stream(token_views(self.tokens@)) && self.current < self.tokens.len()
    }

    /// The tokens being parsed, with their text as character sequences.
    pub closed spec fn tokens(&self) -> Seq<TokenView> {
        token_views(self.tokens@)
    }

    /// The position at which the parser stands.
    pub closed spec fn position(&self) -> int {
        self.current as int
    }

    /// The parser stands at `parsed.pos`, no earlier than `before` did, on
    /// the same tokens, and `outcome` is the outcome of `parsed`.
    spec fn gives<T>(
        &self,
        before: &Parser<'a>,
        outcome: Result<T, ParseErrorView>,
        parsed: Parsed<T>,
    ) -> bool {
        &&& self.tokens == before.tokens
        &&& before.current <= self.current
        &&& parsed == (Parsed { result: outcome, pos: self.current as int })
    }

    /// A parser at the start of `tokens`, which must end with the end marker.
    pub fn new(tokens: &'a [Token]) -> (parser: Parser<'a>)
        requires
            is_stream(token_views(tokens@)),
        ensures
            parser.tokens() == token_views(tokens@),
            parser.position() == 0,
    {
        Parser { tokens, current: 0 }
    }

    fn skip_whitespace(&mut self)
        ensures
            final(self).tokens == old(self).tokens,
            final(self).current == upcoming(old(self).tokens(), old(self).current as int),
    {
        proof {
            use_type_invariant(&*self);
        }
        let ghost toks = self.tokens();
        let ghost start = self.current as int;
        loop
            invariant
                self.tokens() == toks,
                self.tokens == old(self).tokens,
                is_stream(toks),
                start <= self.current < toks.len(),
                upcoming(toks, self.current as int) == upcoming(toks, start),
            ensures
                self.tokens == old(self).tokens,
                self.current == upcoming(toks, start),
            decreases toks.len() - self.current,
        {
            proof {
                use_type_invariant(&*self);
                lemma_upcoming(toks, self.current as int);
            }
            if !self.matching_whitespace() {
                break ;
            }
            self.current += 1;
        }
    }

    /// Whether the parser stands at a trivia token.
    fn matching_whitespace(&self) -> (r: bool)
        ensures
            r == self.tokens()[self.current as int].token_type.is_trivia(),
    {
        proof {
            use_type_invariant(self);
        }
        self.tokens[self.current].token_type.is_trivia()
    }

    /// Drops tokens up to the next statement boundary: one in any case,
    /// then until the last one dropped was a `;`, a keyword that starts a
    /// statement comes up, or the input ends.
    fn synchronize(&mut self)
        ensures
            final(self).tokens == old(self).tokens,
            final(self).current == synchronize(old(self).tokens(), old(self).current as int),
            upcoming(old(self).tokens(), old(self).current as int) <= final(self).current,
            has_next(old(self).tokens(), old(self).current as int) ==> upcoming(
                old(self).tokens(),
                old(self).current as int,
            ) < final(self).current,
    {
        reveal(synchronize_rest);
        let ghost toks = self.tokens();
        let ghost start = self.current as int;
        proof {
            use_type_invariant(&*self);
            lemma_upcoming(toks, start);
        }
        if self.is_at_end() {
            return ;
        }
        proof {
            lemma_upcoming(toks, self.current as int);
        }
        let mut last = self.advance();
        proof {
            use_type_invariant(&*self);
        }

        loop
            invariant
                self.tokens == old(self).tokens,
                toks == old(self).tokens(),
                start == old(self).current,
                is_stream(toks),
                upcoming(toks, start) < self.current < toks.len(),
                synchronize(toks, start) == synchronize_rest(toks, self.current as int, last@),
            ensures
                self.tokens == old(self).tokens,
                upcoming(toks, start) < self.current,
                self.current == synchronize(toks, start),
            decreases toks.len() - self.current,
        {
            let ghost at = self.current as int;
            reveal(synchronize_rest);
            proof {
                lemma_upcoming(toks, at);
                lemma_upcoming(toks, upcoming(toks, at));
            }
            if self.is_at_end() {
                break ;
            }
            if last.token_type == TokenType::Semicolon {
                break ;
            }
            match self.peek().token_type {
                TokenType::Keyword(Keyword::Class)
                | TokenType::Keyword(Keyword::Fun)
                | TokenType::Keyword(Keyword::Var)
                | TokenType::Keyword(Keyword::For)
                | TokenType::Keyword(Keyword::If)
                | TokenType::Keyword(Keyword::While)
                | TokenType::Keyword(Keyword::Print)
                | TokenType::Keyword(Keyword::Return) => {
                    break ;
                },
                _ => {},
            }

            last = self.advance();
            proof {
                use_type_invariant(&*self);
            }
        }
    }

    fn advance(&mut self) -> (token: &'a Token)
        requires
            old(self).current > 0 || has_next(old(self).tokens(), old(self).current as int),
        ensures
            final(self).tokens == old(self).tokens,
            final(self).current == upcoming(old(self).tokens(), old(self).current as int) + if has_next(
                old(self).tokens(),
                old(self).current as int,
            ) {
                1int
            } else {
                0int
            },
            final(self).current > 0,
            token@ == old(self).tokens()[final(self).current - 1],
    {
        proof {
            use_type_invariant(&*self);
            lemma_upcoming(self.tokens(), self.current as int);
        }
        self.skip_whitespace();
        if !self.is_at_end() {
            self.current += 1
        }
        self.previous()
    }

    fn previous(&self) -> (token: &'a Token)
        requires
            self.current > 0,
        ensures
            token@ == self.tokens()[self.current - 1],
    {
        proof {
            use_type_invariant(self);
        }
        &self.tokens[self.current - 1]
    }

    fn consume(&mut self, token_type: &TokenType, message: &str) -> (r: ParseResult<()>)
        ensures
            final(self).gives(
                old(self),
                unit_outcome(r),
                crate::parser::grammar::consume(
                    old(self).tokens(),
                    old(self).current as int,
                    token_type@,
                    message@,
                ),
            ),
    {
        proof {
            use_type_invariant(&*self);
            lemma_upcoming(self.tokens(), self.current as int);
        }
        self.skip_whitespace();
        if self.is_at_end() {
            return Err(ParseError::new(self.peek().clone(), "Unexpected end of input."));
        }
        if self.check(token_type) {
            self.advance();
            Ok(())
        } else {
            Err(ParseError::new(self.peek().clone(), message))
        }
    }

    fn matched(&mut self, token_types: &[TokenType]) -> (r: bool)
        ensures
            final(self).tokens == old(self).tokens,
            r == exists|i: int|
                0 <= i < token_types.len() && next_is(
                    old(self).tokens(),
                    old(self).current as int,
                    #[trigger] token_types[i]@,
                ),
            final(self).current == upcoming(old(self).tokens(), old(self).current as int) + if r {
                1int
            } else {
                0int
            },
    {
        proof {
            use_type_invariant(&*self);
            lemma_upcoming(self.tokens(), self.current as int);
        }
        let ghost toks = self.tokens();
        let ghost start = self.current as int;
        self.skip_whitespace();
        let mut i: usize = 0;
        while i < token_types.len()
            invariant
                i <= token_types.len(),
                self.tokens == old(self).tokens,
                self.tokens() == toks,
                toks == old(self).tokens(),
                start == old(self).current,
                is_stream(toks),
                0 <= start < toks.len(),
                self.current == upcoming(toks, start),
                forall|j: int| 0 <= j < i ==> !next_is(toks, start, #[trigger] token_types[j]@),
            decreases token_types.len() - i,
        {
            if self.check(&token_types[i]) {
                proof {
                    lemma_upcoming(toks, start);
                    assert(next_is(toks, start, token_types[i as int]@));
                    assert(has_next(toks, self.current as int));
                }
                self.advance();
                return true;
            }
            proof {
                lemma_upcoming(toks, start);
            }
            i += 1;
        }
        false
    }

    fn check(&mut self, token_type: &TokenType) -> (r: bool)
        ensures
            final(self).tokens == old(self).tokens,
            final(self).current == upcoming(old(self).tokens(), old(self).current as int),
            r == next_is(old(self).tokens(), old(self).current as int, token_type@),
    {
        proof {
            use_type_invariant(&*self);
            lemma_upcoming(self.tokens(), self.current as int);
        }
        self.skip_whitespace();
        if self.is_at_end() {
            false
        } else {
            self.peek().token_type == *token_type
        }
    }

    fn peek(&mut self) -> (token: &'a Token)
        ensures
            final(self).tokens == old(self).tokens,
            final(self).current == upcoming(old(self).tokens(), old(self).current as int),
            token@ == old(self).tokens()[final(self).current as int],
    {
        self.skip_whitespace();
        proof {
            use_type_invariant(&*self);
        }
        &self.tokens[self.current]
    }

    fn is_at_end(&mut self) -> (r: bool)
        ensures
            final(self).tokens == old(self).tokens,
            final(self).current == upcoming(old(self).tokens(), old(self).current as int),
            r == !has_next(old(self).tokens(), old(self).current as int),
    {
        proof {
            use_type_invariant(&*self);
            lemma_upcoming(self.tokens(), self.current as int);
        }
        match self.peek().token_type {
            TokenType::Eof => true,
            _ => false,
        }
    }

    /// As `gives`, for a statement: a statement that was parsed took at
    /// least one token.
    spec fn gives_stmt<T>(
        &self,
        before: &Parser<'a>,
        outcome: Result<T, ParseErrorView>,
        parsed: Parsed<T>,
    ) -> bool {
        &&& self.gives(before, outcome, parsed)
        &&& outcome is Ok ==> upcoming(before.tokens(), before.current as int) < self.current
    }

    /// Parses a program: declarations up to the end of input.  After an
    /// error the parser drops tokens up to the next statement boundary and
    /// goes on; the outcome is then the first error.
    ///
    /// A new parser gives the statements `stmts` exactly if the tokens write
    /// the program `stmts`.
    pub fn parse(&mut self) -> (r: ParseResult<Vec<Stmt>>)
        ensures
            final(self).tokens() == old(self).tokens(),
            stmts_outcome(r) == program(old(self).tokens(), old(self).position()).result,
            final(self).position() == program(old(self).tokens(), old(self).position()).pos,
            old(self).position() == 0 ==> forall|stmts: Seq<StmtView>| #[trigger]
                writes_program(old(self).tokens(), stmts) <==> stmts_outcome(r) == Ok::<
                    Seq<StmtView>,
                    ParseErrorView,
                >(stmts),
    {
        reveal(program_rest);
        reveal(declaration);
        let mut stmts: Vec<Stmt> = Vec::new();
        let mut had_error: Option<ParseError> = None;
        let ghost toks = self.tokens();
        let ghost start = self.current as int;
        proof {
            use_type_invariant(&*self);
            assert(stmt_views(stmts@) =~= Seq::empty());
        }

        loop
            invariant
                self.tokens == old(self).tokens,
                toks == old(self).tokens(),
                start == old(self).current,
                is_stream(toks),
                0 <= self.current < toks.len(),
                program(toks, start) == program_rest(
                    toks,
                    self.current as int,
                    stmt_views(stmts@),
                    error_view(had_error),
                ),
            ensures
                self.tokens == old(self).tokens,
                program(toks, start) == (Parsed {
                    result: outcome(stmt_views(stmts@), error_view(had_error)),
                    pos: self.current as int,
                }),
            decreases toks.len() - self.current,
        {
            let ghost at = self.current as int;
            reveal(program_rest);
            reveal(declaration);
            proof {
                lemma_upcoming(toks, at);
            }
            self.skip_whitespace();
            if self.is_at_end() {
                break ;
            }
            let ghost p = self.current as int;
            let ghost before = stmt_views(stmts@);
            match self.declaration() {
                Ok(stmt) => {
                    stmts.push(stmt);
                    proof {
                        use_type_invariant(&*self);
                        assert(stmt_views(stmts@) =~= before.push(stmt@));
                    }
                },
                Err(err) => {
                    proof {
                        use_type_invariant(&*self);
                        lemma_upcoming(toks, self.current as int);
                    }
                    if had_error.is_none() {
                        had_error = Some(err);
                    }
                    self.synchronize();
                    proof {
                        use_type_invariant(&*self);
                    }
                },
            }
        }

        proof {
            if start == 0 {
                assert forall|written: Seq<StmtView>| #[trigger]
                    writes_program(toks, written) <==> program(toks, 0).result == Ok::<
                        Seq<StmtView>,
                        ParseErrorView,
                    >(written) by {
                    lemma_parser_decides_syntax(toks, written);
                }
            }
        }
        match had_error {
            Some(err) => Err(err),
            None => Ok(stmts),
        }
    }

    /// Parses one expression.
    pub fn parse_expr(&mut self) -> (r: ParseResult<Expr>)
        ensures
            final(self).tokens() == old(self).tokens(),
            expr_outcome(r) == expression(old(self).tokens(), old(self).position()).result,
            final(self).position() == expression(old(self).tokens(), old(self).position()).pos,
    {
        reveal(expression);
        self.expression()
    }

    fn declaration(&mut self) -> (r: ParseResult<Stmt>)
        ensures
            final(self).gives_stmt(
                old(self),
                stmt_outcome(r),
                declaration(old(self).tokens(), old(self).current as int),
            ),
        decreases old(self).tokens.len() - old(self).current, 15int,
    {
        reveal(declaration);
        reveal(var_declaration);
        reveal(statement);
        let ghost toks = self.tokens();
        let ghost start = self.current as int;
        proof {
            use_type_invariant(&*self);
            lemma_upcoming(toks, start);
            lemma_statement_skips_trivia(toks, start);
        }
        if self.matched(&[TokenType::Keyword(Keyword::Var)]) {
            proof {
                use_type_invariant(&*self);
                lemma_upcoming(toks, self.current as int);
                assert(next_is(toks, start, TokenTypeView::Keyword(Keyword::Var)));
            }
            let next = self.advance();
            return self.var_declaration(next);
        }
        assert(!next_is(toks, start, TokenTypeView::Keyword(Keyword::Var)));
        self.statement()
    }

    fn var_declaration(&mut self, name_token: &Token) -> (r: ParseResult<Stmt>)
        ensures
            final(self).gives_stmt(
                old(self),
                stmt_outcome(r),
                var_declaration(old(self).tokens(), name_token@, old(self).current as int),
            ),
        decreases old(self).tokens.len() - old(self).current, 12int,
    {
        reveal(var_declaration);
        reveal(expression);
        let ghost toks = self.tokens();
        let ghost start = self.current as int;
        proof {
            use_type_invariant(&*self);
            lemma_upcoming(toks, start);
        }
        let name = if let TokenType::Ident(ref name_str) = name_token.token_type {
            name_str.clone()
        } else {
            return Err(ParseError::new(name_token.clone(), "Expected an identifier."));
        };

        let mut initializer = None;

        if self.matched(&[TokenType::Equal]) {
            assert(next_is(toks, start, TokenTypeView::Equal));
            initializer = Some(self.expression()?);
        } else {
            assert(!next_is(toks, start, TokenTypeView::Equal));
        }
        proof {
            use_type_invariant(&*self);
            lemma_upcoming(toks, self.current as int);
        }

        self.consume(&TokenType::Semicolon, "Expect ';' after variable declaration.")?;

        Ok(Stmt::Var(Var::new(name, initializer)))
    }

    fn statement(&mut self) -> (r: ParseResult<Stmt>)
        ensures
            final(self).gives_stmt(
                old(self),
                stmt_outcome(r),
                statement(old(self).tokens(), old(self).current as int),
            ),
        decreases old(self).tokens.len() - old(self).current, 14int,
    {
        reveal(statement);
        reveal(print_statement);
        reveal(expression_statement);
        reveal(block_rest);
        let ghost toks = self.tokens();
        let ghost start = self.current as int;
        proof {
            use_type_invariant(&*self);
            lemma_upcoming(toks, start);
            lemma_statement_skips_trivia(toks, start);
        }
        self.skip_whitespace();

        if self.matched(&[TokenType::Keyword(Keyword::Print)]) {
            proof {
                use_type_invariant(&*self);
                assert(next_is(toks, start, TokenTypeView::Keyword(Keyword::Print)));
            }
            return self.print_statement();
        }
        assert(!next_is(toks, start, TokenTypeView::Keyword(Keyword::Print)));

        if self.matched(&[TokenType::LeftBrace]) {
            proof {
                use_type_invariant(&*self);
                assert(next_is(toks, start, TokenTypeView::LeftBrace));
            }
            let body = Block::new(self.block()?);
            proof {
                lemma_block_view(body);
            }
            return Ok(Stmt::Block(body));
        }
        assert(!next_is(toks, start, TokenTypeView::LeftBrace));

        self.expression_statement()
    }

    fn block(&mut self) -> (r: ParseResult<Vec<Stmt>>)
        ensures
            final(self).gives_stmt(
                old(self),
                stmts_outcome(r),
                block_rest(old(self).tokens(), old(self).current as int, Seq::empty()),
            ),
        decreases old(self).tokens.len() - old(self).current, 17int,
    {
        let mut statements: Vec<Stmt> = Vec::new();
        let ghost toks = self.tokens();
        let ghost start = self.current as int;
        proof {
            use_type_invariant(&*self);
            assert(stmt_views(statements@) =~= Seq::empty());
        }

        loop
            invariant
                self.tokens == old(self).tokens,
                toks == old(self).tokens(),
                start == old(self).current,
                is_stream(toks),
                0 <= start <= self.current < toks.len(),
                block_rest(toks, start, Seq::empty()) == block_rest(
                    toks,
                    self.current as int,
                    stmt_views(statements@),
                ),
            ensures
                self.tokens == old(self).tokens,
                is_stream(toks),
                0 <= start <= self.current < toks.len(),
                self.current == upcoming(toks, self.current as int),
                !has_next(toks, self.current as int) || toks[self.current as int].token_type
                    is RightBrace,
                block_rest(toks, start, Seq::empty()) == block_rest(
                    toks,
                    self.current as int,
                    stmt_views(statements@),
                ),
            decreases toks.len() - self.current,
        {
            let ghost at = self.current as int;
            reveal(declaration);
            let ghost before = stmt_views(statements@);
            proof {
                lemma_upcoming(toks, at);
                lemma_block_rest_skips_trivia(toks, at, before);
            }
            if self.check(&TokenType::RightBrace) {
                break ;
            }
            if self.is_at_end() {
                break ;
            }
            proof {
                use_type_invariant(&*self);
                lemma_block_rest_continues(toks, self.current as int, before);
            }
            let stmt = self.declaration()?;
            statements.push(stmt);
            proof {
                use_type_invariant(&*self);
                assert(stmt_views(statements@) =~= before.push(stmt@));
            }
        }
        proof {
            lemma_block_rest_closes(toks, self.current as int, stmt_views(statements@));
            lemma_upcoming_monotonic(toks, start, self.current as int);
        }

        self.consume(&TokenType::RightBrace, "Expect '}' after block.")?;
        Ok(statements)
    }

    fn expression_statement(&mut self) -> (r: ParseResult<Stmt>)
        ensures
            final(self).gives_stmt(
                old(self),
                stmt_outcome(r),
                expression_statement(old(self).tokens(), old(self).current as int),
            ),
        decreases old(self).tokens.len() - old(self).current, 12int,
    {
        reveal(expression_statement);
        reveal(expression);
        proof {
            use_type_invariant(&*self);
        }
        let expr = self.expression()?;
        proof {
            use_type_invariant(&*self);
            lemma_upcoming(self.tokens(), self.current as int);
        }
        self.consume(&TokenType::Semicolon, "Expect ';' afrer expression.")?;
        Ok(Stmt::Expression(Expression::new(expr)))
    }

    fn print_statement(&mut self) -> (r: ParseResult<Stmt>)
        ensures
            final(self).gives_stmt(
                old(self),
                stmt_outcome(r),
                print_statement(old(self).tokens(), old(self).current as int),
            ),
        decreases old(self).tokens.len() - old(self).current, 12int,
    {
        reveal(print_statement);
        reveal(expression);
        let ghost toks = self.tokens();
        proof {
            use_type_invariant(&*self);
        }
        let value = self.expression()?;
        let ghost after = self.current as int;
        proof {
            use_type_invariant(&*self);
            lemma_upcoming(toks, after);
            lemma_upcoming(toks, upcoming(toks, after));
        }
        if self.is_at_end() {
            return Err(
                ParseError::new(
                    self.peek().clone(),
                    "Unexpected end of input after print statement.",
                ),
            );
        }
        self.consume(&TokenType::Semicolon, "Expect ';' after value.")?;
        Ok(Stmt::Print(Print::new(value)))
    }

    /// As `gives`, for an expression: the parser has moved past the trivia
    /// that it stood at.
    spec fn gives_expr(&self, before: &Parser<'a>, r: ParseResult<Expr>, parsed: Parsed<ExprView>) -> bool {
        &&& self.gives(before, expr_outcome(r), parsed)
        &&& upcoming(before.tokens(), before.current as int) <= self.current
    }

    fn expression(&mut self) -> (r: ParseResult<Expr>)
        ensures
            final(self).gives_expr(
                old(self),
                r,
                expression(old(self).tokens(), old(self).current as int),
            ),
        decreases old(self).tokens.len() - old(self).current, 11int,
    {
        reveal(expression);
        reveal(assignment);
        self.assignment()
    }

    fn assignment(&mut self) -> (r: ParseResult<Expr>)
        ensures
            final(self).gives_expr(
                old(self),
                r,
                assignment(old(self).tokens(), old(self).current as int),
            ),
        decreases old(self).tokens.len() - old(self).current, 10int,
    {
        reveal(assignment);
        reveal(binary);
        let ghost toks = self.tokens();
        let ghost start = self.current as int;
        proof {
            use_type_invariant(&*self);
            lemma_upcoming(toks, start);
        }
        let expr = self.equality()?;
        let ghost target_pos = self.current as int;
        proof {
            use_type_invariant(&*self);
            lemma_upcoming(toks, target_pos);
        }
        if self.matched(&[TokenType::Equal]) {
            let equals = self.previous();
            proof {
                use_type_invariant(&*self);
                assert(next_is(toks, target_pos, TokenTypeView::Equal));
            }
            let value = self.assignment()?;

            match expr {
                Expr::Variable(var) => {
                    let name = var.name;
                    Ok(Expr::Assign(Assign::new(name, Box::new(value))))
                },
                _ => Err(ParseError::new(equals.clone(), "Invalid assignment target.")),
            }
        } else {
            assert(!next_is(toks, target_pos, TokenTypeView::Equal));
            Ok(expr)
        }
    }

    fn equality(&mut self) -> (r: ParseResult<Expr>)
        ensures
            final(self).gives_expr(
                old(self),
                r,
                binary(Level::Equality, old(self).tokens(), old(self).current as int),
            ),
        decreases old(self).tokens.len() - old(self).current, 9int,
    {
        reveal(binary);
        reveal(binary_rest);
        reveal(operand);
        let ghost toks = self.tokens();
        let ghost start = self.current as int;
        proof {
            use_type_invariant(&*self);
            lemma_upcoming(toks, start);
        }
        let mut expr = self.comparison()?;
        proof {
            use_type_invariant(&*self);
        }

        loop
            invariant
                self.tokens == old(self).tokens,
                toks == old(self).tokens(),
                start == old(self).current,
                is_stream(toks),
                0 <= start <= upcoming(toks, start) <= self.current < toks.len(),
                binary(Level::Equality, toks, start) == binary_rest(
                    Level::Equality,
                    toks,
                    self.current as int,
                    expr@,
                ),
            ensures
                self.tokens == old(self).tokens,
                upcoming(toks, start) <= self.current,
                binary(Level::Equality, toks, start) == parsed(expr@, self.current as int),
            decreases toks.len() - self.current,
        {
            let ghost at = self.current as int;
            reveal(binary_rest);
            reveal(operand);
            reveal(binary);
            proof {
                lemma_upcoming(toks, at);
            }
            let hit = self.matched(&[TokenType::EqualEqual, TokenType::BangEqual]);
            proof {
                lemma_operator_matched(Level::Equality, toks, at, hit);
            }
            if !hit {
                break ;
            }
            let token = self.previous();
            let ghost left = expr@;
            let ghost p = upcoming(toks, at);
            assert(token@ == toks[p]);
            let operator = match token.token_type {
                TokenType::EqualEqual => BinaryOp::Equal,
                TokenType::BangEqual => BinaryOp::NotEqual,
                _ => unreached(),
            };
            let right_r = self.comparison();
            proof {
                use_type_invariant(&*self);
                let rs = operand(Level::Equality, toks, p + 1);
                assert(rs == binary(Level::Comparison, toks, p + 1));
                assert(within(toks, p + 1, rs.pos));
                if rs.result is Err {
                    assert(binary_rest(Level::Equality, toks, at, left) == rs);
                }
            }
            let right = right_r?;
            expr = Expr::Binary(
                Binary::new(Box::new(expr), operator, Box::new(right), token.line_number),
            );
        }

        Ok(expr)
    }

    fn comparison(&mut self) -> (r: ParseResult<Expr>)
        ensures
            final(self).gives_expr(
                old(self),
                r,
                binary(Level::Comparison, old(self).tokens(), old(self).current as int),
            ),
        decreases old(self).tokens.len() - old(self).current, 7int,
    {
        reveal(binary);
        reveal(binary_rest);
        reveal(operand);
        let ghost toks = self.tokens();
        let ghost start = self.current as int;
        proof {
            use_type_invariant(&*self);
            lemma_upcoming(toks, start);
        }
        let mut expr = self.term()?;
        proof {
            use_type_invariant(&*self);
        }

        loop
            invariant
                self.tokens == old(self).tokens,
                toks == old(self).tokens(),
                start == old(self).current,
                is_stream(toks),
                0 <= start <= upcoming(toks, start) <= self.current < toks.len(),
                binary(Level::Comparison, toks, start) == binary_rest(
                    Level::Comparison,
                    toks,
                    self.current as int,
                    expr@,
                ),
            ensures
                self.tokens == old(self).tokens,
                upcoming(toks, start) <= self.current,
                binary(Level::Comparison, toks, start) == parsed(expr@, self.current as int),
            decreases toks.len() - self.current,
        {
            let ghost at = self.current as int;
            reveal(binary_rest);
            reveal(operand);
            reveal(binary);
            proof {
                lemma_upcoming(toks, at);
            }
            let hit = self.matched(
                &[
                    TokenType::Greater,
                    TokenType::GreaterEqual,
                    TokenType::Less,
                    TokenType::LessEqual,
                ],
            );
            proof {
                lemma_operator_matched(Level::Comparison, toks, at, hit);
            }
            if !hit {
                break ;
            }
            let token = self.previous();
            let ghost left = expr@;
            let ghost p = upcoming(toks, at);
            assert(token@ == toks[p]);
            let operator = match token.token_type {
                TokenType::Greater => BinaryOp::Greater,
                TokenType::GreaterEqual => BinaryOp::GreaterEqual,
                TokenType::Less => BinaryOp::Less,
                TokenType::LessEqual => BinaryOp::LessEqual,
                _ => unreached(),
            };

            let right_r = self.term();
            proof {
                use_type_invariant(&*self);
                let rs = operand(Level::Comparison, toks, p + 1);
                assert(rs == binary(Level::Term, toks, p + 1));
                assert(within(toks, p + 1, rs.pos));
                if rs.result is Err {
                    assert(binary_rest(Level::Comparison, toks, at, left) == rs);
                }
            }
            let right = right_r?;
            expr = Expr::Binary(
                Binary::new(Box::new(expr), operator, Box::new(right), token.line_number),
            );
        }

        Ok(expr)
    }

    fn term(&mut self) -> (r: ParseResult<Expr>)
        ensures
            final(self).gives_expr(
                old(self),
                r,
                binary(Level::Term, old(self).tokens(), old(self).current as int),
            ),
        decreases old(self).tokens.len() - old(self).current, 5int,
    {
        reveal(binary);
        reveal(binary_rest);
        reveal(operand);
        let ghost toks = self.tokens();
        let ghost start = self.current as int;
        proof {
            use_type_invariant(&*self);
            lemma_upcoming(toks, start);
        }
        let mut expr = self.factor()?;
        proof {
            use_type_invariant(&*self);
        }

        loop
            invariant
                self.tokens == old(self).tokens,
                toks == old(self).tokens(),
                start == old(self).current,
                is_stream(toks),
                0 <= start <= upcoming(toks, start) <= self.current < toks.len(),
                binary(Level::Term, toks, start) == binary_rest(
                    Level::Term,
                    toks,
                    self.current as int,
                    expr@,
                ),
            ensures
                self.tokens == old(self).tokens,
                upcoming(toks, start) <= self.current,
                binary(Level::Term, toks, start) == parsed(expr@, self.current as int),
            decreases toks.len() - self.current,
        {
            let ghost at = self.current as int;
            reveal(binary_rest);
            reveal(operand);
            reveal(binary);
            proof {
                lemma_upcoming(toks, at);
            }
            let hit = self.matched(&[TokenType::Minus, TokenType::Plus]);
            proof {
                lemma_operator_matched(Level::Term, toks, at, hit);
            }
            if !hit {
                break ;
            }
            let token = self.previous();
            let ghost left = expr@;
            let ghost p = upcoming(toks, at);
            assert(token@ == toks[p]);
            let operator = match token.token_type {
                TokenType::Plus => BinaryOp::Plus,
                TokenType::Minus => BinaryOp::Minus,
                _ => unreached(),
            };
            let right_r = self.factor();
            proof {
                use_type_invariant(&*self);
                let rs = operand(Level::Term, toks, p + 1);
                assert(rs == binary(Level::Factor, toks, p + 1));
                assert(within(toks, p + 1, rs.pos));
                if rs.result is Err {
                    assert(binary_rest(Level::Term, toks, at, left) == rs);
                }
            }
            let right = right_r?;
            expr = Expr::Binary(
                Binary::new(Box::new(expr), operator, Box::new(right), token.line_number),
            );
        }

        Ok(expr)
    }

    fn factor(&mut self) -> (r: ParseResult<Expr>)
        ensures
            final(self).gives_expr(
                old(self),
                r,
                binary(Level::Factor, old(self).tokens(), old(self).current as int),
            ),
        decreases old(self).tokens.len() - old(self).current, 3int,
    {
        reveal(binary);
        reveal(binary_rest);
        reveal(operand);
        reveal(unary);
        let ghost toks = self.tokens();
        let ghost start = self.current as int;
        proof {
            use_type_invariant(&*self);
            lemma_upcoming(toks, start);
        }
        let mut expr = self.unary()?;
        proof {
            use_type_invariant(&*self);
        }

        loop
            invariant
                self.tokens == old(self).tokens,
                toks == old(self).tokens(),
                start == old(self).current,
                is_stream(toks),
                0 <= start <= upcoming(toks, start) <= self.current < toks.len(),
                binary(Level::Factor, toks, start) == binary_rest(
                    Level::Factor,
                    toks,
                    self.current as int,
                    expr@,
                ),
            ensures
                self.tokens == old(self).tokens,
                upcoming(toks, start) <= self.current,
                binary(Level::Factor, toks, start) == parsed(expr@, self.current as int),
            decreases toks.len() - self.current,
        {
            let ghost at = self.current as int;
            reveal(binary_rest);
            reveal(operand);
            reveal(unary);
            proof {
                lemma_upcoming(toks, at);
            }
            let hit = self.matched(&[TokenType::Slash, TokenType::Star]);
            proof {
                lemma_operator_matched(Level::Factor, toks, at, hit);
            }
            if !hit {
                break ;
            }
            let token = self.previous();
            let ghost left = expr@;
            let ghost p = upcoming(toks, at);
            assert(token@ == toks[p]);
            let right_r = self.unary();
            proof {
                use_type_invariant(&*self);
                let rs = operand(Level::Factor, toks, p + 1);
                assert(rs == unary(toks, p + 1));
                assert(within(toks, p + 1, rs.pos));
                if rs.result is Err {
                    assert(binary_rest(Level::Factor, toks, at, left) == rs);
                }
            }
            let right = right_r?;
            let operator = match token.token_type {
                TokenType::Slash => BinaryOp::Div,
                TokenType::Star => BinaryOp::Mul,
                _ => unreached(),
            };
            expr = Expr::Binary(
                Binary::new(Box::new(expr), operator, Box::new(right), token.line_number),
            );
        }
        Ok(expr)
    }

    fn unary(&mut self) -> (r: ParseResult<Expr>)
        ensures
            final(self).gives_expr(old(self), r, unary(old(self).tokens(), old(self).current as int)),
        decreases old(self).tokens.len() - old(self).current, 1int,
    {
        reveal(unary);
        reveal(primary);
        let ghost toks = self.tokens();
        let ghost start = self.current as int;
        proof {
            use_type_invariant(&*self);
            lemma_upcoming(toks, start);
            lemma_primary_skips_trivia(toks, start);
        }
        if self.matched(&[TokenType::Bang, TokenType::Minus]) {
            let operator = self.previous();
            proof {
                use_type_invariant(&*self);
                let kind = toks[upcoming(toks, start)].token_type;
                assert(kind is Bang || kind is Minus);
            }
            let right = self.unary()?;
            let negation = match operator.token_type {
                TokenType::Bang => UnaryOp::Bang,
                TokenType::Minus => UnaryOp::Minus,
                _ => unreached(),
            };
            return Ok(Expr::Unary(Unary::new(negation, Box::new(right), operator.line_number)));
        }
        proof {
            let kind = toks[upcoming(toks, start)].token_type;
            assert(!next_is(toks, start, TokenTypeView::Bang));
            assert(!next_is(toks, start, TokenTypeView::Minus));
            assert(!(has_next(toks, start) && prefix_operator(kind) is Some));
        }

        self.primary()
    }

    fn primary(&mut self) -> (r: ParseResult<Expr>)
        ensures
            final(self).gives_expr(
                old(self),
                r,
                primary(old(self).tokens(), old(self).current as int),
            ),
        decreases old(self).tokens.len() - old(self).current, 0int,
    {
        reveal(primary);
        reveal(expression);
        let ghost toks = self.tokens();
        let ghost start = self.current as int;
        proof {
            use_type_invariant(&*self);
            lemma_upcoming(toks, start);
        }
        let token = self.peek();
        let ghost p = self.current as int;
        proof {
            lemma_upcoming(toks, p);
        }

        if self.matched(&[TokenType::Keyword(Keyword::False)]) {
            let token = self.previous();
            return Ok(
                Expr::Literal(Literal::new(LiteralType::Bool { value: false }, token.line_number)),
            );
        }
        assert(!next_is(toks, p, TokenTypeView::Keyword(Keyword::False)));

        if self.matched(&[TokenType::Keyword(Keyword::True)]) {
            return Ok(
                Expr::Literal(Literal::new(LiteralType::Bool { value: true }, token.line_number)),
            );
        }
        assert(!next_is(toks, p, TokenTypeView::Keyword(Keyword::True)));

        if self.matched(&[TokenType::Keyword(Keyword::Nil)]) {
            return Ok(Expr::Literal(Literal::new(LiteralType::Nil, token.line_number)));
        }
        assert(!next_is(toks, p, TokenTypeView::Keyword(Keyword::Nil)));

        if let TokenType::Number { lexeme: _, literal } = &token.token_type {
            self.advance();
            return Ok(
                Expr::Literal(
                    Literal::new(LiteralType::Number { value: *literal }, token.line_number),
                ),
            );
        }
        if let TokenType::String(value) = &token.token_type {
            self.advance();
            return Ok(
                Expr::Literal(
                    Literal::new(LiteralType::String { value: value.clone() }, token.line_number),
                ),
            );
        }
        if self.matched(&[TokenType::LeftParen]) {
            proof {
                use_type_invariant(&*self);
                assert(next_is(toks, p, TokenTypeView::LeftParen));
            }
            let expr = self.expression()?;
            self.consume(&TokenType::RightParen, "Expect ')' after expression.")?;
            return Ok(Expr::Grouping(Grouping::new(Box::new(expr), token.line_number)));
        }
        assert(!next_is(toks, p, TokenTypeView::LeftParen));

        if let TokenType::Ident(_) = &token.token_type {
            self.advance();
            return Ok(Expr::Variable(Variable::new(token.clone())));
        }
        Err(ParseError::new(self.peek().clone(), "You should not be here"))
    }
}

/// `matched` on the operator tokens of a level says whether an operator of
/// that level comes up.
proof fn lemma_operator_matched(level: Level, toks: Seq<TokenView>, pos: int, hit: bool)
    requires
        is_stream(toks),
        0 <= pos < toks.len(),
        match level {
            Level::Equality => hit == (next_is(toks, pos, TokenTypeView::EqualEqual) || next_is(
                toks,
                pos,
                TokenTypeView::BangEqual,
            )),
            Level::Comparison => hit == (next_is(toks, pos, TokenTypeView::Greater) || next_is(
                toks,
                pos,
                TokenTypeView::GreaterEqual,
            ) || next_is(toks, pos, TokenTypeView::Less) || next_is(
                toks,
                pos,
                TokenTypeView::LessEqual,
            )),
            Level::Term => hit == (next_is(toks, pos, TokenTypeView::Minus) || next_is(
                toks,
                pos,
                TokenTypeView::Plus,
            )),
            Level::Factor => hit == (next_is(toks, pos, TokenTypeView::Slash) || next_is(
                toks,
                pos,
                TokenTypeView::Star,
            )),
        },
    ensures
        hit == (has_next(toks, pos) && level.operator(toks[upcoming(toks, pos)].token_type) is Some),
{
}

} // verus!
