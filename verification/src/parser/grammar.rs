//! What the parser produces, stated on sequences of tokens.
//!
//! Each function takes the token sequence and the position at which the
//! parser stands and gives the outcome together with the position at which
//! the parser stands afterwards.  Trivia are stepped over wherever a token
//! is looked at.

use vstd::prelude::*;
use crate::lexer::keywords::Keyword;
use crate::lexer::token::{Token, TokenTypeView, TokenView};
use crate::parser::error::ParseErrorView;
use crate::parser::expr::{BinaryOp, ExprView, LiteralTypeView, UnaryOp};
use crate::parser::stmt::StmtView;

verus! {

/// The tokens with their text as character sequences.
pub open spec fn token_views(tokens: Seq<Token>) -> Seq<TokenView> {
    Seq::new(tokens.len(), |i: int| tokens[i]@)
}

/// A token sequence that the parser accepts as input: it ends with the end marker.
pub open spec fn is_stream(toks: Seq<TokenView>) -> bool {
    toks.len() > 0 && toks.last().token_type is Eof
}

/// How many trivia tokens stand in a row at `pos`.
#[verifier::opaque]
pub open spec fn trivia_run(toks: Seq<TokenView>, pos: int) -> nat
    decreases toks.len() - pos,
{
    if 0 <= pos < toks.len() && toks[pos].token_type.is_trivia() {
        1 + trivia_run(toks, pos + 1)
    } else {
        0
    }
}

/// The position of the first token at or after `pos` that is not trivia.
pub open spec fn upcoming(toks: Seq<TokenView>, pos: int) -> int {
    pos + trivia_run(toks, pos)
}

/// Whether a token other than the end marker comes up at `pos`, so that
/// the parser can consume it.
pub open spec fn has_next(toks: Seq<TokenView>, pos: int) -> bool {
    let p = upcoming(toks, pos);
    0 <= pos && p + 1 < toks.len() && !(toks[p].token_type is Eof)
}

/// Whether a token of the given kind comes up at `pos`.
pub open spec fn next_is(toks: Seq<TokenView>, pos: int, kind: TokenTypeView) -> bool {
    has_next(toks, pos) && toks[upcoming(toks, pos)].token_type.matches_kind(kind)
}

/// Whether `to` is a position of the sequence that is not before `from`.
/// Every position that a parse function hands back lies within the rest of
/// the input in this sense.
pub open spec fn within(toks: Seq<TokenView>, from: int, to: int) -> bool {
    from <= to <= toks.len()
}

/// An outcome and the position at which the parser stands after it.
pub struct Parsed<T> {
    pub result: Result<T, ParseErrorView>,
    pub pos: int,
}

/// Success with `value`, after which the parser stands at `pos`.
pub open spec fn parsed<T>(value: T, pos: int) -> Parsed<T> {
    Parsed { result: Ok(value), pos }
}

/// An error at `token`, after which the parser stands at `pos`.
pub open spec fn failed<T>(token: TokenView, message: Seq<char>, pos: int) -> Parsed<T> {
    Parsed { result: Err(ParseErrorView { token, message }), pos }
}

/// The same failure, as the outcome of an enclosing construct.
pub open spec fn passed_on<T, U>(inner: Parsed<T>) -> Parsed<U> {
    Parsed { result: Err(inner.result->Err_0), pos: inner.pos }
}

/// The four levels of left-associative binary operators, loosest first.
pub enum Level {
    Equality,
    Comparison,
    Term,
    Factor,
}

impl Level {
    /// A measure that drops from each level to the next tighter one.
    pub open spec fn rank(self) -> int {
        match self {
            Level::Equality => 8,
            Level::Comparison => 6,
            Level::Term => 4,
            Level::Factor => 2,
        }
    }

    /// The operator of this level that a token stands for.
    pub open spec fn operator(self, kind: TokenTypeView) -> Option<BinaryOp> {
        match (self, kind) {
            (Level::Equality, TokenTypeView::EqualEqual) => Some(BinaryOp::Equal),
            (Level::Equality, TokenTypeView::BangEqual) => Some(BinaryOp::NotEqual),
            (Level::Comparison, TokenTypeView::Greater) => Some(BinaryOp::Greater),
            (Level::Comparison, TokenTypeView::GreaterEqual) => Some(BinaryOp::GreaterEqual),
            (Level::Comparison, TokenTypeView::Less) => Some(BinaryOp::Less),
            (Level::Comparison, TokenTypeView::LessEqual) => Some(BinaryOp::LessEqual),
            (Level::Term, TokenTypeView::Minus) => Some(BinaryOp::Minus),
            (Level::Term, TokenTypeView::Plus) => Some(BinaryOp::Plus),
            (Level::Factor, TokenTypeView::Slash) => Some(BinaryOp::Div),
            (Level::Factor, TokenTypeView::Star) => Some(BinaryOp::Mul),
            _ => None,
        }
    }
}

/// The prefix operator that a token stands for.
pub open spec fn prefix_operator(kind: TokenTypeView) -> Option<UnaryOp> {
    match kind {
        TokenTypeView::Bang => Some(UnaryOp::Bang),
        TokenTypeView::Minus => Some(UnaryOp::Minus),
        _ => None,
    }
}

/// The literal that a token stands for.
pub open spec fn literal_of(kind: TokenTypeView) -> Option<LiteralTypeView> {
    match kind {
        TokenTypeView::Keyword(Keyword::False) => Some(LiteralTypeView::Bool { value: false }),
        TokenTypeView::Keyword(Keyword::True) => Some(LiteralTypeView::Bool { value: true }),
        TokenTypeView::Keyword(Keyword::Nil) => Some(LiteralTypeView::Nil),
        TokenTypeView::Number { literal, .. } => Some(LiteralTypeView::Number { value: literal }),
        TokenTypeView::String(text) => Some(LiteralTypeView::String { value: text }),
        _ => None,
    }
}

/// Keywords at which recovery from an error stops: each starts a statement.
pub open spec fn starts_statement(kind: TokenTypeView) -> bool {
    kind matches TokenTypeView::Keyword(keyword) && (keyword is Class || keyword is Fun
        || keyword is Var || keyword is For || keyword is If || keyword is While
        || keyword is Print || keyword is Return)
}

/// Requires a token of the given kind and consumes it.
pub open spec fn consume(
    toks: Seq<TokenView>,
    pos: int,
    kind: TokenTypeView,
    message: Seq<char>,
) -> Parsed<()> {
    let p = upcoming(toks, pos);
    if toks[p].token_type is Eof {
        failed(toks[p], "Unexpected end of input."@, p)
    } else if toks[p].token_type.matches_kind(kind) {
        parsed((), p + 1)
    } else {
        failed(toks[p], message, p)
    }
}

/// primary := "true" | "false" | "nil" | NUMBER | STRING | IDENT | "(" expression ")"
#[verifier::opaque]
pub open spec fn primary(toks: Seq<TokenView>, pos: int) -> Parsed<ExprView>
    decreases toks.len() - pos, 0int,
{
    let p = upcoming(toks, pos);
    let token = toks[p];
    if !has_next(toks, pos) {
        failed(token, "You should not be here"@, p)
    } else if literal_of(token.token_type) is Some {
        parsed(
            ExprView::Literal {
                literal_type: literal_of(token.token_type)->Some_0,
                line_number: token.line_number,
            },
            p + 1,
        )
    } else if token.token_type is LeftParen {
        let inner = expression(toks, p + 1);
        if inner.result is Err {
            inner
        } else {
            let close = consume(
                toks,
                inner.pos,
                TokenTypeView::RightParen,
                "Expect ')' after expression."@,
            );
            if close.result is Err {
                passed_on(close)
            } else {
                parsed(
                    ExprView::Grouping {
                        expression: Box::new(inner.result->Ok_0),
                        line_number: token.line_number,
                    },
                    close.pos,
                )
            }
        }
    } else if token.token_type is Ident {
        parsed(ExprView::Variable { name: token }, p + 1)
    } else {
        failed(token, "You should not be here"@, p)
    }
}

/// unary := ("!" | "-") unary | primary
#[verifier::opaque]
pub open spec fn unary(toks: Seq<TokenView>, pos: int) -> Parsed<ExprView>
    decreases toks.len() - pos, 1int,
{
    let p = upcoming(toks, pos);
    if has_next(toks, pos) && prefix_operator(toks[p].token_type) is Some {
        let right = unary(toks, p + 1);
        if right.result is Err {
            right
        } else {
            parsed(
                ExprView::Unary {
                    operator: prefix_operator(toks[p].token_type)->Some_0,
                    right: Box::new(right.result->Ok_0),
                    line_number: toks[p].line_number,
                },
                right.pos,
            )
        }
    } else {
        primary(toks, pos)
    }
}

/// An operand of a level: an expression of the next tighter level.
#[verifier::opaque]
pub open spec fn operand(level: Level, toks: Seq<TokenView>, pos: int) -> Parsed<ExprView>
    decreases toks.len() - pos, level.rank(),
{
    match level {
        Level::Equality => binary(Level::Comparison, toks, pos),
        Level::Comparison => binary(Level::Term, toks, pos),
        Level::Term => binary(Level::Factor, toks, pos),
        Level::Factor => unary(toks, pos),
    }
}

/// Operands of a level joined by its operators, grouped from the left:
/// `equality`, `comparison`, `term` and `factor` of the grammar.
#[verifier::opaque]
pub open spec fn binary(level: Level, toks: Seq<TokenView>, pos: int) -> Parsed<ExprView>
    decreases toks.len() - pos, level.rank() + 1,
{
    let first = operand(level, toks, pos);
    if first.result is Ok && within(toks, upcoming(toks, pos), first.pos) {
        binary_rest(level, toks, first.pos, first.result->Ok_0)
    } else {
        first
    }
}

/// The operators and operands that follow `left` at a level.  Each node
/// carries the line of its operator.
#[verifier::opaque]
pub open spec fn binary_rest(
    level: Level,
    toks: Seq<TokenView>,
    pos: int,
    left: ExprView,
) -> Parsed<ExprView>
    decreases toks.len() - pos, level.rank() - 1,
{
    let p = upcoming(toks, pos);
    if has_next(toks, pos) && level.operator(toks[p].token_type) is Some {
        let right = operand(level, toks, p + 1);
        if right.result is Ok && within(toks, p + 1, right.pos) {
            binary_rest(
                level,
                toks,
                right.pos,
                ExprView::Binary {
                    left: Box::new(left),
                    operator: level.operator(toks[p].token_type)->Some_0,
                    right: Box::new(right.result->Ok_0),
                    line_number: toks[p].line_number,
                },
            )
        } else {
            right
        }
    } else {
        parsed(left, p)
    }
}

/// assignment := equality ( "=" assignment )?
///
/// The right-hand side is parsed before the target is looked at; a target
/// that is no variable is an error at the `=`.
#[verifier::opaque]
pub open spec fn assignment(toks: Seq<TokenView>, pos: int) -> Parsed<ExprView>
    decreases toks.len() - pos, 10int,
{
    let target = binary(Level::Equality, toks, pos);
    if target.result is Err {
        target
    } else {
        let p = upcoming(toks, target.pos);
        if next_is(toks, target.pos, TokenTypeView::Equal) && within(toks, upcoming(toks, pos), p) {
            let value = assignment(toks, p + 1);
            if value.result is Err {
                value
            } else {
                match target.result->Ok_0 {
                    ExprView::Variable { name } => parsed(
                        ExprView::Assign { name, value: Box::new(value.result->Ok_0) },
                        value.pos,
                    ),
                    _ => failed(toks[p], "Invalid assignment target."@, value.pos),
                }
            }
        } else {
            parsed(target.result->Ok_0, p)
        }
    }
}

/// expression := assignment
#[verifier::opaque]
pub open spec fn expression(toks: Seq<TokenView>, pos: int) -> Parsed<ExprView>
    decreases toks.len() - pos, 11int,
{
    assignment(toks, pos)
}

/// exprStmt := expression ";"
#[verifier::opaque]
pub open spec fn expression_statement(toks: Seq<TokenView>, pos: int) -> Parsed<StmtView>
    decreases toks.len() - pos, 12int,
{
    let expr = expression(toks, pos);
    if expr.result is Err {
        passed_on(expr)
    } else {
        let end = consume(
            toks,
            expr.pos,
            TokenTypeView::Semicolon,
            "Expect ';' afrer expression."@,
        );
        if end.result is Err {
            passed_on(end)
        } else {
            parsed(StmtView::Expression { expression: expr.result->Ok_0 }, end.pos)
        }
    }
}

/// printStmt := "print" expression ";", from after the keyword.
#[verifier::opaque]
pub open spec fn print_statement(toks: Seq<TokenView>, pos: int) -> Parsed<StmtView>
    decreases toks.len() - pos, 12int,
{
    let value = expression(toks, pos);
    if value.result is Err {
        passed_on(value)
    } else {
        let p = upcoming(toks, value.pos);
        if toks[p].token_type is Eof {
            failed(toks[p], "Unexpected end of input after print statement."@, p)
        } else {
            let end = consume(toks, value.pos, TokenTypeView::Semicolon, "Expect ';' after value."@);
            if end.result is Err {
                passed_on(end)
            } else {
                parsed(StmtView::Print { expression: value.result->Ok_0 }, end.pos)
            }
        }
    }
}

/// varDecl := "var" IDENT ( "=" expression )? ";", from after the name,
/// which has been consumed as `name` whatever kind of token it is.
#[verifier::opaque]
pub open spec fn var_declaration(toks: Seq<TokenView>, name: TokenView, pos: int) -> Parsed<
    StmtView,
>
    decreases toks.len() - pos, 12int,
{
    if !(name.token_type is Ident) {
        failed(name, "Expected an identifier."@, pos)
    } else {
        let p = upcoming(toks, pos);
        let initializer = if next_is(toks, pos, TokenTypeView::Equal) {
            let value = expression(toks, p + 1);
            if value.result is Err {
                passed_on(value)
            } else {
                parsed(Some(value.result->Ok_0), value.pos)
            }
        } else {
            parsed(None::<ExprView>, p)
        };
        if initializer.result is Err {
            passed_on(initializer)
        } else {
            let end = consume(
                toks,
                initializer.pos,
                TokenTypeView::Semicolon,
                "Expect ';' after variable declaration."@,
            );
            if end.result is Err {
                passed_on(end)
            } else {
                parsed(
                    StmtView::Var {
                        name: name.token_type->Ident_0,
                        initializer: initializer.result->Ok_0,
                    },
                    end.pos,
                )
            }
        }
    }
}

/// block := "{" declaration* "}", from after the opening brace: the
/// declarations of a block after `stmts`, up to its closing brace.
#[verifier::opaque]
pub open spec fn block_rest(toks: Seq<TokenView>, pos: int, stmts: Seq<StmtView>) -> Parsed<
    Seq<StmtView>,
>
    decreases toks.len() - pos, 16int,
{
    let p = upcoming(toks, pos);
    if !has_next(toks, pos) || toks[p].token_type is RightBrace {
        let close = consume(toks, pos, TokenTypeView::RightBrace, "Expect '}' after block."@);
        if close.result is Err {
            passed_on(close)
        } else {
            parsed(stmts, close.pos)
        }
    } else {
        let next = declaration(toks, p);
        if next.result is Ok && within(toks, p + 1, next.pos) {
            block_rest(toks, next.pos, stmts.push(next.result->Ok_0))
        } else {
            passed_on(next)
        }
    }
}

/// statement := printStmt | block | exprStmt
#[verifier::opaque]
pub open spec fn statement(toks: Seq<TokenView>, pos: int) -> Parsed<StmtView>
    decreases toks.len() - pos, 14int,
{
    let p = upcoming(toks, pos);
    if next_is(toks, pos, TokenTypeView::Keyword(Keyword::Print)) {
        print_statement(toks, p + 1)
    } else if next_is(toks, pos, TokenTypeView::LeftBrace) {
        let body = block_rest(toks, p + 1, Seq::empty());
        if body.result is Err {
            passed_on(body)
        } else {
            parsed(StmtView::Block { statements: body.result->Ok_0 }, body.pos)
        }
    } else {
        expression_statement(toks, pos)
    }
}

/// declaration := varDecl | statement
///
/// After `var` the next token is consumed as the name, whatever its kind;
/// at the end of input the token before the end marker stands in for it.
#[verifier::opaque]
pub open spec fn declaration(toks: Seq<TokenView>, pos: int) -> Parsed<StmtView>
    decreases toks.len() - pos, 15int,
{
    let p = upcoming(toks, pos);
    if next_is(toks, pos, TokenTypeView::Keyword(Keyword::Var)) {
        let q = upcoming(toks, p + 1);
        if has_next(toks, p + 1) {
            var_declaration(toks, toks[q], q + 1)
        } else {
            var_declaration(toks, toks[q - 1], q)
        }
    } else {
        statement(toks, pos)
    }
}

/// Where recovery from an error stops, having consumed `last`: at the end
/// of input, after a `;`, or before a keyword that starts a statement.
#[verifier::opaque]
pub open spec fn synchronize_rest(toks: Seq<TokenView>, pos: int, last: TokenView) -> int
    decreases toks.len() - pos,
{
    let p = upcoming(toks, pos);
    if !has_next(toks, pos) || last.token_type is Semicolon || starts_statement(
        toks[p].token_type,
    ) {
        p
    } else {
        synchronize_rest(toks, p + 1, toks[p])
    }
}

/// Where parsing resumes after an error at `pos`: one token is dropped in
/// any case, then tokens are dropped up to a statement boundary.
pub open spec fn synchronize(toks: Seq<TokenView>, pos: int) -> int {
    let p = upcoming(toks, pos);
    if !has_next(toks, pos) {
        p
    } else {
        synchronize_rest(toks, p + 1, toks[p])
    }
}

/// What parsing a program gives: the first error if there was one, else the statements.
pub open spec fn outcome(stmts: Seq<StmtView>, first_error: Option<ParseErrorView>) -> Result<
    Seq<StmtView>,
    ParseErrorView,
> {
    match first_error {
        Some(error) => Err(error),
        None => Ok(stmts),
    }
}

/// The declarations from `pos` to the end of input, after `stmts`.  An
/// error does not stop the parser: it resumes at the next statement
/// boundary.  The outcome is the first error, if there was one.
#[verifier::opaque]
pub open spec fn program_rest(
    toks: Seq<TokenView>,
    pos: int,
    stmts: Seq<StmtView>,
    first_error: Option<ParseErrorView>,
) -> Parsed<Seq<StmtView>>
    decreases toks.len() - pos,
{
    let p = upcoming(toks, pos);
    if !has_next(toks, pos) {
        Parsed { result: outcome(stmts, first_error), pos: p }
    } else {
        let next = declaration(toks, p);
        let resume = if next.result is Ok {
            next.pos
        } else {
            synchronize(toks, next.pos)
        };
        let stmts = if next.result is Ok {
            stmts.push(next.result->Ok_0)
        } else {
            stmts
        };
        let first_error = if first_error is None && next.result is Err {
            Some(next.result->Err_0)
        } else {
            first_error
        };
        if within(toks, p + 1, resume) {
            program_rest(toks, resume, stmts, first_error)
        } else {
            Parsed { result: outcome(stmts, first_error), pos: resume }
        }
    }
}

/// program := declaration* EOF
pub open spec fn program(toks: Seq<TokenView>, pos: int) -> Parsed<Seq<StmtView>> {
    program_rest(toks, pos, Seq::empty(), None)
}

/// Trivia are stepped over up to a token that is none, which lies in the
/// sequence; stepping over trivia twice changes nothing; and only the end
/// marker cannot be consumed.
pub proof fn lemma_upcoming(toks: Seq<TokenView>, pos: int)
    requires
        is_stream(toks),
        0 <= pos < toks.len(),
    ensures
        pos <= upcoming(toks, pos) < toks.len(),
        !toks[upcoming(toks, pos)].token_type.is_trivia(),
        upcoming(toks, upcoming(toks, pos)) == upcoming(toks, pos),
        has_next(toks, pos) == !(toks[upcoming(toks, pos)].token_type is Eof),
        has_next(toks, upcoming(toks, pos)) == has_next(toks, pos),
        toks[pos].token_type.is_trivia() ==> upcoming(toks, pos) == upcoming(toks, pos + 1),
        !toks[pos].token_type.is_trivia() ==> upcoming(toks, pos) == pos,
    decreases toks.len() - pos,
{
    reveal(trivia_run);
    if toks[pos].token_type.is_trivia() {
        lemma_upcoming(toks, pos + 1);
    }
}

/// Stepping over trivia from a later position ends no earlier.
pub proof fn lemma_upcoming_monotonic(toks: Seq<TokenView>, from: int, to: int)
    requires
        is_stream(toks),
        0 <= from <= to < toks.len(),
    ensures
        upcoming(toks, from) <= upcoming(toks, to),
    decreases to - from,
{
    lemma_upcoming(toks, from);
    lemma_upcoming(toks, to);
    if from < to && toks[from].token_type.is_trivia() {
        lemma_upcoming_monotonic(toks, from + 1, to);
    }
}

/// Trivia before a primary expression do not matter.
pub proof fn lemma_primary_skips_trivia(toks: Seq<TokenView>, pos: int)
    requires
        is_stream(toks),
        0 <= pos < toks.len(),
    ensures
        primary(toks, upcoming(toks, pos)) == primary(toks, pos),
{
    reveal(primary);
    lemma_upcoming(toks, pos);
}

/// Trivia before a unary expression do not matter.
pub proof fn lemma_unary_skips_trivia(toks: Seq<TokenView>, pos: int)
    requires
        is_stream(toks),
        0 <= pos < toks.len(),
    ensures
        unary(toks, upcoming(toks, pos)) == unary(toks, pos),
{
    reveal(unary);
    reveal(primary);
    lemma_upcoming(toks, pos);
    lemma_primary_skips_trivia(toks, pos);
}

/// Trivia before a binary expression of any level do not matter.
pub proof fn lemma_binary_skips_trivia(level: Level, toks: Seq<TokenView>, pos: int)
    requires
        is_stream(toks),
        0 <= pos < toks.len(),
    ensures
        operand(level, toks, upcoming(toks, pos)) == operand(level, toks, pos),
        binary(level, toks, upcoming(toks, pos)) == binary(level, toks, pos),
    decreases level.rank(),
{
    reveal(operand);
    reveal(binary);
    reveal(unary);
    lemma_upcoming(toks, pos);
    match level {
        Level::Equality => lemma_binary_skips_trivia(Level::Comparison, toks, pos),
        Level::Comparison => lemma_binary_skips_trivia(Level::Term, toks, pos),
        Level::Term => lemma_binary_skips_trivia(Level::Factor, toks, pos),
        Level::Factor => lemma_unary_skips_trivia(toks, pos),
    }
}

/// Trivia before an expression do not matter.
pub proof fn lemma_expression_skips_trivia(toks: Seq<TokenView>, pos: int)
    requires
        is_stream(toks),
        0 <= pos < toks.len(),
    ensures
        assignment(toks, upcoming(toks, pos)) == assignment(toks, pos),
        expression(toks, upcoming(toks, pos)) == expression(toks, pos),
{
    reveal(assignment);
    reveal(expression);
    reveal(binary);
    lemma_upcoming(toks, pos);
    lemma_binary_skips_trivia(Level::Equality, toks, pos);
}

/// Trivia before a statement or declaration do not matter.
pub proof fn lemma_statement_skips_trivia(toks: Seq<TokenView>, pos: int)
    requires
        is_stream(toks),
        0 <= pos < toks.len(),
    ensures
        expression_statement(toks, upcoming(toks, pos)) == expression_statement(toks, pos),
        statement(toks, upcoming(toks, pos)) == statement(toks, pos),
        declaration(toks, upcoming(toks, pos)) == declaration(toks, pos),
{
    reveal(expression_statement);
    reveal(statement);
    reveal(declaration);
    reveal(expression);
    lemma_upcoming(toks, pos);
    lemma_expression_skips_trivia(toks, pos);
}

/// Trivia before the rest of a block do not matter.
pub proof fn lemma_block_rest_skips_trivia(toks: Seq<TokenView>, pos: int, stmts: Seq<StmtView>)
    requires
        is_stream(toks),
        0 <= pos < toks.len(),
    ensures
        block_rest(toks, upcoming(toks, pos), stmts) == block_rest(toks, pos, stmts),
{
    reveal(block_rest);
    lemma_upcoming(toks, pos);
}

/// Where a block ends: at its closing brace, or with an error if the input
/// ends first.
pub proof fn lemma_block_rest_closes(toks: Seq<TokenView>, pos: int, stmts: Seq<StmtView>)
    requires
        !has_next(toks, pos) || toks[upcoming(toks, pos)].token_type is RightBrace,
    ensures
        block_rest(toks, pos, stmts) == {
            let close = consume(
                toks,
                pos,
                TokenTypeView::RightBrace,
                "Expect '}' after block."@,
            );
            if close.result is Err {
                passed_on(close)
            } else {
                parsed(stmts, close.pos)
            }
        },
{
    reveal(block_rest);
}

/// How a block goes on with one more declaration.
pub proof fn lemma_block_rest_continues(toks: Seq<TokenView>, pos: int, stmts: Seq<StmtView>)
    requires
        has_next(toks, pos),
        !(toks[upcoming(toks, pos)].token_type is RightBrace),
    ensures
        block_rest(toks, pos, stmts) == {
            let p = upcoming(toks, pos);
            let next = declaration(toks, p);
            if next.result is Ok && within(toks, p + 1, next.pos) {
                block_rest(toks, next.pos, stmts.push(next.result->Ok_0))
            } else {
                passed_on(next)
            }
        },
{
    reveal(declaration);
    reveal(block_rest);
}

} // verus!
