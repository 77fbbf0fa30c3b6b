//! Whatever the parser accepts is a program of the syntax, and the tree
//! that it gives is the one that the tokens write.

use vstd::prelude::*;
use crate::lexer::keywords::Keyword;
use crate::lexer::token::{TokenTypeView, TokenView};
use crate::parser::completeness::lemma_written_extent;
use crate::parser::error::ParseErrorView;
use crate::parser::expr::ExprView;
use crate::parser::grammar::{
    assignment, binary, binary_rest, block_rest, consume, declaration, expression,
    expression_statement, has_next, is_stream, lemma_upcoming, next_is, operand, primary,
    print_statement, program, program_rest, statement, unary, upcoming, var_declaration, within,
    Level,
};
use crate::parser::stmt::StmtView;
use crate::parser::syntax::{
    closed_by_semicolon, level_of, splits, tightness, writes_program, written, written_all,
    written_stmt,
};

verus! {

/// Whether the tokens from `from` write `expr` up to somewhere before
/// the position `stands`, with nothing but trivia in between.
pub open spec fn written_before(toks: Seq<TokenView>, expr: ExprView, from: int, stands: int) -> bool {
    exists|to: int|
        {
            &&& #[trigger] splits(to)
            &&& written(toks, expr, from, to)
            &&& upcoming(toks, to) == upcoming(toks, stands)
        }
}

/// Trivia before an expression do not matter.
pub proof fn lemma_written_skips_trivia(toks: Seq<TokenView>, expr: ExprView, from: int, to: int)
    requires
        is_stream(toks),
        0 <= from < toks.len(),
    ensures
        written(toks, expr, upcoming(toks, from), to) == written(toks, expr, from, to),
    decreases expr,
{
    lemma_upcoming(toks, from);
    match expr {
        ExprView::Binary { left, operator, right, line_number } => {
            assert forall|mid: int|
                written(toks, *left, upcoming(toks, from), mid) == written(
                    toks,
                    *left,
                    from,
                    mid,
                ) by {
                lemma_written_skips_trivia(toks, *left, from, mid);
            }
            if written(toks, expr, from, to) {
                let mid = choose|mid: int|
                    {
                        &&& #[trigger] splits(mid)
                        &&& written(toks, *left, from, mid)
                        &&& has_next(toks, mid)
                        &&& level_of(operator).operator(toks[upcoming(toks, mid)].token_type)
                            == Some(operator)
                        &&& line_number == toks[upcoming(toks, mid)].line_number
                        &&& written(toks, *right, upcoming(toks, mid) + 1, to)
                    };
                assert(splits(mid));
                assert(written(toks, *left, upcoming(toks, from), mid));
            }
            if written(toks, expr, upcoming(toks, from), to) {
                let mid = choose|mid: int|
                    {
                        &&& #[trigger] splits(mid)
                        &&& written(toks, *left, upcoming(toks, from), mid)
                        &&& has_next(toks, mid)
                        &&& level_of(operator).operator(toks[upcoming(toks, mid)].token_type)
                            == Some(operator)
                        &&& line_number == toks[upcoming(toks, mid)].line_number
                        &&& written(toks, *right, upcoming(toks, mid) + 1, to)
                    };
                assert(splits(mid));
                assert(written(toks, *left, from, mid));
            }
        },
        _ => {},
    }
}

/// A primary expression that was parsed is written by the tokens it was
/// parsed from.
pub proof fn lemma_primary_written(toks: Seq<TokenView>, pos: int)
    requires
        is_stream(toks),
        0 <= pos < toks.len(),
        primary(toks, pos).result is Ok,
    ensures
        written(toks, primary(toks, pos).result->Ok_0, pos, primary(toks, pos).pos),
        tightness(primary(toks, pos).result->Ok_0) >= 6,
    decreases toks.len() - pos, 0int,
{
    reveal(primary);
    reveal(expression);
    lemma_upcoming(toks, pos);
    let p = upcoming(toks, pos);
    let token = toks[p];
    if has_next(toks, pos) && !(crate::parser::grammar::literal_of(token.token_type) is Some)
        && token.token_type is LeftParen {
        let inner = expression(toks, p + 1);
        lemma_expression_written(toks, p + 1);
        let mid = choose|mid: int|
            {
                &&& #[trigger] splits(mid)
                &&& written(toks, inner.result->Ok_0, p + 1, mid)
                &&& upcoming(toks, mid) == upcoming(toks, inner.pos)
            };
        lemma_written_extent(toks, inner.result->Ok_0, p + 1, mid);
        lemma_upcoming(toks, mid);
        assert(splits(mid));
    }
}

/// A prefix operation that was parsed is written by the tokens it was
/// parsed from.
pub proof fn lemma_unary_written(toks: Seq<TokenView>, pos: int)
    requires
        is_stream(toks),
        0 <= pos < toks.len(),
        unary(toks, pos).result is Ok,
    ensures
        written(toks, unary(toks, pos).result->Ok_0, pos, unary(toks, pos).pos),
        tightness(unary(toks, pos).result->Ok_0) >= 5,
    decreases toks.len() - pos, 1int,
{
    reveal(unary);
    reveal(primary);
    lemma_upcoming(toks, pos);
    let p = upcoming(toks, pos);
    if has_next(toks, pos) && crate::parser::grammar::prefix_operator(toks[p].token_type) is Some {
        lemma_unary_written(toks, p + 1);
    } else {
        lemma_primary_written(toks, pos);
    }
}

/// An operand of a level that was parsed is written by the tokens it was
/// parsed from, and binds more tightly than the level.
pub proof fn lemma_operand_written(level: Level, toks: Seq<TokenView>, pos: int)
    requires
        is_stream(toks),
        0 <= pos < toks.len(),
        operand(level, toks, pos).result is Ok,
    ensures
        written_before(
            toks,
            operand(level, toks, pos).result->Ok_0,
            pos,
            operand(level, toks, pos).pos,
        ),
        tightness(operand(level, toks, pos).result->Ok_0) > level.tightness(),
        upcoming(toks, pos) < operand(level, toks, pos).pos < toks.len(),
    decreases toks.len() - pos, level.rank(),
{
    reveal(operand);
    reveal(binary);
    reveal(unary);
    lemma_upcoming(toks, pos);
    let parsed = operand(level, toks, pos);
    match level {
        Level::Equality => lemma_binary_written(Level::Comparison, toks, pos),
        Level::Comparison => lemma_binary_written(Level::Term, toks, pos),
        Level::Term => lemma_binary_written(Level::Factor, toks, pos),
        Level::Factor => {
            lemma_unary_written(toks, pos);
            lemma_written_extent(toks, parsed.result->Ok_0, pos, parsed.pos);
            assert(splits(parsed.pos));
        },
    }
}

/// An expression of a level that was parsed is written by the tokens it
/// was parsed from, and binds at least as tightly as the level.
pub proof fn lemma_binary_written(level: Level, toks: Seq<TokenView>, pos: int)
    requires
        is_stream(toks),
        0 <= pos < toks.len(),
        binary(level, toks, pos).result is Ok,
    ensures
        written_before(
            toks,
            binary(level, toks, pos).result->Ok_0,
            pos,
            binary(level, toks, pos).pos,
        ),
        tightness(binary(level, toks, pos).result->Ok_0) >= level.tightness(),
        upcoming(toks, pos) < binary(level, toks, pos).pos < toks.len(),
        upcoming(toks, binary(level, toks, pos).pos) == binary(level, toks, pos).pos,
    decreases toks.len() - pos, level.rank() + 1,
{
    reveal(binary);
    reveal(operand);
    reveal(binary_rest);
    lemma_upcoming(toks, pos);
    let first = operand(level, toks, pos);
    lemma_operand_written(level, toks, pos);
    let to = choose|to: int|
        {
            &&& #[trigger] splits(to)
            &&& written(toks, first.result->Ok_0, pos, to)
            &&& upcoming(toks, to) == upcoming(toks, first.pos)
        };
    lemma_binary_rest_written(level, toks, pos, first.pos, first.result->Ok_0, to);
}

/// A chain of operators that was parsed after `left` is written by the
/// tokens that `left` and the chain were parsed from.
pub proof fn lemma_binary_rest_written(
    level: Level,
    toks: Seq<TokenView>,
    from: int,
    pos: int,
    left: ExprView,
    left_end: int,
)
    requires
        is_stream(toks),
        0 <= from < toks.len(),
        upcoming(toks, from) < pos < toks.len(),
        written(toks, left, from, left_end),
        upcoming(toks, left_end) == upcoming(toks, pos),
        tightness(left) >= level.tightness(),
        binary_rest(level, toks, pos, left).result is Ok,
    ensures
        written_before(
            toks,
            binary_rest(level, toks, pos, left).result->Ok_0,
            from,
            binary_rest(level, toks, pos, left).pos,
        ),
        tightness(binary_rest(level, toks, pos, left).result->Ok_0) >= level.tightness(),
        upcoming(toks, from) < binary_rest(level, toks, pos, left).pos < toks.len(),
        upcoming(toks, binary_rest(level, toks, pos, left).pos) == binary_rest(
            level,
            toks,
            pos,
            left,
        ).pos,
    decreases toks.len() - pos, level.rank(),
{
    reveal(binary_rest);
    reveal(operand);
    reveal(binary);
    lemma_upcoming(toks, pos);
    lemma_written_extent(toks, left, from, left_end);
    lemma_upcoming(toks, left_end);
    let p = upcoming(toks, pos);
    lemma_upcoming(toks, p);
    if has_next(toks, pos) && level.operator(toks[p].token_type) is Some {
        let operator = level.operator(toks[p].token_type)->Some_0;
        let right = operand(level, toks, p + 1);
        lemma_operand_written(level, toks, p + 1);
        let right_end = choose|to: int|
            {
                &&& #[trigger] splits(to)
                &&& written(toks, right.result->Ok_0, p + 1, to)
                &&& upcoming(toks, to) == upcoming(toks, right.pos)
            };
        let joined = ExprView::Binary {
            left: Box::new(left),
            operator,
            right: Box::new(right.result->Ok_0),
            line_number: toks[p].line_number,
        };
        assert(level_of(operator) == level);
        assert(splits(left_end));
        assert(written(toks, joined, from, right_end));
        lemma_binary_rest_written(level, toks, from, right.pos, joined, right_end);
    } else {
        assert(splits(left_end));
    }
}

/// An expression that was parsed is written by the tokens it was parsed
/// from.
pub proof fn lemma_expression_written(toks: Seq<TokenView>, pos: int)
    requires
        is_stream(toks),
        0 <= pos < toks.len(),
        expression(toks, pos).result is Ok,
    ensures
        assignment(toks, pos) == expression(toks, pos),
        written_before(toks, expression(toks, pos).result->Ok_0, pos, expression(toks, pos).pos),
        upcoming(toks, pos) < expression(toks, pos).pos < toks.len(),
        upcoming(toks, expression(toks, pos).pos) == expression(toks, pos).pos,
    decreases toks.len() - pos, 11int,
{
    reveal(expression);
    reveal(assignment);
    reveal(binary);
    lemma_upcoming(toks, pos);
    let target = binary(Level::Equality, toks, pos);
    lemma_binary_written(Level::Equality, toks, pos);
    let target_end = choose|to: int|
        {
            &&& #[trigger] splits(to)
            &&& written(toks, target.result->Ok_0, pos, to)
            &&& upcoming(toks, to) == upcoming(toks, target.pos)
        };
    lemma_written_extent(toks, target.result->Ok_0, pos, target_end);
    lemma_upcoming(toks, target_end);
    lemma_upcoming(toks, target.pos);
    let p = upcoming(toks, target.pos);
    if next_is(toks, target.pos, TokenTypeView::Equal) && within(toks, upcoming(toks, pos), p) {
        let value = assignment(toks, p + 1);
        lemma_expression_written(toks, p + 1);
        let value_end = choose|to: int|
            {
                &&& #[trigger] splits(to)
                &&& written(toks, value.result->Ok_0, p + 1, to)
                &&& upcoming(toks, to) == upcoming(toks, value.pos)
            };
        assert(splits(value_end));
        let first = upcoming(toks, pos);
        lemma_upcoming(toks, first + 1);
    } else {
        assert(splits(target_end));
    }
}

/// Trivia before a statement do not matter.
pub proof fn lemma_written_stmt_skips_trivia(
    toks: Seq<TokenView>,
    stmt: StmtView,
    from: int,
    to: int,
)
    requires
        is_stream(toks),
        0 <= from < toks.len(),
    ensures
        written_stmt(toks, stmt, upcoming(toks, from), to) == written_stmt(toks, stmt, from, to),
{
    lemma_upcoming(toks, from);
    match stmt {
        StmtView::Expression { expression } => {
            assert forall|mid: int|
                written(toks, expression, upcoming(toks, from), mid) == written(
                    toks,
                    expression,
                    from,
                    mid,
                ) by {
                lemma_written_skips_trivia(toks, expression, from, mid);
            }
            if written_stmt(toks, stmt, from, to) {
                let mid = choose|mid: int|
                    {
                        &&& #[trigger] splits(mid)
                        &&& written(toks, expression, from, mid)
                        &&& closed_by_semicolon(toks, mid, to)
                    };
                assert(splits(mid));
                assert(written(toks, expression, upcoming(toks, from), mid));
            }
            if written_stmt(toks, stmt, upcoming(toks, from), to) {
                let mid = choose|mid: int|
                    {
                        &&& #[trigger] splits(mid)
                        &&& written(toks, expression, upcoming(toks, from), mid)
                        &&& closed_by_semicolon(toks, mid, to)
                    };
                assert(splits(mid));
                assert(written(toks, expression, from, mid));
            }
        },
        _ => {},
    }
}

/// An expression that was parsed and the `;` that was consumed after it.
proof fn lemma_closed_expression(toks: Seq<TokenView>, pos: int, message: Seq<char>)
    requires
        is_stream(toks),
        0 <= pos < toks.len(),
        expression(toks, pos).result is Ok,
        consume(toks, expression(toks, pos).pos, TokenTypeView::Semicolon, message).result is Ok,
    ensures
        exists|mid: int|
            {
                &&& #[trigger] splits(mid)
                &&& written(toks, expression(toks, pos).result->Ok_0, pos, mid)
                &&& closed_by_semicolon(
                    toks,
                    mid,
                    consume(toks, expression(toks, pos).pos, TokenTypeView::Semicolon, message).pos,
                )
            },
        upcoming(toks, pos) < consume(
            toks,
            expression(toks, pos).pos,
            TokenTypeView::Semicolon,
            message,
        ).pos < toks.len(),
{
    let value = expression(toks, pos);
    lemma_expression_written(toks, pos);
    let mid = choose|mid: int|
        {
            &&& #[trigger] splits(mid)
            &&& written(toks, value.result->Ok_0, pos, mid)
            &&& upcoming(toks, mid) == upcoming(toks, value.pos)
        };
    lemma_written_extent(toks, value.result->Ok_0, pos, mid);
    lemma_upcoming(toks, mid);
    lemma_upcoming(toks, value.pos);
    assert(splits(mid));
}

/// A statement that was parsed is written by the tokens it was parsed from.
pub proof fn lemma_declaration_written(toks: Seq<TokenView>, pos: int)
    requires
        is_stream(toks),
        0 <= pos < toks.len(),
        declaration(toks, pos).result is Ok,
    ensures
        written_stmt(toks, declaration(toks, pos).result->Ok_0, pos, declaration(toks, pos).pos),
        upcoming(toks, pos) < declaration(toks, pos).pos < toks.len(),
    decreases toks.len() - pos, 15int,
{
    reveal(declaration);
    reveal(statement);
    reveal(var_declaration);
    reveal(print_statement);
    reveal(expression_statement);
    reveal(expression);
    reveal(block_rest);
    lemma_upcoming(toks, pos);
    let p = upcoming(toks, pos);
    if next_is(toks, pos, TokenTypeView::Keyword(Keyword::Var)) {
        lemma_upcoming(toks, p + 1);
        let q = upcoming(toks, p + 1);
        if has_next(toks, p + 1) {
            lemma_upcoming(toks, q + 1);
            if next_is(toks, q + 1, TokenTypeView::Equal) {
                lemma_closed_expression(
                    toks,
                    upcoming(toks, q + 1) + 1,
                    "Expect ';' after variable declaration."@,
                );
            }
        } else {
            assert(!(toks[q - 1].token_type is Ident)) by {
                if q - 1 > p {
                    lemma_upcoming(toks, q - 1);
                }
            }
        }
    } else if next_is(toks, pos, TokenTypeView::Keyword(Keyword::Print)) {
        lemma_closed_expression(toks, p + 1, "Expect ';' after value."@);
    } else if next_is(toks, pos, TokenTypeView::LeftBrace) {
        lemma_block_written(toks, p + 1, Seq::empty());
        let body = block_rest(toks, p + 1, Seq::empty()).result->Ok_0;
        let mid = choose|mid: int|
            {
                &&& #[trigger] splits(mid)
                &&& written_all(toks, body, 0, p + 1, mid)
                &&& next_is(toks, mid, TokenTypeView::RightBrace)
                &&& block_rest(toks, p + 1, Seq::empty()).pos == upcoming(toks, mid) + 1
            };
        assert(splits(mid));
    } else {
        lemma_closed_expression(toks, pos, "Expect ';' afrer expression."@);
    }
}

/// The statements of a block that were parsed after `before` are written
/// by the tokens they were parsed from, up to the closing brace.
pub proof fn lemma_block_written(toks: Seq<TokenView>, pos: int, before: Seq<StmtView>)
    requires
        is_stream(toks),
        0 <= pos < toks.len(),
        block_rest(toks, pos, before).result is Ok,
    ensures
        before.is_prefix_of(block_rest(toks, pos, before).result->Ok_0),
        exists|mid: int|
            {
                &&& #[trigger] splits(mid)
                &&& written_all(
                    toks,
                    block_rest(toks, pos, before).result->Ok_0,
                    before.len() as int,
                    pos,
                    mid,
                )
                &&& next_is(toks, mid, TokenTypeView::RightBrace)
                &&& block_rest(toks, pos, before).pos == upcoming(toks, mid) + 1
            },
        pos < block_rest(toks, pos, before).pos < toks.len(),
    decreases toks.len() - pos, 16int,
{
    reveal(block_rest);
    reveal(declaration);
    lemma_upcoming(toks, pos);
    let p = upcoming(toks, pos);
    let all = block_rest(toks, pos, before).result->Ok_0;
    if !has_next(toks, pos) || toks[p].token_type is RightBrace {
        assert(splits(pos));
        assert(all == before);
    } else {
        let next = declaration(toks, p);
        lemma_upcoming(toks, p);
        lemma_declaration_written(toks, p);
        lemma_written_stmt_skips_trivia(toks, next.result->Ok_0, pos, next.pos);
        let longer = before.push(next.result->Ok_0);
        lemma_block_written(toks, next.pos, longer);
        let mid = choose|mid: int|
            {
                &&& #[trigger] splits(mid)
                &&& written_all(toks, all, longer.len() as int, next.pos, mid)
                &&& next_is(toks, mid, TokenTypeView::RightBrace)
                &&& block_rest(toks, next.pos, longer).pos == upcoming(toks, mid) + 1
            };
        assert(all[before.len() as int] == longer[before.len() as int]);
        assert(splits(next.pos));
        assert(written_all(toks, all, before.len() as int, pos, mid));
        assert(splits(mid));
    }
}

/// Once an error was met, a program has no other outcome.
pub proof fn lemma_program_keeps_error(
    toks: Seq<TokenView>,
    pos: int,
    before: Seq<StmtView>,
    error: ParseErrorView,
)
    requires
        is_stream(toks),
        0 <= pos < toks.len(),
    ensures
        program_rest(toks, pos, before, Some(error)).result == Err::<Seq<StmtView>, _>(error),
    decreases toks.len() - pos,
{
    reveal(program_rest);
    reveal(declaration);
    lemma_upcoming(toks, pos);
    let p = upcoming(toks, pos);
    if has_next(toks, pos) {
        let next = declaration(toks, p);
        let resume = if next.result is Ok {
            next.pos
        } else {
            crate::parser::grammar::synchronize(toks, next.pos)
        };
        let longer = if next.result is Ok {
            before.push(next.result->Ok_0)
        } else {
            before
        };
        if within(toks, p + 1, resume) && resume < toks.len() {
            lemma_program_keeps_error(toks, resume, longer, error);
        } else if within(toks, p + 1, resume) {
            assert(!has_next(toks, resume));
        }
    }
}

/// The statements of a program that were parsed after `before` are written
/// by the tokens they were parsed from, up to the end of input.
pub proof fn lemma_program_written(toks: Seq<TokenView>, pos: int, before: Seq<StmtView>)
    requires
        is_stream(toks),
        0 <= pos < toks.len(),
        program_rest(toks, pos, before, None).result is Ok,
    ensures
        before.is_prefix_of(program_rest(toks, pos, before, None).result->Ok_0),
        exists|end: int|
            {
                &&& #[trigger] splits(end)
                &&& written_all(
                    toks,
                    program_rest(toks, pos, before, None).result->Ok_0,
                    before.len() as int,
                    pos,
                    end,
                )
                &&& !has_next(toks, end)
            },
    decreases toks.len() - pos,
{
    reveal(program_rest);
    reveal(declaration);
    lemma_upcoming(toks, pos);
    let p = upcoming(toks, pos);
    let all = program_rest(toks, pos, before, None).result->Ok_0;
    if !has_next(toks, pos) {
        assert(splits(pos));
        assert(all == before);
    } else {
        let next = declaration(toks, p);
        lemma_upcoming(toks, p);
        if next.result is Err {
            let resume = crate::parser::grammar::synchronize(toks, next.pos);
            if within(toks, p + 1, resume) && resume < toks.len() {
                lemma_program_keeps_error(toks, resume, before, next.result->Err_0);
            } else if within(toks, p + 1, resume) {
                assert(!has_next(toks, resume));
            }
        } else {
            lemma_declaration_written(toks, p);
            lemma_written_stmt_skips_trivia(toks, next.result->Ok_0, pos, next.pos);
            let longer = before.push(next.result->Ok_0);
            lemma_program_written(toks, next.pos, longer);
            let end = choose|end: int|
                {
                    &&& #[trigger] splits(end)
                    &&& written_all(toks, all, longer.len() as int, next.pos, end)
                    &&& !has_next(toks, end)
                };
            assert(all[before.len() as int] == longer[before.len() as int]);
            assert(splits(next.pos));
            assert(written_all(toks, all, before.len() as int, pos, end));
            assert(splits(end));
        }
    }
}

/// Whatever the parser accepts as a program is a program of the syntax,
/// and the statements that it gives are the ones that the tokens write.
pub proof fn lemma_parsed_program_is_valid(toks: Seq<TokenView>, stmts: Seq<StmtView>)
    requires
        is_stream(toks),
        program(toks, 0).result == Ok::<Seq<StmtView>, ParseErrorView>(stmts),
    ensures
        writes_program(toks, stmts),
{
    lemma_program_written(toks, 0, Seq::empty());
    let end = choose|end: int|
        {
            &&& #[trigger] splits(end)
            &&& written_all(toks, stmts, 0, 0, end)
            &&& !has_next(toks, end)
        };
    assert(splits(end));
}

/// The parser accepts exactly the programs of the syntax.
pub proof fn lemma_parser_decides_syntax(toks: Seq<TokenView>, stmts: Seq<StmtView>)
    requires
        is_stream(toks),
    ensures
        program(toks, 0).result == Ok::<Seq<StmtView>, ParseErrorView>(stmts) <==> writes_program(
            toks,
            stmts,
        ),
{
    if writes_program(toks, stmts) {
        crate::parser::completeness::lemma_valid_program_parses(toks, stmts);
    }
    if program(toks, 0).result == Ok::<Seq<StmtView>, ParseErrorView>(stmts) {
        lemma_parsed_program_is_valid(toks, stmts);
    }
}

} // verus!
