//! Every program that the syntax admits is parsed, and parsed as the tree
//! that it writes.

use vstd::prelude::*;
use crate::lexer::token::{TokenTypeView, TokenView};
use crate::parser::error::ParseErrorView;
use crate::parser::expr::ExprView;
use crate::parser::grammar::{
    assignment, binary, binary_rest, block_rest, consume, declaration, expression,
    expression_statement, has_next, is_stream, lemma_block_rest_closes, lemma_block_rest_continues,
    lemma_statement_skips_trivia, lemma_upcoming, literal_of, next_is, operand, parsed,
    prefix_operator, primary, print_statement, program, program_rest, statement, unary, upcoming,
    var_declaration, within, Level,
};
use crate::parser::stmt::StmtView;
use crate::parser::syntax::{
    closed_by_semicolon, level_of, operator_tightness, splits, tightness, writes_program, written,
    written_all, written_stmt,
};

verus! {

/// The number of nodes on the longest path down an expression.
pub open spec fn height(expr: ExprView) -> nat
    decreases expr,
{
    match expr {
        ExprView::Binary { left, right, .. } => 1 + if height(*left) >= height(*right) {
            height(*left)
        } else {
            height(*right)
        },
        ExprView::Grouping { expression, .. } => 1 + height(*expression),
        ExprView::Unary { right, .. } => 1 + height(*right),
        ExprView::Assign { value, .. } => 1 + height(*value),
        _ => 1,
    }
}

/// Whether a token can begin an expression.
pub open spec fn begins_expression(kind: TokenTypeView) -> bool {
    literal_of(kind) is Some || kind is Ident || kind is LeftParen || prefix_operator(kind) is Some
}

/// Whether no binary operator that binds at least as tightly as `least`
/// comes up at `pos`.
pub open spec fn no_operator_from(toks: Seq<TokenView>, pos: int, least: int) -> bool {
    !(has_next(toks, pos) && operator_tightness(toks[upcoming(toks, pos)].token_type) is Some
        && operator_tightness(toks[upcoming(toks, pos)].token_type)->Some_0 >= least)
}

/// Whether what comes up at `pos` ends an expression: no binary operator
/// and no `=`.
pub open spec fn ends_expression(toks: Seq<TokenView>, pos: int) -> bool {
    no_operator_from(toks, pos, 1) && !next_is(toks, pos, TokenTypeView::Equal)
}

/// The level that binds next tighter, for the levels that have one.
pub open spec fn tighter(level: Level) -> Level {
    match level {
        Level::Equality => Level::Comparison,
        Level::Comparison => Level::Term,
        _ => Level::Factor,
    }
}

/// An expression takes at least one token, and the tokens that write it lie
/// before the end marker; its first token is one that begins expressions.
pub proof fn lemma_written_extent(toks: Seq<TokenView>, expr: ExprView, from: int, to: int)
    requires
        is_stream(toks),
        0 <= from < toks.len(),
        written(toks, expr, from, to),
    ensures
        has_next(toks, from),
        upcoming(toks, from) < to < toks.len(),
        begins_expression(toks[upcoming(toks, from)].token_type),
    decreases expr,
{
    lemma_upcoming(toks, from);
    let p = upcoming(toks, from);
    match expr {
        ExprView::Literal { .. } => {},
        ExprView::Variable { .. } => {},
        ExprView::Grouping { expression, .. } => {
            let mid = choose|mid: int|
                {
                    &&& #[trigger] splits(mid)
                    &&& written(toks, *expression, p + 1, mid)
                    &&& next_is(toks, mid, TokenTypeView::RightParen)
                    &&& to == upcoming(toks, mid) + 1
                };
            lemma_written_extent(toks, *expression, p + 1, mid);
            lemma_upcoming(toks, mid);
        },
        ExprView::Unary { right, .. } => {
            lemma_written_extent(toks, *right, p + 1, to);
        },
        ExprView::Binary { left, operator, right, line_number } => {
            let mid = choose|mid: int|
                {
                    &&& #[trigger] splits(mid)
                    &&& written(toks, *left, from, mid)
                    &&& has_next(toks, mid)
                    &&& level_of(operator).operator(toks[upcoming(toks, mid)].token_type) == Some(
                        operator,
                    )
                    &&& line_number == toks[upcoming(toks, mid)].line_number
                    &&& written(toks, *right, upcoming(toks, mid) + 1, to)
                };
            lemma_written_extent(toks, *left, from, mid);
            lemma_upcoming(toks, mid);
            lemma_written_extent(toks, *right, upcoming(toks, mid) + 1, to);
        },
        ExprView::Assign { value, .. } => {
            lemma_upcoming(toks, p + 1);
            lemma_written_extent(toks, *value, upcoming(toks, p + 1) + 1, to);
        },
    }
}

/// Trivia before the rest of a chain of operators do not matter.
pub proof fn lemma_binary_rest_skips_trivia(
    level: Level,
    toks: Seq<TokenView>,
    pos: int,
    left: ExprView,
)
    requires
        is_stream(toks),
        0 <= pos < toks.len(),
    ensures
        binary_rest(level, toks, upcoming(toks, pos), left) == binary_rest(level, toks, pos, left),
{
    reveal(binary_rest);
    lemma_upcoming(toks, pos);
}

/// A chain of operators ends where no operator of its level comes up.
pub proof fn lemma_binary_rest_stops(level: Level, toks: Seq<TokenView>, pos: int, left: ExprView)
    requires
        is_stream(toks),
        0 <= pos < toks.len(),
        no_operator_from(toks, pos, level.tightness()),
    ensures
        binary_rest(level, toks, pos, left) == parsed(left, upcoming(toks, pos)),
{
    reveal(binary_rest);
    lemma_upcoming(toks, pos);
}

/// A primary expression that the tokens write is parsed as such.
pub proof fn lemma_primary_parses(toks: Seq<TokenView>, expr: ExprView, from: int, to: int)
    requires
        is_stream(toks),
        0 <= from < toks.len(),
        written(toks, expr, from, to),
        tightness(expr) >= 6,
    ensures
        primary(toks, from) == parsed(expr, to),
    decreases height(expr), 0int,
{
    reveal(primary);
    reveal(expression);
    lemma_upcoming(toks, from);
    let p = upcoming(toks, from);
    match expr {
        ExprView::Grouping { expression: inner, .. } => {
            let mid = choose|mid: int|
                {
                    &&& #[trigger] splits(mid)
                    &&& written(toks, *inner, p + 1, mid)
                    &&& next_is(toks, mid, TokenTypeView::RightParen)
                    &&& to == upcoming(toks, mid) + 1
                };
            lemma_written_extent(toks, *inner, p + 1, mid);
            lemma_upcoming(toks, mid);
            lemma_upcoming(toks, upcoming(toks, mid));
            lemma_expression_parses(toks, *inner, p + 1, mid);
        },
        _ => {},
    }
}

/// A prefix operation or primary expression that the tokens write is
/// parsed as such.
pub proof fn lemma_unary_parses(toks: Seq<TokenView>, expr: ExprView, from: int, to: int)
    requires
        is_stream(toks),
        0 <= from < toks.len(),
        written(toks, expr, from, to),
        tightness(expr) >= 5,
    ensures
        unary(toks, from) == parsed(expr, to),
    decreases height(expr), 1int,
{
    reveal(unary);
    reveal(primary);
    lemma_upcoming(toks, from);
    let p = upcoming(toks, from);
    match expr {
        ExprView::Unary { right, .. } => {
            lemma_written_extent(toks, *right, p + 1, to);
            lemma_unary_parses(toks, *right, p + 1, to);
        },
        _ => {
            lemma_primary_parses(toks, expr, from, to);
        },
    }
}

/// An operand of a level that the tokens write is parsed as such, if no
/// operator of a tighter level follows it; the parser then stands before
/// whatever follows.
pub proof fn lemma_operand_parses(
    level: Level,
    toks: Seq<TokenView>,
    expr: ExprView,
    from: int,
    to: int,
)
    requires
        is_stream(toks),
        0 <= from < toks.len(),
        written(toks, expr, from, to),
        tightness(expr) > level.tightness(),
        no_operator_from(toks, to, level.tightness() + 1),
    ensures
        operand(level, toks, from).result == Ok::<ExprView, ParseErrorView>(expr),
        upcoming(toks, operand(level, toks, from).pos) == upcoming(toks, to),
        within(toks, upcoming(toks, from), operand(level, toks, from).pos),
        from < operand(level, toks, from).pos < toks.len(),
    decreases height(expr), level.rank(),
{
    reveal(operand);
    reveal(binary);
    reveal(unary);
    lemma_written_extent(toks, expr, from, to);
    lemma_upcoming(toks, from);
    lemma_upcoming(toks, to);
    if level is Factor {
        lemma_unary_parses(toks, expr, from, to);
    } else {
        let next = tighter(level);
        lemma_binary_parses(next, toks, expr, from, to);
        lemma_binary_rest_stops(next, toks, to, expr);
        assert(operand(level, toks, from) == binary(next, toks, from));
    }
}

/// An expression of a level or tighter that the tokens write is parsed up
/// to its end, if no operator of a tighter level follows it: the parser
/// goes on from there with the expression as the left operand.
pub proof fn lemma_binary_parses(
    level: Level,
    toks: Seq<TokenView>,
    expr: ExprView,
    from: int,
    to: int,
)
    requires
        is_stream(toks),
        0 <= from < toks.len(),
        written(toks, expr, from, to),
        tightness(expr) >= level.tightness(),
        no_operator_from(toks, to, level.tightness() + 1),
    ensures
        binary(level, toks, from) == binary_rest(level, toks, to, expr),
    decreases height(expr), level.rank() + 1,
{
    reveal(binary);
    reveal(binary_rest);
    reveal(operand);
    lemma_written_extent(toks, expr, from, to);
    lemma_upcoming(toks, from);
    lemma_upcoming(toks, to);
    if tightness(expr) > level.tightness() {
        lemma_operand_parses(level, toks, expr, from, to);
        let first = operand(level, toks, from);
        lemma_binary_rest_skips_trivia(level, toks, first.pos, expr);
        lemma_binary_rest_skips_trivia(level, toks, to, expr);
    } else {
        match expr {
            ExprView::Binary { left, operator, right, line_number } => {
                let mid = choose|mid: int|
                    {
                        &&& #[trigger] splits(mid)
                        &&& written(toks, *left, from, mid)
                        &&& has_next(toks, mid)
                        &&& level_of(operator).operator(toks[upcoming(toks, mid)].token_type)
                            == Some(operator)
                        &&& line_number == toks[upcoming(toks, mid)].line_number
                        &&& written(toks, *right, upcoming(toks, mid) + 1, to)
                    };
                let q = upcoming(toks, mid);
                assert(level_of(operator) == level);
                lemma_written_extent(toks, *left, from, mid);
                lemma_upcoming(toks, mid);
                lemma_binary_parses(level, toks, *left, from, mid);
                lemma_operand_parses(level, toks, *right, q + 1, to);
                let second = operand(level, toks, q + 1);
                lemma_binary_rest_skips_trivia(level, toks, second.pos, expr);
                lemma_binary_rest_skips_trivia(level, toks, to, expr);
                assert(binary_rest(level, toks, mid, *left) == binary_rest(
                    level,
                    toks,
                    second.pos,
                    expr,
                ));
            },
            _ => {},
        }
    }
}

/// An expression that the tokens write is parsed as such, if what follows
/// it ends an expression; the parser then stands before what follows.
pub proof fn lemma_expression_parses(toks: Seq<TokenView>, expr: ExprView, from: int, to: int)
    requires
        is_stream(toks),
        0 <= from < toks.len(),
        written(toks, expr, from, to),
        ends_expression(toks, to),
    ensures
        assignment(toks, from) == parsed(expr, upcoming(toks, to)),
        expression(toks, from) == parsed(expr, upcoming(toks, to)),
    decreases height(expr), 20int,
{
    reveal(expression);
    reveal(assignment);
    reveal(binary);
    lemma_written_extent(toks, expr, from, to);
    lemma_upcoming(toks, from);
    lemma_upcoming(toks, to);
    lemma_upcoming(toks, upcoming(toks, to));
    let p = upcoming(toks, from);
    match expr {
        ExprView::Assign { name, value } => {
            let target = ExprView::Variable { name };
            lemma_upcoming(toks, p + 1);
            lemma_upcoming(toks, upcoming(toks, p + 1));
            let q = upcoming(toks, p + 1);
            assert(written(toks, target, from, p + 1));
            lemma_binary_parses(Level::Equality, toks, target, from, p + 1);
            lemma_binary_rest_stops(Level::Equality, toks, p + 1, target);
            lemma_written_extent(toks, *value, q + 1, to);
            lemma_expression_parses(toks, *value, q + 1, to);
        },
        _ => {
            lemma_binary_parses(Level::Equality, toks, expr, from, to);
            lemma_binary_rest_stops(Level::Equality, toks, to, expr);
        },
    }
}

/// A statement takes at least one token, and the tokens that write it lie
/// before the end marker; its first token is no closing brace.
pub proof fn lemma_statement_extent(toks: Seq<TokenView>, stmt: StmtView, from: int, to: int)
    requires
        is_stream(toks),
        0 <= from < toks.len(),
        written_stmt(toks, stmt, from, to),
    ensures
        has_next(toks, from),
        upcoming(toks, from) < to < toks.len(),
        !(toks[upcoming(toks, from)].token_type is RightBrace),
    decreases stmt, 0nat,
{
    lemma_upcoming(toks, from);
    let p = upcoming(toks, from);
    match stmt {
        StmtView::Expression { expression } => {
            let mid = choose|mid: int|
                {
                    &&& #[trigger] splits(mid)
                    &&& written(toks, expression, from, mid)
                    &&& closed_by_semicolon(toks, mid, to)
                };
            lemma_written_extent(toks, expression, from, mid);
            lemma_upcoming(toks, mid);
        },
        StmtView::Print { expression } => {
            let mid = choose|mid: int|
                {
                    &&& #[trigger] splits(mid)
                    &&& written(toks, expression, p + 1, mid)
                    &&& closed_by_semicolon(toks, mid, to)
                };
            lemma_written_extent(toks, expression, p + 1, mid);
            lemma_upcoming(toks, mid);
        },
        StmtView::Var { name, initializer } => {
            lemma_upcoming(toks, p + 1);
            let q = upcoming(toks, p + 1);
            lemma_upcoming(toks, q + 1);
            match initializer {
                None => {},
                Some(expression) => {
                    let mid = choose|mid: int|
                        {
                            &&& #[trigger] splits(mid)
                            &&& written(toks, expression, upcoming(toks, q + 1) + 1, mid)
                            &&& closed_by_semicolon(toks, mid, to)
                        };
                    lemma_written_extent(toks, expression, upcoming(toks, q + 1) + 1, mid);
                    lemma_upcoming(toks, mid);
                },
            }
        },
        StmtView::Block { statements } => {
            let mid = choose|mid: int|
                {
                    &&& #[trigger] splits(mid)
                    &&& written_all(toks, statements, 0, p + 1, mid)
                    &&& next_is(toks, mid, TokenTypeView::RightBrace)
                    &&& to == upcoming(toks, mid) + 1
                };
            lemma_statements_extent(toks, statements, 0, p + 1, mid);
            lemma_upcoming(toks, mid);
        },
    }
}

/// The tokens that write statements lie before the end marker.
pub proof fn lemma_statements_extent(
    toks: Seq<TokenView>,
    stmts: Seq<StmtView>,
    index: int,
    from: int,
    to: int,
)
    requires
        is_stream(toks),
        0 <= from < toks.len(),
        0 <= index,
        written_all(toks, stmts, index, from, to),
    ensures
        from <= to < toks.len(),
    decreases stmts, stmts.len() - index,
{
    if index < stmts.len() {
        let mid = choose|mid: int|
            {
                &&& #[trigger] splits(mid)
                &&& written_stmt(toks, stmts[index], from, mid)
                &&& written_all(toks, stmts, index + 1, mid, to)
            };
        lemma_statement_extent(toks, stmts[index], from, mid);
        lemma_upcoming(toks, from);
        lemma_statements_extent(toks, stmts, index + 1, mid, to);
    }
}

/// The `;` that closes a statement is consumed.
proof fn lemma_semicolon_consumed(toks: Seq<TokenView>, mid: int, to: int, message: Seq<char>)
    requires
        is_stream(toks),
        0 <= mid < toks.len(),
        closed_by_semicolon(toks, mid, to),
    ensures
        consume(toks, mid, TokenTypeView::Semicolon, message) == parsed((), to),
        consume(toks, upcoming(toks, mid), TokenTypeView::Semicolon, message) == parsed((), to),
        ends_expression(toks, mid),
        has_next(toks, upcoming(toks, mid)),
        !(toks[upcoming(toks, upcoming(toks, mid))].token_type is Eof),
{
    lemma_upcoming(toks, mid);
    lemma_upcoming(toks, upcoming(toks, mid));
}

/// A statement that the tokens write is parsed as such.
pub proof fn lemma_declaration_parses(toks: Seq<TokenView>, stmt: StmtView, from: int, to: int)
    requires
        is_stream(toks),
        0 <= from < toks.len(),
        written_stmt(toks, stmt, from, to),
    ensures
        declaration(toks, from) == parsed(stmt, to),
    decreases stmt, 0nat,
{
    reveal(declaration);
    reveal(statement);
    reveal(var_declaration);
    reveal(print_statement);
    reveal(expression_statement);
    reveal(expression);
    reveal(block_rest);
    lemma_upcoming(toks, from);
    let p = upcoming(toks, from);
    match stmt {
        StmtView::Expression { expression: expr } => {
            let mid = choose|mid: int|
                {
                    &&& #[trigger] splits(mid)
                    &&& written(toks, expr, from, mid)
                    &&& closed_by_semicolon(toks, mid, to)
                };
            lemma_written_extent(toks, expr, from, mid);
            lemma_semicolon_consumed(toks, mid, to, "Expect ';' afrer expression."@);
            lemma_expression_parses(toks, expr, from, mid);
        },
        StmtView::Print { expression: expr } => {
            let mid = choose|mid: int|
                {
                    &&& #[trigger] splits(mid)
                    &&& written(toks, expr, p + 1, mid)
                    &&& closed_by_semicolon(toks, mid, to)
                };
            lemma_written_extent(toks, expr, p + 1, mid);
            lemma_semicolon_consumed(toks, mid, to, "Expect ';' after value."@);
            lemma_expression_parses(toks, expr, p + 1, mid);
        },
        StmtView::Var { name, initializer } => {
            lemma_upcoming(toks, p + 1);
            let q = upcoming(toks, p + 1);
            lemma_upcoming(toks, q + 1);
            match initializer {
                None => {
                    lemma_semicolon_consumed(
                        toks,
                        q + 1,
                        to,
                        "Expect ';' after variable declaration."@,
                    );
                },
                Some(expr) => {
                    let mid = choose|mid: int|
                        {
                            &&& #[trigger] splits(mid)
                            &&& written(toks, expr, upcoming(toks, q + 1) + 1, mid)
                            &&& closed_by_semicolon(toks, mid, to)
                        };
                    lemma_written_extent(toks, expr, upcoming(toks, q + 1) + 1, mid);
                    lemma_semicolon_consumed(
                        toks,
                        mid,
                        to,
                        "Expect ';' after variable declaration."@,
                    );
                    lemma_expression_parses(toks, expr, upcoming(toks, q + 1) + 1, mid);
                },
            }
        },
        StmtView::Block { statements } => {
            let mid = choose|mid: int|
                {
                    &&& #[trigger] splits(mid)
                    &&& written_all(toks, statements, 0, p + 1, mid)
                    &&& next_is(toks, mid, TokenTypeView::RightBrace)
                    &&& to == upcoming(toks, mid) + 1
                };
            lemma_block_parses(toks, statements, 0, p + 1, mid, Seq::empty());
            assert(Seq::<StmtView>::empty() + statements.skip(0) =~= statements);
        },
    }
}

/// The statements of a block that the tokens write are parsed as such, up
/// to and with the closing brace.
pub proof fn lemma_block_parses(
    toks: Seq<TokenView>,
    stmts: Seq<StmtView>,
    index: int,
    from: int,
    to: int,
    before: Seq<StmtView>,
)
    requires
        is_stream(toks),
        0 <= from < toks.len(),
        0 <= index <= stmts.len(),
        written_all(toks, stmts, index, from, to),
        next_is(toks, to, TokenTypeView::RightBrace),
    ensures
        block_rest(toks, from, before) == parsed(
            before + stmts.skip(index),
            upcoming(toks, to) + 1,
        ),
    decreases stmts, stmts.len() - index,
{
    lemma_upcoming(toks, from);
    if index < stmts.len() {
        let mid = choose|mid: int|
            {
                &&& #[trigger] splits(mid)
                &&& written_stmt(toks, stmts[index], from, mid)
                &&& written_all(toks, stmts, index + 1, mid, to)
            };
        lemma_statement_extent(toks, stmts[index], from, mid);
        lemma_block_rest_continues(toks, from, before);
        lemma_statement_skips_trivia(toks, from);
        lemma_declaration_parses(toks, stmts[index], from, mid);
        lemma_block_parses(toks, stmts, index + 1, mid, to, before.push(stmts[index]));
        assert(before.push(stmts[index]) + stmts.skip(index + 1) =~= before + stmts.skip(index));
    } else {
        lemma_block_rest_closes(toks, from, before);
        assert(before + stmts.skip(index) =~= before);
    }
}

/// The statements of a program that the tokens write are parsed as such.
pub proof fn lemma_program_parses(
    toks: Seq<TokenView>,
    stmts: Seq<StmtView>,
    index: int,
    from: int,
    to: int,
    before: Seq<StmtView>,
)
    requires
        is_stream(toks),
        0 <= from < toks.len(),
        0 <= index <= stmts.len(),
        written_all(toks, stmts, index, from, to),
        !has_next(toks, to),
    ensures
        program_rest(toks, from, before, None).result == Ok::<Seq<StmtView>, ParseErrorView>(
            before + stmts.skip(index),
        ),
    decreases stmts.len() - index,
{
    reveal(program_rest);
    lemma_upcoming(toks, from);
    if index < stmts.len() {
        let mid = choose|mid: int|
            {
                &&& #[trigger] splits(mid)
                &&& written_stmt(toks, stmts[index], from, mid)
                &&& written_all(toks, stmts, index + 1, mid, to)
            };
        lemma_statement_extent(toks, stmts[index], from, mid);
        lemma_statement_skips_trivia(toks, from);
        lemma_declaration_parses(toks, stmts[index], from, mid);
        lemma_program_parses(toks, stmts, index + 1, mid, to, before.push(stmts[index]));
        assert(before.push(stmts[index]) + stmts.skip(index + 1) =~= before + stmts.skip(index));
    } else {
        assert(before + stmts.skip(index) =~= before);
    }
}

/// Every program that the syntax admits is parsed without an error, and as
/// the statements that it writes.
pub proof fn lemma_valid_program_parses(toks: Seq<TokenView>, stmts: Seq<StmtView>)
    requires
        writes_program(toks, stmts),
    ensures
        program(toks, 0).result == Ok::<Seq<StmtView>, ParseErrorView>(stmts),
{
    let end = choose|end: int|
        {
            &&& #[trigger] splits(end)
            &&& written_all(toks, stmts, 0, 0, end)
            &&& !has_next(toks, end)
        };
    lemma_program_parses(toks, stmts, 0, 0, end, Seq::empty());
    assert(Seq::<StmtView>::empty() + stmts.skip(0) =~= stmts);
}

/// Every expression that the syntax admits and that stands alone in the
/// token sequence is parsed without an error, and as the tree that it writes.
pub proof fn lemma_valid_expression_parses(toks: Seq<TokenView>, expr: ExprView, end: int)
    requires
        is_stream(toks),
        written(toks, expr, 0, end),
        !has_next(toks, end),
    ensures
        expression(toks, 0).result == Ok::<ExprView, ParseErrorView>(expr),
{
    lemma_expression_parses(toks, expr, 0, end);
}

} // verus!
