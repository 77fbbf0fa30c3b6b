//! The syntax of the language, stated from the side of the tree: which
//! stretch of a token sequence writes a given expression or statement.
//!
//! ```text
//! program     := declaration* EOF
//! declaration := varDecl | statement
//! varDecl     := "var" IDENT ( "=" expression )? ";"
//! statement   := printStmt | block | exprStmt
//! printStmt   := "print" expression ";"
//! block       := "{" declaration* "}"
//! exprStmt    := expression ";"
//! expression  := assignment
//! assignment  := equality ( "=" assignment )?
//! equality    := comparison ( ("=="|"!=") comparison )*
//! comparison  := term ( (">"|">="|"<"|"<=") term )*
//! term        := factor ( ("+"|"-") factor )*
//! factor      := unary ( ("*"|"/") unary )*
//! unary       := ("!"|"-") unary | primary
//! primary     := "true" | "false" | "nil" | NUMBER | STRING | IDENT
//!              | "(" expression ")"
//! ```
//!
//! Trivia may stand before any token.  Precedence and grouping from the
//! left show in the tree as bounds on how tightly an operand binds.

use vstd::prelude::*;
use crate::lexer::keywords::Keyword;
use crate::lexer::token::{TokenTypeView, TokenView};
use crate::parser::expr::{BinaryOp, ExprView};
use crate::parser::grammar::{
    has_next, is_stream, literal_of, next_is, prefix_operator, upcoming, Level,
};
use crate::parser::stmt::StmtView;

verus! {

/// Holds of everything.  Marks the positions that the quantifiers of this
/// module are instantiated with.
pub open spec fn splits(at: int) -> bool {
    true
}

impl Level {
    /// How tightly the operators of the level bind: more is tighter.
    pub open spec fn tightness(self) -> int {
        match self {
            Level::Equality => 1,
            Level::Comparison => 2,
            Level::Term => 3,
            Level::Factor => 4,
        }
    }
}

/// The level of a binary operator.
pub open spec fn level_of(operator: BinaryOp) -> Level {
    match operator {
        BinaryOp::Equal | BinaryOp::NotEqual => Level::Equality,
        BinaryOp::Greater | BinaryOp::GreaterEqual | BinaryOp::Less | BinaryOp::LessEqual => {
            Level::Comparison
        },
        BinaryOp::Plus | BinaryOp::Minus => Level::Term,
        BinaryOp::Mul | BinaryOp::Div => Level::Factor,
    }
}

/// How tightly the outermost construct of an expression binds: an
/// assignment 0, a binary operator as its level, a prefix operator 5,
/// anything else 6.
pub open spec fn tightness(expr: ExprView) -> int {
    match expr {
        ExprView::Assign { .. } => 0,
        ExprView::Binary { operator, .. } => level_of(operator).tightness(),
        ExprView::Unary { .. } => 5,
        _ => 6,
    }
}

/// How tightly the binary operator that a token stands for binds.
pub open spec fn operator_tightness(kind: TokenTypeView) -> Option<int> {
    match kind {
        TokenTypeView::EqualEqual | TokenTypeView::BangEqual => Some(1),
        TokenTypeView::Greater
        | TokenTypeView::GreaterEqual
        | TokenTypeView::Less
        | TokenTypeView::LessEqual => Some(2),
        TokenTypeView::Minus | TokenTypeView::Plus => Some(3),
        TokenTypeView::Slash | TokenTypeView::Star => Some(4),
        _ => None,
    }
}

/// Whether the tokens from `from` up to `to` write `expr`.
///
/// The operands of a binary operator bind at least as tightly as the
/// operator on its left and more tightly on its right; the operand of a
/// prefix operator is a prefix operation or a primary expression.  Each
/// node carries the line of the token that the grammar takes it from.
pub open spec fn written(toks: Seq<TokenView>, expr: ExprView, from: int, to: int) -> bool
    decreases expr,
{
    let p = upcoming(toks, from);
    match expr {
        ExprView::Literal { literal_type, line_number } => {
            &&& has_next(toks, from)
            &&& literal_of(toks[p].token_type) == Some(literal_type)
            &&& line_number == toks[p].line_number
            &&& to == p + 1
        },
        ExprView::Variable { name } => {
            &&& has_next(toks, from)
            &&& name.token_type is Ident
            &&& toks[p] == name
            &&& to == p + 1
        },
        ExprView::Grouping { expression, line_number } => {
            &&& next_is(toks, from, TokenTypeView::LeftParen)
            &&& line_number == toks[p].line_number
            &&& exists|mid: int|
                {
                    &&& #[trigger] splits(mid)
                    &&& written(toks, *expression, p + 1, mid)
                    &&& next_is(toks, mid, TokenTypeView::RightParen)
                    &&& to == upcoming(toks, mid) + 1
                }
        },
        ExprView::Unary { operator, right, line_number } => {
            &&& has_next(toks, from)
            &&& prefix_operator(toks[p].token_type) == Some(operator)
            &&& line_number == toks[p].line_number
            &&& tightness(*right) >= 5
            &&& written(toks, *right, p + 1, to)
        },
        ExprView::Binary { left, operator, right, line_number } => {
            &&& tightness(*left) >= level_of(operator).tightness()
            &&& tightness(*right) > level_of(operator).tightness()
            &&& exists|mid: int|
                {
                    &&& #[trigger] splits(mid)
                    &&& written(toks, *left, from, mid)
                    &&& has_next(toks, mid)
                    &&& level_of(operator).operator(toks[upcoming(toks, mid)].token_type) == Some(
                        operator,
                    )
                    &&& line_number == toks[upcoming(toks, mid)].line_number
                    &&& written(toks, *right, upcoming(toks, mid) + 1, to)
                }
        },
        ExprView::Assign { name, value } => {
            &&& has_next(toks, from)
            &&& name.token_type is Ident
            &&& toks[p] == name
            &&& next_is(toks, p + 1, TokenTypeView::Equal)
            &&& written(toks, *value, upcoming(toks, p + 1) + 1, to)
        },
    }
}

/// Whether an expression that ends before `to` is followed by `;` and the
/// statement so ends before `end`.
pub open spec fn closed_by_semicolon(toks: Seq<TokenView>, to: int, end: int) -> bool {
    next_is(toks, to, TokenTypeView::Semicolon) && end == upcoming(toks, to) + 1
}

/// Whether the tokens from `from` up to `to` write `stmt`.
pub open spec fn written_stmt(toks: Seq<TokenView>, stmt: StmtView, from: int, to: int) -> bool
    decreases stmt, 0nat,
{
    let p = upcoming(toks, from);
    match stmt {
        StmtView::Expression { expression } => exists|mid: int|
            {
                &&& #[trigger] splits(mid)
                &&& written(toks, expression, from, mid)
                &&& closed_by_semicolon(toks, mid, to)
            },
        StmtView::Print { expression } => {
            &&& next_is(toks, from, TokenTypeView::Keyword(Keyword::Print))
            &&& exists|mid: int|
                {
                    &&& #[trigger] splits(mid)
                    &&& written(toks, expression, p + 1, mid)
                    &&& closed_by_semicolon(toks, mid, to)
                }
        },
        StmtView::Var { name, initializer } => {
            let q = upcoming(toks, p + 1);
            &&& next_is(toks, from, TokenTypeView::Keyword(Keyword::Var))
            &&& has_next(toks, p + 1)
            &&& toks[q].token_type == TokenTypeView::Ident(name)
            &&& match initializer {
                None => closed_by_semicolon(toks, q + 1, to),
                Some(expression) => {
                    &&& next_is(toks, q + 1, TokenTypeView::Equal)
                    &&& exists|mid: int|
                        {
                            &&& #[trigger] splits(mid)
                            &&& written(toks, expression, upcoming(toks, q + 1) + 1, mid)
                            &&& closed_by_semicolon(toks, mid, to)
                        }
                },
            }
        },
        StmtView::Block { statements } => {
            &&& next_is(toks, from, TokenTypeView::LeftBrace)
            &&& exists|mid: int|
                {
                    &&& #[trigger] splits(mid)
                    &&& written_all(toks, statements, 0, p + 1, mid)
                    &&& next_is(toks, mid, TokenTypeView::RightBrace)
                    &&& to == upcoming(toks, mid) + 1
                }
        },
    }
}

/// Whether the tokens from `from` up to `to` write the statements from
/// the one at `index` on, one after the other.
pub open spec fn written_all(
    toks: Seq<TokenView>,
    stmts: Seq<StmtView>,
    index: int,
    from: int,
    to: int,
) -> bool
    decreases stmts, stmts.len() - index,
{
    if 0 <= index < stmts.len() {
        exists|mid: int|
            {
                &&& #[trigger] splits(mid)
                &&& written_stmt(toks, stmts[index], from, mid)
                &&& written_all(toks, stmts, index + 1, mid, to)
            }
    } else {
        to == from
    }
}

/// Whether the token sequence writes the program `stmts`: its statements
/// one after the other, and then nothing but the end marker.
pub open spec fn writes_program(toks: Seq<TokenView>, stmts: Seq<StmtView>) -> bool {
    &&& is_stream(toks)
    &&& exists|end: int|
        {
            &&& #[trigger] splits(end)
            &&& written_all(toks, stmts, 0, 0, end)
            &&& !has_next(toks, end)
        }
}

} // verus!
