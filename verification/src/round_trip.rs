//! Rendering an expression and reading the rendering back.
//!
//! The prefix form that the printer writes is made for people, and most of
//! it is no source text: `(+ 1.0 2.0)` does not parse, and a string is
//! rendered without its quotes.  What does read back as the expression it
//! came from are the atoms without a payload of their own and variables.

use vstd::prelude::*;
use crate::lexer::keywords::{keyword_of, lemma_keyword_of_text, Keyword};
use crate::lexer::scan::{
    cursor, is_lexing_of, lemma_run_end_from_inside, literal_in, run_end, scan, word_scan, ItemView,
};
use crate::lexer::token::{TokenTypeView, TokenView};
use crate::parser::expr::{ExprView, LiteralTypeView};
use crate::parser::grammar::{
    assignment, binary, binary_rest, expression, has_next, is_stream, lemma_upcoming, literal_of,
    operand, parsed, primary, unary, upcoming, Level,
};
use crate::text::{is_ident_part, is_ident_start};
use crate::visitors::print_visitor::{renders, Rendering};

verus! {

/// Text that the lexer reads as one identifier: a letter or `_`, then
/// letters, numbers and `_`, and no keyword.
pub open spec fn is_identifier(text: Seq<char>) -> bool {
    &&& text.len() > 0
    &&& is_ident_start(text[0])
    &&& forall|i: int| 1 <= i < text.len() ==> is_ident_part(#[trigger] text[i])
    &&& keyword_of(text) is None
}

/// The expressions whose rendering reads back as the expression itself:
/// `nil`, `true`, `false` and variables, standing on the first line.
pub open spec fn reads_back(expr: ExprView) -> bool {
    match expr {
        ExprView::Literal { literal_type, line_number } => {
            &&& line_number == 1
            &&& literal_type is Nil || literal_type is Bool
        },
        ExprView::Variable { name } => {
            &&& name.line_number == 1
            &&& name.token_type matches TokenTypeView::Ident(text)
            &&& is_identifier(text)
        },
        _ => false,
    }
}

/// The token that is the whole of such an expression.
pub open spec fn atom_token(expr: ExprView) -> TokenView {
    match expr {
        ExprView::Literal { literal_type: LiteralTypeView::Nil, .. } => TokenView {
            line_number: 1,
            token_type: TokenTypeView::Keyword(Keyword::Nil),
        },
        ExprView::Literal { literal_type: LiteralTypeView::Bool { value }, .. } => TokenView {
            line_number: 1,
            token_type: TokenTypeView::Keyword(
                if value {
                    Keyword::True
                } else {
                    Keyword::False
                },
            ),
        },
        ExprView::Variable { name } => name,
        _ => arbitrary(),
    }
}

/// A word that fills the whole source is its only token.
proof fn lemma_lexing_of_a_word(items: Seq<ItemView>, word: Seq<char>)
    requires
        word.len() > 0,
        is_ident_start(word[0]),
        forall|i: int| 1 <= i < word.len() ==> is_ident_part(#[trigger] word[i]),
        is_lexing_of(items, word),
    ensures
        items.len() == 2,
        items[0] == word_scan(word, 0, 1).item,
        word_scan(word, 0, 1).end == word.len(),
        items[1] == Ok::<TokenView, crate::lexer::error::LexerError>(
            TokenView { line_number: 1, token_type: TokenTypeView::Eof },
        ),
{
    let keep = |c: char| is_ident_part(c);
    assert forall|i: int| 1 <= i < word.len() implies keep(#[trigger] word[i]) by {}
    lemma_run_end_from_inside(word, 1, word.len() as int, keep);
    assert(run_end(word, 1, keep) == word.len());
    let first = cursor(word, 0int as nat);
    assert(first.pos == 0 && first.line == 1);
    assert(items[0] == scan(word, first.pos, first.line, literal_in(items[0])).item);
    assert(scan(word, 0, 1, literal_in(items[0])) == word_scan(word, 0, 1));
    assert(scan(word, 0, 1, crate::number::Number { bits: 0 }) == word_scan(word, 0, 1));
    assert((first.pos >= word.len()) == (0 == items.len() - 1));
    let second = cursor(word, 1int as nat);
    assert(second.pos == word.len() && second.line == 1) by {
        reveal_with_fuel(cursor, 2);
    }
    assert((second.pos >= word.len()) == (1 == items.len() - 1));
}

/// One atom followed by the end marker parses as that atom.
proof fn lemma_atom_parses(token: TokenView, expr: ExprView)
    requires
        match expr {
            ExprView::Literal { literal_type, line_number } => literal_of(token.token_type) == Some(
                literal_type,
            ) && line_number == token.line_number,
            ExprView::Variable { name } => name == token && token.token_type is Ident,
            _ => false,
        },
    ensures
        expression(
            seq![token, TokenView { line_number: token.line_number, token_type: TokenTypeView::Eof }],
            0,
        ) == parsed(expr, 1),
{
    let toks = seq![
        token,
        TokenView { line_number: token.line_number, token_type: TokenTypeView::Eof },
    ];
    assert(is_stream(toks));
    lemma_upcoming(toks, 0);
    lemma_upcoming(toks, 1);
    assert(!token.token_type.is_trivia());
    assert(upcoming(toks, 0) == 0);
    assert(upcoming(toks, 1) == 1);
    assert(has_next(toks, 0));
    assert(!has_next(toks, 1));
    reveal(primary);
    assert(primary(toks, 0) == parsed(expr, 1));
    reveal(unary);
    assert(unary(toks, 0) == parsed(expr, 1));
    reveal(binary_rest);
    reveal_with_fuel(operand, 4);
    reveal_with_fuel(binary, 4);
    assert(binary_rest(Level::Factor, toks, 1, expr) == parsed(expr, 1));
    assert(binary(Level::Factor, toks, 0) == parsed(expr, 1));
    assert(binary_rest(Level::Term, toks, 1, expr) == parsed(expr, 1));
    assert(binary(Level::Term, toks, 0) == parsed(expr, 1));
    assert(binary_rest(Level::Comparison, toks, 1, expr) == parsed(expr, 1));
    assert(binary(Level::Comparison, toks, 0) == parsed(expr, 1));
    assert(binary_rest(Level::Equality, toks, 1, expr) == parsed(expr, 1));
    assert(binary(Level::Equality, toks, 0) == parsed(expr, 1));
    reveal(assignment);
    assert(assignment(toks, 0) == parsed(expr, 1));
    reveal(expression);
}

/// Reading back what the printer wrote: if `text` is a rendering of `nil`,
/// `true`, `false` or a variable on the first line, then the lexer turns
/// `text` into that atom's token and the end marker, without a fault, and
/// the parser turns those two tokens into the expression that was rendered.
pub proof fn lemma_rendering_reads_back(
    rendering: Rendering,
    expr: ExprView,
    text: Seq<char>,
    items: Seq<ItemView>,
)
    requires
        reads_back(expr),
        renders(rendering, expr, text),
        is_lexing_of(items, text),
    ensures
        items == seq![
            Ok::<TokenView, crate::lexer::error::LexerError>(atom_token(expr)),
            Ok(TokenView { line_number: 1, token_type: TokenTypeView::Eof }),
        ],
        expression(
            seq![atom_token(expr), TokenView { line_number: 1, token_type: TokenTypeView::Eof }],
            0,
        ) == parsed(expr, 1),
{
    reveal_strlit("nil");
    reveal_strlit("true");
    reveal_strlit("false");
    let token = atom_token(expr);
    match expr {
        ExprView::Literal { literal_type, .. } => {
            let keyword = token.token_type->Keyword_0;
            assert(text == keyword.text());
            lemma_keyword_of_text(keyword);
            assert(is_ident_start(text[0]));
            assert forall|i: int| 1 <= i < text.len() implies is_ident_part(#[trigger] text[i]) by {}
        },
        ExprView::Variable { name } => {
            assert(text == name.token_type->Ident_0);
        },
        _ => {},
    }
    lemma_lexing_of_a_word(items, text);
    assert(text.subrange(0, text.len() as int) =~= text);
    assert(items[0] == Ok::<TokenView, crate::lexer::error::LexerError>(token));
    assert(items =~= seq![
        Ok::<TokenView, crate::lexer::error::LexerError>(token),
        Ok(TokenView { line_number: 1, token_type: TokenTypeView::Eof }),
    ]);
    lemma_atom_parses(token, expr);
}

} // verus!
