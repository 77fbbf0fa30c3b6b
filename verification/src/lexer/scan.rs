//! What the lexer produces, stated on sequences of characters.
//!
//! [`scan`] gives the item that starts at a position of the source, the
//! position after it and the line count after it.  [`cursor`] iterates it
//! from the start of the source, which fixes the whole stream of items.

use vstd::prelude::*;
use crate::lexer::error::{LexerError, LexerErrorType};
use crate::lexer::keywords::keyword_of;
use crate::lexer::token::{TokenTypeView, TokenView};
use crate::number::Number;
use crate::text::{is_digit, is_ident_part, is_ident_start};

verus! {

/// One item of the lexer's output, with token text as character sequences.
pub type ItemView = Result<TokenView, LexerError>;

/// The end of the longest run of characters satisfying `keep` that starts at `from`.
pub open spec fn run_end(src: Seq<char>, from: int, keep: spec_fn(char) -> bool) -> int
    decreases src.len() - from,
{
    if 0 <= from < src.len() && keep(src[from]) {
        run_end(src, from + 1, keep)
    } else {
        from
    }
}

/// Characters inside a string literal: anything but the closing quote and a line break.
pub open spec fn in_string(c: char) -> bool {
    c != '"' && c != '\n'
}

/// Characters inside a line comment: anything but a line break.
pub open spec fn in_comment(c: char) -> bool {
    c != '\n'
}

/// Where the number that starts at `pos` ends: after its digits, and after a
/// fraction if a `.` and at least one digit follow them.
pub open spec fn number_end(src: Seq<char>, pos: int) -> int {
    let whole = run_end(src, pos, |c: char| is_digit(c));
    if whole + 1 < src.len() && src[whole] == '.' && is_digit(src[whole + 1]) {
        run_end(src, whole + 1, |c: char| is_digit(c))
    } else {
        whole
    }
}

/// Text of the shape that the lexer hands to the host for conversion:
/// digits, optionally followed by `.` and more digits.
pub open spec fn is_number_lexeme(text: Seq<char>) -> bool {
    text.len() > 0 && is_digit(text[0]) && number_end(text, 0) == text.len()
}

/// The line count after a line break; it stops at the largest `usize`.
pub open spec fn next_line(line: usize) -> usize {
    if line < usize::MAX {
        (line + 1) as usize
    } else {
        line
    }
}

/// The item found at one position, where the lexer stands after it, and the
/// line count after it.
pub struct Scan {
    pub item: ItemView,
    pub end: int,
    pub line: usize,
}

/// A token of `width` characters on the current line.
pub open spec fn token_scan(kind: TokenTypeView, pos: int, width: int, line: usize) -> Scan {
    Scan { item: Ok(TokenView { line_number: line, token_type: kind }), end: pos + width, line }
}

/// `single` alone, or `paired` when `=` follows.
pub open spec fn operator_scan(
    src: Seq<char>,
    pos: int,
    line: usize,
    single: TokenTypeView,
    paired: TokenTypeView,
) -> Scan {
    if pos + 1 < src.len() && src[pos + 1] == '=' {
        token_scan(paired, pos, 2, line)
    } else {
        token_scan(single, pos, 1, line)
    }
}

/// A string literal whose opening quote is at `pos`.  It ends at the next
/// quote.  A line break or the end of the source before that quote is a
/// fault; the line break is consumed without being counted.
pub open spec fn string_scan(src: Seq<char>, pos: int, line: usize) -> Scan {
    let stop = run_end(src, pos + 1, |c: char| in_string(c));
    if stop < src.len() && src[stop] == '"' {
        token_scan(TokenTypeView::String(src.subrange(pos + 1, stop)), pos, stop + 1 - pos, line)
    } else {
        Scan {
            item: Err(
                LexerError { line_number: line, error_type: LexerErrorType::UnterminatedString },
            ),
            end: if stop < src.len() {
                stop + 1
            } else {
                stop
            },
            line,
        }
    }
}

/// A number whose first digit is at `pos`; `literal` is its value.
pub open spec fn number_scan(src: Seq<char>, pos: int, line: usize, literal: Number) -> Scan {
    let end = number_end(src, pos);
    token_scan(TokenTypeView::Number { lexeme: src.subrange(pos, end), literal }, pos, end - pos, line)
}

/// An identifier or keyword whose first character is at `pos`.
pub open spec fn word_scan(src: Seq<char>, pos: int, line: usize) -> Scan {
    let end = run_end(src, pos + 1, |c: char| is_ident_part(c));
    let word = src.subrange(pos, end);
    match keyword_of(word) {
        Some(keyword) => token_scan(TokenTypeView::Keyword(keyword), pos, end - pos, line),
        None => token_scan(TokenTypeView::Ident(word), pos, end - pos, line),
    }
}

/// The item at `pos`, scanned with the line count `line`.  At the end of the
/// source that is the end marker.  `literal` is the value that the host gave
/// for the item's text; it only shows in a number token.
pub open spec fn scan(src: Seq<char>, pos: int, line: usize, literal: Number) -> Scan {
    if !(0 <= pos < src.len()) {
        token_scan(TokenTypeView::Eof, pos, 0, line)
    } else {
        let c = src[pos];
        if c == '{' {
            token_scan(TokenTypeView::LeftBrace, pos, 1, line)
        } else if c == '}' {
            token_scan(TokenTypeView::RightBrace, pos, 1, line)
        } else if c == '(' {
            token_scan(TokenTypeView::LeftParen, pos, 1, line)
        } else if c == ')' {
            token_scan(TokenTypeView::RightParen, pos, 1, line)
        } else if c == ';' {
            token_scan(TokenTypeView::Semicolon, pos, 1, line)
        } else if c == ',' {
            token_scan(TokenTypeView::Comma, pos, 1, line)
        } else if c == '.' {
            token_scan(TokenTypeView::Dot, pos, 1, line)
        } else if c == '*' {
            token_scan(TokenTypeView::Star, pos, 1, line)
        } else if c == '+' {
            token_scan(TokenTypeView::Plus, pos, 1, line)
        } else if c == '-' {
            token_scan(TokenTypeView::Minus, pos, 1, line)
        } else if c == ' ' {
            token_scan(TokenTypeView::Whitespace, pos, 1, line)
        } else if c == '\t' {
            token_scan(TokenTypeView::Tab, pos, 1, line)
        } else if c == '\n' {
            Scan { line: next_line(line), ..token_scan(TokenTypeView::NewLine, pos, 1, line) }
        } else if c == '/' {
            if pos + 1 < src.len() && src[pos + 1] == '/' {
                token_scan(
                    TokenTypeView::Comment,
                    pos,
                    run_end(src, pos + 1, |c: char| in_comment(c)) - pos,
                    line,
                )
            } else {
                token_scan(TokenTypeView::Slash, pos, 1, line)
            }
        } else if c == '=' {
            operator_scan(src, pos, line, TokenTypeView::Equal, TokenTypeView::EqualEqual)
        } else if c == '!' {
            operator_scan(src, pos, line, TokenTypeView::Bang, TokenTypeView::BangEqual)
        } else if c == '<' {
            operator_scan(src, pos, line, TokenTypeView::Less, TokenTypeView::LessEqual)
        } else if c == '>' {
            operator_scan(src, pos, line, TokenTypeView::Greater, TokenTypeView::GreaterEqual)
        } else if c == '"' {
            string_scan(src, pos, line)
        } else if is_digit(c) {
            number_scan(src, pos, line, literal)
        } else if is_ident_start(c) {
            word_scan(src, pos, line)
        } else {
            Scan {
                item: Err(
                    LexerError { line_number: line, error_type: LexerErrorType::UnknownChar(c) },
                ),
                end: pos + 1,
                line,
            }
        }
    }
}

/// The number carried by an item; zero bits where it carries none.
pub open spec fn literal_in(item: ItemView) -> Number {
    match item {
        Ok(TokenView { token_type: TokenTypeView::Number { literal, .. }, .. }) => literal,
        _ => Number { bits: 0 },
    }
}

/// The line that an item reports.
pub open spec fn line_of(item: ItemView) -> usize {
    match item {
        Ok(token) => token.line_number,
        Err(error) => error.line_number,
    }
}

/// Whether an item is the end marker.
pub open spec fn is_eof(item: ItemView) -> bool {
    item matches Ok(token) && token.token_type is Eof
}

/// Where the lexer stands: a position in the source and a line count.
pub struct Cursor {
    pub pos: int,
    pub line: usize,
}

/// Where the lexer stands after `n` items.  Numbers' values have no part in it.
pub open spec fn cursor(src: Seq<char>, n: nat) -> Cursor
    decreases n,
{
    if n == 0 {
        Cursor { pos: 0, line: 1 }
    } else {
        let before = cursor(src, (n - 1) as nat);
        let step = scan(src, before.pos, before.line, Number { bits: 0 });
        Cursor { pos: step.end, line: step.line }
    }
}

/// `items` is the complete output for `src`: each item is the one scanned
/// where the lexer stands after its predecessors, and only the last one is
/// scanned at the end of the source.
pub open spec fn is_lexing_of(items: Seq<ItemView>, src: Seq<char>) -> bool {
    &&& items.len() > 0
    &&& forall|i: int|
        0 <= i < items.len() ==> {
            let at = #[trigger] cursor(src, i as nat);
            &&& items[i] == scan(src, at.pos, at.line, literal_in(items[i])).item
            &&& (at.pos >= src.len()) == (i == items.len() - 1)
        }
}

/// A run ends inside the source, everything in it satisfies `keep`, and what
/// follows it does not.
pub proof fn lemma_run_end(src: Seq<char>, from: int, keep: spec_fn(char) -> bool)
    requires
        0 <= from <= src.len(),
    ensures
        from <= run_end(src, from, keep) <= src.len(),
        forall|i: int| from <= i < run_end(src, from, keep) ==> keep(#[trigger] src[i]),
        run_end(src, from, keep) < src.len() ==> !keep(src[run_end(src, from, keep)]),
    decreases src.len() - from,
{
    if from < src.len() && keep(src[from]) {
        lemma_run_end(src, from + 1, keep);
    }
}

/// A position up to which everything satisfies `keep` has the same run end
/// as the start of the run.
pub proof fn lemma_run_end_from_inside(
    src: Seq<char>,
    from: int,
    mid: int,
    keep: spec_fn(char) -> bool,
)
    requires
        0 <= from <= mid <= src.len(),
        forall|i: int| from <= i < mid ==> keep(#[trigger] src[i]),
    ensures
        run_end(src, from, keep) == run_end(src, mid, keep),
    decreases mid - from,
{
    if from < mid {
        lemma_run_end_from_inside(src, from + 1, mid, keep);
    }
}

/// The text of a number scanned in a source has the shape of a number.
pub proof fn lemma_number_lexeme(src: Seq<char>, pos: int)
    requires
        0 <= pos < src.len(),
        is_digit(src[pos]),
    ensures
        pos < number_end(src, pos) <= src.len(),
        is_number_lexeme(src.subrange(pos, number_end(src, pos))),
{
    let keep = |c: char| is_digit(c);
    let end = number_end(src, pos);
    let whole = run_end(src, pos, keep);
    lemma_run_end(src, pos, keep);
    if whole < src.len() {
        lemma_run_end(src, whole + 1, keep);
    }
    let text = src.subrange(pos, end);
    // The digits before the point are the same run in the text.
    lemma_run_end_in_prefix(src, pos, end, pos, keep);
    let text_whole = run_end(text, 0, keep);
    assert(text_whole == whole - pos);
    if end != whole {
        assert(text[text_whole] == src[whole]);
        assert(text[text_whole + 1] == src[whole + 1]);
        lemma_run_end_in_prefix(src, pos, end, whole + 1, keep);
    }
}

/// A run inside `src[lo..hi]` ends where the run in `src` does, or at `hi`
/// if that comes first.
pub proof fn lemma_run_end_in_prefix(
    src: Seq<char>,
    lo: int,
    hi: int,
    from: int,
    keep: spec_fn(char) -> bool,
)
    requires
        0 <= lo <= from <= hi <= src.len(),
    ensures
        run_end(src.subrange(lo, hi), from - lo, keep) + lo == if run_end(src, from, keep) < hi {
            run_end(src, from, keep)
        } else {
            hi
        },
    decreases hi - from,
{
    let text = src.subrange(lo, hi);
    lemma_run_end(src, from, keep);
    if from < hi {
        assert(text[from - lo] == src[from]);
        if keep(src[from]) {
            lemma_run_end_in_prefix(src, lo, hi, from + 1, keep);
        }
    }
}

/// The scan never moves backwards, stays inside the source, and moves
/// forward unless it stands at the end; the line count never drops; the
/// item reports the line count that the scan started with; and the end
/// marker is found at the end of the source only.
pub proof fn lemma_scan_advances(src: Seq<char>, pos: int, line: usize, literal: Number)
    requires
        0 <= pos <= src.len(),
    ensures
        pos <= scan(src, pos, line, literal).end <= src.len(),
        pos < src.len() ==> pos < scan(src, pos, line, literal).end,
        line <= scan(src, pos, line, literal).line,
        line_of(scan(src, pos, line, literal).item) == line,
        is_eof(scan(src, pos, line, literal).item) == (pos >= src.len()),
        scan(src, pos, line, literal).end == scan(src, pos, line, Number { bits: 0 }).end,
        scan(src, pos, line, literal).line == scan(src, pos, line, Number { bits: 0 }).line,
{
    if pos < src.len() {
        lemma_run_end(src, pos + 1, |c: char| in_comment(c));
        lemma_run_end(src, pos + 1, |c: char| in_string(c));
        lemma_run_end(src, pos + 1, |c: char| is_ident_part(c));
        lemma_run_end(src, pos, |c: char| is_digit(c));
        let whole = run_end(src, pos, |c: char| is_digit(c));
        if whole < src.len() {
            lemma_run_end(src, whole + 1, |c: char| is_digit(c));
        }
        if is_digit(src[pos]) {
            assert(whole > pos);
        }
    }
}

/// The cursor stays inside the source, and neither its position nor its
/// line count ever drops.
pub proof fn lemma_cursor_monotonic(src: Seq<char>, i: nat, j: nat)
    requires
        i <= j,
    ensures
        0 <= cursor(src, i).pos <= cursor(src, j).pos <= src.len(),
        cursor(src, i).line <= cursor(src, j).line,
    decreases j,
{
    if j == 0 {
    } else if i == j {
        lemma_cursor_monotonic(src, 0, (j - 1) as nat);
        let before = cursor(src, (j - 1) as nat);
        lemma_scan_advances(src, before.pos, before.line, Number { bits: 0 });
    } else {
        lemma_cursor_monotonic(src, i, (j - 1) as nat);
        let before = cursor(src, (j - 1) as nat);
        lemma_scan_advances(src, before.pos, before.line, Number { bits: 0 });
    }
}

/// The output for any source ends with the end marker, holds no other end
/// marker, and reports lines that never decrease.
pub proof fn lemma_lexing_shape(items: Seq<ItemView>, src: Seq<char>)
    requires
        is_lexing_of(items, src),
    ensures
        items.len() > 0,
        is_eof(items.last()),
        forall|i: int| 0 <= i < items.len() - 1 ==> !is_eof(#[trigger] items[i]),
        forall|i: int, j: int|
            0 <= i <= j < items.len() ==> line_of(#[trigger] items[i]) <= line_of(
                #[trigger] items[j],
            ),
{
    assert forall|i: int| 0 <= i < items.len() implies is_eof(#[trigger] items[i]) == (i
        == items.len() - 1) && line_of(items[i]) == cursor(src, i as nat).line by {
        let at = cursor(src, i as nat);
        lemma_cursor_monotonic(src, i as nat, i as nat);
        lemma_scan_advances(src, at.pos, at.line, literal_in(items[i]));
    }
    assert forall|i: int, j: int| 0 <= i <= j < items.len() implies line_of(#[trigger] items[i])
        <= line_of(#[trigger] items[j]) by {
        lemma_cursor_monotonic(src, i as nat, j as nat);
    }
}

} // verus!
