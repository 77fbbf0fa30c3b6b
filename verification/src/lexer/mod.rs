//! The lexer: source text to a stream of tokens and lexical faults.

pub mod error;
pub mod keywords;
pub mod scan;
pub mod token;

pub use crate::lexer::error::{LexerError, LexerErrorType};
pub use crate::lexer::keywords::Keyword;
pub use crate::lexer::token::{Token, TokenType};

use vstd::prelude::*;
use crate::lexer::keywords::keyword_at;
use crate::lexer::scan::{
    cursor, in_comment, in_string, is_eof, is_lexing_of, is_number_lexeme, lemma_lexing_shape,
    lemma_number_lexeme, lemma_run_end_from_inside, lemma_scan_advances, line_of, literal_in,
    number_end, run_end, scan, word_scan, ItemView,
};
use crate::number::Number;
use crate::parser::grammar::{is_stream, token_views};
use crate::text::{
    chars_of, digit, ident_part, ident_start, is_digit, is_ident_part, slice_to_string,
};

verus! {

/// Scans a source text item by item.
#[derive(Debug)]
pub struct Lexer {
    source: Vec<char>,
    position: usize,
    line_number: usize,
    eof: bool,
}

/// An item of the lexer's output with its text as character sequences.
pub open spec fn item_view(item: Result<Token, LexerError>) -> ItemView {
    match item {
        Ok(token) => Ok(token@),
        Err(error) => Err(error),
    }
}

/// Whether the host's conversion function gave the token's number for its lexeme.
pub open spec fn converted_by<P: Fn(&String) -> Number>(
    parse: &P,
    item: Result<Token, LexerError>,
) -> bool {
    item matches Ok(Token { token_type: TokenType::Number { lexeme, literal }, .. })
        ==> call_ensures(parse, (&lexeme,), literal)
}

/// The items with their text as character sequences.
pub open spec fn item_views(items: Seq<Result<Token, LexerError>>) -> Seq<ItemView> {
    Seq::new(items.len(), |i: int| item_view(items[i]))
}

/// Whether `items` is the lexer's complete output for `source`, with the
/// value of each number converted by `parse`.
pub open spec fn lexed<P: Fn(&String) -> Number>(
    parse: &P,
    source: Seq<char>,
    items: Seq<Result<Token, LexerError>>,
) -> bool {
    &&& is_lexing_of(item_views(items), source)
    &&& forall|i: int| 0 <= i < items.len() ==> converted_by(parse, #[trigger] items[i])
}

/// The first fault among the items, if there is one.
pub open spec fn first_error(items: Seq<Result<Token, LexerError>>) -> Option<LexerError>
    decreases items.len(),
{
    if items.len() == 0 {
        None
    } else if items[0] is Err {
        Some(items[0]->Err_0)
    } else {
        first_error(items.drop_first())
    }
}

/// Whether the host's conversion function accepts every text of a number's shape.
pub open spec fn converts_numbers<P: Fn(&String) -> Number>(parse: &P) -> bool {
    forall|text: String| is_number_lexeme(text@) ==> call_requires(parse, (&text,))
}

impl Lexer {
    #[verifier::type_invariant]
    spec fn well_formed(&self) -> bool {
        self.position <= self.source.len()
    }

    /// The source text.
    pub closed spec fn source(&self) -> Seq<char> {
        self.source@
    }

    /// How many characters have been consumed.
    pub closed spec fn position(&self) -> int {
        self.position as int
    }

    /// The line count: one more than the line breaks counted so far.
    pub closed spec fn line(&self) -> usize {
        self.line_number
    }

    /// Whether the end marker has been handed out.
    pub closed spec fn finished(&self) -> bool {
        self.eof
    }

    /// A lexer at the start of `source`, on line 1.
    pub fn new(source: &str) -> (lexer: Lexer)
        ensures
            lexer.source() == source@,
            lexer.position() == 0,
            lexer.line() == 1,
            !lexer.finished(),
    {
        Lexer { source: chars_of(source), position: 0, line_number: 1, eof: false }
    }

    /// Reads a string literal whose opening quote has just been consumed.
    fn handle_string_literal(&mut self) -> (r: Result<Token, LexerError>)
        requires
            0 < old(self).position,
            old(self).source[old(self).position - 1] == '"',
        ensures
            final(self).source == old(self).source,
            final(self).line_number == old(self).line_number,
            final(self).eof == old(self).eof,
            item_view(r) == scan(
                old(self).source@,
                old(self).position - 1,
                old(self).line_number,
                literal_in(item_view(r)),
            ).item,
            final(self).position == scan(
                old(self).source@,
                old(self).position - 1,
                old(self).line_number,
                literal_in(item_view(r)),
            ).end,
    {
        proof {
            use_type_invariant(&*self);
        }
        let start: usize = self.position;
        let mut stop: usize = start;
        while stop < self.source.len() && self.source[stop] != '"' && self.source[stop] != '\n'
            invariant
                start <= stop <= self.source.len(),
                forall|i: int| start <= i < stop ==> in_string(#[trigger] self.source@[i]),
            decreases self.source.len() - stop,
        {
            stop += 1;
        }
        proof {
            let keep = |c: char| in_string(c);
            assert forall|i: int| start <= i < stop implies keep(#[trigger] self.source@[i]) by {}
            lemma_run_end_from_inside(self.source@, start as int, stop as int, keep);
        }
        if stop < self.source.len() && self.source[stop] == '"' {
            let content = slice_to_string(&self.source, start, stop);
            self.position = stop + 1;
            Ok(Token::new(TokenType::String(content), self.line_number))
        } else {
            if stop < self.source.len() {
                self.position = stop + 1;
            } else {
                self.position = stop;
            }
            Err(LexerError::new(LexerErrorType::UnterminatedString, self.line_number))
        }
    }

    /// Reads a number whose first digit has just been consumed; `parse`
    /// converts its text.
    fn handle_number_literals<P: Fn(&String) -> Number>(&mut self, parse: &P) -> (t: Token)
        requires
            0 < old(self).position,
            is_digit(old(self).source[old(self).position - 1]),
            converts_numbers(parse),
        ensures
            final(self).source == old(self).source,
            final(self).line_number == old(self).line_number,
            final(self).eof == old(self).eof,
            t@ == scan(
                old(self).source@,
                old(self).position - 1,
                old(self).line_number,
                literal_in(Ok(t@)),
            ).item->Ok_0,
            final(self).position == scan(
                old(self).source@,
                old(self).position - 1,
                old(self).line_number,
                literal_in(Ok(t@)),
            ).end,
            converted_by(parse, Ok(t)),
    {
        proof {
            use_type_invariant(&*self);
        }
        let start: usize = self.position - 1;
        let ghost keep = |c: char| is_digit(c);
        let mut end: usize = self.position;
        while end < self.source.len() && digit(self.source[end])
            invariant
                start < end <= self.source.len(),
                forall|i: int| start <= i < end ==> is_digit(#[trigger] self.source@[i]),
            decreases self.source.len() - end,
        {
            end += 1;
        }
        let ghost whole = end;
        proof {
            assert forall|i: int| start <= i < end implies keep(#[trigger] self.source@[i]) by {}
            lemma_run_end_from_inside(self.source@, start as int, end as int, keep);
        }
        if end < self.source.len() - 1 && self.source[end] == '.' && digit(self.source[end + 1]) {
            end += 2;
            while end < self.source.len() && digit(self.source[end])
                invariant
                    whole + 1 < end <= self.source.len(),
                    forall|i: int| whole + 1 <= i < end ==> is_digit(#[trigger] self.source@[i]),
                decreases self.source.len() - end,
            {
                end += 1;
            }
            proof {
                assert forall|i: int| whole + 1 <= i < end implies keep(
                    #[trigger] self.source@[i],
                ) by {}
                lemma_run_end_from_inside(self.source@, whole + 1, end as int, keep);
            }
        }
        assert(end == number_end(self.source@, start as int));
        let value = slice_to_string(&self.source, start, end);
        proof {
            lemma_number_lexeme(self.source@, start as int);
        }
        let literal = parse(&value);
        self.position = end;
        Token::new(TokenType::Number { lexeme: value, literal }, self.line_number)
    }

    /// Reads an identifier or keyword whose first character has just been consumed.
    fn handle_ident_and_reserved(&mut self) -> (t: Token)
        requires
            0 < old(self).position,
        ensures
            final(self).source == old(self).source,
            final(self).line_number == old(self).line_number,
            final(self).eof == old(self).eof,
            Ok::<_, LexerError>(t@) == word_scan(
                old(self).source@,
                old(self).position - 1,
                old(self).line_number,
            ).item,
            final(self).position == word_scan(
                old(self).source@,
                old(self).position - 1,
                old(self).line_number,
            ).end,
    {
        proof {
            use_type_invariant(&*self);
        }
        let start: usize = self.position - 1;
        let mut end: usize = self.position;
        while end < self.source.len() && ident_part(self.source[end])
            invariant
                start < end <= self.source.len(),
                forall|i: int| start + 1 <= i < end ==> is_ident_part(#[trigger] self.source@[i]),
            decreases self.source.len() - end,
        {
            end += 1;
        }
        proof {
            let keep = |c: char| is_ident_part(c);
            assert forall|i: int| start + 1 <= i < end implies keep(#[trigger] self.source@[i]) by {}
            lemma_run_end_from_inside(self.source@, start + 1, end as int, keep);
        }
        self.position = end;
        match keyword_at(&self.source, start, end) {
            Some(keyword) => Token::new(TokenType::Keyword(keyword), self.line_number),
            None => {
                let value = slice_to_string(&self.source, start, end);
                Token::new(TokenType::Ident(value), self.line_number)
            },
        }
    }

    /// Consumes `=` if it is the next character.
    fn follows_equal(&mut self) -> (r: bool)
        ensures
            final(self).source == old(self).source,
            final(self).line_number == old(self).line_number,
            final(self).eof == old(self).eof,
            r == (old(self).position < old(self).source.len() && old(self).source[old(
                self,
            ).position as int] == '='),
            final(self).position == old(self).position + if r {
                1int
            } else {
                0int
            },
    {
        proof {
            use_type_invariant(&*self);
        }
        if self.position < self.source.len() && self.source[self.position] == '=' {
            self.position += 1;
            true
        } else {
            false
        }
    }

    /// Consumes the rest of a line, up to its line break.
    fn skip_line(&mut self)
        ensures
            final(self).source == old(self).source,
            final(self).line_number == old(self).line_number,
            final(self).eof == old(self).eof,
            final(self).position == run_end(
                old(self).source@,
                old(self).position as int,
                |c: char| in_comment(c),
            ),
    {
        proof {
            use_type_invariant(&*self);
        }
        let start: usize = self.position;
        let mut end: usize = start;
        while end < self.source.len() && self.source[end] != '\n'
            invariant
                start <= end <= self.source.len(),
                forall|i: int| start <= i < end ==> in_comment(#[trigger] self.source@[i]),
            decreases self.source.len() - end,
        {
            end += 1;
        }
        proof {
            let keep = |c: char| in_comment(c);
            assert forall|i: int| start <= i < end implies keep(#[trigger] self.source@[i]) by {}
            lemma_run_end_from_inside(self.source@, start as int, end as int, keep);
        }
        self.position = end;
    }

    /// The next item of the stream, or `None` once the end marker has been
    /// handed out.  A fault does not stop the lexer: the item after it is
    /// scanned where the fault ended.  `parse` converts a number's text.
    pub fn next<P: Fn(&String) -> Number>(&mut self, parse: &P) -> (r: Option<
        Result<Token, LexerError>,
    >)
        requires
            converts_numbers(parse),
        ensures
            final(self).source() == old(self).source(),
            old(self).finished() ==> r is None && final(self).finished() && final(self).position()
                == old(self).position() && final(self).line() == old(self).line(),
            !old(self).finished() ==> r is Some && {
                let item = r->Some_0;
                let step = scan(
                    old(self).source(),
                    old(self).position(),
                    old(self).line(),
                    literal_in(item_view(item)),
                );
                &&& item_view(item) == step.item
                &&& final(self).position() == step.end
                &&& final(self).line() == step.line
                &&& final(self).finished() == (old(self).position() >= old(self).source().len())
                &&& converted_by(parse, item)
            },
            0 <= final(self).position() <= final(self).source().len(),
    {
        proof {
            use_type_invariant(&*self);
        }
        if self.eof {
            None
        } else if self.position >= self.source.len() {
            self.eof = true;
            Some(Ok(Token::new(TokenType::Eof, self.line_number)))
        } else {
            let c: char = self.source[self.position];
            self.position += 1;
            let token = match c {
                '{' => Ok(Token::new(TokenType::LeftBrace, self.line_number)),
                '}' => Ok(Token::new(TokenType::RightBrace, self.line_number)),
                '(' => Ok(Token::new(TokenType::LeftParen, self.line_number)),
                ')' => Ok(Token::new(TokenType::RightParen, self.line_number)),
                ';' => Ok(Token::new(TokenType::Semicolon, self.line_number)),
                ',' => Ok(Token::new(TokenType::Comma, self.line_number)),
                '.' => Ok(Token::new(TokenType::Dot, self.line_number)),
                '*' => Ok(Token::new(TokenType::Star, self.line_number)),
                '+' => Ok(Token::new(TokenType::Plus, self.line_number)),
                '-' => Ok(Token::new(TokenType::Minus, self.line_number)),
                ' ' => Ok(Token::new(TokenType::Whitespace, self.line_number)),
                '\t' => Ok(Token::new(TokenType::Tab, self.line_number)),
                '\n' => {
                    let line: usize = self.line_number;
                    if self.line_number < usize::MAX {
                        self.line_number += 1;
                    }
                    Ok(Token::new(TokenType::NewLine, line))
                },
                '/' => {
                    if self.position < self.source.len() && self.source[self.position] == '/' {
                        self.skip_line();
                        Ok(Token::new(TokenType::Comment, self.line_number))
                    } else {
                        Ok(Token::new(TokenType::Slash, self.line_number))
                    }
                },
                '=' => {
                    if self.follows_equal() {
                        Ok(Token::new(TokenType::EqualEqual, self.line_number))
                    } else {
                        Ok(Token::new(TokenType::Equal, self.line_number))
                    }
                },
                '!' => {
                    if self.follows_equal() {
                        Ok(Token::new(TokenType::BangEqual, self.line_number))
                    } else {
                        Ok(Token::new(TokenType::Bang, self.line_number))
                    }
                },
                '<' => {
                    if self.follows_equal() {
                        Ok(Token::new(TokenType::LessEqual, self.line_number))
                    } else {
                        Ok(Token::new(TokenType::Less, self.line_number))
                    }
                },
                '>' => {
                    if self.follows_equal() {
                        Ok(Token::new(TokenType::GreaterEqual, self.line_number))
                    } else {
                        Ok(Token::new(TokenType::Greater, self.line_number))
                    }
                },
                '"' => self.handle_string_literal(),
                c => {
                    if digit(c) {
                        Ok(self.handle_number_literals(parse))
                    } else if ident_start(c) {
                        Ok(self.handle_ident_and_reserved())
                    } else {
                        Err(LexerError::new(LexerErrorType::UnknownChar(c), self.line_number))
                    }
                },
            };
            proof {
                use_type_invariant(&*self);
            }
            Some(token)
        }
    }

    /// Every item of a new lexer, up to the end marker.
    fn drain<P: Fn(&String) -> Number>(&mut self, parse: &P) -> (items: Vec<
        Result<Token, LexerError>,
    >)
        requires
            converts_numbers(parse),
            old(self).position() == 0,
            old(self).line() == 1,
            !old(self).finished(),
        ensures
            final(self).source() == old(self).source(),
            final(self).finished(),
            lexed(parse, old(self).source(), items@),
    {
        let mut items: Vec<Result<Token, LexerError>> = Vec::new();
        let ghost src = self.source();
        loop
            invariant
                converts_numbers(parse),
                self.source() == src,
                0 <= self.position() <= src.len(),
                self.position() == cursor(src, items.len() as nat).pos,
                self.line() == cursor(src, items.len() as nat).line,
                self.finished() == (items.len() > 0 && cursor(
                    src,
                    (items.len() - 1) as nat,
                ).pos >= src.len()),
                forall|i: int|
                    0 <= i < items.len() ==> {
                        let at = #[trigger] cursor(src, i as nat);
                        &&& item_view(items[i]) == scan(
                            src,
                            at.pos,
                            at.line,
                            literal_in(item_view(items[i])),
                        ).item
                        &&& (i < items.len() - 1 ==> at.pos < src.len())
                    },
                forall|i: int| 0 <= i < items.len() ==> converted_by(parse, #[trigger] items[i]),
            ensures
                self.source() == src,
                self.finished(),
                items.len() > 0,
                cursor(src, (items.len() - 1) as nat).pos >= src.len(),
                forall|i: int|
                    0 <= i < items.len() ==> {
                        let at = #[trigger] cursor(src, i as nat);
                        &&& item_view(items[i]) == scan(
                            src,
                            at.pos,
                            at.line,
                            literal_in(item_view(items[i])),
                        ).item
                        &&& (i < items.len() - 1 ==> at.pos < src.len())
                    },
                forall|i: int| 0 <= i < items.len() ==> converted_by(parse, #[trigger] items[i]),
            decreases src.len() - self.position(), if self.finished() { 0int } else { 1int },
        {
            let ghost before = *self;
            let ghost n = items.len() as nat;
            match self.next(parse) {
                Some(item) => {
                    proof {
                        lemma_scan_advances(
                            src,
                            before.position(),
                            before.line(),
                            literal_in(item_view(item)),
                        );
                        assert(cursor(src, n + 1).pos == self.position());
                        assert(cursor(src, n + 1).line == self.line());
                    }
                    items.push(item);
                },
                None => {
                    break ;
                },
            }
        }
        proof {
            let views = item_views(items@);
            assert forall|i: int| 0 <= i < views.len() implies {
                let at = #[trigger] cursor(src, i as nat);
                &&& views[i] == scan(src, at.pos, at.line, literal_in(views[i])).item
                &&& (at.pos >= src.len()) == (i == views.len() - 1)
            } by {
                assert(views[i] == item_view(items[i]));
                if i == views.len() - 1 {
                } else {
                    assert(cursor(src, i as nat).pos < src.len());
                }
            }
        }
        items
    }
}

/// The complete output of the lexer for a source text.  It ends with the
/// end marker and holds no other, and the lines that its items report
/// never decrease.  `parse` converts a number's text.
pub fn lex<P: Fn(&String) -> Number>(source: &str, parse: &P) -> (items: Vec<
    Result<Token, LexerError>,
>)
    requires
        converts_numbers(parse),
    ensures
        lexed(parse, source@, items@),
        items.len() > 0,
        is_eof(item_view(items@.last())),
        forall|i: int| 0 <= i < items.len() - 1 ==> !is_eof(item_view(#[trigger] items[i])),
        forall|i: int, j: int|
            0 <= i <= j < items.len() ==> line_of(item_view(#[trigger] items[i])) <= line_of(
                item_view(#[trigger] items[j]),
            ),
{
    let mut lexer = Lexer::new(source);
    let items = lexer.drain(parse);
    proof {
        let views = item_views(items@);
        lemma_lexing_shape(views, source@);
        assert(views.last() == item_view(items@.last()));
        assert forall|i: int| 0 <= i < items.len() - 1 implies !is_eof(
            item_view(#[trigger] items[i]),
        ) by {
            assert(views[i] == item_view(items[i]));
        }
        assert forall|i: int, j: int| 0 <= i <= j < items.len() implies line_of(
            item_view(#[trigger] items[i]),
        ) <= line_of(item_view(#[trigger] items[j])) by {
            assert(views[i] == item_view(items[i]));
            assert(views[j] == item_view(items[j]));
        }
    }
    items
}

fn clone_item(item: &Result<Token, LexerError>) -> (copy: Result<Token, LexerError>)
    ensures
        copy == *item,
{
    match item {
        Ok(token) => Ok(token.clone()),
        Err(error) => Err(*error),
    }
}

/// The tokens of the items, or the first fault among them.
pub fn tokens_of(items: Vec<Result<Token, LexerError>>) -> (r: Result<Vec<Token>, LexerError>)
    ensures
        match r {
            Ok(tokens) => {
                &&& first_error(items@) is None
                &&& tokens.len() == items.len()
                &&& forall|i: int| 0 <= i < items.len() ==> #[trigger] items[i] == Ok::<
                    Token,
                    LexerError,
                >(tokens[i])
            },
            Err(error) => first_error(items@) == Some(error),
        },
{
    let mut tokens: Vec<Token> = Vec::new();
    let ghost all = items@;
    let mut i: usize = 0;
    let n: usize = items.len();
    proof {
        assert(all.skip(0) =~= all);
    }
    while i < n
        invariant
            all == items@,
            n == all.len(),
            i <= n,
            tokens.len() == i,
            forall|j: int| 0 <= j < i ==> #[trigger] all[j] == Ok::<Token, LexerError>(tokens[j]),
            first_error(all) == first_error(all.skip(i as int)),
        decreases n - i,
    {
        let item = clone_item(&items[i]);
        proof {
            assert(all.skip(i as int)[0] == all[i as int]);
            assert(all.skip(i as int).drop_first() =~= all.skip(i + 1));
        }
        match item {
            Ok(token) => {
                tokens.push(token);
            },
            Err(error) => {
                proof {
                    assert(all[i as int] is Err);
                    assert(first_error(all.skip(i as int)) == Some(error));
                }
                return Err(error);
            },
        }
        i += 1;
    }
    proof {
        assert(all.skip(n as int) =~= Seq::<Result<Token, LexerError>>::empty());
    }
    Ok(tokens)
}

/// The tokens of a source text, or its first lexical fault.  The tokens end
/// with the end marker, so a parser can be made from them.
pub fn tokenize<P: Fn(&String) -> Number>(source: &str, parse: &P) -> (r: Result<
    Vec<Token>,
    LexerError,
>)
    requires
        converts_numbers(parse),
    ensures
        exists|items: Seq<Result<Token, LexerError>>|
            {
                &&& #[trigger] lexed(parse, source@, items)
                &&& match r {
                    Ok(tokens) => {
                        &&& first_error(items) is None
                        &&& tokens.len() == items.len()
                        &&& forall|i: int| 0 <= i < items.len() ==> #[trigger] items[i] == Ok::<
                            Token,
                            LexerError,
                        >(tokens[i])
                    },
                    Err(error) => first_error(items) == Some(error),
                }
            },
        r matches Ok(tokens) ==> is_stream(token_views(tokens@)),
{
    let items = lex(source, parse);
    let ghost all = items@;
    let r = tokens_of(items);
    proof {
        if r is Ok {
            let tokens = r->Ok_0;
            let last = tokens.len() - 1;
            assert(all[last] == Ok::<Token, LexerError>(tokens[last]));
            assert(all.last() == all[last]);
        }
    }
    r
}

} // verus!
