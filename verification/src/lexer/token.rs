//! The token model: kinds, payloads and their textual projections.

use vstd::prelude::*;
use vstd::string::*;
use vstd::std_specs::cmp::PartialEqSpecImpl;
use crate::lexer::keywords::Keyword;
use crate::number::{decimal_text, with_fraction, Number};

verus! {

#[derive(Debug)]
pub enum TokenType {
    // Single-character tokens
    LeftParen,
    RightParen,
    LeftBrace,
    RightBrace,
    Comma,
    Dot,
    Minus,
    Plus,
    Semicolon,
    Slash,
    Star,
    // One or two character tokens
    Bang,
    BangEqual,
    Equal,
    EqualEqual,
    Greater,
    GreaterEqual,
    Less,
    LessEqual,
    // Literals
    Ident(String),
    String(String),
    Number { lexeme: String, literal: Number },
    // Keyword
    Keyword(Keyword),
    // Whitespace
    Whitespace,
    Tab,
    NewLine,
    Comment,
    Eof,
}

#[derive(Debug)]
pub struct Token {
    pub line_number: usize,
    pub token_type: TokenType,
}

/// A token kind with its text held as a sequence of characters.
pub enum TokenTypeView {
    LeftParen,
    RightParen,
    LeftBrace,
    RightBrace,
    Comma,
    Dot,
    Minus,
    Plus,
    Semicolon,
    Slash,
    Star,
    Bang,
    BangEqual,
    Equal,
    EqualEqual,
    Greater,
    GreaterEqual,
    Less,
    LessEqual,
    Ident(Seq<char>),
    String(Seq<char>),
    Number { lexeme: Seq<char>, literal: Number },
    Keyword(Keyword),
    Whitespace,
    Tab,
    NewLine,
    Comment,
    Eof,
}

pub struct TokenView {
    pub line_number: usize,
    pub token_type: TokenTypeView,
}

impl View for TokenType {
    type V = TokenTypeView;

    open spec fn view(&self) -> TokenTypeView {
        match self {
            TokenType::LeftParen => TokenTypeView::LeftParen,
            TokenType::RightParen => TokenTypeView::RightParen,
            TokenType::LeftBrace => TokenTypeView::LeftBrace,
            TokenType::RightBrace => TokenTypeView::RightBrace,
            TokenType::Comma => TokenTypeView::Comma,
            TokenType::Dot => TokenTypeView::Dot,
            TokenType::Minus => TokenTypeView::Minus,
            TokenType::Plus => TokenTypeView::Plus,
            TokenType::Semicolon => TokenTypeView::Semicolon,
            TokenType::Slash => TokenTypeView::Slash,
            TokenType::Star => TokenTypeView::Star,
            TokenType::Bang => TokenTypeView::Bang,
            TokenType::BangEqual => TokenTypeView::BangEqual,
            TokenType::Equal => TokenTypeView::Equal,
            TokenType::EqualEqual => TokenTypeView::EqualEqual,
            TokenType::Greater => TokenTypeView::Greater,
            TokenType::GreaterEqual => TokenTypeView::GreaterEqual,
            TokenType::Less => TokenTypeView::Less,
            TokenType::LessEqual => TokenTypeView::LessEqual,
            TokenType::Ident(text) => TokenTypeView::Ident(text@),
            TokenType::String(text) => TokenTypeView::String(text@),
            TokenType::Number { lexeme, literal } => TokenTypeView::Number {
                lexeme: lexeme@,
                literal: *literal,
            },
            TokenType::Keyword(keyword) => TokenTypeView::Keyword(*keyword),
            TokenType::Whitespace => TokenTypeView::Whitespace,
            TokenType::Tab => TokenTypeView::Tab,
            TokenType::NewLine => TokenTypeView::NewLine,
            TokenType::Comment => TokenTypeView::Comment,
            TokenType::Eof => TokenTypeView::Eof,
        }
    }
}

impl View for Token {
    type V = TokenView;

    open spec fn view(&self) -> TokenView {
        TokenView { line_number: self.line_number, token_type: self.token_type@ }
    }
}

impl TokenTypeView {
    /// Tokens that carry no syntactic meaning.
    pub open spec fn is_trivia(self) -> bool {
        self is Whitespace || self is Tab || self is NewLine || self is Comment
    }

    /// Whether two kinds match for the parser: payloads are ignored, keywords
    /// are told apart.
    pub open spec fn matches_kind(self, other: TokenTypeView) -> bool {
        match (self, other) {
            (TokenTypeView::Ident(_), TokenTypeView::Ident(_)) => true,
            (TokenTypeView::String(_), TokenTypeView::String(_)) => true,
            (TokenTypeView::Number { .. }, TokenTypeView::Number { .. }) => true,
            _ => self == other,
        }
    }

    /// The exact source text of the token; trivia and the end marker have none.
    pub open spec fn lexeme(self) -> Seq<char> {
        match self {
            TokenTypeView::LeftParen => "("@,
            TokenTypeView::RightParen => ")"@,
            TokenTypeView::LeftBrace => "{"@,
            TokenTypeView::RightBrace => "}"@,
            TokenTypeView::Comma => ","@,
            TokenTypeView::Dot => "."@,
            TokenTypeView::Minus => "-"@,
            TokenTypeView::Plus => "+"@,
            TokenTypeView::Semicolon => ";"@,
            TokenTypeView::Slash => "/"@,
            TokenTypeView::Star => "*"@,
            TokenTypeView::Bang => "!"@,
            TokenTypeView::BangEqual => "!="@,
            TokenTypeView::Equal => "="@,
            TokenTypeView::EqualEqual => "=="@,
            TokenTypeView::Greater => ">"@,
            TokenTypeView::GreaterEqual => ">="@,
            TokenTypeView::Less => "<"@,
            TokenTypeView::LessEqual => "<="@,
            TokenTypeView::Ident(text) => text,
            TokenTypeView::String(text) => seq!['"'] + text + seq!['"'],
            TokenTypeView::Number { lexeme, .. } => lexeme,
            TokenTypeView::Keyword(keyword) => keyword.text(),
            TokenTypeView::Whitespace
            | TokenTypeView::Tab
            | TokenTypeView::NewLine
            | TokenTypeView::Comment
            | TokenTypeView::Eof => Seq::empty(),
        }
    }

    /// The name of the kind in token listings; trivia have none.
    pub open spec fn kind_name(self) -> Seq<char> {
        match self {
            TokenTypeView::LeftParen => "LEFT_PAREN"@,
            TokenTypeView::RightParen => "RIGHT_PAREN"@,
            TokenTypeView::LeftBrace => "LEFT_BRACE"@,
            TokenTypeView::RightBrace => "RIGHT_BRACE"@,
            TokenTypeView::Comma => "COMMA"@,
            TokenTypeView::Dot => "DOT"@,
            TokenTypeView::Minus => "MINUS"@,
            TokenTypeView::Plus => "PLUS"@,
            TokenTypeView::Semicolon => "SEMICOLON"@,
            TokenTypeView::Slash => "SLASH"@,
            TokenTypeView::Star => "STAR"@,
            TokenTypeView::Bang => "BANG"@,
            TokenTypeView::BangEqual => "BANG_EQUAL"@,
            TokenTypeView::Equal => "EQUAL"@,
            TokenTypeView::EqualEqual => "EQUAL_EQUAL"@,
            TokenTypeView::Greater => "GREATER"@,
            TokenTypeView::GreaterEqual => "GREATER_EQUAL"@,
            TokenTypeView::Less => "LESS"@,
            TokenTypeView::LessEqual => "LESS_EQUAL"@,
            TokenTypeView::Ident(_) => "IDENTIFIER"@,
            TokenTypeView::String(_) => "STRING"@,
            TokenTypeView::Number { .. } => "NUMBER"@,
            TokenTypeView::Keyword(keyword) => keyword.upper_text(),
            TokenTypeView::Whitespace
            | TokenTypeView::Tab
            | TokenTypeView::NewLine
            | TokenTypeView::Comment => Seq::empty(),
            TokenTypeView::Eof => "EOF"@,
        }
    }

    /// The literal column of a token listing, given the decimal text `shown`
    /// that the host produced for the token's number (unused for other kinds).
    pub open spec fn literal(self, shown: Seq<char>) -> Seq<char> {
        match self {
            TokenTypeView::String(text) => text,
            TokenTypeView::Number { .. } => with_fraction(shown),
            _ => "null"@,
        }
    }
}

impl Clone for TokenType {
    fn clone(&self) -> (copy: TokenType)
        ensures
            copy == *self,
    {
        match self {
            TokenType::LeftParen => TokenType::LeftParen,
            TokenType::RightParen => TokenType::RightParen,
            TokenType::LeftBrace => TokenType::LeftBrace,
            TokenType::RightBrace => TokenType::RightBrace,
            TokenType::Comma => TokenType::Comma,
            TokenType::Dot => TokenType::Dot,
            TokenType::Minus => TokenType::Minus,
            TokenType::Plus => TokenType::Plus,
            TokenType::Semicolon => TokenType::Semicolon,
            TokenType::Slash => TokenType::Slash,
            TokenType::Star => TokenType::Star,
            TokenType::Bang => TokenType::Bang,
            TokenType::BangEqual => TokenType::BangEqual,
            TokenType::Equal => TokenType::Equal,
            TokenType::EqualEqual => TokenType::EqualEqual,
            TokenType::Greater => TokenType::Greater,
            TokenType::GreaterEqual => TokenType::GreaterEqual,
            TokenType::Less => TokenType::Less,
            TokenType::LessEqual => TokenType::LessEqual,
            TokenType::Ident(text) => TokenType::Ident(text.clone()),
            TokenType::String(text) => TokenType::String(text.clone()),
            TokenType::Number { lexeme, literal } => TokenType::Number {
                lexeme: lexeme.clone(),
                literal: *literal,
            },
            TokenType::Keyword(keyword) => TokenType::Keyword(*keyword),
            TokenType::Whitespace => TokenType::Whitespace,
            TokenType::Tab => TokenType::Tab,
            TokenType::NewLine => TokenType::NewLine,
            TokenType::Comment => TokenType::Comment,
            TokenType::Eof => TokenType::Eof,
        }
    }
}

impl Clone for Token {
    fn clone(&self) -> (copy: Token)
        ensures
            copy == *self,
    {
        Token { line_number: self.line_number, token_type: self.token_type.clone() }
    }
}

impl Token {
    pub fn new(token_type: TokenType, line_number: usize) -> (token: Token)
        ensures
            token.token_type == token_type,
            token.line_number == line_number,
    {
        Token { line_number, token_type }
    }

    /// The token's line of a listing: kind, lexeme and literal, separated by
    /// single spaces.  `format` renders a number in decimal.
    pub fn to_string<F: Fn(Number) -> String>(&self, format: &F) -> (line: String)
        requires
            forall|n: Number| call_requires(format, (n,)),
        ensures
            exists|shown: String|
                {
                    &&& self.token_type matches TokenType::Number { literal, .. }
                        ==> call_ensures(format, (literal,), shown)
                    &&& line@ == self.token_type@.kind_name() + seq![' ']
                        + self.token_type@.lexeme() + seq![' '] + self.token_type@.literal(
                        shown@,
                    )
                },
    {
        let mut line = self.token_type.to_string();
        line.push(' ');
        line.append(self.token_type.lexeme().as_str());
        line.push(' ');
        let (literal, Ghost(shown)) = self.token_type.literal_shown(format);
        line.append(literal.as_str());
        proof {
            let kind = self.token_type@;
            assert(line@ =~= kind.kind_name() + seq![' '] + kind.lexeme() + seq![' ']
                + kind.literal(shown@));
        }
        line
    }
}

impl TokenType {
    /// The exact source text of the token; trivia and the end marker have none.
    pub fn lexeme(&self) -> (text: String)
        ensures
            text@ == self@.lexeme(),
    {
        match self {
            TokenType::LeftParen => "(".to_string(),
            TokenType::RightParen => ")".to_string(),
            TokenType::LeftBrace => "{".to_string(),
            TokenType::RightBrace => "}".to_string(),
            TokenType::Comma => ",".to_string(),
            TokenType::Dot => ".".to_string(),
            TokenType::Minus => "-".to_string(),
            TokenType::Plus => "+".to_string(),
            TokenType::Semicolon => ";".to_string(),
            TokenType::Slash => "/".to_string(),
            TokenType::Star => "*".to_string(),
            TokenType::Bang => "!".to_string(),
            TokenType::BangEqual => "!=".to_string(),
            TokenType::Equal => "=".to_string(),
            TokenType::EqualEqual => "==".to_string(),
            TokenType::Greater => ">".to_string(),
            TokenType::GreaterEqual => ">=".to_string(),
            TokenType::Less => "<".to_string(),
            TokenType::LessEqual => "<=".to_string(),
            TokenType::Ident(ident) => ident.clone(),
            TokenType::String(string) => {
                let mut quoted = String::new();
                quoted.push('"');
                quoted.append(string.as_str());
                quoted.push('"');
                assert(quoted@ =~= seq!['"'] + string@ + seq!['"']);
                quoted
            },
            TokenType::Number { lexeme, literal: _ } => lexeme.clone(),
            TokenType::Keyword(keyword) => keyword.to_string(),
            TokenType::Whitespace
            | TokenType::Tab
            | TokenType::NewLine
            | TokenType::Comment => String::new(),
            TokenType::Eof => String::new(),
        }
    }

    /// The literal column together with the host's rendering that it was made from.
    fn literal_shown<F: Fn(Number) -> String>(&self, format: &F) -> (r: (String, Ghost<String>))
        requires
            forall|n: Number| call_requires(format, (n,)),
        ensures
            self matches TokenType::Number { literal, .. } ==> call_ensures(
                format,
                (*literal,),
                r.1@,
            ),
            r.0@ == self@.literal(r.1@@),
    {
        match self {
            TokenType::String(string) => (string.clone(), Ghost(*string)),
            TokenType::Number { lexeme: _, literal } => {
                let shown = format(*literal);
                let ghost witness = shown;
                (decimal_text(shown), Ghost(witness))
            },
            _ => ("null".to_string(), Ghost(arbitrary())),
        }
    }

    /// The literal column of a token listing: a string's content, a number in
    /// decimal with a fraction part, `null` for every other kind.  `format`
    /// renders a number in decimal.
    pub fn literal<F: Fn(Number) -> String>(&self, format: &F) -> (text: String)
        requires
            forall|n: Number| call_requires(format, (n,)),
        ensures
            exists|shown: String|
                {
                    &&& self matches TokenType::Number { literal, .. } ==> call_ensures(
                        format,
                        (*literal,),
                        shown,
                    )
                    &&& text@ == self@.literal(shown@)
                },
    {
        let (text, Ghost(shown)) = self.literal_shown(format);
        text
    }

    /// The name of the kind as token listings print it.
    pub fn to_string(&self) -> (name: String)
        ensures
            name@ == self@.kind_name(),
    {
        match self {
            TokenType::LeftParen => "LEFT_PAREN".to_string(),
            TokenType::RightParen => "RIGHT_PAREN".to_string(),
            TokenType::LeftBrace => "LEFT_BRACE".to_string(),
            TokenType::RightBrace => "RIGHT_BRACE".to_string(),
            TokenType::Comma => "COMMA".to_string(),
            TokenType::Dot => "DOT".to_string(),
            TokenType::Minus => "MINUS".to_string(),
            TokenType::Plus => "PLUS".to_string(),
            TokenType::Semicolon => "SEMICOLON".to_string(),
            TokenType::Slash => "SLASH".to_string(),
            TokenType::Star => "STAR".to_string(),
            TokenType::Bang => "BANG".to_string(),
            TokenType::BangEqual => "BANG_EQUAL".to_string(),
            TokenType::Equal => "EQUAL".to_string(),
            TokenType::EqualEqual => "EQUAL_EQUAL".to_string(),
            TokenType::Greater => "GREATER".to_string(),
            TokenType::GreaterEqual => "GREATER_EQUAL".to_string(),
            TokenType::Less => "LESS".to_string(),
            TokenType::LessEqual => "LESS_EQUAL".to_string(),
            TokenType::Ident(_) => "IDENTIFIER".to_string(),
            TokenType::String(_) => "STRING".to_string(),
            TokenType::Number { lexeme: _, literal: _ } => "NUMBER".to_string(),
            TokenType::Keyword(keyword) => keyword.to_uppercase(),
            TokenType::Whitespace
            | TokenType::Tab
            | TokenType::NewLine
            | TokenType::Comment => String::new(),
            TokenType::Eof => "EOF".to_string(),
        }
    }

    /// Whether the token is whitespace, a tab, a line break or a comment.
    pub fn is_trivia(&self) -> (r: bool)
        ensures
            r == self@.is_trivia(),
    {
        match self {
            TokenType::Whitespace | TokenType::Tab | TokenType::NewLine | TokenType::Comment => true,
            _ => false,
        }
    }
}

impl PartialEq for TokenType {
    fn eq(&self, other: &Self) -> (r: bool) {
        match (self, other) {
            // Compare simple tokens directly
            (TokenType::LeftParen, TokenType::LeftParen)
            | (TokenType::RightParen, TokenType::RightParen)
            | (TokenType::LeftBrace, TokenType::LeftBrace)
            | (TokenType::RightBrace, TokenType::RightBrace)
            | (TokenType::Comma, TokenType::Comma)
            | (TokenType::Dot, TokenType::Dot)
            | (TokenType::Minus, TokenType::Minus)
            | (TokenType::Plus, TokenType::Plus)
            | (TokenType::Semicolon, TokenType::Semicolon)
            | (TokenType::Slash, TokenType::Slash)
            | (TokenType::Star, TokenType::Star)
            | (TokenType::Bang, TokenType::Bang)
            | (TokenType::BangEqual, TokenType::BangEqual)
            | (TokenType::Equal, TokenType::Equal)
            | (TokenType::EqualEqual, TokenType::EqualEqual)
            | (TokenType::Greater, TokenType::Greater)
            | (TokenType::GreaterEqual, TokenType::GreaterEqual)
            | (TokenType::Less, TokenType::Less)
            | (TokenType::LessEqual, TokenType::LessEqual)
            | (TokenType::Whitespace, TokenType::Whitespace)
            | (TokenType::Tab, TokenType::Tab)
            | (TokenType::NewLine, TokenType::NewLine)
            | (TokenType::Comment, TokenType::Comment)
            | (TokenType::Eof, TokenType::Eof) => true,
            (TokenType::Ident(_), TokenType::Ident(_)) => true,
            (TokenType::String(_), TokenType::String(_)) => true,
            (TokenType::Number { .. }, TokenType::Number { .. }) => true,
            (TokenType::Keyword(a), TokenType::Keyword(b)) => *a == *b,
            _ => false,
        }
    }
}

impl PartialEqSpecImpl for TokenType {
    open spec fn obeys_eq_spec() -> bool {
        true
    }

    open spec fn eq_spec(&self, other: &TokenType) -> bool {
        self@.matches_kind(other@)
    }
}

} // verus!
