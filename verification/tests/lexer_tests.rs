use lox::lexer::error::{LexerError, LexerErrorType};
use lox::lexer::keywords::Keyword;
use lox::lexer::token::{Token, TokenType};
use lox::lexer::{lex, tokenize, tokens_of, Lexer};
use lox::number::Number;

fn parse_number(text: &String) -> Number {
    Number::from_bits(text.parse::<f64>().unwrap().to_bits())
}

fn format_number(n: Number) -> String {
    f64::from_bits(n.to_bits()).to_string()
}

fn kinds(source: &str) -> Vec<Result<TokenType, LexerErrorType>> {
    lex(source, &parse_number)
        .into_iter()
        .map(|item| match item {
            Ok(token) => Ok(token.token_type),
            Err(error) => Err(error.error_type),
        })
        .collect()
}

/// The listing lines of the tokens that are no trivia.
fn listing(source: &str) -> Vec<String> {
    lex(source, &parse_number)
        .into_iter()
        .filter_map(|item| item.ok())
        .filter(|token| !token.token_type.is_trivia())
        .map(|token| token.to_string(&format_number))
        .collect()
}

fn same(found: &Result<TokenType, LexerErrorType>, wanted: &TokenType) -> bool {
    match (found, wanted) {
        (Ok(TokenType::Ident(a)), TokenType::Ident(b)) => a == b,
        (Ok(TokenType::String(a)), TokenType::String(b)) => a == b,
        (
            Ok(TokenType::Number { lexeme: a, literal: x }),
            TokenType::Number { lexeme: b, literal: y },
        ) => a == b && x.to_bits() == y.to_bits(),
        (Ok(a), b) => a == b,
        (Err(_), _) => false,
    }
}

fn assert_kinds(source: &str, wanted: Vec<TokenType>) {
    let found = kinds(source);
    assert_eq!(found.len(), wanted.len(), "{:?}", found);
    for (f, w) in found.iter().zip(wanted.iter()) {
        assert!(same(f, w), "found {:?}, wanted {:?}", f, w);
    }
}

fn number(lexeme: &str, value: f64) -> TokenType {
    TokenType::Number { lexeme: lexeme.to_string(), literal: Number::from_bits(value.to_bits()) }
}

#[test]
fn empty_source_is_one_end_marker() {
    let items = lex("", &parse_number);
    assert_eq!(items.len(), 1);
    let token = items[0].as_ref().unwrap();
    assert!(matches!(token.token_type, TokenType::Eof));
    assert_eq!(token.line_number, 1);
}

#[test]
fn punctuation_maps_to_its_kinds() {
    assert_kinds(
        "(){},.-+;/*",
        vec![
            TokenType::LeftParen,
            TokenType::RightParen,
            TokenType::LeftBrace,
            TokenType::RightBrace,
            TokenType::Comma,
            TokenType::Dot,
            TokenType::Minus,
            TokenType::Plus,
            TokenType::Semicolon,
            TokenType::Slash,
            TokenType::Star,
            TokenType::Eof,
        ],
    );
}

#[test]
fn operators_pair_with_a_following_equal() {
    assert_kinds(
        "! != = == > >= < <=",
        vec![
            TokenType::Bang,
            TokenType::Whitespace,
            TokenType::BangEqual,
            TokenType::Whitespace,
            TokenType::Equal,
            TokenType::Whitespace,
            TokenType::EqualEqual,
            TokenType::Whitespace,
            TokenType::Greater,
            TokenType::Whitespace,
            TokenType::GreaterEqual,
            TokenType::Whitespace,
            TokenType::Less,
            TokenType::Whitespace,
            TokenType::LessEqual,
            TokenType::Eof,
        ],
    );
    assert_kinds("===", vec![TokenType::EqualEqual, TokenType::Equal, TokenType::Eof]);
    assert_kinds("!==", vec![TokenType::BangEqual, TokenType::Equal, TokenType::Eof]);
}

#[test]
fn trivia_are_kept_in_the_stream() {
    assert_kinds(
        " \t\n",
        vec![TokenType::Whitespace, TokenType::Tab, TokenType::NewLine, TokenType::Eof],
    );
}

#[test]
fn comment_runs_to_the_end_of_its_line() {
    assert_kinds(
        "1 // note / more\n2",
        vec![
            number("1", 1.0),
            TokenType::Whitespace,
            TokenType::Comment,
            TokenType::NewLine,
            number("2", 2.0),
            TokenType::Eof,
        ],
    );
    assert_kinds("//", vec![TokenType::Comment, TokenType::Eof]);
    assert_kinds("/ /", vec![TokenType::Slash, TokenType::Whitespace, TokenType::Slash, TokenType::Eof]);
}

#[test]
fn new_line_reports_the_line_it_ends() {
    let items = lex("a\nb\n\nc", &parse_number);
    let lines: Vec<usize> = items.iter().map(|item| item.as_ref().unwrap().line_number).collect();
    // a \n b \n \n c EOF
    assert_eq!(lines, vec![1, 1, 2, 2, 3, 4, 4]);
}

#[test]
fn string_literal_holds_the_text_between_the_quotes() {
    assert_kinds(
        "\"hello world\"",
        vec![TokenType::String("hello world".to_string()), TokenType::Eof],
    );
    assert_kinds("\"\"", vec![TokenType::String(String::new()), TokenType::Eof]);
    // No escape processing.
    assert_kinds("\"a\\n\"", vec![TokenType::String("a\\n".to_string()), TokenType::Eof]);
}

#[test]
fn unterminated_string_at_end_of_input() {
    let items = lex("print \"unterminated;", &parse_number);
    let kinds: Vec<bool> = items.iter().map(|item| item.is_ok()).collect();
    assert_eq!(kinds, vec![true, true, false, true]);
    let error = items[2].as_ref().unwrap_err();
    assert_eq!(*error, LexerError::new(LexerErrorType::UnterminatedString, 1));
    assert_eq!(error.error_type.to_string(), "Unterminated string.");
    assert!(matches!(items[3].as_ref().unwrap().token_type, TokenType::Eof));
}

#[test]
fn line_break_ends_a_string_with_a_fault() {
    let items = lex("\"ab\ncd", &parse_number);
    assert_eq!(items.len(), 3);
    assert_eq!(
        *items[0].as_ref().unwrap_err(),
        LexerError::new(LexerErrorType::UnterminatedString, 1)
    );
    // The line break was consumed with the fault; scanning goes on behind it.
    match &items[1] {
        Ok(Token { token_type: TokenType::Ident(name), line_number }) => {
            assert_eq!(name, "cd");
            assert_eq!(*line_number, 1);
        }
        other => panic!("{:?}", other),
    }
    assert!(matches!(items[2].as_ref().unwrap().token_type, TokenType::Eof));
}

#[test]
fn numbers_keep_lexeme_and_value() {
    assert_kinds("123", vec![number("123", 123.0), TokenType::Eof]);
    assert_kinds("1.50", vec![number("1.50", 1.5), TokenType::Eof]);
    assert_kinds("007", vec![number("007", 7.0), TokenType::Eof]);
    assert_kinds("0.1", vec![number("0.1", 0.1), TokenType::Eof]);
}

#[test]
fn a_point_needs_a_digit_behind_it() {
    assert_kinds("123.", vec![number("123", 123.0), TokenType::Dot, TokenType::Eof]);
    assert_kinds(
        "1.2.3",
        vec![number("1.2", 1.2), TokenType::Dot, number("3", 3.0), TokenType::Eof],
    );
    assert_kinds(".5", vec![TokenType::Dot, number("5", 5.0), TokenType::Eof]);
    assert_kinds(
        "1.a",
        vec![number("1", 1.0), TokenType::Dot, TokenType::Ident("a".to_string()), TokenType::Eof],
    );
}

#[test]
fn identifiers_and_keywords() {
    assert_kinds(
        "var x_1 = nil;",
        vec![
            TokenType::Keyword(Keyword::Var),
            TokenType::Whitespace,
            TokenType::Ident("x_1".to_string()),
            TokenType::Whitespace,
            TokenType::Equal,
            TokenType::Whitespace,
            TokenType::Keyword(Keyword::Nil),
            TokenType::Semicolon,
            TokenType::Eof,
        ],
    );
    assert_kinds("_", vec![TokenType::Ident("_".to_string()), TokenType::Eof]);
    assert_kinds("orchid", vec![TokenType::Ident("orchid".to_string()), TokenType::Eof]);
    assert_kinds("Var", vec![TokenType::Ident("Var".to_string()), TokenType::Eof]);
}

#[test]
fn every_keyword_is_recognised() {
    let words = [
        ("and", Keyword::And),
        ("class", Keyword::Class),
        ("else", Keyword::Else),
        ("false", Keyword::False),
        ("for", Keyword::For),
        ("fun", Keyword::Fun),
        ("if", Keyword::If),
        ("nil", Keyword::Nil),
        ("or", Keyword::Or),
        ("print", Keyword::Print),
        ("return", Keyword::Return),
        ("super", Keyword::Super),
        ("this", Keyword::This),
        ("true", Keyword::True),
        ("var", Keyword::Var),
        ("while", Keyword::While),
    ];
    for (word, keyword) in words {
        assert_kinds(word, vec![TokenType::Keyword(keyword), TokenType::Eof]);
        assert_eq!(keyword.to_string(), word);
        assert_eq!(keyword.to_uppercase(), word.to_uppercase());
    }
}

#[test]
fn identifier_goes_on_over_letters_of_any_script() {
    assert_kinds("caf\u{e9}", vec![TokenType::Ident("caf\u{e9}".to_string()), TokenType::Eof]);
    assert_kinds("x\u{663}", vec![TokenType::Ident("x\u{663}".to_string()), TokenType::Eof]);
}

#[test]
fn identifier_starts_with_an_ascii_letter_only() {
    let found = kinds("\u{e9}a");
    assert_eq!(found.len(), 3);
    assert!(matches!(found[0], Err(LexerErrorType::UnknownChar('\u{e9}'))));
    assert!(same(&found[1], &TokenType::Ident("a".to_string())));
}

#[test]
fn unknown_character_does_not_stop_the_lexer() {
    let items = lex("@\n#1", &parse_number);
    assert_eq!(items.len(), 5);
    assert_eq!(*items[0].as_ref().unwrap_err(), LexerError::new(LexerErrorType::UnknownChar('@'), 1));
    assert_eq!(*items[2].as_ref().unwrap_err(), LexerError::new(LexerErrorType::UnknownChar('#'), 2));
    assert_eq!(items[0].as_ref().unwrap_err().error_type.to_string(), "Unexpected character: @");
    assert!(same(
        &items[3].as_ref().map(|t| t.token_type.clone()).map_err(|e| e.error_type),
        &number("1", 1.0)
    ));
}

#[test]
fn next_hands_out_the_end_marker_once() {
    let mut lexer = Lexer::new("a");
    assert!(matches!(
        lexer.next(&parse_number),
        Some(Ok(Token { token_type: TokenType::Ident(_), line_number: 1 }))
    ));
    assert!(matches!(
        lexer.next(&parse_number),
        Some(Ok(Token { token_type: TokenType::Eof, line_number: 1 }))
    ));
    assert!(lexer.next(&parse_number).is_none());
    assert!(lexer.next(&parse_number).is_none());
}

#[test]
fn stream_ends_with_exactly_one_end_marker_and_lines_never_drop() {
    let sources = [
        "",
        "\n\n\n",
        "var a = 1;\nprint a;\n",
        "\"open\nnext @ line\n// c\n\"closed\"\n1.5.",
        "{ var a = \"x\"; }\n\n!= == <= >=",
    ];
    for source in sources {
        let items = lex(source, &parse_number);
        let eofs = items
            .iter()
            .filter(|item| matches!(item, Ok(Token { token_type: TokenType::Eof, .. })))
            .count();
        assert_eq!(eofs, 1, "{:?}", source);
        assert!(matches!(items.last(), Some(Ok(Token { token_type: TokenType::Eof, .. }))));
        let lines: Vec<usize> = items
            .iter()
            .map(|item| match item {
                Ok(token) => token.line_number,
                Err(error) => error.line_number,
            })
            .collect();
        assert!(lines.windows(2).all(|pair| pair[0] <= pair[1]), "{:?}", lines);
        assert_eq!(lines[0], 1);
    }
}

#[test]
fn listing_of_a_parenthesised_declaration() {
    assert_eq!(
        listing("(var x = 1.0)"),
        vec![
            "LEFT_PAREN ( null",
            "VAR var null",
            "IDENTIFIER x null",
            "EQUAL = null",
            "NUMBER 1.0 1.0",
            "RIGHT_PAREN ) null",
            "EOF  null",
        ]
    );
}

#[test]
fn listing_shows_numbers_with_a_fraction() {
    assert_eq!(listing("42"), vec!["NUMBER 42 42.0", "EOF  null"]);
    assert_eq!(listing("1.50"), vec!["NUMBER 1.50 1.5", "EOF  null"]);
    assert_eq!(listing("0.1"), vec!["NUMBER 0.1 0.1", "EOF  null"]);
}

#[test]
fn listing_shows_strings_with_and_without_quotes() {
    assert_eq!(listing("\"foo bar\""), vec!["STRING \"foo bar\" foo bar", "EOF  null"]);
}

#[test]
fn lexeme_and_literal_of_each_kind() {
    assert_eq!(TokenType::BangEqual.lexeme(), "!=");
    assert_eq!(TokenType::LessEqual.lexeme(), "<=");
    assert_eq!(TokenType::Star.lexeme(), "*");
    assert_eq!(TokenType::Ident("abc".to_string()).lexeme(), "abc");
    assert_eq!(TokenType::String("abc".to_string()).lexeme(), "\"abc\"");
    assert_eq!(number("2.50", 2.5).lexeme(), "2.50");
    assert_eq!(TokenType::Keyword(Keyword::While).lexeme(), "while");
    assert_eq!(TokenType::Whitespace.lexeme(), "");
    assert_eq!(TokenType::Eof.lexeme(), "");
    assert_eq!(TokenType::String("abc".to_string()).literal(&format_number), "abc");
    assert_eq!(number("2.50", 2.5).literal(&format_number), "2.5");
    assert_eq!(number("3", 3.0).literal(&format_number), "3.0");
    assert_eq!(TokenType::Ident("abc".to_string()).literal(&format_number), "null");
    assert_eq!(TokenType::Semicolon.literal(&format_number), "null");
}

#[test]
fn kind_names() {
    assert_eq!(TokenType::LeftParen.to_string(), "LEFT_PAREN");
    assert_eq!(TokenType::EqualEqual.to_string(), "EQUAL_EQUAL");
    assert_eq!(TokenType::GreaterEqual.to_string(), "GREATER_EQUAL");
    assert_eq!(TokenType::Ident("x".to_string()).to_string(), "IDENTIFIER");
    assert_eq!(TokenType::String("x".to_string()).to_string(), "STRING");
    assert_eq!(number("1", 1.0).to_string(), "NUMBER");
    assert_eq!(TokenType::Keyword(Keyword::And).to_string(), "AND");
    assert_eq!(TokenType::Comment.to_string(), "");
    assert_eq!(TokenType::Eof.to_string(), "EOF");
}

#[test]
fn kinds_match_by_tag() {
    assert!(TokenType::Ident("a".to_string()) == TokenType::Ident("b".to_string()));
    assert!(TokenType::String("a".to_string()) == TokenType::String("b".to_string()));
    assert!(number("1", 1.0) == number("2", 2.0));
    assert!(TokenType::Keyword(Keyword::Var) == TokenType::Keyword(Keyword::Var));
    assert!(TokenType::Keyword(Keyword::Var) != TokenType::Keyword(Keyword::Print));
    assert!(TokenType::Ident("a".to_string()) != TokenType::String("a".to_string()));
    assert!(TokenType::Plus != TokenType::Minus);
    assert!(TokenType::Eof == TokenType::Eof);
}

#[test]
fn token_clone_keeps_everything() {
    let token = Token::new(number("1.0", 1.0), 7);
    let copy = token.clone();
    assert_eq!(copy.line_number, 7);
    assert!(same(&Ok(copy.token_type), &number("1.0", 1.0)));
}

#[test]
fn tokenize_gives_the_tokens_or_the_first_fault() {
    let tokens = tokenize("a + 1", &parse_number).unwrap();
    assert_eq!(tokens.len(), 6);
    assert!(matches!(tokens.last().unwrap().token_type, TokenType::Eof));
    let error = tokenize("a @ # \"x", &parse_number).unwrap_err();
    assert_eq!(error, LexerError::new(LexerErrorType::UnknownChar('@'), 1));
    let error = tokenize("a\n\"x", &parse_number).unwrap_err();
    assert_eq!(error, LexerError::new(LexerErrorType::UnterminatedString, 2));
}

#[test]
fn tokens_of_stops_at_the_first_fault() {
    let items = vec![
        Ok(Token::new(TokenType::Plus, 1)),
        Err(LexerError::new(LexerErrorType::UnknownChar('?'), 1)),
        Err(LexerError::new(LexerErrorType::UnterminatedString, 2)),
    ];
    assert_eq!(tokens_of(items).unwrap_err(), LexerError::new(LexerErrorType::UnknownChar('?'), 1));
    let tokens = tokens_of(vec![Ok(Token::new(TokenType::Plus, 1)), Ok(Token::new(TokenType::Eof, 1))])
        .unwrap();
    assert_eq!(tokens.len(), 2);
    assert!(tokens_of(Vec::new()).unwrap().is_empty());
}
