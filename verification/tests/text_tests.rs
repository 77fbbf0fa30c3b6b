use lox::lexer::keywords::{keyword_at, Keyword};
use lox::text::{
    chars_of, decimal_string, digit, has_char, ident_part, ident_start, slice_to_string, spells,
};

#[test]
fn digits_are_ascii() {
    for c in '0'..='9' {
        assert!(digit(c));
    }
    for c in ['a', ' ', '/', ':', '\u{663}', '\u{b2}'] {
        assert!(!digit(c), "{:?}", c);
    }
}

#[test]
fn identifiers_start_with_an_ascii_letter_or_underscore() {
    for c in ['a', 'z', 'A', 'Z', 'm', '_'] {
        assert!(ident_start(c));
    }
    for c in ['0', '9', ' ', '-', '@', '[', '`', '{', '\u{e9}', '\u{3b1}'] {
        assert!(!ident_start(c), "{:?}", c);
    }
}

#[test]
fn identifiers_go_on_with_letters_numbers_and_underscore() {
    for c in ['a', 'Z', '0', '9', '_', '\u{e9}', '\u{3b1}', '\u{663}', '\u{4e2d}'] {
        assert!(ident_part(c), "{:?}", c);
    }
    for c in [' ', '-', '.', ';', '"', '\n', '@', '[', '`', '{', '~', '\u{7f}', '\u{2014}'] {
        assert!(!ident_part(c), "{:?}", c);
    }
}

#[test]
fn identifier_parts_among_ascii_are_letters_and_digits() {
    for code in 0u8..128 {
        let c = code as char;
        assert_eq!(ident_part(c), c.is_ascii_alphanumeric() || c == '_', "{:?}", c);
    }
}

#[test]
fn chars_of_lists_the_characters() {
    assert_eq!(chars_of(""), Vec::<char>::new());
    assert_eq!(chars_of("ab\u{e9}\n"), vec!['a', 'b', '\u{e9}', '\n']);
}

#[test]
fn slice_to_string_copies_a_stretch() {
    let chars = chars_of("hello w\u{f6}rld");
    assert_eq!(slice_to_string(&chars, 0, 5), "hello");
    assert_eq!(slice_to_string(&chars, 6, 11), "w\u{f6}rld");
    assert_eq!(slice_to_string(&chars, 3, 3), "");
    assert_eq!(slice_to_string(&chars, 0, chars.len()), "hello w\u{f6}rld");
}

#[test]
fn spells_compares_a_stretch_with_a_word() {
    let chars = chars_of("a var b");
    assert!(spells(&chars, 2, 5, "var"));
    assert!(!spells(&chars, 2, 5, "val"));
    assert!(!spells(&chars, 2, 5, "va"));
    assert!(!spells(&chars, 2, 4, "var"));
    assert!(!spells(&chars, 1, 5, "var"));
    assert!(spells(&chars, 3, 3, ""));
}

#[test]
fn has_char_finds_a_character() {
    assert!(has_char("1.5", '.'));
    assert!(has_char(".", '.'));
    assert!(has_char("15.", '.'));
    assert!(!has_char("15", '.'));
    assert!(!has_char("", '.'));
}

#[test]
fn decimal_string_writes_numbers() {
    assert_eq!(decimal_string(0), "0");
    assert_eq!(decimal_string(7), "7");
    assert_eq!(decimal_string(10), "10");
    assert_eq!(decimal_string(109), "109");
    assert_eq!(decimal_string(1234567890), "1234567890");
    assert_eq!(decimal_string(usize::MAX), usize::MAX.to_string());
}

#[test]
fn keyword_at_finds_whole_words_only() {
    let chars = chars_of("print printer prin nil");
    assert_eq!(keyword_at(&chars, 0, 5), Some(Keyword::Print));
    assert_eq!(keyword_at(&chars, 6, 13), None);
    assert_eq!(keyword_at(&chars, 6, 11), Some(Keyword::Print));
    assert_eq!(keyword_at(&chars, 14, 18), None);
    assert_eq!(keyword_at(&chars, 19, 22), Some(Keyword::Nil));
    assert_eq!(keyword_at(&chars, 0, 0), None);
}
