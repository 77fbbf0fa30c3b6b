//! The reserved words of the language.

use vstd::prelude::*;
use crate::text::spells;

verus! {

#[derive(Debug, Clone, Copy, PartialEq, Eq, Structural)]
pub enum Keyword {
    And,
    Class,
    Else,
    False,
    For,
    Fun,
    If,
    Nil,
    Or,
    Print,
    Return,
    Super,
    This,
    True,
    Var,
    While,
}

impl Keyword {
    /// The word as it is written in source text.
    pub open spec fn text(self) -> Seq<char> {
        match self {
            Keyword::And => "and"@,
            Keyword::Class => "class"@,
            Keyword::Else => "else"@,
            Keyword::False => "false"@,
            Keyword::For => "for"@,
            Keyword::Fun => "fun"@,
            Keyword::If => "if"@,
            Keyword::Nil => "nil"@,
            Keyword::Or => "or"@,
            Keyword::Print => "print"@,
            Keyword::Return => "return"@,
            Keyword::Super => "super"@,
            Keyword::This => "this"@,
            Keyword::True => "true"@,
            Keyword::Var => "var"@,
            Keyword::While => "while"@,
        }
    }

    /// The word in capitals, as token listings name it.
    pub open spec fn upper_text(self) -> Seq<char> {
        match self {
            Keyword::And => "AND"@,
            Keyword::Class => "CLASS"@,
            Keyword::Else => "ELSE"@,
            Keyword::False => "FALSE"@,
            Keyword::For => "FOR"@,
            Keyword::Fun => "FUN"@,
            Keyword::If => "IF"@,
            Keyword::Nil => "NIL"@,
            Keyword::Or => "OR"@,
            Keyword::Print => "PRINT"@,
            Keyword::Return => "RETURN"@,
            Keyword::Super => "SUPER"@,
            Keyword::This => "THIS"@,
            Keyword::True => "TRUE"@,
            Keyword::Var => "VAR"@,
            Keyword::While => "WHILE"@,
        }
    }

    fn word(&self) -> (s: &'static str)
        ensures
            s@ == self.text(),
    {
        match self {
            Keyword::And => "and",
            Keyword::Class => "class",
            Keyword::Else => "else",
            Keyword::False => "false",
            Keyword::For => "for",
            Keyword::Fun => "fun",
            Keyword::If => "if",
            Keyword::Nil => "nil",
            Keyword::Or => "or",
            Keyword::Print => "print",
            Keyword::Return => "return",
            Keyword::Super => "super",
            Keyword::This => "this",
            Keyword::True => "true",
            Keyword::Var => "var",
            Keyword::While => "while",
        }
    }

    /// The word as source text writes it.
    pub fn to_string(&self) -> (s: String)
        ensures
            s@ == self.text(),
    {
        self.word().to_string()
    }

    /// The word in capitals.
    pub fn to_uppercase(&self) -> (s: String)
        ensures
            s@ == self.upper_text(),
    {
        match self {
            Keyword::And => "AND".to_string(),
            Keyword::Class => "CLASS".to_string(),
            Keyword::Else => "ELSE".to_string(),
            Keyword::False => "FALSE".to_string(),
            Keyword::For => "FOR".to_string(),
            Keyword::Fun => "FUN".to_string(),
            Keyword::If => "IF".to_string(),
            Keyword::Nil => "NIL".to_string(),
            Keyword::Or => "OR".to_string(),
            Keyword::Print => "PRINT".to_string(),
            Keyword::Return => "RETURN".to_string(),
            Keyword::Super => "SUPER".to_string(),
            Keyword::This => "THIS".to_string(),
            Keyword::True => "TRUE".to_string(),
            Keyword::Var => "VAR".to_string(),
            Keyword::While => "WHILE".to_string(),
        }
    }
}

/// The keyword that a word spells, if it spells one.
pub open spec fn keyword_of(word: Seq<char>) -> Option<Keyword> {
    if exists|k: Keyword| k.text() == word {
        Some(choose|k: Keyword| k.text() == word)
    } else {
        None
    }
}

/// No two keywords are spelled alike.
pub proof fn lemma_keyword_texts_differ(a: Keyword, b: Keyword)
    requires
        a.text() == b.text(),
    ensures
        a == b,
{
    reveal_strlit("and");
    reveal_strlit("class");
    reveal_strlit("else");
    reveal_strlit("false");
    reveal_strlit("for");
    reveal_strlit("fun");
    reveal_strlit("if");
    reveal_strlit("nil");
    reveal_strlit("or");
    reveal_strlit("print");
    reveal_strlit("return");
    reveal_strlit("super");
    reveal_strlit("this");
    reveal_strlit("true");
    reveal_strlit("var");
    reveal_strlit("while");
    if a != b {
        let s = a.text();
        let t = b.text();
        assert(s.len() == t.len());
        assert(s[0] == t[0]);
        assert(s[1] == t[1]);
        if s.len() > 2 {
            assert(s[2] == t[2]);
        }
    }
}

/// Looking a keyword's own text up finds that keyword.
pub proof fn lemma_keyword_of_text(k: Keyword)
    ensures
        keyword_of(k.text()) == Some(k),
{
    let found = choose|j: Keyword| j.text() == k.text();
    lemma_keyword_texts_differ(found, k);
}

/// The keyword spelled by `chars[from..to]`, if any.
pub fn keyword_at(chars: &Vec<char>, from: usize, to: usize) -> (r: Option<Keyword>)
    requires
        from <= to <= chars.len(),
    ensures
        r == keyword_of(chars@.subrange(from as int, to as int)),
{
    let all: [Keyword; 16] = [
        Keyword::And,
        Keyword::Class,
        Keyword::Else,
        Keyword::False,
        Keyword::For,
        Keyword::Fun,
        Keyword::If,
        Keyword::Nil,
        Keyword::Or,
        Keyword::Print,
        Keyword::Return,
        Keyword::Super,
        Keyword::This,
        Keyword::True,
        Keyword::Var,
        Keyword::While,
    ];
    let ghost word = chars@.subrange(from as int, to as int);
    let mut i: usize = 0;
    while i < 16
        invariant
            i <= 16,
            from <= to <= chars.len(),
            word == chars@.subrange(from as int, to as int),
            all@ == seq![
                Keyword::And,
                Keyword::Class,
                Keyword::Else,
                Keyword::False,
                Keyword::For,
                Keyword::Fun,
                Keyword::If,
                Keyword::Nil,
                Keyword::Or,
                Keyword::Print,
                Keyword::Return,
                Keyword::Super,
                Keyword::This,
                Keyword::True,
                Keyword::Var,
                Keyword::While,
            ],
            forall|j: int| 0 <= j < i ==> all@[j].text() != word,
        decreases 16 - i,
    {
        let k: Keyword = all[i];
        if spells(chars, from, to, k.word()) {
            proof {
                lemma_keyword_of_text(k);
            }
            return Some(k);
        }
        i += 1;
    }
    proof {
        assert forall|k: Keyword| k.text() != word by {
            let j: int = match k {
                Keyword::And => 0,
                Keyword::Class => 1,
                Keyword::Else => 2,
                Keyword::False => 3,
                Keyword::For => 4,
                Keyword::Fun => 5,
                Keyword::If => 6,
                Keyword::Nil => 7,
                Keyword::Or => 8,
                Keyword::Print => 9,
                Keyword::Return => 10,
                Keyword::Super => 11,
                Keyword::This => 12,
                Keyword::True => 13,
                Keyword::Var => 14,
                Keyword::While => 15,
            };
            assert(all@[j] == k);
        }
    }
    None
}

} // verus!
