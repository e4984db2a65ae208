//! Tokens produced by the lexer, and their mathematical views.
use vstd::prelude::*;

verus! {

/// A modifier word that may stand before a declaration.
#[derive(Clone, Copy, Debug, PartialEq, Eq, Structural)]
pub enum Modifier {
    Public,
    Static,
    Inline,
    Compile,
    Mutable,
}

/// The kind of a reserved word.
#[derive(Clone, Copy, Debug, PartialEq, Eq, Structural)]
pub enum KeywordType {
    Constant,
    Let,
    Function,
    Unknown,
    Static,
    Struct,
    Implementation,
    Trait,
    For,
    Modifier(Modifier),
}

/// A single-character punctuation or operator symbol.
#[derive(Clone, Copy, Debug, PartialEq, Eq, Structural)]
pub enum Symbol {
    OpenCurly,
    CloseCurly,
    OpenParen,
    CloseParen,
    OpenSquare,
    CloseSquare,
    Plus,
    Minus,
    Left,
    Right,
    Underscore,
    Exclamation,
    Equals,
    And,
    Pipe,
    Period,
    Multiply,
    Percent,
    Divide,
    Colon,
    Comma,
    Question,
}

/// A literal value; numbers keep their source text.
#[derive(Debug, PartialEq)]
pub enum Literal {
    String(String),
    Number(String),
    Boolean(bool),
    Null,
    Undefined,
}

/// A classified unit of source text.
#[derive(Debug, PartialEq)]
pub enum Token {
    Comment(String),
    Keyword(KeywordType),
    Ident(String),
    Symbol(Symbol),
    Literal(Literal),
}

/// The value of a `Literal`, with its text as a sequence of characters.
pub ghost enum SpecLiteral {
    String(Seq<char>),
    Number(Seq<char>),
    Boolean(bool),
    Null,
    Undefined,
}

/// The value of a `Token`, with its text as a sequence of characters.
pub ghost enum SpecToken {
    Comment(Seq<char>),
    Keyword(KeywordType),
    Ident(Seq<char>),
    Symbol(Symbol),
    Literal(SpecLiteral),
}

impl View for Literal {
    type V = SpecLiteral;

    open spec fn view(&self) -> SpecLiteral {
        match self {
            Literal::String(s) => SpecLiteral::String(s@),
            Literal::Number(s) => SpecLiteral::Number(s@),
            Literal::Boolean(b) => SpecLiteral::Boolean(*b),
            Literal::Null => SpecLiteral::Null,
            Literal::Undefined => SpecLiteral::Undefined,
        }
    }
}

impl View for Token {
    type V = SpecToken;

    open spec fn view(&self) -> SpecToken {
        match self {
            Token::Comment(s) => SpecToken::Comment(s@),
            Token::Keyword(k) => SpecToken::Keyword(*k),
            Token::Ident(s) => SpecToken::Ident(s@),
            Token::Symbol(s) => SpecToken::Symbol(*s),
            Token::Literal(l) => SpecToken::Literal(l@),
        }
    }
}

impl Clone for Literal {
    fn clone(&self) -> (r: Literal)
        ensures
            r == *self,
    {
        match self {
            Literal::String(s) => Literal::String(s.clone()),
            Literal::Number(s) => Literal::Number(s.clone()),
            Literal::Boolean(b) => Literal::Boolean(*b),
            Literal::Null => Literal::Null,
            Literal::Undefined => Literal::Undefined,
        }
    }
}

impl Clone for Token {
    fn clone(&self) -> (r: Token)
        ensures
            r == *self,
    {
        match self {
            Token::Comment(s) => Token::Comment(s.clone()),
            Token::Keyword(k) => Token::Keyword(*k),
            Token::Ident(s) => Token::Ident(s.clone()),
            Token::Symbol(s) => Token::Symbol(*s),
            Token::Literal(l) => Token::Literal(l.clone()),
        }
    }
}

/// The modifier that a word spells, if any.
pub open spec fn modifier_of(s: Seq<char>) -> Option<Modifier> {
    if s == "pub"@ {
        Some(Modifier::Public)
    } else if s == "mut"@ {
        Some(Modifier::Mutable)
    } else if s == "static"@ {
        Some(Modifier::Static)
    } else if s == "inline"@ {
        Some(Modifier::Inline)
    } else if s == "compile"@ {
        Some(Modifier::Compile)
    } else {
        None
    }
}

/// The reserved word that a word spells, if any; modifiers are reserved too.
pub open spec fn keyword_of(s: Seq<char>) -> Option<KeywordType> {
    if s == "const"@ {
        Some(KeywordType::Constant)
    } else if s == "fun"@ {
        Some(KeywordType::Function)
    } else if s == "let"@ {
        Some(KeywordType::Let)
    } else if s == "impl"@ {
        Some(KeywordType::Implementation)
    } else if s == "struct"@ {
        Some(KeywordType::Struct)
    } else {
        match modifier_of(s) {
            Some(m) => Some(KeywordType::Modifier(m)),
            None => None,
        }
    }
}

/// The token for an identifier-shaped word: a reserved word, a boolean, `null`,
/// `ndef` (undefined), or else an identifier.
pub open spec fn word_token(s: Seq<char>) -> SpecToken {
    match keyword_of(s) {
        Some(k) => SpecToken::Keyword(k),
        None => if s == "true"@ {
            SpecToken::Literal(SpecLiteral::Boolean(true))
        } else if s == "false"@ {
            SpecToken::Literal(SpecLiteral::Boolean(false))
        } else if s == "null"@ {
            SpecToken::Literal(SpecLiteral::Null)
        } else if s == "ndef"@ {
            SpecToken::Literal(SpecLiteral::Undefined)
        } else {
            SpecToken::Ident(s)
        },
    }
}

/// The symbol that a character stands for, if any.
pub open spec fn symbol_of(c: char) -> Option<Symbol> {
    if c == '{' {
        Some(Symbol::OpenCurly)
    } else if c == '}' {
        Some(Symbol::CloseCurly)
    } else if c == '(' {
        Some(Symbol::OpenParen)
    } else if c == ')' {
        Some(Symbol::CloseParen)
    } else if c == '[' {
        Some(Symbol::OpenSquare)
    } else if c == ']' {
        Some(Symbol::CloseSquare)
    } else if c == '+' {
        Some(Symbol::Plus)
    } else if c == '-' {
        Some(Symbol::Minus)
    } else if c == '<' {
        Some(Symbol::Left)
    } else if c == '>' {
        Some(Symbol::Right)
    } else if c == '_' {
        Some(Symbol::Underscore)
    } else if c == '!' {
        Some(Symbol::Exclamation)
    } else if c == '=' {
        Some(Symbol::Equals)
    } else if c == '&' {
        Some(Symbol::And)
    } else if c == '|' {
        Some(Symbol::Pipe)
    } else if c == '.' {
        Some(Symbol::Period)
    } else if c == '*' {
        Some(Symbol::Multiply)
    } else if c == '%' {
        Some(Symbol::Percent)
    } else if c == '/' {
        Some(Symbol::Divide)
    } else if c == ':' {
        Some(Symbol::Colon)
    } else if c == ',' {
        Some(Symbol::Comma)
    } else if c == '?' {
        Some(Symbol::Question)
    } else {
        None
    }
}

/// Whether the characters of `v` are exactly those of `word`.
pub fn is_word(v: &Vec<char>, word: &str) -> (r: bool)
    ensures
        r == (v@ == word@),
{
    let n = word.unicode_len();
    if v.len() != n {
        return false;
    }
    let mut i: usize = 0;
    while i < n
        invariant
            n == word@.len(),
            v@.len() == n,
            i <= n,
            forall|j: int| 0 <= j < i ==> v@[j] == word@[j],
        decreases n - i,
    {
        if v[i] != word.get_char(i) {
            return false;
        }
        i = i + 1;
    }
    assert(v@ =~= word@);
    true
}

impl Modifier {
    /// The modifier that the word `value` spells, if any.
    pub fn from(value: &Vec<char>) -> (r: Option<Modifier>)
        ensures
            r == modifier_of(value@),
    {
        if is_word(value, "pub") {
            Some(Modifier::Public)
        } else if is_word(value, "mut") {
            Some(Modifier::Mutable)
        } else if is_word(value, "static") {
            Some(Modifier::Static)
        } else if is_word(value, "inline") {
            Some(Modifier::Inline)
        } else if is_word(value, "compile") {
            Some(Modifier::Compile)
        } else {
            None
        }
    }
}

impl KeywordType {
    /// The reserved word that `value` spells, if any.
    pub fn from(value: &Vec<char>) -> (r: Option<KeywordType>)
        ensures
            r == keyword_of(value@),
    {
        if is_word(value, "const") {
            Some(KeywordType::Constant)
        } else if is_word(value, "fun") {
            Some(KeywordType::Function)
        } else if is_word(value, "let") {
            Some(KeywordType::Let)
        } else if is_word(value, "impl") {
            Some(KeywordType::Implementation)
        } else if is_word(value, "struct") {
            Some(KeywordType::Struct)
        } else {
            match Modifier::from(value) {
                Some(m) => Some(KeywordType::Modifier(m)),
                None => None,
            }
        }
    }
}

impl Symbol {
    /// The symbol that the character `value` stands for, if any.
    pub fn from(value: char) -> (r: Option<Symbol>)
        ensures
            r == symbol_of(value),
    {
        match value {
            '{' => Some(Symbol::OpenCurly),
            '}' => Some(Symbol::CloseCurly),
            '(' => Some(Symbol::OpenParen),
            ')' => Some(Symbol::CloseParen),
            '[' => Some(Symbol::OpenSquare),
            ']' => Some(Symbol::CloseSquare),
            '+' => Some(Symbol::Plus),
            '-' => Some(Symbol::Minus),
            '<' => Some(Symbol::Left),
            '>' => Some(Symbol::Right),
            '_' => Some(Symbol::Underscore),
            '!' => Some(Symbol::Exclamation),
            '=' => Some(Symbol::Equals),
            '&' => Some(Symbol::And),
            '|' => Some(Symbol::Pipe),
            '.' => Some(Symbol::Period),
            '*' => Some(Symbol::Multiply),
            '%' => Some(Symbol::Percent),
            '/' => Some(Symbol::Divide),
            ':' => Some(Symbol::Colon),
            ',' => Some(Symbol::Comma),
            '?' => Some(Symbol::Question),
            _ => None,
        }
    }

    /// The character that this symbol stands for.
    pub fn as_char(&self) -> (r: char)
        ensures
            symbol_of(r) == Some(*self),
    {
        match self {
            Symbol::OpenCurly => '{',
            Symbol::CloseCurly => '}',
            Symbol::OpenParen => '(',
            Symbol::CloseParen => ')',
            Symbol::OpenSquare => '[',
            Symbol::CloseSquare => ']',
            Symbol::Plus => '+',
            Symbol::Minus => '-',
            Symbol::Left => '<',
            Symbol::Right => '>',
            Symbol::Underscore => '_',
            Symbol::Exclamation => '!',
            Symbol::Equals => '=',
            Symbol::And => '&',
            Symbol::Pipe => '|',
            Symbol::Period => '.',
            Symbol::Multiply => '*',
            Symbol::Percent => '%',
            Symbol::Divide => '/',
            Symbol::Colon => ':',
            Symbol::Comma => ',',
            Symbol::Question => '?',
        }
    }
}

} // verus!
