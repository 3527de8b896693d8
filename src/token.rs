use vstd::prelude::*;

verus! {

/// How a binary operator groups with operators of the same precedence.
#[derive(Clone, Copy, Debug, PartialEq, Eq, Structural)]
pub enum Assoc {
    Left,
    Right,
}

/// A token of the expression language.
///
/// Numbers and symbols carry the span `start..end` (character positions) of
/// their text in the source, which keeps every token a small copyable value.
#[derive(Clone, Copy, Debug, PartialEq, Eq, Structural)]
pub enum Token {
    Number { start: usize, end: usize },
    Symbol { start: usize, end: usize },
    Add,
    Sub,
    Mul,
    Div,
    Mod,
    Caret,
    Equals,
    LeftParen,
    RightParen,
    EndOfInput,
}

/// Precedence and associativity of the binary operators; `None` for every
/// other token.
pub open spec fn spec_info(t: Token) -> Option<(usize, Assoc)> {
    match t {
        Token::Add | Token::Sub => Some((1, Assoc::Left)),
        Token::Mul | Token::Div | Token::Mod => Some((2, Assoc::Left)),
        Token::Caret => Some((3, Assoc::Right)),
        _ => None,
    }
}

/// The character a punctuation token stands for.
pub open spec fn spec_punct(t: Token) -> Option<char> {
    match t {
        Token::Add => Some('+'),
        Token::Sub => Some('-'),
        Token::Mul => Some('*'),
        Token::Div => Some('/'),
        Token::Mod => Some('%'),
        Token::Caret => Some('^'),
        Token::Equals => Some('='),
        Token::LeftParen => Some('('),
        Token::RightParen => Some(')'),
        _ => None,
    }
}

impl Token {
    pub fn info(&self) -> (r: Option<(usize, Assoc)>)
        ensures
            r == spec_info(*self),
    {
        match self {
            Token::Add | Token::Sub => Some((1, Assoc::Left)),
            Token::Mul | Token::Div | Token::Mod => Some((2, Assoc::Left)),
            Token::Caret => Some((3, Assoc::Right)),
            _ => None,
        }
    }

    pub fn to_char(&self) -> (r: Option<char>)
        ensures
            r == spec_punct(*self),
    {
        match self {
            Token::Add => Some('+'),
            Token::Sub => Some('-'),
            Token::Mul => Some('*'),
            Token::Div => Some('/'),
            Token::Mod => Some('%'),
            Token::Caret => Some('^'),
            Token::Equals => Some('='),
            Token::LeftParen => Some('('),
            Token::RightParen => Some(')'),
            _ => None,
        }
    }

    pub fn is_eof(&self) -> (r: bool)
        ensures
            r == (*self is EndOfInput),
    {
        matches!(self, Token::EndOfInput)
    }
}

} // verus!
