use vstd::prelude::*;
use vstd::string::StrSliceExecFns;
use crate::token::Token;

verus! {

/// Whether a character beyond ASCII has Unicode's Alphabetic property.
pub uninterp spec fn alphabetic_beyond_ascii(c: char) -> bool;

/// An ASCII letter.
pub open spec fn ascii_alphabetic(c: char) -> bool {
    ('a' <= c <= 'z') || ('A' <= c <= 'Z')
}

/// Whether `c` has Unicode's Alphabetic property: within ASCII, the letters.
pub open spec fn alphabetic(c: char) -> bool {
    if (c as u32) < 0x80 {
        ascii_alphabetic(c)
    } else {
        alphabetic_beyond_ascii(c)
    }
}

/// Relies on `char::is_alphabetic`: true exactly for the characters with the
/// Alphabetic property, which every ASCII letter has and no other ASCII
/// character.
#[verifier::external_body]
fn is_alphabetic(c: char) -> (r: bool)
    ensures
        r == if (c as u32) < 0x80 {
            ascii_alphabetic(c)
        } else {
            alphabetic_beyond_ascii(c)
        },
{
    c.is_alphabetic()
}

/// A character that the lexer cannot take.
#[derive(Clone, Copy, Debug, PartialEq, Eq, Structural)]
pub enum LexError {
    /// `ch` at character position `pos` starts no token.
    UnexpectedChar { ch: char, pos: usize },
    /// The number starting at `pos` holds more than one decimal point.
    MalformedNumber { pos: usize },
}

pub open spec fn is_ws(c: char) -> bool {
    c == ' ' || c == '\n' || c == '\t'
}

pub open spec fn is_digit(c: char) -> bool {
    '0' <= c && c <= '9'
}

pub open spec fn in_number(c: char) -> bool {
    is_digit(c) || c == '.'
}

/// The first position at or after `i` that holds no whitespace.
pub open spec fn skip_ws(s: Seq<char>, i: int) -> int
    decreases s.len() - i,
{
    if 0 <= i < s.len() && is_ws(s[i]) {
        skip_ws(s, i + 1)
    } else {
        i
    }
}

/// The end of the run of digits and points that continues at `i`.
pub open spec fn number_end(s: Seq<char>, i: int) -> int
    decreases s.len() - i,
{
    if 0 <= i < s.len() && in_number(s[i]) {
        number_end(s, i + 1)
    } else {
        i
    }
}

/// The end of the run of alphabetic characters that continues at `i`.
pub open spec fn word_end(s: Seq<char>, i: int) -> int
    decreases s.len() - i,
{
    if 0 <= i < s.len() && alphabetic(s[i]) {
        word_end(s, i + 1)
    } else {
        i
    }
}

pub open spec fn count_dots(t: Seq<char>) -> nat
    decreases t.len(),
{
    if t.len() == 0 {
        0
    } else {
        count_dots(t.drop_last()) + if t.last() == '.' { 1nat } else { 0nat }
    }
}

/// The token that a single character stands for.
pub open spec fn punct_token(c: char) -> Option<Token> {
    if c == '(' {
        Some(Token::LeftParen)
    } else if c == ')' {
        Some(Token::RightParen)
    } else if c == '+' {
        Some(Token::Add)
    } else if c == '-' {
        Some(Token::Sub)
    } else if c == '*' {
        Some(Token::Mul)
    } else if c == '/' {
        Some(Token::Div)
    } else if c == '%' {
        Some(Token::Mod)
    } else if c == '^' {
        Some(Token::Caret)
    } else if c == '=' {
        Some(Token::Equals)
    } else {
        None
    }
}

/// The token that starts at or after position `p` of `s`, after whitespace,
/// with the position just past it; at the end of `s`, `EndOfInput`.
pub open spec fn scan(s: Seq<char>, p: int) -> Result<(Token, int), LexError> {
    let j = skip_ws(s, p);
    if j >= s.len() {
        Ok((Token::EndOfInput, j))
    } else if is_digit(s[j]) {
        let e = number_end(s, j + 1);
        if count_dots(s.subrange(j, e)) > 1 {
            Err(LexError::MalformedNumber { pos: j as usize })
        } else {
            Ok((Token::Number { start: j as usize, end: e as usize }, e))
        }
    } else {
        match punct_token(s[j]) {
            Some(t) => Ok((t, j + 1)),
            None => if alphabetic(s[j]) {
                let e = word_end(s, j + 1);
                Ok((Token::Symbol { start: j as usize, end: e as usize }, e))
            } else {
                Err(LexError::UnexpectedChar { ch: s[j], pos: j as usize })
            },
        }
    }
}

pub proof fn lemma_skip_ws_bounds(s: Seq<char>, i: int)
    requires
        0 <= i <= s.len(),
    ensures
        i <= skip_ws(s, i) <= s.len(),
        skip_ws(s, i) < s.len() ==> !is_ws(s[skip_ws(s, i)]),
    decreases s.len() - i,
{
    if i < s.len() && is_ws(s[i]) {
        lemma_skip_ws_bounds(s, i + 1);
    }
}

pub proof fn lemma_number_end_bounds(s: Seq<char>, i: int)
    requires
        0 <= i <= s.len(),
    ensures
        i <= number_end(s, i) <= s.len(),
    decreases s.len() - i,
{
    if i < s.len() && in_number(s[i]) {
        lemma_number_end_bounds(s, i + 1);
    }
}

pub proof fn lemma_word_end_bounds(s: Seq<char>, i: int)
    requires
        0 <= i <= s.len(),
    ensures
        i <= word_end(s, i) <= s.len(),
    decreases s.len() - i,
{
    if i < s.len() && alphabetic(s[i]) {
        lemma_word_end_bounds(s, i + 1);
    }
}

/// A scanned token lies within the source, and every token but the end of
/// input takes at least one character.
pub proof fn lemma_scan_bounds(s: Seq<char>, p: int)
    requires
        0 <= p <= s.len(),
        s.len() <= usize::MAX,
    ensures
        scan(s, p) matches Ok((t, e)) ==> p <= e <= s.len() && (!(t is EndOfInput) ==> p < e)
            && (t is EndOfInput ==> e == s.len()),
        scan(s, p) matches Ok((t, e)) ==> (t matches Token::Number { start, end } ==> p <= start
            < end && end == e),
        scan(s, p) matches Ok((t, e)) ==> (t matches Token::Symbol { start, end } ==> p <= start
            < end && end == e),
{
    lemma_skip_ws_bounds(s, p);
    let j = skip_ws(s, p);
    if j < s.len() {
        lemma_number_end_bounds(s, j + 1);
        lemma_word_end_bounds(s, j + 1);
    }
}

/// Once the cursor stands at the end of the text, every request for a token
/// yields `EndOfInput` and leaves the cursor there.
pub proof fn lemma_end_of_input_repeats(s: Seq<char>)
    ensures
        scan(s, s.len() as int) == Ok::<(Token, int), LexError>(
            (Token::EndOfInput, s.len() as int),
        ),
{
}

/// A cursor over the characters of a source text.
pub struct Lexer {
    pub curr: char,
    pub pos: usize,
    pub src: String,
    pub eof: bool,
    pub len: usize,
}

impl Lexer {
    pub open spec fn text(&self) -> Seq<char> {
        self.src@
    }

    pub open spec fn wf(&self) -> bool {
        &&& self.len == self.src@.len()
        &&& self.pos <= self.len
        &&& self.eof == (self.pos == self.len)
        &&& !self.eof ==> self.curr == self.src@[self.pos as int]
    }

    pub fn new(src: &str) -> (l: Lexer)
        ensures
            l.wf(),
            l.text() == src@,
            l.pos == 0,
    {
        let len = src.unicode_len();
        let curr = if len > 0 { src.get_char(0) } else { '\0' };
        Lexer { curr, pos: 0, src: src.to_owned(), eof: len == 0, len }
    }

    /// Moves the cursor one character on.
    pub fn bump(&mut self)
        requires
            old(self).wf(),
            !old(self).eof,
        ensures
            final(self).wf(),
            final(self).text() == old(self).text(),
            final(self).pos == old(self).pos + 1,
    {
        self.pos = self.pos + 1;
        if self.pos >= self.len {
            self.eof = true;
            return;
        }
        self.curr = self.src.as_str().get_char(self.pos);
    }

    /// Reads the next token; at the end of the text, `EndOfInput`, as often
    /// as asked.
    pub fn next_token(&mut self) -> (r: Result<Token, LexError>)
        requires
            old(self).wf(),
        ensures
            final(self).wf(),
            final(self).text() == old(self).text(),
            old(self).eof ==> *final(self) == *old(self),
            match scan(old(self).text(), old(self).pos as int) {
                Ok((t, e)) => r == Ok::<Token, LexError>(t) && final(self).pos == e,
                Err(err) => r == Err::<Token, LexError>(err),
            },
    {
        let ghost s = self.text();
        if self.eof {
            return Ok(Token::EndOfInput);
        }
        self.consume_whitespace();
        if self.eof {
            return Ok(Token::EndOfInput);
        }
        let c = self.curr;
        let start = self.pos;
        if c >= '0' && c <= '9' {
            self.bump();
            let mut dots: usize = 0;
            proof {
                assert(s.subrange(start as int, start + 1).drop_last() =~= Seq::<char>::empty());
                assert(count_dots(Seq::<char>::empty()) == 0);
            }
            while !self.eof && (is_digit_char(self.curr) || self.curr == '.')
                invariant
                    self.wf(),
                    self.text() == s,
                    start < self.pos,
                    skip_ws(s, old(self).pos as int) == start,
                    number_end(s, self.pos as int) == number_end(s, start + 1),
                    dots == count_dots(s.subrange(start as int, self.pos as int)),
                    dots <= self.pos - start,
                decreases self.len - self.pos,
            {
                proof {
                    assert(s.subrange(start as int, self.pos + 1).drop_last() =~= s.subrange(
                        start as int,
                        self.pos as int,
                    ));
                }
                if self.curr == '.' {
                    dots = dots + 1;
                }
                self.bump();
            }
            if dots > 1 {
                return Err(LexError::MalformedNumber { pos: start });
            }
            return Ok(Token::Number { start, end: self.pos });
        }
        let punct = match c {
            '(' => Some(Token::LeftParen),
            ')' => Some(Token::RightParen),
            '+' => Some(Token::Add),
            '-' => Some(Token::Sub),
            '*' => Some(Token::Mul),
            '/' => Some(Token::Div),
            '%' => Some(Token::Mod),
            '^' => Some(Token::Caret),
            '=' => Some(Token::Equals),
            _ => None,
        };
        if let Some(t) = punct {
            self.bump();
            return Ok(t);
        }
        if is_alphabetic(c) {
            self.bump();
            while !self.eof && is_alphabetic(self.curr)
                invariant
                    self.wf(),
                    self.text() == s,
                    start < self.pos,
                    word_end(s, self.pos as int) == word_end(s, start + 1),
                decreases self.len - self.pos,
            {
                self.bump();
            }
            return Ok(Token::Symbol { start, end: self.pos });
        }
        Err(LexError::UnexpectedChar { ch: c, pos: self.pos })
    }

    /// Moves the cursor past spaces, tabs and newlines.
    pub fn consume_whitespace(&mut self)
        requires
            old(self).wf(),
        ensures
            final(self).wf(),
            final(self).text() == old(self).text(),
            final(self).pos == skip_ws(old(self).text(), old(self).pos as int),
    {
        while !self.eof && is_whitespace(self.curr)
            invariant
                self.wf(),
                self.text() == old(self).text(),
                old(self).pos <= self.pos,
                skip_ws(self.text(), self.pos as int) == skip_ws(
                    old(self).text(),
                    old(self).pos as int,
                ),
            decreases self.len - self.pos,
        {
            self.bump();
        }
    }
}

fn is_digit_char(c: char) -> (r: bool)
    ensures
        r == is_digit(c),
{
    c >= '0' && c <= '9'
}

pub fn is_whitespace(c: char) -> (r: bool)
    ensures
        r == is_ws(c),
{
    match c {
        ' ' | '\n' | '\t' => true,
        _ => false,
    }
}

} // verus!
