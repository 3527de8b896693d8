use vstd::prelude::*;
use vstd::string::StrSliceExecFns;
use crate::ast::{func_named, func_of_name, same_text, BinOp, Func, Node, NodeView};
use crate::lexer::{lemma_scan_bounds, scan, LexError, Lexer};
use crate::token::{spec_info, spec_punct, Assoc, Token};

verus! {

/// Why a text is not an expression.
#[derive(Clone, Copy, Debug, PartialEq, Eq, Structural)]
pub enum ParseError {
    /// The lexer refused a character.
    Lex(LexError),
    /// The text ended where an operand was due.
    Incomplete,
    /// `found` cannot start an operand.
    UnrecognizedAtom { found: Token },
    /// Two symbols in a row, the first not `let`.
    ConsecutiveSymbols { first: Token, second: Token },
    /// The symbol `name` names no function.
    UnknownFunction { name: Token },
    /// The punctuation `expected` was due and `found` came.
    Expected { expected: char, found: Token },
    /// The expression ended before the text did, at `found`.
    TrailingInput { found: Token },
}

/// The result of parsing from a position: a tree and the position after it.
pub type Parsed = Result<(NodeView, int), ParseError>;

pub open spec fn binop_of(t: Token) -> BinOp {
    match t {
        Token::Sub => BinOp::Sub,
        Token::Mul => BinOp::Mul,
        Token::Div => BinOp::Div,
        Token::Mod => BinOp::Mod,
        Token::Caret => BinOp::Pow,
        _ => BinOp::Add,
    }
}

/// The minimum precedence of the right operand of an operator.
pub open spec fn next_prec(prec: usize, assoc: Assoc) -> int {
    match assoc {
        Assoc::Left => prec + 1,
        Assoc::Right => prec as int,
    }
}

pub open spec fn zero() -> NodeView {
    NodeView::Num { text: "0"@, negative: false }
}

/// Consumes the punctuation `c` at position `p`.
pub open spec fn expect_at(s: Seq<char>, p: int, c: char) -> Result<int, ParseError> {
    match scan(s, p) {
        Err(err) => Err(ParseError::Lex(err)),
        Ok((t, e)) => if spec_punct(t) == Some(c) {
            Ok(e)
        } else {
            Err(ParseError::Expected { expected: c, found: t })
        },
    }
}

// The grammar below is written over character positions. Its checks that a
// position lies ahead of the last one always hold (`lemma_scan_bounds`); they
// are there so that each recursion visibly moves forward through the text.

/// An expression whose operators all bind at least as tightly as `prec`,
/// starting at position `p` of `s`.
pub open spec fn parse_expr(s: Seq<char>, p: int, prec: int) -> Parsed
    decreases (s.len() - p) * 4 + 3,
{
    if !(0 <= p <= s.len()) {
        Err(ParseError::Incomplete)
    } else {
        match parse_atom(s, p) {
            Err(err) => Err(err),
            Ok((lhs, q)) => if p <= q <= s.len() {
                parse_loop(s, q, prec, lhs)
            } else {
                Err(ParseError::Incomplete)
            },
        }
    }
}

/// The operators that follow the left operand `lhs`, which ends at `p`.
pub open spec fn parse_loop(s: Seq<char>, p: int, prec: int, lhs: NodeView) -> Parsed
    decreases (s.len() - p) * 4 + 1,
{
    match scan(s, p) {
        Err(err) => Err(ParseError::Lex(err)),
        Ok((t, e)) => match spec_info(t) {
            None => Ok((lhs, p)),
            Some((op_prec, assoc)) => if op_prec < prec {
                Ok((lhs, p))
            } else if !(p < e <= s.len()) {
                Err(ParseError::Incomplete)
            } else {
                match parse_expr(s, e, next_prec(op_prec, assoc)) {
                    Err(err) => Err(err),
                    Ok((rhs, q)) => if e <= q <= s.len() {
                        parse_loop(
                            s,
                            q,
                            prec,
                            NodeView::Binary {
                                op: binop_of(t),
                                left: Box::new(lhs),
                                right: Box::new(rhs),
                            },
                        )
                    } else {
                        Err(ParseError::Incomplete)
                    },
                }
            },
        },
    }
}

/// An operand starting at position `p`: a number, a negative number, a
/// parenthesised expression, a variable, a function call or an assignment.
/// At the very start of an empty text it is zero.
pub open spec fn parse_atom(s: Seq<char>, p: int) -> Parsed
    decreases (s.len() - p) * 4 + 2,
{
    match scan(s, p) {
        Err(err) => Err(ParseError::Lex(err)),
        Ok((t, e)) => if !(p <= e <= s.len()) {
            Err(ParseError::Incomplete)
        } else {
            match t {
                Token::EndOfInput => if p == 0 {
                    Ok((zero(), p))
                } else {
                    Err(ParseError::Incomplete)
                },
                Token::LeftParen => if p < e {
                    parse_group(s, e)
                } else {
                    Err(ParseError::Incomplete)
                },
                Token::Number { start, end } => Ok(
                    (NodeView::Num { text: s.subrange(start as int, end as int), negative: false }, e),
                ),
                Token::Symbol { start, end } => {
                    let name = s.subrange(start as int, end as int);
                    match scan(s, e) {
                        Err(err) => Err(ParseError::Lex(err)),
                        Ok((t2, e2)) => if !(e < e2 <= s.len()) {
                            Ok((NodeView::Var { name }, e))
                        } else {
                            match t2 {
                                Token::LeftParen => match parse_group(s, e2) {
                                    Err(err) => Err(err),
                                    Ok((arg, q)) => match func_named(name) {
                                        Some(f) => Ok((NodeView::Call { func: f, arg: Box::new(arg) }, q)),
                                        None => Err(ParseError::UnknownFunction { name: t }),
                                    },
                                },
                                Token::Symbol { start: start2, end: end2 } => if name == "let"@ {
                                    match expect_at(s, e2, '=') {
                                        Err(err) => Err(err),
                                        Ok(e3) => if e2 < e3 <= s.len() {
                                            match parse_expr(s, e3, 1) {
                                                Err(err) => Err(err),
                                                Ok((value, q)) => Ok(
                                                    (
                                                        NodeView::Assignment {
                                                            name: s.subrange(start2 as int, end2 as int),
                                                            value: Box::new(value),
                                                        },
                                                        q,
                                                    ),
                                                ),
                                            }
                                        } else {
                                            Err(ParseError::Incomplete)
                                        },
                                    }
                                } else {
                                    Err(ParseError::ConsecutiveSymbols { first: t, second: t2 })
                                },
                                _ => Ok((NodeView::Var { name }, e)),
                            }
                        },
                    }
                },
                Token::Sub => match scan(s, e) {
                    Err(err) => Err(ParseError::Lex(err)),
                    Ok((t2, e2)) => match t2 {
                        Token::Number { start, end } => Ok(
                            (
                                NodeView::Num {
                                    text: s.subrange(start as int, end as int),
                                    negative: true,
                                },
                                e2,
                            ),
                        ),
                        _ => Err(ParseError::UnrecognizedAtom { found: t }),
                    },
                },
                _ => Err(ParseError::UnrecognizedAtom { found: t }),
            }
        },
    }
}

/// A parenthesised expression whose opening parenthesis ends at `p`.
pub open spec fn parse_group(s: Seq<char>, p: int) -> Parsed
    decreases (s.len() - p) * 4 + 4,
{
    if !(0 <= p <= s.len()) {
        Err(ParseError::Incomplete)
    } else {
        match parse_expr(s, p, 1) {
            Err(err) => Err(err),
            Ok((inner, q)) => match expect_at(s, q, ')') {
                Err(err) => Err(err),
                Ok(q2) => Ok((inner, q2)),
            },
        }
    }
}

/// The tree of the rest of `s` from position `p`, which must hold one
/// expression and nothing after it.
pub open spec fn parse_rest(s: Seq<char>, p: int) -> Result<NodeView, ParseError> {
    match parse_expr(s, p, 1) {
        Err(err) => Err(err),
        Ok((n, q)) => match scan(s, q) {
            Err(err) => Err(ParseError::Lex(err)),
            Ok((t, _e)) => if t is EndOfInput {
                Ok(n)
            } else {
                Err(ParseError::TrailingInput { found: t })
            },
        },
    }
}

/// The tree of a whole text.
pub open spec fn parse_text(s: Seq<char>) -> Result<NodeView, ParseError> {
    parse_rest(s, 0)
}

/// A parser with one token of look-ahead over a lexer.
///
/// `consumed` is the position just past the last token taken; `peeked`, when
/// present, is the token that follows it, which the lexer has already read.
pub struct Parser {
    pub current: Token,
    pub lexer: Lexer,
    pub peeked: Option<Token>,
    pub consumed: usize,
}

impl Parser {
    pub open spec fn text(&self) -> Seq<char> {
        self.lexer.text()
    }

    pub open spec fn wf(&self) -> bool {
        &&& self.lexer.wf()
        &&& self.consumed <= self.lexer.pos
        &&& match self.peeked {
            None => self.consumed == self.lexer.pos,
            Some(t) => scan(self.text(), self.consumed as int) == Ok::<(Token, int), LexError>(
                (t, self.lexer.pos as int),
            ),
        }
    }

    pub fn new(input: &str) -> (p: Parser)
        ensures
            p.wf(),
            p.text() == input@,
            p.consumed == 0,
            p.current == Token::EndOfInput,
            p.peeked is None,
    {
        let l = Lexer::new(input);
        Parser { current: Token::EndOfInput, peeked: None, lexer: l, consumed: 0 }
    }

    /// Parses the rest of the text: one expression, then the end of the
    /// text.
    pub fn parse(&mut self) -> (r: Result<Node, ParseError>)
        requires
            old(self).wf(),
        ensures
            match parse_rest(old(self).text(), old(self).consumed as int) {
                Ok(n) => r is Ok && r->Ok_0@ == n,
                Err(err) => r == Err::<Node, ParseError>(err),
            },
    {
        let e = match self.expr(1) {
            Ok(e) => e,
            Err(err) => return Err(err),
        };
        match self.peek_token() {
            Ok(t) => if t.is_eof() {
                Ok(e)
            } else {
                Err(ParseError::TrailingInput { found: t })
            },
            Err(err) => Err(err),
        }
    }

    /// Parses an expression by precedence climbing: an operand, then each
    /// operator of precedence `prec` or more with its right operand.
    pub fn expr(&mut self, prec: usize) -> (r: Result<Node, ParseError>)
        requires
            old(self).wf(),
        ensures
            final(self).text() == old(self).text(),
            match parse_expr(old(self).text(), old(self).consumed as int, prec as int) {
                Ok((n, q)) => r is Ok && r->Ok_0@ == n && final(self).consumed == q
                    && final(self).wf() && old(self).consumed <= q,
                Err(err) => r == Err::<Node, ParseError>(err),
            },
        decreases (self.lexer.len - self.consumed) * 4 + 3,
    {
        let ghost s = self.text();
        let ghost p_start = self.consumed as int;
        let mut lhs = match self.atom() {
            Ok(n) => n,
            Err(err) => return Err(err),
        };
        loop
            invariant
                self.wf(),
                self.text() == s,
                s == old(self).text(),
                p_start == old(self).consumed,
                self.lexer.len == old(self).lexer.len,
                p_start <= self.consumed,
                parse_expr(s, p_start, prec as int) == parse_loop(
                    s,
                    self.consumed as int,
                    prec as int,
                    lhs@,
                ),
            decreases self.lexer.len - self.consumed,
        {
            let ghost p = self.consumed as int;
            proof {
                lemma_scan_bounds(s, p);
            }
            let curr = match self.peek_token() {
                Ok(t) => t,
                Err(err) => return Err(err),
            };
            if curr.is_eof() {
                return Ok(lhs);
            }
            let (op_prec, assoc) = match curr.info() {
                Some(info) => info,
                None => return Ok(lhs),
            };
            if op_prec < prec {
                return Ok(lhs);
            }
            match self.next_token() {
                Ok(()) => {},
                Err(err) => return Err(err),
            }
            let next = match assoc {
                Assoc::Left => op_prec + 1,
                Assoc::Right => op_prec,
            };
            let rhs = match self.expr(next) {
                Ok(n) => n,
                Err(err) => return Err(err),
            };
            lhs = self.op(curr, lhs, rhs);
        }
    }

    /// Parses an operand.
    pub fn atom(&mut self) -> (r: Result<Node, ParseError>)
        requires
            old(self).wf(),
        ensures
            final(self).text() == old(self).text(),
            match parse_atom(old(self).text(), old(self).consumed as int) {
                Ok((n, q)) => r is Ok && r->Ok_0@ == n && final(self).consumed == q
                    && final(self).wf() && old(self).consumed <= q,
                Err(err) => r == Err::<Node, ParseError>(err),
            },
        decreases (self.lexer.len - self.consumed) * 4 + 2,
    {
        let ghost s = self.text();
        let ghost p = self.consumed as int;
        proof {
            lemma_scan_bounds(s, p);
        }
        let t = match self.peek_token() {
            Ok(t) => t,
            Err(err) => return Err(err),
        };
        match t {
            Token::EndOfInput => {
                if self.consumed == 0 {
                    Ok(Node::Num { text: "0".to_owned(), negative: false })
                } else {
                    Err(ParseError::Incomplete)
                }
            },
            Token::LeftParen => {
                match self.expect('(') {
                    Ok(()) => {},
                    Err(err) => return Err(err),
                }
                let e = match self.expr(1) {
                    Ok(e) => e,
                    Err(err) => return Err(err),
                };
                match self.expect(')') {
                    Ok(()) => Ok(e),
                    Err(err) => Err(err),
                }
            },
            Token::Number { start, end } => {
                match self.next_token() {
                    Ok(()) => {},
                    Err(err) => return Err(err),
                }
                let text = self.lexer.src.as_str().substring_char(start, end).to_owned();
                Ok(Node::Num { text, negative: false })
            },
            Token::Symbol { start, end } => {
                match self.next_token() {
                    Ok(()) => {},
                    Err(err) => return Err(err),
                }
                let name = self.lexer.src.as_str().substring_char(start, end).to_owned();
                let ghost e = self.consumed as int;
                proof {
                    lemma_scan_bounds(s, e);
                }
                let next = match self.peek_token() {
                    Ok(t2) => t2,
                    Err(err) => return Err(err),
                };
                match next {
                    Token::LeftParen => {
                        match self.expect('(') {
                            Ok(()) => {},
                            Err(err) => return Err(err),
                        }
                        let arg = match self.expr(1) {
                            Ok(a) => a,
                            Err(err) => return Err(err),
                        };
                        match self.expect(')') {
                            Ok(()) => {},
                            Err(err) => return Err(err),
                        }
                        match self.function(name.as_str(), arg) {
                            Some(n) => Ok(n),
                            None => Err(ParseError::UnknownFunction { name: t }),
                        }
                    },
                    Token::Symbol { start: start2, end: end2 } => {
                        if same_text(name.as_str(), "let") {
                            match self.next_token() {
                                Ok(()) => {},
                                Err(err) => return Err(err),
                            }
                            let ghost e2 = self.consumed as int;
                            proof {
                                lemma_scan_bounds(s, e2);
                            }
                            match self.expect('=') {
                                Ok(()) => {},
                                Err(err) => return Err(err),
                            }
                            let value = match self.expr(1) {
                                Ok(v) => v,
                                Err(err) => return Err(err),
                            };
                            let target = self.lexer.src.as_str().substring_char(start2, end2).to_owned();
                            Ok(Node::Assignment { name: target, value: Box::new(value) })
                        } else {
                            Err(ParseError::ConsecutiveSymbols { first: t, second: next })
                        }
                    },
                    _ => Ok(Node::Var { name }),
                }
            },
            Token::Sub => {
                match self.next_token() {
                    Ok(()) => {},
                    Err(err) => return Err(err),
                }
                let ghost e = self.consumed as int;
                proof {
                    lemma_scan_bounds(s, e);
                }
                match self.peek_token() {
                    Ok(Token::Number { start, end }) => {
                        match self.next_token() {
                            Ok(()) => {},
                            Err(err) => return Err(err),
                        }
                        let text = self.lexer.src.as_str().substring_char(start, end).to_owned();
                        Ok(Node::Num { text, negative: true })
                    },
                    Ok(_) => Err(ParseError::UnrecognizedAtom { found: t }),
                    Err(err) => Err(err),
                }
            },
            _ => Err(ParseError::UnrecognizedAtom { found: t }),
        }
    }

    /// The node of the binary operator `op` over two operands.
    pub fn op(&self, op: Token, lhs: Node, rhs: Node) -> (r: Node)
        requires
            spec_info(op) is Some,
        ensures
            r@ == (NodeView::Binary {
                op: binop_of(op),
                left: Box::new(lhs@),
                right: Box::new(rhs@),
            }),
    {
        let bin = match op {
            Token::Sub => BinOp::Sub,
            Token::Mul => BinOp::Mul,
            Token::Div => BinOp::Div,
            Token::Mod => BinOp::Mod,
            Token::Caret => BinOp::Pow,
            _ => BinOp::Add,
        };
        Node::Binary { op: bin, left: Box::new(lhs), right: Box::new(rhs) }
    }

    /// The node that calls the function `name` on `arg`; `None` where `name`
    /// names no function.
    pub fn function(&self, name: &str, arg: Node) -> (r: Option<Node>)
        ensures
            match func_named(name@) {
                Some(f) => r is Some && r->0@ == (NodeView::Call { func: f, arg: Box::new(arg@) }),
                None => r is None,
            },
    {
        match func_of_name(name) {
            Some(func) => Some(Node::Call { func, arg: Box::new(arg) }),
            None => None,
        }
    }

    /// Takes the punctuation `tok` as the next token.
    pub fn expect(&mut self, tok: char) -> (r: Result<(), ParseError>)
        requires
            old(self).wf(),
        ensures
            final(self).text() == old(self).text(),
            scan(old(self).text(), old(self).consumed as int) matches Ok((t, _e))
                ==> final(self).current == t && final(self).peeked is None,
            match expect_at(old(self).text(), old(self).consumed as int, tok) {
                Ok(e) => r is Ok && final(self).consumed == e && final(self).wf()
                    && old(self).consumed <= e,
                Err(err) => r == Err::<(), ParseError>(err),
            },
    {
        proof {
            lemma_scan_bounds(self.text(), self.consumed as int);
        }
        match self.next_token() {
            Ok(()) => {},
            Err(err) => return Err(err),
        }
        match self.current.to_char() {
            Some(c) => if c == tok {
                return Ok(());
            },
            None => {},
        }
        Err(ParseError::Expected { expected: tok, found: self.current })
    }

    /// The next token, left in place.
    pub fn peek_token(&mut self) -> (r: Result<Token, ParseError>)
        requires
            old(self).wf(),
        ensures
            final(self).text() == old(self).text(),
            final(self).consumed == old(self).consumed,
            final(self).current == old(self).current,
            old(self).peeked is Some ==> *final(self) == *old(self),
            match scan(old(self).text(), old(self).consumed as int) {
                Ok((t, _e)) => r == Ok::<Token, ParseError>(t) && final(self).wf()
                    && final(self).peeked == Some(t),
                Err(err) => r == Err::<Token, ParseError>(ParseError::Lex(err)),
            },
    {
        proof {
            lemma_scan_bounds(self.text(), self.consumed as int);
        }
        match self.peeked {
            Some(t) => Ok(t),
            None => match self.lexer.next_token() {
                Ok(t) => {
                    self.peeked = Some(t);
                    Ok(t)
                },
                Err(err) => Err(ParseError::Lex(err)),
            },
        }
    }

    /// Takes the next token, which becomes `current`.
    pub fn next_token(&mut self) -> (r: Result<(), ParseError>)
        requires
            old(self).wf(),
        ensures
            final(self).text() == old(self).text(),
            match scan(old(self).text(), old(self).consumed as int) {
                Ok((t, e)) => r is Ok && final(self).wf() && final(self).current == t
                    && final(self).consumed == e && final(self).peeked is None,
                Err(err) => r == Err::<(), ParseError>(ParseError::Lex(err)),
            },
            old(self).peeked is Some ==> final(self).lexer == old(self).lexer,
    {
        match self.peeked {
            Some(t) => {
                self.current = t;
            },
            None => match self.lexer.next_token() {
                Ok(t) => {
                    self.current = t;
                },
                Err(err) => return Err(ParseError::Lex(err)),
            },
        }
        self.peeked = None;
        self.consumed = self.lexer.pos;
        Ok(())
    }
}

/// The tree of an expression text.
pub fn parse_source(input: &str) -> (r: Result<Node, ParseError>)
    ensures
        match parse_text(input@) {
            Ok(n) => r is Ok && r->Ok_0@ == n,
            Err(err) => r == Err::<Node, ParseError>(err),
        },
{
    let mut p = Parser::new(input);
    p.parse()
}

/// Whether `c` has Unicode's White_Space property.
pub open spec fn white_space(c: char) -> bool {
    let u = c as u32;
    (0x9 <= u <= 0xd) || u == 0x20 || u == 0x85 || u == 0xa0 || u == 0x1680 || (0x2000 <= u
        <= 0x200a) || u == 0x2028 || u == 0x2029 || u == 0x202f || u == 0x205f || u == 0x3000
}

/// Relies on `char::is_whitespace`: true exactly for the characters with the
/// White_Space property.
#[verifier::external_body]
fn is_white_space(c: char) -> (r: bool)
    ensures
        r == white_space(c),
{
    c.is_whitespace()
}

/// The length of `s` without the white space at its end.
pub open spec fn trim_end_len(s: Seq<char>) -> int
    decreases s.len(),
{
    if s.len() > 0 && white_space(s.last()) {
        trim_end_len(s.drop_last())
    } else {
        s.len() as int
    }
}

/// A line of input without the white space at its end.
pub open spec fn line_text(s: Seq<char>) -> Seq<char> {
    s.subrange(0, trim_end_len(s))
}

/// The tree of one line of input, whatever white space ends it.
pub fn parse_line(input: &str) -> (r: Result<Node, ParseError>)
    ensures
        match parse_text(line_text(input@)) {
            Ok(n) => r is Ok && r->Ok_0@ == n,
            Err(err) => r == Err::<Node, ParseError>(err),
        },
{
    let n = input.unicode_len();
    let mut k = n;
    assert(input@.subrange(0, n as int) =~= input@);
    while k > 0 && is_white_space(input.get_char(k - 1))
        invariant
            k <= n,
            n == input@.len(),
            trim_end_len(input@.subrange(0, k as int)) == trim_end_len(input@),
        decreases k,
    {
        assert(input@.subrange(0, k as int).drop_last() =~= input@.subrange(0, k - 1));
        k = k - 1;
    }
    let line = input.substring_char(0, k);
    parse_source(line)
}

} // verus!
