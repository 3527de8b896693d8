use calculator::ast::{func_of_name, same_text, BinOp, Func, Node};
use calculator::lexer::LexError;
use calculator::parser::{parse_line, parse_source, ParseError, Parser};
use calculator::token::Token;

fn num(t: &str) -> Node {
    Node::Num { text: t.to_string(), negative: false }
}

fn neg(t: &str) -> Node {
    Node::Num { text: t.to_string(), negative: true }
}

fn var(n: &str) -> Node {
    Node::Var { name: n.to_string() }
}

fn bin(op: BinOp, l: Node, r: Node) -> Node {
    Node::Binary { op, left: Box::new(l), right: Box::new(r) }
}

fn call(func: Func, arg: Node) -> Node {
    Node::Call { func, arg: Box::new(arg) }
}

#[test]
fn addition() {
    assert_eq!(parse_source("2 + 3"), Ok(bin(BinOp::Add, num("2"), num("3"))));
}

#[test]
fn multiplication_binds_tighter() {
    assert_eq!(
        parse_source("2 + 3 * 4"),
        Ok(bin(BinOp::Add, num("2"), bin(BinOp::Mul, num("3"), num("4"))))
    );
}

#[test]
fn parentheses_group() {
    assert_eq!(
        parse_source("(2 + 3) * 4"),
        Ok(bin(BinOp::Mul, bin(BinOp::Add, num("2"), num("3")), num("4")))
    );
}

#[test]
fn subtraction_is_left_associative() {
    assert_eq!(
        parse_source("8 - 3 - 2"),
        Ok(bin(BinOp::Sub, bin(BinOp::Sub, num("8"), num("3")), num("2")))
    );
}

#[test]
fn power_is_right_associative() {
    assert_eq!(
        parse_source("2 ^ 3 ^ 2"),
        Ok(bin(BinOp::Pow, num("2"), bin(BinOp::Pow, num("3"), num("2"))))
    );
}

#[test]
fn modulo_shares_precedence_with_product() {
    assert_eq!(
        parse_source("7 % 4 * 2"),
        Ok(bin(BinOp::Mul, bin(BinOp::Mod, num("7"), num("4")), num("2")))
    );
}

#[test]
fn let_builds_an_assignment() {
    assert_eq!(
        parse_source("let x = 5"),
        Ok(Node::Assignment { name: "x".to_string(), value: Box::new(num("5")) })
    );
}

#[test]
fn let_without_equals_is_an_error() {
    assert_eq!(
        parse_source("let x 5"),
        Err(ParseError::Expected { expected: '=', found: Token::Number { start: 6, end: 7 } })
    );
}

#[test]
fn two_symbols_in_a_row_are_an_error() {
    assert_eq!(
        parse_source("foo bar"),
        Err(ParseError::ConsecutiveSymbols {
            first: Token::Symbol { start: 0, end: 3 },
            second: Token::Symbol { start: 4, end: 7 },
        })
    );
}

#[test]
fn function_calls() {
    assert_eq!(parse_source("sqrt(16)"), Ok(call(Func::Sqrt, num("16"))));
    assert_eq!(parse_source("sin(0)"), Ok(call(Func::Sin, num("0"))));
    assert_eq!(parse_source("cosine(pi)"), Ok(call(Func::Cos, var("pi"))));
    assert_eq!(parse_source("tangent(1)"), Ok(call(Func::Tan, num("1"))));
    assert_eq!(parse_source("SQRT(4)"), Ok(call(Func::Sqrt, num("4"))));
    assert_eq!(parse_source("fact(5)"), Ok(call(Func::Factorial, num("5"))));
    assert_eq!(parse_source("print(2 * x)"), Ok(call(Func::Print, bin(BinOp::Mul, num("2"), var("x")))));
}

#[test]
fn unknown_function_is_an_error() {
    assert_eq!(
        parse_source("foo(1)"),
        Err(ParseError::UnknownFunction { name: Token::Symbol { start: 0, end: 3 } })
    );
}

#[test]
fn function_names() {
    assert_eq!(func_of_name("sine"), Some(Func::Sin));
    assert_eq!(func_of_name("-"), Some(Func::Negate));
    assert_eq!(func_of_name("Sin"), None);
    assert!(same_text("let", "let"));
    assert!(!same_text("let", "lets"));
}

#[test]
fn variable_reference() {
    assert_eq!(parse_source("x + wow"), Ok(bin(BinOp::Add, var("x"), var("wow"))));
}

#[test]
fn negative_literal() {
    assert_eq!(parse_source("-3 * 2"), Ok(bin(BinOp::Mul, neg("3"), num("2"))));
    assert_eq!(parse_source("4 - -1.5"), Ok(bin(BinOp::Sub, num("4"), neg("1.5"))));
}

#[test]
fn minus_before_a_group_is_not_an_operand() {
    assert_eq!(parse_source("-(3)"), Err(ParseError::UnrecognizedAtom { found: Token::Sub }));
    assert_eq!(parse_source("-x"), Err(ParseError::UnrecognizedAtom { found: Token::Sub }));
}

#[test]
fn incomplete_expression_is_an_error() {
    assert_eq!(parse_source("2 +"), Err(ParseError::Incomplete));
    assert_eq!(parse_source("("), Err(ParseError::Incomplete));
}

#[test]
fn empty_input_is_zero() {
    assert_eq!(parse_source(""), Ok(num("0")));
    assert_eq!(parse_source("   "), Ok(num("0")));
}

#[test]
fn unmatched_parentheses() {
    assert_eq!(
        parse_source("(2 + 3"),
        Err(ParseError::Expected { expected: ')', found: Token::EndOfInput })
    );
    assert_eq!(parse_source("2)"), Err(ParseError::TrailingInput { found: Token::RightParen }));
}

#[test]
fn operator_where_an_operand_is_due() {
    assert_eq!(parse_source("* 2"), Err(ParseError::UnrecognizedAtom { found: Token::Mul }));
}

#[test]
fn lex_error_reaches_the_caller() {
    assert_eq!(
        parse_source("1 + #"),
        Err(ParseError::Lex(LexError::UnexpectedChar { ch: '#', pos: 4 }))
    );
}

#[test]
fn line_end_is_trimmed() {
    assert_eq!(parse_line("2 + 3\r\n"), Ok(bin(BinOp::Add, num("2"), num("3"))));
    assert_eq!(
        parse_source("2 + 3\r\n"),
        Err(ParseError::Lex(LexError::UnexpectedChar { ch: '\r', pos: 5 }))
    );
}

#[test]
fn parser_steps() {
    let mut p = Parser::new("(1)");
    assert_eq!(p.peek_token(), Ok(Token::LeftParen));
    assert_eq!(p.peek_token(), Ok(Token::LeftParen));
    assert_eq!(p.expect('('), Ok(()));
    assert_eq!(p.next_token(), Ok(()));
    assert_eq!(p.current, Token::Number { start: 1, end: 2 });
    assert_eq!(
        p.expect('('),
        Err(ParseError::Expected { expected: '(', found: Token::RightParen })
    );
}

#[test]
fn parser_parts() {
    let p = Parser::new("");
    assert_eq!(p.op(Token::Caret, num("1"), num("2")), bin(BinOp::Pow, num("1"), num("2")));
    assert_eq!(p.op(Token::Div, num("1"), num("2")), bin(BinOp::Div, num("1"), num("2")));
    assert_eq!(p.function("tan", num("1")), Some(call(Func::Tan, num("1"))));
    assert_eq!(p.function("nope", num("1")), None);
    let mut q = Parser::new("x");
    assert_eq!(q.atom(), Ok(var("x")));
    let mut r = Parser::new("1 + 2 * 3");
    assert_eq!(r.expr(2), Ok(num("1")));
    let mut whole = Parser::new("1 + 2 * 3");
    assert_eq!(
        whole.parse(),
        Ok(bin(BinOp::Add, num("1"), bin(BinOp::Mul, num("2"), num("3"))))
    );
}

#[test]
fn look_ahead_bookkeeping() {
    let mut p = Parser::new("7 +");
    assert_eq!(p.current, Token::EndOfInput);
    assert!(p.peeked.is_none());
    assert_eq!(p.peek_token(), Ok(Token::Number { start: 0, end: 1 }));
    assert_eq!(p.current, Token::EndOfInput);
    assert_eq!(p.next_token(), Ok(()));
    assert!(p.peeked.is_none());
    assert_eq!(p.current, Token::Number { start: 0, end: 1 });
    assert_eq!(p.expect('+'), Ok(()));
    assert_eq!(p.current, Token::Add);
    assert!(p.peeked.is_none());
}
