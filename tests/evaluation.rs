use calculator::ast::{BinOp, Func, Node};
use calculator::env::Env;
use calculator::eval::{eval, evaluate, Arithmetic, EvalError, Numeral};
use calculator::parser::{parse_source, ParseError};

fn factorial(n: f64) -> f64 {
    if n < 2.0 {
        1.0
    } else {
        n * factorial(n - 1.0)
    }
}

struct Float;

impl Arithmetic<f64> for Float {
    // The three spec functions name the results for proofs about the
    // library; they are never called when the program runs.
    fn spec_literal(&self, _lit: Numeral) -> f64 {
        unreachable!()
    }

    fn spec_binary(&self, _op: BinOp, _left: f64, _right: f64) -> f64 {
        unreachable!()
    }

    fn spec_call(&self, _func: Func, _arg: f64) -> f64 {
        unreachable!()
    }

    fn literal(&self, text: &str, negative: bool) -> f64 {
        let v: f64 = text.parse().unwrap();
        if negative {
            -v
        } else {
            v
        }
    }

    fn binary(&self, op: BinOp, l: f64, r: f64) -> f64 {
        match op {
            BinOp::Add => l + r,
            BinOp::Sub => l - r,
            BinOp::Mul => l * r,
            BinOp::Div => l / r,
            BinOp::Mod => l % r,
            BinOp::Pow => l.powf(r),
        }
    }

    fn call(&self, func: Func, x: f64) -> f64 {
        match func {
            Func::Negate => -x,
            Func::Sin => x.sin(),
            Func::Cos => x.cos(),
            Func::Tan => x.tan(),
            Func::Sqrt => x.sqrt(),
            Func::Factorial => factorial(x),
            Func::Print => x,
        }
    }
}

fn run(input: &str, env: &mut Env<f64>) -> Result<f64, EvalError> {
    evaluate(input, env, &Float)
}

/// A plain recursive evaluator for trees of numbers and binary operators.
fn reference(n: &Node) -> f64 {
    match n {
        Node::Num { text, negative: false } => text.parse().unwrap(),
        Node::Binary { op, left, right } => Float.binary(*op, reference(left), reference(right)),
        _ => unreachable!(),
    }
}

fn session() -> Env<f64> {
    let mut env = Env::new();
    env.insert("wow".to_string(), 35.0);
    env.insert("pi".to_string(), std::f64::consts::PI);
    env
}

#[test]
fn sums_products_and_groups() {
    let mut env = session();
    assert_eq!(run("2 + 3", &mut env), Ok(5.0));
    assert_eq!(run("2 + 3 * 4", &mut env), Ok(14.0));
    assert_eq!(run("(2 + 3) * 4", &mut env), Ok(20.0));
}

#[test]
fn power_groups_to_the_right() {
    assert_eq!(run("2 ^ 3 ^ 2", &mut session()), Ok(512.0));
}

#[test]
fn assignment_lasts_for_the_session() {
    let mut env = session();
    assert_eq!(run("let x = 5", &mut env), Ok(5.0));
    assert_eq!(run("x + 1", &mut env), Ok(6.0));
    assert_eq!(run("let x = x * 2", &mut env), Ok(10.0));
    assert_eq!(run("x", &mut env), Ok(10.0));
}

#[test]
fn functions_of_one_argument() {
    let mut env = session();
    assert_eq!(run("sqrt(16)", &mut env), Ok(4.0));
    assert_eq!(run("sin(0)", &mut env), Ok(0.0));
    assert_eq!(run("fact(5)", &mut env), Ok(120.0));
    assert_eq!(run("cos(0)", &mut env), Ok(1.0));
}

#[test]
fn unbound_variable_has_no_value() {
    assert_eq!(run("y + 1", &mut session()), Err(EvalError::NoValue));
}

#[test]
fn assignment_without_value_leaves_bindings_alone() {
    let mut env = session();
    assert_eq!(run("let z = y", &mut env), Err(EvalError::NoValue));
    assert_eq!(env.get("z"), None);
}

#[test]
fn default_bindings() {
    let mut env = session();
    assert_eq!(run("wow / 7", &mut env), Ok(5.0));
    assert_eq!(run("pi", &mut env), Ok(std::f64::consts::PI));
}

#[test]
fn incomplete_input_is_no_zero() {
    assert_eq!(run("2 +", &mut session()), Err(EvalError::Parse(ParseError::Incomplete)));
}

#[test]
fn division_by_zero_is_infinite() {
    assert_eq!(run("1 / 0", &mut session()), Ok(f64::INFINITY));
}

#[test]
fn evaluation_repeats_with_fresh_bindings() {
    let text = "2 * (3.5 + 4) ^ 2 / 7 - 1.25 % 0.5";
    let first = run(text, &mut session());
    let second = run(text, &mut session());
    assert!(first.is_ok());
    assert_eq!(first, second);
}

/// Writes a tree out with each operation in parentheses.
fn render(n: &Node) -> String {
    match n {
        Node::Num { text, .. } => text.clone(),
        Node::Binary { op, left, right } => {
            let c = match op {
                BinOp::Add => '+',
                BinOp::Sub => '-',
                BinOp::Mul => '*',
                BinOp::Div => '/',
                BinOp::Mod => '%',
                BinOp::Pow => '^',
            };
            format!("({}{}{})", render(left), c, render(right))
        }
        _ => unreachable!(),
    }
}

fn generate(seed: &mut u64, depth: u32) -> Node {
    *seed = seed.wrapping_mul(6364136223846793005).wrapping_add(1442695040888963407);
    let pick = (*seed >> 33) % 7;
    if depth == 0 || pick < 2 {
        let whole = (*seed >> 40) % 100 + 1;
        let text = if pick == 1 { format!("{}.5", whole) } else { format!("{}", whole) };
        return Node::Num { text, negative: false };
    }
    let op = [BinOp::Add, BinOp::Sub, BinOp::Mul, BinOp::Div, BinOp::Pow][(pick - 2) as usize];
    let left = generate(seed, depth - 1);
    let right = generate(seed, depth - 1);
    Node::Binary { op, left: Box::new(left), right: Box::new(right) }
}

#[test]
fn rendered_trees_parse_back() {
    let mut seed = 7u64;
    for _ in 0..200 {
        let tree = generate(&mut seed, 4);
        let text = render(&tree);
        let parsed = parse_source(&text).unwrap();
        assert_eq!(parsed, tree);
        let a = eval(&parsed, &mut session(), &Float).unwrap();
        let b = reference(&tree);
        assert!(a.to_bits() == b.to_bits() || (a.is_nan() && b.is_nan()));
    }
}

#[test]
fn rendered_text_shape() {
    let tree = Node::Binary {
        op: BinOp::Pow,
        left: Box::new(Node::Num { text: "2".to_string(), negative: false }),
        right: Box::new(Node::Num { text: "0.5".to_string(), negative: false }),
    };
    assert_eq!(render(&tree), "(2^0.5)");
    assert_eq!(parse_source("(2^0.5)"), Ok(tree));
}

#[test]
fn parse_error_leaves_bindings_alone() {
    let mut env = session();
    assert_eq!(run("let q = (1", &mut env), Err(EvalError::Parse(ParseError::Expected {
        expected: ')',
        found: calculator::token::Token::EndOfInput,
    })));
    assert_eq!(env.get("q"), None);
}

#[test]
fn trailing_line_end_is_ignored() {
    assert_eq!(run("2 * 21\r\n", &mut session()), Ok(42.0));
}

#[test]
fn short_circuit_stops_before_the_right_operand() {
    let mut env = session();
    assert_eq!(run("y + (let k = 3)", &mut env), Err(EvalError::NoValue));
    assert_eq!(env.get("k"), None);
    assert_eq!(run("(let k = 3) + y", &mut env), Err(EvalError::NoValue));
    assert_eq!(env.get("k"), Some(3.0));
}

#[test]
fn negative_literal_and_modulo() {
    let mut env = session();
    assert_eq!(run("-2 * 3", &mut env), Ok(-6.0));
    assert_eq!(run("7 % 4", &mut env), Ok(3.0));
}
