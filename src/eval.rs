use vstd::prelude::*;
use crate::ast::{BinOp, Func, Node, NodeView};
use crate::env::Env;
use crate::parser::{line_text, parse_line, parse_text, ParseError};
use crate::render::{is_arith, lemma_line_of_render, lemma_parse_render, render};

verus! {

/// A number literal as the parser reads it: a run of digits with at most one
/// point, and whether a minus sign stood before it.
pub struct Numeral {
    pub text: Seq<char>,
    pub negative: bool,
}

pub open spec fn numeral(text: Seq<char>, negative: bool) -> Numeral {
    Numeral { text, negative }
}

/// The arithmetic that evaluation applies to values of type `V`.
///
/// Each method computes a function of its arguments, named by the matching
/// spec function; an implementation supplies the numbers and promises no
/// more than that the same arguments give the same value. The spec functions
/// exist for proofs only: an implementation written outside Verus still has
/// to list them, and they are never called when the program runs.
pub trait Arithmetic<V> {
    spec fn spec_literal(&self, lit: Numeral) -> V;

    spec fn spec_binary(&self, op: BinOp, left: V, right: V) -> V;

    spec fn spec_call(&self, func: Func, arg: V) -> V;

    /// The value of a number literal: `text` is a run of digits with at most
    /// one point, negated where `negative` holds.
    fn literal(&self, text: &str, negative: bool) -> (r: V)
        ensures
            r == self.spec_literal(numeral(text@, negative)),
    ;

    fn binary(&self, op: BinOp, left: V, right: V) -> (r: V)
        ensures
            r == self.spec_binary(op, left, right),
    ;

    fn call(&self, func: Func, arg: V) -> (r: V)
        ensures
            r == self.spec_call(func, arg),
    ;
}

pub open spec fn lookup<V>(m: Map<Seq<char>, V>, k: Seq<char>) -> Option<V> {
    if m.contains_key(k) {
        Some(m[k])
    } else {
        None
    }
}

/// The value of `n` under the arithmetic `a` and the bindings `m`, and the
/// bindings afterwards.
///
/// Operands are evaluated left to right and evaluation stops at the first
/// one without a value; a variable without a binding has none; an assignment
/// binds its name only when its value expression has a value.
pub open spec fn value<V, A: Arithmetic<V>>(a: A, n: NodeView, m: Map<Seq<char>, V>) -> (
    Option<V>,
    Map<Seq<char>, V>,
)
    decreases n,
{
    match n {
        NodeView::Num { text, negative } => (Some(a.spec_literal(numeral(text, negative))), m),
        NodeView::Var { name } => (lookup(m, name), m),
        NodeView::Assignment { name, value: e } => {
            let (v, m1) = value(a, *e, m);
            match v {
                Some(x) => (Some(x), m1.insert(name, x)),
                None => (None, m1),
            }
        },
        NodeView::Binary { op, left, right } => {
            let (l, m1) = value(a, *left, m);
            match l {
                Some(x) => {
                    let (r, m2) = value(a, *right, m1);
                    match r {
                        Some(y) => (Some(a.spec_binary(op, x, y)), m2),
                        None => (None, m2),
                    }
                },
                None => (None, m1),
            }
        },
        NodeView::Call { func, arg } => {
            let (v, m1) = value(a, *arg, m);
            match v {
                Some(x) => (Some(a.spec_call(func, x)), m1),
                None => (None, m1),
            }
        },
    }
}

/// The value of a tree of plain arithmetic, computed bottom up with no
/// bindings at all.
pub open spec fn arith_value<V, A: Arithmetic<V>>(a: A, n: NodeView) -> V
    decreases n,
{
    match n {
        NodeView::Num { text, negative } => a.spec_literal(numeral(text, negative)),
        NodeView::Binary { op, left, right } => a.spec_binary(
            op,
            arith_value(a, *left),
            arith_value(a, *right),
        ),
        _ => arbitrary(),
    }
}

/// Whether `n` holds an assignment to `k`.
pub open spec fn assigns(n: NodeView, k: Seq<char>) -> bool
    decreases n,
{
    match n {
        NodeView::Num { .. } => false,
        NodeView::Var { .. } => false,
        NodeView::Assignment { name, value } => name == k || assigns(*value, k),
        NodeView::Binary { op, left, right } => assigns(*left, k) || assigns(*right, k),
        NodeView::Call { func, arg } => assigns(*arg, k),
    }
}

/// Evaluates a tree against the bindings in `env`: the value and the new
/// bindings that [`value`] gives.
pub fn eval<V: Copy, A: Arithmetic<V>>(node: &Node, env: &mut Env<V>, arith: &A) -> (r: Option<V>)
    requires
        old(env).wf(),
    ensures
        final(env).wf(),
        r == value(*arith, node@, old(env)@).0,
        final(env)@ == value(*arith, node@, old(env)@).1,
    decreases node,
{
    match node {
        Node::Num { text, negative } => Some(arith.literal(text.as_str(), *negative)),
        Node::Var { name } => env.get(name.as_str()),
        Node::Assignment { name, value } => match eval(value, env, arith) {
            Some(v) => {
                env.insert(name.clone(), v);
                Some(v)
            },
            None => None,
        },
        Node::Binary { op, left, right } => match eval(left, env, arith) {
            Some(l) => match eval(right, env, arith) {
                Some(r) => Some(arith.binary(*op, l, r)),
                None => None,
            },
            None => None,
        },
        Node::Call { func, arg } => match eval(arg, env, arith) {
            Some(x) => Some(arith.call(*func, x)),
            None => None,
        },
    }
}

/// Why a line of input has no value.
#[derive(Clone, Copy, Debug, PartialEq, Eq, Structural)]
pub enum EvalError {
    /// The line is no expression.
    Parse(ParseError),
    /// The expression reads a variable that has no binding.
    NoValue,
}

/// Parses one line of input and evaluates it against `env`.
///
/// A line that does not parse leaves `env` as it was; one that parses has the
/// value and leaves the bindings that [`value`] gives, and has no value where
/// it reads a variable without a binding.
pub fn evaluate<V: Copy, A: Arithmetic<V>>(input: &str, env: &mut Env<V>, arith: &A) -> (r: Result<
    V,
    EvalError,
>)
    requires
        old(env).wf(),
    ensures
        final(env).wf(),
        match parse_text(line_text(input@)) {
            Err(e) => r == Err::<V, EvalError>(EvalError::Parse(e)) && final(env)@ == old(env)@,
            Ok(n) => {
                &&& r == match value(*arith, n, old(env)@).0 {
                    Some(v) => Ok::<V, EvalError>(v),
                    None => Err::<V, EvalError>(EvalError::NoValue),
                }
                &&& final(env)@ == value(*arith, n, old(env)@).1
            },
        },
{
    let tree = match parse_line(input) {
        Ok(tree) => tree,
        Err(e) => return Err(EvalError::Parse(e)),
    };
    match eval(&tree, env, arith) {
        Some(v) => Ok(v),
        None => Err(EvalError::NoValue),
    }
}

/// Bindings that no assignment in a tree names keep their values: only an
/// assignment whose value expression has a value changes the bindings.
pub proof fn lemma_value_keeps_unassigned<V, A: Arithmetic<V>>(
    a: A,
    n: NodeView,
    m: Map<Seq<char>, V>,
    k: Seq<char>,
)
    requires
        !assigns(n, k),
    ensures
        lookup(value(a, n, m).1, k) == lookup(m, k),
    decreases n,
{
    match n {
        NodeView::Assignment { name, value: e } => {
            lemma_value_keeps_unassigned(a, *e, m, k);
        },
        NodeView::Binary { op, left, right } => {
            lemma_value_keeps_unassigned(a, *left, m, k);
            lemma_value_keeps_unassigned(a, *right, value(a, *left, m).1, k);
        },
        NodeView::Call { func, arg } => {
            lemma_value_keeps_unassigned(a, *arg, m, k);
        },
        _ => {},
    }
}

/// Evaluating a tree without assignments leaves the bindings as they were,
/// whether or not it has a value.
pub proof fn lemma_no_assignment_keeps_bindings<V, A: Arithmetic<V>>(
    a: A,
    n: NodeView,
    m: Map<Seq<char>, V>,
)
    requires
        forall|k: Seq<char>| !#[trigger] assigns(n, k),
    ensures
        value(a, n, m).1 == m,
{
    let m1 = value(a, n, m).1;
    assert forall|k: Seq<char>| #[trigger] m1.contains_key(k) == m.contains_key(k) && (m.contains_key(k) ==> m1[k] == m[k]) by {
        lemma_value_keeps_unassigned(a, n, m, k);
    }
    assert(m1 =~= m);
}

/// A tree of plain arithmetic has the same value whatever the bindings, the
/// one that [`arith_value`] computes, and leaves the bindings as they were;
/// so evaluating it twice gives the same result.
pub proof fn lemma_arith_value<V, A: Arithmetic<V>>(a: A, n: NodeView, m: Map<Seq<char>, V>)
    requires
        is_arith(n),
    ensures
        value(a, n, m) == (Some(arith_value(a, n)), m),
    decreases n,
{
    if let NodeView::Binary { op, left, right } = n {
        lemma_arith_value(a, *left, m);
        lemma_arith_value(a, *right, m);
    }
}

/// An arithmetic tree written out with each operation in parentheses is read
/// back as that tree, and the line evaluates, under any bindings, to the
/// value [`arith_value`] computes bottom up, leaving the bindings as they were.
pub proof fn lemma_evaluate_rendered<V, A: Arithmetic<V>>(a: A, e: NodeView, m: Map<Seq<char>, V>)
    requires
        is_arith(e),
        render(e).len() <= usize::MAX,
    ensures
        parse_text(line_text(render(e))) == Ok::<NodeView, ParseError>(e),
        value(a, e, m) == (Some(arith_value(a, e)), m),
{
    lemma_line_of_render(e);
    lemma_parse_render(e);
    lemma_arith_value(a, e, m);
}

} // verus!
