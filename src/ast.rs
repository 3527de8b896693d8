use vstd::prelude::*;
use vstd::string::StrSliceExecFns;

verus! {

/// The binary operators of the language.
#[derive(Clone, Copy, Debug, PartialEq, Eq, Structural)]
pub enum BinOp {
    Add,
    Sub,
    Mul,
    Div,
    Mod,
    Pow,
}

/// The named one-argument functions of the language.
#[derive(Clone, Copy, Debug, PartialEq, Eq, Structural)]
pub enum Func {
    Negate,
    Sin,
    Cos,
    Tan,
    Sqrt,
    Factorial,
    Print,
}

/// A syntax tree. Each node owns its children.
///
/// A number keeps the text of its literal, a run of digits with at most one
/// decimal point, and whether a minus sign stood before it.
#[derive(Debug, PartialEq, Eq)]
pub enum Node {
    Num { text: String, negative: bool },
    Var { name: String },
    Assignment { name: String, value: Box<Node> },
    Binary { op: BinOp, left: Box<Node>, right: Box<Node> },
    Call { func: Func, arg: Box<Node> },
}

/// The mathematical value of a [`Node`]: the same tree, with character
/// sequences for strings.
pub enum NodeView {
    Num { text: Seq<char>, negative: bool },
    Var { name: Seq<char> },
    Assignment { name: Seq<char>, value: Box<NodeView> },
    Binary { op: BinOp, left: Box<NodeView>, right: Box<NodeView> },
    Call { func: Func, arg: Box<NodeView> },
}

impl View for Node {
    type V = NodeView;

    open spec fn view(&self) -> NodeView
        decreases self,
    {
        match self {
            Node::Num { text, negative } => NodeView::Num { text: text@, negative: *negative },
            Node::Var { name } => NodeView::Var { name: name@ },
            Node::Assignment { name, value } => NodeView::Assignment {
                name: name@,
                value: Box::new((**value).view()),
            },
            Node::Binary { op, left, right } => NodeView::Binary {
                op: *op,
                left: Box::new((**left).view()),
                right: Box::new((**right).view()),
            },
            Node::Call { func, arg } => NodeView::Call { func: *func, arg: Box::new((**arg).view()) },
        }
    }
}

/// The function that a name calls, if any.
pub open spec fn func_named(name: Seq<char>) -> Option<Func> {
    if name == "sin"@ || name == "sine"@ {
        Some(Func::Sin)
    } else if name == "cos"@ || name == "cosine"@ {
        Some(Func::Cos)
    } else if name == "tan"@ || name == "tangent"@ {
        Some(Func::Tan)
    } else if name == "sqrt"@ || name == "SQRT"@ {
        Some(Func::Sqrt)
    } else if name == "fact"@ {
        Some(Func::Factorial)
    } else if name == "print"@ {
        Some(Func::Print)
    } else if name == "-"@ {
        Some(Func::Negate)
    } else {
        None
    }
}

/// Whether two texts hold the same characters.
pub fn same_text(a: &str, b: &str) -> (r: bool)
    ensures
        r == (a@ == b@),
{
    let n = a.unicode_len();
    if n != b.unicode_len() {
        return false;
    }
    let mut i: usize = 0;
    while i < n
        invariant
            n == a@.len(),
            n == b@.len(),
            i <= n,
            a@.subrange(0, i as int) == b@.subrange(0, i as int),
        decreases n - i,
    {
        if a.get_char(i) != b.get_char(i) {
            return false;
        }
        proof {
            assert(a@.subrange(0, i + 1) =~= a@.subrange(0, i as int).push(a@[i as int]));
            assert(b@.subrange(0, i + 1) =~= b@.subrange(0, i as int).push(b@[i as int]));
        }
        i = i + 1;
    }
    assert(a@ =~= a@.subrange(0, n as int));
    assert(b@ =~= b@.subrange(0, n as int));
    true
}

/// The function called by `name`; `None` for a name that calls none.
pub fn func_of_name(name: &str) -> (r: Option<Func>)
    ensures
        r == func_named(name@),
{
    if same_text(name, "sin") || same_text(name, "sine") {
        Some(Func::Sin)
    } else if same_text(name, "cos") || same_text(name, "cosine") {
        Some(Func::Cos)
    } else if same_text(name, "tan") || same_text(name, "tangent") {
        Some(Func::Tan)
    } else if same_text(name, "sqrt") || same_text(name, "SQRT") {
        Some(Func::Sqrt)
    } else if same_text(name, "fact") {
        Some(Func::Factorial)
    } else if same_text(name, "print") {
        Some(Func::Print)
    } else if same_text(name, "-") {
        Some(Func::Negate)
    } else {
        None
    }
}

} // verus!
