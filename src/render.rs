use vstd::prelude::*;
use crate::ast::{BinOp, NodeView};
use crate::lexer::{count_dots, in_number, is_digit, number_end, scan, skip_ws, punct_token};
use crate::parser::{line_text, trim_end_len, white_space, parse_atom, parse_expr, parse_group, parse_loop, parse_text, expect_at, ParseError};
use crate::token::{spec_info, Token};

verus! {

/// The character that writes a binary operator.
pub open spec fn op_char(op: BinOp) -> char {
    match op {
        BinOp::Add => '+',
        BinOp::Sub => '-',
        BinOp::Mul => '*',
        BinOp::Div => '/',
        BinOp::Mod => '%',
        BinOp::Pow => '^',
    }
}

/// The text of a number literal: digits with at most one point, starting
/// with a digit.
pub open spec fn is_number_text(t: Seq<char>) -> bool {
    &&& t.len() > 0
    &&& is_digit(t[0])
    &&& forall|i: int| 0 <= i < t.len() ==> #[trigger] in_number(t[i])
    &&& count_dots(t) <= 1
}

/// A tree of plain arithmetic: number literals joined by binary operators.
pub open spec fn is_arith(e: NodeView) -> bool
    decreases e,
{
    match e {
        NodeView::Num { text, negative } => !negative && is_number_text(text),
        NodeView::Binary { op, left, right } => is_arith(*left) && is_arith(*right),
        _ => false,
    }
}

/// An arithmetic tree written out with each operation in parentheses.
pub open spec fn render(e: NodeView) -> Seq<char>
    decreases e,
{
    match e {
        NodeView::Num { text, negative } => text,
        NodeView::Binary { op, left, right } => seq!['('] + render(*left) + seq![op_char(op)]
            + render(*right) + seq![')'],
        _ => Seq::empty(),
    }
}

proof fn lemma_number_run(s: Seq<char>, i: int, k: int)
    requires
        0 <= i <= k <= s.len(),
        forall|j: int| i <= j < k ==> #[trigger] in_number(s[j]),
        k == s.len() || !in_number(s[k]),
    ensures
        number_end(s, i) == k,
    decreases k - i,
{
    if i < k {
        lemma_number_run(s, i + 1, k);
    }
}

/// The facts about `s` that hold where the text of `e` stands at `p`, with
/// no digit or point after it.
pub open spec fn rendered_at(s: Seq<char>, p: int, e: NodeView) -> bool {
    &&& 0 <= p
    &&& p + render(e).len() <= s.len()
    &&& s.len() <= usize::MAX
    &&& s.subrange(p, p + render(e).len()) == render(e)
    &&& p + render(e).len() == s.len() || !in_number(s[p + render(e).len()])
}

proof fn lemma_number_atom(s: Seq<char>, p: int, e: NodeView)
    requires
        is_arith(e),
        e is Num,
        rendered_at(s, p, e),
    ensures
        parse_atom(s, p) == Ok::<(NodeView, int), ParseError>((e, p + render(e).len())),
{
    let r = render(e);
    let n = r.len() as int;
    assert(s[p] == r[0]);
    assert forall|j: int| p < j < p + n implies #[trigger] in_number(s[j]) by {
        assert(s[j] == r[j - p]);
    }
    lemma_number_run(s, p + 1, p + n);
    assert(skip_ws(s, p) == p);
    assert(scan(s, p) == Ok::<(Token, int), crate::lexer::LexError>(
        (Token::Number { start: p as usize, end: (p + n) as usize }, p + n),
    ));
}

proof fn lemma_punct_at(s: Seq<char>, q: int, c: char)
    requires
        0 <= q < s.len(),
        s[q] == c,
        punct_token(c) is Some,
    ensures
        scan(s, q) == Ok::<(Token, int), crate::lexer::LexError>((punct_token(c)->0, q + 1)),
{
    assert(skip_ws(s, q) == q);
}

/// Where the right operand `rr` ends at `q2` and `)` follows, the operand
/// parses at every precedence and stops before the parenthesis.
proof fn lemma_right_operand(s: Seq<char>, q: int, rr: NodeView, np: int)
    requires
        is_arith(rr),
        rendered_at(s, q, rr),
        q + render(rr).len() < s.len(),
        s[q + render(rr).len()] == ')',
        parse_atom(s, q) == Ok::<(NodeView, int), ParseError>((rr, q + render(rr).len())),
    ensures
        parse_expr(s, q, np) == Ok::<(NodeView, int), ParseError>((rr, q + render(rr).len())),
{
    let q2 = q + render(rr).len();
    lemma_punct_at(s, q2, ')');
    assert(parse_loop(s, q2, np, rr) == Ok::<(NodeView, int), ParseError>((rr, q2)));
}

/// At a position of `s` where the text of an arithmetic tree stands, and no
/// digit or point follows it, an operand parses as that tree and ends where
/// the text ends.
#[verifier::rlimit(40)]
proof fn lemma_atom_rendered(s: Seq<char>, p: int, e: NodeView)
    requires
        is_arith(e),
        rendered_at(s, p, e),
    ensures
        parse_atom(s, p) == Ok::<(NodeView, int), ParseError>((e, p + render(e).len())),
    decreases e,
{
    match e {
        NodeView::Num { .. } => {
            lemma_number_atom(s, p, e);
        },
        NodeView::Binary { op, left, right } => {
            let r = render(e);
            let l = *left;
            let rr = *right;
            let ln = render(l).len() as int;
            let rn = render(rr).len() as int;
            let q1 = p + 1 + ln;
            let q2 = q1 + 1 + rn;
            assert(r.len() == ln + rn + 3);
            assert(s[p] == r[0]);
            assert(s[q1] == r[1 + ln]);
            assert(s[q2] == r[2 + ln + rn]);
            assert(s.subrange(p + 1, q1) =~= r.subrange(1, 1 + ln));
            assert(r.subrange(1, 1 + ln) =~= render(l));
            assert(s.subrange(q1 + 1, q2) =~= r.subrange(2 + ln, 2 + ln + rn));
            assert(r.subrange(2 + ln, 2 + ln + rn) =~= render(rr));
            lemma_atom_rendered(s, p + 1, l);
            lemma_atom_rendered(s, q1 + 1, rr);
            lemma_binary_atom(s, p, op, l, rr);
        },
        _ => {},
    }
}

proof fn lemma_binary_atom(s: Seq<char>, p: int, op: BinOp, l: NodeView, rr: NodeView)
    requires
        0 <= p,
        s.len() <= usize::MAX,
        p + render(l).len() + render(rr).len() + 3 <= s.len(),
        s[p] == '(',
        s[p + 1 + render(l).len()] == op_char(op),
        s[p + 2 + render(l).len() + render(rr).len()] == ')',
        parse_atom(s, p + 1) == Ok::<(NodeView, int), ParseError>((l, p + 1 + render(l).len())),
        is_arith(rr),
        rendered_at(s, p + 2 + render(l).len(), rr),
        parse_atom(s, p + 2 + render(l).len()) == Ok::<(NodeView, int), ParseError>(
            (rr, p + 2 + render(l).len() + render(rr).len()),
        ),
    ensures
        parse_atom(s, p) == Ok::<(NodeView, int), ParseError>(
            (
                NodeView::Binary { op, left: Box::new(l), right: Box::new(rr) },
                p + render(l).len() + render(rr).len() + 3,
            ),
        ),
{
    let e = NodeView::Binary { op, left: Box::new(l), right: Box::new(rr) };
    let q1 = p + 1 + render(l).len();
    let q2 = q1 + 1 + render(rr).len();
    lemma_punct_at(s, p, '(');
    lemma_punct_at(s, q1, op_char(op));
    lemma_punct_at(s, q2, ')');
    let t = punct_token(op_char(op))->0;
    let (prec, assoc) = spec_info(t)->0;
    let np = crate::parser::next_prec(prec, assoc);
    lemma_right_operand(s, q1 + 1, rr, np);
    assert(crate::parser::binop_of(t) == op);
    assert(parse_loop(s, q2, 1, e) == Ok::<(NodeView, int), ParseError>((e, q2)));
    assert(parse_loop(s, q1, 1, l) == Ok::<(NodeView, int), ParseError>((e, q2)));
    assert(parse_expr(s, p + 1, 1) == Ok::<(NodeView, int), ParseError>((e, q2)));
    assert(expect_at(s, q2, ')') == Ok::<int, ParseError>(q2 + 1));
    assert(parse_group(s, p + 1) == Ok::<(NodeView, int), ParseError>((e, q2 + 1)));
}

/// The text of an arithmetic tree ends in no white space, so a line holding
/// it is the text itself.
pub proof fn lemma_line_of_render(e: NodeView)
    requires
        is_arith(e),
    ensures
        line_text(render(e)) == render(e),
{
    let s = render(e);
    match e {
        NodeView::Num { .. } => {
            assert(in_number(s[s.len() - 1]));
        },
        NodeView::Binary { .. } => {
            assert(s[s.len() - 1] == ')');
        },
        _ => {},
    }
    assert(!white_space(s.last()));
    assert(trim_end_len(s) == s.len());
    assert(s.subrange(0, s.len() as int) =~= s);
}

/// Writing an arithmetic tree out with each operation in parentheses and
/// parsing that text gives the same tree back.
pub proof fn lemma_parse_render(e: NodeView)
    requires
        is_arith(e),
        render(e).len() <= usize::MAX,
    ensures
        parse_text(render(e)) == Ok::<NodeView, ParseError>(e),
{
    let s = render(e);
    let n = s.len() as int;
    assert(s.subrange(0, n) =~= s);
    lemma_atom_rendered(s, 0, e);
    assert(skip_ws(s, n) == n);
    assert(scan(s, n) == Ok::<(Token, int), crate::lexer::LexError>((Token::EndOfInput, n)));
    assert(parse_loop(s, n, 1, e) == Ok::<(NodeView, int), ParseError>((e, n)));
    assert(parse_expr(s, 0, 1) == Ok::<(NodeView, int), ParseError>((e, n)));
}

} // verus!
