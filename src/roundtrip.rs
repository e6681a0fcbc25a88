//! The structural round trip: a fully parenthesized binary expression goes
//! to reverse Polish notation and back to the same grouping.
use vstd::prelude::*;
use crate::rpn::{conv_prefix, conv_step, drained, pop_before, pop_to_open, rpn_spec};
use crate::syntaxtree::{
    detokenized, first_op_from, is_op, reduce_once, rendered_token, rendering, txt,
};
use crate::tokens::{ParseError, TokenModel, TokenType};

verus! {

/// A binary expression over operand tokens.
pub enum Expr {
    Leaf(TokenModel),
    Bin(Box<Expr>, TokenModel, Box<Expr>),
}

/// Operands are numbers or names; operators are binary operator tokens.
pub open spec fn well_formed(e: Expr) -> bool
    decreases e,
{
    match e {
        Expr::Leaf(t) => t.kind == TokenType::Numeric || t.kind == TokenType::VariableName,
        Expr::Bin(l, op, r) => op.kind == TokenType::Operator && op.arity == 2 && well_formed(*l)
            && well_formed(*r),
    }
}

/// The tokens of the expression with every binary application in parentheses.
pub open spec fn infix(e: Expr, open: TokenModel, close: TokenModel) -> Seq<TokenModel>
    decreases e,
{
    match e {
        Expr::Leaf(t) => seq![t],
        Expr::Bin(l, op, r) => seq![open] + infix(*l, open, close) + seq![op] + infix(
            *r,
            open,
            close,
        ) + seq![close],
    }
}

/// The tokens of the expression in postfix order.
pub open spec fn postfix(e: Expr) -> Seq<TokenModel>
    decreases e,
{
    match e {
        Expr::Leaf(t) => seq![t],
        Expr::Bin(l, op, r) => postfix(*l) + postfix(*r) + seq![op],
    }
}

/// The text of the expression with every binary application in parentheses.
pub open spec fn render(e: Expr) -> Seq<char>
    decreases e,
{
    match e {
        Expr::Leaf(t) => txt(t),
        Expr::Bin(l, op, r) => seq!['('] + render(*l) + seq![' '] + txt(op) + seq![' '] + render(
            *r,
        ) + seq![')'],
    }
}

/// The single token that stands for the expression once it is rendered.
pub open spec fn rendered(e: Expr) -> TokenModel {
    match e {
        Expr::Leaf(t) => t,
        Expr::Bin(_, _, _) => rendered_token(render(e)),
    }
}

/// The conversion run from a given output and stack over `ts`.
pub open spec fn conv_run(out: Seq<TokenModel>, stack: Seq<TokenModel>, ts: Seq<TokenModel>) -> Result<
    (Seq<TokenModel>, Seq<TokenModel>),
    ParseError,
>
    decreases ts.len(),
{
    if ts.len() == 0 {
        Ok((out, stack))
    } else {
        match conv_step(out, stack, ts[0]) {
            Ok((o, s)) => conv_run(o, s, ts.drop_first()),
            Err(e) => Err(e),
        }
    }
}

proof fn lemma_conv_run_concat(
    out: Seq<TokenModel>,
    stack: Seq<TokenModel>,
    a: Seq<TokenModel>,
    b: Seq<TokenModel>,
)
    ensures
        conv_run(out, stack, a + b) == match conv_run(out, stack, a) {
            Ok((o, s)) => conv_run(o, s, b),
            Err(e) => Err(e),
        },
    decreases a.len(),
{
    if a.len() == 0 {
        assert(a + b =~= b);
    } else {
        assert((a + b)[0] == a[0]);
        assert((a + b).drop_first() =~= a.drop_first() + b);
        if let Ok((o, s)) = conv_step(out, stack, a[0]) {
            lemma_conv_run_concat(o, s, a.drop_first(), b);
        }
    }
}

proof fn lemma_conv_run_one(out: Seq<TokenModel>, stack: Seq<TokenModel>, t: TokenModel)
    ensures
        conv_run(out, stack, seq![t]) == conv_step(out, stack, t),
{
    assert(seq![t].drop_first() =~= Seq::<TokenModel>::empty());
    assert(seq![t][0] == t);
    if let Ok((o, s)) = conv_step(out, stack, t) {
        assert(conv_run(o, s, seq![t].drop_first()) == Ok::<_, ParseError>((o, s)));
    }
}

proof fn lemma_conv_prefix_run(ts: Seq<TokenModel>, n: int)
    requires
        0 <= n <= ts.len(),
    ensures
        conv_prefix(ts, n) == conv_run(Seq::empty(), Seq::empty(), ts.take(n)),
    decreases n,
{
    if n == 0 {
        assert(ts.take(0) =~= Seq::<TokenModel>::empty());
    } else {
        lemma_conv_prefix_run(ts, n - 1);
        assert(ts.take(n) =~= ts.take(n - 1) + seq![ts[n - 1]]);
        lemma_conv_run_concat(Seq::empty(), Seq::empty(), ts.take(n - 1), seq![ts[n - 1]]);
        if let Ok((o, s)) = conv_run(Seq::empty(), Seq::empty(), ts.take(n - 1)) {
            lemma_conv_run_one(o, s, ts[n - 1]);
        }
    }
}

proof fn lemma_conv_expr(
    e: Expr,
    open: TokenModel,
    close: TokenModel,
    out: Seq<TokenModel>,
    stack: Seq<TokenModel>,
)
    requires
        well_formed(e),
        open.kind == TokenType::OpenPar,
        close.kind == TokenType::ClosedPar,
        stack.len() == 0 || stack.last().kind != TokenType::Function,
    ensures
        conv_run(out, stack, infix(e, open, close)) == Ok::<_, ParseError>(
            (out + postfix(e), stack),
        ),
    decreases e,
{
    match e {
        Expr::Leaf(t) => {
            lemma_conv_run_one(out, stack, t);
            assert(out.push(t) =~= out + seq![t]);
        },
        Expr::Bin(l, op, r) => {
            let il = infix(*l, open, close);
            let ir = infix(*r, open, close);
            let s1 = stack.push(open);
            let s2 = s1.push(op);
            let o1 = out + postfix(*l);
            let o2 = o1 + postfix(*r);
            let c = seq![open] + il;
            let b = c + seq![op];
            let a = b + ir;
            lemma_conv_run_concat(out, stack, a, seq![close]);
            lemma_conv_run_concat(out, stack, b, ir);
            lemma_conv_run_concat(out, stack, c, seq![op]);
            lemma_conv_run_concat(out, stack, seq![open], il);
            lemma_conv_run_one(out, stack, open);
            lemma_conv_expr(*l, open, close, out, s1);
            lemma_conv_run_one(o1, s1, op);
            assert(s1.last() == open);
            assert(pop_before(o1, s1, op) == (o1, s1));
            lemma_conv_expr(*r, open, close, o1, s2);
            lemma_conv_run_one(o2, s2, close);
            assert(s2.last() == op);
            assert(s2.drop_last() =~= s1);
            assert(s1.drop_last() =~= stack);
            assert(pop_to_open(o2.push(op), s1) == (o2.push(op), s1));
            assert(pop_to_open(o2, s2) == (o2.push(op), s1));
            assert(o2.push(op) =~= out + postfix(e));
        },
    }
}

proof fn lemma_first_op_at(ts: Seq<TokenModel>, k: int, i: int)
    requires
        0 <= i <= k < ts.len(),
        is_op(ts[k]),
        forall|j: int| 0 <= j < k ==> !is_op(#[trigger] ts[j]),
    ensures
        first_op_from(ts, i) == Some(k),
    decreases k - i,
{
    if i < k {
        lemma_first_op_at(ts, k, i + 1);
    }
}

proof fn lemma_no_op(ts: Seq<TokenModel>, i: int)
    requires
        0 <= i,
        forall|j: int| 0 <= j < ts.len() ==> !is_op(#[trigger] ts[j]),
    ensures
        first_op_from(ts, i) == None::<int>,
    decreases ts.len() - i,
{
    if i < ts.len() {
        lemma_no_op(ts, i + 1);
    }
}

proof fn lemma_detok_expr(e: Expr, pre: Seq<TokenModel>, rest: Seq<TokenModel>)
    requires
        well_formed(e),
        forall|j: int| 0 <= j < pre.len() ==> !is_op(#[trigger] pre[j]),
    ensures
        detokenized(pre + postfix(e) + rest) == detokenized(pre + seq![rendered(e)] + rest),
        !is_op(rendered(e)),
        txt(rendered(e)) == render(e),
    decreases e,
{
    match e {
        Expr::Leaf(t) => {},
        Expr::Bin(l, op, r) => {
            let pl = postfix(*l);
            let pr = postfix(*r);
            let rl = rendered(*l);
            let rr = rendered(*r);
            lemma_detok_expr(*l, pre, pr + seq![op] + rest);
            assert(pre + postfix(e) + rest =~= pre + pl + (pr + seq![op] + rest));
            let pre2 = pre + seq![rl];
            assert forall|j: int| 0 <= j < pre2.len() implies !is_op(#[trigger] pre2[j]) by {
                if j < pre.len() {
                    assert(pre2[j] == pre[j]);
                }
            }
            lemma_detok_expr(*r, pre2, seq![op] + rest);
            assert(pre + seq![rl] + (pr + seq![op] + rest) =~= pre2 + pr + (seq![op] + rest));
            let x = pre2 + seq![rr] + (seq![op] + rest);
            let k: int = pre.len() as int + 2;
            assert(x[k] == op);
            assert(x[k - 2] == rl);
            assert(x[k - 1] == rr);
            assert forall|j: int| 0 <= j < k implies !is_op(#[trigger] x[j]) by {
                if j < pre.len() {
                    assert(x[j] == pre[j]);
                }
            }
            lemma_first_op_at(x, k, 0);
            assert(rendering(x, k) == Some((pre.len() as int, render(e))));
            assert(x.take(pre.len() as int).push(rendered_token(render(e))) + x.skip(k + 1)
                =~= pre + seq![rendered(e)] + rest);
            assert(reduce_once(x) == Some(pre + seq![rendered(e)] + rest));
        },
    }
}

/// For every well-formed, fully parenthesized binary expression (with any
/// tokens of kind `OpenPar` and `ClosedPar` as its parentheses), conversion
/// to reverse Polish notation yields the expression's postfix order, and the
/// infix rendering of that order is one token whose text is the expression
/// with each binary application in parentheses: the grouping comes back.
pub proof fn lemma_round_trip(e: Expr, open: TokenModel, close: TokenModel)
    requires
        well_formed(e),
        open.kind == TokenType::OpenPar,
        close.kind == TokenType::ClosedPar,
    ensures
        rpn_spec(infix(e, open, close)) == Ok::<_, ParseError>(postfix(e)),
        detokenized(postfix(e)) == seq![rendered(e)],
        txt(rendered(e)) == render(e),
{
    let ts = infix(e, open, close);
    lemma_conv_prefix_run(ts, ts.len() as int);
    assert(ts.take(ts.len() as int) =~= ts);
    lemma_conv_expr(e, open, close, Seq::empty(), Seq::empty());
    assert(Seq::<TokenModel>::empty() + postfix(e) =~= postfix(e));
    assert(drained(postfix(e), Seq::empty()) == Ok::<_, ParseError>(postfix(e)));
    let empty = Seq::<TokenModel>::empty();
    lemma_detok_expr(e, empty, empty);
    assert(empty + postfix(e) + empty =~= postfix(e));
    assert(empty + seq![rendered(e)] + empty =~= seq![rendered(e)]);
    lemma_no_op(seq![rendered(e)], 0);
    assert(reduce_once(seq![rendered(e)]) == None::<Seq<TokenModel>>);
}

} // verus!
