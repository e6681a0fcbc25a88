//! Syntax trees built from reverse Polish notation, and the parenthesized
//! infix rendering of a reverse Polish sequence.
use vstd::prelude::*;
use crate::tokens::{lemma_models_push, lit_text, models, Lit, Token, TokenModel, TokenType, TokenUnion};

verus! {

/// A node of a syntax tree: the text of its token and its operands, the
/// operand pushed last first.
pub struct SyntaxTreeNode {
    pub value: TokenUnion,
    pub children: Vec<SyntaxTreeNode>,
}

/// What a syntax tree denotes: a text and the trees below it.
pub enum TreeModel {
    Node(Seq<char>, Seq<TreeModel>),
}

/// Whether the node `n` has the shape and the texts of `t`.
pub open spec fn represents(n: SyntaxTreeNode, t: TreeModel) -> bool
    decreases t,
{
    match t {
        TreeModel::Node(text, kids) => {
            &&& lit_text(n.value@) == text
            &&& n.children@.len() == kids.len()
            &&& forall|i: int|
                0 <= i < kids.len() ==> represents(#[trigger] n.children@[i], kids[i])
        },
    }
}

pub open spec fn represents_all(ns: Seq<SyntaxTreeNode>, ts: Seq<TreeModel>) -> bool {
    &&& ns.len() == ts.len()
    &&& forall|i: int| 0 <= i < ts.len() ==> represents(#[trigger] ns[i], ts[i])
}

/// The trees after one more token: an operator or a function takes up to
/// its number of operands off the stack as its children.
pub open spec fn forest_step(stack: Seq<TreeModel>, t: TokenModel) -> Seq<TreeModel> {
    let text = lit_text(t.lit);
    if t.kind == TokenType::Operator || t.kind == TokenType::Function {
        let k: int = if t.arity as int <= stack.len() {
            t.arity as int
        } else {
            stack.len() as int
        };
        stack.take(stack.len() - k).push(
            TreeModel::Node(text, Seq::new(k as nat, |j: int| stack[stack.len() - 1 - j])),
        )
    } else {
        stack.push(TreeModel::Node(text, Seq::empty()))
    }
}

pub open spec fn forest_prefix(ts: Seq<TokenModel>, n: int) -> Seq<TreeModel>
    decreases n,
{
    if n <= 0 {
        Seq::empty()
    } else {
        forest_step(forest_prefix(ts, n - 1), ts[n - 1])
    }
}

/// The trees of a reverse Polish sequence: one for a well-formed one.
pub open spec fn build_forest(ts: Seq<TokenModel>) -> Seq<TreeModel> {
    forest_prefix(ts, ts.len() as int)
}

impl SyntaxTreeNode {
    /// Appends `child` after the node's children.
    pub fn add_child(&mut self, child: SyntaxTreeNode)
        ensures
            final(self).value == old(self).value,
            final(self).children@ == old(self).children@.push(child),
    {
        self.children.push(child);
    }

    /// The text of the node's token.
    pub fn value_as_string(&self) -> (r: String)
        ensures
            r@ == lit_text(self.value@),
    {
        self.value.text()
    }
}

/// The syntax trees of a reverse Polish sequence. Each operator or function
/// takes as many trees off the stack as it has operands (fewer where the
/// stack runs out); what is left on the stack is the result.
pub fn reverse_polish_string_to_tree(tokenized_string: &Vec<Token>) -> (r: Vec<SyntaxTreeNode>)
    ensures
        represents_all(r@, build_forest(models(tokenized_string@))),
{
    let ghost ts = models(tokenized_string@);
    let mut stack: Vec<SyntaxTreeNode> = Vec::new();
    let n = tokenized_string.len();
    let mut i: usize = 0;
    while i < n
        invariant
            n == tokenized_string@.len(),
            ts == models(tokenized_string@),
            i <= n,
            represents_all(stack@, forest_prefix(ts, i as int)),
        decreases n - i,
    {
        let element = &tokenized_string[i];
        let ghost spec_stack = forest_prefix(ts, i as int);
        assert(ts[i as int] == element@);
        let text = element.value_as_string();
        if element.token_type == TokenType::Operator || element.token_type == TokenType::Function {
            let num_par = element.num_params;
            let ghost len0 = stack@.len() as int;
            let ghost k: int = if num_par as int <= len0 {
                num_par as int
            } else {
                len0
            };
            let mut children: Vec<SyntaxTreeNode> = Vec::new();
            let mut j: usize = 0;
            while j < num_par && stack.len() > 0
                invariant
                    len0 == spec_stack.len(),
                    k == (if num_par as int <= len0 {
                        num_par as int
                    } else {
                        len0
                    }),
                    j <= num_par,
                    j <= len0,
                    stack@.len() == len0 - j,
                    represents_all(stack@, spec_stack.take(len0 - j)),
                    children@.len() == j,
                    forall|m: int|
                        0 <= m < j ==> represents(
                            #[trigger] children@[m],
                            spec_stack[len0 - 1 - m],
                        ),
                decreases num_par - j,
            {
                let c = stack.pop().unwrap();
                assert(represents(c, spec_stack[len0 - 1 - j]));
                children.push(c);
                j = j + 1;
            }
            assert(j == k);
            let node = SyntaxTreeNode { value: TokenUnion::StrOf(text), children };
            let ghost kids = Seq::new(k as nat, |m: int| spec_stack[len0 - 1 - m]);
            assert(represents(node, TreeModel::Node(lit_text(element@.lit), kids)));
            stack.push(node);
        } else {
            let node = SyntaxTreeNode { value: TokenUnion::StrOf(text), children: Vec::new() };
            assert(represents(node, TreeModel::Node(lit_text(element@.lit), Seq::empty())));
            stack.push(node);
        }
        i = i + 1;
    }
    stack
}

pub open spec fn is_op(t: TokenModel) -> bool {
    t.kind == TokenType::Operator || t.kind == TokenType::Function
}

/// The number of operators and functions in a sequence.
pub open spec fn count_ops(ts: Seq<TokenModel>) -> nat
    decreases ts.len(),
{
    if ts.len() == 0 {
        0
    } else {
        count_ops(ts.drop_last()) + if is_op(ts.last()) {
            1nat
        } else {
            0nat
        }
    }
}

/// The first index from `i` on that holds an operator or a function.
pub open spec fn first_op_from(ts: Seq<TokenModel>, i: int) -> Option<int>
    decreases ts.len() - i,
{
    if i < 0 || i >= ts.len() {
        None
    } else if is_op(ts[i]) {
        Some(i)
    } else {
        first_op_from(ts, i + 1)
    }
}

pub open spec fn txt(t: TokenModel) -> Seq<char> {
    lit_text(t.lit)
}

/// The texts of `ts[hi - 1]` down to `ts[lo]`, separated by `"; "`.
pub open spec fn args_text(ts: Seq<TokenModel>, hi: int, lo: int) -> Seq<char>
    decreases hi - lo,
{
    if hi <= lo {
        Seq::empty()
    } else if hi - 1 == lo {
        txt(ts[lo])
    } else {
        txt(ts[hi - 1]) + seq![';', ' '] + args_text(ts, hi - 1, lo)
    }
}

/// Where the operator or function at `idx` starts to take operands, and the
/// text that replaces it with them; none where the operands it reads are missing.
pub open spec fn rendering(ts: Seq<TokenModel>, idx: int) -> Option<(int, Seq<char>)> {
    let t = ts[idx];
    let n = t.arity as int;
    if t.kind == TokenType::Operator {
        if n == 2 {
            if idx >= 2 {
                Some(
                    (
                        idx - 2,
                        seq!['('] + txt(ts[idx - 2]) + seq![' '] + txt(t) + seq![' '] + txt(
                            ts[idx - 1],
                        ) + seq![')'],
                    ),
                )
            } else {
                None
            }
        } else if idx >= 1 && idx >= n {
            Some((idx - n, seq!['('] + txt(t) + seq![' '] + txt(ts[idx - 1]) + seq![')']))
        } else {
            None
        }
    } else if idx >= n {
        Some((idx - n, seq!['['] + txt(t) + seq![';', ' '] + args_text(ts, idx, idx - n) + seq![']']))
    } else {
        None
    }
}

pub open spec fn rendered_token(text: Seq<char>) -> TokenModel {
    TokenModel { lit: Lit::Text(text), kind: TokenType::Numeric, arity: 0 }
}

/// The sequence with its first operator or function and the operands it
/// takes replaced by their rendering.
pub open spec fn reduce_once(ts: Seq<TokenModel>) -> Option<Seq<TokenModel>> {
    match first_op_from(ts, 0) {
        None => None,
        Some(i) => match rendering(ts, i) {
            None => None,
            Some((st, text)) => Some(ts.take(st).push(rendered_token(text)) + ts.skip(i + 1)),
        },
    }
}

proof fn lemma_count_concat(a: Seq<TokenModel>, b: Seq<TokenModel>)
    ensures
        count_ops(a + b) == count_ops(a) + count_ops(b),
    decreases b.len(),
{
    if b.len() > 0 {
        assert((a + b).drop_last() =~= a + b.drop_last());
        lemma_count_concat(a, b.drop_last());
    } else {
        assert(a + b =~= a);
    }
}

proof fn lemma_count_none(a: Seq<TokenModel>)
    requires
        forall|j: int| 0 <= j < a.len() ==> !is_op(#[trigger] a[j]),
    ensures
        count_ops(a) == 0,
    decreases a.len(),
{
    if a.len() > 0 {
        lemma_count_none(a.drop_last());
    }
}

proof fn lemma_first_op(ts: Seq<TokenModel>, k: int)
    requires
        0 <= k,
    ensures
        match first_op_from(ts, k) {
            Some(i) => k <= i < ts.len() && is_op(ts[i]) && forall|j: int|
                k <= j < i ==> !is_op(#[trigger] ts[j]),
            None => forall|j: int| k <= j < ts.len() ==> !is_op(#[trigger] ts[j]),
        },
    decreases ts.len() - k,
{
    if k < ts.len() && !is_op(ts[k]) {
        lemma_first_op(ts, k + 1);
    }
}

proof fn lemma_reduce_decreases(ts: Seq<TokenModel>)
    ensures
        reduce_once(ts) matches Some(ts2) ==> count_ops(ts2) < count_ops(ts),
{
    lemma_first_op(ts, 0);
    if let Some(i) = first_op_from(ts, 0) {
        if let Some((st, text)) = rendering(ts, i) {
            let pre = ts.take(st);
            let mid = ts.subrange(st, i);
            let post = ts.skip(i + 1);
            assert(ts =~= pre + mid + seq![ts[i]] + post);
            lemma_count_concat(pre + mid + seq![ts[i]], post);
            lemma_count_concat(pre + mid, seq![ts[i]]);
            lemma_count_concat(pre, mid);
            lemma_count_none(mid);
            lemma_count_concat(pre.push(rendered_token(text)), post);
            assert(pre.push(rendered_token(text)).drop_last() =~= pre);
            assert(seq![ts[i]].drop_last() =~= Seq::<TokenModel>::empty());
        }
    }
}

/// The repeated reduction, until no operator or function is left or one
/// lacks its operands.
pub open spec fn detokenized(ts: Seq<TokenModel>) -> Seq<TokenModel>
    decreases count_ops(ts),
    via lemma_detokenized_decreases
{
    match reduce_once(ts) {
        None => ts,
        Some(ts2) => detokenized(ts2),
    }
}

#[via_fn]
proof fn lemma_detokenized_decreases(ts: Seq<TokenModel>) {
    lemma_reduce_decreases(ts);
}

fn append_text(s: &mut String, t: &Token)
    ensures
        final(s)@ == old(s)@ + txt(t@),
{
    let piece = t.value_as_string();
    s.append(piece.as_str());
}

fn render_exec(ts: &Vec<Token>, idx: usize) -> (r: Option<(usize, String)>)
    requires
        idx < ts@.len(),
    ensures
        match (r, rendering(models(ts@), idx as int)) {
            (Some((st, text)), Some((st2, text2))) => st == st2 && text@ == text2,
            (None, None) => true,
            _ => false,
        },
{
    let ghost ms = models(ts@);
    let t = &ts[idx];
    let n = t.num_params;
    proof {
        reveal_strlit("(");
        reveal_strlit(")");
        reveal_strlit(" ");
        reveal_strlit("[");
        reveal_strlit("]");
        reveal_strlit("; ");
    }
    if t.token_type == TokenType::Operator {
        if n == 2 {
            if idx >= 2 {
                let mut s = String::new();
                s.append("(");
                append_text(&mut s, &ts[idx - 2]);
                s.append(" ");
                append_text(&mut s, t);
                s.append(" ");
                append_text(&mut s, &ts[idx - 1]);
                s.append(")");
                assert(s@ =~= rendering(ms, idx as int).unwrap().1);
                Some((idx - 2, s))
            } else {
                None
            }
        } else if idx >= 1 && idx >= n {
            let mut s = String::new();
            s.append("(");
            append_text(&mut s, t);
            s.append(" ");
            append_text(&mut s, &ts[idx - 1]);
            s.append(")");
            assert(s@ =~= rendering(ms, idx as int).unwrap().1);
            Some((idx - n, s))
        } else {
            None
        }
    } else if idx >= n {
        let mut s = String::new();
        s.append("[");
        append_text(&mut s, t);
        s.append("; ");
        let ghost head = s@;
        let mut index_copy = idx;
        while index_copy != idx - n
            invariant
                idx < ts@.len(),
                ms == models(ts@),
                n <= idx,
                idx - n <= index_copy <= idx,
                s@ == head + args_text(ms, idx as int, index_copy as int) + (if index_copy
                    == idx || index_copy == idx - n {
                    Seq::<char>::empty()
                } else {
                    seq![';', ' ']
                }),
            decreases index_copy,
        {
            let ghost s0 = s@;
            index_copy = index_copy - 1;
            proof {
                lemma_args_extend(ms, idx as int, index_copy as int);
                assert(ms[index_copy as int] == ts@[index_copy as int]@);
            }
            append_text(&mut s, &ts[index_copy]);
            proof {
                let ic = index_copy as int;
                let hi = idx as int;
                if ic + 1 == hi {
                    assert(s0 =~= head);
                } else {
                    assert(s0 =~= head + args_text(ms, hi, ic + 1) + seq![';', ' ']);
                }
                assert(s@ =~= head + args_text(ms, hi, ic));
            }
            let ghost s1 = s@;
            proof {
                reveal_strlit("; ");
            }
            if index_copy != idx - n {
                s.append("; ");
            }
            proof {
                if index_copy != idx - n {
                    assert(s@ =~= s1 + seq![';', ' ']);
                } else {
                    assert(s@ =~= s1 + Seq::<char>::empty());
                }
            }
        }
        s.append("]");
        assert(s@ =~= rendering(ms, idx as int).unwrap().1);
        Some((idx - n, s))
    } else {
        None
    }
}

proof fn lemma_args_extend(ts: Seq<TokenModel>, hi: int, lo: int)
    requires
        lo < hi,
    ensures
        args_text(ts, hi, lo) == (if lo + 1 == hi {
            txt(ts[lo])
        } else {
            args_text(ts, hi, lo + 1) + seq![';', ' '] + txt(ts[lo])
        }),
    decreases hi - lo,
{
    if lo + 1 < hi {
        lemma_args_extend(ts, hi - 1, lo);
        if lo + 1 == hi - 1 {
            assert(args_text(ts, hi, lo + 1) == txt(ts[hi - 1]));
        }
        assert(args_text(ts, hi, lo) =~= args_text(ts, hi, lo + 1) + seq![';', ' '] + txt(ts[lo]));
    }
}

fn first_op_exec(ts: &Vec<Token>) -> (r: Option<usize>)
    ensures
        match (r, first_op_from(models(ts@), 0)) {
            (Some(i), Some(j)) => i == j,
            (None, None) => true,
            _ => false,
        },
{
    let mut i: usize = 0;
    while i < ts.len()
        invariant
            i <= ts@.len(),
            first_op_from(models(ts@), i as int) == first_op_from(models(ts@), 0),
        decreases ts@.len() - i,
    {
        let t = &ts[i];
        if t.token_type == TokenType::Operator || t.token_type == TokenType::Function {
            assert(models(ts@)[i as int] == t@);
            return Some(i);
        }
        assert(models(ts@)[i as int] == t@);
        i = i + 1;
    }
    None
}

/// The parenthesized infix rendering of a reverse Polish sequence: each
/// operator, leftmost first, is replaced with its operands by one numeric
/// token, `(a op b)` for two operands, `(op a)` otherwise, `[f; a; b]` for
/// a function. A well-formed sequence ends as a single token; where an
/// operator lacks the operands it reads, the rendering stops there.
pub fn polish_notation_to_normal(tokenized_string: &Vec<Token>) -> (r: Vec<Token>)
    ensures
        models(r@) == detokenized(models(tokenized_string@)),
{
    let mut work: Vec<Token> = Vec::new();
    let mut k: usize = 0;
    while k < tokenized_string.len()
        invariant
            k <= tokenized_string@.len(),
            models(work@) == models(tokenized_string@).take(k as int),
        decreases tokenized_string@.len() - k,
    {
        let x = tokenized_string[k].copied();
        proof {
            lemma_models_push(work@, x);
        }
        work.push(x);
        proof {
            assert(models(work@) =~= models(tokenized_string@).take(k + 1));
        }
        k = k + 1;
    }
    assert(models(tokenized_string@).take(tokenized_string@.len() as int) =~= models(
        tokenized_string@,
    ));
    detokenize_tokens(work)
}

/// The reduction behind `polish_notation_to_normal`, on a sequence it owns.
fn detokenize_tokens(tokenized_string: Vec<Token>) -> (r: Vec<Token>)
    ensures
        models(r@) == detokenized(models(tokenized_string@)),
{
    let mut work = tokenized_string;
    let ghost target = detokenized(models(work@));
    loop
        invariant
            detokenized(models(work@)) == target,
        ensures
            models(work@) == target,
        decreases count_ops(models(work@)),
    {
        let ghost ms = models(work@);
        proof {
            lemma_reduce_decreases(ms);
        }
        let index = match first_op_exec(&work) {
            Some(i) => i,
            None => {
                break;
            },
        };
        proof {
            lemma_first_op(ms, 0);
        }
        let len = work.len();
        assert(index < len);
        let (start, text) = match render_exec(&work, index) {
            Some(p) => p,
            None => {
                break;
            },
        };
        let mut next: Vec<Token> = Vec::new();
        let mut j: usize = 0;
        while j < start
            invariant
                start <= index < work@.len(),
                ms == models(work@),
                j <= start,
                models(next@) == ms.take(j as int),
            decreases start - j,
        {
            let x = work[j].copied();
            proof {
                lemma_models_push(next@, x);
            }
            next.push(x);
            proof {
                assert(models(next@) =~= ms.take(j + 1));
            }
            j = j + 1;
        }
        let ghost rt = rendered_token(text@);
        let x = Token { value: TokenUnion::StrOf(text), token_type: TokenType::Numeric, num_params: 0 };
        proof {
            lemma_models_push(next@, x);
        }
        next.push(x);
        proof {
            assert(models(next@) =~= ms.take(start as int).push(rt));
        }
        let mut m: usize = index + 1;
        while m < work.len()
            invariant
                index < m <= work@.len(),
                ms == models(work@),
                models(next@) == ms.take(start as int).push(rt) + ms.subrange(index + 1, m as int),
            decreases work@.len() - m,
        {
            let x = work[m].copied();
            proof {
                lemma_models_push(next@, x);
            }
            next.push(x);
            proof {
                assert(models(next@) =~= ms.take(start as int).push(rt) + ms.subrange(
                    index + 1,
                    m + 1,
                ));
            }
            m = m + 1;
        }
        proof {
            assert(ms.subrange(index + 1, ms.len() as int) =~= ms.skip(index + 1));
            assert(reduce_once(ms) == Some(models(next@)));
        }
        work = next;
    }
    work
}

pub open spec fn name_prefix() -> Seq<char> {
    seq!['-', ' ', 'N', 'a', 'm', 'e', ':', ' ']
}

/// The printed lines of a tree, depth first: each node as `- Name: <text>`
/// after `indent`, its children one tab further in.
pub open spec fn node_lines(n: SyntaxTreeNode, indent: Seq<char>) -> Seq<Seq<char>>
    decreases n, n.children@.len() + 1,
{
    seq![indent + name_prefix() + lit_text(n.value@)] + children_lines(
        n,
        indent + seq!['\t'],
        n.children@.len() as int,
    )
}

/// The printed lines of the first `k` children of `n`.
pub open spec fn children_lines(n: SyntaxTreeNode, indent: Seq<char>, k: int) -> Seq<Seq<char>>
    decreases n, k,
{
    if k <= 0 || k > n.children@.len() {
        Seq::empty()
    } else {
        children_lines(n, indent, k - 1) + node_lines(n.children@[k - 1], indent)
    }
}

pub open spec fn string_views(v: Seq<String>) -> Seq<Seq<char>> {
    v.map_values(|s: String| s@)
}

impl SyntaxTreeNode {
    /// Appends the printed lines of the tree, after `indent`, to `lines`.
    fn pretty_print(&self, indent: &String, lines: &mut Vec<String>)
        ensures
            string_views(final(lines)@) == string_views(old(lines)@) + node_lines(*self, indent@),
        decreases self, self.children@.len() + 1,
    {
        proof {
            reveal_strlit("- Name: ");
            reveal_strlit("\t");
        }
        let mut line = indent.clone();
        line.append("- Name: ");
        let text = self.value_as_string();
        line.append(text.as_str());
        let ghost start = string_views(lines@);
        assert(line@ =~= indent@ + name_prefix() + lit_text(self.value@));
        lines.push(line);
        let mut inner = indent.clone();
        inner.append("\t");
        let ghost first = seq![indent@ + name_prefix() + lit_text(self.value@)];
        proof {
            assert(lines@.last()@ =~= indent@ + name_prefix() + lit_text(self.value@));
            assert(string_views(lines@) =~= start + first);
            assert(string_views(lines@) =~= start + first + children_lines(*self, inner@, 0));
        }
        let mut i: usize = 0;
        while i < self.children.len()
            invariant
                i <= self.children@.len(),
                inner@ == indent@ + seq!['\t'],
                string_views(lines@) == start + first + children_lines(*self, inner@, i as int),
            decreases self.children@.len() - i,
        {
            self.children[i].pretty_print(&inner, lines);
            proof {
                assert(string_views(lines@) =~= start + first + children_lines(
                    *self,
                    inner@,
                    i + 1,
                ));
            }
            i = i + 1;
        }
        proof {
            assert(string_views(lines@) =~= string_views(old(lines)@) + node_lines(*self, indent@));
        }
    }

    /// The printed lines of the tree, depth first: each node as
    /// `- Name: <text>`, indented by one tab per level.
    pub fn print_lines(&self) -> (r: Vec<String>)
        ensures
            string_views(r@) == node_lines(*self, Seq::empty()),
    {
        let mut lines: Vec<String> = Vec::new();
        let indent = String::new();
        self.pretty_print(&indent, &mut lines);
        assert(string_views(lines@) =~= Seq::empty() + node_lines(*self, Seq::empty()));
        lines
    }
}

} // verus!
