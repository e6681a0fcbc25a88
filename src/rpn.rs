//! Conversion from infix token order to reverse Polish notation, by the
//! shunting-yard algorithm.
use vstd::prelude::*;
use crate::tokens::{
    lemma_models_pop, lemma_models_push, models, token_associativity, token_precedence, Associativity, ParseError, Token, TokenModel,
    TokenType,
};

verus! {

/// Moves tokens from the top of the stack to the output until the top is an
/// opening parenthesis or the stack is empty.
pub open spec fn pop_to_open(out: Seq<TokenModel>, stack: Seq<TokenModel>) -> (
    Seq<TokenModel>,
    Seq<TokenModel>,
)
    decreases stack.len(),
{
    if stack.len() > 0 && stack.last().kind != TokenType::OpenPar {
        pop_to_open(out.push(stack.last()), stack.drop_last())
    } else {
        (out, stack)
    }
}

/// Whether the operator `top` on the stack leaves for the output before `t`
/// is pushed.
pub open spec fn yields_to(top: TokenModel, t: TokenModel) -> bool {
    &&& (top.kind == TokenType::Operator || top.kind == TokenType::ClosedPar)
    &&& (token_precedence(top) > token_precedence(t) || (token_precedence(top) == token_precedence(
        t,
    ) && token_associativity(t) == Associativity::Left))
}

/// Moves the operators that yield to `t` from the stack to the output.
pub open spec fn pop_before(out: Seq<TokenModel>, stack: Seq<TokenModel>, t: TokenModel) -> (
    Seq<TokenModel>,
    Seq<TokenModel>,
)
    decreases stack.len(),
{
    if stack.len() > 0 && yields_to(stack.last(), t) {
        pop_before(out.push(stack.last()), stack.drop_last(), t)
    } else {
        (out, stack)
    }
}

/// The output and the operator stack after one more input token.
pub open spec fn conv_step(out: Seq<TokenModel>, stack: Seq<TokenModel>, t: TokenModel) -> Result<
    (Seq<TokenModel>, Seq<TokenModel>),
    ParseError,
> {
    match t.kind {
        TokenType::Numeric | TokenType::VariableName | TokenType::ParamName => Ok(
            (out.push(t), stack),
        ),
        TokenType::Function | TokenType::OpenPar => Ok((out, stack.push(t))),
        TokenType::Comma => Ok(pop_to_open(out, stack)),
        TokenType::Operator => {
            let (o, s) = pop_before(out, stack, t);
            Ok((o, s.push(t)))
        },
        TokenType::ClosedPar => {
            if stack.len() == 0 {
                Err(ParseError::UnbalancedParens)
            } else {
                let (o, s) = pop_to_open(out, stack);
                if s.len() > 0 && s.last().kind == TokenType::OpenPar {
                    let s2 = s.drop_last();
                    if s2.len() > 0 && s2.last().kind == TokenType::Function {
                        Ok((o.push(s2.last()), s2.drop_last()))
                    } else {
                        Ok((o, s2))
                    }
                } else {
                    Err(ParseError::UnbalancedParens)
                }
            }
        },
        _ => Ok((out, stack)),
    }
}

/// The output and the operator stack after the first `n` input tokens.
pub open spec fn conv_prefix(ts: Seq<TokenModel>, n: int) -> Result<
    (Seq<TokenModel>, Seq<TokenModel>),
    ParseError,
>
    decreases n,
{
    if n <= 0 {
        Ok((Seq::empty(), Seq::empty()))
    } else {
        match conv_prefix(ts, n - 1) {
            Ok((o, s)) => conv_step(o, s, ts[n - 1]),
            Err(e) => Err(e),
        }
    }
}

/// The output followed by the stack, top first; an opening parenthesis
/// left on the stack has no closing one and fails the conversion.
pub open spec fn drained(out: Seq<TokenModel>, stack: Seq<TokenModel>) -> Result<
    Seq<TokenModel>,
    ParseError,
>
    decreases stack.len(),
{
    if stack.len() == 0 {
        Ok(out)
    } else if stack.last().kind == TokenType::OpenPar {
        Err(ParseError::UnbalancedParens)
    } else {
        drained(out.push(stack.last()), stack.drop_last())
    }
}

/// The reverse Polish order of a token sequence, or the error that stops it.
pub open spec fn rpn_spec(ts: Seq<TokenModel>) -> Result<Seq<TokenModel>, ParseError> {
    match conv_prefix(ts, ts.len() as int) {
        Ok((o, s)) => drained(o, s),
        Err(e) => Err(e),
    }
}

/// Moves one token from the top of `stack` to the end of `out`.
fn move_top(out: &mut Vec<Token>, stack: &mut Vec<Token>)
    requires
        old(stack)@.len() > 0,
    ensures
        models(final(out)@) == models(old(out)@).push(models(old(stack)@).last()),
        models(final(stack)@) == models(old(stack)@).drop_last(),
        final(stack)@.len() == old(stack)@.len() - 1,
{
    proof {
        lemma_models_pop(stack@);
    }
    let t = stack.pop().unwrap();
    proof {
        lemma_models_push(out@, t);
    }
    out.push(t);
}

fn pop_to_open_exec(out: &mut Vec<Token>, stack: &mut Vec<Token>)
    ensures
        (models(final(out)@), models(final(stack)@)) == pop_to_open(
            models(old(out)@),
            models(old(stack)@),
        ),
{
    let ghost target = pop_to_open(models(out@), models(stack@));
    while stack.len() > 0 && stack[stack.len() - 1].token_type != TokenType::OpenPar
        invariant
            pop_to_open(models(out@), models(stack@)) == target,
        decreases stack@.len(),
    {
        move_top(out, stack);
    }
}

impl Token {
    /// The tokens in reverse Polish order; fails on a closing parenthesis that
    /// finds no opening one, and on an opening one that is never closed.
    pub fn reverse_polish_notation(tokenized_string: Vec<Token>) -> (r: Result<
        Vec<Token>,
        ParseError,
    >)
        ensures
            match (r, rpn_spec(models(tokenized_string@))) {
                (Ok(v), Ok(ms)) => models(v@) == ms,
                (Err(e), Err(f)) => e == f,
                _ => false,
            },
    {
        let ghost ts = models(tokenized_string@);
        let mut output_queue: Vec<Token> = Vec::new();
        let mut operator_stack: Vec<Token> = Vec::new();
        let n = tokenized_string.len();
        let mut i: usize = 0;
        proof {
            assert(models(output_queue@) =~= Seq::empty());
            assert(models(operator_stack@) =~= Seq::empty());
        }
        while i < n
            invariant
                n == tokenized_string@.len(),
                ts == models(tokenized_string@),
                i <= n,
                conv_prefix(ts, i as int) == Ok::<_, ParseError>(
                    (models(output_queue@), models(operator_stack@)),
                ),
            decreases n - i,
        {
            let token = tokenized_string[i].copied();
            assert(ts[i as int] == token@);
            match token.token_type {
                TokenType::Numeric | TokenType::VariableName | TokenType::ParamName => {
                    proof {
                        lemma_models_push(output_queue@, token);
                    }
                    output_queue.push(token);
                },
                TokenType::Function | TokenType::OpenPar => {
                    proof {
                        lemma_models_push(operator_stack@, token);
                    }
                    operator_stack.push(token);
                },
                TokenType::Comma => {
                    pop_to_open_exec(&mut output_queue, &mut operator_stack);
                },
                TokenType::Operator => {
                    let ghost target = pop_before(
                        models(output_queue@),
                        models(operator_stack@),
                        token@,
                    );
                    let precedence_o1 = Token::get_precedence_group_t(&token);
                    let assoc_o1 = Token::get_associativity_t(&token);
                    loop
                        invariant
                            pop_before(models(output_queue@), models(operator_stack@), token@)
                                == target,
                            precedence_o1 == token_precedence(token@),
                            assoc_o1 == token_associativity(token@),
                        ensures
                            target == (models(output_queue@), models(operator_stack@)),
                        decreases operator_stack@.len(),
                    {
                        if operator_stack.len() == 0 {
                            break;
                        }
                        let top = &operator_stack[operator_stack.len() - 1];
                        proof {
                            lemma_models_pop(operator_stack@);
                        }
                        if !(top.token_type == TokenType::Operator || top.token_type
                            == TokenType::ClosedPar) {
                            break;
                        }
                        let precedence_o2 = Token::get_precedence_group_t(top);
                        if precedence_o2 > precedence_o1 || (precedence_o2 == precedence_o1
                            && assoc_o1 == Associativity::Left) {
                            move_top(&mut output_queue, &mut operator_stack);
                        } else {
                            break;
                        }
                    }
                    proof {
                        lemma_models_push(operator_stack@, token);
                    }
                    operator_stack.push(token);
                },
                TokenType::ClosedPar => {
                    if operator_stack.len() == 0 {
                        proof {
                            lemma_conv_err_stays(ts, i as int + 1, n as int);
                        }
                        return Err(ParseError::UnbalancedParens);
                    }
                    pop_to_open_exec(&mut output_queue, &mut operator_stack);
                    if operator_stack.len() > 0 && operator_stack[operator_stack.len() - 1].token_type
                        == TokenType::OpenPar {
                        proof {
                            lemma_models_pop(operator_stack@);
                        }
                        operator_stack.pop();
                        if operator_stack.len() > 0 && operator_stack[operator_stack.len()
                            - 1].token_type == TokenType::Function {
                            proof {
                                lemma_models_pop(operator_stack@);
                            }
                            move_top(&mut output_queue, &mut operator_stack);
                        }
                    } else {
                        proof {
                            if operator_stack@.len() > 0 {
                                lemma_models_pop(operator_stack@);
                            }
                            lemma_conv_err_stays(ts, i as int + 1, n as int);
                        }
                        return Err(ParseError::UnbalancedParens);
                    }
                },
                _ => {},
            }
            i = i + 1;
        }
        let ghost target = drained(models(output_queue@), models(operator_stack@));
        assert(rpn_spec(ts) == target);
        while operator_stack.len() > 0
            invariant
                drained(models(output_queue@), models(operator_stack@)) == target,
                rpn_spec(models(tokenized_string@)) == target,
            decreases operator_stack@.len(),
        {
            proof {
                lemma_models_pop(operator_stack@);
            }
            if operator_stack[operator_stack.len() - 1].token_type == TokenType::OpenPar {
                assert(models(operator_stack@).last().kind == TokenType::OpenPar);
                assert(target == Err::<Seq<TokenModel>, ParseError>(ParseError::UnbalancedParens));
                return Err(ParseError::UnbalancedParens);
            }
            move_top(&mut output_queue, &mut operator_stack);
        }
        Ok(output_queue)
    }
}

/// Once the conversion has failed, it stays failed.
pub proof fn lemma_conv_err_stays(ts: Seq<TokenModel>, n: int, m: int)
    requires
        0 <= n <= m,
        conv_prefix(ts, n) is Err,
    ensures
        conv_prefix(ts, m) == conv_prefix(ts, n),
    decreases m - n,
{
    if m > n {
        lemma_conv_err_stays(ts, n, m - 1);
    }
}

/// How many tokens of kind `k` a sequence holds.
pub open spec fn count_kind(s: Seq<TokenModel>, k: TokenType) -> nat
    decreases s.len(),
{
    if s.len() == 0 {
        0
    } else {
        count_kind(s.drop_last(), k) + if s.last().kind == k {
            1nat
        } else {
            0nat
        }
    }
}

proof fn lemma_count_push(s: Seq<TokenModel>, t: TokenModel, k: TokenType)
    ensures
        count_kind(s.push(t), k) == count_kind(s, k) + if t.kind == k {
            1nat
        } else {
            0nat
        },
{
    assert(s.push(t).drop_last() =~= s);
}

proof fn lemma_pop_to_open_count(out: Seq<TokenModel>, stack: Seq<TokenModel>)
    ensures
        count_kind(pop_to_open(out, stack).1, TokenType::OpenPar) == count_kind(
            stack,
            TokenType::OpenPar,
        ),
        pop_to_open(out, stack).1.len() == 0 || pop_to_open(out, stack).1.last().kind
            == TokenType::OpenPar,
    decreases stack.len(),
{
    if stack.len() > 0 && stack.last().kind != TokenType::OpenPar {
        lemma_pop_to_open_count(out.push(stack.last()), stack.drop_last());
    }
}

proof fn lemma_pop_before_count(out: Seq<TokenModel>, stack: Seq<TokenModel>, t: TokenModel)
    ensures
        count_kind(pop_before(out, stack, t).1, TokenType::OpenPar) == count_kind(
            stack,
            TokenType::OpenPar,
        ),
    decreases stack.len(),
{
    if stack.len() > 0 && yields_to(stack.last(), t) {
        lemma_pop_before_count(out.push(stack.last()), stack.drop_last(), t);
    }
}

proof fn lemma_count_take(ts: Seq<TokenModel>, n: int, k: TokenType)
    requires
        0 < n <= ts.len(),
    ensures
        count_kind(ts.take(n), k) == count_kind(ts.take(n - 1), k) + if ts[n - 1].kind == k {
            1nat
        } else {
            0nat
        },
{
    assert(ts.take(n).drop_last() =~= ts.take(n - 1));
}

/// While the conversion goes on, the operator stack holds one opening
/// parenthesis for each `(` read so far that no `)` has closed.
proof fn lemma_conv_balance(ts: Seq<TokenModel>, n: int)
    requires
        0 <= n <= ts.len(),
    ensures
        conv_prefix(ts, n) matches Ok((o, s)) ==> count_kind(s, TokenType::OpenPar) + count_kind(
            ts.take(n),
            TokenType::ClosedPar,
        ) == count_kind(ts.take(n), TokenType::OpenPar),
    decreases n,
{
    if n == 0 {
        assert(ts.take(0) =~= Seq::<TokenModel>::empty());
    } else {
        lemma_conv_balance(ts, n - 1);
        lemma_count_take(ts, n, TokenType::OpenPar);
        lemma_count_take(ts, n, TokenType::ClosedPar);
        if let Ok((o, s)) = conv_prefix(ts, n - 1) {
            let t = ts[n - 1];
            lemma_pop_to_open_count(o, s);
            lemma_pop_before_count(o, s, t);
            lemma_count_push(s, t, TokenType::OpenPar);
            lemma_count_push(pop_before(o, s, t).1, t, TokenType::OpenPar);
            let s1 = pop_to_open(o, s).1;
            if s1.len() > 0 {
                lemma_count_push(s1.drop_last(), s1.last(), TokenType::OpenPar);
                assert(s1.drop_last().push(s1.last()) =~= s1);
                let s2 = s1.drop_last();
                if s2.len() > 0 {
                    lemma_count_push(s2.drop_last(), s2.last(), TokenType::OpenPar);
                    assert(s2.drop_last().push(s2.last()) =~= s2);
                }
            }
        }
    }
}

/// The only error of the conversion is an unbalanced parenthesis.
proof fn lemma_conv_err_is_unbalanced(ts: Seq<TokenModel>, n: int)
    ensures
        conv_prefix(ts, n) is Err ==> conv_prefix(ts, n) == Err::<
            (Seq<TokenModel>, Seq<TokenModel>),
            ParseError,
        >(ParseError::UnbalancedParens),
    decreases n,
{
    if n > 0 {
        lemma_conv_err_is_unbalanced(ts, n - 1);
    }
}

/// A closing parenthesis that finds no pending opening one (more `)` than
/// `(` read up to and including it) makes the whole conversion fail with
/// `UnbalancedParens`, whatever follows it.
pub proof fn lemma_unmatched_close_fails(ts: Seq<TokenModel>, k: int)
    requires
        0 <= k < ts.len(),
        ts[k].kind == TokenType::ClosedPar,
        count_kind(ts.take(k + 1), TokenType::ClosedPar) > count_kind(
            ts.take(k),
            TokenType::OpenPar,
        ),
    ensures
        rpn_spec(ts) == Err::<Seq<TokenModel>, ParseError>(ParseError::UnbalancedParens),
{
    lemma_count_take(ts, k + 1, TokenType::ClosedPar);
    lemma_conv_balance(ts, k);
    if let Ok((o, s)) = conv_prefix(ts, k) {
        lemma_pop_to_open_count(o, s);
        let s1 = pop_to_open(o, s).1;
        if s1.len() > 0 {
            lemma_count_push(s1.drop_last(), s1.last(), TokenType::OpenPar);
            assert(s1.drop_last().push(s1.last()) =~= s1);
        }
        assert(conv_prefix(ts, k + 1) == Err::<(Seq<TokenModel>, Seq<TokenModel>), ParseError>(
            ParseError::UnbalancedParens,
        ));
        lemma_conv_err_stays(ts, k + 1, ts.len() as int);
    } else {
        lemma_conv_err_stays(ts, k, ts.len() as int);
        lemma_conv_err_is_unbalanced(ts, k);
        assert(conv_prefix(ts, k) == Err::<(Seq<TokenModel>, Seq<TokenModel>), ParseError>(
            ParseError::UnbalancedParens,
        ));
    }
}

/// The reverse Polish notation of a text: its tokens, converted; fails
/// with the first error of either step.
pub fn string_to_rpn(string: &str) -> (r: Result<Vec<Token>, ParseError>)
    ensures
        match (r, crate::scan::tokenize_spec(string@)) {
            (Ok(v), Ok(ts)) => rpn_spec(ts) == Ok::<_, ParseError>(models(v@)),
            (Err(e), Ok(ts)) => rpn_spec(ts) == Err::<Seq<TokenModel>, _>(e),
            (Err(e), Err(f)) => e == f,
            (Ok(_), Err(_)) => false,
        },
{
    let tokens = Token::tokenize_string(string)?;
    Token::reverse_polish_notation(tokens)
}

} // verus!
