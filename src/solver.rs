//! Evaluation of reverse Polish notation as a stack machine that decides
//! what each operator does and hands the arithmetic on doubles to its caller.
use vstd::prelude::*;
use crate::operators::negate_word;
use crate::text::{chars_of, declare_word, same_chars};
use crate::tokens::{models, Lit, Token, TokenModel, TokenType, TokenUnion};

verus! {

/// An operation on doubles. With `a` the first parameter (the right operand)
/// and `b` the second (the left operand): `Add` is a + b, `Sub` is b - a, `Mul`
/// is a * b, `Div` is b / a, `Pow` is b raised to a, and `Neg` is -a.
#[derive(Debug, PartialEq, Eq, Structural, Clone, Copy)]
pub enum FloatOp {
    Add,
    Sub,
    Mul,
    Div,
    Pow,
    Neg,
}

/// An operation to carry out on two numbers given as decimal text; `b` is
/// empty for `Neg`.
pub struct FloatTask {
    pub op: FloatOp,
    pub a: String,
    pub b: String,
}

pub struct TaskModel {
    pub op: FloatOp,
    pub a: Seq<char>,
    pub b: Seq<char>,
}

impl View for FloatTask {
    type V = TaskModel;

    open spec fn view(&self) -> TaskModel {
        TaskModel { op: self.op, a: self.a@, b: self.b@ }
    }
}

/// What applying an operator gives: a result at once (or none), or an
/// operation on doubles whose outcome is the result.
pub enum Application {
    Ready(Option<Token>),
    Compute(FloatTask),
}

pub enum ApplicationModel {
    Ready(Option<TokenModel>),
    Compute(TaskModel),
}

pub open spec fn opt_model(t: Option<Token>) -> Option<TokenModel> {
    match t {
        Some(x) => Some(x@),
        None => None,
    }
}

impl View for Application {
    type V = ApplicationModel;

    open spec fn view(&self) -> ApplicationModel {
        match self {
            Application::Ready(t) => ApplicationModel::Ready(opt_model(*t)),
            Application::Compute(task) => ApplicationModel::Compute(task@),
        }
    }
}

/// The number an operand stands for: its decimal text, or zero for a text.
pub open spec fn float_text(t: TokenModel) -> Seq<char> {
    match t.lit {
        Lit::Num(s) => s,
        Lit::Text(_) => seq!['0'],
    }
}

/// The name an operand stands for: its text, or nothing for a number.
pub open spec fn literal_text(t: TokenModel) -> Seq<char> {
    match t.lit {
        Lit::Text(s) => s,
        Lit::Num(_) => Seq::empty(),
    }
}

pub open spec fn binary_op(op: Seq<char>) -> Option<FloatOp> {
    if op =~= seq!['+'] {
        Some(FloatOp::Add)
    } else if op =~= seq!['-'] {
        Some(FloatOp::Sub)
    } else if op =~= seq!['*'] {
        Some(FloatOp::Mul)
    } else if op =~= seq!['/'] {
        Some(FloatOp::Div)
    } else if op =~= seq!['^', '^'] {
        Some(FloatOp::Pow)
    } else {
        None
    }
}

/// What applying the operator `o` to the parameters `ps` gives; `ps[0]` is
/// the operand pushed last.
pub open spec fn apply_spec(o: TokenModel, ps: Seq<TokenModel>) -> ApplicationModel {
    if o.kind != TokenType::Operator {
        ApplicationModel::Ready(None)
    } else {
        match o.lit {
            Lit::Num(_) => ApplicationModel::Ready(None),
            Lit::Text(op) => if ps.len() == 2 {
                match binary_op(op) {
                    Some(f) => ApplicationModel::Compute(
                        TaskModel { op: f, a: float_text(ps[0]), b: float_text(ps[1]) },
                    ),
                    None => if op =~= seq!['='] {
                        ApplicationModel::Ready(
                            Some(
                                TokenModel {
                                    lit: Lit::Text(Seq::empty()),
                                    kind: TokenType::VariableName,
                                    arity: 0,
                                },
                            ),
                        )
                    } else {
                        ApplicationModel::Ready(None)
                    },
                }
            } else if ps.len() == 1 {
                if op =~= negate_word() {
                    ApplicationModel::Compute(
                        TaskModel { op: FloatOp::Neg, a: float_text(ps[0]), b: Seq::empty() },
                    )
                } else if op =~= declare_word() {
                    ApplicationModel::Ready(
                        Some(
                            TokenModel {
                                lit: Lit::Text(literal_text(ps[0])),
                                kind: TokenType::VariableName,
                                arity: 0,
                            },
                        ),
                    )
                } else {
                    ApplicationModel::Ready(None)
                }
            } else {
                ApplicationModel::Ready(None)
            },
        }
    }
}

/// How many operands an operator of `arity` takes from a stack of `len`:
/// at least one while any is there, at most `arity`, at most `len`.
pub open spec fn taken(arity: usize, len: int) -> int {
    let want: int = if arity == 0 {
        1
    } else {
        arity as int
    };
    if len < want {
        len
    } else {
        want
    }
}

/// The top `k` entries of a stack, the top first.
pub open spec fn top_first(stack: Seq<TokenModel>, k: int) -> Seq<TokenModel> {
    Seq::new(k as nat, |j: int| stack[stack.len() - 1 - j])
}

/// The stack after one token, and the operation on doubles it asks for.
pub open spec fn feed_spec(stack: Seq<TokenModel>, t: TokenModel) -> (
    Seq<TokenModel>,
    Option<TaskModel>,
) {
    if t.kind != TokenType::Operator {
        (stack.push(t), None)
    } else {
        let k = taken(t.arity, stack.len() as int);
        let rest = stack.take(stack.len() - k);
        match apply_spec(t, top_first(stack, k)) {
            ApplicationModel::Ready(Some(x)) => (rest.push(x), None),
            ApplicationModel::Ready(None) => (rest, None),
            ApplicationModel::Compute(task) => (rest, Some(task)),
        }
    }
}

pub open spec fn number_token(s: Seq<char>) -> TokenModel {
    TokenModel { lit: Lit::Num(s), kind: TokenType::Numeric, arity: 0 }
}

/// The decimal text of an operand's number; a text reads as zero.
pub fn get_unsafe_float_value(float_tok: &Token) -> (r: String)
    ensures
        r@ == float_text(float_tok@),
{
    match &float_tok.value {
        TokenUnion::FloatOf(f) => f.clone(),
        TokenUnion::StrOf(_) => {
            let zero = String::from_str("0");
            proof {
                reveal_strlit("0");
            }
            zero
        },
    }
}

/// The text of an operand; a number reads as the empty text.
pub fn get_unsafe_literal_value(float_tok: &Token) -> (r: String)
    ensures
        r@ == literal_text(float_tok@),
{
    match &float_tok.value {
        TokenUnion::StrOf(s) => s.clone(),
        TokenUnion::FloatOf(_) => String::new(),
    }
}

fn binary_op_of(cs: &Vec<char>) -> (r: Option<FloatOp>)
    ensures
        r == binary_op(cs@),
{
    if same_chars(cs, &vec!['+']) {
        Some(FloatOp::Add)
    } else if same_chars(cs, &vec!['-']) {
        Some(FloatOp::Sub)
    } else if same_chars(cs, &vec!['*']) {
        Some(FloatOp::Mul)
    } else if same_chars(cs, &vec!['/']) {
        Some(FloatOp::Div)
    } else if same_chars(cs, &vec!['^', '^']) {
        Some(FloatOp::Pow)
    } else {
        None
    }
}

/// What applying the operator `o` to `parameters` gives; `parameters[0]` is
/// the operand pushed last.
pub fn new_token_from_applying(o: &Token, parameters: Vec<Token>) -> (r: Application)
    ensures
        r@ == apply_spec(o@, models(parameters@)),
{
    if o.token_type != TokenType::Operator {
        return Application::Ready(None);
    }
    let operator_value = match &o.value {
        TokenUnion::StrOf(s) => s,
        TokenUnion::FloatOf(_) => {
            return Application::Ready(None);
        },
    };
    let cs = chars_of(operator_value.as_str());
    if parameters.len() == 2 {
        let a = get_unsafe_float_value(&parameters[0]);
        let b = get_unsafe_float_value(&parameters[1]);
        match binary_op_of(&cs) {
            Some(op) => Application::Compute(FloatTask { op, a, b }),
            None => if same_chars(&cs, &vec!['=']) {
                Application::Ready(
                    Some(
                        Token {
                            value: TokenUnion::StrOf(String::new()),
                            token_type: TokenType::VariableName,
                            num_params: 0,
                        },
                    ),
                )
            } else {
                Application::Ready(None)
            },
        }
    } else if parameters.len() == 1 {
        if same_chars(&cs, &vec!['N', 'E', 'G', 'A', 'T', 'E']) {
            let a = get_unsafe_float_value(&parameters[0]);
            Application::Compute(FloatTask { op: FloatOp::Neg, a, b: String::new() })
        } else if same_chars(&cs, &vec!['d', 'e', 'c', 'l', 'a', 'r', 'e']) {
            let a = get_unsafe_literal_value(&parameters[0]);
            Application::Ready(
                Some(Token { value: TokenUnion::StrOf(a), token_type: TokenType::VariableName, num_params: 0 }),
            )
        } else {
            Application::Ready(None)
        }
    } else {
        Application::Ready(None)
    }
}

/// The stack of an evaluation in progress. Feed it the tokens of a reverse
/// Polish sequence in order; when `feed` asks for an operation on doubles,
/// hand its outcome to `receive` before the next token.
pub struct Solver {
    stack: Vec<Token>,
}

impl View for Solver {
    type V = Seq<TokenModel>;

    closed spec fn view(&self) -> Seq<TokenModel> {
        models(self.stack@)
    }
}

impl Solver {
    pub fn new() -> (r: Solver)
        ensures
            r@ == Seq::<TokenModel>::empty(),
    {
        let r = Solver { stack: Vec::new() };
        assert(r@ =~= Seq::<TokenModel>::empty());
        r
    }

    /// Takes the next token: an operand is pushed; an operator takes its
    /// operands off the stack and pushes its result, or asks for the operation
    /// on doubles whose outcome is its result.
    pub fn feed(&mut self, element: &Token) -> (r: Option<FloatTask>)
        ensures
            (final(self)@, match r {
                Some(task) => Some(task@),
                None => None,
            }) == feed_spec(old(self)@, element@),
    {
        let ghost s0 = self@;
        if element.token_type != TokenType::Operator {
            let t = element.copied();
            self.stack.push(t);
            proof {
                assert(self@ =~= s0.push(element@));
            }
            return None;
        }
        let num_params = element.num_params;
        let ghost len0 = s0.len() as int;
        let mut vector: Vec<Token> = Vec::new();
        let mut i: usize = 0;
        proof {
            assert(models(vector@) =~= top_first(s0, 0));
            assert(s0.take(len0) =~= s0);
        }
        if self.stack.len() > 0 {
            loop
                invariant_except_break
                    i == 0 || (i as int) < num_params,
                invariant
                    s0 == old(self)@,
                    len0 == s0.len(),
                    0 <= i < len0 + 1,
                    self@ == s0.take(len0 - i),
                    self.stack@.len() == len0 - i,
                    models(vector@) == top_first(s0, i as int),
                ensures
                    i == taken(num_params, len0),
                    self@ == s0.take(len0 - i),
                    models(vector@) == top_first(s0, i as int),
                decreases len0 - i,
            {
                if self.stack.len() == 0 {
                    break;
                }
                let ghost before = vector@;
                let ghost sb = self.stack@;
                let t = self.stack.pop().unwrap();
                proof {
                    assert(t == sb[sb.len() - 1]);
                    assert(models(sb)[sb.len() - 1] == sb[sb.len() - 1]@);
                    assert(s0.take(len0 - i)[len0 - i - 1] == s0[len0 - 1 - i]);
                    assert(t@ == s0[len0 - 1 - i]);
                }
                vector.push(t);
                proof {
                    assert(models(vector@) =~= models(before).push(t@));
                    assert(models(vector@) =~= top_first(s0, i + 1));
                    assert(models(self.stack@) =~= s0.take(len0 - i - 1));
                }
                i = i + 1;
                if i >= num_params {
                    break;
                }
            }
        }
        assert(i == taken(num_params, len0));
        match new_token_from_applying(element, vector) {
            Application::Ready(Some(x)) => {
                let ghost before = self@;
                self.stack.push(x);
                proof {
                    assert(self@ =~= before.push(x@));
                }
                None
            },
            Application::Ready(None) => None,
            Application::Compute(task) => Some(task),
        }
    }

    /// Takes the outcome of the operation that `feed` asked for, as decimal text.
    pub fn receive(&mut self, number: String)
        ensures
            final(self)@ == old(self)@.push(number_token(number@)),
    {
        let ghost s0 = self@;
        self.stack.push(Token { value: TokenUnion::FloatOf(number), token_type: TokenType::Numeric, num_params: 0 });
        proof {
            assert(self@ =~= s0.push(number_token(number@)));
        }
    }

    /// The result of the evaluation: the top of the stack, if any.
    pub fn answer(&self) -> (r: Option<Token>)
        ensures
            opt_model(r) == (if self@.len() == 0 {
                None
            } else {
                Some(self@.last())
            }),
    {
        if self.stack.len() == 0 {
            None
        } else {
            Some(self.stack[self.stack.len() - 1].copied())
        }
    }
}

} // verus!
