//! Tokens: the units that flow from the tokenizer through conversion,
//! evaluation and tree building.
use vstd::prelude::*;
use crate::operators::{arity_of, associativity_of, precedence_of, num_pars, associativity, precedence_groups};
use crate::text::{chars_of, string_of, trim_chars, trim_spaces};

verus! {

/// The value a token carries: a text (operator symbol, name, rendering), or a
/// number, held as the decimal text that denotes it.
#[derive(Debug, Clone)]
pub enum TokenUnion {
    StrOf(String),
    FloatOf(String),
}

#[derive(Debug, PartialEq, Eq, Structural, Clone, Copy)]
pub enum TokenType {
    Numeric,
    Function,
    Operator,
    OpenPar,
    ClosedPar,
    OpenBracket,
    ClosedBracket,
    OpenCurly,
    ClosedCurly,
    Comma,
    ParamName,
    VariableName,
}

#[derive(Debug, Clone)]
pub struct Token {
    pub value: TokenUnion,
    pub token_type: TokenType,
    pub num_params: usize,
}

#[derive(Debug, PartialEq, Eq, Structural, Clone, Copy)]
pub enum Associativity {
    Left,
    Right,
    NoAsoc,
}

/// The two errors that stop a text from being turned into tokens or into
/// reverse Polish notation.
#[derive(Debug, PartialEq, Eq, Structural, Clone, Copy)]
pub enum ParseError {
    /// A closing parenthesis without its opening one, or the reverse.
    UnbalancedParens,
    /// A run of digits and points that is no decimal numeral.
    MalformedNumber,
}

/// What a token's value denotes.
pub enum Lit {
    Text(Seq<char>),
    Num(Seq<char>),
}

/// What a token denotes: its value, its kind and its number of operands.
pub struct TokenModel {
    pub lit: Lit,
    pub kind: TokenType,
    pub arity: usize,
}

impl View for TokenUnion {
    type V = Lit;

    open spec fn view(&self) -> Lit {
        match self {
            TokenUnion::StrOf(s) => Lit::Text(s@),
            TokenUnion::FloatOf(s) => Lit::Num(s@),
        }
    }
}

impl View for Token {
    type V = TokenModel;

    open spec fn view(&self) -> TokenModel {
        TokenModel { lit: self.value@, kind: self.token_type, arity: self.num_params }
    }
}

pub open spec fn models(ts: Seq<Token>) -> Seq<TokenModel> {
    ts.map_values(|t: Token| t@)
}

/// The text by which a value is shown.
pub open spec fn lit_text(l: Lit) -> Seq<char> {
    match l {
        Lit::Text(s) => s,
        Lit::Num(s) => s,
    }
}

/// The token texts, each followed by one space.
pub open spec fn joined(ts: Seq<TokenModel>) -> Seq<char>
    decreases ts.len(),
{
    if ts.len() == 0 {
        Seq::empty()
    } else {
        joined(ts.drop_last()) + lit_text(ts.last().lit) + seq![' ']
    }
}

/// Operands of a symbol: the table's entry, or two for a symbol it lacks.
pub open spec fn arity_or_default(s: Seq<char>) -> usize {
    match arity_of(s) {
        Some(n) => n,
        None => 2,
    }
}

/// Precedence of a token: the table's entry for its text, else 90.
pub open spec fn token_precedence(t: TokenModel) -> isize {
    match t.lit {
        Lit::Text(s) => match precedence_of(s) {
            Some(p) => p,
            None => 90,
        },
        Lit::Num(_) => 90,
    }
}

/// Associativity of a token: the table's entry for its text, else left.
pub open spec fn token_associativity(t: TokenModel) -> Associativity {
    match t.lit {
        Lit::Text(s) => match associativity_of(s) {
            Some(a) => a,
            None => Associativity::Left,
        },
        Lit::Num(_) => Associativity::Left,
    }
}

impl TokenUnion {
    pub fn copied(&self) -> (r: TokenUnion)
        ensures
            r@ == self@,
    {
        match self {
            TokenUnion::StrOf(s) => TokenUnion::StrOf(s.clone()),
            TokenUnion::FloatOf(s) => TokenUnion::FloatOf(s.clone()),
        }
    }

    pub fn text(&self) -> (r: String)
        ensures
            r@ == lit_text(self@),
    {
        match self {
            TokenUnion::StrOf(s) => s.clone(),
            TokenUnion::FloatOf(s) => s.clone(),
        }
    }
}

/// `string` without its leading and trailing spaces.
pub fn remove_spaces_from_str(string: &String) -> (r: String)
    ensures
        r@ == trim_spaces(string@),
{
    let cs = chars_of(string.as_str());
    string_of(&trim_chars(&cs))
}

impl Token {
    pub fn copied(&self) -> (r: Token)
        ensures
            r@ == self@,
    {
        Token { value: self.value.copied(), token_type: self.token_type, num_params: self.num_params }
    }

    /// The text by which the token's value is shown.
    pub fn value_as_string(&self) -> (r: String)
        ensures
            r@ == lit_text(self@.lit),
    {
        self.value.text()
    }

    /// The token texts, each followed by one space.
    pub fn tokens_to_string(tokenized_string: &Vec<Token>) -> (r: String)
        ensures
            r@ == joined(models(tokenized_string@)),
    {
        let mut string = String::new();
        let mut i: usize = 0;
        while i < tokenized_string.len()
            invariant
                i <= tokenized_string@.len(),
                string@ == joined(models(tokenized_string@).take(i as int)),
            decreases tokenized_string@.len() - i,
        {
            let piece = tokenized_string[i].value_as_string();
            string.append(piece.as_str());
            string.append(" ");
            proof {
                reveal_strlit(" ");
                let ms = models(tokenized_string@);
                assert(ms.take(i + 1).drop_last() =~= ms.take(i as int));
            }
            i = i + 1;
        }
        proof {
            assert(models(tokenized_string@).take(tokenized_string@.len() as int) =~= models(
                tokenized_string@,
            ));
        }
        string
    }

    /// Operands of a symbol: the table's entry, or two.
    pub fn get_num_pars(operator: &str) -> (r: usize)
        ensures
            r == arity_or_default(operator@),
    {
        match num_pars(operator) {
            Some(t) => t,
            None => 2,
        }
    }

    /// Precedence of a token: the table's entry for its text, else 90.
    pub fn get_precedence_group_t(operator: &Token) -> (r: isize)
        ensures
            r == token_precedence(operator@),
    {
        if let TokenUnion::StrOf(val) = &operator.value {
            if let Some(t) = precedence_groups(val.as_str()) {
                return t;
            }
        }
        90
    }

    /// Associativity of a token: the table's entry for its text, else left.
    pub fn get_associativity_t(operator: &Token) -> (r: Associativity)
        ensures
            r == token_associativity(operator@),
    {
        if let TokenUnion::StrOf(val) = &operator.value {
            if let Some(t) = associativity(val.as_str()) {
                return t;
            }
        }
        Associativity::Left
    }
}

pub proof fn lemma_models_pop(v: Seq<Token>)
    requires
        v.len() > 0,
    ensures
        models(v.drop_last()) == models(v).drop_last(),
        models(v).last() == v.last()@,
{
    assert(models(v.drop_last()) =~= models(v).drop_last());
}

pub proof fn lemma_models_push(v: Seq<Token>, t: Token)
    ensures
        models(v.push(t)) == models(v).push(t@),
{
    assert(models(v.push(t)) =~= models(v).push(t@));
}

} // verus!
