//! The tokenizer: a scan of the characters into lexemes, and a pass that
//! turns the lexemes into tokens.
use vstd::prelude::*;
use crate::operators::negate_word;
use crate::text::{
    alphabetic_char, char_is_alphabetic, char_is_numeric, chars_of, declare_pattern, declare_word,
    is_digit, numeric_char, regex_is_match, same_chars, string_of, trim_chars,
    trim_spaces,
};
use crate::tokens::{arity_or_default, Lit, ParseError, Token, TokenModel, TokenType, TokenUnion};

verus! {

/// A run of characters, with the kind it was scanned as.
pub struct Lexeme {
    pub content: Vec<char>,
    pub kind: TokenType,
}

impl View for Lexeme {
    type V = (Seq<char>, TokenType);

    open spec fn view(&self) -> (Seq<char>, TokenType) {
        (self.content@, self.kind)
    }
}

pub open spec fn lex_models(ls: Seq<Lexeme>) -> Seq<(Seq<char>, TokenType)> {
    ls.map_values(|l: Lexeme| l@)
}

/// The three pending runs and the lexemes emitted so far.
pub struct ScanState {
    pub number: Seq<char>,
    pub variable: Seq<char>,
    pub operator: Seq<char>,
    pub out: Seq<(Seq<char>, TokenType)>,
}

/// `out` with the run `buf` emitted as `kind`, if it holds more than spaces.
pub open spec fn flushed(
    out: Seq<(Seq<char>, TokenType)>,
    buf: Seq<char>,
    kind: TokenType,
) -> Seq<(Seq<char>, TokenType)> {
    if trim_spaces(buf).len() > 0 {
        out.push((trim_spaces(buf), kind))
    } else {
        out
    }
}

/// The lexemes after emitting the letters, the digits and the operator run.
pub open spec fn flush_all(st: ScanState, letters: TokenType) -> Seq<(Seq<char>, TokenType)> {
    flushed(
        flushed(flushed(st.out, st.variable, letters), st.number, TokenType::Numeric),
        st.operator,
        TokenType::Operator,
    )
}

pub open spec fn bracket_kind(c: char) -> Option<TokenType> {
    if c == '(' {
        Some(TokenType::OpenPar)
    } else if c == ')' {
        Some(TokenType::ClosedPar)
    } else if c == '[' {
        Some(TokenType::OpenBracket)
    } else if c == ']' {
        Some(TokenType::ClosedBracket)
    } else if c == '{' {
        Some(TokenType::OpenCurly)
    } else if c == '}' {
        Some(TokenType::ClosedCurly)
    } else {
        None
    }
}

/// Whether the `-` at `i` negates: a non-space follows it, and a space or
/// `(` precedes it (the start of the text counts as a space).
pub open spec fn negates_at(s: Seq<char>, i: int) -> bool {
    &&& s[i] == '-'
    &&& i + 1 < s.len()
    &&& s[i + 1] != ' '
    &&& (i == 0 || s[i - 1] == ' ' || s[i - 1] == '(')
}

/// The scan state after the character at `i`.
pub open spec fn scan_step(st: ScanState, s: Seq<char>, i: int) -> ScanState {
    let c = s[i];
    let e = Seq::<char>::empty();
    if trim_spaces(st.variable) == declare_word() {
        ScanState { number: e, variable: e, operator: e, out: flush_all(st, TokenType::Operator) }
    } else if negates_at(s, i) {
        ScanState {
            number: e,
            variable: e,
            operator: e,
            out: flush_all(st, TokenType::Function).push((negate_word(), TokenType::Operator)),
        }
    } else if c == ',' {
        ScanState {
            number: e,
            variable: e,
            operator: e,
            out: flush_all(st, TokenType::Function).push((seq![','], TokenType::Comma)),
        }
    } else if numeric_char(c) || c == '.' {
        ScanState {
            number: st.number.push(c),
            variable: e,
            operator: e,
            out: flushed(
                flushed(st.out, st.variable, TokenType::Function),
                st.operator,
                TokenType::Operator,
            ),
        }
    } else if alphabetic_char(c) || c == ' ' {
        ScanState {
            number: e,
            variable: st.variable.push(c),
            operator: e,
            out: flushed(
                flushed(st.out, st.number, TokenType::Numeric),
                st.operator,
                TokenType::Operator,
            ),
        }
    } else if bracket_kind(c).is_some() {
        ScanState {
            number: e,
            variable: e,
            operator: e,
            out: flushed(
                flushed(
                    flushed(st.out, st.operator, TokenType::Operator),
                    st.variable,
                    TokenType::Function,
                ),
                st.number,
                TokenType::Numeric,
            ).push((seq![c], bracket_kind(c).unwrap())),
        }
    } else {
        ScanState {
            number: e,
            variable: e,
            operator: st.operator.push(c),
            out: flushed(
                flushed(st.out, st.variable, TokenType::Function),
                st.number,
                TokenType::Numeric,
            ),
        }
    }
}

/// The scan state after the first `n` characters.
pub open spec fn scan_prefix(s: Seq<char>, n: int) -> ScanState
    decreases n,
{
    if n <= 0 {
        ScanState {
            number: Seq::empty(),
            variable: Seq::empty(),
            operator: Seq::empty(),
            out: Seq::empty(),
        }
    } else {
        scan_step(scan_prefix(s, n - 1), s, n - 1)
    }
}

/// The lexemes of a text: the scan of all its characters, then the pending runs.
pub open spec fn lexemes(s: Seq<char>) -> Seq<(Seq<char>, TokenType)> {
    flush_all(scan_prefix(s, s.len() as int), TokenType::Function)
}

/// Whether `s` is a decimal numeral: digits with at most one point, and at
/// least one digit.
pub open spec fn valid_decimal(s: Seq<char>) -> bool {
    &&& forall|i: int| 0 <= i < s.len() ==> is_digit(#[trigger] s[i]) || s[i] == '.'
    &&& forall|i: int, j: int| 0 <= i < j < s.len() && #[trigger] s[i] == '.' ==> #[trigger] s[j] != '.'
    &&& exists|i: int| 0 <= i < s.len() && is_digit(#[trigger] s[i])
}

/// The token that the lexeme at `i` becomes, given the lexeme after it.
pub open spec fn token_at(lex: Seq<(Seq<char>, TokenType)>, i: int) -> TokenModel {
    let (c, k) = lex[i];
    let lit = if k == TokenType::Numeric {
        Lit::Num(c)
    } else {
        Lit::Text(c)
    };
    if i + 1 < lex.len() && lex[i + 1].0 =~= seq![':'] {
        TokenModel { lit, kind: TokenType::ParamName, arity: arity_or_default(c) }
    } else if k == TokenType::Function && !(i + 1 < lex.len() && lex[i + 1].0 =~= seq!['(']) {
        TokenModel { lit: Lit::Text(c), kind: TokenType::VariableName, arity: 0 }
    } else {
        TokenModel { lit, kind: k, arity: arity_or_default(c) }
    }
}

/// Whether some numeric lexeme is no decimal numeral.
pub open spec fn has_malformed_number(lex: Seq<(Seq<char>, TokenType)>) -> bool {
    exists|i: int|
        0 <= i < lex.len() && (#[trigger] lex[i]).1 == TokenType::Numeric && !valid_decimal(lex[i].0)
}

/// The tokens of a text, or the error that stops it.
pub open spec fn tokenize_spec(s: Seq<char>) -> Result<Seq<TokenModel>, ParseError> {
    let lex = lexemes(s);
    if has_malformed_number(lex) {
        Err(ParseError::MalformedNumber)
    } else {
        Ok(Seq::new(lex.len(), |i: int| token_at(lex, i)))
    }
}

fn flush(out: &mut Vec<Lexeme>, buf: &mut Vec<char>, kind: TokenType)
    ensures
        lex_models(final(out)@) == flushed(lex_models(old(out)@), old(buf)@, kind),
        final(buf)@ == Seq::<char>::empty(),
{
    let t = trim_chars(buf);
    if t.len() > 0 {
        let ghost before = out@;
        out.push(Lexeme { content: t, kind });
        proof {
            assert(lex_models(out@) =~= lex_models(before).push((trim_spaces(old(buf)@), kind)));
        }
    }
    *buf = Vec::new();
}

fn emit(out: &mut Vec<Lexeme>, content: Vec<char>, kind: TokenType)
    ensures
        lex_models(final(out)@) == lex_models(old(out)@).push((content@, kind)),
{
    out.push(Lexeme { content, kind });
    proof {
        assert(lex_models(out@) =~= lex_models(old(out)@).push((content@, kind)));
    }
}

fn bracket_of(c: char) -> (r: Option<TokenType>)
    ensures
        r == bracket_kind(c),
{
    if c == '(' {
        Some(TokenType::OpenPar)
    } else if c == ')' {
        Some(TokenType::ClosedPar)
    } else if c == '[' {
        Some(TokenType::OpenBracket)
    } else if c == ']' {
        Some(TokenType::ClosedBracket)
    } else if c == '{' {
        Some(TokenType::OpenCurly)
    } else if c == '}' {
        Some(TokenType::ClosedCurly)
    } else {
        None
    }
}

/// Whether the run of letters is the keyword `declare`, spaces aside.
fn is_declare(variable: &Vec<char>) -> (r: bool)
    ensures
        r == (trim_spaces(variable@) == declare_word()),
{
    let text = string_of(variable);
    let pattern = "^ *declare *$";
    proof {
        reveal_strlit("^ *declare *$");
        assert(pattern@ =~= declare_pattern());
    }
    regex_is_match(pattern, text.as_str())
}

/// The lexemes of a text.
pub fn scan_lexemes(string: &str) -> (r: Vec<Lexeme>)
    ensures
        lex_models(r@) == lexemes(string@),
{
    let s = chars_of(string);
    let n = s.len();
    let mut number: Vec<char> = Vec::new();
    let mut variable: Vec<char> = Vec::new();
    let mut operator: Vec<char> = Vec::new();
    let mut out: Vec<Lexeme> = Vec::new();
    let mut index: usize = 0;
    proof {
        assert(lex_models(out@) =~= Seq::empty());
    }
    while index < n
        invariant
            n == s@.len(),
            s@ == string@,
            index <= n,
            scan_prefix(s@, index as int) == (ScanState {
                number: number@,
                variable: variable@,
                operator: operator@,
                out: lex_models(out@),
            }),
        decreases n - index,
    {
        let character = s[index];
        let negates = character == '-' && index + 1 < n && s[index + 1] != ' ' && (index == 0
            || s[index - 1] == ' ' || s[index - 1] == '(');
        if is_declare(&variable) {
            flush(&mut out, &mut variable, TokenType::Operator);
            flush(&mut out, &mut number, TokenType::Numeric);
            flush(&mut out, &mut operator, TokenType::Operator);
        } else if negates {
            flush(&mut out, &mut variable, TokenType::Function);
            flush(&mut out, &mut number, TokenType::Numeric);
            flush(&mut out, &mut operator, TokenType::Operator);
            let word = vec!['N', 'E', 'G', 'A', 'T', 'E'];
            proof {
                assert(word@ =~= negate_word());
            }
            emit(&mut out, word, TokenType::Operator);
        } else if character == ',' {
            flush(&mut out, &mut variable, TokenType::Function);
            flush(&mut out, &mut number, TokenType::Numeric);
            flush(&mut out, &mut operator, TokenType::Operator);
            let word = vec![','];
            proof {
                assert(word@ =~= seq![',']);
            }
            emit(&mut out, word, TokenType::Comma);
        } else if char_is_numeric(character) || character == '.' {
            number.push(character);
            flush(&mut out, &mut variable, TokenType::Function);
            flush(&mut out, &mut operator, TokenType::Operator);
        } else if char_is_alphabetic(character) || character == ' ' {
            variable.push(character);
            flush(&mut out, &mut number, TokenType::Numeric);
            flush(&mut out, &mut operator, TokenType::Operator);
        } else if let Some(kind) = bracket_of(character) {
            flush(&mut out, &mut operator, TokenType::Operator);
            flush(&mut out, &mut variable, TokenType::Function);
            flush(&mut out, &mut number, TokenType::Numeric);
            let word = vec![character];
            proof {
                assert(word@ =~= seq![character]);
            }
            emit(&mut out, word, kind);
        } else {
            operator.push(character);
            flush(&mut out, &mut variable, TokenType::Function);
            flush(&mut out, &mut number, TokenType::Numeric);
        }
        index = index + 1;
    }
    flush(&mut out, &mut variable, TokenType::Function);
    flush(&mut out, &mut number, TokenType::Numeric);
    flush(&mut out, &mut operator, TokenType::Operator);
    out
}

/// Whether a run of digits and points is a decimal numeral.
pub fn is_valid_decimal(s: &Vec<char>) -> (r: bool)
    ensures
        r == valid_decimal(s@),
{
    let mut seen_dot = false;
    let mut seen_digit = false;
    let mut i: usize = 0;
    while i < s.len()
        invariant
            i <= s@.len(),
            forall|j: int| 0 <= j < i ==> is_digit(#[trigger] s@[j]) || s@[j] == '.',
            forall|j: int, k: int| 0 <= j < k < i && #[trigger] s@[j] == '.' ==> #[trigger] s@[k] != '.',
            seen_dot == exists|j: int| 0 <= j < i && #[trigger] s@[j] == '.',
            seen_digit == exists|j: int| 0 <= j < i && is_digit(#[trigger] s@[j]),
        decreases s@.len() - i,
    {
        let c = s[i];
        if c == '.' {
            if seen_dot {
                assert(!valid_decimal(s@));
                return false;
            }
            seen_dot = true;
        } else if ('0' as u32) <= (c as u32) && (c as u32) <= ('9' as u32) {
            seen_digit = true;
        } else {
            assert(!valid_decimal(s@));
            return false;
        }
        i = i + 1;
    }
    seen_digit
}

impl Token {
    /// The tokens of a text; fails on a numeric run that is no decimal numeral.
    pub fn tokenize_string(string: &str) -> (r: Result<Vec<Token>, ParseError>)
        ensures
            match (r, tokenize_spec(string@)) {
                (Ok(v), Ok(ms)) => crate::tokens::models(v@) == ms,
                (Err(e), Err(f)) => e == f,
                _ => false,
            },
    {
        let lex = scan_lexemes(string);
        let ghost lm = lexemes(string@);
        let n = lex.len();
        let mut vfin: Vec<Token> = Vec::new();
        let mut i: usize = 0;
        while i < n
            invariant
                n == lex@.len(),
                lex_models(lex@) == lm,
                lm == lexemes(string@),
                i <= n,
                crate::tokens::models(vfin@) =~= Seq::new(i as nat, |j: int| token_at(lm, j)),
                forall|j: int|
                    0 <= j < i && (#[trigger] lm[j]).1 == TokenType::Numeric ==> valid_decimal(
                        lm[j].0,
                    ),
            decreases n - i,
        {
            let content = &lex[i].content;
            let kind = lex[i].kind;
            assert(lm[i as int] == lex@[i as int]@);
            if kind == TokenType::Numeric && !is_valid_decimal(content) {
                assert(has_malformed_number(lm));
                return Err(ParseError::MalformedNumber);
            }
            let text = string_of(content);
            let value = if kind == TokenType::Numeric {
                TokenUnion::FloatOf(text)
            } else {
                TokenUnion::StrOf(text)
            };
            let mut param = false;
            let mut called = false;
            if i + 1 < n {
                assert(lm[i + 1] == lex@[i + 1]@);
                param = same_chars(&lex[i + 1].content, &vec![':']);
                called = same_chars(&lex[i + 1].content, &vec!['(']);
            }
            let token = if param {
                let arity = Token::get_num_pars(string_of(content).as_str());
                Token { value, token_type: TokenType::ParamName, num_params: arity }
            } else if kind == TokenType::Function && !called {
                Token {
                    value: TokenUnion::StrOf(string_of(content)),
                    token_type: TokenType::VariableName,
                    num_params: 0,
                }
            } else {
                let arity = Token::get_num_pars(string_of(content).as_str());
                Token { value, token_type: kind, num_params: arity }
            };
            assert(token@ == token_at(lm, i as int));
            let ghost before = vfin@;
            vfin.push(token);
            proof {
                assert(crate::tokens::models(vfin@) =~= crate::tokens::models(before).push(
                    token_at(lm, i as int),
                ));
            }
            i = i + 1;
        }
        assert(!has_malformed_number(lm));
        assert(crate::tokens::models(vfin@) =~= Seq::new(lm.len(), |j: int| token_at(lm, j)));
        Ok(vfin)
    }
}

} // verus!
