//! The operator table: precedence, associativity and number of operands of
//! each operator symbol and keyword.
use vstd::prelude::*;
use crate::text::{chars_of, same_chars};
use crate::tokens::Associativity;

verus! {

pub open spec fn is_comparison(s: Seq<char>) -> bool {
    s =~= seq!['=', '='] || s =~= seq!['<', '='] || s =~= seq!['>', '='] || s =~= seq!['<'] || s =~= seq!['>'] || s =~= seq!['!', '=']
}

pub open spec fn is_bitwise(s: Seq<char>) -> bool {
    s =~= seq!['|'] || s =~= seq!['&'] || s =~= seq!['^']
}

pub open spec fn is_logical(s: Seq<char>) -> bool {
    s =~= seq!['&', '&'] || s =~= seq!['|', '|']
}

pub open spec fn negate_word() -> Seq<char> {
    seq!['N', 'E', 'G', 'A', 'T', 'E']
}

pub open spec fn func_word() -> Seq<char> {
    seq!['f', 'u', 'n', 'c']
}

/// The precedence of a symbol in the table: higher binds tighter.
pub open spec fn precedence_of(s: Seq<char>) -> Option<isize> {
    if s =~= seq!['='] {
        Some(9)
    } else if s =~= crate::text::declare_word() {
        Some(10)
    } else if is_comparison(s) {
        Some(11)
    } else if is_bitwise(s) {
        Some(12)
    } else if is_logical(s) {
        Some(13)
    } else if s =~= seq!['+'] || s =~= seq!['-'] {
        Some(14)
    } else if s =~= seq!['/'] || s =~= seq!['*'] {
        Some(15)
    } else if s =~= negate_word() {
        Some(16)
    } else if s =~= seq!['^', '^'] {
        Some(17)
    } else if s =~= seq![':'] {
        Some(0)
    } else {
        None
    }
}

/// The associativity of a symbol in the table (`declare` has none there).
pub open spec fn associativity_of(s: Seq<char>) -> Option<Associativity> {
    if s =~= seq!['^', '^'] {
        Some(Associativity::Right)
    } else if s =~= seq!['='] || is_comparison(s) || is_bitwise(s) || is_logical(s) || s =~= seq![
        '+',
    ] || s =~= seq!['-'] || s =~= seq!['/'] || s =~= seq!['*'] || s =~= negate_word() || s =~= seq![
        ':',
    ] {
        Some(Associativity::Left)
    } else {
        None
    }
}

/// The number of operands of a symbol in the table.
pub open spec fn arity_of(s: Seq<char>) -> Option<usize> {
    if s =~= negate_word() || s =~= crate::text::declare_word() {
        Some(1)
    } else if s =~= func_word() {
        Some(3)
    } else if s =~= seq!['='] || is_comparison(s) || is_bitwise(s) || is_logical(s) || s =~= seq![
        '+',
    ] || s =~= seq!['-'] || s =~= seq!['/'] || s =~= seq!['*'] || s =~= seq!['^', '^'] || s =~= seq![
        ':',
    ] {
        Some(2)
    } else {
        None
    }
}

fn is_comparison_word(cs: &Vec<char>) -> (r: bool)
    ensures
        r == is_comparison(cs@),
{
    same_chars(cs, &vec!['=', '=']) || same_chars(cs, &vec!['<', '=']) || same_chars(
        cs,
        &vec!['>', '='],
    ) || same_chars(cs, &vec!['<']) || same_chars(cs, &vec!['>']) || same_chars(cs, &vec!['!', '='])
}

fn is_bitwise_word(cs: &Vec<char>) -> (r: bool)
    ensures
        r == is_bitwise(cs@),
{
    same_chars(cs, &vec!['|']) || same_chars(cs, &vec!['&']) || same_chars(cs, &vec!['^'])
}

fn is_logical_word(cs: &Vec<char>) -> (r: bool)
    ensures
        r == is_logical(cs@),
{
    same_chars(cs, &vec!['&', '&']) || same_chars(cs, &vec!['|', '|'])
}

/// The precedence that the table gives `symbol`, if it lists it.
pub fn precedence_groups(symbol: &str) -> (r: Option<isize>)
    ensures
        r == precedence_of(symbol@),
{
    let cs = chars_of(symbol);
    if same_chars(&cs, &vec!['=']) {
        Some(9)
    } else if same_chars(&cs, &vec!['d', 'e', 'c', 'l', 'a', 'r', 'e']) {
        Some(10)
    } else if is_comparison_word(&cs) {
        Some(11)
    } else if is_bitwise_word(&cs) {
        Some(12)
    } else if is_logical_word(&cs) {
        Some(13)
    } else if same_chars(&cs, &vec!['+']) || same_chars(&cs, &vec!['-']) {
        Some(14)
    } else if same_chars(&cs, &vec!['/']) || same_chars(&cs, &vec!['*']) {
        Some(15)
    } else if same_chars(&cs, &vec!['N', 'E', 'G', 'A', 'T', 'E']) {
        Some(16)
    } else if same_chars(&cs, &vec!['^', '^']) {
        Some(17)
    } else if same_chars(&cs, &vec![':']) {
        Some(0)
    } else {
        None
    }
}

/// Whether `cs` is one of the two-operand symbols that group to the left.
fn is_plain_binary(cs: &Vec<char>) -> (r: bool)
    ensures
        r == (cs@ =~= seq!['='] || is_comparison(cs@) || is_bitwise(cs@) || is_logical(cs@) || cs@ =~= seq!['+'] || cs@ =~= seq!['-'] || cs@ =~= seq!['/'] || cs@ =~= seq!['*'] || cs@ =~= seq![':']),
{
    same_chars(cs, &vec!['=']) || is_comparison_word(cs) || is_bitwise_word(cs) || is_logical_word(cs) || same_chars(cs, &vec!['+']) || same_chars(
        cs,
        &vec!['-'],
    ) || same_chars(cs, &vec!['/']) || same_chars(cs, &vec!['*']) || same_chars(cs, &vec![':'])
}

/// The associativity that the table gives `symbol`, if it lists it.
pub fn associativity(symbol: &str) -> (r: Option<Associativity>)
    ensures
        r == associativity_of(symbol@),
{
    let cs = chars_of(symbol);
    if same_chars(&cs, &vec!['^', '^']) {
        Some(Associativity::Right)
    } else if is_plain_binary(&cs) || same_chars(&cs, &vec!['N', 'E', 'G', 'A', 'T', 'E']) {
        Some(Associativity::Left)
    } else {
        None
    }
}

/// The number of operands that the table gives `symbol`, if it lists it.
pub fn num_pars(symbol: &str) -> (r: Option<usize>)
    ensures
        r == arity_of(symbol@),
{
    let cs = chars_of(symbol);
    if same_chars(&cs, &vec!['N', 'E', 'G', 'A', 'T', 'E']) || same_chars(
        &cs,
        &vec!['d', 'e', 'c', 'l', 'a', 'r', 'e'],
    ) {
        Some(1)
    } else if same_chars(&cs, &vec!['f', 'u', 'n', 'c']) {
        Some(3)
    } else if is_plain_binary(&cs) || same_chars(&cs, &vec!['^', '^']) {
        Some(2)
    } else {
        None
    }
}

} // verus!
