//! Character-level helpers shared by the tokenizer and the renderers.
use vstd::prelude::*;

verus! {

/// Whether a character outside ASCII has one of Unicode's number categories.
pub uninterp spec fn unicode_numeric(c: char) -> bool;

/// Whether a character outside ASCII has Unicode's `Alphabetic` property.
pub uninterp spec fn unicode_alphabetic(c: char) -> bool;

pub open spec fn is_ascii_char(c: char) -> bool {
    (c as u32) < 128
}

pub open spec fn is_digit(c: char) -> bool {
    ('0' as u32) <= (c as u32) && (c as u32) <= ('9' as u32)
}

pub open spec fn is_ascii_letter(c: char) -> bool {
    (('a' as u32) <= (c as u32) && (c as u32) <= ('z' as u32)) || (('A' as u32) <= (c as u32)
        && (c as u32) <= ('Z' as u32))
}

/// The classification `char::is_numeric` makes.
pub open spec fn numeric_char(c: char) -> bool {
    if is_ascii_char(c) {
        is_digit(c)
    } else {
        unicode_numeric(c)
    }
}

/// The classification `char::is_alphabetic` makes.
pub open spec fn alphabetic_char(c: char) -> bool {
    if is_ascii_char(c) {
        is_ascii_letter(c)
    } else {
        unicode_alphabetic(c)
    }
}

/// Relies on `char::is_numeric`: ASCII digits are numeric, no other ASCII
/// character is, and beyond ASCII the Unicode number categories decide.
#[verifier::external_body]
pub(crate) fn char_is_numeric(c: char) -> (r: bool)
    ensures
        r == (if (c as u32) < 128 {
            ('0' as u32) <= (c as u32) && (c as u32) <= ('9' as u32)
        } else {
            unicode_numeric(c)
        }),
{
    c.is_numeric()
}

/// Relies on `char::is_alphabetic`: ASCII letters are alphabetic, no other
/// ASCII character is, and beyond ASCII the Unicode `Alphabetic` property decides.
#[verifier::external_body]
pub(crate) fn char_is_alphabetic(c: char) -> (r: bool)
    ensures
        r == (if (c as u32) < 128 {
            (('a' as u32) <= (c as u32) && (c as u32) <= ('z' as u32)) || (('A' as u32) <= (
            c as u32) && (c as u32) <= ('Z' as u32))
        } else {
            unicode_alphabetic(c)
        }),
{
    c.is_alphabetic()
}

/// The characters of the text, in order.
pub fn chars_of(s: &str) -> (r: Vec<char>)
    ensures
        r@ == s@,
{
    let n = s.unicode_len();
    let mut r: Vec<char> = Vec::new();
    let mut i: usize = 0;
    while i < n
        invariant
            n == s@.len(),
            i <= n,
            r@ == s@.take(i as int),
        decreases n - i,
    {
        r.push(s.get_char(i));
        proof {
            assert(r@ =~= s@.take(i + 1));
        }
        i = i + 1;
    }
    assert(s@.take(n as int) =~= s@);
    r
}

/// Relies on `String::from_iter` over characters: the text of the characters, in order.
#[verifier::external_body]
pub(crate) fn string_of(cs: &Vec<char>) -> (r: String)
    ensures
        r@ == cs@,
{
    cs.iter().collect()
}

/// The pattern that recognises the `declare` keyword as a whole run of
/// letters: the word, with nothing but spaces around it.
pub open spec fn declare_pattern() -> Seq<char> {
    seq!['^', ' ', '*', 'd', 'e', 'c', 'l', 'a', 'r', 'e', ' ', '*', '$']
}

pub open spec fn declare_word() -> Seq<char> {
    seq!['d', 'e', 'c', 'l', 'a', 'r', 'e']
}

/// Relies on `regex::Regex::new` and `regex::Regex::is_match`: the pattern
/// `^ *declare *$` compiles, and it matches a text exactly when the text is
/// the word `declare` with only spaces before and after it.
#[verifier::external_body]
pub(crate) fn regex_is_match(pattern: &str, haystack: &str) -> (r: bool)
    requires
        pattern@ == declare_pattern(),
    ensures
        r == (trim_spaces(haystack@) == seq!['d', 'e', 'c', 'l', 'a', 'r', 'e']),
{
    regex::Regex::new(pattern).unwrap().is_match(haystack)
}

/// `s` without its leading and trailing spaces.
pub open spec fn trim_spaces(s: Seq<char>) -> Seq<char> {
    trim_trailing(trim_leading(s))
}

pub open spec fn trim_leading(s: Seq<char>) -> Seq<char>
    decreases s.len(),
{
    if s.len() > 0 && s[0] == ' ' {
        trim_leading(s.drop_first())
    } else {
        s
    }
}

pub open spec fn trim_trailing(s: Seq<char>) -> Seq<char>
    decreases s.len(),
{
    if s.len() > 0 && s.last() == ' ' {
        trim_trailing(s.drop_last())
    } else {
        s
    }
}

proof fn lemma_trim_leading_suffix(s: Seq<char>, k: int)
    requires
        0 <= k <= s.len(),
        forall|j: int| 0 <= j < k ==> s[j] == ' ',
    ensures
        trim_leading(s) == trim_leading(s.subrange(k, s.len() as int)),
    decreases k,
{
    if k > 0 {
        assert(s.drop_first() =~= s.subrange(1, s.len() as int));
        lemma_trim_leading_suffix(s.drop_first(), k - 1);
        assert(s.drop_first().subrange(k - 1, s.drop_first().len() as int) =~= s.subrange(
            k,
            s.len() as int,
        ));
    } else {
        assert(s.subrange(0, s.len() as int) =~= s);
    }
}

proof fn lemma_trim_trailing_prefix(s: Seq<char>, k: int)
    requires
        0 <= k <= s.len(),
        forall|j: int| k <= j < s.len() ==> s[j] == ' ',
    ensures
        trim_trailing(s) == trim_trailing(s.subrange(0, k)),
    decreases s.len() - k,
{
    if k < s.len() {
        assert(s.drop_last() =~= s.subrange(0, s.len() - 1));
        lemma_trim_trailing_prefix(s.drop_last(), k);
        assert(s.drop_last().subrange(0, k) =~= s.subrange(0, k));
    } else {
        assert(s.subrange(0, k) =~= s);
    }
}

/// The characters of `s` without leading and trailing spaces.
pub fn trim_chars(s: &Vec<char>) -> (r: Vec<char>)
    ensures
        r@ == trim_spaces(s@),
{
    let n = s.len();
    let mut start: usize = 0;
    while start < n && s[start] == ' '
        invariant
            n == s@.len(),
            start <= n,
            forall|j: int| 0 <= j < start ==> s@[j] == ' ',
        decreases n - start,
    {
        start = start + 1;
    }
    proof {
        lemma_trim_leading_suffix(s@, start as int);
        let t = s@.subrange(start as int, n as int);
        if t.len() > 0 {
            assert(t[0] == s@[start as int]);
        }
    }
    let mut end: usize = n;
    while end > start && s[end - 1] == ' '
        invariant
            n == s@.len(),
            start <= end <= n,
            forall|j: int| end <= j < n ==> s@[j] == ' ',
        decreases end,
    {
        end = end - 1;
    }
    let mut r: Vec<char> = Vec::new();
    let mut i: usize = start;
    while i < end
        invariant
            n == s@.len(),
            start <= i <= end <= n,
            r@ == s@.subrange(start as int, i as int),
        decreases end - i,
    {
        r.push(s[i]);
        proof {
            assert(s@.subrange(start as int, i + 1) =~= s@.subrange(start as int, i as int).push(
                s@[i as int],
            ));
        }
        i = i + 1;
    }
    proof {
        let t = s@.subrange(start as int, n as int);
        assert(trim_leading(s@) == t);
        lemma_trim_trailing_prefix(t, end - start);
        assert(t.subrange(0, end - start) =~= s@.subrange(start as int, end as int));
        let u = s@.subrange(start as int, end as int);
        if u.len() > 0 {
            assert(u.last() == s@[end - 1]);
        }
    }
    r
}

/// Whether two character sequences are equal.
pub fn same_chars(a: &Vec<char>, b: &Vec<char>) -> (r: bool)
    ensures
        r == (a@ =~= b@),
{
    if a.len() != b.len() {
        return false;
    }
    let mut i: usize = 0;
    while i < a.len()
        invariant
            a@.len() == b@.len(),
            i <= a@.len(),
            forall|j: int| 0 <= j < i ==> a@[j] == b@[j],
        decreases a@.len() - i,
    {
        if a[i] != b[i] {
            return false;
        }
        i = i + 1;
    }
    assert(a@ =~= b@);
    true
}

} // verus!
