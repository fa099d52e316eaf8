//! Text: the tests on strings that the evaluators make, and their decimal notation.

use std::sync::Arc;
use vstd::prelude::*;
use vstd::string::*;

verus! {

/// `part` occurs in `s` as a run of characters.
pub open spec fn occurs_in(part: Seq<char>, s: Seq<char>) -> bool {
    exists|i: int| occurs_at(part, s, i)
}

pub open spec fn occurs_at(part: Seq<char>, s: Seq<char>, i: int) -> bool {
    0 <= i && i + part.len() <= s.len() && s.subrange(i, i + part.len()) == part
}

/// Another hold on a string that is shared: `Arc::clone`, which gives a pointer to the same
/// string.
#[verifier::external_body]
pub(crate) fn share(s: &Arc<String>) -> (r: Arc<String>)
    ensures
        r == *s,
{
    Arc::clone(s)
}

/// Lexicographic order by code points.
pub open spec fn text_lt(a: Seq<char>, b: Seq<char>) -> bool
    decreases a.len(),
{
    if b.len() == 0 {
        false
    } else if a.len() == 0 {
        true
    } else if a[0] == b[0] {
        text_lt(a.drop_first(), b.drop_first())
    } else {
        (a[0] as int) < (b[0] as int)
    }
}

/// The number of bytes of the text in UTF-8.
pub open spec fn byte_len(s: Seq<char>) -> nat {
    vstd::utf8::encode_utf8(s).len()
}

/// Whether two strings hold the same text: `==` on `str`.
#[verifier::external_body]
pub(crate) fn str_eq(a: &str, b: &str) -> (r: bool)
    ensures
        r == (a@ == b@),
{
    a == b
}

/// Whether one string comes before another: `<` on `str`, which orders by the bytes of
/// UTF-8 and so by code points.
#[verifier::external_body]
pub(crate) fn str_lt(a: &str, b: &str) -> (r: bool)
    ensures
        r == text_lt(a@, b@),
{
    a < b
}

/// Whether a string begins with another: `str::starts_with` with a string as the pattern.
#[verifier::external_body]
pub(crate) fn str_starts_with(s: &str, prefix: &str) -> (r: bool)
    ensures
        r == prefix@.is_prefix_of(s@),
{
    s.starts_with(prefix)
}

/// Whether a string ends with another: `str::ends_with` with a string as the pattern.
#[verifier::external_body]
pub(crate) fn str_ends_with(s: &str, suffix: &str) -> (r: bool)
    ensures
        r == suffix@.is_suffix_of(s@),
{
    s.ends_with(suffix)
}

/// Whether a string holds another: `str::contains` with a string as the pattern.
#[verifier::external_body]
pub(crate) fn str_contains(s: &str, part: &str) -> (r: bool)
    ensures
        r == occurs_in(part@, s@),
{
    s.contains(part)
}

/// The number of bytes of a string.
pub(crate) fn str_byte_len(s: &str) -> (n: usize)
    ensures
        n == byte_len(s@),
{
    s.as_bytes().len()
}

/// Nothing comes before itself.
pub proof fn lemma_text_lt_irreflexive(a: Seq<char>)
    ensures
        !text_lt(a, a),
    decreases a.len(),
{
    if a.len() > 0 {
        lemma_text_lt_irreflexive(a.drop_first());
    }
}

/// Of two different texts one comes first.
pub proof fn lemma_text_lt_total(a: Seq<char>, b: Seq<char>)
    ensures
        a == b || text_lt(a, b) || text_lt(b, a),
    decreases a.len(),
{
    if a.len() > 0 && b.len() > 0 && a[0] == b[0] {
        lemma_text_lt_total(a.drop_first(), b.drop_first());
        if a.drop_first() == b.drop_first() {
            assert(a =~= seq![a[0]] + a.drop_first());
            assert(b =~= seq![b[0]] + b.drop_first());
        }
    } else if a.len() == 0 && b.len() == 0 {
        assert(a =~= b);
    }
}

/// The order is transitive.
pub proof fn lemma_text_lt_transitive(a: Seq<char>, b: Seq<char>, c: Seq<char>)
    requires
        text_lt(a, b),
        text_lt(b, c),
    ensures
        text_lt(a, c),
    decreases a.len(),
{
    if a.len() > 0 && b.len() > 0 && c.len() > 0 && a[0] == b[0] && b[0] == c[0] {
        lemma_text_lt_transitive(a.drop_first(), b.drop_first(), c.drop_first());
    }
}

/// The decimal digit of a number below ten.
pub open spec fn digit_char(d: nat) -> char {
    if d == 0 {
        '0'
    } else if d == 1 {
        '1'
    } else if d == 2 {
        '2'
    } else if d == 3 {
        '3'
    } else if d == 4 {
        '4'
    } else if d == 5 {
        '5'
    } else if d == 6 {
        '6'
    } else if d == 7 {
        '7'
    } else if d == 8 {
        '8'
    } else {
        '9'
    }
}

/// The decimal notation of a natural number.
pub open spec fn decimal(n: nat) -> Seq<char>
    decreases n,
{
    if n < 10 {
        seq![digit_char(n)]
    } else {
        decimal(n / 10).push(digit_char(n % 10))
    }
}

/// The decimal notation of an integer.
pub open spec fn signed_decimal(i: int) -> Seq<char> {
    if i < 0 {
        "-"@ + decimal((-i) as nat)
    } else {
        decimal(i as nat)
    }
}

fn digit_text(d: u64) -> (r: &'static str)
    requires
        d < 10,
    ensures
        r@ == seq![digit_char(d as nat)],
{
    proof {
        reveal_strlit("0");
        reveal_strlit("1");
        reveal_strlit("2");
        reveal_strlit("3");
        reveal_strlit("4");
        reveal_strlit("5");
        reveal_strlit("6");
        reveal_strlit("7");
        reveal_strlit("8");
        reveal_strlit("9");
    }
    if d == 0 {
        "0"
    } else if d == 1 {
        "1"
    } else if d == 2 {
        "2"
    } else if d == 3 {
        "3"
    } else if d == 4 {
        "4"
    } else if d == 5 {
        "5"
    } else if d == 6 {
        "6"
    } else if d == 7 {
        "7"
    } else if d == 8 {
        "8"
    } else {
        "9"
    }
}

/// Writes an unsigned integer in decimal.
pub fn decimal_text(n: u64) -> (r: String)
    ensures
        r@ == decimal(n as nat),
    decreases n,
{
    if n < 10 {
        String::from_str(digit_text(n))
    } else {
        let mut s = decimal_text(n / 10);
        s.append(digit_text(n % 10));
        assert(s@ =~= decimal(n as nat));
        s
    }
}

/// Writes a signed integer in decimal.
pub fn signed_decimal_text(i: i64) -> (r: String)
    ensures
        r@ == signed_decimal(i as int),
{
    if i < 0 {
        let m: u64 = if i == i64::MIN {
            0x8000_0000_0000_0000
        } else {
            (-i) as u64
        };
        let mut s = String::from_str("-");
        s.append(decimal_text(m).as_str());
        s
    } else {
        decimal_text(i as u64)
    }
}

/// The value of a digit character, where it is one.
pub open spec fn digit_value(c: char) -> Option<nat> {
    if '0' <= c && c <= '9' {
        Some((c as u32 - '0' as u32) as nat)
    } else {
        None
    }
}

/// The number that a run of digits writes, if every character is a digit.
pub open spec fn digits_value(s: Seq<char>) -> Option<nat>
    decreases s.len(),
{
    if s.len() == 0 {
        Some(0)
    } else {
        match (digits_value(s.drop_last()), digit_value(s.last())) {
            (Some(n), Some(d)) => Some(10 * n + d),
            _ => None,
        }
    }
}

/// The integer that a decimal notation writes: a sign or none, then at least one digit.
/// Only a signed notation may have a minus.
pub open spec fn written_int(s: Seq<char>, signed: bool) -> Option<int> {
    let minus = signed && s.len() > 0 && s[0] == '-';
    let plus = s.len() > 0 && s[0] == '+';
    let digits = if minus || plus {
        s.drop_first()
    } else {
        s
    };
    if digits.len() == 0 {
        None
    } else {
        match digits_value(digits) {
            Some(n) => Some(
                if minus {
                    -(n as int)
                } else {
                    n as int
                },
            ),
            None => None,
        }
    }
}

/// What `str::parse::<i64>` says in its error about a text that it refuses.
pub uninterp spec fn parse_i64_error(s: Seq<char>) -> Seq<char>;

/// What `str::parse::<u64>` says in its error about a text that it refuses.
pub uninterp spec fn parse_u64_error(s: Seq<char>) -> Seq<char>;

/// Reads a signed integer: `str::parse::<i64>`. It succeeds exactly on a decimal notation
/// (a sign or none, then digits) of an integer that fits; otherwise the error's text,
/// which is a function of the input, comes back.
#[verifier::external_body]
pub(crate) fn str_parse_i64(s: &str) -> (r: Result<i64, String>)
    ensures
        match r {
            Ok(i) => written_int(s@, true) == Some(i as int),
            Err(t) => {
                &&& t@ == parse_i64_error(s@)
                &&& !(written_int(s@, true) matches Some(n) && i64::MIN <= n <= i64::MAX)
            },
        },
{
    s.parse::<i64>().map_err(|e| e.to_string())
}

/// Reads an unsigned integer: `str::parse::<u64>`. It succeeds exactly on a decimal notation
/// (a plus or none, then digits) of a number that fits; otherwise the error's text,
/// which is a function of the input, comes back.
#[verifier::external_body]
pub(crate) fn str_parse_u64(s: &str) -> (r: Result<u64, String>)
    ensures
        match r {
            Ok(u) => written_int(s@, false) == Some(u as int),
            Err(t) => {
                &&& t@ == parse_u64_error(s@)
                &&& !(written_int(s@, false) matches Some(n) && n <= u64::MAX)
            },
        },
{
    s.parse::<u64>().map_err(|e| e.to_string())
}

/// How std shows a string with `{:?}`: quoted and escaped.
pub uninterp spec fn quoted(s: Seq<char>) -> Seq<char>;

/// A string in quotes, with escapes: std's `Debug` for `str`.
#[verifier::external_body]
pub(crate) fn str_quoted(s: &str) -> (r: String)
    ensures
        r@ == quoted(s@),
{
    format!("{:?}", s)
}

} // verus!
