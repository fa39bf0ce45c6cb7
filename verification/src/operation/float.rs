//! Decimal literals of floating-point values, handled as text: which texts
//! are such literals, and which JSON number each one is.

use crate::num::is_digit;
use crate::text::{push_char, push_range};
use vstd::prelude::*;
use vstd::string::StringExecFns;

verus! {

/// The canonical text of the JSON number `s`, or `None` where `s` is not read
/// as a JSON number at all or lies outside the range of a double.
pub uninterp spec fn number_text(s: Seq<char>) -> Option<Seq<char>>;

/// Reads `s` as a JSON number and writes it back. Calls
/// `<serde_json::Number as FromStr>::from_str`, then the number's `Display`.
/// The contract only gives the outcome its name: the same text always has the
/// same outcome.
#[verifier::external_body]
fn canonical_number(s: &str) -> (out: Option<String>)
    ensures
        match out {
            Some(t) => number_text(s@) == Some(t@),
            None => number_text(s@) is None,
        },
{
    match s.parse::<serde_json::Number>() {
        Ok(n) => Some(n.to_string()),
        Err(_) => None,
    }
}

/// How many digits stand in a row in `s` from position `from` on.
pub open spec fn digit_run(s: Seq<char>, from: int) -> int
    decreases s.len() - from,
{
    if 0 <= from < s.len() && is_digit(s[from]) {
        1 + digit_run(s, from + 1)
    } else {
        0
    }
}

/// 1 where a sign stands at position `at`, else 0.
pub open spec fn sign_len(s: Seq<char>, at: int) -> int {
    if 0 <= at < s.len() && (s[at] == '+' || s[at] == '-') {
        1
    } else {
        0
    }
}

pub open spec fn int_end(s: Seq<char>) -> int {
    sign_len(s, 0) + digit_run(s, sign_len(s, 0))
}

pub open spec fn has_dot(s: Seq<char>) -> bool {
    int_end(s) < s.len() && s[int_end(s)] == '.'
}

pub open spec fn mantissa_end(s: Seq<char>) -> int {
    if has_dot(s) {
        int_end(s) + 1 + digit_run(s, int_end(s) + 1)
    } else {
        int_end(s)
    }
}

pub open spec fn mantissa_digits(s: Seq<char>) -> int {
    if has_dot(s) {
        mantissa_end(s) - sign_len(s, 0) - 1
    } else {
        mantissa_end(s) - sign_len(s, 0)
    }
}

pub open spec fn has_exponent(s: Seq<char>) -> bool {
    let m = mantissa_end(s);
    &&& m < s.len()
    &&& (s[m] == 'e' || s[m] == 'E')
    &&& digit_run(s, m + 1 + sign_len(s, m + 1)) >= 1
    &&& m + 1 + sign_len(s, m + 1) + digit_run(s, m + 1 + sign_len(s, m + 1)) == s.len()
}

/// A decimal number: an optional sign; digits with at most one `.` among,
/// before or after them, and at least one digit; then optionally `e` or `E`,
/// an optional sign and one or more digits.
pub open spec fn is_number_literal(s: Seq<char>) -> bool {
    mantissa_digits(s) >= 1 && (mantissa_end(s) == s.len() || has_exponent(s))
}

pub open spec fn ascii_lower(c: char) -> char {
    if 'A' <= c && c <= 'Z' {
        ((c as u8) + 32) as char
    } else {
        c
    }
}

/// `s` without its sign, in lower case.
pub open spec fn unsigned_lower(s: Seq<char>) -> Seq<char> {
    s.subrange(sign_len(s, 0), s.len() as int).map_values(|c: char| ascii_lower(c))
}

pub open spec fn is_infinity_literal(s: Seq<char>) -> bool {
    unsigned_lower(s) == "inf"@ || unsigned_lower(s) == "infinity"@
}

pub open spec fn is_nan_literal(s: Seq<char>) -> bool {
    unsigned_lower(s) == "nan"@
}

/// The texts that denote a floating-point value: a decimal number, or one of
/// the names `inf`, `infinity` and `nan` in any mix of cases after an
/// optional sign.
pub open spec fn is_float_literal(s: Seq<char>) -> bool {
    is_infinity_literal(s) || is_nan_literal(s) || is_number_literal(s)
}

/// `d` without leading zeros; a single `0` where nothing else is left.
pub open spec fn strip_zeros(d: Seq<char>) -> Seq<char>
    decreases d.len(),
{
    if d.len() == 0 {
        seq!['0']
    } else if d.len() > 1 && d[0] == '0' {
        strip_zeros(d.drop_first())
    } else {
        d
    }
}

/// The number literal `s` in the stricter grammar of JSON, with the same
/// value: no `+` in front, no leading zeros, and a digit on both sides of
/// the point, which is always written.
pub open spec fn json_lexeme(s: Seq<char>) -> Seq<char> {
    let sign = if s.len() > 0 && s[0] == '-' {
        seq!['-']
    } else {
        Seq::<char>::empty()
    };
    let whole = strip_zeros(s.subrange(sign_len(s, 0), int_end(s)));
    let fraction = if has_dot(s) && mantissa_end(s) > int_end(s) + 1 {
        s.subrange(int_end(s) + 1, mantissa_end(s))
    } else {
        seq!['0']
    };
    let exponent = if mantissa_end(s) < s.len() {
        seq!['e'] + s.subrange(mantissa_end(s) + 1, s.len() as int)
    } else {
        Seq::<char>::empty()
    };
    sign + whole + seq!['.'] + fraction + exponent
}

/// The text under which an infinite value of the sign of `s` is kept.
pub open spec fn infinity_text(s: Seq<char>) -> Seq<char> {
    if s.len() > 0 && s[0] == '-' {
        "-inf"@
    } else {
        "inf"@
    }
}

/// The text under which the value of the float literal `s` is kept: `NaN`,
/// `inf` or `-inf`, or the canonical text of the number. A number too large
/// for a double is infinite.
pub open spec fn float_text(s: Seq<char>) -> Seq<char> {
    if is_nan_literal(s) {
        "NaN"@
    } else if is_infinity_literal(s) {
        infinity_text(s)
    } else {
        match number_text(json_lexeme(s)) {
            Some(t) => t,
            None => infinity_text(s),
        }
    }
}

/// Whether the kept text `t` stands for a value that is not a finite number.
pub open spec fn is_non_finite_text(t: Seq<char>) -> bool {
    t == "NaN"@ || t == "inf"@ || t == "-inf"@
}

fn scan_digits(v: &Vec<char>, from: usize) -> (to: usize)
    requires
        from <= v.len(),
    ensures
        to == from + digit_run(v@, from as int),
        from <= to <= v.len(),
{
    let mut i: usize = from;
    while i < v.len() && '0' <= v[i] && v[i] <= '9'
        invariant
            from <= i <= v.len(),
            from + digit_run(v@, from as int) == i + digit_run(v@, i as int),
        decreases v.len() - i,
    {
        i += 1;
    }
    i
}

fn is_sign_at(v: &Vec<char>, at: usize) -> (n: usize)
    ensures
        n == sign_len(v@, at as int),
{
    if at < v.len() && (v[at] == '+' || v[at] == '-') {
        1
    } else {
        0
    }
}

fn lower(c: char) -> (l: char)
    ensures
        l == ascii_lower(c),
{
    if 'A' <= c && c <= 'Z' {
        ((c as u8) + 32) as char
    } else {
        c
    }
}

fn lower_tail(v: &Vec<char>, from: usize) -> (out: String)
    requires
        from <= v.len(),
    ensures
        out@ == v@.subrange(from as int, v.len() as int).map_values(|c: char| ascii_lower(c)),
{
    let mut out = String::new();
    let mut i: usize = from;
    let ghost tail = v@.subrange(from as int, v.len() as int).map_values(
        |c: char| ascii_lower(c),
    );
    while i < v.len()
        invariant
            from <= i <= v.len(),
            tail == v@.subrange(from as int, v.len() as int).map_values(|c: char| ascii_lower(c)),
            out@ == tail.take(i - from),
        decreases v.len() - i,
    {
        push_char(&mut out, lower(v[i]));
        assert(tail.take(i - from + 1) == tail.take(i - from).push(tail[i - from]));
        i += 1;
    }
    assert(tail.take(i - from) == tail);
    out
}

fn push_stripped(out: &mut String, v: &Vec<char>, from: usize, to: usize)
    requires
        from <= to <= v.len(),
    ensures
        final(out)@ == old(out)@ + strip_zeros(v@.subrange(from as int, to as int)),
{
    let mut i: usize = from;
    while to - i > 1 && v[i] == '0'
        invariant
            from <= i <= to <= v.len(),
            strip_zeros(v@.subrange(from as int, to as int)) == strip_zeros(
                v@.subrange(i as int, to as int),
            ),
        decreases to - i,
    {
        assert(v@.subrange(i as int, to as int).drop_first() == v@.subrange(i + 1, to as int));
        i += 1;
    }
    if i == to {
        push_char(out, '0');
    } else {
        push_range(out, v, i, to);
    }
}

/// The text under which the value of `v` is kept, where `v` is a float
/// literal; `None` where it is not.
pub fn read_float(v: &Vec<char>) -> (out: Option<String>)
    ensures
        match out {
            Some(t) => is_float_literal(v@) && t@ == float_text(v@),
            None => !is_float_literal(v@),
        },
{
    let sign = is_sign_at(v, 0);
    let negative = v.len() > 0 && v[0] == '-';
    let name = lower_tail(v, sign);
    if name == String::from_str("nan") {
        return Some(String::from_str("NaN"));
    }
    if name == String::from_str("inf") || name == String::from_str("infinity") {
        return Some(
            if negative {
                String::from_str("-inf")
            } else {
                String::from_str("inf")
            },
        );
    }
    let whole_end = scan_digits(v, sign);
    let dotted = whole_end < v.len() && v[whole_end] == '.';
    let mantissa_to = if dotted {
        scan_digits(v, whole_end + 1)
    } else {
        whole_end
    };
    let digits = if dotted {
        mantissa_to - sign - 1
    } else {
        mantissa_to - sign
    };
    if digits < 1 {
        return None;
    }
    if mantissa_to < v.len() {
        if !(v[mantissa_to] == 'e' || v[mantissa_to] == 'E') {
            return None;
        }
        let exp_from = mantissa_to + 1 + is_sign_at(v, mantissa_to + 1);
        let exp_to = scan_digits(v, exp_from);
        if exp_to == exp_from || exp_to != v.len() {
            return None;
        }
    }
    let mut lexeme = String::new();
    if negative {
        push_char(&mut lexeme, '-');
    }
    push_stripped(&mut lexeme, v, sign, whole_end);
    push_char(&mut lexeme, '.');
    if dotted && mantissa_to > whole_end + 1 {
        push_range(&mut lexeme, v, whole_end + 1, mantissa_to);
    } else {
        push_char(&mut lexeme, '0');
    }
    if mantissa_to < v.len() {
        push_char(&mut lexeme, 'e');
        push_range(&mut lexeme, v, mantissa_to + 1, v.len());
    }
    assert(lexeme@ =~= json_lexeme(v@));
    match canonical_number(lexeme.as_str()) {
        Some(t) => Some(t),
        None => Some(
            if negative {
                String::from_str("-inf")
            } else {
                String::from_str("inf")
            },
        ),
    }
}

/// Whether the kept text `t` stands for a value that is not a finite number.
pub fn is_non_finite(t: &String) -> (b: bool)
    ensures
        b == is_non_finite_text(t@),
{
    *t == String::from_str("NaN") || *t == String::from_str("inf") || *t == String::from_str(
        "-inf",
    )
}

} // verus!
