//! Decimal integers as text: what a digit string is worth, how a number is
//! written, and that writing then reading gives the number back.

use vstd::prelude::*;

verus! {

pub open spec fn is_digit(c: char) -> bool {
    '0' <= c && c <= '9'
}

pub open spec fn digit_value(c: char) -> nat {
    (c as u32 - '0' as u32) as nat
}

pub open spec fn digit_char(d: nat) -> char {
    if d == 0 {
        '0'
    } else if d == 1 {
        '1'
    } else if d == 2 {
        '2'
    } else if d == 3 {
        '3'
    } else if d == 4 {
        '4'
    } else if d == 5 {
        '5'
    } else if d == 6 {
        '6'
    } else if d == 7 {
        '7'
    } else if d == 8 {
        '8'
    } else {
        '9'
    }
}

pub open spec fn all_digits(s: Seq<char>) -> bool {
    forall|i: int| 0 <= i < s.len() ==> is_digit(#[trigger] s[i])
}

/// The number that a string of decimal digits denotes, most significant
/// digit first. The empty string is worth zero.
pub open spec fn digits_value(s: Seq<char>) -> nat
    decreases s.len(),
{
    if s.len() == 0 {
        0
    } else {
        digits_value(s.drop_last()) * 10 + digit_value(s.last())
    }
}

/// The digits of `s` after an optional leading sign.
pub open spec fn unsigned_part(s: Seq<char>) -> Seq<char> {
    if s.len() > 0 && (s[0] == '+' || s[0] == '-') {
        s.subrange(1, s.len() as int)
    } else {
        s
    }
}

/// The integer that `s` denotes: an optional `+` or `-`, then one or more
/// decimal digits and nothing else.
pub open spec fn decimal(s: Seq<char>) -> Option<int> {
    let body = unsigned_part(s);
    if body.len() > 0 && all_digits(body) {
        if s[0] == '-' {
            Some(-(digits_value(body) as int))
        } else {
            Some(digits_value(body) as int)
        }
    } else {
        None
    }
}

/// What reading `s` as a signed 64-bit integer gives.
pub open spec fn parse_i64_spec(s: Seq<char>) -> Option<i64> {
    match decimal(s) {
        Some(v) => if i64::MIN <= v <= i64::MAX {
            Some(v as i64)
        } else {
            None
        },
        None => None,
    }
}

/// What reading `s` as an unsigned machine word gives: no `-` is allowed,
/// not even before zero.
pub open spec fn parse_usize_spec(s: Seq<char>) -> Option<usize> {
    match decimal(s) {
        Some(v) => if s[0] != '-' && v <= usize::MAX {
            Some(v as usize)
        } else {
            None
        },
        None => None,
    }
}

/// How a natural number is written in decimal, without leading zeros.
pub open spec fn nat_text(n: nat) -> Seq<char>
    decreases n,
{
    if n < 10 {
        seq![digit_char(n)]
    } else {
        nat_text(n / 10).push(digit_char(n % 10))
    }
}

/// How an integer is written in decimal: a `-` before negative numbers.
pub open spec fn int_text(i: int) -> Seq<char> {
    if i < 0 {
        seq!['-'] + nat_text((-i) as nat)
    } else {
        nat_text(i as nat)
    }
}

pub proof fn lemma_digits_value_push(s: Seq<char>, c: char)
    ensures
        digits_value(s.push(c)) == digits_value(s) * 10 + digit_value(c),
{
    assert(s.push(c).drop_last() == s);
}

/// A digit string is worth at least as much as any of its prefixes.
pub proof fn lemma_digits_value_prefix(s: Seq<char>, k: int)
    requires
        0 <= k <= s.len(),
    ensures
        digits_value(s.take(k)) <= digits_value(s),
    decreases s.len() - k,
{
    if k < s.len() {
        lemma_digits_value_prefix(s, k + 1);
        assert(s.take(k + 1).drop_last() == s.take(k));
    } else {
        assert(s.take(k) == s);
    }
}

/// The text of a natural number is a non-empty digit string worth that
/// number.
pub proof fn lemma_nat_text_digits(n: nat)
    ensures
        nat_text(n).len() > 0,
        all_digits(nat_text(n)),
        digits_value(nat_text(n)) == n,
    decreases n,
{
    if n < 10 {
        let s = nat_text(n);
        assert(s.drop_last() == Seq::<char>::empty());
        assert(digits_value(s.drop_last()) == 0);
    } else {
        lemma_nat_text_digits(n / 10);
        lemma_digits_value_push(nat_text(n / 10), digit_char(n % 10));
    }
}

/// Reading the text of an integer gives the integer back.
pub proof fn lemma_decimal_of_int_text(i: int)
    ensures
        decimal(int_text(i)) == Some(i),
        int_text(i).len() > 0,
        (int_text(i)[0] == '-') == (i < 0),
        int_text(i)[0] != '+',
{
    let s = int_text(i);
    if i < 0 {
        let n = (-i) as nat;
        lemma_nat_text_digits(n);
        assert(unsigned_part(s) == nat_text(n));
    } else {
        lemma_nat_text_digits(i as nat);
        assert(is_digit(s[0]));
        assert(unsigned_part(s) == s);
    }
}

fn digit_of(c: char) -> (d: Option<u64>)
    ensures
        is_digit(c) ==> d == Some(digit_value(c) as u64),
        !is_digit(c) ==> d is None,
{
    if '0' <= c && c <= '9' {
        Some((c as u32 - '0' as u32) as u64)
    } else {
        None
    }
}

fn char_of_digit(d: u64) -> (c: char)
    requires
        d < 10,
    ensures
        c == digit_char(d as nat),
{
    if d == 0 {
        '0'
    } else if d == 1 {
        '1'
    } else if d == 2 {
        '2'
    } else if d == 3 {
        '3'
    } else if d == 4 {
        '4'
    } else if d == 5 {
        '5'
    } else if d == 6 {
        '6'
    } else if d == 7 {
        '7'
    } else if d == 8 {
        '8'
    } else {
        '9'
    }
}

/// Reads the digits of `v` from `start` to the end: the number they
/// denote, unless there is none, another character stands among them, or the
/// number is above `limit`.
fn parse_digits(v: &Vec<char>, start: usize, limit: u64) -> (r: Option<u64>)
    requires
        start <= v.len(),
    ensures
        ({
            let body = v@.subrange(start as int, v.len() as int);
            r == if body.len() > 0 && all_digits(body) && digits_value(body) <= limit {
                Some(digits_value(body) as u64)
            } else {
                None
            }
        }),
{
    let ghost body = v@.subrange(start as int, v.len() as int);
    if start == v.len() {
        return None;
    }
    let mut acc: u64 = 0;
    let mut i: usize = start;
    while i < v.len()
        invariant
            start <= i <= v.len(),
            body == v@.subrange(start as int, v.len() as int),
            all_digits(body.take(i - start)),
            acc == digits_value(body.take(i - start)),
            acc <= limit,
        decreases v.len() - i,
    {
        let ghost seen = body.take(i - start);
        let ghost next = body.take(i - start + 1);
        proof {
            assert(next.drop_last() == seen);
            assert(next.last() == v@[i as int]);
        }
        match digit_of(v[i]) {
            None => {
                assert(!is_digit(body[i - start]));
                return None;
            },
            Some(d) => {
                if d > limit || acc > (limit - d) / 10 {
                    proof {
                        assert(all_digits(body) ==> digits_value(body) > limit) by {
                            lemma_digits_value_prefix(body, i - start + 1);
                            assert(digits_value(next) == acc * 10 + d);
                        }
                    }
                    return None;
                }
                acc = acc * 10 + d;
                assert forall|j: int| 0 <= j < next.len() implies is_digit(#[trigger] next[j]) by {
                    if j < seen.len() {
                        assert(next[j] == seen[j]);
                    }
                }
                i += 1;
            },
        }
    }
    assert(body.take(i - start) == body);
    Some(acc)
}

/// Reads `v` as a signed 64-bit integer in decimal.
pub fn parse_i64(v: &Vec<char>) -> (r: Option<i64>)
    ensures
        r == parse_i64_spec(v@),
{
    if v.len() == 0 {
        return None;
    }
    let negative = v[0] == '-';
    let start: usize = if v[0] == '-' || v[0] == '+' {
        1
    } else {
        0
    };
    assert(v@.subrange(0, v.len() as int) == v@);
    if negative {
        match parse_digits(v, start, 0x8000_0000_0000_0000u64) {
            None => None,
            Some(m) => {
                if m == 0x8000_0000_0000_0000u64 {
                    Some(i64::MIN)
                } else {
                    Some(-(m as i64))
                }
            },
        }
    } else {
        match parse_digits(v, start, 0x7fff_ffff_ffff_ffffu64) {
            None => None,
            Some(m) => Some(m as i64),
        }
    }
}

/// Reads `v` as an unsigned machine word in decimal.
pub fn parse_usize(v: &Vec<char>) -> (r: Option<usize>)
    ensures
        r == parse_usize_spec(v@),
{
    if v.len() == 0 || v[0] == '-' {
        return None;
    }
    let start: usize = if v[0] == '+' {
        1
    } else {
        0
    };
    assert(v@.subrange(0, v.len() as int) == v@);
    match parse_digits(v, start, usize::MAX as u64) {
        None => None,
        Some(m) => Some(m as usize),
    }
}

fn push_nat(out: &mut Vec<char>, n: u64)
    ensures
        final(out)@ == old(out)@ + nat_text(n as nat),
    decreases n,
{
    if n >= 10 {
        push_nat(out, n / 10);
    }
    out.push(char_of_digit(n % 10));
    proof {
        if n < 10 {
            assert(final(out)@ == old(out)@ + seq![digit_char(n as nat)]);
        } else {
            assert(final(out)@ == old(out)@ + nat_text((n / 10) as nat).push(
                digit_char((n % 10) as nat),
            ));
        }
    }
}

/// The decimal digits of `i`, with a `-` in front where it is negative.
pub fn i64_chars(i: i64) -> (out: Vec<char>)
    ensures
        out@ == int_text(i as int),
{
    let mut out: Vec<char> = Vec::new();
    if i < 0 {
        out.push('-');
        let m: u64 = (-(i + 1)) as u64 + 1;
        push_nat(&mut out, m);
    } else {
        push_nat(&mut out, i as u64);
        assert(out@ == nat_text(i as nat));
    }
    out
}

} // verus!
