//! Numbers and truth values written as text, read the way the standard
//! library's `FromStr` reads them, after trimming white space.

use vstd::prelude::*;
use vstd::string::*;

use crate::note::{decimal_value, digit_value, is_digit, lemma_decimal_value_grows};
use crate::text::{trim_chars, trimmed};

verus! {

/// Whether every character of `d` is an ASCII digit.
pub open spec fn all_digits(d: Seq<char>) -> bool {
    forall|k: int| 0 <= k < d.len() ==> is_digit(#[trigger] d[k])
}

/// The value of `s` as an `i64` is written: an optional `+` or `-`, then
/// one or more ASCII digits, and a value that fits in an `i64`.
pub open spec fn int_text(s: Seq<char>) -> Option<int> {
    let signed = s.len() > 0 && (s[0] == '+' || s[0] == '-');
    let digits = if signed {
        s.drop_first()
    } else {
        s
    };
    let magnitude = decimal_value(digits) as int;
    let v = if signed && s[0] == '-' {
        -magnitude
    } else {
        magnitude
    };
    if digits.len() == 0 || !all_digits(digits) || v < i64::MIN || v > i64::MAX {
        None
    } else {
        Some(v)
    }
}

/// The truth value `s` spells: exactly `true` or `false`.
pub open spec fn bool_text(s: Seq<char>) -> Option<bool> {
    if s == "true"@ {
        Some(true)
    } else if s == "false"@ {
        Some(false)
    } else {
        None
    }
}

/// Reads `chars` as an `i64` (`i64::from_str`).
fn parse_int_chars(chars: &Vec<char>) -> (r: Option<i64>)
    ensures
        match r {
            Some(n) => int_text(chars@) == Some(n as int),
            None => int_text(chars@) is None,
        },
{
    let n = chars.len();
    let signed = n > 0 && (chars[0] == '+' || chars[0] == '-');
    let negative = signed && chars[0] == '-';
    let start: usize = if signed {
        1
    } else {
        0
    };
    let ghost digits = if signed {
        chars@.drop_first()
    } else {
        chars@
    };
    assert(digits =~= chars@.subrange(start as int, n as int));
    if start >= n {
        return None;
    }
    let limit: u64 = 9223372036854775808;
    let mut acc: u64 = 0;
    let mut big = false;
    let mut i = start;
    while i < n
        invariant
            n == chars@.len(),
            start <= i <= n,
            digits == chars@.subrange(start as int, n as int),
            digits == (if chars@.len() > 0 && (chars@[0] == '+' || chars@[0] == '-') {
                chars@.drop_first()
            } else {
                chars@
            }),
            forall|k: int| start <= k < i ==> is_digit(#[trigger] chars@[k]),
            big ==> decimal_value(chars@.subrange(start as int, i as int)) > limit,
            !big ==> acc as nat == decimal_value(chars@.subrange(start as int, i as int)),
            !big ==> acc <= limit,
            limit == 9223372036854775808u64,
        decreases n - i,
    {
        let c = chars[i];
        if c < '0' || c > '9' {
            assert(digits[i - start] == c);
            assert(!is_digit(digits[i - start]));
            assert(!all_digits(digits));
            return None;
        }
        let d = (c as u64) - ('0' as u64);
        proof {
            assert(chars@.subrange(start as int, i + 1) =~= chars@.subrange(start as int, i as int).push(c));
            lemma_decimal_value_grows(chars@.subrange(start as int, i as int), c);
        }
        if !big {
            if acc > (limit - d) / 10 {
                big = true;
            } else {
                acc = acc * 10 + d;
            }
        }
        i = i + 1;
    }
    assert(all_digits(digits));
    assert(chars@.subrange(start as int, n as int) == digits);
    if big {
        return None;
    }
    if negative {
        if acc == limit {
            Some(-9223372036854775807i64 - 1)
        } else {
            let v: i64 = acc as i64;
            Some(-v)
        }
    } else if acc < limit {
        Some(acc as i64)
    } else {
        None
    }
}

/// Reads `s`, trimmed, as an `i64` (`s.trim().parse::<i64>()`).
pub fn read_int(s: &str) -> (r: Option<i64>)
    ensures
        match r {
            Some(n) => int_text(trimmed(s@)) == Some(n as int),
            None => int_text(trimmed(s@)) is None,
        },
{
    let chars = trim_chars(s);
    parse_int_chars(&chars)
}

/// Whether the characters of `v` are those of `lit`.
fn chars_are(v: &Vec<char>, lit: &str) -> (r: bool)
    ensures
        r == (v@ == lit@),
{
    let l = crate::text::chars_of(lit);
    if v.len() != l.len() {
        return false;
    }
    let mut i: usize = 0;
    while i < v.len()
        invariant
            l@ == lit@,
            v@.len() == l@.len(),
            i <= v@.len(),
            forall|k: int| 0 <= k < i ==> v@[k] == l@[k],
        decreases v.len() - i,
    {
        if v[i] != l[i] {
            return false;
        }
        i = i + 1;
    }
    assert(v@ =~= l@);
    true
}

/// Reads `s`, trimmed, as a truth value (`s.trim().parse::<bool>()`).
pub fn read_bool(s: &str) -> (r: Option<bool>)
    ensures
        r == bool_text(trimmed(s@)),
{
    let chars = trim_chars(s);
    if chars_are(&chars, "true") {
        Some(true)
    } else if chars_are(&chars, "false") {
        Some(false)
    } else {
        None
    }
}

} // verus!
