//! Numbers as they stand in a record: unsigned decimal integers, and
//! floating-point literals kept as validated text.

use vstd::prelude::*;
use vstd::string::StringExecFns;
use crate::text::chars_of;

verus! {

/// Whether `c` is one of the ten decimal digits.
pub open spec fn is_digit(c: char) -> bool {
    '0' <= c && c <= '9'
}

/// The number that a decimal digit stands for; 0 for any other character.
pub open spec fn digit_value(c: char) -> nat {
    if is_digit(c) {
        (c as nat - '0' as nat) as nat
    } else {
        0
    }
}

/// Whether `s` holds decimal digits only.
pub open spec fn all_digits(s: Seq<char>) -> bool {
    forall|i: int| 0 <= i < s.len() ==> is_digit(#[trigger] s[i])
}

/// The number that a run of decimal digits stands for.
pub open spec fn digits_value(s: Seq<char>) -> nat
    decreases s.len(),
{
    if s.len() == 0 {
        0
    } else {
        10 * digits_value(s.drop_last()) + digit_value(s.last())
    }
}

/// `s` without one leading plus sign.
pub open spec fn unsigned_digits(s: Seq<char>) -> Seq<char> {
    if s.len() > 0 && s[0] == '+' {
        s.subrange(1, s.len() as int)
    } else {
        s
    }
}

/// The unsigned integer that `s` denotes, if it denotes one that is at most
/// `max`: an optional plus sign, then one or more decimal digits, nothing else.
pub open spec fn parse_unsigned_spec(s: Seq<char>, max: nat) -> Option<nat> {
    let d = unsigned_digits(s);
    if d.len() > 0 && all_digits(d) && digits_value(d) <= max {
        Some(digits_value(d))
    } else {
        None
    }
}

/// The `u64` that `s` denotes, if any.
pub open spec fn parse_u64_spec(s: Seq<char>) -> Option<u64> {
    match parse_unsigned_spec(s, u64::MAX as nat) {
        Some(v) => Some(v as u64),
        None => None,
    }
}

/// The `u32` that `s` denotes, if any.
pub open spec fn parse_u32_spec(s: Seq<char>) -> Option<u32> {
    match parse_unsigned_spec(s, u32::MAX as nat) {
        Some(v) => Some(v as u32),
        None => None,
    }
}

/// A longer run of digits never stands for a smaller number than its start.
pub proof fn lemma_digits_value_grows(s: Seq<char>, k: int)
    requires
        0 <= k <= s.len(),
    ensures
        digits_value(s.take(k)) <= digits_value(s),
    decreases s.len(),
{
    if k == s.len() {
        assert(s.take(k) =~= s);
    } else {
        lemma_digits_value_grows(s.drop_last(), k);
        assert(s.drop_last().take(k) =~= s.take(k));
    }
}

fn parse_unsigned(chars: &Vec<char>, max: u64) -> (r: Option<u64>)
    ensures
        match r {
            Some(v) => parse_unsigned_spec(chars@, max as nat) == Some(v as nat),
            None => parse_unsigned_spec(chars@, max as nat) is None,
        },
{
    let n = chars.len();
    let begin: usize = if n > 0 && chars[0] == '+' {
        1
    } else {
        0
    };
    let ghost d = unsigned_digits(chars@);
    if begin == n {
        return None;
    }
    let mut acc: u64 = 0;
    let mut i: usize = begin;
    while i < n
        invariant
            n == chars.len(),
            begin <= i <= n,
            d == chars@.subrange(begin as int, n as int),
            d == unsigned_digits(chars@),
            all_digits(d.take(i - begin)),
            acc == digits_value(d.take(i - begin)),
            acc <= max,
        decreases n - i,
    {
        let c = chars[i];
        let ghost k = i - begin;
        proof {
            assert(d[k] == c);
            assert(d.take(k + 1).drop_last() =~= d.take(k));
        }
        if !(c >= '0' && c <= '9') {
            return None;
        }
        let digit: u64 = (c as u64) - ('0' as u64);
        let wide: u128 = (acc as u128) * 10 + (digit as u128);
        if wide > max as u128 {
            proof {
                lemma_digits_value_grows(d, k + 1);
            }
            return None;
        }
        acc = wide as u64;
        i = i + 1;
    }
    proof {
        assert(d.take(n - begin) =~= d);
    }
    Some(acc)
}

/// Reads an unsigned 64-bit decimal integer: an optional plus sign followed
/// by digits only.
pub fn parse_u64(entry: &str) -> (r: Option<u64>)
    ensures
        r == parse_u64_spec(entry@),
{
    let chars = chars_of(entry);
    parse_unsigned(&chars, u64::MAX)
}

/// Reads an unsigned 32-bit decimal integer: an optional plus sign followed
/// by digits only.
pub fn parse_u32(entry: &str) -> (r: Option<u32>)
    ensures
        r == parse_u32_spec(entry@),
{
    let chars = chars_of(entry);
    match parse_unsigned(&chars, 0xffff_ffff) {
        Some(v) => Some(v as u32),
        None => None,
    }
}

/// Whether `c` is a plus or a minus sign.
pub open spec fn is_sign(c: char) -> bool {
    c == '+' || c == '-'
}

/// The first position at or after `from` at which `s` holds no digit.
pub open spec fn digits_end(s: Seq<char>, from: int) -> int
    decreases s.len() - from,
{
    if 0 <= from < s.len() && is_digit(s[from]) {
        digits_end(s, from + 1)
    } else {
        from
    }
}

/// Whether `s` spells `lower`, each letter in either case.
pub open spec fn is_word(s: Seq<char>, lower: Seq<char>, upper: Seq<char>) -> bool {
    s.len() == lower.len() && forall|i: int|
        0 <= i < s.len() ==> (#[trigger] s[i] == lower[i] || s[i] == upper[i])
}

/// Whether `s` names an infinity or a not-a-number, in any mix of cases.
pub open spec fn is_special(s: Seq<char>) -> bool {
    ||| is_word(s, seq!['i', 'n', 'f'], seq!['I', 'N', 'F'])
    ||| is_word(s, seq!['n', 'a', 'n'], seq!['N', 'A', 'N'])
    ||| is_word(
        s,
        seq!['i', 'n', 'f', 'i', 'n', 'i', 't', 'y'],
        seq!['I', 'N', 'F', 'I', 'N', 'I', 'T', 'Y'],
    )
}

/// Whether an exponent starts at `at` and runs to the end of `s`: the letter
/// e in either case, an optional sign, then one or more digits.
pub open spec fn is_exponent_at(s: Seq<char>, at: int) -> bool {
    let start = if at + 1 < s.len() && is_sign(s[at + 1]) {
        at + 2
    } else {
        at + 1
    };
    &&& 0 <= at < s.len()
    &&& (s[at] == 'e' || s[at] == 'E')
    &&& start < s.len()
    &&& is_digit(s[start])
    &&& digits_end(s, start) == s.len()
}

/// Whether `s` from `from` on is a decimal number: digits with at most one
/// point among them, at least one digit before or after the point, then an
/// optional exponent.
pub open spec fn is_decimal_at(s: Seq<char>, from: int) -> bool {
    let int_end = digits_end(s, from);
    let frac_start = if int_end < s.len() && s[int_end] == '.' {
        int_end + 1
    } else {
        int_end
    };
    let frac_end = digits_end(s, frac_start);
    &&& (int_end - from) + (frac_end - frac_start) > 0
    &&& (frac_end == s.len() || is_exponent_at(s, frac_end))
}

/// Whether `s` is a floating-point literal: an optional sign, then either a
/// decimal number or the name of an infinity or of a not-a-number.
pub open spec fn is_float_literal(s: Seq<char>) -> bool {
    let from: int = if s.len() > 0 && is_sign(s[0]) {
        1
    } else {
        0
    };
    from < s.len() && (is_decimal_at(s, from) || is_special(s.subrange(from, s.len() as int)))
}

fn skip_digits(chars: &Vec<char>, from: usize) -> (to: usize)
    requires
        from <= chars.len(),
    ensures
        to == digits_end(chars@, from as int),
        from <= to <= chars.len(),
{
    let n = chars.len();
    let mut i: usize = from;
    while i < n && chars[i] >= '0' && chars[i] <= '9'
        invariant
            n == chars.len(),
            from <= i <= n,
            digits_end(chars@, from as int) == digits_end(chars@, i as int),
        decreases n - i,
    {
        i = i + 1;
    }
    i
}

fn letter_at(chars: &Vec<char>, at: usize, lower: char, upper: char) -> (r: bool)
    requires
        at < chars.len(),
    ensures
        r == (chars@[at as int] == lower || chars@[at as int] == upper),
{
    chars[at] == lower || chars[at] == upper
}

fn special_at(chars: &Vec<char>, from: usize) -> (r: bool)
    requires
        from <= chars.len(),
    ensures
        r == is_special(chars@.subrange(from as int, chars.len() as int)),
{
    let n = chars.len();
    let ghost rest = chars@.subrange(from as int, n as int);
    if n - from == 3 {
        let inf = letter_at(chars, from, 'i', 'I') && letter_at(chars, from + 1, 'n', 'N')
            && letter_at(chars, from + 2, 'f', 'F');
        let nan = letter_at(chars, from, 'n', 'N') && letter_at(chars, from + 1, 'a', 'A')
            && letter_at(chars, from + 2, 'n', 'N');
        proof {
            assert(rest[0] == chars@[from as int]);
            assert(rest[1] == chars@[from + 1]);
            assert(rest[2] == chars@[from + 2]);
        }
        inf || nan
    } else if n - from == 8 {
        let r = letter_at(chars, from, 'i', 'I') && letter_at(chars, from + 1, 'n', 'N')
            && letter_at(chars, from + 2, 'f', 'F') && letter_at(chars, from + 3, 'i', 'I')
            && letter_at(chars, from + 4, 'n', 'N') && letter_at(chars, from + 5, 'i', 'I')
            && letter_at(chars, from + 6, 't', 'T') && letter_at(chars, from + 7, 'y', 'Y');
        proof {
            assert(rest[0] == chars@[from as int]);
            assert(rest[1] == chars@[from + 1]);
            assert(rest[2] == chars@[from + 2]);
            assert(rest[3] == chars@[from + 3]);
            assert(rest[4] == chars@[from + 4]);
            assert(rest[5] == chars@[from + 5]);
            assert(rest[6] == chars@[from + 6]);
            assert(rest[7] == chars@[from + 7]);
        }
        r
    } else {
        false
    }
}

fn exponent_at(chars: &Vec<char>, at: usize) -> (r: bool)
    requires
        at < chars.len(),
    ensures
        r == is_exponent_at(chars@, at as int),
{
    let n = chars.len();
    if !(chars[at] == 'e' || chars[at] == 'E') {
        return false;
    }
    let start: usize = if at + 1 < n && (chars[at + 1] == '+' || chars[at + 1] == '-') {
        at + 2
    } else {
        at + 1
    };
    if start >= n {
        return false;
    }
    if !(chars[start] >= '0' && chars[start] <= '9') {
        return false;
    }
    skip_digits(chars, start) == n
}

/// Tests whether `entry` is a floating-point literal.
pub fn is_float(entry: &str) -> (r: bool)
    ensures
        r == is_float_literal(entry@),
{
    let chars = chars_of(entry);
    let n = chars.len();
    let from: usize = if n > 0 && (chars[0] == '+' || chars[0] == '-') {
        1
    } else {
        0
    };
    if from >= n {
        return false;
    }
    let int_end = skip_digits(&chars, from);
    let frac_start: usize = if int_end < n && chars[int_end] == '.' {
        int_end + 1
    } else {
        int_end
    };
    let frac_end = skip_digits(&chars, frac_start);
    let decimal = (int_end - from) + (frac_end - frac_start) > 0 && (frac_end == n || exponent_at(
        &chars,
        frac_end,
    ));
    decimal || special_at(&chars, from)
}

/// A floating-point number kept as the literal that denotes it.
#[derive(Debug, Clone, PartialEq, Eq)]
pub struct Real {
    pub text: String,
}

impl View for Real {
    type V = Seq<char>;

    open spec fn view(&self) -> Seq<char> {
        self.text@
    }
}

impl Real {
    /// The text is a floating-point literal.
    pub open spec fn wf(&self) -> bool {
        is_float_literal(self.text@)
    }

    /// Keeps `entry` if it is a floating-point literal.
    pub fn parse(entry: &str) -> (r: Option<Real>)
        ensures
            r is Some == is_float_literal(entry@),
            r matches Some(x) ==> x@ == entry@ && x.wf(),
    {
        if is_float(entry) {
            Some(Real { text: String::from_str(entry) })
        } else {
            None
        }
    }

    /// The literal.
    pub fn as_str(&self) -> (s: &str)
        ensures
            s@ == self@,
    {
        self.text.as_str()
    }
}

} // verus!
