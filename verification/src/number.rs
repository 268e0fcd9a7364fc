//! Numerals in text: the grammar of floating-point literals, integers,
//! and the comparison of decimal numerals.
//!
//! Nothing here computes with floating-point values. Whether a text is a
//! float literal is decided by grammar. Two numerals are compared as
//! numbers when both are plain decimals of at most eighteen digits.

use crate::text::{
    ascii_lower, char_is_digit, chars_of, copy_range, is_digit, same, to_ascii_lower,
};
use vstd::prelude::*;

verus! {

// ---------------------------------------------------------------------------
// The grammar of float literals
// ---------------------------------------------------------------------------

/// Whether `c` is a sign.
pub open spec fn is_sign(c: char) -> bool {
    c == '+' || c == '-'
}

/// The number of digits of `s` from index `from` on, up to the first
/// character that is no digit.
pub open spec fn digit_run(s: Seq<char>, from: int) -> nat
    decreases s.len() - from,
{
    if 0 <= from < s.len() && is_digit(s[from]) {
        1 + digit_run(s, from + 1)
    } else {
        0
    }
}

/// Whether `t`, lower-cased, names an infinity or a NaN.
pub open spec fn is_special_float(t: Seq<char>) -> bool {
    let l = ascii_lower(t);
    l == "inf"@ || l == "infinity"@ || l == "nan"@
}

/// Whether `t[from..]` is empty or an exponent: `e` or `E`, an optional
/// sign, and at least one digit, up to the end of `t`.
pub open spec fn is_exponent_or_end(t: Seq<char>, from: int) -> bool {
    if from == t.len() {
        true
    } else if 0 <= from < t.len() && (t[from] == 'e' || t[from] == 'E') {
        let at = if from + 1 < t.len() && is_sign(t[from + 1]) {
            from + 2
        } else {
            from + 1
        };
        digit_run(t, at) > 0 && at + digit_run(t, at) == t.len()
    } else {
        false
    }
}

/// Whether `t` is an unsigned decimal number: digits, optionally a point
/// and more digits, with at least one digit in all, and optionally an
/// exponent.
pub open spec fn is_float_body(t: Seq<char>) -> bool {
    let whole = digit_run(t, 0) as int;
    if whole < t.len() && t[whole] == '.' {
        let fraction = digit_run(t, whole + 1) as int;
        whole + fraction > 0 && is_exponent_or_end(t, whole + 1 + fraction)
    } else {
        whole > 0 && is_exponent_or_end(t, whole)
    }
}

/// `s` without a leading sign.
pub open spec fn unsigned_part(s: Seq<char>) -> Seq<char> {
    if s.len() > 0 && is_sign(s[0]) {
        s.skip(1)
    } else {
        s
    }
}

/// Whether `s` is a float literal: an optional sign, then `inf`,
/// `infinity` or `nan` in any case, or a decimal number with an optional
/// exponent. No white space is allowed.
pub open spec fn is_float_literal(s: Seq<char>) -> bool {
    let t = unsigned_part(s);
    is_special_float(t) || is_float_body(t)
}

/// A run of digits ends within the text, holds digits only, and is
/// followed by a character that is no digit, if by any.
pub proof fn lemma_digit_run(s: Seq<char>, from: int)
    requires
        0 <= from <= s.len(),
    ensures
        from + digit_run(s, from) <= s.len(),
        forall|j: int| from <= j < from + digit_run(s, from) ==> is_digit(s[j]),
        from + digit_run(s, from) < s.len() ==> !is_digit(s[from + digit_run(s, from)]),
    decreases s.len() - from,
{
    if from < s.len() && is_digit(s[from]) {
        lemma_digit_run(s, from + 1);
    }
}

/// The index of the first character at or after `from` that is no digit.
pub fn skip_digits(s: &[char], from: usize) -> (r: usize)
    requires
        from <= s.len(),
    ensures
        r == from + digit_run(s@, from as int),
        from <= r <= s.len(),
{
    let mut i: usize = from;
    while i < s.len() && char_is_digit(s[i])
        invariant
            from <= i <= s.len(),
            from + digit_run(s@, from as int) == i + digit_run(s@, i as int),
        decreases s.len() - i,
    {
        i += 1;
    }
    i
}

fn exponent_or_end(t: &[char], from: usize) -> (r: bool)
    requires
        from <= t.len(),
    ensures
        r == is_exponent_or_end(t@, from as int),
{
    if from == t.len() {
        return true;
    }
    if !(t[from] == 'e' || t[from] == 'E') {
        return false;
    }
    let at: usize = if from + 1 < t.len() && (t[from + 1] == '+' || t[from + 1] == '-') {
        from + 2
    } else {
        from + 1
    };
    let end = skip_digits(t, at);
    end > at && end == t.len()
}

fn float_body(t: &[char]) -> (r: bool)
    ensures
        r == is_float_body(t@),
{
    let whole = skip_digits(t, 0);
    if whole < t.len() && t[whole] == '.' {
        let end = skip_digits(t, whole + 1);
        let fraction = end - (whole + 1);
        whole + fraction > 0 && exponent_or_end(t, end)
    } else {
        whole > 0 && exponent_or_end(t, whole)
    }
}

fn special_float(t: &[char]) -> (r: bool)
    ensures
        r == is_special_float(t@),
{
    let l = to_ascii_lower(t);
    let a = chars_of("inf");
    let b = chars_of("infinity");
    let c = chars_of("nan");
    same(l.as_slice(), a.as_slice()) || same(l.as_slice(), b.as_slice()) || same(
        l.as_slice(),
        c.as_slice(),
    )
}

/// Whether `s` is a float literal.
pub fn float_literal(s: &[char]) -> (r: bool)
    ensures
        r == is_float_literal(s@),
{
    if s.len() > 0 && (s[0] == '+' || s[0] == '-') {
        let t = copy_range(s, 1, s.len());
        assert(t@ == s@.skip(1));
        special_float(t.as_slice()) || float_body(t.as_slice())
    } else {
        special_float(s) || float_body(s)
    }
}

// ---------------------------------------------------------------------------
// Integers
// ---------------------------------------------------------------------------

/// The value of the digit `c`.
pub open spec fn digit_value(c: char) -> int {
    c as int - '0' as int
}

/// The number that the digits `s` spell.
pub open spec fn digits_value(s: Seq<char>) -> int
    decreases s.len(),
{
    if s.len() == 0 {
        0
    } else {
        digits_value(s.drop_last()) * 10 + digit_value(s.last())
    }
}

/// Whether every character of `s` is a digit.
pub open spec fn all_digits(s: Seq<char>) -> bool {
    forall|i: int| 0 <= i < s.len() ==> is_digit(#[trigger] s[i])
}

/// The integer that `s` spells, if it is one in the range of 64-bit
/// signed integers: an optional sign and at least one digit.
pub open spec fn signed_value(s: Seq<char>) -> Option<int> {
    let t = unsigned_part(s);
    if t.len() > 0 && all_digits(t) {
        let v = if s[0] == '-' {
            -digits_value(t)
        } else {
            digits_value(t)
        };
        if i64::MIN <= v <= i64::MAX {
            Some(v)
        } else {
            None
        }
    } else {
        None
    }
}

/// The integer that `s` spells, if it is one in the range of 64-bit
/// unsigned integers: an optional `+` and at least one digit.
pub open spec fn unsigned_value(s: Seq<char>) -> Option<int> {
    let t = if s.len() > 0 && s[0] == '+' {
        s.skip(1)
    } else {
        s
    };
    if t.len() > 0 && all_digits(t) && digits_value(t) <= u64::MAX {
        Some(digits_value(t))
    } else {
        None
    }
}

/// Digits spell a number that is not negative.
pub proof fn lemma_digits_value_nonnegative(s: Seq<char>)
    requires
        all_digits(s),
    ensures
        digits_value(s) >= 0,
    decreases s.len(),
{
    if s.len() > 0 {
        let t = s.drop_last();
        assert forall|i: int| 0 <= i < t.len() implies is_digit(#[trigger] t[i]) by {
            assert(t[i] == s[i]);
        }
        lemma_digits_value_nonnegative(t);
    }
}

/// A longer run of digits spells a number that is no smaller than what
/// its prefix spells.
pub proof fn lemma_digits_value_grows(s: Seq<char>, n: int)
    requires
        all_digits(s),
        0 <= n <= s.len(),
    ensures
        digits_value(s.take(n)) <= digits_value(s),
    decreases s.len() - n,
{
    if n < s.len() {
        let t = s.drop_last();
        assert forall|i: int| 0 <= i < t.len() implies is_digit(#[trigger] t[i]) by {
            assert(t[i] == s[i]);
        }
        lemma_digits_value_grows(t, n);
        assert(t.take(n) == s.take(n));
        lemma_digits_value_nonnegative(t);
    } else {
        assert(s.take(n) == s);
    }
}

/// The number that the digits of `s[from..]` spell, if all of them are
/// digits and the number is at most `limit`.
fn read_digits(s: &[char], from: usize, limit: u64) -> (r: Option<u64>)
    requires
        from <= s.len(),
    ensures
        match r {
            Some(v) => all_digits(s@.skip(from as int)) && v == digits_value(s@.skip(from as int))
                && v <= limit,
            None => !all_digits(s@.skip(from as int)) || digits_value(s@.skip(from as int))
                > limit,
        },
{
    let ghost t = s@.skip(from as int);
    let mut v: u64 = 0;
    let mut i: usize = from;
    assert(t.take(0) =~= Seq::<char>::empty());
    while i < s.len()
        invariant
            from <= i <= s.len(),
            t == s@.skip(from as int),
            all_digits(t.take(i - from)),
            v == digits_value(t.take(i - from)),
            v <= limit,
        decreases s.len() - i,
    {
        let c = s[i];
        assert(t[i - from] == c);
        if !char_is_digit(c) {
            return None;
        }
        let d: u64 = (c as u32 - '0' as u32) as u64;
        assert(t.take(i - from + 1).drop_last() == t.take(i - from));
        assert(all_digits(t.take(i - from + 1))) by {
            assert forall|k: int| 0 <= k < i - from + 1 implies is_digit(
                #[trigger] t.take(i - from + 1)[k],
            ) by {
                if k < i - from {
                    assert(t.take(i - from + 1)[k] == t.take(i - from)[k]);
                }
            }
        }
        if limit < d || v > (limit - d) / 10 {
            proof {
                // The prefix already exceeds the limit, so does the whole.
                if all_digits(t) {
                    lemma_digits_value_grows(t, i - from + 1);
                    assert(digits_value(t.take(i - from + 1)) == v * 10 + d);
                }
            }
            return None;
        }
        v = v * 10 + d;
        i += 1;
    }
    assert(t.take(i - from) == t);
    Some(v)
}

/// Reads a signed 64-bit integer: an optional sign and digits.
pub fn parse_signed(s: &[char]) -> (r: Option<i64>)
    ensures
        match r {
            Some(v) => signed_value(s@) == Some(v as int),
            None => signed_value(s@) is None,
        },
{
    if s.len() == 0 {
        return None;
    }
    let negative = s[0] == '-';
    let from: usize = if s[0] == '+' || s[0] == '-' {
        1
    } else {
        0
    };
    if from == s.len() {
        assert(s@.skip(1).len() == 0);
        return None;
    }
    assert(unsigned_part(s@) == s@.skip(from as int)) by {
        if from == 0 {
            assert(s@.skip(0) == s@);
        }
    }
    proof {
        if all_digits(s@.skip(from as int)) {
            lemma_digits_value_nonnegative(s@.skip(from as int));
        }
    }
    if negative {
        match read_digits(s, from, 9_223_372_036_854_775_808u64) {
            Some(v) => {
                if v == 9_223_372_036_854_775_808u64 {
                    Some(i64::MIN)
                } else {
                    Some(-(v as i64))
                }
            },
            None => None,
        }
    } else {
        match read_digits(s, from, 9_223_372_036_854_775_807u64) {
            Some(v) => Some(v as i64),
            None => None,
        }
    }
}

/// Reads an unsigned 64-bit integer: an optional `+` and digits.
pub fn parse_unsigned(s: &[char]) -> (r: Option<u64>)
    ensures
        match r {
            Some(v) => unsigned_value(s@) == Some(v as int),
            None => unsigned_value(s@) is None,
        },
{
    let from: usize = if s.len() > 0 && s[0] == '+' {
        1
    } else {
        0
    };
    if from == s.len() {
        assert(s@.skip(from as int).len() == 0);
        return None;
    }
    assert(s@.skip(0) == s@);
    read_digits(s, from, u64::MAX)
}

/// The decimal digits of `n`, most significant first; `0` for zero.
pub open spec fn decimal_text(n: nat) -> Seq<char>
    decreases n,
{
    if n < 10 {
        seq![(('0' as u8) + (n as u8)) as char]
    } else {
        decimal_text(n / 10).push((('0' as u8) + ((n % 10) as u8)) as char)
    }
}

/// The decimal digits of `n`.
pub fn to_decimal_text(n: u128) -> (v: Vec<char>)
    ensures
        v@ == decimal_text(n as nat),
{
    let mut reversed: Vec<char> = Vec::new();
    let mut m: u128 = n;
    // Collect the digits from the least significant one.
    while m >= 10
        invariant
            decimal_text(n as nat) == decimal_text(m as nat) + reversed@.reverse(),
        decreases m,
    {
        let d: u8 = (m % 10) as u8;
        let c: char = (('0' as u8) + d) as char;
        let ghost before = reversed@;
        reversed.push(c);
        assert(reversed@.reverse() =~= seq![c] + before.reverse());
        assert(decimal_text(m as nat) == decimal_text((m / 10) as nat).push(c));
        assert(decimal_text((m / 10) as nat).push(c) + before.reverse() =~= decimal_text(
            (m / 10) as nat,
        ) + (seq![c] + before.reverse()));
        m = m / 10;
    }
    let first: char = (('0' as u8) + (m as u8)) as char;
    let mut v: Vec<char> = Vec::new();
    v.push(first);
    let mut i: usize = reversed.len();
    while i > 0
        invariant
            i <= reversed.len(),
            v@ == seq![first] + reversed@.reverse().take(reversed.len() - i),
        decreases i,
    {
        i -= 1;
        v.push(reversed[i]);
        assert(v@ =~= seq![first] + reversed@.reverse().take(reversed.len() - i));
    }
    assert(reversed@.reverse().take(reversed.len() as int) == reversed@.reverse());
    v
}

// ---------------------------------------------------------------------------
// Decimal numerals
// ---------------------------------------------------------------------------

/// The largest number of digits of a numeral that is compared as a number.
pub const MAX_DECIMAL_DIGITS: usize = 18;

/// A decimal: `mantissa` divided by ten to the power `scale`.
pub struct Decimal {
    pub mantissa: int,
    pub scale: nat,
}

/// Ten to the power `n`.
pub open spec fn pow10(n: nat) -> int
    decreases n,
{
    if n == 0 {
        1
    } else {
        10 * pow10((n - 1) as nat)
    }
}

/// The decimal that `s` spells, if `s` is a plain decimal numeral: an
/// optional sign, digits, optionally a point and more digits, with at
/// least one and at most eighteen digits in all, and nothing else.
pub open spec fn decimal_of(s: Seq<char>) -> Option<Decimal> {
    let t = unsigned_part(s);
    let whole = digit_run(t, 0) as int;
    let has_point = whole < t.len() && t[whole] == '.';
    let fraction = if has_point {
        digit_run(t, whole + 1) as int
    } else {
        0
    };
    let end = if has_point {
        whole + 1 + fraction
    } else {
        whole
    };
    if end == t.len() && 0 < whole + fraction <= MAX_DECIMAL_DIGITS {
        let digits = t.subrange(0, whole) + t.subrange(end - fraction, end);
        let m = digits_value(digits);
        Some(
            Decimal {
                mantissa: if s[0] == '-' {
                    -m
                } else {
                    m
                },
                scale: fraction as nat,
            },
        )
    } else {
        None
    }
}

/// The sign of `a - b`: -1, 0 or 1.
pub open spec fn decimal_order(a: Decimal, b: Decimal) -> int {
    let x = a.mantissa * pow10(b.scale);
    let y = b.mantissa * pow10(a.scale);
    if x < y {
        -1
    } else if x == y {
        0
    } else {
        1
    }
}

/// A decimal in machine integers.
#[derive(Clone, Copy, Debug)]
pub struct MachineDecimal {
    pub mantissa: i128,
    pub scale: u8,
}

impl View for MachineDecimal {
    type V = Decimal;

    open spec fn view(&self) -> Decimal {
        Decimal { mantissa: self.mantissa as int, scale: self.scale as nat }
    }
}

/// `n` digits spell a number below ten to the power `n`.
pub proof fn lemma_digits_value_bound(s: Seq<char>)
    requires
        all_digits(s),
    ensures
        0 <= digits_value(s) < pow10(s.len()),
    decreases s.len(),
{
    if s.len() > 0 {
        let t = s.drop_last();
        assert forall|i: int| 0 <= i < t.len() implies is_digit(#[trigger] t[i]) by {
            assert(t[i] == s[i]);
        }
        lemma_digits_value_bound(t);
        assert(is_digit(s[s.len() - 1]));
    }
}

/// The powers of ten are positive and grow with the exponent.
pub proof fn lemma_pow10_monotonic(a: nat, b: nat)
    requires
        a <= b,
    ensures
        0 < pow10(a) <= pow10(b),
    decreases b,
{
    if b > 0 {
        if a < b {
            lemma_pow10_monotonic(a, (b - 1) as nat);
        } else {
            lemma_pow10_monotonic((a - 1) as nat, (b - 1) as nat);
        }
    }
}

/// Ten to the power eighteen, written out.
pub proof fn lemma_pow10_18()
    ensures
        pow10(18) == 1_000_000_000_000_000_000,
{
    reveal_with_fuel(pow10, 19);
}

/// Ten to the power `n`.
fn power_of_ten(n: u8) -> (r: i128)
    requires
        n <= 18,
    ensures
        r == pow10(n as nat),
        0 < r <= 1_000_000_000_000_000_000,
{
    let mut r: i128 = 1;
    let mut i: u8 = 0;
    proof {
        lemma_pow10_18();
    }
    while i < n
        invariant
            i <= n <= 18,
            r == pow10(i as nat),
            0 < r,
            pow10(18) == 1_000_000_000_000_000_000,
        decreases n - i,
    {
        proof {
            lemma_pow10_monotonic((i + 1) as nat, 18);
        }
        r = r * 10;
        i += 1;
    }
    proof {
        lemma_pow10_monotonic(n as nat, 18);
    }
    r
}

/// Reads a plain decimal numeral of at most eighteen digits.
pub fn parse_decimal(s: &[char]) -> (r: Option<MachineDecimal>)
    ensures
        match r {
            Some(d) => decimal_of(s@) == Some(d@) && -pow10(18) < d.mantissa < pow10(18)
                && d.scale <= 18,
            None => decimal_of(s@) is None,
        },
{
    let negative = s.len() > 0 && s[0] == '-';
    let from: usize = if s.len() > 0 && (s[0] == '+' || s[0] == '-') {
        1
    } else {
        0
    };
    let t = copy_range(s, from, s.len());
    assert(t@ == unsigned_part(s@)) by {
        if from == 0 {
            assert(s@.subrange(0, s@.len() as int) == s@);
        }
    }
    let whole = skip_digits(t.as_slice(), 0);
    let has_point = whole < t.len() && t[whole] == '.';
    let end: usize = if has_point {
        skip_digits(t.as_slice(), whole + 1)
    } else {
        whole
    };
    let fraction: usize = if has_point {
        end - (whole + 1)
    } else {
        0
    };
    if end != t.len() || whole + fraction == 0 || whole + fraction > MAX_DECIMAL_DIGITS {
        return None;
    }
    let ghost digits = t@.subrange(0, whole as int) + t@.subrange(end - fraction, end as int);
    proof {
        lemma_digit_run(t@, 0);
        if has_point {
            lemma_digit_run(t@, whole + 1);
        }
        assert(all_digits(digits)) by {
            assert forall|i: int| 0 <= i < digits.len() implies is_digit(#[trigger] digits[i]) by {
                if i < whole {
                    assert(digits[i] == t@[i]);
                } else {
                    assert(digits[i] == t@[end - fraction + (i - whole)]);
                }
            }
        }
        lemma_digits_value_bound(digits);
        lemma_pow10_monotonic(digits.len(), 18);
        lemma_pow10_18();
    }
    let mut m: i128 = 0;
    let mut i: usize = 0;
    assert(digits.take(0) =~= Seq::<char>::empty());
    while i < whole
        invariant
            i <= whole <= t.len(),
            whole + fraction <= 18,
            fraction <= end <= t.len(),
            digits.len() == whole + fraction,
            digits == t@.subrange(0, whole as int) + t@.subrange(end - fraction, end as int),
            all_digits(digits),
            m == digits_value(digits.take(i as int)),
            0 <= m < pow10(18),
            pow10(18) == 1_000_000_000_000_000_000,
        decreases whole - i,
    {
        let c = t[i];
        assert(digits[i as int] == c);
        assert(digits.take(i + 1).drop_last() == digits.take(i as int));
        proof {
            lemma_digits_value_grows(digits, i + 1);
            lemma_digits_value_bound(digits);
            lemma_pow10_monotonic(digits.len(), 18);
        }
        m = m * 10 + ((c as u32 - '0' as u32) as i128);
        i += 1;
    }
    let mut j: usize = 0;
    while j < fraction
        invariant
            j <= fraction,
            whole + fraction <= 18,
            whole <= t.len(),
            fraction <= end <= t.len(),
            digits.len() == whole + fraction,
            digits == t@.subrange(0, whole as int) + t@.subrange(end - fraction, end as int),
            all_digits(digits),
            m == digits_value(digits.take(whole + j)),
            0 <= m < pow10(18),
            pow10(18) == 1_000_000_000_000_000_000,
        decreases fraction - j,
    {
        let c = t[end - fraction + j];
        assert(digits[whole + j] == c);
        assert(digits.take(whole + j + 1).drop_last() == digits.take(whole + j));
        proof {
            lemma_digits_value_grows(digits, whole + j + 1);
            lemma_digits_value_bound(digits);
            lemma_pow10_monotonic(digits.len(), 18);
        }
        m = m * 10 + ((c as u32 - '0' as u32) as i128);
        j += 1;
    }
    assert(digits.take(whole + fraction) == digits);
    let mantissa: i128 = if negative {
        -m
    } else {
        m
    };
    Some(MachineDecimal { mantissa, scale: fraction as u8 })
}

/// The sign of the difference of two numerals, if both are plain decimal
/// numerals of at most eighteen digits.
pub open spec fn numeral_order(a: Seq<char>, b: Seq<char>) -> Option<int> {
    match (decimal_of(a), decimal_of(b)) {
        (Some(x), Some(y)) => Some(decimal_order(x, y)),
        _ => None,
    }
}

/// Compares two numerals as numbers: -1, 0 or 1 for the sign of `a - b`,
/// or `None` if one of them is no plain decimal numeral of at most
/// eighteen digits.
pub fn compare_numerals(a: &[char], b: &[char]) -> (r: Option<i8>)
    ensures
        match r {
            Some(sign) => numeral_order(a@, b@) == Some(sign as int),
            None => numeral_order(a@, b@) is None,
        },
{
    match parse_decimal(a) {
        Some(x) => match parse_decimal(b) {
            Some(y) => Some(order_decimals(x, y)),
            None => None,
        },
        None => None,
    }
}

/// The sign of `a - b`: -1, 0 or 1.
fn order_decimals(a: MachineDecimal, b: MachineDecimal) -> (r: i8)
    requires
        -pow10(18) < a.mantissa < pow10(18),
        -pow10(18) < b.mantissa < pow10(18),
        a.scale <= 18,
        b.scale <= 18,
    ensures
        r == decimal_order(a@, b@),
{
    let pa = power_of_ten(a.scale);
    let pb = power_of_ten(b.scale);
    proof {
        lemma_pow10_18();
        assert(-1_000_000_000_000_000_000_000_000_000_000_000_000 <= a.mantissa * pb
            <= 1_000_000_000_000_000_000_000_000_000_000_000_000) by (nonlinear_arith)
            requires
                -1_000_000_000_000_000_000 < a.mantissa < 1_000_000_000_000_000_000,
                0 < pb <= 1_000_000_000_000_000_000,
        ;
        assert(-1_000_000_000_000_000_000_000_000_000_000_000_000 <= b.mantissa * pa
            <= 1_000_000_000_000_000_000_000_000_000_000_000_000) by (nonlinear_arith)
            requires
                -1_000_000_000_000_000_000 < b.mantissa < 1_000_000_000_000_000_000,
                0 < pa <= 1_000_000_000_000_000_000,
        ;
    }
    let x: i128 = a.mantissa * pb;
    let y: i128 = b.mantissa * pa;
    if x < y {
        -1
    } else if x == y {
        0
    } else {
        1
    }
}

} // verus!
