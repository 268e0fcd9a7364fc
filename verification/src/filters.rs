//! The filters of the template language.
//!
//! A filter is written as a name, optionally followed by a colon and an
//! argument. Filter names are matched without regard to ASCII case. A
//! filter that is not known, or whose argument cannot be used, leaves the
//! value as it is.

use crate::dates::{date_text, format_date, DATE_INPUT_FORMAT};
use crate::number::{
    decimal_text, parse_signed, parse_unsigned, signed_value, to_decimal_text, unsigned_value,
};
use crate::text::{
    append, ascii_lower, char_is_whitespace, chars_of, contains, contains_char, copy_range,
    find_char, find_char_from, has, has_char, is_whitespace, lemma_find_char_from, replace,
    replaced, same, string_of, to_ascii_lower, to_unicode_lower, to_unicode_upper, trim, trimmed,
    unicode_lower, unicode_upper, views,
};
use vstd::prelude::*;

verus! {

// ---------------------------------------------------------------------------
// Quotes
// ---------------------------------------------------------------------------

/// Whether `e` stands between two double quotes or two single quotes.
pub open spec fn is_quoted(e: Seq<char>) -> bool {
    e.len() >= 2 && ((e[0] == '"' && e.last() == '"') || (e[0] == '\'' && e.last() == '\''))
}

/// `e` without the quotes around it, if it has any.
pub open spec fn unquoted(e: Seq<char>) -> Seq<char> {
    if is_quoted(e) {
        e.subrange(1, e.len() - 1)
    } else {
        e
    }
}

/// Whether `e` is one quoted literal: it stands between two quotes of a
/// kind and holds no further quote of that kind.
pub open spec fn is_literal(e: Seq<char>) -> bool {
    is_quoted(e) && !contains_char(e.subrange(1, e.len() - 1), e[0])
}

/// The text of the literal `e`; `e` itself if it is no literal.
pub open spec fn literal_text(e: Seq<char>) -> Seq<char> {
    if is_literal(e) {
        e.subrange(1, e.len() - 1)
    } else {
        e
    }
}

/// The text of the literal `e`; `e` itself if it is no literal.
pub fn strip_literal(e: &[char]) -> (v: Vec<char>)
    ensures
        v@ == literal_text(e@),
{
    if quoted(e) {
        let inner = copy_range(e, 1, e.len() - 1);
        if !has_char(inner.as_slice(), e[0]) {
            return inner;
        }
    }
    let v = copy_range(e, 0, e.len());
    assert(v@ == e@) by {
        assert(e@.subrange(0, e@.len() as int) == e@);
    }
    v
}

/// Whether `e` stands between two double quotes or two single quotes.
pub fn quoted(e: &[char]) -> (r: bool)
    ensures
        r == is_quoted(e@),
{
    let n = e.len();
    n >= 2 && ((e[0] == '"' && e[n - 1] == '"') || (e[0] == '\'' && e[n - 1] == '\''))
}

/// `e` without the quotes around it, if it has any.
pub fn strip_quotes(e: &[char]) -> (v: Vec<char>)
    ensures
        v@ == unquoted(e@),
{
    if quoted(e) {
        copy_range(e, 1, e.len() - 1)
    } else {
        let v = copy_range(e, 0, e.len());
        assert(v@ == e@) by {
            assert(e@.subrange(0, e@.len() as int) == e@);
        }
        v
    }
}

// ---------------------------------------------------------------------------
// Characters at the top level
// ---------------------------------------------------------------------------

/// The index of the first occurrence of `target` in `s[i..]` that stands
/// at the top level: outside quotes and braces, and not after a backslash.
/// The state at index `i` is given by the four flags.
///
/// A backslash makes the next character ordinary. A single quote outside
/// double quotes opens or closes single quotes, and the other way round. A
/// brace outside quotes opens or closes a level. These take precedence over
/// a match of the target.
pub open spec fn top_level_from(
    s: Seq<char>,
    target: char,
    i: int,
    in_single: bool,
    in_double: bool,
    depth: nat,
    escaped: bool,
) -> Option<int>
    decreases s.len() - i,
{
    if i < 0 || i >= s.len() {
        None
    } else if escaped {
        top_level_from(s, target, i + 1, in_single, in_double, depth, false)
    } else if s[i] == '\\' {
        top_level_from(s, target, i + 1, in_single, in_double, depth, true)
    } else if s[i] == '\'' && !in_double {
        top_level_from(s, target, i + 1, !in_single, in_double, depth, false)
    } else if s[i] == '"' && !in_single {
        top_level_from(s, target, i + 1, in_single, !in_double, depth, false)
    } else if s[i] == '{' && !in_single && !in_double {
        top_level_from(s, target, i + 1, in_single, in_double, depth + 1, false)
    } else if s[i] == '}' && !in_single && !in_double {
        top_level_from(
            s,
            target,
            i + 1,
            in_single,
            in_double,
            if depth > 0 {
                (depth - 1) as nat
            } else {
                depth
            },
            false,
        )
    } else if s[i] == target && !in_single && !in_double && depth == 0 {
        Some(i)
    } else {
        top_level_from(s, target, i + 1, in_single, in_double, depth, false)
    }
}

/// The index of the first occurrence of `target` at the top level of `s`.
pub open spec fn top_level_char(s: Seq<char>, target: char) -> Option<int> {
    top_level_from(s, target, 0, false, false, 0, false)
}

/// Finds the first occurrence of `target` at the top level of `s`.
pub fn find_top_level(s: &[char], target: char) -> (r: Option<usize>)
    ensures
        match r {
            Some(k) => top_level_char(s@, target) == Some(k as int) && k < s.len() && s@[k as int]
                == target,
            None => top_level_char(s@, target) is None,
        },
{
    let mut in_single = false;
    let mut in_double = false;
    let mut depth: usize = 0;
    let mut escaped = false;
    let mut i: usize = 0;
    while i < s.len()
        invariant
            i <= s.len(),
            depth <= i,
            top_level_char(s@, target) == top_level_from(
                s@,
                target,
                i as int,
                in_single,
                in_double,
                depth as nat,
                escaped,
            ),
        decreases s.len() - i,
    {
        let ch = s[i];
        if escaped {
            escaped = false;
        } else if ch == '\\' {
            escaped = true;
        } else if ch == '\'' && !in_double {
            in_single = !in_single;
        } else if ch == '"' && !in_single {
            in_double = !in_double;
        } else if ch == '{' && !in_single && !in_double {
            depth += 1;
        } else if ch == '}' && !in_single && !in_double {
            if depth > 0 {
                depth -= 1;
            }
        } else if ch == target && !in_single && !in_double && depth == 0 {
            return Some(i);
        }
        i += 1;
    }
    None
}

/// The number of bytes that `c` takes in UTF-8.
pub open spec fn utf8_width(c: char) -> nat {
    let u = c as u32;
    if u < 0x80 {
        1
    } else if u < 0x800 {
        2
    } else if u < 0x10000 {
        3
    } else {
        4
    }
}

/// The number of bytes that the first `n` characters of `s` take in UTF-8.
pub open spec fn utf8_length(s: Seq<char>, n: int) -> nat
    decreases n,
{
    if n <= 0 || n > s.len() {
        0
    } else {
        utf8_length(s, n - 1) + utf8_width(s[n - 1])
    }
}

/// A text of `n` characters takes between `n` and `4 * n` bytes.
pub proof fn lemma_utf8_length(s: Seq<char>, n: int)
    requires
        0 <= n <= s.len(),
    ensures
        n <= utf8_length(s, n) <= 4 * n,
    decreases n,
{
    if n > 0 {
        lemma_utf8_length(s, n - 1);
    }
}

/// The number of bytes that the first `n` characters of `s` take in UTF-8,
/// or `None` if that number is larger than `limit`.
pub fn utf8_offset(s: &[char], n: usize, limit: usize) -> (r: Option<usize>)
    requires
        n <= s.len(),
    ensures
        match r {
            Some(b) => b == utf8_length(s@, n as int) && b <= limit,
            None => utf8_length(s@, n as int) > limit,
        },
{
    let mut b: usize = 0;
    let mut i: usize = 0;
    while i < n
        invariant
            i <= n <= s.len(),
            b == utf8_length(s@, i as int),
            b <= limit,
        decreases n - i,
    {
        let u: u32 = s[i] as u32;
        let w: usize = if u < 0x80 {
            1
        } else if u < 0x800 {
            2
        } else if u < 0x10000 {
            3
        } else {
            4
        };
        if w > limit - b {
            proof {
                lemma_utf8_grows(s@, i + 1, n as int);
            }
            return None;
        }
        b += w;
        i += 1;
    }
    Some(b)
}

/// A longer prefix takes no fewer bytes.
pub proof fn lemma_utf8_grows(s: Seq<char>, a: int, b: int)
    requires
        0 <= a <= b <= s.len(),
    ensures
        utf8_length(s, a) <= utf8_length(s, b),
    decreases b - a,
{
    if a < b {
        lemma_utf8_grows(s, a, b - 1);
    }
}

// ---------------------------------------------------------------------------
// The parts of a filter
// ---------------------------------------------------------------------------

/// A filter as written: its name and, if a colon follows at the top
/// level, its argument; an argument that is one quoted literal is taken
/// without its quotes.
pub struct FilterCall {
    pub name: Seq<char>,
    pub arg: Option<Seq<char>>,
}

/// The filter that `part` writes.
pub open spec fn filter_call(part: Seq<char>) -> FilterCall {
    match top_level_char(part, ':') {
        Some(k) => if 0 <= k < part.len() {
            FilterCall { name: trim(part.take(k)), arg: Some(literal_text(trim(part.skip(k + 1)))) }
        } else {
            FilterCall { name: trim(part), arg: None }
        },
        None => FilterCall { name: trim(part), arg: None },
    }
}

// ---------------------------------------------------------------------------
// Single filters
// ---------------------------------------------------------------------------

/// `value` with its first character in upper case: the upper-case form
/// of the text made of that character alone, then the rest.
pub open spec fn capitalized(value: Seq<char>) -> Seq<char> {
    if value.len() == 0 {
        value
    } else {
        unicode_upper(seq![value[0]]) + value.skip(1)
    }
}

/// What the character at index `k` of `value` becomes in title case: a
/// white-space character stays; a character at the start of a word goes
/// to upper case, any other to lower case, each taken as a text of its
/// own.
pub open spec fn title_piece(value: Seq<char>, k: int) -> Seq<char> {
    if is_whitespace(value[k]) {
        seq![value[k]]
    } else if k == 0 || is_whitespace(value[k - 1]) {
        unicode_upper(seq![value[k]])
    } else {
        unicode_lower(seq![value[k]])
    }
}

/// The first `n` characters of `value` in title case.
pub open spec fn title_case(value: Seq<char>, n: int) -> Seq<char>
    decreases n,
{
    if n <= 0 || n > value.len() {
        Seq::empty()
    } else {
        title_case(value, n - 1) + title_piece(value, n - 1)
    }
}

/// The two texts that the argument of `slice` gives: what stands before
/// its first comma, or before its first space if it has no comma, and what
/// stands after; both trimmed. The second is empty if there is no such
/// separator.
pub open spec fn slice_bounds(arg: Seq<char>) -> (Seq<char>, Seq<char>) {
    let s = unquoted(trim(arg));
    let delimiter = if contains_char(s, ',') {
        ','
    } else {
        ' '
    };
    match find_char_from(s, delimiter, 0) {
        Some(k) => if 0 <= k < s.len() {
            (trim(s.take(k)), trim(s.skip(k + 1)))
        } else {
            (trim(s), Seq::empty())
        },
        None => (trim(s), Seq::empty()),
    }
}

/// The index that the bound `v` stands for in a text of `len`
/// characters: a negative bound counts from the end; the result is
/// brought into `0..=len`.
pub open spec fn slice_index(v: int, len: int) -> int {
    let i = if v < 0 {
        len + v
    } else {
        v
    };
    if i < 0 {
        0
    } else if i > len {
        len
    } else {
        i
    }
}

/// `value` sliced by the argument `arg`. A missing start is 0, a missing
/// end the length. If a bound is no integer the value stays as it is.
pub open spec fn sliced(value: Seq<char>, arg: Seq<char>) -> Seq<char> {
    let (a, b) = slice_bounds(arg);
    let start = if a.len() == 0 {
        Some(0int)
    } else {
        signed_value(a)
    };
    let end = if b.len() == 0 {
        Some(value.len() as int)
    } else {
        signed_value(b)
    };
    match (start, end) {
        (Some(x), Some(y)) => {
            let i = slice_index(x, value.len() as int);
            let j = slice_index(y, value.len() as int);
            if i >= j {
                Seq::empty()
            } else {
                value.subrange(i, j)
            }
        },
        _ => value,
    }
}

/// `value` cut to its first `n` characters.
pub open spec fn truncated(value: Seq<char>, arg: Seq<char>) -> Seq<char> {
    match unsigned_value(arg) {
        Some(n) => if n < value.len() {
            value.take(n)
        } else {
            value
        },
        None => value,
    }
}

/// The state of the scan for quoted pieces after the first `n` characters
/// of `arg`: the pieces found, the quote that is open, and where it
/// opened.
pub struct QuoteScan {
    pub pieces: Seq<Seq<char>>,
    pub open: Option<char>,
    pub start: int,
}

/// Scans the first `n` characters of `arg` for quoted pieces. A quote
/// opens a piece; the same quote, not after a backslash, closes it. A
/// piece includes its quotes.
pub open spec fn quote_scan(arg: Seq<char>, n: int) -> QuoteScan
    decreases n,
{
    if n <= 0 || n > arg.len() {
        QuoteScan { pieces: Seq::empty(), open: None, start: 0 }
    } else {
        let before = quote_scan(arg, n - 1);
        let i = n - 1;
        let c = arg[i];
        match before.open {
            None => if c == '\'' || c == '"' {
                QuoteScan { pieces: before.pieces, open: Some(c), start: i }
            } else {
                before
            },
            Some(q) => if c == q && i > 0 && arg[i - 1] != '\\' && 0 <= before.start <= i {
                QuoteScan {
                    pieces: before.pieces.push(arg.subrange(before.start, i + 1)),
                    open: None,
                    start: before.start,
                }
            } else {
                before
            },
        }
    }
}

/// The two texts around the first comma of `arg`, trimmed; a single text
/// if `arg` has no comma.
pub open spec fn comma_pair(arg: Seq<char>) -> Seq<Seq<char>> {
    match find_char_from(arg, ',', 0) {
        Some(k) => if 0 <= k < arg.len() {
            seq![trim(arg.take(k)), trim(arg.skip(k + 1))]
        } else {
            seq![trim(arg)]
        },
        None => seq![trim(arg)],
    }
}

/// The texts that the argument of `replace` gives. If the argument holds
/// `','`, or a double quote and a comma, its quoted pieces are taken,
/// provided there are two; else the two texts around its first comma.
pub open spec fn replace_operands(arg: Seq<char>) -> Seq<Seq<char>> {
    if contains(arg, "','"@) || (contains_char(arg, '"') && contains_char(arg, ',')) {
        let q = quote_scan(arg, arg.len() as int).pieces;
        if q.len() < 2 {
            comma_pair(arg)
        } else {
            q
        }
    } else {
        comma_pair(arg)
    }
}

/// `value` with the first operand of `arg` replaced by the second, both
/// without quotes; unchanged if `arg` gives fewer than two operands.
pub open spec fn replaced_by(value: Seq<char>, arg: Seq<char>) -> Seq<char> {
    let ops = replace_operands(arg);
    if ops.len() >= 2 {
        replace(value, unquoted(ops[0]), unquoted(ops[1]))
    } else {
        value
    }
}

/// The value after the filter written as `part` was applied. `offset` is
/// the offset of local time from UTC in seconds, which `date` uses.
pub open spec fn apply_filter(value: Seq<char>, part: Seq<char>, offset: i32) -> Seq<char> {
    let call = filter_call(part);
    let name = ascii_lower(call.name);
    if name == "upper"@ {
        unicode_upper(value)
    } else if name == "lower"@ {
        unicode_lower(value)
    } else if name == "trim"@ {
        trim(value)
    } else if name == "capitalize"@ {
        capitalized(value)
    } else if name == "slice"@ {
        match call.arg {
            Some(a) => sliced(value, a),
            None => value,
        }
    } else if name == "default"@ {
        match call.arg {
            Some(a) => if trim(value).len() == 0 {
                a
            } else {
                value
            },
            None => value,
        }
    } else if name == "title"@ {
        title_case(value, value.len() as int)
    } else if name == "length"@ {
        decimal_text(value.len())
    } else if name == "cut"@ {
        match call.arg {
            Some(a) => replace(value, a, Seq::empty()),
            None => value,
        }
    } else if name == "truncate"@ {
        match call.arg {
            Some(a) => truncated(value, a),
            None => value,
        }
    } else if name == "replace"@ {
        match call.arg {
            Some(a) => replaced_by(value, a),
            None => value,
        }
    } else if name == "date"@ {
        match call.arg {
            Some(a) => match date_text(value, DATE_INPUT_FORMAT@, offset, a) {
                Some(t) => t,
                None => value,
            },
            None => value,
        }
    } else {
        value
    }
}

/// The value after the first `n` of the filters `parts` were applied, one
/// after the other.
pub open spec fn apply_filters_spec(
    value: Seq<char>,
    parts: Seq<Seq<char>>,
    offset: i32,
    n: int,
) -> Seq<char>
    decreases n,
{
    if n <= 0 || n > parts.len() {
        value
    } else {
        apply_filter(apply_filters_spec(value, parts, offset, n - 1), parts[n - 1], offset)
    }
}

// ---------------------------------------------------------------------------
// Executable filters
// ---------------------------------------------------------------------------

fn copy_all(s: &[char]) -> (v: Vec<char>)
    ensures
        v@ == s@,
{
    let v = copy_range(s, 0, s.len());
    assert(s@.subrange(0, s@.len() as int) == s@);
    v
}

fn is_text(s: &[char], lit: &str) -> (r: bool)
    ensures
        r == (s@ == lit@),
{
    let l = chars_of(lit);
    same(s, l.as_slice())
}

/// The upper-case form of the text made of `c` alone.
fn upper_of(c: char) -> (v: Vec<char>)
    ensures
        v@ == unicode_upper(seq![c]),
{
    let mut one: Vec<char> = Vec::new();
    one.push(c);
    assert(one@ =~= seq![c]);
    let text = string_of(one.as_slice());
    let up = to_unicode_upper(text.as_str());
    chars_of(up.as_str())
}

/// The lower-case form of the text made of `c` alone.
fn lower_of(c: char) -> (v: Vec<char>)
    ensures
        v@ == unicode_lower(seq![c]),
{
    let mut one: Vec<char> = Vec::new();
    one.push(c);
    assert(one@ =~= seq![c]);
    let text = string_of(one.as_slice());
    let low = to_unicode_lower(text.as_str());
    chars_of(low.as_str())
}

fn capitalize(value: &[char]) -> (v: Vec<char>)
    ensures
        v@ == capitalized(value@),
{
    if value.len() == 0 {
        return Vec::new();
    }
    let mut out = upper_of(value[0]);
    let rest = copy_range(value, 1, value.len());
    append(&mut out, rest.as_slice());
    out
}

fn title(value: &[char]) -> (v: Vec<char>)
    ensures
        v@ == title_case(value@, value@.len() as int),
{
    let mut out: Vec<char> = Vec::new();
    let mut last_was_space = true;
    let mut i: usize = 0;
    while i < value.len()
        invariant
            i <= value.len(),
            out@ == title_case(value@, i as int),
            last_was_space == (i == 0 || is_whitespace(value@[i - 1])),
        decreases value.len() - i,
    {
        let ch = value[i];
        if char_is_whitespace(ch) {
            out.push(ch);
            last_was_space = true;
        } else {
            if last_was_space {
                let up = upper_of(ch);
                append(&mut out, up.as_slice());
            } else {
                let low = lower_of(ch);
                append(&mut out, low.as_slice());
            }
            last_was_space = false;
        }
        i += 1;
        assert(out@ =~= title_case(value@, i as int));
    }
    out
}

fn slice_bounds_of(arg: &[char]) -> (r: (Vec<char>, Vec<char>))
    ensures
        (r.0@, r.1@) == slice_bounds(arg@),
{
    let t = trimmed(arg);
    let s = strip_quotes(t.as_slice());
    let delimiter = if has_char(s.as_slice(), ',') {
        ','
    } else {
        ' '
    };
    proof {
        lemma_find_char_from(s@, delimiter, 0);
    }
    match find_char(s.as_slice(), delimiter, 0) {
        Some(k) => {
            let a = copy_range(s.as_slice(), 0, k);
            let b = copy_range(s.as_slice(), k + 1, s.len());
            assert(a@ == s@.take(k as int));
            assert(b@ == s@.skip(k + 1));
            (trimmed(a.as_slice()), trimmed(b.as_slice()))
        },
        None => (trimmed(s.as_slice()), Vec::new()),
    }
}

fn slice_index_of(v: i64, len: usize) -> (r: usize)
    ensures
        r == slice_index(v as int, len as int),
        r <= len,
{
    if v < 0 {
        // A bound below zero counts from the end.
        let back: u64 = if v == i64::MIN {
            9_223_372_036_854_775_808u64
        } else {
            (-v) as u64
        };
        if back >= len as u64 {
            0
        } else {
            len - (back as usize)
        }
    } else {
        if (v as u64) > len as u64 {
            len
        } else {
            v as usize
        }
    }
}

fn slice(value: &[char], arg: &[char]) -> (v: Vec<char>)
    ensures
        v@ == sliced(value@, arg@),
{
    let (a, b) = slice_bounds_of(arg);
    let start: Option<i64> = if a.len() == 0 {
        Some(0)
    } else {
        parse_signed(a.as_slice())
    };
    let len = value.len();
    let i: usize = match start {
        Some(x) => slice_index_of(x, len),
        None => {
            return copy_all(value);
        },
    };
    let j: usize = if b.len() == 0 {
        len
    } else {
        match parse_signed(b.as_slice()) {
            Some(y) => slice_index_of(y, len),
            None => {
                return copy_all(value);
            },
        }
    };
    if i >= j {
        Vec::new()
    } else {
        copy_range(value, i, j)
    }
}

fn truncate(value: &[char], arg: &[char]) -> (v: Vec<char>)
    ensures
        v@ == truncated(value@, arg@),
{
    match parse_unsigned(arg) {
        Some(n) => {
            if n < value.len() as u64 {
                let v = copy_range(value, 0, n as usize);
                assert(v@ == value@.take(n as int));
                v
            } else {
                copy_all(value)
            }
        },
        None => copy_all(value),
    }
}

fn comma_pair_of(arg: &[char]) -> (r: Vec<Vec<char>>)
    ensures
        views(r@) == comma_pair(arg@),
{
    let mut out: Vec<Vec<char>> = Vec::new();
    proof {
        lemma_find_char_from(arg@, ',', 0);
    }
    match find_char(arg, ',', 0) {
        Some(k) => {
            let a = copy_range(arg, 0, k);
            let b = copy_range(arg, k + 1, arg.len());
            assert(a@ == arg@.take(k as int));
            assert(b@ == arg@.skip(k + 1));
            out.push(trimmed(a.as_slice()));
            out.push(trimmed(b.as_slice()));
            assert(views(out@) =~= comma_pair(arg@));
        },
        None => {
            out.push(trimmed(arg));
            assert(views(out@) =~= comma_pair(arg@));
        },
    }
    out
}

fn quoted_pieces(arg: &[char]) -> (r: Vec<Vec<char>>)
    ensures
        views(r@) == quote_scan(arg@, arg@.len() as int).pieces,
{
    let mut out: Vec<Vec<char>> = Vec::new();
    let mut open: Option<char> = None;
    let mut start: usize = 0;
    let mut i: usize = 0;
    assert(views(out@) =~= quote_scan(arg@, 0).pieces);
    while i < arg.len()
        invariant
            i <= arg.len(),
            start <= i,
            views(out@) == quote_scan(arg@, i as int).pieces,
            open == quote_scan(arg@, i as int).open,
            start == quote_scan(arg@, i as int).start,
        decreases arg.len() - i,
    {
        let c = arg[i];
        match open {
            None => {
                if c == '\'' || c == '"' {
                    open = Some(c);
                    start = i;
                }
            },
            Some(q) => {
                if c == q && i > 0 && arg[i - 1] != '\\' {
                    let piece = copy_range(arg, start, i + 1);
                    let ghost before = out@;
                    out.push(piece);
                    assert(views(out@) =~= views(before).push(
                        arg@.subrange(start as int, i + 1),
                    ));
                    open = None;
                }
            },
        }
        i += 1;
    }
    out
}

fn replace_operands_of(arg: &[char]) -> (r: Vec<Vec<char>>)
    ensures
        views(r@) == replace_operands(arg@),
{
    let marker = chars_of("','");
    if has(arg, marker.as_slice()) || (has_char(arg, '"') && has_char(arg, ',')) {
        let q = quoted_pieces(arg);
        if q.len() < 2 {
            comma_pair_of(arg)
        } else {
            q
        }
    } else {
        comma_pair_of(arg)
    }
}

fn replace_by(value: &[char], arg: &[char]) -> (v: Vec<char>)
    ensures
        v@ == replaced_by(value@, arg@),
{
    let ops = replace_operands_of(arg);
    if ops.len() >= 2 {
        assert(views(ops@)[0] == ops@[0]@);
        assert(views(ops@)[1] == ops@[1]@);
        let old = strip_quotes(ops[0].as_slice());
        let new = strip_quotes(ops[1].as_slice());
        replaced(value, old.as_slice(), new.as_slice())
    } else {
        copy_all(value)
    }
}

fn date(value: &[char], arg: &[char], offset: i32) -> (v: Vec<char>)
    ensures
        v@ == match date_text(value@, DATE_INPUT_FORMAT@, offset, arg@) {
            Some(t) => t,
            None => value@,
        },
{
    let text = string_of(value);
    let format = string_of(arg);
    match format_date(text.as_str(), DATE_INPUT_FORMAT, offset, format.as_str()) {
        Some(t) => chars_of(t.as_str()),
        None => copy_all(value),
    }
}

/// The name and the argument of the filter written as `part`.
pub fn parse_filter(part: &[char]) -> (r: (Vec<char>, Option<Vec<char>>))
    ensures
        r.0@ == filter_call(part@).name,
        match r.1 {
            Some(a) => filter_call(part@).arg == Some(a@),
            None => filter_call(part@).arg is None,
        },
{
    match find_top_level(part, ':') {
        Some(k) => {
            let head = copy_range(part, 0, k);
            let tail = copy_range(part, k + 1, part.len());
            assert(head@ == part@.take(k as int));
            assert(tail@ == part@.skip(k + 1));
            let raw = trimmed(tail.as_slice());
            (trimmed(head.as_slice()), Some(strip_literal(raw.as_slice())))
        },
        None => (trimmed(part), None),
    }
}

/// Applies the filter written as `part` to `value`.
pub fn apply_one_filter(value: Vec<char>, part: &[char], offset: i32) -> (v: Vec<char>)
    ensures
        v@ == apply_filter(value@, part@, offset),
{
    let (raw_name, arg) = parse_filter(part);
    let name = to_ascii_lower(raw_name.as_slice());
    let n = name.as_slice();
    if is_text(n, "upper") {
        let t = string_of(value.as_slice());
        let u = to_unicode_upper(t.as_str());
        chars_of(u.as_str())
    } else if is_text(n, "lower") {
        let t = string_of(value.as_slice());
        let u = to_unicode_lower(t.as_str());
        chars_of(u.as_str())
    } else if is_text(n, "trim") {
        trimmed(value.as_slice())
    } else if is_text(n, "capitalize") {
        capitalize(value.as_slice())
    } else if is_text(n, "slice") {
        match arg {
            Some(a) => slice(value.as_slice(), a.as_slice()),
            None => value,
        }
    } else if is_text(n, "default") {
        match arg {
            Some(a) => {
                let t = trimmed(value.as_slice());
                if t.len() == 0 {
                    a
                } else {
                    value
                }
            },
            None => value,
        }
    } else if is_text(n, "title") {
        title(value.as_slice())
    } else if is_text(n, "length") {
        to_decimal_text(value.len() as u128)
    } else if is_text(n, "cut") {
        match arg {
            Some(a) => {
                let nothing: Vec<char> = Vec::new();
                replaced(value.as_slice(), a.as_slice(), nothing.as_slice())
            },
            None => value,
        }
    } else if is_text(n, "truncate") {
        match arg {
            Some(a) => truncate(value.as_slice(), a.as_slice()),
            None => value,
        }
    } else if is_text(n, "replace") {
        match arg {
            Some(a) => replace_by(value.as_slice(), a.as_slice()),
            None => value,
        }
    } else if is_text(n, "date") {
        match arg {
            Some(a) => date(value.as_slice(), a.as_slice(), offset),
            None => value,
        }
    } else {
        value
    }
}

/// Applies the filters `parts` to `value`, one after the other.
pub fn apply_filters(value: Vec<char>, parts: &[Vec<char>], offset: i32) -> (v: Vec<char>)
    ensures
        v@ == apply_filters_spec(
            value@,
            views(parts@),
            offset,
            parts@.len() as int,
        ),
{
    let mut current = value;
    let mut i: usize = 0;
    while i < parts.len()
        invariant
            i <= parts.len(),
            current@ == apply_filters_spec(value@, views(parts@), offset, i as int),
        decreases parts.len() - i,
    {
        assert(views(parts@)[i as int] == parts@[i as int]@);
        current = apply_one_filter(current, parts[i].as_slice(), offset);
        i += 1;
    }
    current
}

} // verus!
