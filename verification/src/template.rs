//! The template language and its engine.
//!
//! A template is text with expressions in braces. An expression is, in
//! this order of precedence: a default `a ?? b`, a ternary
//! `condition ? a : b`, a value with filters `a | f | g`, or a simple
//! expression. A simple expression is a quoted literal, a number, a sum of
//! simple expressions, which concatenates them, or the name of a variable
//! of the context.

use crate::dates::local_offset_seconds;
use crate::filters::{
    apply_filters, apply_filters_spec, find_top_level, is_quoted, lemma_utf8_length, quoted,
    strip_quotes, top_level_char, unquoted, utf8_length, utf8_offset,
};
use crate::number::{compare_numerals, float_literal, is_float_literal, numeral_order};
use crate::text::{
    append, chars_of, contains, copy_range, has, lemma_split_shorter, lemma_trim_len, less_text,
    same, split, split_on, string_of, text_less, trim, trimmed, views,
};
use crate::value::{variable_text, Value};
use vstd::prelude::*;

verus! {

/// What can go wrong when a template is rendered.
#[derive(Clone, Copy, Debug, PartialEq, Eq, Structural)]
pub enum TemplateError {
    /// A comparison does not have exactly two sides.
    ComparisonFormat,
}

/// The comparisons of the template language, in the order in which they
/// are looked for.
#[derive(Clone, Copy, Debug, PartialEq, Eq, Structural)]
pub enum Comparison {
    Equal,
    NotEqual,
    GreaterOrEqual,
    LessOrEqual,
    Greater,
    Less,
}

// ---------------------------------------------------------------------------
// Comparing texts
// ---------------------------------------------------------------------------

/// How the comparison is written.
pub open spec fn operator_text(op: Comparison) -> Seq<char> {
    match op {
        Comparison::Equal => "=="@,
        Comparison::NotEqual => "!="@,
        Comparison::GreaterOrEqual => ">="@,
        Comparison::LessOrEqual => "<="@,
        Comparison::Greater => ">"@,
        Comparison::Less => "<"@,
    }
}

/// The first comparison, in their fixed order, that occurs in `c`.
pub open spec fn first_operator(c: Seq<char>) -> Option<Comparison> {
    if contains(c, "=="@) {
        Some(Comparison::Equal)
    } else if contains(c, "!="@) {
        Some(Comparison::NotEqual)
    } else if contains(c, ">="@) {
        Some(Comparison::GreaterOrEqual)
    } else if contains(c, "<="@) {
        Some(Comparison::LessOrEqual)
    } else if contains(c, ">"@) {
        Some(Comparison::Greater)
    } else if contains(c, "<"@) {
        Some(Comparison::Less)
    } else {
        None
    }
}

/// Whether the comparison holds of two values whose difference has the
/// sign `sign`.
pub open spec fn holds_of_sign(op: Comparison, sign: int) -> bool {
    match op {
        Comparison::Equal => sign == 0,
        Comparison::NotEqual => sign != 0,
        Comparison::GreaterOrEqual => sign >= 0,
        Comparison::LessOrEqual => sign <= 0,
        Comparison::Greater => sign > 0,
        Comparison::Less => sign < 0,
    }
}

/// The sign of the difference of two texts in the order of texts.
pub open spec fn text_order(a: Seq<char>, b: Seq<char>) -> int {
    if a == b {
        0
    } else if text_less(a, b) {
        -1
    } else {
        1
    }
}

/// Whether the comparison holds of `left` and `right`. They are compared
/// as numbers if both are plain decimal numerals of at most eighteen
/// digits, else as texts.
pub open spec fn compare_texts(op: Comparison, left: Seq<char>, right: Seq<char>) -> bool {
    match numeral_order(left, right) {
        Some(sign) => holds_of_sign(op, sign),
        None => holds_of_sign(op, text_order(left, right)),
    }
}

/// Whether a value counts as true: it is not empty, not `false` and not
/// `0`.
pub open spec fn is_truthy(v: Seq<char>) -> bool {
    v.len() > 0 && v != "false"@ && v != "0"@
}

// ---------------------------------------------------------------------------
// Simple expressions
// ---------------------------------------------------------------------------

/// The value of the simple expression `x`.
pub open spec fn eval_simple(x: Seq<char>, context: Value) -> Seq<char>
    decreases x.len(), 1int, 0int,
{
    let e = trim(x);
    if is_quoted(e) {
        unquoted(e)
    } else if is_float_literal(e) {
        e
    } else if contains(e, "+"@) && e.len() <= x.len() {
        concat_simple(split(e, "+"@), context, split(e, "+"@).len() as int, e.len())
    } else {
        variable_text(context, e)
    }
}

/// The values of the first `n` of `parts`, each a simple expression
/// shorter than `bound`, one after the other.
pub open spec fn concat_simple(parts: Seq<Seq<char>>, context: Value, n: int, bound: nat) -> Seq<
    char,
>
    decreases bound, 0int, n,
{
    if n <= 0 || n > parts.len() {
        Seq::empty()
    } else {
        concat_simple(parts, context, n - 1, bound) + if parts[n - 1].len() < bound {
            eval_simple(parts[n - 1], context)
        } else {
            Seq::empty()
        }
    }
}

// ---------------------------------------------------------------------------
// Conditions
// ---------------------------------------------------------------------------

/// Whether the condition `c` holds. A condition is a conjunction written
/// with `&&`, else a disjunction written with `||`, else a comparison of
/// two simple expressions, else a simple expression whose value counts as
/// true.
pub open spec fn eval_condition(c: Seq<char>, context: Value) -> Result<bool, TemplateError>
    decreases c.len(), 1int, 0int,
{
    if contains(c, "&&"@) {
        all_hold(split(c, "&&"@), context, 0, c.len())
    } else if contains(c, "||"@) {
        any_holds(split(c, "||"@), context, 0, c.len())
    } else {
        match first_operator(c) {
            Some(op) => {
                let parts = split(c, operator_text(op));
                if parts.len() != 2 {
                    Err(TemplateError::ComparisonFormat)
                } else {
                    Ok(
                        compare_texts(
                            op,
                            eval_simple(trim(parts[0]), context),
                            eval_simple(trim(parts[1]), context),
                        ),
                    )
                }
            },
            None => Ok(is_truthy(eval_simple(c, context))),
        }
    }
}

/// Whether all of `parts[from..]` hold, each a condition shorter than
/// `bound`; the first that fails or is malformed decides.
pub open spec fn all_hold(parts: Seq<Seq<char>>, context: Value, from: int, bound: nat) -> Result<
    bool,
    TemplateError,
>
    decreases bound, 0int, parts.len() - from,
{
    if from < 0 || from >= parts.len() {
        Ok(true)
    } else if trim(parts[from]).len() < bound {
        match eval_condition(trim(parts[from]), context) {
            Err(e) => Err(e),
            Ok(false) => Ok(false),
            Ok(true) => all_hold(parts, context, from + 1, bound),
        }
    } else {
        Ok(true)
    }
}

/// Whether one of `parts[from..]` holds, each a condition shorter than
/// `bound`; the first that holds or is malformed decides.
pub open spec fn any_holds(parts: Seq<Seq<char>>, context: Value, from: int, bound: nat) -> Result<
    bool,
    TemplateError,
>
    decreases bound, 0int, parts.len() - from,
{
    if from < 0 || from >= parts.len() {
        Ok(false)
    } else if trim(parts[from]).len() < bound {
        match eval_condition(trim(parts[from]), context) {
            Err(e) => Err(e),
            Ok(true) => Ok(true),
            Ok(false) => any_holds(parts, context, from + 1, bound),
        }
    } else {
        Ok(false)
    }
}

// ---------------------------------------------------------------------------
// Expressions
// ---------------------------------------------------------------------------

/// The index of the first occurrence of `target` in `s[i..]` that stands
/// outside braces, where `depth` braces are open at index `i`.
pub open spec fn brace_scan(s: Seq<char>, target: char, i: int, depth: nat) -> Option<int>
    decreases s.len() - i,
{
    if i < 0 || i >= s.len() {
        None
    } else if s[i] == '{' {
        brace_scan(s, target, i + 1, depth + 1)
    } else if s[i] == '}' {
        brace_scan(
            s,
            target,
            i + 1,
            if depth > 0 {
                (depth - 1) as nat
            } else {
                depth
            },
        )
    } else if s[i] == target && depth == 0 {
        Some(i)
    } else {
        brace_scan(s, target, i + 1, depth)
    }
}

/// The index of the question mark of the ternary `e`: its first question
/// mark outside braces.
pub open spec fn question_mark(e: Seq<char>) -> Option<int> {
    brace_scan(e, '?', 0, 0)
}

/// The index of the colon of the ternary `e` whose question mark stands
/// at index `q`: the first colon outside braces, looked for from the
/// character whose number is one more than the number of bytes that
/// `e[..q]` takes in UTF-8.
pub open spec fn colon_after(e: Seq<char>, q: int) -> Option<int> {
    brace_scan(e, ':', utf8_length(e, q) as int + 1, 0)
}

/// `f` without the braces around it, if it has any.
pub open spec fn unbraced(f: Seq<char>) -> Seq<char> {
    if f.len() >= 2 && f[0] == '{' && f.last() == '}' {
        f.subrange(1, f.len() - 1)
    } else {
        f
    }
}

/// `parts` with every text trimmed.
pub open spec fn trim_all(parts: Seq<Seq<char>>) -> Seq<Seq<char>> {
    parts.map_values(|p: Seq<char>| trim(p))
}

/// The value of the expression `x`. `offset` is the offset of local time
/// from UTC in seconds, which the `date` filter uses.
pub open spec fn eval_expression(x: Seq<char>, context: Value, offset: i32) -> Result<
    Seq<char>,
    TemplateError,
>
    decreases x.len(), 1int,
{
    let e = trim(x);
    if contains(e, "??"@) {
        let parts = split(e, "??"@);
        if parts.len() >= 2 {
            let first = eval_simple(trim(parts[0]), context);
            if first.len() > 0 {
                Ok(first)
            } else {
                Ok(eval_simple(trim(parts[1]), context))
            }
        } else {
            Ok(Seq::empty())
        }
    } else if contains(e, "?"@) {
        if e.len() <= x.len() {
            eval_ternary(e, context, offset)
        } else {
            Ok(Seq::empty())
        }
    } else if contains(e, "|"@) {
        let parts = split(e, "|"@);
        Ok(
            apply_filters_spec(
                eval_simple(trim(parts[0]), context),
                trim_all(parts.skip(1)),
                offset,
                parts.len() - 1,
            ),
        )
    } else {
        Ok(eval_simple(e, context))
    }
}

/// The value of the ternary `e`: that of the expression between the
/// question mark and the colon if the condition before the question mark
/// holds, else that of the expression after the colon, without braces
/// around it. Empty if `e` lacks a question mark or a colon.
pub open spec fn eval_ternary(e: Seq<char>, context: Value, offset: i32) -> Result<
    Seq<char>,
    TemplateError,
>
    decreases e.len(), 0int,
{
    match question_mark(e) {
        None => Ok(Seq::empty()),
        Some(q) => match colon_after(e, q) {
            None => Ok(Seq::empty()),
            Some(c) => if 0 <= q < c < e.len() {
                match eval_condition(trim(e.take(q)), context) {
                    Err(err) => Err(err),
                    Ok(true) => {
                        let chosen = trim(e.subrange(q + 1, c));
                        if chosen.len() < e.len() {
                            eval_expression(chosen, context, offset)
                        } else {
                            Ok(Seq::empty())
                        }
                    },
                    Ok(false) => {
                        let chosen = unbraced(trim(e.skip(c + 1)));
                        if chosen.len() < e.len() {
                            eval_expression(chosen, context, offset)
                        } else {
                            Ok(Seq::empty())
                        }
                    },
                }
            } else {
                Ok(Seq::empty())
            },
        },
    }
}

// ---------------------------------------------------------------------------
// Templates
// ---------------------------------------------------------------------------

/// The index just after the brace that closes the expression of which
/// `depth` braces are open at index `from`.
pub open spec fn close_brace(t: Seq<char>, from: int, depth: nat) -> Option<int>
    decreases t.len() - from,
{
    if depth == 0 {
        Some(from)
    } else if from < 0 || from >= t.len() {
        None
    } else if t[from] == '{' {
        close_brace(t, from + 1, depth + 1)
    } else if t[from] == '}' {
        close_brace(t, from + 1, (depth - 1) as nat)
    } else {
        close_brace(t, from + 1, depth)
    }
}

/// A closing brace is found behind the opening ones and within the text.
pub proof fn lemma_close_brace(t: Seq<char>, from: int, depth: nat)
    requires
        0 <= from <= t.len(),
    ensures
        close_brace(t, from, depth) matches Some(end) ==> from + depth <= end <= t.len(),
    decreases t.len() - from,
{
    if depth == 0 {
    } else if from >= t.len() {
    } else if t[from] == '{' {
        lemma_close_brace(t, from + 1, depth + 1);
    } else if t[from] == '}' {
        lemma_close_brace(t, from + 1, (depth - 1) as nat);
    } else {
        lemma_close_brace(t, from + 1, depth);
    }
}

/// `prefix` put before the value of `r`.
pub open spec fn prepend(prefix: Seq<char>, r: Result<Seq<char>, TemplateError>) -> Result<
    Seq<char>,
    TemplateError,
> {
    match r {
        Ok(v) => Ok(prefix + v),
        Err(e) => Err(e),
    }
}

/// The rendering of `t[i..]`. An opening brace whose closing brace is
/// found starts an expression, which is replaced by its value; any other
/// character stands for itself.
#[verifier::opaque]
pub open spec fn render_from(t: Seq<char>, context: Value, offset: i32, i: int) -> Result<
    Seq<char>,
    TemplateError,
>
    decreases t.len() - i,
{
    if i < 0 || i >= t.len() {
        Ok(Seq::empty())
    } else if t[i] == '{' {
        match close_brace(t, i + 1, 1) {
            Some(end) => if i + 2 <= end <= t.len() {
                match eval_expression(t.subrange(i + 1, end - 1), context, offset) {
                    Ok(v) => prepend(v, render_from(t, context, offset, end)),
                    Err(e) => Err(e),
                }
            } else {
                prepend(seq![t[i]], render_from(t, context, offset, i + 1))
            },
            None => prepend(seq![t[i]], render_from(t, context, offset, i + 1)),
        }
    } else {
        prepend(seq![t[i]], render_from(t, context, offset, i + 1))
    }
}

/// The rendering of the template `t` in the context `context`.
pub open spec fn render_spec(t: Seq<char>, context: Value, offset: i32) -> Result<
    Seq<char>,
    TemplateError,
> {
    render_from(t, context, offset, 0)
}

// ---------------------------------------------------------------------------
// Executable evaluation
// ---------------------------------------------------------------------------

fn holds(op: Comparison, sign: i8) -> (r: bool)
    ensures
        r == holds_of_sign(op, sign as int),
{
    match op {
        Comparison::Equal => sign == 0,
        Comparison::NotEqual => sign != 0,
        Comparison::GreaterOrEqual => sign >= 0,
        Comparison::LessOrEqual => sign <= 0,
        Comparison::Greater => sign > 0,
        Comparison::Less => sign < 0,
    }
}

/// Whether the comparison holds of `left` and `right`.
pub fn compare(op: Comparison, left: &[char], right: &[char]) -> (r: bool)
    ensures
        r == compare_texts(op, left@, right@),
{
    match compare_numerals(left, right) {
        Some(sign) => holds(op, sign),
        None => {
            let sign: i8 = if same(left, right) {
                0
            } else if less_text(left, right) {
                -1
            } else {
                1
            };
            holds(op, sign)
        },
    }
}

fn operator_chars(op: Comparison) -> (v: Vec<char>)
    ensures
        v@ == operator_text(op),
        v@.len() > 0,
{
    proof {
        reveal_strlit("==");
        reveal_strlit("!=");
        reveal_strlit(">=");
        reveal_strlit("<=");
        reveal_strlit(">");
        reveal_strlit("<");
    }
    match op {
        Comparison::Equal => chars_of("=="),
        Comparison::NotEqual => chars_of("!="),
        Comparison::GreaterOrEqual => chars_of(">="),
        Comparison::LessOrEqual => chars_of("<="),
        Comparison::Greater => chars_of(">"),
        Comparison::Less => chars_of("<"),
    }
}

fn has_text(s: &[char], lit: &str) -> (r: bool)
    ensures
        r == contains(s@, lit@),
{
    let l = chars_of(lit);
    has(s, l.as_slice())
}

fn find_operator(c: &[char]) -> (r: Option<Comparison>)
    ensures
        r == first_operator(c@),
{
    if has_text(c, "==") {
        Some(Comparison::Equal)
    } else if has_text(c, "!=") {
        Some(Comparison::NotEqual)
    } else if has_text(c, ">=") {
        Some(Comparison::GreaterOrEqual)
    } else if has_text(c, "<=") {
        Some(Comparison::LessOrEqual)
    } else if has_text(c, ">") {
        Some(Comparison::Greater)
    } else if has_text(c, "<") {
        Some(Comparison::Less)
    } else {
        None
    }
}

fn truthy(v: &[char]) -> (r: bool)
    ensures
        r == is_truthy(v@),
{
    let f = chars_of("false");
    let z = chars_of("0");
    v.len() > 0 && !same(v, f.as_slice()) && !same(v, z.as_slice())
}

/// Evaluates the simple expression `x`.
pub fn evaluate_simple_expression(x: &[char], context: &Value) -> (r: Vec<char>)
    ensures
        r@ == eval_simple(x@, *context),
    decreases x@.len(), 1int, 0int,
{
    let e = trimmed(x);
    proof {
        lemma_trim_len(x@);
    }
    if quoted(e.as_slice()) {
        return strip_quotes(e.as_slice());
    }
    if float_literal(e.as_slice()) {
        return e;
    }
    let plus = chars_of("+");
    proof {
        reveal_strlit("+");
    }
    if has(e.as_slice(), plus.as_slice()) {
        let parts = split_on(e.as_slice(), plus.as_slice());
        proof {
            lemma_split_shorter(e@, "+"@);
        }
        let mut out: Vec<char> = Vec::new();
        let mut i: usize = 0;
        while i < parts.len()
            invariant
                i <= parts.len(),
                views(parts@) == split(e@, "+"@),
                e@.len() <= x@.len(),
                forall|k: int|
                    0 <= k < views(parts@).len() ==> (#[trigger] views(parts@)[k]).len()
                        < e@.len(),
                out@ == concat_simple(views(parts@), *context, i as int, e@.len()),
            decreases parts.len() - i,
        {
            assert(views(parts@)[i as int] == parts@[i as int]@);
            let v = evaluate_simple_expression(parts[i].as_slice(), context);
            append(&mut out, v.as_slice());
            i += 1;
        }
        return out;
    }
    context.get_variable_value(e.as_slice())
}

/// Evaluates the condition `c`.
pub fn evaluate_condition(c: &[char], context: &Value) -> (r: Result<bool, TemplateError>)
    ensures
        r == eval_condition(c@, *context),
    decreases c@.len(), 1int, 0int,
{
    let and = chars_of("&&");
    let or = chars_of("||");
    proof {
        reveal_strlit("&&");
        reveal_strlit("||");
    }
    if has(c, and.as_slice()) {
        let parts = split_on(c, and.as_slice());
        proof {
            lemma_split_shorter(c@, "&&"@);
        }
        let mut i: usize = 0;
        while i < parts.len()
            invariant
                i <= parts.len(),
                views(parts@) == split(c@, "&&"@),
                forall|k: int|
                    0 <= k < views(parts@).len() ==> (#[trigger] views(parts@)[k]).len()
                        < c@.len(),
                eval_condition(c@, *context) == all_hold(
                    views(parts@),
                    *context,
                    i as int,
                    c@.len(),
                ),
            decreases parts.len() - i,
        {
            assert(views(parts@)[i as int] == parts@[i as int]@);
            let p = trimmed(parts[i].as_slice());
            proof {
                lemma_trim_len(parts@[i as int]@);
            }
            match evaluate_condition(p.as_slice(), context) {
                Err(e) => {
                    return Err(e);
                },
                Ok(false) => {
                    return Ok(false);
                },
                Ok(true) => {},
            }
            i += 1;
        }
        return Ok(true);
    }
    if has(c, or.as_slice()) {
        let parts = split_on(c, or.as_slice());
        proof {
            lemma_split_shorter(c@, "||"@);
        }
        let mut i: usize = 0;
        while i < parts.len()
            invariant
                i <= parts.len(),
                views(parts@) == split(c@, "||"@),
                forall|k: int|
                    0 <= k < views(parts@).len() ==> (#[trigger] views(parts@)[k]).len()
                        < c@.len(),
                eval_condition(c@, *context) == any_holds(
                    views(parts@),
                    *context,
                    i as int,
                    c@.len(),
                ),
            decreases parts.len() - i,
        {
            assert(views(parts@)[i as int] == parts@[i as int]@);
            let p = trimmed(parts[i].as_slice());
            proof {
                lemma_trim_len(parts@[i as int]@);
            }
            match evaluate_condition(p.as_slice(), context) {
                Err(e) => {
                    return Err(e);
                },
                Ok(true) => {
                    return Ok(true);
                },
                Ok(false) => {},
            }
            i += 1;
        }
        return Ok(false);
    }
    match find_operator(c) {
        Some(op) => {
            let sep = operator_chars(op);
            let parts = split_on(c, sep.as_slice());
            if parts.len() != 2 {
                return Err(TemplateError::ComparisonFormat);
            }
            assert(views(parts@)[0] == parts@[0]@);
            assert(views(parts@)[1] == parts@[1]@);
            let l = trimmed(parts[0].as_slice());
            let r = trimmed(parts[1].as_slice());
            let left = evaluate_simple_expression(l.as_slice(), context);
            let right = evaluate_simple_expression(r.as_slice(), context);
            Ok(compare(op, left.as_slice(), right.as_slice()))
        },
        None => {
            let v = evaluate_simple_expression(c, context);
            Ok(truthy(v.as_slice()))
        },
    }
}

/// Finds the first occurrence of `target` in `s[from..]` outside braces.
fn scan_braces(s: &[char], target: char, from: usize) -> (r: Option<usize>)
    ensures
        match r {
            Some(k) => brace_scan(s@, target, from as int, 0) == Some(k as int) && from <= k
                < s.len(),
            None => brace_scan(s@, target, from as int, 0) is None,
        },
{
    let mut depth: usize = 0;
    let mut i: usize = from;
    while i < s.len()
        invariant
            from <= i,
            depth <= i - from,
            brace_scan(s@, target, from as int, 0) == brace_scan(
                s@,
                target,
                i as int,
                depth as nat,
            ),
        decreases s.len() - i,
    {
        let ch = s[i];
        if ch == '{' {
            depth += 1;
        } else if ch == '}' {
            if depth > 0 {
                depth -= 1;
            }
        } else if ch == target && depth == 0 {
            return Some(i);
        }
        i += 1;
    }
    None
}

fn strip_braces(f: &[char]) -> (v: Vec<char>)
    ensures
        v@ == unbraced(f@),
{
    let n = f.len();
    if n >= 2 && f[0] == '{' && f[n - 1] == '}' {
        copy_range(f, 1, n - 1)
    } else {
        let v = copy_range(f, 0, n);
        assert(f@.subrange(0, n as int) == f@);
        v
    }
}

fn trim_each(parts: &[Vec<char>], from: usize) -> (out: Vec<Vec<char>>)
    requires
        from <= parts.len(),
    ensures
        views(out@) == trim_all(views(parts@).skip(from as int)),
{
    let mut out: Vec<Vec<char>> = Vec::new();
    let mut i: usize = from;
    while i < parts.len()
        invariant
            from <= i <= parts.len(),
            out@.len() == i - from,
            forall|k: int| 0 <= k < i - from ==> (#[trigger] out@[k])@ == trim(parts@[from + k]@),
        decreases parts.len() - i,
    {
        out.push(trimmed(parts[i].as_slice()));
        i += 1;
    }
    assert(views(out@) =~= trim_all(views(parts@).skip(from as int)));
    out
}

/// Evaluates the expression `x`.
pub fn evaluate_expression(x: &[char], context: &Value, offset: i32) -> (r: Result<
    Vec<char>,
    TemplateError,
>)
    ensures
        match r {
            Ok(v) => eval_expression(x@, *context, offset) == Ok::<Seq<char>, TemplateError>(v@),
            Err(e) => eval_expression(x@, *context, offset) == Err::<Seq<char>, TemplateError>(e),
        },
    decreases x@.len(), 1int,
{
    let e = trimmed(x);
    proof {
        lemma_trim_len(x@);
        reveal_strlit("??");
        reveal_strlit("?");
        reveal_strlit("|");
    }
    let default_mark = chars_of("??");
    if has(e.as_slice(), default_mark.as_slice()) {
        let parts = split_on(e.as_slice(), default_mark.as_slice());
        proof {
            lemma_split_shorter(e@, "??"@);
        }
        assert(views(parts@)[0] == parts@[0]@);
        assert(views(parts@)[1] == parts@[1]@);
        let a = trimmed(parts[0].as_slice());
        let first = evaluate_simple_expression(a.as_slice(), context);
        if first.len() > 0 {
            return Ok(first);
        }
        let b = trimmed(parts[1].as_slice());
        return Ok(evaluate_simple_expression(b.as_slice(), context));
    }
    let question = chars_of("?");
    if has(e.as_slice(), question.as_slice()) {
        return evaluate_ternary_expression(e.as_slice(), context, offset);
    }
    let bar = chars_of("|");
    if has(e.as_slice(), bar.as_slice()) {
        let parts = split_on(e.as_slice(), bar.as_slice());
        assert(views(parts@)[0] == parts@[0]@);
        let head = trimmed(parts[0].as_slice());
        let value = evaluate_simple_expression(head.as_slice(), context);
        let filters = trim_each(parts.as_slice(), 1);
        return Ok(apply_filters(value, filters.as_slice(), offset));
    }
    Ok(evaluate_simple_expression(e.as_slice(), context))
}

/// Evaluates the ternary `e`.
pub fn evaluate_ternary_expression(e: &[char], context: &Value, offset: i32) -> (r: Result<
    Vec<char>,
    TemplateError,
>)
    ensures
        match r {
            Ok(v) => eval_ternary(e@, *context, offset) == Ok::<Seq<char>, TemplateError>(v@),
            Err(err) => eval_ternary(e@, *context, offset) == Err::<Seq<char>, TemplateError>(err),
        },
    decreases e@.len(), 0int,
{
    let q = match scan_braces(e, '?', 0) {
        Some(q) => q,
        None => {
            return Ok(Vec::new());
        },
    };
    proof {
        lemma_utf8_length(e@, q as int);
    }
    let start = match utf8_offset(e, q, e.len()) {
        Some(b) => b,
        None => {
            // The scan would start beyond the end.
            return Ok(Vec::new());
        },
    };
    if start >= e.len() {
        return Ok(Vec::new());
    }
    let c = match scan_braces(e, ':', start + 1) {
        Some(c) => c,
        None => {
            return Ok(Vec::new());
        },
    };
    let head = copy_range(e, 0, q);
    assert(head@ == e@.take(q as int));
    let condition = trimmed(head.as_slice());
    let holds = match evaluate_condition(condition.as_slice(), context) {
        Ok(b) => b,
        Err(err) => {
            return Err(err);
        },
    };
    if holds {
        let middle = copy_range(e, q + 1, c);
        let chosen = trimmed(middle.as_slice());
        proof {
            lemma_trim_len(middle@);
        }
        evaluate_expression(chosen.as_slice(), context, offset)
    } else {
        let tail = copy_range(e, c + 1, e.len());
        assert(tail@ == e@.skip(c + 1));
        let t = trimmed(tail.as_slice());
        proof {
            lemma_trim_len(tail@);
        }
        let chosen = strip_braces(t.as_slice());
        evaluate_expression(chosen.as_slice(), context, offset)
    }
}

/// Finds the end of the expression that opens just before index `from`.
fn find_close(t: &[char], from: usize) -> (r: Option<usize>)
    requires
        1 <= from <= t.len(),
    ensures
        match r {
            Some(end) => close_brace(t@, from as int, 1) == Some(end as int) && from + 1 <= end
                <= t.len(),
            None => close_brace(t@, from as int, 1) is None,
        },
{
    let mut depth: usize = 1;
    let mut end: usize = from;
    while end < t.len() && depth > 0
        invariant
            1 <= from <= end <= t.len(),
            depth <= end - from + 1,
            close_brace(t@, from as int, 1) == close_brace(t@, end as int, depth as nat),
        decreases t.len() - end,
    {
        if t[end] == '{' {
            depth += 1;
        } else if t[end] == '}' {
            depth -= 1;
        }
        end += 1;
    }
    proof {
        lemma_close_brace(t@, from as int, 1);
    }
    if depth == 0 {
        Some(end)
    } else {
        None
    }
}

/// Rendering from an index that holds an ordinary character, or a brace
/// that opens no expression, keeps the character and goes on after it.
pub proof fn lemma_render_plain(t: Seq<char>, context: Value, offset: i32, i: int, out: Seq<char>)
    requires
        0 <= i < t.len(),
        t[i] != '{' || close_brace(t, i + 1, 1) is None,
    ensures
        prepend(out, render_from(t, context, offset, i)) == prepend(
            out.push(t[i]),
            render_from(t, context, offset, i + 1),
        ),
{
    reveal(render_from);
    match render_from(t, context, offset, i + 1) {
        Ok(rest) => {
            assert(out + (seq![t[i]] + rest) =~= out.push(t[i]) + rest);
        },
        Err(_) => {},
    }
}

/// Rendering from a brace that opens an expression puts the value of the
/// expression and goes on after the closing brace; an error of the
/// expression is the error of the rendering.
pub proof fn lemma_render_expression(
    t: Seq<char>,
    context: Value,
    offset: i32,
    i: int,
    end: int,
    out: Seq<char>,
)
    requires
        0 <= i < t.len(),
        t[i] == '{',
        close_brace(t, i + 1, 1) == Some(end),
    ensures
        i + 2 <= end <= t.len(),
        match eval_expression(t.subrange(i + 1, end - 1), context, offset) {
            Ok(v) => prepend(out, render_from(t, context, offset, i)) == prepend(
                out + v,
                render_from(t, context, offset, end),
            ),
            Err(e) => prepend(out, render_from(t, context, offset, i)) == Err::<
                Seq<char>,
                TemplateError,
            >(e),
        },
{
    reveal(render_from);
    lemma_close_brace(t, i + 1, 1);
    match eval_expression(t.subrange(i + 1, end - 1), context, offset) {
        Ok(v) => {
            match render_from(t, context, offset, end) {
                Ok(rest) => {
                    assert(out + (v + rest) =~= (out + v) + rest);
                },
                Err(_) => {},
            }
        },
        Err(_) => {},
    }
}

/// Renders the template `t`.
pub fn render_chars(t: &[char], context: &Value, offset: i32) -> (r: Result<
    Vec<char>,
    TemplateError,
>)
    ensures
        match r {
            Ok(v) => render_spec(t@, *context, offset) == Ok::<Seq<char>, TemplateError>(v@),
            Err(e) => render_spec(t@, *context, offset) == Err::<Seq<char>, TemplateError>(e),
        },
{
    let mut out: Vec<char> = Vec::new();
    let mut i: usize = 0;
    proof {
        match render_from(t@, *context, offset, 0) {
            Ok(v) => {
                assert(out@ + v =~= v);
            },
            Err(_) => {},
        }
    }
    while i < t.len()
        invariant
            i <= t.len(),
            render_spec(t@, *context, offset) == prepend(
                out@,
                render_from(t@, *context, offset, i as int),
            ),
        decreases t.len() - i,
    {
        let mut taken = false;
        if t[i] == '{' {
            match find_close(t, i + 1) {
                Some(end) => {
                    proof {
                        lemma_render_expression(t@, *context, offset, i as int, end as int, out@);
                    }
                    let inner = copy_range(t, i + 1, end - 1);
                    match evaluate_expression(inner.as_slice(), context, offset) {
                        Ok(v) => {
                            append(&mut out, v.as_slice());
                            i = end;
                            taken = true;
                        },
                        Err(e) => {
                            return Err(e);
                        },
                    }
                },
                None => {},
            }
        }
        if !taken {
            proof {
                lemma_render_plain(t@, *context, offset, i as int, out@);
            }
            out.push(t[i]);
            i += 1;
        }
    }
    proof {
        reveal(render_from);
        assert(out@ + Seq::<char>::empty() =~= out@);
    }
    Ok(out)
}

// ---------------------------------------------------------------------------
// The engine
// ---------------------------------------------------------------------------

/// A rendered template that the engine remembers.
#[derive(Debug)]
pub struct CacheEntry {
    pub template: String,
    pub rendered: String,
}

/// A template engine. It remembers what each template rendered to and
/// gives the same text when asked for that template again, whatever the
/// context.
#[derive(Debug)]
pub struct TemplateEngine {
    cache: Vec<CacheEntry>,
    utc_offset: i32,
}

/// The message of an error.
pub open spec fn error_message(e: TemplateError) -> Seq<char> {
    match e {
        TemplateError::ComparisonFormat => "比较表达式格式错误"@,
    }
}

/// The rendering that `cache` remembers for `template`: that of its first
/// entry for it.
pub open spec fn remembered(cache: Seq<CacheEntry>, template: Seq<char>) -> Option<Seq<char>>
    decreases cache.len(),
{
    if cache.len() == 0 {
        None
    } else {
        match remembered(cache.drop_last(), template) {
            Some(r) => Some(r),
            None => if cache.last().template@ == template {
                Some(cache.last().rendered@)
            } else {
                None
            },
        }
    }
}

/// What is remembered for a template is the rendering of the first entry
/// for it.
pub proof fn lemma_remembered(cache: Seq<CacheEntry>, template: Seq<char>)
    ensures
        match remembered(cache, template) {
            Some(r) => exists|i: int|
                0 <= i < cache.len() && cache[i].template@ == template && cache[i].rendered@ == r
                    && forall|j: int| 0 <= j < i ==> cache[j].template@ != template,
            None => forall|j: int| 0 <= j < cache.len() ==> cache[j].template@ != template,
        },
    decreases cache.len(),
{
    if cache.len() > 0 {
        let t = cache.drop_last();
        lemma_remembered(t, template);
        assert forall|j: int| 0 <= j < t.len() implies t[j] == cache[j] by {}
        match remembered(t, template) {
            Some(r) => {
                let i = choose|i: int|
                    0 <= i < t.len() && t[i].template@ == template && t[i].rendered@ == r
                        && forall|j: int| 0 <= j < i ==> t[j].template@ != template;
                assert(cache[i].template@ == template);
            },
            None => {
                if cache.last().template@ == template {
                    assert(cache[cache.len() - 1].template@ == template);
                }
            },
        }
    }
}

/// What `render` owes for `template`, given what the engine remembered
/// before and what the template renders to: the result `r` and what the
/// engine remembers after.
pub open spec fn render_outcome(
    before: Seq<CacheEntry>,
    after: Seq<CacheEntry>,
    template: Seq<char>,
    rendering: Result<Seq<char>, TemplateError>,
    r: Result<String, String>,
) -> bool {
    match remembered(before, template) {
        Some(text) => r is Ok && r->Ok_0@ == text && after == before,
        None => match rendering {
            Ok(text) => {
                &&& r is Ok
                &&& r->Ok_0@ == text
                &&& after.len() == before.len() + 1
                &&& after.drop_last() == before
                &&& after.last().template@ == template
                &&& after.last().rendered@ == text
            },
            Err(e) => r is Err && r->Err_0@ == error_message(e) && after == before,
        },
    }
}

/// The text of an error.
pub fn message_of(e: TemplateError) -> (s: String)
    ensures
        s@ == error_message(e),
{
    match e {
        TemplateError::ComparisonFormat => String::from_str("比较表达式格式错误"),
    }
}

impl TemplateEngine {
    /// What the engine remembers.
    pub closed spec fn cache(&self) -> Seq<CacheEntry> {
        self.cache@
    }

    /// The offset of local time from UTC, in seconds, that the `date`
    /// filter of this engine uses.
    pub closed spec fn utc_offset(&self) -> i32 {
        self.utc_offset
    }

    /// An engine that remembers nothing. Its `date` filter uses the
    /// offset of local time from UTC at the time of the call.
    pub fn new() -> (engine: Self)
        ensures
            engine.cache().len() == 0,
    {
        Self { cache: Vec::new(), utc_offset: local_offset_seconds() }
    }

    /// An engine that remembers nothing and whose `date` filter uses the
    /// given offset from UTC, in seconds.
    pub fn with_offset(utc_offset: i32) -> (engine: Self)
        ensures
            engine.cache().len() == 0,
            engine.utc_offset() == utc_offset,
    {
        Self { cache: Vec::new(), utc_offset }
    }

    /// The offset from UTC, in seconds, that the `date` filter uses.
    pub fn offset(&self) -> (r: i32)
        ensures
            r == self.utc_offset(),
    {
        self.utc_offset
    }

    /// The offset in UTF-8 bytes of the first occurrence of `target` at
    /// the top level of `s`: outside quotes and braces and not after a
    /// backslash.
    pub fn find_top_level_char(&self, s: &str, target: char) -> (r: Option<usize>)
        ensures
            match top_level_char(s@, target) {
                Some(k) => if utf8_length(s@, k) <= usize::MAX {
                    r == Some(utf8_length(s@, k) as usize)
                } else {
                    r is None
                },
                None => r is None,
            },
    {
        let c = chars_of(s);
        match find_top_level(c.as_slice(), target) {
            Some(k) => utf8_offset(c.as_slice(), k, usize::MAX),
            None => None,
        }
    }

    fn lookup(&self, template: &str) -> (r: Option<String>)
        ensures
            match r {
                Some(s) => remembered(self.cache(), template@) == Some(s@),
                None => remembered(self.cache(), template@) is None,
            },
    {
        let wanted = chars_of(template);
        let mut i: usize = 0;
        while i < self.cache.len()
            invariant
                i <= self.cache.len(),
                wanted@ == template@,
                forall|j: int| 0 <= j < i ==> self.cache@[j].template@ != template@,
            decreases self.cache.len() - i,
        {
            let have = chars_of(self.cache[i].template.as_str());
            if same(have.as_slice(), wanted.as_slice()) {
                proof {
                    lemma_remembered(self.cache@, template@);
                }
                return Some(self.cache[i].rendered.clone());
            }
            i += 1;
        }
        proof {
            lemma_remembered(self.cache@, template@);
        }
        None
    }

    /// Renders `template` in `context`.
    ///
    /// If the engine remembers a rendering of `template`, that is the
    /// result and nothing changes. Else the template is rendered; a
    /// rendering is remembered, an error is returned by its message and
    /// leaves the engine as it was.
    pub fn render(&mut self, template: &str, context: &Value) -> (r: Result<String, String>)
        ensures
            final(self).utc_offset() == old(self).utc_offset(),
            render_outcome(
                old(self).cache(),
                final(self).cache(),
                template@,
                render_spec(template@, *context, old(self).utc_offset()),
                r,
            ),
    {
        match self.lookup(template) {
            Some(s) => {
                return Ok(s);
            },
            None => {},
        }
        let t = chars_of(template);
        match render_chars(t.as_slice(), context, self.utc_offset) {
            Ok(v) => {
                let text = string_of(v.as_slice());
                let ghost before = self.cache@;
                self.cache.push(
                    CacheEntry { template: String::from_str(template), rendered: text.clone() },
                );
                assert(self.cache@.drop_last() =~= before);
                Ok(text)
            },
            Err(e) => Err(message_of(e)),
        }
    }
}

/// Whether `r` is what rendering `template` in `context` owes when the
/// `date` filter uses the offset `offset`: the rendered text, or the
/// message of the error.
pub open spec fn is_rendering(
    template: Seq<char>,
    context: Value,
    offset: i32,
    r: Result<String, String>,
) -> bool {
    match render_spec(template, context, offset) {
        Ok(text) => r is Ok && r->Ok_0@ == text,
        Err(e) => r is Err && r->Err_0@ == error_message(e),
    }
}

/// Renders `template` in `context` with a fresh engine whose `date`
/// filter uses the given offset from UTC, in seconds.
pub fn render_template_at(template: &str, context: &Value, utc_offset: i32) -> (r: Result<
    String,
    String,
>)
    ensures
        is_rendering(template@, *context, utc_offset, r),
{
    let mut engine = TemplateEngine::with_offset(utc_offset);
    engine.render(template, context)
}

/// Renders `template` in `context` with a fresh engine. The `date` filter
/// uses the offset of local time from UTC at the time of the call, so the
/// result is the rendering for some offset.
pub fn render_template(template: &str, context: &Value) -> (r: Result<String, String>)
    ensures
        exists|offset: i32| #[trigger] is_rendering(template@, *context, offset, r),
{
    let offset = local_offset_seconds();
    let r = render_template_at(template, context, offset);
    assert(is_rendering(template@, *context, offset, r));
    r
}

} // verus!
