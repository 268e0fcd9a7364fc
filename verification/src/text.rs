//! Character-sequence utilities shared by the rest of the library.
//!
//! Text is modelled as `Seq<char>`. Executable functions work on `&[char]`
//! and return `Vec<char>`; `chars_of` and `string_of` convert from and to
//! strings at the edges.

use vstd::prelude::*;

verus! {

// ---------------------------------------------------------------------------
// Conversions
// ---------------------------------------------------------------------------

/// Appends one character to a string.
///
/// Trusted: `String::push` appends exactly the given character to the end
/// of the string and changes nothing else.
#[verifier::external_body]
pub(crate) fn push_char(s: &mut String, c: char)
    ensures
        final(s)@ == old(s)@.push(c),
{
    s.push(c)
}

/// The characters of `s`, in order.
pub fn chars_of(s: &str) -> (v: Vec<char>)
    ensures
        v@ == s@,
{
    let mut v: Vec<char> = Vec::new();
    for c in it: s.chars()
        invariant
            it.seq() == s@,
            v@ == it.seq().take(it.index() as int),
    {
        v.push(c);
    }
    assert(v@ == s@);
    v
}

/// The string made of the characters of `v`, in order.
pub fn string_of(v: &[char]) -> (s: String)
    ensures
        s@ == v@,
{
    let mut s = String::new();
    let mut i: usize = 0;
    while i < v.len()
        invariant
            i <= v.len(),
            s@ == v@.take(i as int),
        decreases v.len() - i,
    {
        push_char(&mut s, v[i]);
        i += 1;
    }
    s
}

/// The view of an optional string.
pub open spec fn optional_text(o: Option<String>) -> Option<Seq<char>> {
    match o {
        Some(s) => Some(s@),
        None => None,
    }
}

/// A copy of `s[from..to]`.
pub fn copy_range(s: &[char], from: usize, to: usize) -> (v: Vec<char>)
    requires
        from <= to <= s.len(),
    ensures
        v@ == s@.subrange(from as int, to as int),
{
    let mut v: Vec<char> = Vec::new();
    let mut i: usize = from;
    while i < to
        invariant
            from <= i <= to <= s.len(),
            v@ == s@.subrange(from as int, i as int),
        decreases to - i,
    {
        v.push(s[i]);
        i += 1;
    }
    v
}

/// Appends the characters of `src` to `dst`.
pub fn append(dst: &mut Vec<char>, src: &[char])
    ensures
        final(dst)@ == old(dst)@ + src@,
{
    let mut i: usize = 0;
    while i < src.len()
        invariant
            i <= src.len(),
            dst@ == old(dst)@ + src@.take(i as int),
        decreases src.len() - i,
    {
        dst.push(src[i]);
        i += 1;
    }
    assert(src@.take(src.len() as int) == src@);
}

/// Whether two character slices hold the same characters.
pub fn same(a: &[char], b: &[char]) -> (r: bool)
    ensures
        r == (a@ == b@),
{
    if a.len() != b.len() {
        return false;
    }
    let mut i: usize = 0;
    while i < a.len()
        invariant
            i <= a.len(),
            a.len() == b.len(),
            forall|k: int| 0 <= k < i ==> a@[k] == b@[k],
        decreases a.len() - i,
    {
        if a[i] != b[i] {
            return false;
        }
        i += 1;
    }
    assert(a@ =~= b@);
    true
}

// ---------------------------------------------------------------------------
// Single characters
// ---------------------------------------------------------------------------

/// The ASCII lower-case form of `c`: `A`..`Z` map to `a`..`z`, every other
/// character to itself.
pub open spec fn ascii_lower_char(c: char) -> char {
    if 'A' <= c <= 'Z' {
        ((c as u8 + 32) as u8) as char
    } else {
        c
    }
}

/// Whether `c` is one of the Unicode white-space characters.
pub open spec fn is_whitespace(c: char) -> bool {
    let u = c as u32;
    ||| 0x09 <= u <= 0x0D
    ||| u == 0x20
    ||| u == 0x85
    ||| u == 0xA0
    ||| u == 0x1680
    ||| 0x2000 <= u <= 0x200A
    ||| u == 0x2028
    ||| u == 0x2029
    ||| u == 0x202F
    ||| u == 0x205F
    ||| u == 0x3000
}

/// Whether `c` is an ASCII decimal digit.
pub open spec fn is_digit(c: char) -> bool {
    '0' <= c <= '9'
}

/// The ASCII lower-case form of `c`.
pub fn to_ascii_lower_char(c: char) -> (r: char)
    ensures
        r == ascii_lower_char(c),
{
    if c >= 'A' && c <= 'Z' {
        ((c as u8) + 32u8) as char
    } else {
        c
    }
}

/// Whether `c` is one of the Unicode white-space characters.
pub fn char_is_whitespace(c: char) -> (r: bool)
    ensures
        r == is_whitespace(c),
{
    let u: u32 = c as u32;
    (0x09 <= u && u <= 0x0D) || u == 0x20 || u == 0x85 || u == 0xA0 || u == 0x1680 || (0x2000 <= u
        && u <= 0x200A) || u == 0x2028 || u == 0x2029 || u == 0x202F || u == 0x205F || u == 0x3000
}

/// Whether `c` is an ASCII decimal digit.
pub fn char_is_digit(c: char) -> (r: bool)
    ensures
        r == is_digit(c),
{
    c >= '0' && c <= '9'
}

// ---------------------------------------------------------------------------
// Case folding
// ---------------------------------------------------------------------------

/// `s` with every character replaced by its ASCII lower-case form.
pub open spec fn ascii_lower(s: Seq<char>) -> Seq<char> {
    s.map_values(|c: char| ascii_lower_char(c))
}

/// `s` with every character replaced by its ASCII lower-case form.
pub fn to_ascii_lower(s: &[char]) -> (v: Vec<char>)
    ensures
        v@ == ascii_lower(s@),
{
    let mut v: Vec<char> = Vec::new();
    let mut i: usize = 0;
    while i < s.len()
        invariant
            i <= s.len(),
            v@ == ascii_lower(s@.take(i as int)),
        decreases s.len() - i,
    {
        v.push(to_ascii_lower_char(s[i]));
        i += 1;
        assert(v@ =~= ascii_lower(s@.take(i as int)));
    }
    assert(s@.take(s.len() as int) == s@);
    v
}

/// The Unicode lower-case form of a text, as the standard library computes
/// it. It depends on the text alone.
pub uninterp spec fn unicode_lower(s: Seq<char>) -> Seq<char>;

/// The Unicode upper-case form of a text, as the standard library computes
/// it. It depends on the text alone.
pub uninterp spec fn unicode_upper(s: Seq<char>) -> Seq<char>;

/// Lower-cases a text by the Unicode rules.
///
/// Trusted: the result is what `str::to_lowercase` returns, which is a
/// function of the input text alone.
#[verifier::external_body]
pub(crate) fn to_unicode_lower(s: &str) -> (r: String)
    ensures
        r@ == unicode_lower(s@),
{
    s.to_lowercase()
}

/// Upper-cases a text by the Unicode rules.
///
/// Trusted: the result is what `str::to_uppercase` returns, which is a
/// function of the input text alone.
#[verifier::external_body]
pub(crate) fn to_unicode_upper(s: &str) -> (r: String)
    ensures
        r@ == unicode_upper(s@),
{
    s.to_uppercase()
}

// ---------------------------------------------------------------------------
// Searching
// ---------------------------------------------------------------------------

/// Whether `needle` occurs in `hay` starting at index `i`.
pub open spec fn matches_at(hay: Seq<char>, needle: Seq<char>, i: int) -> bool {
    &&& 0 <= i
    &&& i + needle.len() <= hay.len()
    &&& hay.subrange(i, i + needle.len()) == needle
}

/// The first index at or after `from` at which `needle` occurs in `hay`.
pub open spec fn find_from(hay: Seq<char>, needle: Seq<char>, from: int) -> Option<int>
    decreases hay.len() - from,
{
    if from < 0 || from + needle.len() > hay.len() {
        None
    } else if matches_at(hay, needle, from) {
        Some(from)
    } else if from >= hay.len() {
        None
    } else {
        find_from(hay, needle, from + 1)
    }
}

/// Whether `needle` occurs somewhere in `hay`.
pub open spec fn contains(hay: Seq<char>, needle: Seq<char>) -> bool {
    exists|i: int| matches_at(hay, needle, i)
}

/// Whether `hay` begins with `needle`.
pub open spec fn starts_with(hay: Seq<char>, needle: Seq<char>) -> bool {
    matches_at(hay, needle, 0)
}

/// Whether `hay` ends with `needle`.
pub open spec fn ends_with(hay: Seq<char>, needle: Seq<char>) -> bool {
    matches_at(hay, needle, hay.len() - needle.len())
}

/// Whether the character `c` occurs in `s`.
pub open spec fn contains_char(s: Seq<char>, c: char) -> bool {
    s.contains(c)
}

/// `find_from` returns the least matching index at or after `from`.
pub proof fn lemma_find_from(hay: Seq<char>, needle: Seq<char>, from: int)
    requires
        0 <= from,
    ensures
        match find_from(hay, needle, from) {
            Some(i) => from <= i && matches_at(hay, needle, i) && forall|j: int|
                from <= j < i ==> !matches_at(hay, needle, j),
            None => forall|j: int| from <= j ==> !matches_at(hay, needle, j),
        },
    decreases hay.len() - from,
{
    if from + needle.len() > hay.len() {
    } else if matches_at(hay, needle, from) {
    } else if from >= hay.len() {
        assert(hay.subrange(from, from + needle.len()) =~= needle);
    } else {
        lemma_find_from(hay, needle, from + 1);
    }
}

/// `contains` holds exactly when a search from the start succeeds.
pub proof fn lemma_contains_is_find(hay: Seq<char>, needle: Seq<char>)
    ensures
        contains(hay, needle) <==> find_from(hay, needle, 0) is Some,
{
    lemma_find_from(hay, needle, 0);
}

/// Whether `needle` occurs in `hay` starting at index `i`.
pub fn is_match_at(hay: &[char], needle: &[char], i: usize) -> (r: bool)
    ensures
        r == matches_at(hay@, needle@, i as int),
{
    if needle.len() > hay.len() || i > hay.len() - needle.len() {
        return false;
    }
    let mut k: usize = 0;
    while k < needle.len()
        invariant
            k <= needle.len(),
            i + needle.len() <= hay.len(),
            forall|j: int| 0 <= j < k ==> hay@[i + j] == needle@[j],
        decreases needle.len() - k,
    {
        if hay[i + k] != needle[k] {
            assert(hay@.subrange(i as int, i + needle.len())[k as int] != needle@[k as int]);
            return false;
        }
        k += 1;
    }
    assert(hay@.subrange(i as int, i + needle.len()) =~= needle@);
    true
}

/// Searches `hay` for the first occurrence of `needle` at or after `from`.
pub fn find(hay: &[char], needle: &[char], from: usize) -> (r: Option<usize>)
    ensures
        match r {
            Some(i) => find_from(hay@, needle@, from as int) == Some(i as int),
            None => find_from(hay@, needle@, from as int) is None,
        },
{
    if needle.len() > hay.len() || from > hay.len() - needle.len() {
        return None;
    }
    let last: usize = hay.len() - needle.len();
    let mut pos: usize = from;
    loop
        invariant
            from <= pos <= last,
            last == hay.len() - needle.len(),
            find_from(hay@, needle@, from as int) == find_from(hay@, needle@, pos as int),
        decreases last - pos,
    {
        if is_match_at(hay, needle, pos) {
            return Some(pos);
        }
        if pos == last {
            assert(find_from(hay@, needle@, pos + 1) is None);
            return None;
        }
        pos += 1;
    }
}

/// Whether `needle` occurs somewhere in `hay`.
pub fn has(hay: &[char], needle: &[char]) -> (r: bool)
    ensures
        r == contains(hay@, needle@),
{
    proof {
        lemma_contains_is_find(hay@, needle@);
    }
    find(hay, needle, 0).is_some()
}

/// Whether `hay` begins with `needle`.
pub fn begins_with(hay: &[char], needle: &[char]) -> (r: bool)
    ensures
        r == starts_with(hay@, needle@),
{
    is_match_at(hay, needle, 0)
}

/// Whether `hay` ends with `needle`.
pub fn finishes_with(hay: &[char], needle: &[char]) -> (r: bool)
    ensures
        r == ends_with(hay@, needle@),
{
    if needle.len() > hay.len() {
        return false;
    }
    is_match_at(hay, needle, hay.len() - needle.len())
}

/// The first index at or after `from` that holds the character `c`.
pub open spec fn find_char_from(s: Seq<char>, c: char, from: int) -> Option<int>
    decreases s.len() - from,
{
    if from < 0 || from >= s.len() {
        None
    } else if s[from] == c {
        Some(from)
    } else {
        find_char_from(s, c, from + 1)
    }
}

/// `find_char_from` returns the least index at or after `from` holding `c`.
pub proof fn lemma_find_char_from(s: Seq<char>, c: char, from: int)
    requires
        0 <= from,
    ensures
        match find_char_from(s, c, from) {
            Some(i) => from <= i < s.len() && s[i] == c && forall|j: int|
                from <= j < i ==> s[j] != c,
            None => forall|j: int| from <= j < s.len() ==> s[j] != c,
        },
    decreases s.len() - from,
{
    if from >= s.len() {
    } else if s[from] == c {
    } else {
        lemma_find_char_from(s, c, from + 1);
    }
}

/// Searches `s` for the first occurrence of the character `c` at or after
/// `from`.
pub fn find_char(s: &[char], c: char, from: usize) -> (r: Option<usize>)
    ensures
        match r {
            Some(i) => find_char_from(s@, c, from as int) == Some(i as int) && from <= i < s.len()
                && s@[i as int] == c,
            None => find_char_from(s@, c, from as int) is None,
        },
{
    let mut pos: usize = from;
    while pos < s.len()
        invariant
            from <= pos,
            find_char_from(s@, c, from as int) == find_char_from(s@, c, pos as int),
        decreases s.len() - pos,
    {
        if s[pos] == c {
            return Some(pos);
        }
        pos += 1;
    }
    None
}

/// Whether the character `c` occurs in `s`.
pub fn has_char(s: &[char], c: char) -> (r: bool)
    ensures
        r == contains_char(s@, c),
{
    proof {
        lemma_find_char_from(s@, c, 0);
    }
    let r = find_char(s, c, 0);
    proof {
        if r is Some {
            assert(s@[r->0 as int] == c);
        }
    }
    r.is_some()
}

/// The last index that holds the character `c`.
pub open spec fn rfind_char(s: Seq<char>, c: char) -> Option<int>
    decreases s.len(),
{
    if s.len() == 0 {
        None
    } else if s.last() == c {
        Some(s.len() - 1)
    } else {
        rfind_char(s.drop_last(), c)
    }
}

/// `rfind_char` returns the greatest index holding `c`.
pub proof fn lemma_rfind_char(s: Seq<char>, c: char)
    ensures
        match rfind_char(s, c) {
            Some(i) => 0 <= i < s.len() && s[i] == c && forall|j: int|
                i < j < s.len() ==> s[j] != c,
            None => forall|j: int| 0 <= j < s.len() ==> s[j] != c,
        },
    decreases s.len(),
{
    if s.len() == 0 {
    } else if s.last() == c {
    } else {
        let t = s.drop_last();
        lemma_rfind_char(t, c);
        assert forall|j: int| 0 <= j < t.len() implies t[j] == s[j] by {}
    }
}

/// Searches `s` for the last occurrence of the character `c`.
pub fn find_last_char(s: &[char], c: char) -> (r: Option<usize>)
    ensures
        match r {
            Some(i) => rfind_char(s@, c) == Some(i as int),
            None => rfind_char(s@, c) is None,
        },
{
    let mut n: usize = s.len();
    assert(s@.take(n as int) == s@);
    while n > 0
        invariant
            n <= s.len(),
            rfind_char(s@, c) == rfind_char(s@.take(n as int), c),
        decreases n,
    {
        if s[n - 1] == c {
            return Some(n - 1);
        }
        assert(s@.take(n as int).drop_last() == s@.take(n - 1));
        n -= 1;
    }
    None
}

// ---------------------------------------------------------------------------
// Trimming
// ---------------------------------------------------------------------------

/// The number of leading white-space characters of `s`.
pub open spec fn leading_whitespace(s: Seq<char>) -> nat
    decreases s.len(),
{
    if s.len() > 0 && is_whitespace(s[0]) {
        1 + leading_whitespace(s.drop_first())
    } else {
        0
    }
}

/// The number of trailing white-space characters of `s`.
pub open spec fn trailing_whitespace(s: Seq<char>) -> nat
    decreases s.len(),
{
    if s.len() > 0 && is_whitespace(s.last()) {
        1 + trailing_whitespace(s.drop_last())
    } else {
        0
    }
}

/// `s` without its leading white space.
pub open spec fn trim_start(s: Seq<char>) -> Seq<char> {
    s.skip(leading_whitespace(s) as int)
}

/// `s` without its trailing white space.
pub open spec fn trim_end(s: Seq<char>) -> Seq<char> {
    s.take(s.len() - trailing_whitespace(s))
}

/// `s` without its leading and trailing white space.
pub open spec fn trim(s: Seq<char>) -> Seq<char> {
    trim_end(trim_start(s))
}

/// The leading white space lies within the text, is white space, and is
/// followed by a character that is none, if by any.
pub proof fn lemma_leading_whitespace(s: Seq<char>)
    ensures
        leading_whitespace(s) <= s.len(),
        forall|j: int| 0 <= j < leading_whitespace(s) ==> is_whitespace(s[j]),
        leading_whitespace(s) < s.len() ==> !is_whitespace(s[leading_whitespace(s) as int]),
    decreases s.len(),
{
    if s.len() > 0 && is_whitespace(s[0]) {
        let t = s.drop_first();
        lemma_leading_whitespace(t);
        assert forall|j: int| 0 <= j < leading_whitespace(s) implies is_whitespace(s[j]) by {
            if j > 0 {
                assert(s[j] == t[j - 1]);
            }
        }
        if leading_whitespace(s) < s.len() {
            assert(s[leading_whitespace(s) as int] == t[leading_whitespace(t) as int]);
        }
    }
}

/// The trailing white space lies within the text, is white space, and is
/// preceded by a character that is none, if by any.
pub proof fn lemma_trailing_whitespace(s: Seq<char>)
    ensures
        trailing_whitespace(s) <= s.len(),
        forall|j: int|
            s.len() - trailing_whitespace(s) <= j < s.len() ==> is_whitespace(s[j]),
        trailing_whitespace(s) < s.len() ==> !is_whitespace(
            s[s.len() - trailing_whitespace(s) - 1],
        ),
    decreases s.len(),
{
    if s.len() > 0 && is_whitespace(s.last()) {
        let t = s.drop_last();
        lemma_trailing_whitespace(t);
        assert forall|j: int|
            s.len() - trailing_whitespace(s) <= j < s.len() implies is_whitespace(s[j]) by {
            if j < s.len() - 1 {
                assert(s[j] == t[j]);
            }
        }
        if trailing_whitespace(s) < s.len() {
            assert(s[s.len() - trailing_whitespace(s) - 1] == t[t.len() - trailing_whitespace(t)
                - 1]);
        }
    }
}

/// A run of `n` white-space characters followed by a different character
/// (or the end) is exactly the leading white space.
pub proof fn lemma_leading_whitespace_is(s: Seq<char>, n: int)
    requires
        0 <= n <= s.len(),
        forall|j: int| 0 <= j < n ==> is_whitespace(s[j]),
        n < s.len() ==> !is_whitespace(s[n]),
    ensures
        leading_whitespace(s) == n,
    decreases n,
{
    if n > 0 {
        let t = s.drop_first();
        assert forall|j: int| 0 <= j < n - 1 implies is_whitespace(t[j]) by {
            assert(t[j] == s[j + 1]);
        }
        if n - 1 < t.len() {
            assert(t[n - 1] == s[n]);
        }
        lemma_leading_whitespace_is(t, n - 1);
    }
}

/// A final run of `n` white-space characters preceded by a different
/// character (or the start) is exactly the trailing white space.
pub proof fn lemma_trailing_whitespace_is(s: Seq<char>, n: int)
    requires
        0 <= n <= s.len(),
        forall|j: int| s.len() - n <= j < s.len() ==> is_whitespace(s[j]),
        n < s.len() ==> !is_whitespace(s[s.len() - n - 1]),
    ensures
        trailing_whitespace(s) == n,
    decreases n,
{
    if n > 0 {
        let t = s.drop_last();
        assert forall|j: int| t.len() - (n - 1) <= j < t.len() implies is_whitespace(t[j]) by {
            assert(t[j] == s[j]);
        }
        if n - 1 < t.len() {
            assert(t[t.len() - (n - 1) - 1] == s[s.len() - n - 1]);
        }
        lemma_trailing_whitespace_is(t, n - 1);
    }
}

/// The index of the first character of `s[from..to]` that is not white
/// space, or `to` if there is none.
pub fn skip_whitespace(s: &[char], from: usize, to: usize) -> (r: usize)
    requires
        from <= to <= s.len(),
    ensures
        r == from + leading_whitespace(s@.subrange(from as int, to as int)),
        from <= r <= to,
{
    let mut i: usize = from;
    while i < to && char_is_whitespace(s[i])
        invariant
            from <= i <= to <= s.len(),
            forall|j: int| from <= j < i ==> is_whitespace(s@[j]),
        decreases to - i,
    {
        i += 1;
    }
    proof {
        let sub = s@.subrange(from as int, to as int);
        assert forall|j: int| 0 <= j < i - from implies is_whitespace(sub[j]) by {
            assert(sub[j] == s@[from + j]);
        }
        lemma_leading_whitespace_is(sub, i - from);
    }
    i
}

/// The index just past the last character of `s[from..to]` that is not
/// white space, or `from` if there is none.
pub fn skip_whitespace_back(s: &[char], from: usize, to: usize) -> (r: usize)
    requires
        from <= to <= s.len(),
    ensures
        r == to - trailing_whitespace(s@.subrange(from as int, to as int)),
        from <= r <= to,
{
    let mut i: usize = to;
    while i > from && char_is_whitespace(s[i - 1])
        invariant
            from <= i <= to <= s.len(),
            forall|j: int| i <= j < to ==> is_whitespace(s@[j]),
        decreases i,
    {
        i -= 1;
    }
    proof {
        let sub = s@.subrange(from as int, to as int);
        assert forall|j: int| sub.len() - (to - i) <= j < sub.len() implies is_whitespace(
            sub[j],
        ) by {
            assert(sub[j] == s@[from + j]);
        }
        lemma_trailing_whitespace_is(sub, to - i);
    }
    i
}

/// `s` without its leading white space.
pub fn trimmed_start(s: &[char]) -> (v: Vec<char>)
    ensures
        v@ == trim_start(s@),
{
    let a = skip_whitespace(s, 0, s.len());
    assert(s@.subrange(0, s.len() as int) == s@);
    copy_range(s, a, s.len())
}

/// `s` without its leading and trailing white space.
pub fn trimmed(s: &[char]) -> (v: Vec<char>)
    ensures
        v@ == trim(s@),
{
    let a = skip_whitespace(s, 0, s.len());
    assert(s@.subrange(0, s.len() as int) == s@);
    let b = skip_whitespace_back(s, a, s.len());
    assert(s@.subrange(a as int, s.len() as int) == trim_start(s@));
    let v = copy_range(s, a, b);
    assert(v@ =~= trim(s@));
    v
}

// ---------------------------------------------------------------------------
// Replacing and splitting
// ---------------------------------------------------------------------------

/// `s[pos..]` with every occurrence of the non-empty `pattern` replaced by
/// `with`, scanning from the left; occurrences do not overlap.
pub open spec fn replace_from(s: Seq<char>, pattern: Seq<char>, with: Seq<char>, pos: int) -> Seq<
    char,
>
    decreases s.len() - pos,
{
    if pattern.len() == 0 || pos < 0 {
        s.skip(pos)
    } else {
        match find_from(s, pattern, pos) {
            None => s.skip(pos),
            Some(i) => if pos <= i && i + pattern.len() <= s.len() {
                s.subrange(pos, i) + with + replace_from(s, pattern, with, i + pattern.len())
            } else {
                s.skip(pos)
            },
        }
    }
}

/// `with`, then each character of `s` followed by `with`.
pub open spec fn interleave(s: Seq<char>, with: Seq<char>) -> Seq<char>
    decreases s.len(),
{
    if s.len() == 0 {
        with
    } else {
        interleave(s.drop_last(), with) + seq![s.last()] + with
    }
}

/// `s` with every occurrence of `pattern` replaced by `with`. An empty
/// pattern matches before every character and at the end.
pub open spec fn replace(s: Seq<char>, pattern: Seq<char>, with: Seq<char>) -> Seq<char> {
    if pattern.len() == 0 {
        interleave(s, with)
    } else {
        replace_from(s, pattern, with, 0)
    }
}

/// `s` with every occurrence of `pattern` replaced by `with`.
pub fn replaced(s: &[char], pattern: &[char], with: &[char]) -> (v: Vec<char>)
    ensures
        v@ == replace(s@, pattern@, with@),
{
    let mut out: Vec<char> = Vec::new();
    if pattern.len() == 0 {
        append(&mut out, with);
        let mut i: usize = 0;
        assert(s@.take(0) =~= Seq::<char>::empty());
        while i < s.len()
            invariant
                i <= s.len(),
                out@ == interleave(s@.take(i as int), with@),
            decreases s.len() - i,
        {
            out.push(s[i]);
            append(&mut out, with);
            assert(s@.take(i + 1).drop_last() == s@.take(i as int));
            i += 1;
        }
        assert(s@.take(s.len() as int) == s@);
        return out;
    }
    let mut pos: usize = 0;
    loop
        invariant
            pos <= s.len(),
            pattern.len() > 0,
            out@ + replace_from(s@, pattern@, with@, pos as int) == replace(
                s@,
                pattern@,
                with@,
            ),
        decreases s.len() - pos,
    {
        proof {
            lemma_find_from(s@, pattern@, pos as int);
        }
        match find(s, pattern, pos) {
            None => {
                let rest = copy_range(s, pos, s.len());
                append(&mut out, rest.as_slice());
                return out;
            },
            Some(i) => {
                let ghost before = out@;
                let mid = copy_range(s, pos, i);
                append(&mut out, mid.as_slice());
                append(&mut out, with);
                assert(out@ + replace_from(s@, pattern@, with@, i + pattern.len()) =~= before
                    + replace_from(s@, pattern@, with@, pos as int));
                pos = i + pattern.len();
            },
        }
    }
}

/// The pieces of `s[pos..]` between occurrences of the non-empty
/// `separator`, scanning from the left.
pub open spec fn split_from(s: Seq<char>, separator: Seq<char>, pos: int) -> Seq<Seq<char>>
    decreases s.len() - pos,
{
    if separator.len() == 0 || pos < 0 {
        seq![s.skip(pos)]
    } else {
        match find_from(s, separator, pos) {
            None => seq![s.skip(pos)],
            Some(i) => if pos <= i && i + separator.len() <= s.len() {
                seq![s.subrange(pos, i)] + split_from(s, separator, i + separator.len())
            } else {
                seq![s.skip(pos)]
            },
        }
    }
}

/// The pieces of `s` between occurrences of `separator`. A text without
/// the separator is a single piece, and so is any text if the separator is
/// empty.
pub open spec fn split(s: Seq<char>, separator: Seq<char>) -> Seq<Seq<char>> {
    split_from(s, separator, 0)
}

/// The views of the elements of a vector of texts.
pub open spec fn views(v: Seq<Vec<char>>) -> Seq<Seq<char>> {
    v.map_values(|x: Vec<char>| x@)
}

/// Splits `s` at every occurrence of `separator`. With an empty separator
/// the result is `s` alone.
pub fn split_on(s: &[char], separator: &[char]) -> (parts: Vec<Vec<char>>)
    ensures
        views(parts@) == split(s@, separator@),
        parts.len() >= 1,
{
    let mut parts: Vec<Vec<char>> = Vec::new();
    if separator.len() == 0 {
        let whole = copy_range(s, 0, s.len());
        parts.push(whole);
        assert(views(parts@) =~= seq![s@.skip(0)]);
        return parts;
    }
    let mut pos: usize = 0;
    loop
        invariant
            pos <= s.len(),
            separator.len() > 0,
            views(parts@) + split_from(s@, separator@, pos as int) == split(s@, separator@),
        decreases s.len() - pos,
    {
        proof {
            lemma_find_from(s@, separator@, pos as int);
        }
        match find(s, separator, pos) {
            None => {
                let ghost before = parts@;
                let rest = copy_range(s, pos, s.len());
                parts.push(rest);
                assert(views(parts@) =~= views(before) + seq![s@.skip(pos as int)]);
                return parts;
            },
            Some(i) => {
                let ghost before = parts@;
                let piece = copy_range(s, pos, i);
                parts.push(piece);
                assert(views(parts@) =~= views(before) + seq![s@.subrange(pos as int, i as int)]);
                assert(views(parts@) + split_from(s@, separator@, i + separator.len())
                    =~= views(before) + split_from(s@, separator@, pos as int));
                pos = i + separator.len();
            },
        }
    }
}

// ---------------------------------------------------------------------------
// Trimming one character
// ---------------------------------------------------------------------------

/// The number of leading occurrences of `c` in `s`.
pub open spec fn leading_run(s: Seq<char>, c: char) -> nat
    decreases s.len(),
{
    if s.len() > 0 && s[0] == c {
        1 + leading_run(s.drop_first(), c)
    } else {
        0
    }
}

/// The number of trailing occurrences of `c` in `s`.
pub open spec fn trailing_run(s: Seq<char>, c: char) -> nat
    decreases s.len(),
{
    if s.len() > 0 && s.last() == c {
        1 + trailing_run(s.drop_last(), c)
    } else {
        0
    }
}

/// `s` without its leading occurrences of `c`.
pub open spec fn trim_char_start(s: Seq<char>, c: char) -> Seq<char> {
    s.skip(leading_run(s, c) as int)
}

/// `s` without its leading and trailing occurrences of `c`.
pub open spec fn trim_char(s: Seq<char>, c: char) -> Seq<char> {
    let t = trim_char_start(s, c);
    t.take(t.len() - trailing_run(t, c))
}

/// A run of `n` occurrences of `c` followed by a different character (or
/// the end) is exactly the leading run.
pub proof fn lemma_leading_run_is(s: Seq<char>, c: char, n: int)
    requires
        0 <= n <= s.len(),
        forall|j: int| 0 <= j < n ==> s[j] == c,
        n < s.len() ==> s[n] != c,
    ensures
        leading_run(s, c) == n,
    decreases n,
{
    if n > 0 {
        let t = s.drop_first();
        assert forall|j: int| 0 <= j < n - 1 implies t[j] == c by {
            assert(t[j] == s[j + 1]);
        }
        if n - 1 < t.len() {
            assert(t[n - 1] == s[n]);
        }
        lemma_leading_run_is(t, c, n - 1);
    }
}

/// A final run of `n` occurrences of `c` preceded by a different
/// character (or the start) is exactly the trailing run.
pub proof fn lemma_trailing_run_is(s: Seq<char>, c: char, n: int)
    requires
        0 <= n <= s.len(),
        forall|j: int| s.len() - n <= j < s.len() ==> s[j] == c,
        n < s.len() ==> s[s.len() - n - 1] != c,
    ensures
        trailing_run(s, c) == n,
    decreases n,
{
    if n > 0 {
        let t = s.drop_last();
        assert forall|j: int| t.len() - (n - 1) <= j < t.len() implies t[j] == c by {
            assert(t[j] == s[j]);
        }
        if n - 1 < t.len() {
            assert(t[t.len() - (n - 1) - 1] == s[s.len() - n - 1]);
        }
        lemma_trailing_run_is(t, c, n - 1);
    }
}

/// `s` without its leading and trailing occurrences of `c`.
pub fn trimmed_char(s: &[char], c: char) -> (v: Vec<char>)
    ensures
        v@ == trim_char(s@, c),
{
    let mut a: usize = 0;
    while a < s.len() && s[a] == c
        invariant
            a <= s.len(),
            forall|j: int| 0 <= j < a ==> s@[j] == c,
        decreases s.len() - a,
    {
        a += 1;
    }
    proof {
        lemma_leading_run_is(s@, c, a as int);
    }
    let mut b: usize = s.len();
    while b > a && s[b - 1] == c
        invariant
            a <= b <= s.len(),
            forall|j: int| b <= j < s.len() ==> s@[j] == c,
        decreases b,
    {
        b -= 1;
    }
    proof {
        let t = s@.skip(a as int);
        assert forall|j: int| t.len() - (s.len() - b) <= j < t.len() implies t[j] == c by {
            assert(t[j] == s@[a + j]);
        }
        if s.len() - b < t.len() {
            assert(t[t.len() - (s.len() - b) - 1] == s@[b - 1]);
        }
        lemma_trailing_run_is(t, c, s.len() - b);
    }
    let v = copy_range(s, a, b);
    assert(v@ =~= trim_char(s@, c));
    v
}

// ---------------------------------------------------------------------------
// Lengths
// ---------------------------------------------------------------------------

/// Trimming never makes a text longer.
pub proof fn lemma_trim_len(s: Seq<char>)
    ensures
        trim(s).len() <= s.len(),
        trim_start(s).len() <= s.len(),
{
    lemma_leading_whitespace(s);
    lemma_trailing_whitespace(trim_start(s));
}

/// Every piece of `s[pos..]` is at most as long as `s[pos..]`, and there
/// is at least one piece.
pub proof fn lemma_split_from_len(s: Seq<char>, separator: Seq<char>, pos: int)
    requires
        0 <= pos <= s.len(),
    ensures
        split_from(s, separator, pos).len() >= 1,
        forall|i: int|
            0 <= i < split_from(s, separator, pos).len() ==> (#[trigger] split_from(
                s,
                separator,
                pos,
            )[i]).len() <= s.len() - pos,
    decreases s.len() - pos,
{
    if separator.len() == 0 {
    } else {
        lemma_find_from(s, separator, pos);
        match find_from(s, separator, pos) {
            None => {},
            Some(i) => {
                lemma_split_from_len(s, separator, i + separator.len());
                let rest = split_from(s, separator, i + separator.len());
                let all = split_from(s, separator, pos);
                assert(all == seq![s.subrange(pos, i)] + rest);
                assert forall|k: int| 0 <= k < all.len() implies (#[trigger] all[k]).len()
                    <= s.len() - pos by {
                    if k > 0 {
                        assert(all[k] == rest[k - 1]);
                    }
                }
            },
        }
    }
}

/// If the separator occurs in `s`, the pieces of `s` are at least two and
/// each is shorter than `s`.
pub proof fn lemma_split_shorter(s: Seq<char>, separator: Seq<char>)
    requires
        separator.len() > 0,
        contains(s, separator),
    ensures
        split(s, separator).len() >= 2,
        forall|i: int|
            0 <= i < split(s, separator).len() ==> (#[trigger] split(s, separator)[i]).len()
                < s.len(),
{
    lemma_contains_is_find(s, separator);
    lemma_find_from(s, separator, 0);
    let i = find_from(s, separator, 0)->0;
    lemma_split_from_len(s, separator, i + separator.len());
    let rest = split_from(s, separator, i + separator.len());
    let all = split(s, separator);
    assert(all == seq![s.subrange(0, i)] + rest);
    assert forall|k: int| 0 <= k < all.len() implies (#[trigger] all[k]).len() < s.len() by {
        if k > 0 {
            assert(all[k] == rest[k - 1]);
        }
    }
}

// ---------------------------------------------------------------------------
// The order of texts
// ---------------------------------------------------------------------------

/// Whether `a` comes before `b` in the order of texts: character by
/// character, by code point; a proper prefix comes first.
pub open spec fn text_less(a: Seq<char>, b: Seq<char>) -> bool
    decreases a.len(),
{
    if b.len() == 0 {
        false
    } else if a.len() == 0 {
        true
    } else if a[0] != b[0] {
        a[0] < b[0]
    } else {
        text_less(a.skip(1), b.skip(1))
    }
}

/// Whether `a` comes before `b` in the order of texts.
pub fn less_text(a: &[char], b: &[char]) -> (r: bool)
    ensures
        r == text_less(a@, b@),
{
    let mut i: usize = 0;
    assert(a@.skip(0) == a@);
    assert(b@.skip(0) == b@);
    while i < a.len() && i < b.len()
        invariant
            i <= a.len(),
            i <= b.len(),
            text_less(a@, b@) == text_less(a@.skip(i as int), b@.skip(i as int)),
        decreases a.len() - i,
    {
        if a[i] != b[i] {
            assert(a@.skip(i as int)[0] == a@[i as int]);
            assert(b@.skip(i as int)[0] == b@[i as int]);
            return a[i] < b[i];
        }
        assert(a@.skip(i as int)[0] == a@[i as int]);
        assert(b@.skip(i as int)[0] == b@[i as int]);
        assert(a@.skip(i as int).skip(1) == a@.skip(i + 1));
        assert(b@.skip(i as int).skip(1) == b@.skip(i + 1));
        i += 1;
    }
    i < b.len()
}

/// No text comes before itself.
pub proof fn lemma_text_less_irreflexive(a: Seq<char>)
    ensures
        !text_less(a, a),
    decreases a.len(),
{
    if a.len() > 0 {
        lemma_text_less_irreflexive(a.skip(1));
    }
}

/// Of two different texts one comes before the other.
pub proof fn lemma_text_less_total(a: Seq<char>, b: Seq<char>)
    requires
        a != b,
    ensures
        text_less(a, b) || text_less(b, a),
    decreases a.len(),
{
    if a.len() > 0 && b.len() > 0 && a[0] == b[0] {
        if a.skip(1) == b.skip(1) {
            assert(a =~= seq![a[0]] + a.skip(1));
            assert(b =~= seq![b[0]] + b.skip(1));
            assert(a == b);
        } else {
            lemma_text_less_total(a.skip(1), b.skip(1));
        }
    } else if a.len() == 0 && b.len() == 0 {
        assert(a =~= b);
    } else if a.len() > 0 && b.len() > 0 {
        assert(a[0] < b[0] || b[0] < a[0]);
    }
}

/// If `a` comes before `b`, then `b` does not come before `a`.
pub proof fn lemma_text_less_asymmetric(a: Seq<char>, b: Seq<char>)
    requires
        text_less(a, b),
    ensures
        !text_less(b, a),
    decreases a.len(),
{
    if a.len() > 0 && b.len() > 0 && a[0] == b[0] {
        lemma_text_less_asymmetric(a.skip(1), b.skip(1));
    }
}

/// The order of texts is transitive.
pub proof fn lemma_text_less_transitive(a: Seq<char>, b: Seq<char>, c: Seq<char>)
    requires
        text_less(a, b),
        text_less(b, c),
    ensures
        text_less(a, c),
    decreases a.len(),
{
    if a.len() > 0 && b.len() > 0 && c.len() > 0 && a[0] == b[0] && b[0] == c[0] {
        lemma_text_less_transitive(a.skip(1), b.skip(1), c.skip(1));
    }
}

} // verus!
