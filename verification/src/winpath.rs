//! Windows-style paths as plain text.
//!
//! A path is a sequence of characters whose components are separated by
//! `\` or `/`. Paths are compared without regard to ASCII case or to which
//! of the two separators is used. Nothing here touches a file system.

use crate::text::{
    append, ascii_lower_char, begins_with, copy_range, find_last_char, lemma_rfind_char,
    rfind_char, same, starts_with, to_ascii_lower_char,
};
use vstd::prelude::*;

verus! {

/// Whether `c` separates path components.
pub open spec fn is_separator(c: char) -> bool {
    c == '\\' || c == '/'
}

/// Whether `c` separates path components.
pub fn char_is_separator(c: char) -> (r: bool)
    ensures
        r == is_separator(c),
{
    c == '\\' || c == '/'
}

/// The index of the last separator of `p`.
pub open spec fn last_separator(p: Seq<char>) -> Option<int>
    decreases p.len(),
{
    if p.len() == 0 {
        None
    } else if is_separator(p.last()) {
        Some(p.len() - 1)
    } else {
        last_separator(p.drop_last())
    }
}

/// The index of the last separator of `p`.
pub fn find_last_separator(p: &[char]) -> (r: Option<usize>)
    ensures
        match r {
            Some(i) => last_separator(p@) == Some(i as int) && i < p.len(),
            None => last_separator(p@) is None,
        },
{
    let mut n: usize = p.len();
    assert(p@.take(n as int) == p@);
    while n > 0
        invariant
            n <= p.len(),
            last_separator(p@) == last_separator(p@.take(n as int)),
        decreases n,
    {
        if char_is_separator(p[n - 1]) {
            return Some(n - 1);
        }
        assert(p@.take(n as int).drop_last() == p@.take(n - 1));
        n -= 1;
    }
    None
}

/// The last component of `p`: what follows its last separator, or all of
/// `p` if it has none.
pub open spec fn file_name(p: Seq<char>) -> Seq<char> {
    match last_separator(p) {
        Some(i) => p.skip(i + 1),
        None => p,
    }
}

/// `p` without its last component and the separator before it; empty if
/// `p` has no separator.
pub open spec fn parent(p: Seq<char>) -> Seq<char> {
    match last_separator(p) {
        Some(i) => p.take(i),
        None => Seq::empty(),
    }
}

/// The last component of `p`.
pub fn file_name_of(p: &[char]) -> (v: Vec<char>)
    ensures
        v@ == file_name(p@),
{
    match find_last_separator(p) {
        Some(i) => copy_range(p, i + 1, p.len()),
        None => {
            assert(p@.subrange(0, p.len() as int) == p@);
            copy_range(p, 0, p.len())
        },
    }
}

/// `p` without its last component and the separator before it.
pub fn parent_of(p: &[char]) -> (v: Vec<char>)
    ensures
        v@ == parent(p@),
{
    match find_last_separator(p) {
        Some(i) => copy_range(p, 0, i),
        None => Vec::new(),
    }
}

/// The index of the dot that starts the extension of the file name `name`:
/// its last dot, unless that is the first character.
pub open spec fn extension_dot(name: Seq<char>) -> Option<int> {
    match rfind_char(name, '.') {
        Some(i) => if i > 0 {
            Some(i)
        } else {
            None
        },
        None => None,
    }
}

/// The file name `name` without its extension.
pub open spec fn stem(name: Seq<char>) -> Seq<char> {
    match extension_dot(name) {
        Some(i) => name.take(i),
        None => name,
    }
}

/// The extension of the file name `name`, without the dot.
pub open spec fn extension(name: Seq<char>) -> Option<Seq<char>> {
    match extension_dot(name) {
        Some(i) => Some(name.skip(i + 1)),
        None => None,
    }
}

fn find_extension_dot(name: &[char]) -> (r: Option<usize>)
    ensures
        match r {
            Some(i) => extension_dot(name@) == Some(i as int) && 0 < i < name.len(),
            None => extension_dot(name@) is None,
        },
{
    proof {
        lemma_rfind_char(name@, '.');
    }
    match find_last_char(name, '.') {
        Some(i) => if i > 0 {
            Some(i)
        } else {
            None
        },
        None => None,
    }
}

/// The file name `name` without its extension.
pub fn stem_of(name: &[char]) -> (v: Vec<char>)
    ensures
        v@ == stem(name@),
{
    match find_extension_dot(name) {
        Some(i) => copy_range(name, 0, i),
        None => {
            assert(name@.subrange(0, name.len() as int) == name@);
            copy_range(name, 0, name.len())
        },
    }
}

/// The extension of the file name `name`, without the dot.
pub fn extension_of(name: &[char]) -> (r: Option<Vec<char>>)
    ensures
        match r {
            Some(v) => extension(name@) == Some(v@),
            None => extension(name@) is None,
        },
{
    match find_extension_dot(name) {
        Some(i) => Some(copy_range(name, i + 1, name.len())),
        None => None,
    }
}

/// Whether `c` is an ASCII letter.
pub open spec fn is_ascii_letter(c: char) -> bool {
    ('a' <= c <= 'z') || ('A' <= c <= 'Z')
}

/// Whether `p` is a bare drive: a letter and a colon, nothing else.
pub open spec fn is_bare_drive(p: Seq<char>) -> bool {
    p.len() == 2 && is_ascii_letter(p[0]) && p[1] == ':'
}

/// Whether `p` starts with a drive: a letter and a colon.
pub open spec fn has_drive(p: Seq<char>) -> bool {
    p.len() >= 2 && is_ascii_letter(p[0]) && p[1] == ':'
}

/// Whether `p` is absolute: a drive followed by a separator, or a path
/// that starts with two separators.
pub open spec fn is_absolute(p: Seq<char>) -> bool {
    ||| has_drive(p) && p.len() >= 3 && is_separator(p[2])
    ||| p.len() >= 2 && is_separator(p[0]) && is_separator(p[1])
}

/// Whether `c` is an ASCII letter.
pub fn char_is_ascii_letter(c: char) -> (r: bool)
    ensures
        r == is_ascii_letter(c),
{
    (c >= 'a' && c <= 'z') || (c >= 'A' && c <= 'Z')
}

/// Whether `p` is a bare drive: a letter and a colon, nothing else.
pub fn is_bare_drive_path(p: &[char]) -> (r: bool)
    ensures
        r == is_bare_drive(p@),
{
    p.len() == 2 && char_is_ascii_letter(p[0]) && p[1] == ':'
}

/// Whether `p` is absolute.
pub fn is_absolute_path(p: &[char]) -> (r: bool)
    ensures
        r == is_absolute(p@),
{
    if p.len() >= 3 && char_is_ascii_letter(p[0]) && p[1] == ':' && char_is_separator(p[2]) {
        true
    } else {
        p.len() >= 2 && char_is_separator(p[0]) && char_is_separator(p[1])
    }
}

/// `base` extended by the component `name`. A `\` is put between them
/// unless `base` is empty or already ends with a separator.
pub open spec fn join(base: Seq<char>, name: Seq<char>) -> Seq<char> {
    if base.len() == 0 {
        name
    } else if is_separator(base.last()) {
        base + name
    } else {
        base + seq!['\\'] + name
    }
}

/// `base` extended by the component `name`.
pub fn joined(base: &[char], name: &[char]) -> (v: Vec<char>)
    ensures
        v@ == join(base@, name@),
{
    let mut v: Vec<char> = Vec::new();
    append(&mut v, base);
    if base.len() > 0 && !char_is_separator(base[base.len() - 1]) {
        v.push('\\');
    }
    append(&mut v, name);
    assert(v@ =~= join(base@, name@));
    v
}

/// The form of one character under which paths are compared.
pub open spec fn key_char(c: char) -> char {
    if c == '/' {
        '\\'
    } else {
        ascii_lower_char(c)
    }
}

/// The form of `p` under which paths are compared: ASCII lower case, with
/// `\` for every separator.
pub open spec fn path_key(p: Seq<char>) -> Seq<char> {
    p.map_values(|c: char| key_char(c))
}

/// Whether two paths are the same, ASCII case and separator style aside.
pub open spec fn same_path(a: Seq<char>, b: Seq<char>) -> bool {
    path_key(a) == path_key(b)
}

/// Whether `path` is `root` or lies below it.
pub open spec fn is_within(path: Seq<char>, root: Seq<char>) -> bool {
    let p = path_key(path);
    let r = path_key(root);
    &&& starts_with(p, r)
    &&& (p.len() == r.len() || p[r.len() as int] == '\\' || (r.len() > 0 && r.last() == '\\'))
}

/// Whether one of the two paths is the other or lies below it.
pub open spec fn overlaps(a: Seq<char>, b: Seq<char>) -> bool {
    is_within(a, b) || is_within(b, a)
}

/// The form of one character under which paths are compared.
pub fn to_key_char(c: char) -> (r: char)
    ensures
        r == key_char(c),
{
    if c == '/' {
        '\\'
    } else {
        to_ascii_lower_char(c)
    }
}

/// The form of `p` under which paths are compared.
pub fn path_key_of(p: &[char]) -> (v: Vec<char>)
    ensures
        v@ == path_key(p@),
{
    let mut v: Vec<char> = Vec::new();
    let mut i: usize = 0;
    while i < p.len()
        invariant
            i <= p.len(),
            v@ == path_key(p@.take(i as int)),
        decreases p.len() - i,
    {
        v.push(to_key_char(p[i]));
        i += 1;
        assert(v@ =~= path_key(p@.take(i as int)));
    }
    assert(p@.take(p.len() as int) == p@);
    v
}

/// Whether two paths are the same, ASCII case and separator style aside.
pub fn is_same_path(a: &[char], b: &[char]) -> (r: bool)
    ensures
        r == same_path(a@, b@),
{
    let ka = path_key_of(a);
    let kb = path_key_of(b);
    same(ka.as_slice(), kb.as_slice())
}

/// Whether `path` is `root` or lies below it.
pub fn lies_within(path: &[char], root: &[char]) -> (r: bool)
    ensures
        r == is_within(path@, root@),
{
    let p = path_key_of(path);
    let k = path_key_of(root);
    if !begins_with(p.as_slice(), k.as_slice()) {
        return false;
    }
    p.len() == k.len() || p[k.len()] == '\\' || (k.len() > 0 && k[k.len() - 1] == '\\')
}

/// Whether one of the two paths is the other or lies below it.
pub fn do_overlap(a: &[char], b: &[char]) -> (r: bool)
    ensures
        r == overlaps(a@, b@),
{
    lies_within(a, b) || lies_within(b, a)
}

} // verus!
