//! Small helpers: glob matching, expansion of environment placeholders in
//! paths, and checks on paths given on the command line.

use crate::number::{parse_unsigned, unsigned_value};
use crate::text::{
    append, ascii_lower, begins_with, chars_of, contains, copy_range, ends_with, finishes_with,
    has, replace, replaced, same, split, split_on, starts_with, string_of, to_ascii_lower,
    to_unicode_lower, trim, trim_char, trimmed, trimmed_char, unicode_lower, views,
};
use crate::winpath::{is_bare_drive, is_bare_drive_path, join, joined};
use vstd::prelude::*;

verus! {

// ---------------------------------------------------------------------------
// Glob matching
// ---------------------------------------------------------------------------

/// Whether the file name `name` matches the pattern `pattern`, both given
/// in lower case. A pattern that starts with `*` and does not end with one
/// asks for a suffix; one that ends with `*` and does not start with one
/// asks for a prefix; any other pattern asks that the name contain the
/// pattern without its leading and trailing `*`.
pub open spec fn glob_matches(pattern: Seq<char>, name: Seq<char>) -> bool {
    let star_first = pattern.len() > 0 && pattern[0] == '*';
    let star_last = pattern.len() > 0 && pattern.last() == '*';
    if star_first && !star_last {
        ends_with(name, pattern.skip(1))
    } else if !star_first && star_last {
        starts_with(name, pattern.drop_last())
    } else {
        contains(name, trim_char(pattern, '*'))
    }
}

/// Whether `name` matches `pattern`, both given in lower case.
pub fn glob_matches_folded(pattern: &[char], name: &[char]) -> (r: bool)
    ensures
        r == glob_matches(pattern@, name@),
{
    let n = pattern.len();
    let star_first = n > 0 && pattern[0] == '*';
    let star_last = n > 0 && pattern[n - 1] == '*';
    if star_first && !star_last {
        let rest = copy_range(pattern, 1, n);
        assert(rest@ == pattern@.skip(1));
        finishes_with(name, rest.as_slice())
    } else if !star_first && star_last {
        let rest = copy_range(pattern, 0, n - 1);
        assert(rest@ == pattern@.drop_last());
        begins_with(name, rest.as_slice())
    } else {
        let core = trimmed_char(pattern, '*');
        has(name, core.as_slice())
    }
}

/// Whether the file name matches the glob pattern, case aside: both are
/// lower-cased and then matched.
pub fn matches_glob(pattern: &str, filename: &str) -> (r: bool)
    ensures
        r == glob_matches(unicode_lower(pattern@), unicode_lower(filename@)),
{
    let p = to_unicode_lower(pattern);
    let f = to_unicode_lower(filename);
    let pc = chars_of(p.as_str());
    let fc = chars_of(f.as_str());
    glob_matches_folded(pc.as_slice(), fc.as_slice())
}

// ---------------------------------------------------------------------------
// Environment placeholders
// ---------------------------------------------------------------------------

/// A variable of the environment.
#[derive(Clone, Debug)]
pub struct EnvVar {
    pub key: String,
    pub value: String,
}

/// The directory of the start menu's programs, relative to a user profile.
pub const PROGRAMS_SUBPATH: &'static str =
    "AppData/Roaming/Microsoft/Windows/Start Menu/Programs";

/// The placeholder of the variable `key`: its lower-cased name between
/// percent signs.
pub open spec fn placeholder(key: Seq<char>) -> Seq<char> {
    seq!['%'] + unicode_lower(key) + seq!['%']
}

/// `text` with `%desktop%` and `%programs%` replaced by the two
/// directories of the user profile, if there is one.
pub open spec fn expand_profile(text: Seq<char>, profile: Option<Seq<char>>) -> Seq<char> {
    match profile {
        None => text,
        Some(home) => replace(
            replace(text, "%desktop%"@, join(home, "Desktop"@)),
            "%programs%"@,
            join(home, PROGRAMS_SUBPATH@),
        ),
    }
}

/// `text` with the placeholders of the first `n` of `vars` replaced by
/// their values, one variable after the other.
pub open spec fn expand_vars(text: Seq<char>, vars: Seq<EnvVar>, n: int) -> Seq<char>
    decreases n,
{
    if n <= 0 || n > vars.len() {
        text
    } else {
        replace(expand_vars(text, vars, n - 1), placeholder(vars[n - 1].key@), vars[n - 1].value@)
    }
}

/// `text`, already in lower case, with the placeholders of the user
/// profile and then those of the environment replaced.
pub open spec fn expand_lowered(text: Seq<char>, profile: Option<Seq<char>>, vars: Seq<EnvVar>) -> Seq<
    char,
> {
    expand_vars(expand_profile(text, profile), vars, vars.len() as int)
}

/// The view of an optional string.
pub open spec fn optional_view(o: Option<&str>) -> Option<Seq<char>> {
    match o {
        Some(s) => Some(s@),
        None => None,
    }
}

/// Expands the placeholders in `text`, which is already in lower case.
pub fn expand_placeholders(text: &[char], user_profile: Option<&str>, vars: &[EnvVar]) -> (out: Vec<
    char,
>)
    ensures
        out@ == expand_lowered(text@, optional_view(user_profile), vars@),
{
    let mut out: Vec<char> = copy_range(text, 0, text.len());
    assert(out@ == text@) by {
        assert(text@.subrange(0, text@.len() as int) == text@);
    }
    match user_profile {
        Some(home) => {
            let h = chars_of(home);
            let desktop_name = chars_of("Desktop");
            let desktop = joined(h.as_slice(), desktop_name.as_slice());
            let desktop_key = chars_of("%desktop%");
            out = replaced(out.as_slice(), desktop_key.as_slice(), desktop.as_slice());
            let programs_name = chars_of(PROGRAMS_SUBPATH);
            let programs = joined(h.as_slice(), programs_name.as_slice());
            let programs_key = chars_of("%programs%");
            out = replaced(out.as_slice(), programs_key.as_slice(), programs.as_slice());
        },
        None => {},
    }
    let ghost base = out@;
    let mut i: usize = 0;
    while i < vars.len()
        invariant
            i <= vars.len(),
            base == expand_profile(text@, optional_view(user_profile)),
            out@ == expand_vars(base, vars@, i as int),
        decreases vars.len() - i,
    {
        let low = to_unicode_lower(vars[i].key.as_str());
        let low_chars = chars_of(low.as_str());
        let mut key: Vec<char> = Vec::new();
        key.push('%');
        append(&mut key, low_chars.as_slice());
        key.push('%');
        assert(key@ =~= placeholder(vars@[i as int].key@));
        let value = chars_of(vars[i].value.as_str());
        out = replaced(out.as_slice(), key.as_slice(), value.as_slice());
        i += 1;
    }
    out
}

/// Expands the placeholders of a path: the path is lower-cased; then
/// `%desktop%` and `%programs%` are replaced if a user profile is given,
/// and then the placeholder of every variable in `vars`, in order.
pub fn process_env(path: &str, user_profile: Option<&str>, vars: &[EnvVar]) -> (out: String)
    ensures
        out@ == expand_lowered(unicode_lower(path@), optional_view(user_profile), vars@),
{
    let low = to_unicode_lower(path);
    let c = chars_of(low.as_str());
    let v = expand_placeholders(c.as_slice(), user_profile, vars);
    string_of(v.as_slice())
}

// ---------------------------------------------------------------------------
// Paths given on the command line
// ---------------------------------------------------------------------------

/// `s` with a `\` added if it is a bare drive such as `C:`.
pub open spec fn drive_root_normalized(s: Seq<char>) -> Seq<char> {
    if is_bare_drive(s) {
        s.push('\\')
    } else {
        s
    }
}

/// Turns a bare drive such as `C:` into its root `C:\`; any other text is
/// returned as it is.
pub fn normalize_drive_root(s: &str) -> (r: String)
    ensures
        r@ == drive_root_normalized(s@),
{
    let mut c = chars_of(s);
    if is_bare_drive_path(c.as_slice()) {
        c.push('\\');
    }
    string_of(c.as_slice())
}

/// The text `prefix` followed by `path`.
fn message(prefix: &str, path: &str) -> (r: String)
    ensures
        r@ == prefix@ + path@,
{
    let mut out = chars_of(prefix);
    let p = chars_of(path);
    append(&mut out, p.as_slice());
    string_of(out.as_slice())
}

/// Accepts a path that names an existing file. `exists` and `is_file` say
/// what the file system reported of `path`.
pub fn exist_file_parser(path: &str, exists: bool, is_file: bool) -> (r: Result<String, String>)
    ensures
        match r {
            Ok(p) => exists && is_file && p@ == path@,
            Err(e) => if !exists {
                e@ == "File not found: "@ + path@
            } else {
                !is_file && e@ == "Path is not a file: "@ + path@
            },
        },
{
    if !exists {
        return Err(message("File not found: ", path));
    }
    if !is_file {
        return Err(message("Path is not a file: ", path));
    }
    Ok(String::from_str(path))
}

/// Accepts a path that names an existing directory. `exists` and `is_dir`
/// say what the file system reported of `path`.
pub fn exist_dir_parser(path: &str, exists: bool, is_dir: bool) -> (r: Result<String, String>)
    ensures
        match r {
            Ok(p) => exists && is_dir && p@ == path@,
            Err(e) => if !exists {
                e@ == "Dir does not exist: "@ + path@
            } else {
                !is_dir && e@ == "Path is not a dir: "@ + path@
            },
        },
{
    if !exists {
        return Err(message("Dir does not exist: ", path));
    }
    if !is_dir {
        return Err(message("Path is not a dir: ", path));
    }
    Ok(String::from_str(path))
}

// ---------------------------------------------------------------------------
// Hotkeys
// ---------------------------------------------------------------------------

/// Why a text is no hotkey.
#[derive(Clone, Copy, Debug, PartialEq, Eq, Structural)]
pub enum HotkeyError {
    /// The text is empty.
    Empty,
    /// A part names neither a modifier nor a key.
    UnknownKey,
    /// More than one part names a key.
    SeveralKeys,
    /// No part names a key.
    NoKey,
}

/// The modifiers of a hotkey.
#[derive(Clone, Copy, Debug, PartialEq, Eq, Structural)]
pub struct Modifiers {
    pub shift: bool,
    pub ctrl: bool,
    pub alt: bool,
    pub win: bool,
}

/// The modifiers and the key read so far.
#[derive(Clone, Copy, Debug, PartialEq, Eq, Structural)]
pub struct Chord {
    pub modifiers: Modifiers,
    pub key: Option<u8>,
}

/// The number of the function key that `t` names: `f` followed by a
/// number from 1 to 24 without a sign or a leading zero.
pub open spec fn function_key(t: Seq<char>) -> Option<int> {
    if t.len() >= 2 && t[0] == 'f' && t[1] != '0' && t[1] != '+' {
        match unsigned_value(t.skip(1)) {
            Some(n) => if 1 <= n <= 24 {
                Some(n)
            } else {
                None
            },
            None => None,
        }
    } else {
        None
    }
}

/// The virtual-key code that the part `t`, given in lower case, names: a
/// letter, a digit, `f1` to `f24`, or one of `space`, `enter`, `tab` and
/// `delete`.
pub open spec fn key_code(t: Seq<char>) -> Option<u8> {
    if t.len() == 1 && 'a' <= t[0] <= 'z' {
        Some((t[0] as u8 - 32) as u8)
    } else if t.len() == 1 && '0' <= t[0] <= '9' {
        Some(t[0] as u8)
    } else if function_key(t) is Some {
        Some((0x6F + function_key(t)->0) as u8)
    } else if t == "space"@ {
        Some(0x20u8)
    } else if t == "enter"@ {
        Some(0x0Du8)
    } else if t == "tab"@ {
        Some(0x09u8)
    } else if t == "delete"@ {
        Some(0x2Eu8)
    } else {
        None
    }
}

/// The chord after the part `t`, given in lower case, was read.
pub open spec fn chord_with(chord: Chord, t: Seq<char>) -> Result<Chord, HotkeyError> {
    let m = chord.modifiers;
    if t == "ctrl"@ || t == "control"@ {
        Ok(Chord { modifiers: Modifiers { ctrl: true, ..m }, key: chord.key })
    } else if t == "alt"@ {
        Ok(Chord { modifiers: Modifiers { alt: true, ..m }, key: chord.key })
    } else if t == "shift"@ {
        Ok(Chord { modifiers: Modifiers { shift: true, ..m }, key: chord.key })
    } else if t == "win"@ || t == "meta"@ {
        Ok(Chord { modifiers: Modifiers { win: true, ..m }, key: chord.key })
    } else {
        match key_code(t) {
            Some(k) => if chord.key is Some {
                Err(HotkeyError::SeveralKeys)
            } else {
                Ok(Chord { modifiers: m, key: Some(k) })
            },
            None => Err(HotkeyError::UnknownKey),
        }
    }
}

/// The chord after the first `n` of `parts` were read, each trimmed and
/// taken in lower case; the first part that cannot be read decides.
pub open spec fn chord_of(parts: Seq<Seq<char>>, n: int) -> Result<Chord, HotkeyError>
    decreases n,
{
    if n <= 0 || n > parts.len() {
        Ok(
            Chord {
                modifiers: Modifiers { shift: false, ctrl: false, alt: false, win: false },
                key: None,
            },
        )
    } else {
        match chord_of(parts, n - 1) {
            Ok(c) => chord_with(c, ascii_lower(trim(parts[n - 1]))),
            Err(e) => Err(e),
        }
    }
}

/// The number of a set of modifiers: 1 for shift, 2 for control, 4 for
/// alt and 8 for the Windows key, added up.
pub open spec fn modifier_bits(m: Modifiers) -> int {
    (if m.shift {
        1int
    } else {
        0int
    }) + (if m.ctrl {
        2int
    } else {
        0int
    }) + (if m.alt {
        4int
    } else {
        0int
    }) + (if m.win {
        8int
    } else {
        0int
    })
}

/// The hotkey that `s` spells: parts separated by `+`, any number of
/// modifiers and exactly one key, in any case. The value holds the
/// modifiers in its high byte and the virtual-key code in its low byte.
pub open spec fn hotkey_of(s: Seq<char>) -> Result<u16, HotkeyError> {
    if trim(s).len() == 0 {
        Err(HotkeyError::Empty)
    } else {
        match chord_of(split(s, "+"@), split(s, "+"@).len() as int) {
            Err(e) => Err(e),
            Ok(c) => match c.key {
                None => Err(HotkeyError::NoKey),
                Some(k) => Ok((256 * modifier_bits(c.modifiers) + k) as u16),
            },
        }
    }
}

fn is_word(s: &[char], lit: &str) -> (r: bool)
    ensures
        r == (s@ == lit@),
{
    let l = chars_of(lit);
    same(s, l.as_slice())
}

fn key_code_of(t: &[char]) -> (r: Option<u8>)
    ensures
        r == key_code(t@),
{
    if t.len() == 1 && t[0] >= 'a' && t[0] <= 'z' {
        return Some((t[0] as u8) - 32);
    }
    if t.len() == 1 && t[0] >= '0' && t[0] <= '9' {
        return Some(t[0] as u8);
    }
    if t.len() >= 2 && t[0] == 'f' && t[1] != '0' && t[1] != '+' {
        let digits = copy_range(t, 1, t.len());
        assert(digits@ == t@.skip(1));
        match parse_unsigned(digits.as_slice()) {
            Some(n) => {
                if 1 <= n && n <= 24 {
                    return Some((0x6F + n) as u8);
                }
            },
            None => {},
        }
    }
    if is_word(t, "space") {
        Some(0x20)
    } else if is_word(t, "enter") {
        Some(0x0D)
    } else if is_word(t, "tab") {
        Some(0x09)
    } else if is_word(t, "delete") {
        Some(0x2E)
    } else {
        None
    }
}

fn read_part(chord: Chord, t: &[char]) -> (r: Result<Chord, HotkeyError>)
    ensures
        r == chord_with(chord, t@),
{
    let m = chord.modifiers;
    if is_word(t, "ctrl") || is_word(t, "control") {
        Ok(
            Chord {
                modifiers: Modifiers { shift: m.shift, ctrl: true, alt: m.alt, win: m.win },
                key: chord.key,
            },
        )
    } else if is_word(t, "alt") {
        Ok(
            Chord {
                modifiers: Modifiers { shift: m.shift, ctrl: m.ctrl, alt: true, win: m.win },
                key: chord.key,
            },
        )
    } else if is_word(t, "shift") {
        Ok(
            Chord {
                modifiers: Modifiers { shift: true, ctrl: m.ctrl, alt: m.alt, win: m.win },
                key: chord.key,
            },
        )
    } else if is_word(t, "win") || is_word(t, "meta") {
        Ok(
            Chord {
                modifiers: Modifiers { shift: m.shift, ctrl: m.ctrl, alt: m.alt, win: true },
                key: chord.key,
            },
        )
    } else {
        match key_code_of(t) {
            Some(k) => if chord.key.is_some() {
                Err(HotkeyError::SeveralKeys)
            } else {
                Ok(Chord { modifiers: m, key: Some(k) })
            },
            None => Err(HotkeyError::UnknownKey),
        }
    }
}

/// Reads a hotkey such as `Ctrl + Alt + N`.
pub fn parse_hotkey(s: &str) -> (r: Result<u16, HotkeyError>)
    ensures
        r == hotkey_of(s@),
{
    let c = chars_of(s);
    let t = trimmed(c.as_slice());
    if t.len() == 0 {
        return Err(HotkeyError::Empty);
    }
    let plus = chars_of("+");
    let parts = split_on(c.as_slice(), plus.as_slice());
    let mut chord = Chord {
        modifiers: Modifiers { shift: false, ctrl: false, alt: false, win: false },
        key: None,
    };
    let mut i: usize = 0;
    while i < parts.len()
        invariant
            i <= parts.len(),
            trim(s@).len() > 0,
            views(parts@) == split(s@, "+"@),
            chord_of(views(parts@), i as int) == Ok::<Chord, HotkeyError>(chord),
        decreases parts.len() - i,
    {
        assert(views(parts@)[i as int] == parts@[i as int]@);
        let piece = trimmed(parts[i].as_slice());
        let low = to_ascii_lower(piece.as_slice());
        match read_part(chord, low.as_slice()) {
            Ok(next) => {
                chord = next;
            },
            Err(e) => {
                proof {
                    assert(chord_of(views(parts@), i + 1) == Err::<Chord, HotkeyError>(e));
                    lemma_chord_error_stays(views(parts@), i + 1, parts@.len() as int);
                }
                return Err(e);
            },
        }
        i += 1;
    }
    match chord.key {
        None => Err(HotkeyError::NoKey),
        Some(k) => {
            let m = chord.modifiers;
            let bits: u16 = (if m.shift {
                1u16
            } else {
                0u16
            }) + (if m.ctrl {
                2u16
            } else {
                0u16
            }) + (if m.alt {
                4u16
            } else {
                0u16
            }) + (if m.win {
                8u16
            } else {
                0u16
            });
            Ok(256 * bits + (k as u16))
        },
    }
}

/// Once a part cannot be read, the parts after it change nothing.
pub proof fn lemma_chord_error_stays(parts: Seq<Seq<char>>, n: int, m: int)
    requires
        0 <= n <= m <= parts.len(),
        chord_of(parts, n) is Err,
    ensures
        chord_of(parts, m) == chord_of(parts, n),
    decreases m - n,
{
    if n < m {
        lemma_chord_error_stays(parts, n, m - 1);
    }
}

} // verus!
