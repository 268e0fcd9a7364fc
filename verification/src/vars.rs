//! The variables that a template can use for a program.

use crate::dates::local_offset_seconds;
use crate::number::{decimal_text, to_decimal_text};
use crate::template::{is_rendering, render_template_at};
use crate::text::{
    append, ascii_lower, begins_with, char_is_whitespace, chars_of, is_whitespace, starts_with,
    string_of, to_ascii_lower, trim, trim_char, trimmed, trimmed_char,
};
use crate::value::{text_of, Member, Value};
use crate::winpath::{
    extension, extension_of, file_name, file_name_of, parent, parent_of, stem, stem_of,
};
use vstd::prelude::*;

verus! {

/// What was read of a program file.
#[derive(Clone, Debug)]
pub struct ProgramFacts {
    /// The file description of the version resource.
    pub description: Option<String>,
    /// The product name of the version resource.
    pub product_name: Option<String>,
    /// The company name of the version resource.
    pub company_name: Option<String>,
    /// The file name that the version resource gives for the program.
    pub original_filename: Option<String>,
    /// The copyright notice of the version resource.
    pub copyright: Option<String>,
    /// The file version of the version resource.
    pub file_version: Option<String>,
    /// The machine field of the PE header.
    pub machine: Option<u16>,
    /// The size of the file in bytes.
    pub size: Option<u64>,
    /// When the file was created, as text.
    pub create_time: Option<String>,
    /// When the file was last modified, as text.
    pub modified_time: Option<String>,
    /// When the file was last read, as text.
    pub accessed_time: Option<String>,
}

// ---------------------------------------------------------------------------
// Descriptions
// ---------------------------------------------------------------------------

/// Whether `c` is a control character.
pub open spec fn is_control(c: char) -> bool {
    let u = c as u32;
    u < 0x20 || (0x7F <= u < 0xA0)
}

/// The first `n` characters of `s` without control characters and with
/// every run of white space replaced by one space.
pub open spec fn squeezed(s: Seq<char>, n: int) -> Seq<char>
    decreases n,
{
    if n <= 0 || n > s.len() {
        Seq::empty()
    } else {
        let before = squeezed(s, n - 1);
        let c = s[n - 1];
        if is_whitespace(c) {
            if before.len() > 0 && before.last() == ' ' {
                before
            } else {
                before.push(' ')
            }
        } else if is_control(c) {
            before
        } else {
            before.push(c)
        }
    }
}

/// Whether `s` looks like the address of a web page.
pub open spec fn is_web_address(s: Seq<char>) -> bool {
    let l = ascii_lower(s);
    starts_with(l, "http://"@) || starts_with(l, "https://"@) || starts_with(l, "www."@)
}

/// The description `raw` made fit for a name: control characters are
/// dropped, runs of white space become one space, and the ends are
/// trimmed. Nothing is left of a description that is then empty, made of
/// underscores only, or the address of a web page.
pub open spec fn sanitized(raw: Seq<char>) -> Option<Seq<char>> {
    let s = trim(squeezed(raw, raw.len() as int));
    if trim_char(s, '_').len() == 0 || is_web_address(s) {
        None
    } else {
        Some(s)
    }
}

/// Makes a description fit for a name.
pub fn sanitize_description(raw: &str) -> (r: Option<String>)
    ensures
        match r {
            Some(s) => sanitized(raw@) == Some(s@),
            None => sanitized(raw@) is None,
        },
{
    let chars = chars_of(raw);
    let mut out: Vec<char> = Vec::new();
    let mut i: usize = 0;
    while i < chars.len()
        invariant
            i <= chars.len(),
            chars@ == raw@,
            out@ == squeezed(raw@, i as int),
        decreases chars.len() - i,
    {
        let c = chars[i];
        let u: u32 = c as u32;
        if char_is_whitespace(c) {
            if !(out.len() > 0 && out[out.len() - 1] == ' ') {
                out.push(' ');
            }
        } else if !(u < 0x20 || (0x7F <= u && u < 0xA0)) {
            out.push(c);
        }
        i += 1;
    }
    let s = trimmed(out.as_slice());
    let core = trimmed_char(s.as_slice(), '_');
    if core.len() == 0 {
        return None;
    }
    let low = to_ascii_lower(s.as_slice());
    let a = chars_of("http://");
    let b = chars_of("https://");
    let c = chars_of("www.");
    if begins_with(low.as_slice(), a.as_slice()) || begins_with(low.as_slice(), b.as_slice())
        || begins_with(low.as_slice(), c.as_slice()) {
        return None;
    }
    Some(string_of(s.as_slice()))
}

// ---------------------------------------------------------------------------
// Sizes
// ---------------------------------------------------------------------------

/// `n` divided by `d` and rounded to the nearest integer; a half goes to
/// the even neighbour.
pub open spec fn round_half_even(n: nat, d: nat) -> nat {
    let q = n / d;
    let r = n % d;
    if 2 * r > d || (2 * r == d && q % 2 == 1) {
        q + 1
    } else {
        q
    }
}

/// `s` with zeros put before it until it is `width` characters long.
pub open spec fn pad_zeros(s: Seq<char>, width: nat) -> Seq<char>
    decreases width - s.len(),
{
    if s.len() >= width {
        s
    } else {
        pad_zeros(seq!['0'] + s, width)
    }
}

/// `size` divided by `unit`, written with `digits` decimals, where
/// `scale` is ten to the power `digits`.
pub open spec fn fixed_text(size: u64, unit: nat, scale: nat, digits: nat) -> Seq<char> {
    let scaled = round_half_even(size as nat * scale, unit);
    decimal_text(scaled / scale) + seq!['.'] + pad_zeros(decimal_text(scaled % scale), digits)
}

/// The units in which a size is written.
#[derive(Clone, Copy, Debug, PartialEq, Eq, Structural)]
pub enum SizeUnit {
    /// 1024 bytes, written with one decimal.
    Kilobytes,
    /// 1024 kilobytes, written with two decimals.
    Megabytes,
    /// 1024 megabytes, written with three decimals.
    Gigabytes,
    /// 1024 gigabytes, written with four decimals.
    Terabytes,
}

impl SizeUnit {
    /// The number of bytes in one unit.
    pub open spec fn bytes(self) -> nat {
        match self {
            SizeUnit::Kilobytes => 1024,
            SizeUnit::Megabytes => 1_048_576,
            SizeUnit::Gigabytes => 1_073_741_824,
            SizeUnit::Terabytes => 1_099_511_627_776,
        }
    }

    /// The number of decimals a size in this unit is written with.
    pub open spec fn digits(self) -> nat {
        match self {
            SizeUnit::Kilobytes => 1,
            SizeUnit::Megabytes => 2,
            SizeUnit::Gigabytes => 3,
            SizeUnit::Terabytes => 4,
        }
    }

    /// Ten to the power of the number of decimals.
    pub open spec fn scale(self) -> nat {
        match self {
            SizeUnit::Kilobytes => 10,
            SizeUnit::Megabytes => 100,
            SizeUnit::Gigabytes => 1000,
            SizeUnit::Terabytes => 10_000,
        }
    }
}

/// Writes `size` in the unit `unit`: the quotient rounded to the decimals
/// of the unit, a half going to the even neighbour.
pub fn format_size(size: u64, unit: SizeUnit) -> (v: Vec<char>)
    ensures
        v@ == fixed_text(size, unit.bytes(), unit.scale(), unit.digits()),
{
    match unit {
        SizeUnit::Kilobytes => fixed(size, 1024, 10, 1),
        SizeUnit::Megabytes => fixed(size, 1_048_576, 100, 2),
        SizeUnit::Gigabytes => fixed(size, 1_073_741_824, 1000, 3),
        SizeUnit::Terabytes => fixed(size, 1_099_511_627_776, 10_000, 4),
    }
}

/// Writes `size` divided by `unit` with `digits` decimals.
fn fixed(size: u64, unit: u128, scale: u128, digits: usize) -> (v: Vec<char>)
    requires
        0 < unit <= 1_099_511_627_776,
        0 < scale <= 10_000,
    ensures
        v@ == fixed_text(size, unit as nat, scale as nat, digits as nat),
{
    assert(size * scale <= 184_467_440_737_095_516_150_000) by (nonlinear_arith)
        requires
            size <= 18_446_744_073_709_551_615,
            0 < scale <= 10_000,
    ;
    let n: u128 = (size as u128) * scale;
    let q: u128 = n / unit;
    let r: u128 = n % unit;
    assert(q <= n) by (nonlinear_arith)
        requires
            q == n / unit,
            unit > 0,
            n >= 0,
    ;
    let scaled: u128 = if 2 * r > unit || (2 * r == unit && q % 2 == 1) {
        q + 1
    } else {
        q
    };
    let mut v = to_decimal_text(scaled / scale);
    v.push('.');
    let mut frac = to_decimal_text(scaled % scale);
    while frac.len() < digits
        invariant
            pad_zeros(frac@, digits as nat) == pad_zeros(
                decimal_text((scaled % scale) as nat),
                digits as nat,
            ),
        decreases digits - frac.len(),
    {
        let ghost before = frac@;
        frac.insert(0, '0');
        assert(frac@ =~= seq!['0'] + before);
    }
    append(&mut v, frac.as_slice());
    v
}

// ---------------------------------------------------------------------------
// Variables
// ---------------------------------------------------------------------------

/// The text of an optional string; empty if there is none.
pub open spec fn text_or_empty(o: Option<String>) -> Seq<char> {
    match o {
        Some(s) => s@,
        None => Seq::empty(),
    }
}

/// The text of an optional text; empty if there is none.
pub open spec fn or_empty(o: Option<Seq<char>>) -> Seq<char> {
    match o {
        Some(s) => s,
        None => Seq::empty(),
    }
}

/// The name of the architecture named by a machine code, and its width.
pub open spec fn arch_texts(machine: Option<u16>) -> (Seq<char>, Seq<char>) {
    match machine {
        Some(m) => if m == 0x014c {
            ("x32"@, "32"@)
        } else if m == 0x8664 {
            ("x64"@, "64"@)
        } else if m == 0xAA64 {
            ("arm64"@, "arm64"@)
        } else {
            (Seq::empty(), Seq::empty())
        },
        None => (Seq::empty(), Seq::empty()),
    }
}

/// The size in bytes as text; empty if it is not known.
pub open spec fn size_text(size: Option<u64>) -> Seq<char> {
    match size {
        Some(n) => decimal_text(n as nat),
        None => Seq::empty(),
    }
}

/// The size in units of `unit` bytes with `digits` decimals; empty if it
/// is not known.
pub open spec fn size_in(size: Option<u64>, unit: nat, scale: nat, digits: nat) -> Seq<char> {
    match size {
        Some(n) => fixed_text(n, unit, scale, digits),
        None => Seq::empty(),
    }
}

/// The sanitized description, or the stem if there is none.
pub open spec fn desc_or_stem(desc: Seq<char>, stem_text: Seq<char>) -> Seq<char> {
    if desc.len() > 0 {
        desc
    } else {
        stem_text
    }
}

/// The variables that are read off the path.
pub open spec fn path_vars(path: Seq<char>) -> Seq<(Seq<char>, Seq<char>)> {
    let name = file_name(path);
    seq![
        ("exec"@, path),
        ("stem"@, stem(name)),
        ("ext"@, or_empty(extension(name))),
        ("parent"@, parent(path)),
        ("parent_name"@, stem(file_name(parent(path)))),
    ]
}

/// The variables that are read off the version resource.
pub open spec fn version_vars(facts: ProgramFacts) -> Seq<(Seq<char>, Seq<char>)> {
    let desc_raw = text_or_empty(facts.description);
    let product_raw = text_or_empty(facts.product_name);
    seq![
        ("desc"@, or_empty(sanitized(desc_raw))),
        ("desc_raw"@, desc_raw),
        ("product"@, or_empty(sanitized(product_raw))),
        ("product_raw"@, product_raw),
        ("company"@, text_or_empty(facts.company_name)),
        ("orig_filename"@, text_or_empty(facts.original_filename)),
        ("copyright"@, text_or_empty(facts.copyright)),
        ("version"@, text_or_empty(facts.file_version)),
    ]
}

/// The variables of the architecture and the size.
pub open spec fn measure_vars(facts: ProgramFacts) -> Seq<(Seq<char>, Seq<char>)> {
    seq![
        ("arch"@, arch_texts(facts.machine).0),
        ("arch_num"@, arch_texts(facts.machine).1),
        ("size"@, size_text(facts.size)),
        ("size_kb"@, size_in(facts.size, 1024, 10, 1)),
        ("size_mb"@, size_in(facts.size, 1_048_576, 100, 2)),
        ("size_gb"@, size_in(facts.size, 1_073_741_824, 1000, 3)),
        ("size_tb"@, size_in(facts.size, 1_099_511_627_776, 10_000, 4)),
    ]
}

/// The remaining variables: the description or else the stem, and the
/// three times.
pub open spec fn closing_vars(path: Seq<char>, facts: ProgramFacts) -> Seq<(Seq<char>, Seq<char>)> {
    seq![
        (
            "desc_or_stem"@,
            desc_or_stem(
                or_empty(sanitized(text_or_empty(facts.description))),
                stem(file_name(path)),
            ),
        ),
        ("create_time"@, text_or_empty(facts.create_time)),
        ("modified_time"@, text_or_empty(facts.modified_time)),
        ("accessed_time"@, text_or_empty(facts.accessed_time)),
    ]
}

/// The variables of the program at `path`, each with its name and text,
/// in a fixed order.
pub open spec fn program_vars(path: Seq<char>, facts: ProgramFacts) -> Seq<(Seq<char>, Seq<char>)> {
    path_vars(path) + version_vars(facts) + measure_vars(facts) + closing_vars(path, facts)
}

/// The names and texts of members that are all texts.
pub open spec fn var_list(members: Seq<Member>) -> Seq<(Seq<char>, Seq<char>)> {
    members.map_values(|m: Member| (m.key@, text_of(m.value)))
}

/// Whether every member is a text.
pub open spec fn all_text(members: Seq<Member>) -> bool {
    forall|i: int| 0 <= i < members.len() ==> (#[trigger] members[i]).value is Text
}

/// Whether `v` is the context of the program at `path`: an object whose
/// members are the variables of the program, all texts.
pub open spec fn is_program_context(v: Value, path: Seq<char>, facts: ProgramFacts) -> bool {
    v matches Value::Object(m) && all_text(m@) && var_list(m@) == program_vars(path, facts)
}

fn push_var(members: &mut Vec<Member>, name: &str, text: &[char])
    requires
        all_text(old(members)@),
    ensures
        all_text(final(members)@),
        var_list(final(members)@) == var_list(old(members)@).push((name@, text@)),
{
    let value = Value::Text(string_of(text));
    members.push(Member { key: String::from_str(name), value });
    assert(var_list(members@) =~= var_list(old(members)@).push((name@, text@)));
}

fn optional_chars(o: &Option<String>) -> (v: Vec<char>)
    ensures
        v@ == text_or_empty(*o),
{
    match o {
        Some(s) => chars_of(s.as_str()),
        None => Vec::new(),
    }
}

fn sanitized_chars(raw: &[char]) -> (v: Vec<char>)
    ensures
        v@ == or_empty(sanitized(raw@)),
{
    let text = string_of(raw);
    match sanitize_description(text.as_str()) {
        Some(s) => chars_of(s.as_str()),
        None => Vec::new(),
    }
}

fn size_chars(size: Option<u64>, unit: u128, scale: u128, digits: usize) -> (v: Vec<char>)
    requires
        0 < unit <= 1_099_511_627_776,
        0 < scale <= 10_000,
    ensures
        v@ == size_in(size, unit as nat, scale as nat, digits as nat),
{
    match size {
        Some(n) => fixed(n, unit, scale, digits),
        None => Vec::new(),
    }
}

fn push_path_vars(m: &mut Vec<Member>, path: &str)
    requires
        all_text(old(m)@),
    ensures
        all_text(final(m)@),
        var_list(final(m)@) == var_list(old(m)@) + path_vars(path@),
{
    let p = chars_of(path);
    let name = file_name_of(p.as_slice());
    let stem_text = stem_of(name.as_slice());
    let ext: Vec<char> = match extension_of(name.as_slice()) {
        Some(e) => e,
        None => Vec::new(),
    };
    let dir = parent_of(p.as_slice());
    let dir_name = file_name_of(dir.as_slice());
    let dir_stem = stem_of(dir_name.as_slice());
    push_var(m, "exec", p.as_slice());
    push_var(m, "stem", stem_text.as_slice());
    push_var(m, "ext", ext.as_slice());
    push_var(m, "parent", dir.as_slice());
    push_var(m, "parent_name", dir_stem.as_slice());
    assert(var_list(m@) =~= var_list(old(m)@) + path_vars(path@));
}

fn push_version_vars(m: &mut Vec<Member>, facts: &ProgramFacts)
    requires
        all_text(old(m)@),
    ensures
        all_text(final(m)@),
        var_list(final(m)@) == var_list(old(m)@) + version_vars(*facts),
{
    let desc_raw = optional_chars(&facts.description);
    let desc = sanitized_chars(desc_raw.as_slice());
    let product_raw = optional_chars(&facts.product_name);
    let product = sanitized_chars(product_raw.as_slice());
    let company = optional_chars(&facts.company_name);
    let original = optional_chars(&facts.original_filename);
    let copyright = optional_chars(&facts.copyright);
    let version = optional_chars(&facts.file_version);
    push_var(m, "desc", desc.as_slice());
    push_var(m, "desc_raw", desc_raw.as_slice());
    push_var(m, "product", product.as_slice());
    push_var(m, "product_raw", product_raw.as_slice());
    push_var(m, "company", company.as_slice());
    push_var(m, "orig_filename", original.as_slice());
    push_var(m, "copyright", copyright.as_slice());
    push_var(m, "version", version.as_slice());
    assert(var_list(m@) =~= var_list(old(m)@) + version_vars(*facts));
}

fn arch_chars(machine: Option<u16>) -> (r: (Vec<char>, Vec<char>))
    ensures
        (r.0@, r.1@) == arch_texts(machine),
{
    match machine {
        Some(m) => if m == 0x014c {
            (chars_of("x32"), chars_of("32"))
        } else if m == 0x8664 {
            (chars_of("x64"), chars_of("64"))
        } else if m == 0xAA64 {
            (chars_of("arm64"), chars_of("arm64"))
        } else {
            (Vec::new(), Vec::new())
        },
        None => (Vec::new(), Vec::new()),
    }
}

fn push_measure_vars(m: &mut Vec<Member>, facts: &ProgramFacts)
    requires
        all_text(old(m)@),
    ensures
        all_text(final(m)@),
        var_list(final(m)@) == var_list(old(m)@) + measure_vars(*facts),
{
    let (arch, arch_num) = arch_chars(facts.machine);
    let size: Vec<char> = match facts.size {
        Some(n) => to_decimal_text(n as u128),
        None => Vec::new(),
    };
    let kb = size_chars(facts.size, 1024, 10, 1);
    let mb = size_chars(facts.size, 1_048_576, 100, 2);
    let gb = size_chars(facts.size, 1_073_741_824, 1000, 3);
    let tb = size_chars(facts.size, 1_099_511_627_776, 10_000, 4);
    push_var(m, "arch", arch.as_slice());
    push_var(m, "arch_num", arch_num.as_slice());
    push_var(m, "size", size.as_slice());
    push_var(m, "size_kb", kb.as_slice());
    push_var(m, "size_mb", mb.as_slice());
    push_var(m, "size_gb", gb.as_slice());
    push_var(m, "size_tb", tb.as_slice());
    assert(var_list(m@) =~= var_list(old(m)@) + measure_vars(*facts));
}

fn push_closing_vars(m: &mut Vec<Member>, path: &str, facts: &ProgramFacts)
    requires
        all_text(old(m)@),
    ensures
        all_text(final(m)@),
        var_list(final(m)@) == var_list(old(m)@) + closing_vars(path@, *facts),
{
    let p = chars_of(path);
    let name = file_name_of(p.as_slice());
    let stem_text = stem_of(name.as_slice());
    let desc_raw = optional_chars(&facts.description);
    let desc = sanitized_chars(desc_raw.as_slice());
    let either: Vec<char> = if desc.len() > 0 {
        desc
    } else {
        stem_text
    };
    let created = optional_chars(&facts.create_time);
    let modified = optional_chars(&facts.modified_time);
    let accessed = optional_chars(&facts.accessed_time);
    push_var(m, "desc_or_stem", either.as_slice());
    push_var(m, "create_time", created.as_slice());
    push_var(m, "modified_time", modified.as_slice());
    push_var(m, "accessed_time", accessed.as_slice());
    assert(var_list(m@) =~= var_list(old(m)@) + closing_vars(path@, *facts));
}

/// The context of the program at `path`, of which `facts` were read.
pub fn render_var(path: &str, facts: &ProgramFacts) -> (v: Value)
    ensures
        is_program_context(v, path@, *facts),
{
    let mut m: Vec<Member> = Vec::new();
    assert(var_list(m@) =~= Seq::<(Seq<char>, Seq<char>)>::empty());
    push_path_vars(&mut m, path);
    push_version_vars(&mut m, facts);
    push_measure_vars(&mut m, facts);
    push_closing_vars(&mut m, path, facts);
    assert(var_list(m@) =~= program_vars(path@, *facts));
    Value::Object(m)
}

/// Whether `r` is what rendering `template` for the program at `path`
/// owes when the `date` filter uses the offset `offset`.
pub open spec fn is_program_rendering(
    path: Seq<char>,
    facts: ProgramFacts,
    template: Seq<char>,
    offset: i32,
    r: Result<String, String>,
) -> bool {
    exists|v: Value|
        is_program_context(v, path, facts) && #[trigger] is_rendering(template, v, offset, r)
}

/// Renders `template` for the program at `path`, with a `date` filter
/// that uses the given offset from UTC, in seconds.
pub fn process_template_at(path: &str, facts: &ProgramFacts, template: &str, utc_offset: i32) -> (r:
    Result<String, String>)
    ensures
        is_program_rendering(path@, *facts, template@, utc_offset, r),
{
    let context = render_var(path, facts);
    let r = render_template_at(template, &context, utc_offset);
    assert(is_rendering(template@, context, utc_offset, r));
    r
}

/// Renders `template` for the program at `path`. The `date` filter uses
/// the offset of local time from UTC at the time of the call, so the
/// result is the rendering for some offset.
pub fn process_template(path: &str, facts: &ProgramFacts, template: &str) -> (r: Result<
    String,
    String,
>)
    ensures
        exists|offset: i32| #[trigger] is_program_rendering(path@, *facts, template@, offset, r),
{
    let offset = local_offset_seconds();
    let r = process_template_at(path, facts, template, offset);
    assert(is_program_rendering(path@, *facts, template@, offset, r));
    r
}

} // verus!
