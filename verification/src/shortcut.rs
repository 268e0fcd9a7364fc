//! What a shortcut for a program is made of, and the rules around a run:
//! which files are install scripts, where shortcuts go, and how a run is
//! summed up.

use crate::config::{copy_optional, ConfigInfo, Lnk};
use crate::console::ConsoleType;
use crate::number::{decimal_text, to_decimal_text};
use crate::text::{
    append, ascii_lower, chars_of, contains, has, optional_text, string_of, to_ascii_lower,
    to_unicode_lower, trim, trim_char, trimmed, trimmed_char, unicode_lower,
};
use crate::utils::{expand_lowered, glob_matches, matches_glob, optional_view, process_env, EnvVar};
use crate::winpath::{
    file_name, file_name_of, join, joined, parent, parent_of, stem, stem_of,
};
use vstd::prelude::*;

verus! {

// ---------------------------------------------------------------------------
// Where shortcuts go
// ---------------------------------------------------------------------------

/// The directory that the shortcut of `program` is written to: the
/// shortcut directory itself, or, if a directory is made for each
/// application, its subdirectory named after the directory of the program.
pub open spec fn link_directory_of(shortcut_dir: Seq<char>, program: Seq<char>, per_application: bool) -> Seq<
    char,
> {
    if per_application {
        join(shortcut_dir, stem(file_name(parent(program))))
    } else {
        shortcut_dir
    }
}

/// The directory that the shortcut of `program` is written to.
pub fn link_directory(shortcut_dir: &str, program: &str, per_application: bool) -> (r: String)
    ensures
        r@ == link_directory_of(shortcut_dir@, program@, per_application),
{
    if per_application {
        let p = chars_of(program);
        let dir = parent_of(p.as_slice());
        let dir_name = file_name_of(dir.as_slice());
        let dir_stem = stem_of(dir_name.as_slice());
        let base = chars_of(shortcut_dir);
        let j = joined(base.as_slice(), dir_stem.as_slice());
        string_of(j.as_slice())
    } else {
        String::from_str(shortcut_dir)
    }
}

// ---------------------------------------------------------------------------
// The parts of a shortcut
// ---------------------------------------------------------------------------

/// Whether a description says something: trimmed, it is more than
/// underscores.
pub open spec fn is_meaningful(description: Seq<char>) -> bool {
    trim_char(trim(description), '_').len() > 0
}

/// The stem of the file name of `program`.
pub open spec fn program_stem(program: Seq<char>) -> Seq<char> {
    stem(file_name(program))
}

/// The name of the shortcut of `program`. If the configuration names the
/// program, it is the configured name, or the stem if none is configured.
/// Else it is the trimmed description if that says something, and the
/// stem if not.
pub open spec fn shortcut_name(program: Seq<char>, entry: Option<Lnk>, description: Option<Seq<char>>) -> Seq<
    char,
> {
    match entry {
        Some(l) => match l.name {
            Some(n) => n@,
            None => program_stem(program),
        },
        None => match description {
            Some(d) => if is_meaningful(d) {
                trim(d)
            } else {
                program_stem(program)
            },
            None => program_stem(program),
        },
    }
}

/// The directory of the shortcut: the configured one if the
/// configuration names the program and gives one, else `link_dir`.
pub open spec fn shortcut_location(link_dir: Seq<char>, entry: Option<Lnk>) -> Seq<char> {
    match entry {
        Some(l) => match l.dest {
            Some(d) => d@,
            None => link_dir,
        },
        None => link_dir,
    }
}

/// The file of the shortcut: its name with `.lnk` in its directory.
pub open spec fn shortcut_file(
    program: Seq<char>,
    link_dir: Seq<char>,
    entry: Option<Lnk>,
    description: Option<Seq<char>>,
) -> Seq<char> {
    join(shortcut_location(link_dir, entry), shortcut_name(program, entry, description) + ".lnk"@)
}

/// The icon that lies beside the program under its name.
pub open spec fn beside_icon(program: Seq<char>) -> Seq<char> {
    join(parent(program), program_stem(program) + ".ico"@)
}

/// The icon that the configuration gives for the program, with
/// placeholders expanded.
pub open spec fn configured_icon(
    entry: Option<Lnk>,
    profile: Option<Seq<char>>,
    vars: Seq<EnvVar>,
) -> Option<Seq<char>> {
    match entry {
        Some(l) => match l.icon {
            Some(i) => Some(expand_lowered(unicode_lower(i@), profile, vars)),
            None => None,
        },
        None => None,
    }
}

/// The icons that may be used for a shortcut.
#[derive(Clone, Debug)]
pub struct IconCandidates {
    /// The configured icon, with placeholders expanded.
    pub configured: Option<String>,
    /// The icon beside the program.
    pub beside: String,
}

/// The icons that may be used for the shortcut of `program`.
pub fn icon_candidates(program: &str, entry: &Option<Lnk>, user_profile: Option<&str>, vars: &[EnvVar]) -> (r:
    IconCandidates)
    ensures
        optional_text(r.configured) == configured_icon(
            *entry,
            optional_view(user_profile),
            vars@,
        ),
        r.beside@ == beside_icon(program@),
{
    let configured: Option<String> = match entry {
        Some(l) => match &l.icon {
            Some(i) => Some(process_env(i.as_str(), user_profile, vars)),
            None => None,
        },
        None => None,
    };
    let p = chars_of(program);
    let dir = parent_of(p.as_slice());
    let name = file_name_of(p.as_slice());
    let mut icon_name = stem_of(name.as_slice());
    let ext = chars_of(".ico");
    append(&mut icon_name, ext.as_slice());
    let beside = joined(dir.as_slice(), icon_name.as_slice());
    IconCandidates { configured, beside: string_of(beside.as_slice()) }
}

/// The icon of a shortcut: the configured icon if it exists, else the
/// icon beside the program if that exists, else none.
pub open spec fn chosen_icon(
    configured: Option<Seq<char>>,
    beside: Seq<char>,
    configured_exists: bool,
    beside_exists: bool,
) -> Option<Seq<char>> {
    if configured is Some && configured_exists {
        configured
    } else if beside_exists {
        Some(beside)
    } else {
        None
    }
}

/// What a shortcut is made of.
#[derive(Clone, Debug)]
pub struct ShortcutPlan {
    /// The file of the shortcut.
    pub link_file: String,
    /// The arguments of the program.
    pub arguments: Option<String>,
    /// The icon.
    pub icon: Option<String>,
    /// The configured icon, if it was not found.
    pub missing_icon: Option<String>,
}

/// The arguments that the configuration gives for the program.
pub open spec fn shortcut_arguments(entry: Option<Lnk>) -> Option<Seq<char>> {
    match entry {
        Some(l) => optional_text(l.args),
        None => None,
    }
}

fn name_of_shortcut(program: &str, entry: &Option<Lnk>, description: Option<&str>) -> (v: Vec<char>)
    ensures
        v@ == shortcut_name(program@, *entry, optional_view(description)),
{
    let p = chars_of(program);
    let name = file_name_of(p.as_slice());
    match entry {
        Some(l) => match &l.name {
            Some(n) => chars_of(n.as_str()),
            None => stem_of(name.as_slice()),
        },
        None => match description {
            Some(d) => {
                let dc = chars_of(d);
                let t = trimmed(dc.as_slice());
                let core = trimmed_char(t.as_slice(), '_');
                if core.len() > 0 {
                    t
                } else {
                    stem_of(name.as_slice())
                }
            },
            None => stem_of(name.as_slice()),
        },
    }
}

/// Plans the shortcut of `program`. `entry` is what the configuration
/// says of the program, `description` the description read from it.
/// `configured_exists` and `beside_exists` say whether the two icons of
/// `icons` were found.
pub fn plan_program_shortcut(
    program: &str,
    link_dir: &str,
    entry: &Option<Lnk>,
    description: Option<&str>,
    icons: &IconCandidates,
    configured_exists: bool,
    beside_exists: bool,
) -> (plan: ShortcutPlan)
    ensures
        plan.link_file@ == shortcut_file(program@, link_dir@, *entry, optional_view(description)),
        optional_text(plan.arguments) == shortcut_arguments(*entry),
        optional_text(plan.icon) == chosen_icon(
            optional_text(icons.configured),
            icons.beside@,
            configured_exists,
            beside_exists,
        ),
        optional_text(plan.missing_icon) == if configured_exists {
            None
        } else {
            optional_text(icons.configured)
        },
{
    let mut file_name = name_of_shortcut(program, entry, description);
    let ext = chars_of(".lnk");
    append(&mut file_name, ext.as_slice());
    let location: Vec<char> = match entry {
        Some(l) => match &l.dest {
            Some(d) => chars_of(d.as_str()),
            None => chars_of(link_dir),
        },
        None => chars_of(link_dir),
    };
    let link = joined(location.as_slice(), file_name.as_slice());
    let arguments: Option<String> = match entry {
        Some(l) => copy_optional(&l.args),
        None => None,
    };
    let icon: Option<String> = if icons.configured.is_some() && configured_exists {
        copy_optional(&icons.configured)
    } else if beside_exists {
        Some(icons.beside.clone())
    } else {
        None
    };
    let missing_icon: Option<String> = if configured_exists {
        None
    } else {
        copy_optional(&icons.configured)
    };
    ShortcutPlan { link_file: string_of(link.as_slice()), arguments, icon, missing_icon }
}

// ---------------------------------------------------------------------------
// Install scripts
// ---------------------------------------------------------------------------

/// Whether the lower-cased file name is that of an install script by
/// default: it holds `setup.cmd`, `setup.bat`, `install.cmd` or
/// `install.bat`.
pub open spec fn is_default_script(lowered: Seq<char>) -> bool {
    let l = ascii_lower(lowered);
    ||| contains(l, "setup.cmd"@)
    ||| contains(l, "setup.bat"@)
    ||| contains(l, "install.cmd"@)
    ||| contains(l, "install.bat"@)
}

/// Whether one of `rules` matches the lower-cased file name.
pub open spec fn some_rule_matches(rules: Seq<String>, lowered: Seq<char>) -> bool {
    exists|i: int|
        0 <= i < rules.len() && glob_matches(
            unicode_lower(#[trigger] rules[i]@),
            unicode_lower(lowered),
        )
}

/// Whether the file `name` is an install script: lower-cased, it matches
/// one of the configured patterns or is an install script by default.
pub open spec fn is_install_script(name: Seq<char>, rules: Seq<String>) -> bool {
    some_rule_matches(rules, unicode_lower(name)) || is_default_script(unicode_lower(name))
}

/// Whether the file name, already in lower case, is that of an install
/// script.
pub fn install_script_lowered(lowered: &str, rules: &[String]) -> (r: bool)
    ensures
        r == (some_rule_matches(rules@, lowered@) || is_default_script(lowered@)),
{
    let mut i: usize = 0;
    while i < rules.len()
        invariant
            i <= rules.len(),
            forall|k: int|
                0 <= k < i ==> !glob_matches(
                    unicode_lower(#[trigger] rules@[k]@),
                    unicode_lower(lowered@),
                ),
        decreases rules.len() - i,
    {
        if matches_glob(rules[i].as_str(), lowered) {
            return true;
        }
        i += 1;
    }
    let c = chars_of(lowered);
    let l = to_ascii_lower(c.as_slice());
    let a = chars_of("setup.cmd");
    let b = chars_of("setup.bat");
    let x = chars_of("install.cmd");
    let y = chars_of("install.bat");
    has(l.as_slice(), a.as_slice()) || has(l.as_slice(), b.as_slice()) || has(
        l.as_slice(),
        x.as_slice(),
    ) || has(l.as_slice(), y.as_slice())
}

/// Whether the file `name` is an install script.
pub fn install_script(name: &str, rules: &[String]) -> (r: bool)
    ensures
        r == is_install_script(name@, rules@),
{
    let low = to_unicode_lower(name);
    install_script_lowered(low.as_str(), rules)
}

// ---------------------------------------------------------------------------
// The summary of a run
// ---------------------------------------------------------------------------

/// The kind of the message that sums up a run: an error if no shortcut
/// was made, else a success.
pub open spec fn summary_kind(shortcuts: usize) -> ConsoleType {
    if shortcuts == 0 {
        ConsoleType::Error
    } else {
        ConsoleType::Success
    }
}

/// The message that sums up a run that took `elapsed` seconds.
pub open spec fn summary_text(shortcuts: usize, folders: usize, elapsed: Seq<char>) -> Seq<char> {
    (if shortcuts == 0 {
        "No shortcuts created, Time: "@
    } else {
        "Operation completed, Time: "@
    }) + elapsed + "s, Subfolders scanned: "@ + decimal_text(folders as nat)
        + ", Shortcuts created: "@ + decimal_text(shortcuts as nat) + "."@
}

/// Sums up a run: the kind of the message and its text.
pub fn summary(shortcuts: usize, folders: usize, elapsed: &str) -> (r: (ConsoleType, String))
    ensures
        r.0 == summary_kind(shortcuts),
        r.1@ == summary_text(shortcuts, folders, elapsed@),
{
    let mut out: Vec<char> = if shortcuts == 0 {
        chars_of("No shortcuts created, Time: ")
    } else {
        chars_of("Operation completed, Time: ")
    };
    let e = chars_of(elapsed);
    append(&mut out, e.as_slice());
    let a = chars_of("s, Subfolders scanned: ");
    append(&mut out, a.as_slice());
    let f = to_decimal_text(folders as u128);
    append(&mut out, f.as_slice());
    let b = chars_of(", Shortcuts created: ");
    append(&mut out, b.as_slice());
    let n = to_decimal_text(shortcuts as u128);
    append(&mut out, n.as_slice());
    let dot = chars_of(".");
    append(&mut out, dot.as_slice());
    let kind = if shortcuts == 0 {
        ConsoleType::Error
    } else {
        ConsoleType::Success
    };
    (kind, string_of(out.as_slice()))
}

// ---------------------------------------------------------------------------
// What a run is asked to do
// ---------------------------------------------------------------------------

/// Where the name of a shortcut is taken from when the configuration
/// does not name the program.
#[derive(Clone, Debug, PartialEq, Eq)]
pub enum NameSource {
    /// The stem of the file name.
    FileName,
    /// A template, rendered for the program.
    Template(String),
    /// The description read from the program.
    Description,
}

/// Whether a run names shortcuts after the file: the command line or the
/// configuration asks for it.
pub open spec fn uses_filename(flag: bool, config: Option<ConfigInfo>) -> bool {
    flag || (config matches Some(c) && c.use_filename)
}

/// The name template of a configuration, if it has one.
pub open spec fn name_template_of(config: Option<ConfigInfo>) -> Option<String> {
    match config {
        Some(c) => match c.template {
            Some(t) => t.name,
            None => None,
        },
        None => None,
    }
}

/// Where a run takes the names of shortcuts from. `flag` says whether the
/// command line asks for the file name.
pub fn name_source(flag: bool, config: &Option<ConfigInfo>) -> (r: NameSource)
    ensures
        uses_filename(flag, *config) ==> r == NameSource::FileName,
        !uses_filename(flag, *config) ==> match name_template_of(*config) {
            Some(t) => r == NameSource::Template(t),
            None => r == NameSource::Description,
        },
{
    match config {
        Some(c) => {
            if flag || c.use_filename {
                NameSource::FileName
            } else {
                match &c.template {
                    Some(t) => match &t.name {
                        Some(n) => NameSource::Template(n.clone()),
                        None => NameSource::Description,
                    },
                    None => NameSource::Description,
                }
            }
        },
        None => if flag {
            NameSource::FileName
        } else {
            NameSource::Description
        },
    }
}

/// Whether a shortcut is made for a program: always, unless the run is
/// to make shortcuts only for the programs that the configuration names
/// and it does not name this one.
pub open spec fn is_wanted(flag: bool, config: Option<ConfigInfo>, entry: Option<Lnk>) -> bool {
    !(flag || (config matches Some(c) && c.only_match)) || entry is Some
}

/// Whether a shortcut is made for a program. `flag` says whether the
/// command line asks for configured programs only; `entry` is what the
/// configuration says of the program.
pub fn wants_shortcut(flag: bool, config: &Option<ConfigInfo>, entry: &Option<Lnk>) -> (r: bool)
    ensures
        r == is_wanted(flag, *config, *entry),
{
    let only = flag || match config {
        Some(c) => c.only_match,
        None => false,
    };
    !only || entry.is_some()
}

/// Whether a run runs install scripts: the command line or the
/// configuration asks for it.
pub fn runs_install_scripts(flag: bool, config: &Option<ConfigInfo>) -> (r: bool)
    ensures
        r == (flag || (*config matches Some(c) && c.install)),
{
    flag || match config {
        Some(c) => c.install,
        None => false,
    }
}

} // verus!
