//! Configuration values: shortcut entries, templates and the settings of
//! a scan.

use crate::text::{
    begins_with, chars_of, contains, has, replace, replaced, split, split_on, starts_with,
    string_of, trim_start, trimmed_start, views,
};
use crate::winpath::{
    is_absolute, is_absolute_path, is_same_path, join, joined, parent, parent_of, same_path,
};
use vstd::prelude::*;

verus! {

/// The name template used where the configuration gives none.
pub const DEFAULT_NAME_TEMPLATE: &'static str =
    "{product ? product : {desc ? desc : {orig_filename ? orig_filename : stem}}}";

/// A copy of an optional string.
pub fn copy_optional(o: &Option<String>) -> (r: Option<String>)
    ensures
        r == *o,
{
    match o {
        Some(s) => Some(s.clone()),
        None => None,
    }
}

/// The name template of a `Template` that does not set one.
pub fn default_name_template() -> (r: Option<String>)
    ensures
        r matches Some(s) && s@ == DEFAULT_NAME_TEMPLATE@,
{
    Some(String::from_str(DEFAULT_NAME_TEMPLATE))
}

/// Templates from which the properties of a shortcut are rendered.
#[derive(Clone, Debug)]
pub struct Template {
    /// Template of the shortcut's name.
    pub name: Option<String>,
    /// Template of the directory the shortcut is written to.
    pub dest: Option<String>,
    /// Template of the icon path.
    pub icon: Option<String>,
    /// Template of the working directory.
    pub work_dir: Option<String>,
    /// Template of the comment.
    pub comment: Option<String>,
}

impl Template {
    /// The template of a configuration that does not set one: the default
    /// name template and nothing else.
    pub fn default_template() -> (r: Option<Template>)
        ensures
            r matches Some(t) && t.name matches Some(n) && n@ == DEFAULT_NAME_TEMPLATE@
                && t.dest is None && t.icon is None && t.work_dir is None && t.comment is None,
    {
        Some(
            Template {
                name: Some(String::from_str(DEFAULT_NAME_TEMPLATE)),
                icon: None,
                dest: None,
                work_dir: None,
                comment: None,
            },
        )
    }
}

/// What the configuration says of one executable.
#[derive(Clone, Debug)]
pub struct Lnk {
    /// The executable: an absolute path, or a path relative to the
    /// directory of the program it is matched against.
    pub exec_path: String,
    /// Name of the shortcut.
    pub name: Option<String>,
    /// Icon path.
    pub icon: Option<String>,
    /// Command-line arguments.
    pub args: Option<String>,
    /// Directory the shortcut is written to.
    pub dest: Option<String>,
    /// Working directory.
    pub work_dir: Option<String>,
    /// Window state on start.
    pub window_state: Option<String>,
    /// Comment.
    pub comment: Option<String>,
    /// Hotkey, as text such as `Ctrl + Alt + N`.
    pub hotkey: Option<String>,
}

/// The path that the entry `exec` stands for when it is matched against
/// `program`: itself if absolute, else taken relative to the directory of
/// `program`.
pub open spec fn expected_path(exec: Seq<char>, program: Seq<char>) -> Seq<char> {
    if is_absolute(exec) {
        exec
    } else {
        join(parent(program), exec)
    }
}

/// Whether the entry `exec` names the program at `program`.
pub open spec fn names_program(exec: Seq<char>, program: Seq<char>) -> bool {
    same_path(expected_path(exec, program), program)
}

/// The index of the first entry of `entries` that names `program`.
pub open spec fn first_naming(entries: Seq<Lnk>, program: Seq<char>) -> Option<int>
    decreases entries.len(),
{
    if entries.len() == 0 {
        None
    } else {
        match first_naming(entries.drop_last(), program) {
            Some(i) => Some(i),
            None => if names_program(entries.last().exec_path@, program) {
                Some(entries.len() - 1)
            } else {
                None
            },
        }
    }
}

/// `first_naming` returns the least index of an entry that names `program`.
pub proof fn lemma_first_naming(entries: Seq<Lnk>, program: Seq<char>)
    ensures
        match first_naming(entries, program) {
            Some(i) => 0 <= i < entries.len() && names_program(entries[i].exec_path@, program)
                && forall|j: int| 0 <= j < i ==> !names_program(entries[j].exec_path@, program),
            None => forall|j: int|
                0 <= j < entries.len() ==> !names_program(entries[j].exec_path@, program),
        },
    decreases entries.len(),
{
    if entries.len() > 0 {
        let t = entries.drop_last();
        lemma_first_naming(t, program);
        assert forall|j: int| 0 <= j < t.len() implies t[j] == entries[j] by {}
    }
}

impl Lnk {
    /// An entry for `exec` with nothing else set.
    pub fn new(exec_path: String) -> (r: Lnk)
        ensures
            r.exec_path == exec_path,
            r.name is None,
            r.icon is None,
            r.args is None,
            r.dest is None,
            r.work_dir is None,
            r.window_state is None,
            r.comment is None,
            r.hotkey is None,
    {
        Lnk {
            exec_path,
            name: None,
            icon: None,
            args: None,
            dest: None,
            work_dir: None,
            window_state: None,
            comment: None,
            hotkey: None,
        }
    }

    /// A copy of this entry.
    pub fn duplicate(&self) -> (r: Lnk)
        ensures
            r == *self,
    {
        Lnk {
            exec_path: self.exec_path.clone(),
            name: copy_optional(&self.name),
            icon: copy_optional(&self.icon),
            args: copy_optional(&self.args),
            dest: copy_optional(&self.dest),
            work_dir: copy_optional(&self.work_dir),
            window_state: copy_optional(&self.window_state),
            comment: copy_optional(&self.comment),
            hotkey: copy_optional(&self.hotkey),
        }
    }

    /// Whether this entry names the program at `program_path`.
    pub fn names(&self, program_path: &[char]) -> (r: bool)
        ensures
            r == names_program(self.exec_path@, program_path@),
    {
        let entry = chars_of(self.exec_path.as_str());
        if is_absolute_path(entry.as_slice()) {
            is_same_path(entry.as_slice(), program_path)
        } else {
            let dir = parent_of(program_path);
            let expected = joined(dir.as_slice(), entry.as_slice());
            is_same_path(expected.as_slice(), program_path)
        }
    }

    /// The index of the first entry of `link_info` that names the program
    /// at `program_path`.
    pub fn position(program_path: &str, link_info: &[Lnk]) -> (r: Option<usize>)
        ensures
            match r {
                Some(i) => first_naming(link_info@, program_path@) == Some(i as int) && i
                    < link_info.len(),
                None => first_naming(link_info@, program_path@) is None,
            },
    {
        let program = chars_of(program_path);
        let mut i: usize = 0;
        while i < link_info.len()
            invariant
                i <= link_info.len(),
                program@ == program_path@,
                forall|j: int| 0 <= j < i ==> !names_program(link_info@[j].exec_path@, program_path@),
            decreases link_info.len() - i,
        {
            if link_info[i].names(program.as_slice()) {
                proof {
                    lemma_first_naming(link_info@, program_path@);
                }
                return Some(i);
            }
            i += 1;
        }
        proof {
            lemma_first_naming(link_info@, program_path@);
        }
        None
    }

    /// The first entry of `link_info` that names the program at
    /// `program_path`, if there is one.
    pub fn get_lnk_info(program_path: &str, link_info: &[Lnk]) -> (r: Option<Lnk>)
        ensures
            match first_naming(link_info@, program_path@) {
                Some(i) => r == Some(link_info@[i]),
                None => r is None,
            },
    {
        match Lnk::position(program_path, link_info) {
            Some(i) => Some(link_info[i].duplicate()),
            None => None,
        }
    }
}

impl Default for Lnk {
    fn default() -> (r: Lnk)
        ensures
            r.exec_path@.len() == 0,
            r.name is None,
            r.icon is None,
            r.args is None,
            r.dest is None,
            r.work_dir is None,
            r.window_state is None,
            r.comment is None,
            r.hotkey is None,
    {
        Lnk::new(String::new())
    }
}

// ---------------------------------------------------------------------------
// The text of a configuration file
// ---------------------------------------------------------------------------

/// Whether the line is a comment: its first character that is no white
/// space is `#`.
pub open spec fn is_comment_line(line: Seq<char>) -> bool {
    starts_with(trim_start(line), "#"@)
}

/// Whether the line switches escapes on: it is no comment and, spaces
/// aside, holds `enable_escape=true`.
pub open spec fn line_enables_escape(line: Seq<char>) -> bool {
    !is_comment_line(line) && contains(replace(line, " "@, Seq::empty()), "enable_escape=true"@)
}

/// Whether one of the first `n` of `lines` switches escapes on.
pub open spec fn some_line_enables_escape(lines: Seq<Seq<char>>, n: int) -> bool
    decreases n,
{
    if n <= 0 || n > lines.len() {
        false
    } else {
        some_line_enables_escape(lines, n - 1) || line_enables_escape(lines[n - 1])
    }
}

/// Whether the configuration text asks for escapes to be kept as they
/// are written: one of its lines switches them on.
pub open spec fn escape_enabled(content: Seq<char>) -> bool {
    some_line_enables_escape(split(content, "\n"@), split(content, "\n"@).len() as int)
}

/// The first `n` characters of `content` with every backslash between
/// double quotes doubled.
pub open spec fn escaped_prefix(content: Seq<char>, n: int) -> Seq<char>
    decreases n,
{
    if n <= 0 || n > content.len() {
        Seq::empty()
    } else if content[n - 1] == '\\' && in_quotes_at(content, n - 1) {
        escaped_prefix(content, n - 1).push('\\').push('\\')
    } else {
        escaped_prefix(content, n - 1).push(content[n - 1])
    }
}

/// Whether the character at index `n` of `content` stands between
/// double quotes: an odd number of double quotes comes before it.
pub open spec fn in_quotes_at(content: Seq<char>, n: int) -> bool
    decreases n,
{
    if n <= 0 || n > content.len() {
        false
    } else if content[n - 1] == '"' {
        !in_quotes_at(content, n - 1)
    } else {
        in_quotes_at(content, n - 1)
    }
}

/// The configuration text as it is handed to the parser: unchanged if it
/// asks for escapes, else with every backslash between double quotes
/// doubled, so that Windows paths can be written plainly.
pub open spec fn prepared_text(content: Seq<char>) -> Seq<char> {
    if escape_enabled(content) {
        content
    } else {
        escaped_prefix(content, content.len() as int)
    }
}

fn line_asks_for_escape(line: &[char]) -> (r: bool)
    ensures
        r == line_enables_escape(line@),
{
    let t = trimmed_start(line);
    let hash = chars_of("#");
    if begins_with(t.as_slice(), hash.as_slice()) {
        return false;
    }
    let space = chars_of(" ");
    let nothing: Vec<char> = Vec::new();
    let squeezed = replaced(line, space.as_slice(), nothing.as_slice());
    let marker = chars_of("enable_escape=true");
    has(squeezed.as_slice(), marker.as_slice())
}

/// Whether the configuration text asks for escapes to be kept.
pub fn asks_for_escape(content: &str) -> (r: bool)
    ensures
        r == escape_enabled(content@),
{
    let c = chars_of(content);
    let newline = chars_of("\n");
    let lines = split_on(c.as_slice(), newline.as_slice());
    let mut i: usize = 0;
    while i < lines.len()
        invariant
            i <= lines.len(),
            views(lines@) == split(content@, "\n"@),
            !some_line_enables_escape(views(lines@), i as int),
        decreases lines.len() - i,
    {
        assert(views(lines@)[i as int] == lines@[i as int]@);
        if line_asks_for_escape(lines[i].as_slice()) {
            proof {
                assert(some_line_enables_escape(views(lines@), i + 1));
                lemma_escape_found(views(lines@), i + 1, lines@.len() as int);
            }
            return true;
        }
        i += 1;
    }
    false
}

/// A line that switches escapes on among the first `n` is one among the
/// first `m`.
pub proof fn lemma_escape_found(lines: Seq<Seq<char>>, n: int, m: int)
    requires
        0 <= n <= m <= lines.len(),
        some_line_enables_escape(lines, n),
    ensures
        some_line_enables_escape(lines, m),
    decreases m - n,
{
    if n < m {
        lemma_escape_found(lines, n, m - 1);
    }
}

/// Doubles every backslash between double quotes.
pub fn escape_backslashes(content: &str) -> (r: String)
    ensures
        r@ == escaped_prefix(content@, content@.len() as int),
{
    let c = chars_of(content);
    let mut out: Vec<char> = Vec::new();
    let mut in_quotes = false;
    let mut i: usize = 0;
    while i < c.len()
        invariant
            i <= c.len(),
            c@ == content@,
            in_quotes == in_quotes_at(content@, i as int),
            out@ == escaped_prefix(content@, i as int),
        decreases c.len() - i,
    {
        let ch = c[i];
        if ch == '"' {
            in_quotes = !in_quotes;
            out.push(ch);
        } else if in_quotes && ch == '\\' {
            out.push('\\');
            out.push('\\');
        } else {
            out.push(ch);
        }
        i += 1;
    }
    string_of(out.as_slice())
}

/// The configuration text as it is handed to the parser.
pub fn prepare_config_text(content: &str) -> (r: String)
    ensures
        r@ == prepared_text(content@),
{
    if asks_for_escape(content) {
        String::from_str(content)
    } else {
        escape_backslashes(content)
    }
}

// ---------------------------------------------------------------------------
// The settings of a configuration
// ---------------------------------------------------------------------------

/// What a configuration file holds.
#[derive(Debug)]
pub struct ConfigInfo {
    /// The templates of shortcuts.
    pub template: Option<Template>,
    /// Escapes in the file are kept as they are written.
    pub enable_escape: bool,
    /// Shortcuts are named after the file.
    pub use_filename: bool,
    /// Shortcuts are made only for the executables that the
    /// configuration names.
    pub only_match: bool,
    /// The score ratio, in millionths.
    pub score_ratio: Option<u32>,
    /// The ignore rules.
    pub ignore: Vec<String>,
    /// Install scripts are run.
    pub install: bool,
    /// Install scripts are run in parallel.
    pub install_parallel: bool,
    /// The patterns of install scripts.
    pub scripts: Vec<String>,
    /// The executables that the configuration names.
    pub shortcut: Vec<Lnk>,
    /// How many levels below the target the walk goes; 0 for no limit.
    pub search_depth: usize,
}

/// The limit on the depth of the walk that a configuration asking for
/// `configured` sets: none if it asks for 0.
pub open spec fn depth_limit_of(configured: usize) -> Option<usize> {
    if configured == 0 {
        None
    } else {
        Some(configured)
    }
}

impl ConfigInfo {
    /// How many levels below the target the walk may go; `None` for no
    /// limit.
    pub fn depth_limit(&self) -> (r: Option<usize>)
        ensures
            r == depth_limit_of(self.search_depth),
    {
        if self.search_depth == 0 {
            None
        } else {
            Some(self.search_depth)
        }
    }
}

} // verus!
