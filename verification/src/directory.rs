//! Snapshots of directories and their classification.
//!
//! A `DirectoryNode` holds what a directory contained when it was read: its
//! path, the names of its files and its subdirectories, each a snapshot of
//! its own. Classification is a function of such a snapshot and the ignore
//! rules; it reads the directory's own entries and those of its immediate
//! subdirectories, nothing deeper.

use crate::scoring::ExeMetadata;
use crate::text::{
    ascii_lower, chars_of, contains, has, same, string_of, to_ascii_lower, to_unicode_lower,
    unicode_lower,
};
use crate::winpath::{
    extension, extension_of, file_name, file_name_of, is_absolute, is_absolute_path, is_same_path,
    join, joined, same_path, stem, stem_of,
};
use vstd::prelude::*;

verus! {

/// A file of a directory snapshot.
#[derive(Clone, Debug)]
pub struct FileEntry {
    /// The file's name, without its directory.
    pub name: String,
    /// What inspecting the file reported, for an executable that could be
    /// inspected.
    pub metadata: Option<ExeMetadata>,
}

/// A directory as it was read.
#[derive(Debug)]
pub struct DirectoryNode {
    /// The directory's path.
    pub path: String,
    /// Its immediate files.
    pub files: Vec<FileEntry>,
    /// Its immediate subdirectories.
    pub subdirs: Vec<DirectoryNode>,
}

/// What a directory is taken to be.
#[derive(Clone, Copy, Debug, PartialEq, Eq, Structural)]
pub enum Classification {
    /// A folder that only groups applications.
    Category,
    /// Loose executables with nothing beside them but icons.
    SingleFile,
    /// A multi-file application package.
    Green,
    /// Loose executables beside folders that are applications themselves.
    Hybrid,
    /// Nothing to act on.
    Unclassifiable,
}

// ---------------------------------------------------------------------------
// Names
// ---------------------------------------------------------------------------

/// Whether `s` equals the literal `lit`.
pub fn equals_text(s: &[char], lit: &str) -> (r: bool)
    ensures
        r == (s@ == lit@),
{
    let l = chars_of(lit);
    same(s, l.as_slice())
}

/// Extensions of files that support an executable; given in lower case.
pub open spec fn is_supporting_extension(e: Seq<char>) -> bool {
    ||| e == "dll"@
    ||| e == "ini"@
    ||| e == "json"@
    ||| e == "xml"@
    ||| e == "dat"@
    ||| e == "cfg"@
    ||| e == "conf"@
    ||| e == "log"@
}

/// Names of subfolders that belong to an application; given in lower case.
pub open spec fn is_recognized_subfolder(n: Seq<char>) -> bool {
    ||| n == "bin"@
    ||| n == "lib"@
    ||| n == "data"@
    ||| n == "program"@
    ||| n == "assets"@
    ||| n == "resources"@
    ||| n == "content"@
    ||| n == "modules"@
    ||| n == "plugins"@
    ||| n == "drivers"@
}

/// Names of folders that hold a component of an application rather than an
/// application; given in lower case.
pub open spec fn is_component_name(n: Seq<char>) -> bool {
    ||| n == "bin"@
    ||| n == "program"@
    ||| n == "executables"@
    ||| n == "x64"@
    ||| n == "win64"@
}

/// Stems of documentation files; given in lower case.
pub open spec fn is_documentation_stem(s: Seq<char>) -> bool {
    ||| s == "readme"@
    ||| s == "license"@
    ||| s == "eula"@
    ||| s == "changelog"@
}

/// The extension of a file name in lower case; empty if it has none.
pub open spec fn lower_extension(name: Seq<char>) -> Seq<char> {
    match extension(name) {
        Some(e) => ascii_lower(e),
        None => Seq::empty(),
    }
}

/// Whether the file name is that of an executable.
pub open spec fn is_exe_name(name: Seq<char>) -> bool {
    extension(name) is Some && lower_extension(name) == "exe"@
}

/// Whether the file name is that of an icon.
pub open spec fn is_ico_name(name: Seq<char>) -> bool {
    extension(name) is Some && lower_extension(name) == "ico"@
}

/// Whether the file name is that of a supporting file.
pub open spec fn is_supporting_name(name: Seq<char>) -> bool {
    extension(name) is Some && is_supporting_extension(lower_extension(name))
}

/// Whether the file name is that of a documentation file.
pub open spec fn is_documentation_name(name: Seq<char>) -> bool {
    is_documentation_stem(ascii_lower(stem(name)))
}

/// Whether the file name is of no recognized kind.
pub open spec fn is_unknown_name(name: Seq<char>) -> bool {
    !is_exe_name(name) && !is_ico_name(name) && !is_supporting_name(name)
        && !is_documentation_name(name)
}

/// The last component of a directory's path, in lower case.
pub open spec fn lower_dir_name(path: Seq<char>) -> Seq<char> {
    ascii_lower(file_name(path))
}

fn lower_extension_of(name: &[char]) -> (r: Option<Vec<char>>)
    ensures
        match r {
            Some(v) => extension(name@) is Some && v@ == lower_extension(name@),
            None => extension(name@) is None,
        },
{
    match extension_of(name) {
        Some(e) => Some(to_ascii_lower(e.as_slice())),
        None => None,
    }
}

/// Whether `e`, in lower case, is the extension of a supporting file.
pub fn supporting_extension(e: &[char]) -> (r: bool)
    ensures
        r == is_supporting_extension(e@),
{
    equals_text(e, "dll") || equals_text(e, "ini") || equals_text(e, "json") || equals_text(
        e,
        "xml",
    ) || equals_text(e, "dat") || equals_text(e, "cfg") || equals_text(e, "conf") || equals_text(
        e,
        "log",
    )
}

/// Whether `n`, in lower case, is the name of a subfolder that belongs to
/// an application.
pub fn recognized_subfolder(n: &[char]) -> (r: bool)
    ensures
        r == is_recognized_subfolder(n@),
{
    equals_text(n, "bin") || equals_text(n, "lib") || equals_text(n, "data") || equals_text(
        n,
        "program",
    ) || equals_text(n, "assets") || equals_text(n, "resources") || equals_text(n, "content")
        || equals_text(n, "modules") || equals_text(n, "plugins") || equals_text(n, "drivers")
}

/// Whether `n`, in lower case, is the name of a component folder.
pub fn component_name(n: &[char]) -> (r: bool)
    ensures
        r == is_component_name(n@),
{
    equals_text(n, "bin") || equals_text(n, "program") || equals_text(n, "executables")
        || equals_text(n, "x64") || equals_text(n, "win64")
}

/// Whether `s`, in lower case, is the stem of a documentation file.
pub fn documentation_stem(s: &[char]) -> (r: bool)
    ensures
        r == is_documentation_stem(s@),
{
    equals_text(s, "readme") || equals_text(s, "license") || equals_text(s, "eula")
        || equals_text(s, "changelog")
}

/// Whether the file name is that of an executable.
pub fn exe_name(name: &str) -> (r: bool)
    ensures
        r == is_exe_name(name@),
{
    let n = chars_of(name);
    match lower_extension_of(n.as_slice()) {
        Some(e) => equals_text(e.as_slice(), "exe"),
        None => false,
    }
}

/// Whether the file name is that of an icon.
pub fn ico_name(name: &str) -> (r: bool)
    ensures
        r == is_ico_name(name@),
{
    let n = chars_of(name);
    match lower_extension_of(n.as_slice()) {
        Some(e) => equals_text(e.as_slice(), "ico"),
        None => false,
    }
}

/// Whether the file name is that of a supporting file.
pub fn supporting_name(name: &str) -> (r: bool)
    ensures
        r == is_supporting_name(name@),
{
    let n = chars_of(name);
    match lower_extension_of(n.as_slice()) {
        Some(e) => supporting_extension(e.as_slice()),
        None => false,
    }
}

/// Whether the file name is that of a documentation file.
pub fn documentation_name(name: &str) -> (r: bool)
    ensures
        r == is_documentation_name(name@),
{
    let n = chars_of(name);
    let st = stem_of(n.as_slice());
    let low = to_ascii_lower(st.as_slice());
    documentation_stem(low.as_slice())
}

/// Whether the file name is of no recognized kind.
pub fn unknown_name(name: &str) -> (r: bool)
    ensures
        r == is_unknown_name(name@),
{
    !exe_name(name) && !ico_name(name) && !supporting_name(name) && !documentation_name(name)
}

/// The last component of a directory's path, in lower case.
pub fn lower_dir_name_of(path: &str) -> (v: Vec<char>)
    ensures
        v@ == lower_dir_name(path@),
{
    let p = chars_of(path);
    let n = file_name_of(p.as_slice());
    to_ascii_lower(n.as_slice())
}

// ---------------------------------------------------------------------------
// Ignore rules
// ---------------------------------------------------------------------------

/// Whether the ignore rule `rule` matches the entry at `path`: the rule
/// occurs in the lower-cased last component of the path, or the rule is an
/// absolute path and names the same path.
pub open spec fn rule_matches(rule: Seq<char>, path: Seq<char>) -> bool {
    ||| contains(unicode_lower(file_name(path)), rule)
    ||| is_absolute(rule) && same_path(rule, path)
}

/// Whether one of the ignore rules matches the entry at `path`.
pub open spec fn is_ignored(rules: Seq<String>, path: Seq<char>) -> bool {
    exists|i: int| 0 <= i < rules.len() && rule_matches(#[trigger] rules[i]@, path)
}

/// Whether `rule` matches a path whose last component, lower-cased, is
/// `lowered_name`.
pub fn rule_matches_entry(rule: &[char], path: &[char], lowered_name: &[char]) -> (r: bool)
    ensures
        r == (contains(lowered_name@, rule@) || (is_absolute(rule@) && same_path(rule@, path@))),
{
    has(lowered_name, rule) || (is_absolute_path(rule) && is_same_path(rule, path))
}

/// Whether one of the ignore rules matches the entry at `path`.
pub fn ignored(rules: &[String], path: &str) -> (r: bool)
    ensures
        r == is_ignored(rules@, path@),
{
    let p = chars_of(path);
    let name = file_name_of(p.as_slice());
    let name_text = string_of(name.as_slice());
    let low_text = to_unicode_lower(name_text.as_str());
    let low = chars_of(low_text.as_str());
    let mut i: usize = 0;
    while i < rules.len()
        invariant
            i <= rules.len(),
            p@ == path@,
            low@ == unicode_lower(file_name(path@)),
            forall|k: int| 0 <= k < i ==> !rule_matches(#[trigger] rules@[k]@, path@),
        decreases rules.len() - i,
    {
        let rule = chars_of(rules[i].as_str());
        if rule_matches_entry(rule.as_slice(), p.as_slice(), low.as_slice()) {
            return true;
        }
        i += 1;
    }
    false
}

// ---------------------------------------------------------------------------
// Predicates on a directory's own entries
// ---------------------------------------------------------------------------

/// The number of executables among `files`.
pub open spec fn exe_count(files: Seq<FileEntry>) -> nat
    decreases files.len(),
{
    if files.len() == 0 {
        0
    } else {
        exe_count(files.drop_last()) + if is_exe_name(files.last().name@) {
            1nat
        } else {
            0nat
        }
    }
}

/// The number of files of no recognized kind among `files`.
pub open spec fn unknown_count(files: Seq<FileEntry>) -> nat
    decreases files.len(),
{
    if files.len() == 0 {
        0
    } else {
        unknown_count(files.drop_last()) + if is_unknown_name(files.last().name@) {
            1nat
        } else {
            0nat
        }
    }
}

/// Whether one of `files` is an executable.
pub open spec fn has_exe(files: Seq<FileEntry>) -> bool {
    exists|i: int| 0 <= i < files.len() && is_exe_name(#[trigger] files[i].name@)
}

/// Whether one of `files` is a supporting file.
pub open spec fn has_supporting_file(files: Seq<FileEntry>) -> bool {
    exists|i: int| 0 <= i < files.len() && is_supporting_name(#[trigger] files[i].name@)
}

/// Whether one of `files` is a documentation file.
pub open spec fn has_documentation_file(files: Seq<FileEntry>) -> bool {
    exists|i: int| 0 <= i < files.len() && is_documentation_name(#[trigger] files[i].name@)
}

/// Whether every one of `files` is an executable or an icon.
pub open spec fn only_exe_and_ico(files: Seq<FileEntry>) -> bool {
    forall|i: int|
        0 <= i < files.len() ==> is_exe_name(#[trigger] files[i].name@) || is_ico_name(
            files[i].name@,
        )
}

/// Whether one of `subdirs` has a recognized name.
pub open spec fn has_recognized_subfolder(subdirs: Seq<DirectoryNode>) -> bool {
    exists|i: int|
        0 <= i < subdirs.len() && is_recognized_subfolder(
            lower_dir_name(#[trigger] subdirs[i].path@),
        )
}

/// The executables counted by `exe_count` are those that `has_exe` finds.
pub proof fn lemma_exe_count(files: Seq<FileEntry>)
    ensures
        exe_count(files) <= files.len(),
        exe_count(files) > 0 <==> has_exe(files),
    decreases files.len(),
{
    if files.len() > 0 {
        let t = files.drop_last();
        lemma_exe_count(t);
        if has_exe(t) {
            let i = choose|i: int| 0 <= i < t.len() && is_exe_name(#[trigger] t[i].name@);
            assert(files[i] == t[i]);
        }
        if has_exe(files) && !is_exe_name(files.last().name@) {
            let i = choose|i: int| 0 <= i < files.len() && is_exe_name(#[trigger] files[i].name@);
            assert(t[i] == files[i]);
        }
    }
}

/// There are no more files of no recognized kind than files.
pub proof fn lemma_unknown_count(files: Seq<FileEntry>)
    ensures
        unknown_count(files) <= files.len(),
    decreases files.len(),
{
    if files.len() > 0 {
        lemma_unknown_count(files.drop_last());
    }
}

/// The number of executables among `files`.
pub fn count_exe(files: &[FileEntry]) -> (n: usize)
    ensures
        n == exe_count(files@),
{
    let mut n: usize = 0;
    let mut i: usize = 0;
    assert(files@.take(0) =~= Seq::<FileEntry>::empty());
    while i < files.len()
        invariant
            i <= files.len(),
            n == exe_count(files@.take(i as int)),
            n <= i,
        decreases files.len() - i,
    {
        assert(files@.take(i + 1).drop_last() == files@.take(i as int));
        if exe_name(files[i].name.as_str()) {
            n += 1;
        }
        i += 1;
    }
    assert(files@.take(files.len() as int) == files@);
    n
}

/// The number of files of no recognized kind among `files`.
pub fn count_unknown(files: &[FileEntry]) -> (n: usize)
    ensures
        n == unknown_count(files@),
{
    let mut n: usize = 0;
    let mut i: usize = 0;
    assert(files@.take(0) =~= Seq::<FileEntry>::empty());
    while i < files.len()
        invariant
            i <= files.len(),
            n == unknown_count(files@.take(i as int)),
            n <= i,
        decreases files.len() - i,
    {
        assert(files@.take(i + 1).drop_last() == files@.take(i as int));
        if unknown_name(files[i].name.as_str()) {
            n += 1;
        }
        i += 1;
    }
    assert(files@.take(files.len() as int) == files@);
    n
}

/// Whether one of `files` is a supporting file.
pub fn any_supporting_file(files: &[FileEntry]) -> (r: bool)
    ensures
        r == has_supporting_file(files@),
{
    let mut i: usize = 0;
    while i < files.len()
        invariant
            i <= files.len(),
            forall|k: int| 0 <= k < i ==> !is_supporting_name(#[trigger] files@[k].name@),
        decreases files.len() - i,
    {
        if supporting_name(files[i].name.as_str()) {
            return true;
        }
        i += 1;
    }
    false
}

/// Whether one of `files` is a documentation file.
pub fn any_documentation_file(files: &[FileEntry]) -> (r: bool)
    ensures
        r == has_documentation_file(files@),
{
    let mut i: usize = 0;
    while i < files.len()
        invariant
            i <= files.len(),
            forall|k: int| 0 <= k < i ==> !is_documentation_name(#[trigger] files@[k].name@),
        decreases files.len() - i,
    {
        if documentation_name(files[i].name.as_str()) {
            return true;
        }
        i += 1;
    }
    false
}

/// Whether every one of `files` is an executable or an icon.
pub fn all_exe_or_ico(files: &[FileEntry]) -> (r: bool)
    ensures
        r == only_exe_and_ico(files@),
{
    let mut i: usize = 0;
    while i < files.len()
        invariant
            i <= files.len(),
            forall|k: int|
                0 <= k < i ==> is_exe_name(#[trigger] files@[k].name@) || is_ico_name(
                    files@[k].name@,
                ),
        decreases files.len() - i,
    {
        let name = files[i].name.as_str();
        if !exe_name(name) && !ico_name(name) {
            return false;
        }
        i += 1;
    }
    true
}

/// Whether one of `subdirs` has a recognized name.
pub fn any_recognized_subfolder(subdirs: &[DirectoryNode]) -> (r: bool)
    ensures
        r == has_recognized_subfolder(subdirs@),
{
    let mut i: usize = 0;
    while i < subdirs.len()
        invariant
            i <= subdirs.len(),
            forall|k: int|
                0 <= k < i ==> !is_recognized_subfolder(
                    lower_dir_name(#[trigger] subdirs@[k].path@),
                ),
        decreases subdirs.len() - i,
    {
        let n = lower_dir_name_of(subdirs[i].path.as_str());
        if recognized_subfolder(n.as_slice()) {
            return true;
        }
        i += 1;
    }
    false
}

// ---------------------------------------------------------------------------
// Classification
// ---------------------------------------------------------------------------

/// Whether `d` has the layout of single-file programs: at least one
/// executable, no subdirectory, and no file that is not an executable or
/// an icon.
pub open spec fn is_single_file(d: DirectoryNode) -> bool {
    &&& has_exe(d.files@)
    &&& d.subdirs@.len() == 0
    &&& only_exe_and_ico(d.files@)
}

/// Whether `d` has the structure of an application: an executable of its
/// own together with supporting files, recognized subfolders or
/// documentation, or several executables in a folder that is not named
/// like a component.
pub open spec fn has_app_structure(d: DirectoryNode) -> bool {
    &&& has_exe(d.files@)
    &&& (has_supporting_file(d.files@) || has_recognized_subfolder(d.subdirs@)
        || has_documentation_file(d.files@) || (exe_count(d.files@) > 1 && !is_component_name(
        lower_dir_name(d.path@),
    )))
}

/// Whether `d`, taken by itself, is an application.
pub open spec fn is_independent_app(d: DirectoryNode) -> bool {
    is_single_file(d) || has_app_structure(d)
}

/// The number of `subdirs` that are applications by themselves.
pub open spec fn independent_count(subdirs: Seq<DirectoryNode>) -> nat
    decreases subdirs.len(),
{
    if subdirs.len() == 0 {
        0
    } else {
        independent_count(subdirs.drop_last()) + if is_independent_app(subdirs.last()) {
            1nat
        } else {
            0nat
        }
    }
}

/// Whether `d` only groups applications: it has no executable of its own,
/// and one of its subdirectories is an application by itself.
pub open spec fn is_category(d: DirectoryNode) -> bool {
    &&& !has_exe(d.files@)
    &&& d.subdirs@.len() >= 1
    &&& independent_count(d.subdirs@) >= 1
}

/// Whether `d` holds loose programs beside application folders: it has an
/// executable of its own and a subdirectory, at most three in ten of its
/// files are of no recognized kind, and at least four in five of its
/// subdirectories, or at least one, are applications by themselves.
pub open spec fn is_hybrid(d: DirectoryNode) -> bool {
    &&& has_exe(d.files@)
    &&& d.subdirs@.len() >= 1
    &&& 10 * unknown_count(d.files@) <= 3 * d.files@.len()
    &&& (5 * independent_count(d.subdirs@) >= 4 * d.subdirs@.len() || independent_count(
        d.subdirs@,
    ) >= 1)
}

/// Whether the file `name` of the directory at `dir_path` is a candidate:
/// an executable that no ignore rule matches.
pub open spec fn is_candidate_file(dir_path: Seq<char>, name: Seq<char>, rules: Seq<String>) -> bool {
    is_exe_name(name) && !is_ignored(rules, join(dir_path, name))
}

/// Whether one of the files of the directory at `dir_path` is a candidate.
pub open spec fn has_candidate_file(
    dir_path: Seq<char>,
    files: Seq<FileEntry>,
    rules: Seq<String>,
) -> bool {
    exists|i: int|
        0 <= i < files.len() && is_candidate_file(dir_path, #[trigger] files[i].name@, rules)
}

/// Whether `d` has a candidate among its own files or those of its
/// immediate subdirectories.
pub open spec fn has_candidate(d: DirectoryNode, rules: Seq<String>) -> bool {
    ||| has_candidate_file(d.path@, d.files@, rules)
    ||| exists|k: int|
        0 <= k < d.subdirs@.len() && has_candidate_file(
            (#[trigger] d.subdirs@[k]).path@,
            d.subdirs@[k].files@,
            rules,
        )
}

/// The classification of `d` under the ignore rules `rules`. The kinds
/// are tried in a fixed order: category, single file, hybrid, green. A
/// directory is green when none of the earlier kinds applies, it has a
/// file of its own, and it has a candidate.
pub open spec fn classification(d: DirectoryNode, rules: Seq<String>) -> Classification {
    if is_category(d) {
        Classification::Category
    } else if is_single_file(d) {
        Classification::SingleFile
    } else if is_hybrid(d) {
        Classification::Hybrid
    } else if d.files@.len() > 0 && has_candidate(d, rules) {
        Classification::Green
    } else {
        Classification::Unclassifiable
    }
}

/// The subdirectories counted by `independent_count` are those that are
/// applications by themselves.
pub proof fn lemma_independent_count(subdirs: Seq<DirectoryNode>)
    ensures
        independent_count(subdirs) <= subdirs.len(),
        independent_count(subdirs) >= 1 <==> exists|i: int|
            0 <= i < subdirs.len() && is_independent_app(#[trigger] subdirs[i]),
    decreases subdirs.len(),
{
    if subdirs.len() > 0 {
        let t = subdirs.drop_last();
        lemma_independent_count(t);
        if independent_count(t) >= 1 {
            let i = choose|i: int| 0 <= i < t.len() && is_independent_app(#[trigger] t[i]);
            assert(subdirs[i] == t[i]);
        }
        if (exists|i: int| 0 <= i < subdirs.len() && is_independent_app(#[trigger] subdirs[i]))
            && !is_independent_app(subdirs.last()) {
            let i = choose|i: int|
                0 <= i < subdirs.len() && is_independent_app(#[trigger] subdirs[i]);
            assert(t[i] == subdirs[i]);
        }
    }
}

impl DirectoryNode {
    /// Whether this directory has the layout of single-file programs.
    pub fn single_file(&self) -> (r: bool)
        ensures
            r == is_single_file(*self),
    {
        proof {
            lemma_exe_count(self.files@);
        }
        self.subdirs.len() == 0 && count_exe(self.files.as_slice()) > 0 && all_exe_or_ico(
            self.files.as_slice(),
        )
    }

    /// Whether this directory has the structure of an application.
    pub fn app_structure(&self) -> (r: bool)
        ensures
            r == has_app_structure(*self),
    {
        proof {
            lemma_exe_count(self.files@);
        }
        let exes = count_exe(self.files.as_slice());
        if exes == 0 {
            return false;
        }
        if any_supporting_file(self.files.as_slice()) || any_recognized_subfolder(
            self.subdirs.as_slice(),
        ) || any_documentation_file(self.files.as_slice()) {
            return true;
        }
        if exes > 1 {
            let n = lower_dir_name_of(self.path.as_str());
            !component_name(n.as_slice())
        } else {
            false
        }
    }

    /// Whether this directory, taken by itself, is an application.
    pub fn independent_app(&self) -> (r: bool)
        ensures
            r == is_independent_app(*self),
    {
        self.single_file() || self.app_structure()
    }

    /// The number of subdirectories that are applications by themselves.
    pub fn count_independent(&self) -> (n: usize)
        ensures
            n == independent_count(self.subdirs@),
    {
        let mut n: usize = 0;
        let mut i: usize = 0;
        assert(self.subdirs@.take(0) =~= Seq::<DirectoryNode>::empty());
        while i < self.subdirs.len()
            invariant
                i <= self.subdirs.len(),
                n == independent_count(self.subdirs@.take(i as int)),
                n <= i,
            decreases self.subdirs.len() - i,
        {
            assert(self.subdirs@.take(i + 1).drop_last() == self.subdirs@.take(i as int));
            if self.subdirs[i].independent_app() {
                n += 1;
            }
            i += 1;
        }
        assert(self.subdirs@.take(self.subdirs.len() as int) == self.subdirs@);
        n
    }

    /// Whether this directory only groups applications.
    pub fn category(&self) -> (r: bool)
        ensures
            r == is_category(*self),
    {
        proof {
            lemma_exe_count(self.files@);
        }
        count_exe(self.files.as_slice()) == 0 && self.subdirs.len() >= 1
            && self.count_independent() >= 1
    }

    /// Whether this directory holds loose programs beside application
    /// folders.
    pub fn hybrid(&self) -> (r: bool)
        ensures
            r == is_hybrid(*self),
    {
        proof {
            lemma_exe_count(self.files@);
            lemma_unknown_count(self.files@);
            lemma_independent_count(self.subdirs@);
        }
        if count_exe(self.files.as_slice()) == 0 || self.subdirs.len() == 0 {
            return false;
        }
        let unknown: u128 = count_unknown(self.files.as_slice()) as u128;
        let total: u128 = self.files.len() as u128;
        if 10 * unknown > 3 * total {
            return false;
        }
        let q: u128 = self.count_independent() as u128;
        let n: u128 = self.subdirs.len() as u128;
        5 * q >= 4 * n || q >= 1
    }

    /// Whether this directory has a candidate at depth one or two.
    pub fn any_candidate(&self, rules: &[String]) -> (r: bool)
        ensures
            r == has_candidate(*self, rules@),
    {
        if any_candidate_file(self.path.as_str(), self.files.as_slice(), rules) {
            return true;
        }
        let mut k: usize = 0;
        while k < self.subdirs.len()
            invariant
                k <= self.subdirs.len(),
                !has_candidate_file(self.path@, self.files@, rules@),
                forall|j: int|
                    0 <= j < k ==> !has_candidate_file(
                        (#[trigger] self.subdirs@[j]).path@,
                        self.subdirs@[j].files@,
                        rules@,
                    ),
            decreases self.subdirs.len() - k,
        {
            let sub = &self.subdirs[k];
            if any_candidate_file(sub.path.as_str(), sub.files.as_slice(), rules) {
                return true;
            }
            k += 1;
        }
        false
    }

    /// Classifies this directory under the ignore rules `rules`.
    pub fn classify(&self, rules: &[String]) -> (r: Classification)
        ensures
            r == classification(*self, rules@),
    {
        if self.category() {
            Classification::Category
        } else if self.single_file() {
            Classification::SingleFile
        } else if self.hybrid() {
            Classification::Hybrid
        } else if self.files.len() > 0 && self.any_candidate(rules) {
            Classification::Green
        } else {
            Classification::Unclassifiable
        }
    }
}

/// The path of the file `name` in the directory at `dir_path`.
pub fn file_path(dir_path: &str, name: &str) -> (s: String)
    ensures
        s@ == join(dir_path@, name@),
{
    let d = chars_of(dir_path);
    let n = chars_of(name);
    let j = joined(d.as_slice(), n.as_slice());
    string_of(j.as_slice())
}

/// Whether the file `name` of the directory at `dir_path` is a candidate.
pub fn candidate_file(dir_path: &str, name: &str, rules: &[String]) -> (r: bool)
    ensures
        r == is_candidate_file(dir_path@, name@, rules@),
{
    if !exe_name(name) {
        return false;
    }
    let p = file_path(dir_path, name);
    !ignored(rules, p.as_str())
}

/// Whether one of the files of the directory at `dir_path` is a candidate.
pub fn any_candidate_file(dir_path: &str, files: &[FileEntry], rules: &[String]) -> (r: bool)
    ensures
        r == has_candidate_file(dir_path@, files@, rules@),
{
    let mut i: usize = 0;
    while i < files.len()
        invariant
            i <= files.len(),
            forall|k: int|
                0 <= k < i ==> !is_candidate_file(dir_path@, #[trigger] files@[k].name@, rules@),
        decreases files.len() - i,
    {
        if candidate_file(dir_path, files[i].name.as_str(), rules) {
            return true;
        }
        i += 1;
    }
    false
}

// ---------------------------------------------------------------------------
// Laws
// ---------------------------------------------------------------------------

/// A directory with no subdirectory, at least one executable and no file
/// that is not an executable or an icon is classified as single-file,
/// whatever the ignore rules.
pub proof fn lemma_single_file_layout(d: DirectoryNode, rules: Seq<String>)
    requires
        d.subdirs@.len() == 0,
        has_exe(d.files@),
        only_exe_and_ico(d.files@),
    ensures
        classification(d, rules) == Classification::SingleFile,
{
}

/// A directory with no executable of its own and a subdirectory that is
/// classified as single-file is classified as a category, whatever the
/// ignore rules.
pub proof fn lemma_category_of_single_files(d: DirectoryNode, rules: Seq<String>, k: int)
    requires
        !has_exe(d.files@),
        0 <= k < d.subdirs@.len(),
        classification(d.subdirs@[k], rules) == Classification::SingleFile,
    ensures
        classification(d, rules) == Classification::Category,
{
    let sub = d.subdirs@[k];
    assert(is_single_file(sub));
    assert(is_independent_app(sub));
    lemma_independent_count(d.subdirs@);
}

/// Classification depends on the contents alone: two snapshots with the
/// same path, files and subdirectories get the same classification, and
/// classifying one snapshot twice gives one answer.
pub proof fn lemma_classification_is_a_function(
    a: DirectoryNode,
    b: DirectoryNode,
    rules: Seq<String>,
)
    requires
        a.path@ == b.path@,
        a.files@ == b.files@,
        a.subdirs@ == b.subdirs@,
    ensures
        classification(a, rules) == classification(b, rules),
{
}

} // verus!
