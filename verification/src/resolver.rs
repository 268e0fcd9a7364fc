//! Resolution of an application's root directory.
//!
//! The directory that holds the selected executable is the first guess.
//! From there the root moves up to the parent, at most three times, while
//! the parent shows the structure of an application or the current root is
//! named like a component folder. It never moves up to the scan target.

use crate::directory::{
    component_name, equals_text, is_component_name, lower_dir_name, lower_dir_name_of,
    lower_extension, DirectoryNode, FileEntry,
};
use crate::text::{chars_of, to_ascii_lower};
use crate::winpath::{extension, extension_of};
use vstd::prelude::*;

verus! {

/// The largest number of times a root is moved up.
pub const MAX_PROMOTIONS: usize = 3;

/// Extensions of files that mark the directory of an application; given
/// in lower case.
pub open spec fn is_structure_extension(e: Seq<char>) -> bool {
    ||| e == "dll"@
    ||| e == "ini"@
    ||| e == "json"@
    ||| e == "xml"@
    ||| e == "dat"@
    ||| e == "cfg"@
    ||| e == "conf"@
}

/// Names of subfolders that mark the directory of an application; given
/// in lower case.
pub open spec fn is_structure_subfolder(n: Seq<char>) -> bool {
    ||| n == "bin"@
    ||| n == "lib"@
    ||| n == "data"@
    ||| n == "program"@
    ||| n == "assets"@
    ||| n == "resources"@
    ||| n == "content"@
}

/// Whether the file name marks the directory of an application.
pub open spec fn is_structure_file(name: Seq<char>) -> bool {
    extension(name) is Some && is_structure_extension(lower_extension(name))
}

/// Whether the immediate contents of `d` mark it as the directory of an
/// application.
pub open spec fn has_structure_signal(d: DirectoryNode) -> bool {
    ||| exists|i: int| 0 <= i < d.files@.len() && is_structure_file(#[trigger] d.files@[i].name@)
    ||| exists|k: int|
        0 <= k < d.subdirs@.len() && is_structure_subfolder(
            lower_dir_name(#[trigger] d.subdirs@[k].path@),
        )
}

/// What the resolver reads of one directory on the way from the scan
/// target down to a candidate.
#[derive(Debug)]
pub struct Level {
    /// The directory's path.
    pub path: String,
    /// Its immediate contents mark it as the directory of an application.
    pub has_signal: bool,
    /// Its name is that of a component folder.
    pub is_component: bool,
}

/// The mathematical form of a `Level`.
pub struct LevelView {
    pub path: Seq<char>,
    pub has_signal: bool,
    pub is_component: bool,
}

impl View for Level {
    type V = LevelView;

    open spec fn view(&self) -> LevelView {
        LevelView { path: self.path@, has_signal: self.has_signal, is_component: self.is_component }
    }
}

/// The views of a sequence of levels.
pub open spec fn level_views(levels: Seq<Level>) -> Seq<LevelView> {
    levels.map_values(|l: Level| l@)
}

/// What the resolver reads of the directory `d`.
pub open spec fn level_of(d: DirectoryNode) -> LevelView {
    LevelView {
        path: d.path@,
        has_signal: has_structure_signal(d),
        is_component: is_component_name(lower_dir_name(d.path@)),
    }
}

/// The index of the root after at most `steps` further promotions from
/// index `start`. `levels[0]` is the scan target and each later level is a
/// subdirectory of the one before. The root moves from `start` to
/// `start - 1` when that is not the target and either the parent has a
/// structure signal or the current root is a component folder.
pub open spec fn resolve_index(levels: Seq<LevelView>, start: int, steps: nat) -> int
    decreases steps,
{
    if steps == 0 || start <= 1 || start >= levels.len() {
        start
    } else if levels[start - 1].has_signal || levels[start].is_component {
        resolve_index(levels, start - 1, (steps - 1) as nat)
    } else {
        start
    }
}

/// The root lies between the target's children and the first guess, at
/// most `steps` levels above the guess.
pub proof fn lemma_resolve_index_bounds(levels: Seq<LevelView>, start: int, steps: nat)
    ensures
        resolve_index(levels, start, steps) <= start,
        start - steps <= resolve_index(levels, start, steps),
        start >= 1 ==> resolve_index(levels, start, steps) >= 1,
        start >= 0 ==> resolve_index(levels, start, steps) >= 0,
    decreases steps,
{
    if steps == 0 || start <= 1 || start >= levels.len() {
    } else if levels[start - 1].has_signal || levels[start].is_component {
        lemma_resolve_index_bounds(levels, start - 1, (steps - 1) as nat);
    }
}

/// Resolves the root for a candidate whose directory is the last of
/// `levels`: the index of the root among `levels`.
pub fn resolve_root(levels: &[Level]) -> (r: usize)
    requires
        levels.len() >= 1,
    ensures
        r == resolve_index(level_views(levels@), levels.len() - 1, MAX_PROMOTIONS as nat),
        r < levels.len(),
{
    let mut current: usize = levels.len() - 1;
    let mut steps: usize = MAX_PROMOTIONS;
    proof {
        lemma_resolve_index_bounds(level_views(levels@), current as int, steps as nat);
    }
    while steps > 0 && current > 1
        invariant
            current < levels.len(),
            steps <= MAX_PROMOTIONS,
            resolve_index(level_views(levels@), levels.len() - 1, MAX_PROMOTIONS as nat)
                == resolve_index(level_views(levels@), current as int, steps as nat),
        decreases steps,
    {
        assert(level_views(levels@)[current - 1] == levels@[current - 1]@);
        assert(level_views(levels@)[current as int] == levels@[current as int]@);
        if levels[current - 1].has_signal || levels[current].is_component {
            current -= 1;
            steps -= 1;
        } else {
            return current;
        }
    }
    current
}

/// Whether `e`, in lower case, is an extension that marks the directory
/// of an application.
pub fn structure_extension(e: &[char]) -> (r: bool)
    ensures
        r == is_structure_extension(e@),
{
    equals_text(e, "dll") || equals_text(e, "ini") || equals_text(e, "json") || equals_text(
        e,
        "xml",
    ) || equals_text(e, "dat") || equals_text(e, "cfg") || equals_text(e, "conf")
}

/// Whether `n`, in lower case, is the name of a subfolder that marks the
/// directory of an application.
pub fn structure_subfolder(n: &[char]) -> (r: bool)
    ensures
        r == is_structure_subfolder(n@),
{
    equals_text(n, "bin") || equals_text(n, "lib") || equals_text(n, "data") || equals_text(
        n,
        "program",
    ) || equals_text(n, "assets") || equals_text(n, "resources") || equals_text(n, "content")
}

/// Whether the file name marks the directory of an application.
pub fn structure_file(name: &str) -> (r: bool)
    ensures
        r == is_structure_file(name@),
{
    let n = chars_of(name);
    match extension_of(n.as_slice()) {
        Some(e) => {
            let low = to_ascii_lower(e.as_slice());
            structure_extension(low.as_slice())
        },
        None => false,
    }
}

fn any_structure_file(files: &[FileEntry]) -> (r: bool)
    ensures
        r == exists|i: int| 0 <= i < files@.len() && is_structure_file(#[trigger] files@[i].name@),
{
    let mut i: usize = 0;
    while i < files.len()
        invariant
            i <= files.len(),
            forall|k: int| 0 <= k < i ==> !is_structure_file(#[trigger] files@[k].name@),
        decreases files.len() - i,
    {
        if structure_file(files[i].name.as_str()) {
            return true;
        }
        i += 1;
    }
    false
}

fn any_structure_subfolder(subdirs: &[DirectoryNode]) -> (r: bool)
    ensures
        r == exists|k: int|
            0 <= k < subdirs@.len() && is_structure_subfolder(
                lower_dir_name(#[trigger] subdirs@[k].path@),
            ),
{
    let mut i: usize = 0;
    while i < subdirs.len()
        invariant
            i <= subdirs.len(),
            forall|k: int|
                0 <= k < i ==> !is_structure_subfolder(
                    lower_dir_name(#[trigger] subdirs@[k].path@),
                ),
        decreases subdirs.len() - i,
    {
        let n = lower_dir_name_of(subdirs[i].path.as_str());
        if structure_subfolder(n.as_slice()) {
            return true;
        }
        i += 1;
    }
    false
}

impl DirectoryNode {
    /// Whether the immediate contents of this directory mark it as the
    /// directory of an application.
    pub fn structure_signal(&self) -> (r: bool)
        ensures
            r == has_structure_signal(*self),
    {
        any_structure_file(self.files.as_slice()) || any_structure_subfolder(
            self.subdirs.as_slice(),
        )
    }

    /// What the resolver reads of this directory.
    pub fn level(&self) -> (l: Level)
        ensures
            l@ == level_of(*self),
    {
        let n = lower_dir_name_of(self.path.as_str());
        Level {
            path: self.path.clone(),
            has_signal: self.structure_signal(),
            is_component: component_name(n.as_slice()),
        }
    }
}

} // verus!
