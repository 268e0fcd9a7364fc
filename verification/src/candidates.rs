//! The candidates of a directory and the choice of its primary executable.
//!
//! The candidates of a directory are the executables among its own files
//! and among the files of its immediate subdirectories that no ignore rule
//! matches, in that order. Each is scored; the first accepted candidate
//! with the highest score is the primary executable, and the root of the
//! application is resolved from the directory that holds it.

use crate::config::{first_naming, ConfigInfo, Lnk};
use crate::directory::{
    candidate_file, file_path, is_candidate_file, DirectoryNode, FileEntry,
};
use crate::resolver::{level_of, level_views, resolve_index, resolve_root, Level, LevelView,
    MAX_PROMOTIONS};
use crate::scoring::{
    accepted_set, is_score_of, is_selection, lemma_score_bounds, lemma_selection_exists,
    lemma_selection_unique, lemma_threshold_monotonic, name_matches_directory, name_parent_match,
    normalize, normalized, score, select_best, total_score, Architecture, CandidateFacts,
    ExeMetadata, Score, ScoreEntry, ScoreRatio, effective_millionths, FULL_RATIO_MILLIONTHS,
};
use crate::text::{chars_of, string_of};
use crate::winpath::{file_name, file_name_of, join, stem, stem_of};
use vstd::prelude::*;

verus! {

/// The settings of a scan.
#[derive(Debug)]
pub struct ScanSettings {
    /// The ignore rules, in lower case.
    pub ignore: Vec<String>,
    /// The executables that the configuration names.
    pub shortcuts: Vec<Lnk>,
    /// The score ratio of the acceptance rule.
    pub ratio: ScoreRatio,
    /// The architecture of the host.
    pub host: Architecture,
}

/// The ratio that a run asks for: that of the command line if it gives
/// one, else that of the configuration.
pub open spec fn requested_ratio(config: Option<ConfigInfo>, command_line: Option<u32>) -> Option<
    u32,
> {
    if command_line is Some {
        command_line
    } else {
        match config {
            Some(c) => c.score_ratio,
            None => None,
        }
    }
}

/// Whether `settings` are the settings of a run with the configuration
/// `config`: its ignore rules and its executables, none without a
/// configuration; the ratio that the run asks for, or the default if it
/// asks for none or for more than 1.0; and the architecture of the host.
pub open spec fn is_settings_of(
    settings: ScanSettings,
    config: Option<ConfigInfo>,
    command_line: Option<u32>,
    host: Architecture,
) -> bool {
    &&& settings.host == host
    &&& settings.ratio.millionths == effective_millionths(requested_ratio(config, command_line))
    &&& match config {
        Some(c) => settings.ignore@ == c.ignore@ && settings.shortcuts@ == c.shortcut@,
        None => settings.ignore@.len() == 0 && settings.shortcuts@.len() == 0,
    }
}

impl ScanSettings {
    /// The settings of a run, and whether the ratio it asks for was
    /// invalid and replaced by the default. `command_line` is the ratio
    /// given on the command line, in millionths.
    pub fn from_config(config: &Option<ConfigInfo>, command_line: Option<u32>, host: Architecture) -> (r:
        (ScanSettings, bool))
        ensures
            is_settings_of(r.0, *config, command_line, host),
            r.1 == (requested_ratio(*config, command_line) matches Some(m) && m
                > FULL_RATIO_MILLIONTHS),
    {
        let mut ignore: Vec<String> = Vec::new();
        let mut shortcuts: Vec<Lnk> = Vec::new();
        let mut configured: Option<u32> = None;
        match config {
            Some(c) => {
                configured = c.score_ratio;
                let mut i: usize = 0;
                while i < c.ignore.len()
                    invariant
                        i <= c.ignore.len(),
                        ignore@ == c.ignore@.take(i as int),
                    decreases c.ignore.len() - i,
                {
                    ignore.push(c.ignore[i].clone());
                    i += 1;
                }
                assert(c.ignore@.take(c.ignore@.len() as int) == c.ignore@);
                let mut k: usize = 0;
                while k < c.shortcut.len()
                    invariant
                        k <= c.shortcut.len(),
                        shortcuts@ == c.shortcut@.take(k as int),
                    decreases c.shortcut.len() - k,
                {
                    shortcuts.push(c.shortcut[k].duplicate());
                    k += 1;
                }
                assert(c.shortcut@.take(c.shortcut@.len() as int) == c.shortcut@);
            },
            None => {},
        }
        let requested = if command_line.is_some() {
            command_line
        } else {
            configured
        };
        let (ratio, reset) = ScoreRatio::from_config(requested);
        (ScanSettings { ignore, shortcuts, ratio, host }, reset)
    }
}

/// Where a candidate stands in a directory snapshot.
#[derive(Clone, Copy, Debug, PartialEq, Eq, Structural)]
pub struct CandidateRef {
    /// The index of the subdirectory that holds the file; `None` when the
    /// directory itself holds it.
    pub holder: Option<usize>,
    /// The index of the file among the files of its directory.
    pub file: usize,
}

/// The candidates among the first `n` of `files`, which the directory at
/// `dir_path` holds, in order.
pub open spec fn file_candidates(
    dir_path: Seq<char>,
    files: Seq<FileEntry>,
    rules: Seq<String>,
    holder: Option<usize>,
    n: int,
) -> Seq<CandidateRef>
    decreases n,
{
    if n <= 0 || n > files.len() {
        Seq::empty()
    } else {
        let rest = file_candidates(dir_path, files, rules, holder, n - 1);
        if is_candidate_file(dir_path, files[n - 1].name@, rules) {
            rest.push(CandidateRef { holder, file: (n - 1) as usize })
        } else {
            rest
        }
    }
}

/// The candidates in the first `n` of `subdirs`, in order.
pub open spec fn nested_candidates(subdirs: Seq<DirectoryNode>, rules: Seq<String>, n: int) -> Seq<
    CandidateRef,
>
    decreases n,
{
    if n <= 0 || n > subdirs.len() {
        Seq::empty()
    } else {
        nested_candidates(subdirs, rules, n - 1) + file_candidates(
            subdirs[n - 1].path@,
            subdirs[n - 1].files@,
            rules,
            Some((n - 1) as usize),
            subdirs[n - 1].files@.len() as int,
        )
    }
}

/// The candidates of `d`: those among its own files, then those of each
/// immediate subdirectory.
pub open spec fn candidates(d: DirectoryNode, rules: Seq<String>) -> Seq<CandidateRef> {
    file_candidates(d.path@, d.files@, rules, None, d.files@.len() as int) + nested_candidates(
        d.subdirs@,
        rules,
        d.subdirs@.len() as int,
    )
}

/// Whether `c` points at a file of `d` or of one of its subdirectories.
pub open spec fn is_valid_ref(d: DirectoryNode, c: CandidateRef) -> bool {
    match c.holder {
        None => c.file < d.files@.len(),
        Some(k) => k < d.subdirs@.len() && c.file < d.subdirs@[k as int].files@.len(),
    }
}

/// The directory that holds the candidate `c` of `d`.
pub open spec fn holder_of(d: DirectoryNode, c: CandidateRef) -> DirectoryNode {
    match c.holder {
        None => d,
        Some(k) => d.subdirs@[k as int],
    }
}

/// The file that the candidate `c` of `d` stands for.
pub open spec fn file_of(d: DirectoryNode, c: CandidateRef) -> FileEntry {
    holder_of(d, c).files@[c.file as int]
}

/// The path of the candidate `c` of `d`.
pub open spec fn candidate_path(d: DirectoryNode, c: CandidateRef) -> Seq<char> {
    join(holder_of(d, c).path@, file_of(d, c).name@)
}

/// What is known of the candidate `c` of `d` when it is scored: whether
/// the configuration names its path, whether its stem agrees with the
/// name of `d`, and what its inspection reported.
pub open spec fn candidate_facts(d: DirectoryNode, c: CandidateRef, settings: ScanSettings) -> CandidateFacts {
    CandidateFacts {
        config_match: first_naming(settings.shortcuts@, candidate_path(d, c)) is Some,
        name_parent_match: name_matches_directory(file_of(d, c).name@, file_name(d.path@)),
        metadata: file_of(d, c).metadata,
    }
}

/// The scores of the candidates of `d`, in order.
pub open spec fn candidate_scores(d: DirectoryNode, settings: ScanSettings) -> Seq<i32> {
    Seq::new(
        candidates(d, settings.ignore@).len(),
        |i: int|
            total_score(
                candidate_facts(d, candidates(d, settings.ignore@)[i], settings),
                settings.host,
            ) as i32,
    )
}

/// The index of the primary executable among the candidates of `d`: the
/// first accepted candidate with the highest score, if any is accepted.
pub open spec fn primary_index(d: DirectoryNode, settings: ScanSettings) -> Option<int> {
    if exists|i: int| is_selection(candidate_scores(d, settings), settings.ratio, i) {
        Some(choose|i: int| is_selection(candidate_scores(d, settings), settings.ratio, i))
    } else {
        None
    }
}

/// The levels from the scan target down to the directory that holds the
/// candidate `c` of `d`, where `ancestors` are the levels above `d`.
pub open spec fn levels_to(d: DirectoryNode, ancestors: Seq<LevelView>, c: CandidateRef) -> Seq<
    LevelView,
> {
    match c.holder {
        None => ancestors.push(level_of(d)),
        Some(k) => ancestors.push(level_of(d)).push(level_of(d.subdirs@[k as int])),
    }
}

/// The root resolved for the candidate `c` of `d`.
pub open spec fn resolved_root(d: DirectoryNode, ancestors: Seq<LevelView>, c: CandidateRef) -> Seq<
    char,
> {
    let levels = levels_to(d, ancestors, c);
    levels[resolve_index(levels, levels.len() - 1, MAX_PROMOTIONS as nat)].path
}

/// A discovered executable with what scoring makes of it.
#[derive(Debug)]
pub struct ExecutableCandidate {
    /// The path of the executable.
    pub path: String,
    /// The normalized stem of its file name.
    pub stem: String,
    /// The normalized name of the directory it is a candidate of.
    pub parent_name: String,
    /// What its inspection reported.
    pub metadata: Option<ExeMetadata>,
    /// Its score.
    pub score: Score,
}

/// Whether `c` describes the candidate `r` of the directory `d`.
pub open spec fn describes(
    c: ExecutableCandidate,
    d: DirectoryNode,
    r: CandidateRef,
    settings: ScanSettings,
) -> bool {
    &&& c.path@ == candidate_path(d, r)
    &&& c.stem@ == normalized(stem(file_of(d, r).name@))
    &&& c.parent_name@ == normalized(file_name(d.path@))
    &&& c.metadata == file_of(d, r).metadata
    &&& is_score_of(c.score, candidate_facts(d, r, settings), settings.host)
}

/// An application: its root and its primary executable, with the score
/// that selected it.
#[derive(Debug)]
pub struct Selection {
    pub root: String,
    pub executable: String,
    pub score: Score,
}

/// The root and the primary executable of `d`, if a candidate is accepted.
pub open spec fn best_of(d: DirectoryNode, ancestors: Seq<LevelView>, settings: ScanSettings) -> Option<
    (Seq<char>, Seq<char>),
> {
    match primary_index(d, settings) {
        Some(i) => {
            let c = candidates(d, settings.ignore@)[i];
            Some((resolved_root(d, ancestors, c), candidate_path(d, c)))
        },
        None => None,
    }
}

/// For a fixed directory, raising the score ratio only shrinks or keeps
/// the set of accepted candidates: under settings that differ in the
/// ratio alone the scores are the same, every candidate accepted under
/// the higher ratio is accepted under the lower one, and if the higher
/// ratio leaves a primary executable so does the lower.
pub proof fn lemma_directory_acceptance_shrinks(d: DirectoryNode, lo: ScanSettings, hi: ScanSettings)
    requires
        lo.ignore@ == hi.ignore@,
        lo.shortcuts@ == hi.shortcuts@,
        lo.host == hi.host,
        lo.ratio.millionths <= hi.ratio.millionths,
    ensures
        candidate_scores(d, lo) == candidate_scores(d, hi),
        accepted_set(candidate_scores(d, hi), hi.ratio).subset_of(
            accepted_set(candidate_scores(d, lo), lo.ratio),
        ),
        primary_index(d, hi) is Some ==> primary_index(d, lo) is Some,
{
    assert(candidate_scores(d, lo) =~= candidate_scores(d, hi));
    lemma_threshold_monotonic(lo.ratio, hi.ratio);
    let scores = candidate_scores(d, hi);
    lemma_selection_exists(scores, hi.ratio);
    lemma_selection_exists(scores, lo.ratio);
    if primary_index(d, hi) is Some {
        let i = choose|i: int| 0 <= i < scores.len() && hi.ratio.accepts(scores[i] as int);
        assert(lo.ratio.accepts(scores[i] as int));
    }
}

/// Every candidate among the first `n` files points at one of them, and
/// that file is an executable that no ignore rule matches.
pub proof fn lemma_file_candidates(
    dir_path: Seq<char>,
    files: Seq<FileEntry>,
    rules: Seq<String>,
    holder: Option<usize>,
    n: int,
)
    requires
        0 <= n <= files.len(),
        files.len() <= usize::MAX,
    ensures
        forall|i: int|
            0 <= i < file_candidates(dir_path, files, rules, holder, n).len() ==> {
                let c = #[trigger] file_candidates(dir_path, files, rules, holder, n)[i];
                c.holder == holder && c.file < n && is_candidate_file(
                    dir_path,
                    files[c.file as int].name@,
                    rules,
                )
            },
        file_candidates(dir_path, files, rules, holder, n).len() <= n,
    decreases n,
{
    if n > 0 {
        lemma_file_candidates(dir_path, files, rules, holder, n - 1);
    }
}

/// Every candidate in the first `n` subdirectories points at a file of one
/// of them, and that file is an executable that no ignore rule matches.
pub proof fn lemma_nested_candidates(subdirs: Seq<DirectoryNode>, rules: Seq<String>, n: int)
    requires
        0 <= n <= subdirs.len(),
        subdirs.len() <= usize::MAX,
    ensures
        forall|i: int|
            0 <= i < nested_candidates(subdirs, rules, n).len() ==> {
                let c = #[trigger] nested_candidates(subdirs, rules, n)[i];
                c.holder matches Some(k) && k < n && c.file < subdirs[k as int].files@.len()
                    && is_candidate_file(
                    subdirs[k as int].path@,
                    subdirs[k as int].files@[c.file as int].name@,
                    rules,
                )
            },
    decreases n,
{
    if n > 0 {
        lemma_nested_candidates(subdirs, rules, n - 1);
        assert(subdirs[n - 1].files@.len() == subdirs[n - 1].files.len());
        lemma_file_candidates(
            subdirs[n - 1].path@,
            subdirs[n - 1].files@,
            rules,
            Some((n - 1) as usize),
            subdirs[n - 1].files@.len() as int,
        );
    }
}

/// Every candidate of `d` points at an executable of `d` or of one of its
/// subdirectories that no ignore rule matches.
pub proof fn lemma_candidates_valid(d: DirectoryNode, rules: Seq<String>)
    ensures
        forall|i: int|
            0 <= i < candidates(d, rules).len() ==> {
                let c = #[trigger] candidates(d, rules)[i];
                is_valid_ref(d, c) && is_candidate_file(
                    holder_of(d, c).path@,
                    file_of(d, c).name@,
                    rules,
                )
            },
{
    assert(d.files@.len() == d.files.len());
    assert(d.subdirs@.len() == d.subdirs.len());
    lemma_file_candidates(d.path@, d.files@, rules, None, d.files@.len() as int);
    lemma_nested_candidates(d.subdirs@, rules, d.subdirs@.len() as int);
}

/// Lists the candidates among `files`, which the directory at `dir_path`
/// holds.
fn list_file_candidates(
    dir_path: &str,
    files: &[FileEntry],
    rules: &[String],
    holder: Option<usize>,
    out: &mut Vec<CandidateRef>,
)
    ensures
        final(out)@ == old(out)@ + file_candidates(
            dir_path@,
            files@,
            rules@,
            holder,
            files@.len() as int,
        ),
{
    let mut i: usize = 0;
    while i < files.len()
        invariant
            i <= files.len(),
            out@ == old(out)@ + file_candidates(dir_path@, files@, rules@, holder, i as int),
        decreases files.len() - i,
    {
        if candidate_file(dir_path, files[i].name.as_str(), rules) {
            out.push(CandidateRef { holder, file: i });
        }
        i += 1;
        assert(out@ =~= old(out)@ + file_candidates(dir_path@, files@, rules@, holder, i as int));
    }
}

impl DirectoryNode {
    /// Lists the candidates of this directory.
    pub fn list_candidates(&self, rules: &[String]) -> (out: Vec<CandidateRef>)
        ensures
            out@ == candidates(*self, rules@),
            forall|i: int| 0 <= i < out@.len() ==> is_valid_ref(*self, #[trigger] out@[i]),
    {
        let mut out: Vec<CandidateRef> = Vec::new();
        list_file_candidates(self.path.as_str(), self.files.as_slice(), rules, None, &mut out);
        let ghost own = out@;
        let mut k: usize = 0;
        while k < self.subdirs.len()
            invariant
                k <= self.subdirs.len(),
                out@ == own + nested_candidates(self.subdirs@, rules@, k as int),
            decreases self.subdirs.len() - k,
        {
            let sub = &self.subdirs[k];
            list_file_candidates(
                sub.path.as_str(),
                sub.files.as_slice(),
                rules,
                Some(k),
                &mut out,
            );
            k += 1;
            assert(out@ =~= own + nested_candidates(self.subdirs@, rules@, k as int));
        }
        proof {
            lemma_candidates_valid(*self, rules@);
        }
        out
    }

    /// What is known of the candidate `c` when it is scored.
    pub fn facts_of(&self, c: CandidateRef, settings: &ScanSettings) -> (r: CandidateFacts)
        requires
            is_valid_ref(*self, c),
        ensures
            r == candidate_facts(*self, c, *settings),
    {
        let path = self.path_of(c);
        let file = self.entry_of(c);
        let own = chars_of(self.path.as_str());
        let dir_name = file_name_of(own.as_slice());
        let dir_name_text = string_of(dir_name.as_slice());
        CandidateFacts {
            config_match: Lnk::position(path.as_str(), settings.shortcuts.as_slice()).is_some(),
            name_parent_match: name_parent_match(file.name.as_str(), dir_name_text.as_str()),
            metadata: file.metadata,
        }
    }

    /// The file that the candidate `c` stands for.
    pub fn entry_of(&self, c: CandidateRef) -> (r: &FileEntry)
        requires
            is_valid_ref(*self, c),
        ensures
            *r == file_of(*self, c),
    {
        match c.holder {
            None => &self.files[c.file],
            Some(k) => &self.subdirs[k].files[c.file],
        }
    }

    /// The path of the candidate `c`.
    pub fn path_of(&self, c: CandidateRef) -> (r: String)
        requires
            is_valid_ref(*self, c),
        ensures
            r@ == candidate_path(*self, c),
    {
        match c.holder {
            None => file_path(self.path.as_str(), self.files[c.file].name.as_str()),
            Some(k) => file_path(
                self.subdirs[k].path.as_str(),
                self.subdirs[k].files[c.file].name.as_str(),
            ),
        }
    }

    /// Scores the candidates `cands` of this directory.
    pub fn score_candidates(&self, cands: &[CandidateRef], settings: &ScanSettings) -> (out: Vec<
        Score,
    >)
        requires
            forall|i: int| 0 <= i < cands@.len() ==> is_valid_ref(*self, #[trigger] cands@[i]),
        ensures
            out@.len() == cands@.len(),
            forall|i: int|
                0 <= i < out@.len() ==> is_score_of(
                    #[trigger] out@[i],
                    candidate_facts(*self, cands@[i], *settings),
                    settings.host,
                ),
    {
        let mut out: Vec<Score> = Vec::new();
        let mut i: usize = 0;
        while i < cands.len()
            invariant
                i <= cands.len(),
                out@.len() == i,
                forall|j: int| 0 <= j < cands@.len() ==> is_valid_ref(*self, #[trigger] cands@[j]),
                forall|j: int|
                    0 <= j < i ==> is_score_of(
                        #[trigger] out@[j],
                        candidate_facts(*self, cands@[j], *settings),
                        settings.host,
                    ),
            decreases cands.len() - i,
        {
            let facts = self.facts_of(cands[i], settings);
            let s = score(&facts, settings.host);
            out.push(s);
            i += 1;
        }
        out
    }

    /// The candidates of this directory with what scoring makes of each,
    /// in order.
    pub fn evaluate(&self, settings: &ScanSettings) -> (out: Vec<ExecutableCandidate>)
        ensures
            out@.len() == candidates(*self, settings.ignore@).len(),
            forall|i: int|
                0 <= i < out@.len() ==> describes(
                    #[trigger] out@[i],
                    *self,
                    candidates(*self, settings.ignore@)[i],
                    *settings,
                ),
    {
        let cands = self.list_candidates(settings.ignore.as_slice());
        let own = chars_of(self.path.as_str());
        let dir_name = file_name_of(own.as_slice());
        let dir_name_text = string_of(dir_name.as_slice());
        let mut out: Vec<ExecutableCandidate> = Vec::new();
        let mut i: usize = 0;
        while i < cands.len()
            invariant
                i <= cands.len(),
                out@.len() == i,
                dir_name_text@ == file_name(self.path@),
                cands@ == candidates(*self, settings.ignore@),
                forall|j: int| 0 <= j < cands@.len() ==> is_valid_ref(*self, #[trigger] cands@[j]),
                forall|j: int|
                    0 <= j < i ==> describes(#[trigger] out@[j], *self, cands@[j], *settings),
            decreases cands.len() - i,
        {
            let c = cands[i];
            let file = self.entry_of(c);
            let name = chars_of(file.name.as_str());
            let st = stem_of(name.as_slice());
            let st_text = string_of(st.as_slice());
            let facts = self.facts_of(c, settings);
            let candidate = ExecutableCandidate {
                path: self.path_of(c),
                stem: string_of(normalize(st_text.as_str()).as_slice()),
                parent_name: string_of(normalize(dir_name_text.as_str()).as_slice()),
                metadata: file.metadata,
                score: score(&facts, settings.host),
            };
            out.push(candidate);
            i += 1;
        }
        out
    }
}

/// The totals of a list of scores.
fn totals(scores: &[Score]) -> (out: Vec<i32>)
    ensures
        out@.len() == scores@.len(),
        forall|i: int| 0 <= i < out@.len() ==> out@[i] == (#[trigger] scores@[i]).total,
{
    let mut out: Vec<i32> = Vec::new();
    let mut i: usize = 0;
    while i < scores.len()
        invariant
            i <= scores.len(),
            out@.len() == i,
            forall|j: int| 0 <= j < i ==> out@[j] == (#[trigger] scores@[j]).total,
        decreases scores.len() - i,
    {
        out.push(scores[i].total);
        i += 1;
    }
    out
}

/// Finds the application that the directory `d` holds: the first accepted
/// candidate with the highest score, and the root resolved from it.
/// `ancestors` are the levels from the scan target down to the parent of
/// `d`; without any, `d` itself stands for the target. `None` exactly when
/// no candidate is accepted. Among candidates with the same score the one
/// that comes first wins: those of `d` in the order of its files, then
/// those of its subdirectories in their order.
pub fn find_software_best_exe(d: &DirectoryNode, ancestors: &[Level], settings: &ScanSettings) -> (r:
    Option<Selection>)
    ensures
        match r {
            Some(s) => {
                &&& best_of(*d, level_views(ancestors@), *settings) == Some(
                    (s.root@, s.executable@),
                )
                &&& primary_index(*d, *settings) is Some
                &&& is_score_of(
                    s.score,
                    candidate_facts(
                        *d,
                        candidates(*d, settings.ignore@)[primary_index(*d, *settings)->0],
                        *settings,
                    ),
                    settings.host,
                )
            },
            None => best_of(*d, level_views(ancestors@), *settings) is None,
        },
        r is Some <==> exists|i: int|
            0 <= i < candidate_scores(*d, *settings).len() && settings.ratio.accepts(
                candidate_scores(*d, *settings)[i] as int,
            ),
{
    proof {
        lemma_selection_exists(candidate_scores(*d, *settings), settings.ratio);
    }
    let cands = d.list_candidates(settings.ignore.as_slice());
    let scores = d.score_candidates(cands.as_slice(), settings);
    let numbers = totals(scores.as_slice());
    assert forall|i: int| 0 <= i < numbers@.len() implies numbers@[i] == candidate_scores(
        *d,
        *settings,
    )[i] by {
        assert(numbers@[i] == scores@[i].total);
        lemma_score_bounds(candidate_facts(*d, cands@[i], *settings), settings.host);
    }
    assert(numbers@ =~= candidate_scores(*d, *settings));
    match select_best(numbers.as_slice(), settings.ratio) {
        None => {
            proof {
                if primary_index(*d, *settings) is Some {
                    let i = primary_index(*d, *settings)->0;
                    assert(is_selection(candidate_scores(*d, *settings), settings.ratio, i));
                    assert(settings.ratio.accepts(numbers@[i] as int));
                }
            }
            None
        },
        Some(i) => {
            proof {
                let j = choose|j: int|
                    is_selection(candidate_scores(*d, *settings), settings.ratio, j);
                lemma_selection_unique(
                    candidate_scores(*d, *settings),
                    settings.ratio,
                    i as int,
                    j,
                );
            }
            let c = cands[i];
            let executable = d.path_of(c);
            let mut levels: Vec<Level> = Vec::new();
            let mut k: usize = 0;
            while k < ancestors.len()
                invariant
                    k <= ancestors.len(),
                    levels@.len() == k,
                    forall|j: int| 0 <= j < k ==> (#[trigger] levels@[j])@ == ancestors@[j]@,
                decreases ancestors.len() - k,
            {
                levels.push(
                    Level {
                        path: ancestors[k].path.clone(),
                        has_signal: ancestors[k].has_signal,
                        is_component: ancestors[k].is_component,
                    },
                );
                k += 1;
            }
            assert(level_views(levels@) =~= level_views(ancestors@));
            levels.push(d.level());
            assert(level_views(levels@) =~= level_views(ancestors@).push(level_of(*d)));
            match c.holder {
                None => {},
                Some(h) => {
                    levels.push(d.subdirs[h].level());
                    assert(level_views(levels@) =~= level_views(ancestors@).push(
                        level_of(*d),
                    ).push(level_of(d.subdirs@[h as int])));
                },
            }
            assert(level_views(levels@) == levels_to(*d, level_views(ancestors@), c));
            let at = resolve_root(levels.as_slice());
            let root = levels[at].path.clone();
            assert(level_views(levels@)[at as int] == levels@[at as int]@);
            let s = Score { total: scores[i].total, breakdown: copy_breakdown(&scores[i]) };
            Some(Selection { root, executable, score: s })
        },
    }
}

/// A copy of the breakdown of a score.
fn copy_breakdown(s: &Score) -> (out: Vec<ScoreEntry>)
    ensures
        out@ == s.breakdown@,
{
    let mut out: Vec<ScoreEntry> = Vec::new();
    let mut i: usize = 0;
    while i < s.breakdown.len()
        invariant
            i <= s.breakdown.len(),
            out@ == s.breakdown@.take(i as int),
        decreases s.breakdown.len() - i,
    {
        out.push(s.breakdown[i]);
        i += 1;
    }
    assert(s.breakdown@.take(s.breakdown@.len() as int) == s.breakdown@);
    out
}

} // verus!
