//! Scoring of executable candidates and the acceptance rule.
//!
//! A candidate's score is the sum of the deltas of a fixed table of
//! metrics. A candidate is accepted when its score exceeds a threshold
//! derived from the score ratio; among the accepted candidates the first
//! one with the highest score is selected.

use crate::text::{
    chars_of, contains, has, string_of, to_unicode_lower, unicode_lower,
};
use crate::winpath::{stem, stem_of};
use vstd::arithmetic::div_mod::lemma_div_is_ordered;
use vstd::prelude::*;

verus! {

/// The machine an executable was built for.
#[derive(Clone, Copy, Debug, PartialEq, Eq, Structural)]
pub enum Architecture {
    X86,
    X64,
    Arm64,
    Other,
}

impl Architecture {
    /// The architecture named by the machine field of a PE header.
    pub open spec fn of_machine(code: u16) -> Architecture {
        if code == 0x014c {
            Architecture::X86
        } else if code == 0x8664 {
            Architecture::X64
        } else if code == 0xAA64 {
            Architecture::Arm64
        } else {
            Architecture::Other
        }
    }

    /// The architecture named by a Windows processor-architecture code.
    pub open spec fn of_processor(code: u16) -> Architecture {
        if code == 0 {
            Architecture::X86
        } else if code == 9 {
            Architecture::X64
        } else if code == 12 {
            Architecture::Arm64
        } else {
            Architecture::Other
        }
    }

    /// Whether a program built for `self` is native to a host of
    /// architecture `host`. An unrecognised architecture matches nothing.
    pub open spec fn matches_host(self, host: Architecture) -> bool {
        self != Architecture::Other && self == host
    }

    /// The architecture named by the machine field of a PE header.
    pub fn from_machine(code: u16) -> (r: Architecture)
        ensures
            r == Architecture::of_machine(code),
    {
        if code == 0x014c {
            Architecture::X86
        } else if code == 0x8664 {
            Architecture::X64
        } else if code == 0xAA64 {
            Architecture::Arm64
        } else {
            Architecture::Other
        }
    }

    /// The architecture named by a Windows processor-architecture code.
    pub fn from_processor(code: u16) -> (r: Architecture)
        ensures
            r == Architecture::of_processor(code),
    {
        if code == 0 {
            Architecture::X86
        } else if code == 9 {
            Architecture::X64
        } else if code == 12 {
            Architecture::Arm64
        } else {
            Architecture::Other
        }
    }

    /// Whether a program built for `self` is native to a host of
    /// architecture `host`.
    pub fn is_native_to(self, host: Architecture) -> (r: bool)
        ensures
            r == self.matches_host(host),
    {
        match (self, host) {
            (Architecture::X86, Architecture::X86) => true,
            (Architecture::X64, Architecture::X64) => true,
            (Architecture::Arm64, Architecture::Arm64) => true,
            _ => false,
        }
    }
}

/// What inspecting an executable reports.
#[derive(Clone, Copy, Debug, PartialEq, Eq, Structural)]
pub struct ExeMetadata {
    /// The program runs in the GUI subsystem (else in the console).
    pub is_gui: bool,
    /// The program embeds an icon.
    pub has_icon: bool,
    /// The program carries a non-empty file description.
    pub has_description: bool,
    /// The program carries a non-empty signature directory.
    pub has_signature: bool,
    /// The machine the program was built for.
    pub architecture: Architecture,
    /// The size of the file in bytes.
    pub size_bytes: u64,
}

/// What is known of a candidate when it is scored.
#[derive(Clone, Copy, Debug, PartialEq, Eq, Structural)]
pub struct CandidateFacts {
    /// The configuration names this executable.
    pub config_match: bool,
    /// The normalized stem and the normalized directory name contain one
    /// another.
    pub name_parent_match: bool,
    /// The inspection result; `None` when the file could not be inspected.
    pub metadata: Option<ExeMetadata>,
}

/// The rows of the score table.
#[derive(Clone, Copy, Debug, PartialEq, Eq, Structural)]
pub enum Metric {
    ConfigMatch,
    NameParentMatch,
    GuiSubsystem,
    GuiPenalty,
    IconPresent,
    DescriptionPresent,
    ArchitectureMatch,
    DigitalSignature,
    SizeBonus,
}

/// One line of a score breakdown.
#[derive(Clone, Copy, Debug, PartialEq, Eq, Structural)]
pub struct ScoreEntry {
    pub metric: Metric,
    pub delta: i32,
}

/// A candidate's score with the delta of every metric, in table order.
#[derive(Clone, Debug)]
pub struct Score {
    pub total: i32,
    pub breakdown: Vec<ScoreEntry>,
}

/// The sum of the largest deltas of all metrics.
pub const MAX_TOTAL: i32 = 395;

/// The number of bytes in one MiB.
pub const MIB: u64 = 1_048_576;

/// The metrics in table order.
pub open spec fn all_metrics() -> Seq<Metric> {
    seq![
        Metric::ConfigMatch,
        Metric::NameParentMatch,
        Metric::GuiSubsystem,
        Metric::GuiPenalty,
        Metric::IconPresent,
        Metric::DescriptionPresent,
        Metric::ArchitectureMatch,
        Metric::DigitalSignature,
        Metric::SizeBonus,
    ]
}

/// The largest delta a metric can contribute.
pub open spec fn metric_max(m: Metric) -> int {
    match m {
        Metric::ConfigMatch => 100,
        Metric::NameParentMatch => 40,
        Metric::GuiSubsystem => 50,
        Metric::GuiPenalty => 0,
        Metric::IconPresent => 40,
        Metric::DescriptionPresent => 30,
        Metric::ArchitectureMatch => 45,
        Metric::DigitalSignature => 60,
        Metric::SizeBonus => 30,
    }
}

/// The size bonus: one point per whole MiB, at most 30.
pub open spec fn size_bonus(size_bytes: u64) -> int {
    if size_bytes / MIB > 30 {
        30
    } else {
        (size_bytes / MIB) as int
    }
}

/// The delta that metric `m` contributes for a candidate on a host of
/// architecture `host`. Metrics that rest on the inspection contribute
/// nothing when there is no inspection result.
pub open spec fn metric_delta(m: Metric, facts: CandidateFacts, host: Architecture) -> int {
    match m {
        Metric::ConfigMatch => if facts.config_match {
            100
        } else {
            0
        },
        Metric::NameParentMatch => if facts.name_parent_match {
            40
        } else {
            0
        },
        Metric::GuiSubsystem => if facts.metadata matches Some(d) && d.is_gui {
            50
        } else {
            0
        },
        Metric::GuiPenalty => if facts.metadata matches Some(d) && !d.is_gui {
            -30
        } else {
            0
        },
        Metric::IconPresent => if facts.metadata matches Some(d) && d.has_icon {
            40
        } else {
            0
        },
        Metric::DescriptionPresent => if facts.metadata matches Some(d) && d.has_description {
            30
        } else {
            0
        },
        Metric::ArchitectureMatch => if facts.metadata matches Some(d)
            && d.architecture.matches_host(host) {
            45
        } else {
            0
        },
        Metric::DigitalSignature => if facts.metadata matches Some(d) && d.has_signature {
            60
        } else {
            0
        },
        Metric::SizeBonus => match facts.metadata {
            Some(d) => size_bonus(d.size_bytes),
            None => 0,
        },
    }
}

/// The score of a candidate: the sum of the deltas of all metrics.
pub open spec fn total_score(facts: CandidateFacts, host: Architecture) -> int {
    metric_delta(Metric::ConfigMatch, facts, host) + metric_delta(
        Metric::NameParentMatch,
        facts,
        host,
    ) + metric_delta(Metric::GuiSubsystem, facts, host) + metric_delta(
        Metric::GuiPenalty,
        facts,
        host,
    ) + metric_delta(Metric::IconPresent, facts, host) + metric_delta(
        Metric::DescriptionPresent,
        facts,
        host,
    ) + metric_delta(Metric::ArchitectureMatch, facts, host) + metric_delta(
        Metric::DigitalSignature,
        facts,
        host,
    ) + metric_delta(Metric::SizeBonus, facts, host)
}

/// The maxima of the table add up to `MAX_TOTAL`.
pub proof fn lemma_max_total()
    ensures
        metric_max(Metric::ConfigMatch) + metric_max(Metric::NameParentMatch) + metric_max(
            Metric::GuiSubsystem,
        ) + metric_max(Metric::GuiPenalty) + metric_max(Metric::IconPresent) + metric_max(
            Metric::DescriptionPresent,
        ) + metric_max(Metric::ArchitectureMatch) + metric_max(Metric::DigitalSignature)
            + metric_max(Metric::SizeBonus) == MAX_TOTAL,
{
}

/// No metric exceeds its maximum, and no score exceeds `MAX_TOTAL` or falls
/// below the single penalty.
pub proof fn lemma_score_bounds(facts: CandidateFacts, host: Architecture)
    ensures
        forall|m: Metric| metric_delta(m, facts, host) <= metric_max(m),
        -30 <= total_score(facts, host) <= MAX_TOTAL,
{
}

/// The delta that metric `m` contributes for a candidate.
pub fn metric_delta_of(m: Metric, facts: &CandidateFacts, host: Architecture) -> (r: i32)
    ensures
        r == metric_delta(m, *facts, host),
{
    match m {
        Metric::ConfigMatch => if facts.config_match {
            100
        } else {
            0
        },
        Metric::NameParentMatch => if facts.name_parent_match {
            40
        } else {
            0
        },
        Metric::GuiSubsystem => match facts.metadata {
            Some(d) => if d.is_gui {
                50
            } else {
                0
            },
            None => 0,
        },
        Metric::GuiPenalty => match facts.metadata {
            Some(d) => if d.is_gui {
                0
            } else {
                -30
            },
            None => 0,
        },
        Metric::IconPresent => match facts.metadata {
            Some(d) => if d.has_icon {
                40
            } else {
                0
            },
            None => 0,
        },
        Metric::DescriptionPresent => match facts.metadata {
            Some(d) => if d.has_description {
                30
            } else {
                0
            },
            None => 0,
        },
        Metric::ArchitectureMatch => match facts.metadata {
            Some(d) => if d.architecture.is_native_to(host) {
                45
            } else {
                0
            },
            None => 0,
        },
        Metric::DigitalSignature => match facts.metadata {
            Some(d) => if d.has_signature {
                60
            } else {
                0
            },
            None => 0,
        },
        Metric::SizeBonus => match facts.metadata {
            Some(d) => {
                let whole: u64 = d.size_bytes / MIB;
                if whole > 30 {
                    30
                } else {
                    whole as i32
                }
            },
            None => 0,
        },
    }
}

/// The metric in row `i` of the table.
fn metric_at(i: usize) -> (r: Metric)
    requires
        i < 9,
    ensures
        r == all_metrics()[i as int],
{
    if i == 0 {
        Metric::ConfigMatch
    } else if i == 1 {
        Metric::NameParentMatch
    } else if i == 2 {
        Metric::GuiSubsystem
    } else if i == 3 {
        Metric::GuiPenalty
    } else if i == 4 {
        Metric::IconPresent
    } else if i == 5 {
        Metric::DescriptionPresent
    } else if i == 6 {
        Metric::ArchitectureMatch
    } else if i == 7 {
        Metric::DigitalSignature
    } else {
        Metric::SizeBonus
    }
}

/// The sum of the deltas of the first `n` rows of the table.
pub open spec fn partial_score(facts: CandidateFacts, host: Architecture, n: int) -> int
    decreases n,
{
    if n <= 0 {
        0
    } else {
        partial_score(facts, host, n - 1) + metric_delta(all_metrics()[n - 1], facts, host)
    }
}

/// Summing the table row by row gives the score.
pub proof fn lemma_partial_score(facts: CandidateFacts, host: Architecture)
    ensures
        partial_score(facts, host, 9) == total_score(facts, host),
{
    reveal_with_fuel(partial_score, 10);
}

/// Whether `s` is the score of a candidate of which `facts` are known:
/// its total is the sum of the deltas, and its breakdown lists every
/// metric with its delta, in table order.
pub open spec fn is_score_of(s: Score, facts: CandidateFacts, host: Architecture) -> bool {
    &&& s.total == total_score(facts, host)
    &&& s.breakdown@.len() == 9
    &&& forall|i: int|
        0 <= i < 9 ==> (#[trigger] s.breakdown@[i]).metric == all_metrics()[i]
            && s.breakdown@[i].delta == metric_delta(all_metrics()[i], facts, host)
}

/// Scores a candidate: the total, and the delta of every metric in table
/// order.
pub fn score(facts: &CandidateFacts, host: Architecture) -> (r: Score)
    ensures
        is_score_of(r, *facts, host),
{
    let mut breakdown: Vec<ScoreEntry> = Vec::new();
    let mut total: i32 = 0;
    let mut i: usize = 0;
    while i < 9
        invariant
            i <= 9,
            breakdown@.len() == i,
            total == partial_score(*facts, host, i as int),
            -30 * i <= total <= 100 * i,
            forall|k: int|
                0 <= k < i ==> (#[trigger] breakdown@[k]).metric == all_metrics()[k]
                    && breakdown@[k].delta == metric_delta(all_metrics()[k], *facts, host),
        decreases 9 - i,
    {
        let m = metric_at(i);
        let d = metric_delta_of(m, facts, host);
        breakdown.push(ScoreEntry { metric: m, delta: d });
        total = total + d;
        i += 1;
    }
    proof {
        lemma_partial_score(*facts, host);
    }
    Score { total, breakdown }
}

// ---------------------------------------------------------------------------
// Acceptance
// ---------------------------------------------------------------------------

/// The fraction of `MAX_TOTAL` that a score must exceed, in millionths:
/// `300_000` stands for 0.3.
#[derive(Clone, Copy, Debug, PartialEq, Eq, Structural)]
pub struct ScoreRatio {
    pub millionths: u32,
}

/// The ratio used where none is configured: 0.3.
pub const DEFAULT_RATIO_MILLIONTHS: u32 = 300_000;

/// The largest ratio a configuration may ask for: 1.0.
pub const FULL_RATIO_MILLIONTHS: u32 = 1_000_000;

/// `MAX_TOTAL` times the ratio, rounded to the nearest integer, halves up.
pub open spec fn threshold_of(millionths: int) -> int {
    (MAX_TOTAL * millionths + 500_000) / 1_000_000
}

/// The ratio that a configuration asking for `requested` gets: the default
/// if it asks for none or for more than 1.0, else what it asks for.
pub open spec fn effective_millionths(requested: Option<u32>) -> u32 {
    match requested {
        Some(m) => if m > FULL_RATIO_MILLIONTHS {
            DEFAULT_RATIO_MILLIONTHS
        } else {
            m
        },
        None => DEFAULT_RATIO_MILLIONTHS,
    }
}

impl ScoreRatio {
    /// The score that a candidate must exceed to be accepted.
    pub open spec fn threshold(self) -> int {
        threshold_of(self.millionths as int)
    }

    /// Whether a candidate with this score is accepted: it is discarded
    /// when the score does not exceed the threshold.
    pub open spec fn accepts(self, score: int) -> bool {
        score > self.threshold()
    }

    /// The ratio of so many millionths.
    pub fn from_millionths(millionths: u32) -> (r: ScoreRatio)
        ensures
            r.millionths == millionths,
    {
        ScoreRatio { millionths }
    }

    /// The ratio for a configuration that asks for `requested`, and whether
    /// the request was invalid and replaced by the default.
    pub fn from_config(requested: Option<u32>) -> (r: (ScoreRatio, bool))
        ensures
            r.0.millionths == effective_millionths(requested),
            r.1 == (requested matches Some(m) && m > FULL_RATIO_MILLIONTHS),
    {
        match requested {
            Some(m) => if m > FULL_RATIO_MILLIONTHS {
                (ScoreRatio { millionths: DEFAULT_RATIO_MILLIONTHS }, true)
            } else {
                (ScoreRatio { millionths: m }, false)
            },
            None => (ScoreRatio { millionths: DEFAULT_RATIO_MILLIONTHS }, false),
        }
    }

    /// The score that a candidate must exceed to be accepted.
    pub fn threshold_value(&self) -> (r: i64)
        ensures
            r == self.threshold(),
            0 <= r <= 1_696_513,
    {
        let scaled: u64 = 395u64 * (self.millionths as u64) + 500_000u64;
        let t: u64 = scaled / 1_000_000u64;
        t as i64
    }

    /// Whether a candidate with this score is accepted.
    pub fn is_accepted(&self, score: i32) -> (r: bool)
        ensures
            r == self.accepts(score as int),
    {
        (score as i64) > self.threshold_value()
    }
}

impl Default for ScoreRatio {
    fn default() -> (r: ScoreRatio)
        ensures
            r.millionths == DEFAULT_RATIO_MILLIONTHS,
    {
        ScoreRatio { millionths: DEFAULT_RATIO_MILLIONTHS }
    }
}

/// A larger ratio never has a smaller threshold.
pub proof fn lemma_threshold_monotonic(lo: ScoreRatio, hi: ScoreRatio)
    requires
        lo.millionths <= hi.millionths,
    ensures
        lo.threshold() <= hi.threshold(),
{
    lemma_div_is_ordered(
        MAX_TOTAL * lo.millionths + 500_000,
        MAX_TOTAL * hi.millionths + 500_000,
        1_000_000,
    );
}

/// Raising the score ratio never lets in a candidate that the lower ratio
/// kept out: whatever the higher ratio accepts, the lower one accepts too.
pub proof fn lemma_acceptance_monotonic(score: int, lo: ScoreRatio, hi: ScoreRatio)
    requires
        lo.millionths <= hi.millionths,
    ensures
        hi.accepts(score) ==> lo.accepts(score),
{
    lemma_threshold_monotonic(lo, hi);
}

/// The indices of the scores that a ratio accepts.
pub open spec fn accepted_set(scores: Seq<i32>, ratio: ScoreRatio) -> Set<int> {
    Set::new(|i: int| 0 <= i < scores.len() && ratio.accepts(scores[i] as int))
}

/// For a fixed list of candidates, the set accepted under a higher ratio
/// is a subset of the set accepted under a lower one.
pub proof fn lemma_accepted_set_shrinks(scores: Seq<i32>, lo: ScoreRatio, hi: ScoreRatio)
    requires
        lo.millionths <= hi.millionths,
    ensures
        accepted_set(scores, hi).subset_of(accepted_set(scores, lo)),
{
    lemma_threshold_monotonic(lo, hi);
}

/// Whether index `i` is the selection among `scores`: its score is
/// accepted, no score is higher, and no earlier score is as high.
pub open spec fn is_selection(scores: Seq<i32>, ratio: ScoreRatio, i: int) -> bool {
    &&& 0 <= i < scores.len()
    &&& ratio.accepts(scores[i] as int)
    &&& forall|j: int| 0 <= j < scores.len() ==> scores[j] <= scores[i]
    &&& forall|j: int| 0 <= j < i ==> scores[j] < scores[i]
}

/// Selects the primary candidate: the first accepted candidate with the
/// highest score. `None` exactly when no candidate is accepted.
pub fn select_best(scores: &[i32], ratio: ScoreRatio) -> (r: Option<usize>)
    ensures
        match r {
            Some(i) => is_selection(scores@, ratio, i as int),
            None => forall|j: int|
                0 <= j < scores.len() ==> !ratio.accepts(#[trigger] scores@[j] as int),
        },
{
    let mut best: Option<usize> = None;
    let mut i: usize = 0;
    while i < scores.len()
        invariant
            i <= scores.len(),
            match best {
                Some(b) => b < i && ratio.accepts(scores@[b as int] as int) && (forall|j: int|
                    0 <= j < i ==> scores@[j] <= scores@[b as int]) && (forall|j: int|
                    0 <= j < b ==> scores@[j] < scores@[b as int]),
                None => forall|j: int|
                    0 <= j < i ==> !ratio.accepts(#[trigger] scores@[j] as int),
            },
        decreases scores.len() - i,
    {
        if ratio.is_accepted(scores[i]) {
            match best {
                Some(b) => {
                    if scores[i] > scores[b] {
                        best = Some(i);
                    }
                },
                None => {
                    best = Some(i);
                },
            }
        }
        i += 1;
    }
    best
}

/// Among the first `n` scores there is a selection as soon as one of
/// them is accepted.
pub proof fn lemma_selection_in_prefix(scores: Seq<i32>, ratio: ScoreRatio, n: int)
    requires
        0 <= n <= scores.len(),
        exists|i: int| 0 <= i < n && ratio.accepts(scores[i] as int),
    ensures
        exists|j: int| is_selection(scores.take(n), ratio, j),
    decreases n,
{
    let last = n - 1;
    let p = scores.take(n);
    if exists|i: int| 0 <= i < last && ratio.accepts(scores[i] as int) {
        lemma_selection_in_prefix(scores, ratio, last);
        let q = scores.take(last);
        let j = choose|j: int| is_selection(q, ratio, j);
        assert forall|k: int| 0 <= k < last implies p[k] == q[k] by {}
        if scores[last] > q[j] {
            assert(is_selection(p, ratio, last));
        } else {
            assert(is_selection(p, ratio, j));
        }
    } else {
        assert(ratio.accepts(scores[last] as int));
        assert(is_selection(p, ratio, last));
    }
}

/// There is a selection exactly when a score is accepted.
pub proof fn lemma_selection_exists(scores: Seq<i32>, ratio: ScoreRatio)
    ensures
        (exists|j: int| is_selection(scores, ratio, j)) <==> (exists|i: int|
            0 <= i < scores.len() && ratio.accepts(scores[i] as int)),
{
    if exists|i: int| 0 <= i < scores.len() && ratio.accepts(scores[i] as int) {
        lemma_selection_in_prefix(scores, ratio, scores.len() as int);
        assert(scores.take(scores.len() as int) == scores);
    }
    if exists|j: int| is_selection(scores, ratio, j) {
        let j = choose|j: int| is_selection(scores, ratio, j);
        assert(0 <= j < scores.len() && ratio.accepts(scores[j] as int));
    }
}

/// The selection is unique.
pub proof fn lemma_selection_unique(scores: Seq<i32>, ratio: ScoreRatio, i: int, j: int)
    requires
        is_selection(scores, ratio, i),
        is_selection(scores, ratio, j),
    ensures
        i == j,
{
}

// ---------------------------------------------------------------------------
// Name and directory
// ---------------------------------------------------------------------------

/// Whether `c` is dropped when names are normalized.
pub open spec fn is_joiner(c: char) -> bool {
    c == ' ' || c == '-' || c == '_'
}

/// `s` without spaces, hyphens and underscores.
pub open spec fn strip_joiners(s: Seq<char>) -> Seq<char>
    decreases s.len(),
{
    if s.len() == 0 {
        Seq::empty()
    } else if is_joiner(s.last()) {
        strip_joiners(s.drop_last())
    } else {
        strip_joiners(s.drop_last()).push(s.last())
    }
}

/// The normalized form of a name: lower case, without spaces, hyphens and
/// underscores.
pub open spec fn normalized(s: Seq<char>) -> Seq<char> {
    strip_joiners(unicode_lower(s))
}

/// Whether one of two normalized names contains the other.
pub open spec fn names_agree(a: Seq<char>, b: Seq<char>) -> bool {
    contains(a, b) || contains(b, a)
}

/// Whether the stem of the file name `exe_name` and the directory name
/// `dir_name` agree once both are normalized.
pub open spec fn name_matches_directory(exe_name: Seq<char>, dir_name: Seq<char>) -> bool {
    names_agree(normalized(stem(exe_name)), normalized(dir_name))
}

/// `s` without spaces, hyphens and underscores.
pub fn without_joiners(s: &[char]) -> (v: Vec<char>)
    ensures
        v@ == strip_joiners(s@),
{
    let mut v: Vec<char> = Vec::new();
    let mut i: usize = 0;
    while i < s.len()
        invariant
            i <= s.len(),
            v@ == strip_joiners(s@.take(i as int)),
        decreases s.len() - i,
    {
        let c = s[i];
        assert(s@.take(i + 1).drop_last() == s@.take(i as int));
        if !(c == ' ' || c == '-' || c == '_') {
            v.push(c);
        }
        i += 1;
    }
    assert(s@.take(s.len() as int) == s@);
    v
}

/// The normalized form of `name`.
pub fn normalize(name: &str) -> (v: Vec<char>)
    ensures
        v@ == normalized(name@),
{
    let low = to_unicode_lower(name);
    let chars = chars_of(low.as_str());
    without_joiners(chars.as_slice())
}

/// Whether one of two normalized names contains the other.
pub fn normalized_names_agree(a: &[char], b: &[char]) -> (r: bool)
    ensures
        r == names_agree(a@, b@),
{
    has(a, b) || has(b, a)
}

/// Whether the stem of the file name `exe_name` and the directory name
/// `dir_name` agree once both are normalized.
pub fn name_parent_match(exe_name: &str, dir_name: &str) -> (r: bool)
    ensures
        r == name_matches_directory(exe_name@, dir_name@),
{
    let name = chars_of(exe_name);
    let st = stem_of(name.as_slice());
    let st_text = string_of(st.as_slice());
    let a = normalize(st_text.as_str());
    let b = normalize(dir_name);
    normalized_names_agree(a.as_slice(), b.as_slice())
}

} // verus!
