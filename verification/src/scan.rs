//! The scan of a directory tree for applications.
//!
//! The scan walks the snapshot of the target in pre-order. The executables
//! directly under the target are applications of their own. Every
//! directory below the target is first held against the entry filter and,
//! if it passes, classified and acted on; then its subdirectories follow.
//! Every root that is reported is first claimed in the set of resolved
//! roots, which never holds two paths of which one is the other or lies
//! below it. What cannot be claimed is not reported.

use crate::candidates::{best_of, find_software_best_exe, ScanSettings};
use crate::directory::{
    candidate_file, classification, equals_text, file_path, ignored, is_candidate_file,
    is_ignored, lower_dir_name, lower_dir_name_of, Classification, DirectoryNode, FileEntry,
};
use crate::resolver::{level_of, level_views, Level, LevelView};
use crate::text::chars_of;
use crate::winpath::{do_overlap, is_within, join, lies_within, overlaps};
use vstd::prelude::*;

verus! {

/// What a scan reports.
#[derive(Debug)]
pub enum ScanEvent {
    /// An application with its root and its primary executable.
    Application { root: String, primary_executable: String },
    /// A directory that groups or bundles applications.
    Container { directory: String },
    /// An application package whose primary executable was not recognized.
    Unrecognized { directory: String },
}

/// The mathematical form of a `ScanEvent`.
pub enum EventView {
    Application { root: Seq<char>, primary_executable: Seq<char> },
    Container { directory: Seq<char> },
    Unrecognized { directory: Seq<char> },
}

impl View for ScanEvent {
    type V = EventView;

    open spec fn view(&self) -> EventView {
        match self {
            ScanEvent::Application { root, primary_executable } => EventView::Application {
                root: root@,
                primary_executable: primary_executable@,
            },
            ScanEvent::Container { directory } => EventView::Container { directory: directory@ },
            ScanEvent::Unrecognized { directory } => EventView::Unrecognized {
                directory: directory@,
            },
        }
    }
}

/// The state of a scan: the set of roots resolved so far and the events
/// reported and not yet taken.
///
/// A state starts consistent and every operation keeps it so: no two of
/// its roots overlap, and the root of every application it reports is
/// among its roots.
#[derive(Debug)]
pub struct ScanState {
    roots: Vec<String>,
    events: Vec<ScanEvent>,
}

/// The mathematical form of a `ScanState`.
pub struct StateView {
    pub roots: Seq<Seq<char>>,
    pub events: Seq<EventView>,
}

/// The views of a sequence of strings.
pub open spec fn text_views(s: Seq<String>) -> Seq<Seq<char>> {
    s.map_values(|x: String| x@)
}

/// The views of a sequence of events.
pub open spec fn event_views(s: Seq<ScanEvent>) -> Seq<EventView> {
    s.map_values(|e: ScanEvent| e@)
}

impl View for ScanState {
    type V = StateView;

    closed spec fn view(&self) -> StateView {
        StateView { roots: text_views(self.roots@), events: event_views(self.events@) }
    }
}

// ---------------------------------------------------------------------------
// The entry filter and the set of resolved roots
// ---------------------------------------------------------------------------

/// Names of directories that the system keeps; given in lower case.
pub open spec fn is_system_directory(n: Seq<char>) -> bool {
    ||| n == "$recycle.bin"@
    ||| n == "system volume information"@
    ||| n == "recovery"@
    ||| n == "config.msi"@
    ||| n == "msocache"@
}

/// Whether `path` is one of `roots` or lies below one.
pub open spec fn is_claimed(roots: Seq<Seq<char>>, path: Seq<char>) -> bool {
    exists|i: int| 0 <= i < roots.len() && is_within(path, #[trigger] roots[i])
}

/// Whether the entry filter keeps the walk out of the directory at
/// `path`: it is a system directory, an ignore rule matches it, or it is
/// a resolved root or lies below one.
pub open spec fn is_pruned(path: Seq<char>, rules: Seq<String>, roots: Seq<Seq<char>>) -> bool {
    ||| is_system_directory(lower_dir_name(path))
    ||| is_ignored(rules, path)
    ||| is_claimed(roots, path)
}

/// Whether `root` can join `roots`: none of them is `root`, lies below it
/// or above it.
pub open spec fn can_claim(roots: Seq<Seq<char>>, root: Seq<char>) -> bool {
    forall|i: int| 0 <= i < roots.len() ==> !overlaps(#[trigger] roots[i], root)
}

/// The state after an attempt to report an application: if its root can
/// be claimed, the root is added and the application reported; else the
/// state stays as it is.
pub open spec fn claim_application(st: StateView, root: Seq<char>, executable: Seq<char>) -> StateView {
    if can_claim(st.roots, root) {
        StateView {
            roots: st.roots.push(root),
            events: st.events.push(
                EventView::Application { root: root, primary_executable: executable },
            ),
        }
    } else {
        st
    }
}

// ---------------------------------------------------------------------------
// What a visit does
// ---------------------------------------------------------------------------

/// The applications of a single-file directory: one for each candidate
/// among the first `n` of its files, all with the directory as root.
pub open spec fn single_file_events(
    dir_path: Seq<char>,
    files: Seq<FileEntry>,
    rules: Seq<String>,
    n: int,
) -> Seq<EventView>
    decreases n,
{
    if n <= 0 || n > files.len() {
        Seq::empty()
    } else {
        let rest = single_file_events(dir_path, files, rules, n - 1);
        if is_candidate_file(dir_path, files[n - 1].name@, rules) {
            rest.push(
                EventView::Application {
                    root: dir_path,
                    primary_executable: join(dir_path, files[n - 1].name@),
                },
            )
        } else {
            rest
        }
    }
}

/// The state after the directory `d` was visited in state `st`, where
/// `ancestors` are the levels from the target down to the parent of `d`.
///
/// A category and a hybrid directory are reported as containers. A
/// single-file directory is claimed as a root and each of its candidates
/// reported; if it cannot be claimed nothing is reported. For a green
/// directory the primary executable is selected: if there is none the
/// directory is reported as unrecognized, else the application is reported
/// if its resolved root can be claimed.
pub open spec fn visit_spec(
    d: DirectoryNode,
    ancestors: Seq<LevelView>,
    settings: ScanSettings,
    st: StateView,
) -> StateView {
    match classification(d, settings.ignore@) {
        Classification::Category | Classification::Hybrid => StateView {
            roots: st.roots,
            events: st.events.push(EventView::Container { directory: d.path@ }),
        },
        Classification::Unclassifiable => st,
        Classification::SingleFile => if can_claim(st.roots, d.path@) {
            StateView {
                roots: st.roots.push(d.path@),
                events: st.events + single_file_events(
                    d.path@,
                    d.files@,
                    settings.ignore@,
                    d.files@.len() as int,
                ),
            }
        } else {
            st
        },
        Classification::Green => match best_of(d, ancestors, settings) {
            None => StateView {
                roots: st.roots,
                events: st.events.push(EventView::Unrecognized { directory: d.path@ }),
            },
            Some((root, executable)) => claim_application(st, root, executable),
        },
    }
}

/// The state after the walk went through the directory `d` and all below
/// it, starting in state `st`.
pub open spec fn walk_spec(
    d: DirectoryNode,
    ancestors: Seq<LevelView>,
    settings: ScanSettings,
    st: StateView,
) -> StateView
    decreases d, d.subdirs@.len() + 1,
{
    if is_pruned(d.path@, settings.ignore@, st.roots) {
        st
    } else {
        walk_children(
            d,
            ancestors.push(level_of(d)),
            settings,
            visit_spec(d, ancestors, settings, st),
            d.subdirs@.len() as int,
        )
    }
}

/// The state after the walk went through the first `n` subdirectories of
/// `d`, where `levels` are the levels from the target down to `d`.
pub open spec fn walk_children(
    d: DirectoryNode,
    levels: Seq<LevelView>,
    settings: ScanSettings,
    st: StateView,
    n: int,
) -> StateView
    decreases d, n,
{
    if n <= 0 || n > d.subdirs@.len() {
        st
    } else {
        walk_spec(d.subdirs@[n - 1], levels, settings, walk_children(d, levels, settings, st, n - 1))
    }
}

/// The state after the first `n` files directly under the target were
/// looked at: each candidate among them is an application of its own,
/// with its own path as root.
pub open spec fn loose_files_spec(
    target_path: Seq<char>,
    files: Seq<FileEntry>,
    rules: Seq<String>,
    n: int,
) -> StateView
    decreases n,
{
    if n <= 0 || n > files.len() {
        StateView { roots: Seq::empty(), events: Seq::empty() }
    } else {
        let st = loose_files_spec(target_path, files, rules, n - 1);
        if is_candidate_file(target_path, files[n - 1].name@, rules) {
            let p = join(target_path, files[n - 1].name@);
            claim_application(st, p, p)
        } else {
            st
        }
    }
}

/// The state at the end of a scan of `target`.
pub open spec fn scan_spec(target: DirectoryNode, settings: ScanSettings) -> StateView {
    walk_children(
        target,
        seq![level_of(target)],
        settings,
        loose_files_spec(target.path@, target.files@, settings.ignore@, target.files@.len() as int),
        target.subdirs@.len() as int,
    )
}

// ---------------------------------------------------------------------------
// The pruning invariant
// ---------------------------------------------------------------------------

/// Whether no two of `roots` overlap.
pub open spec fn roots_disjoint(roots: Seq<Seq<char>>) -> bool {
    forall|i: int, j: int| 0 <= i < j < roots.len() ==> !overlaps(roots[i], roots[j])
}

/// Whether the root of every reported application is among `roots`.
pub open spec fn events_rooted(st: StateView) -> bool {
    forall|k: int|
        0 <= k < st.events.len() && (#[trigger] st.events[k]) is Application
            ==> st.roots.contains(st.events[k]->root)
}

/// The invariant of a scan: no two resolved roots overlap, and every
/// reported application has a resolved root.
pub open spec fn is_consistent(st: StateView) -> bool {
    roots_disjoint(st.roots) && events_rooted(st)
}

/// Whether among the applications in `events` no root lies below another:
/// any two roots are the same path or do not overlap.
pub open spec fn roots_never_nest(events: Seq<EventView>) -> bool {
    forall|a: int, b: int|
        0 <= a < events.len() && 0 <= b < events.len() && (#[trigger] events[a]) is Application
            && (#[trigger] events[b]) is Application ==> events[a]->root == events[b]->root
            || !overlaps(events[a]->root, events[b]->root)
}

/// In a consistent state no reported root lies below another.
pub proof fn lemma_consistent_never_nests(st: StateView)
    requires
        is_consistent(st),
    ensures
        roots_never_nest(st.events),
{
    assert forall|a: int, b: int|
        0 <= a < st.events.len() && 0 <= b < st.events.len() && (#[trigger] st.events[a])
            is Application && (#[trigger] st.events[b]) is Application implies st.events[a]->root
        == st.events[b]->root || !overlaps(st.events[a]->root, st.events[b]->root) by {
        let ra = st.events[a]->root;
        let rb = st.events[b]->root;
        assert(st.roots.contains(ra));
        assert(st.roots.contains(rb));
        let i = choose|i: int| 0 <= i < st.roots.len() && st.roots[i] == ra;
        let j = choose|j: int| 0 <= j < st.roots.len() && st.roots[j] == rb;
        if i < j {
            assert(!overlaps(st.roots[i], st.roots[j]));
        } else if j < i {
            assert(!overlaps(st.roots[j], st.roots[i]));
        }
    }
}

/// Claiming a root keeps the state consistent.
pub proof fn lemma_claim_consistent(st: StateView, root: Seq<char>, executable: Seq<char>)
    requires
        is_consistent(st),
    ensures
        is_consistent(claim_application(st, root, executable)),
{
    if can_claim(st.roots, root) {
        let r = claim_application(st, root, executable);
        assert forall|k: int|
            0 <= k < r.events.len() && (#[trigger] r.events[k]) is Application implies r.roots.contains(
            r.events[k]->root,
        ) by {
            if k < st.events.len() {
                assert(r.events[k] == st.events[k]);
                let x = st.events[k]->root;
                assert(st.roots.contains(x));
                let i = choose|i: int| 0 <= i < st.roots.len() && st.roots[i] == x;
                assert(r.roots[i] == x);
            } else {
                assert(r.roots[st.roots.len() as int] == root);
            }
        }
    }
}

/// Every event of a single-file directory is an application with the
/// directory as root.
pub proof fn lemma_single_file_events(
    dir_path: Seq<char>,
    files: Seq<FileEntry>,
    rules: Seq<String>,
    n: int,
)
    ensures
        forall|k: int|
            0 <= k < single_file_events(dir_path, files, rules, n).len() ==> (
            #[trigger] single_file_events(dir_path, files, rules, n)[k]) is Application
                && single_file_events(dir_path, files, rules, n)[k]->root == dir_path,
    decreases n,
{
    if n <= 0 || n > files.len() {
    } else {
        lemma_single_file_events(dir_path, files, rules, n - 1);
    }
}

/// A visit keeps the state consistent.
pub proof fn lemma_visit_consistent(
    d: DirectoryNode,
    ancestors: Seq<LevelView>,
    settings: ScanSettings,
    st: StateView,
)
    requires
        is_consistent(st),
    ensures
        is_consistent(visit_spec(d, ancestors, settings, st)),
{
    let r = visit_spec(d, ancestors, settings, st);
    match classification(d, settings.ignore@) {
        Classification::Category | Classification::Hybrid => {
            assert forall|k: int|
                0 <= k < r.events.len() && (#[trigger] r.events[k]) is Application implies r.roots.contains(
                r.events[k]->root,
            ) by {
                assert(r.events[k] == st.events[k]);
            }
        },
        Classification::Unclassifiable => {},
        Classification::SingleFile => {
            if can_claim(st.roots, d.path@) {
                let added = single_file_events(
                    d.path@,
                    d.files@,
                    settings.ignore@,
                    d.files@.len() as int,
                );
                lemma_single_file_events(
                    d.path@,
                    d.files@,
                    settings.ignore@,
                    d.files@.len() as int,
                );
                assert(r.roots[st.roots.len() as int] == d.path@);
                assert forall|k: int|
                    0 <= k < r.events.len() && (#[trigger] r.events[k])
                        is Application implies r.roots.contains(r.events[k]->root) by {
                    if k < st.events.len() {
                        assert(r.events[k] == st.events[k]);
                        let x = st.events[k]->root;
                        assert(st.roots.contains(x));
                        let i = choose|i: int| 0 <= i < st.roots.len() && st.roots[i] == x;
                        assert(r.roots[i] == x);
                    } else {
                        assert(r.events[k] == added[k - st.events.len()]);
                    }
                }
            }
        },
        Classification::Green => {
            match best_of(d, ancestors, settings) {
                None => {
                    assert forall|k: int|
                        0 <= k < r.events.len() && (#[trigger] r.events[k])
                            is Application implies r.roots.contains(r.events[k]->root) by {
                        assert(r.events[k] == st.events[k]);
                    }
                },
                Some((root, executable)) => {
                    lemma_claim_consistent(st, root, executable);
                },
            }
        },
    }
}

/// Whether `before` is what `after` starts with: roots are added at the
/// end and never taken away.
pub open spec fn roots_kept(before: Seq<Seq<char>>, after: Seq<Seq<char>>) -> bool {
    before.len() <= after.len() && after.take(before.len() as int) == before
}

/// A visit only adds roots.
pub proof fn lemma_visit_keeps_roots(
    d: DirectoryNode,
    ancestors: Seq<LevelView>,
    settings: ScanSettings,
    st: StateView,
)
    ensures
        roots_kept(st.roots, visit_spec(d, ancestors, settings, st).roots),
{
    let r = visit_spec(d, ancestors, settings, st);
    assert(r.roots.take(st.roots.len() as int) =~= st.roots);
}

/// A walk keeps the state consistent.
pub proof fn lemma_walk_consistent(
    d: DirectoryNode,
    ancestors: Seq<LevelView>,
    settings: ScanSettings,
    st: StateView,
)
    requires
        is_consistent(st),
    ensures
        is_consistent(walk_spec(d, ancestors, settings, st)),
    decreases d, d.subdirs@.len() + 1,
{
    if !is_pruned(d.path@, settings.ignore@, st.roots) {
        lemma_visit_consistent(d, ancestors, settings, st);
        lemma_children_consistent(
            d,
            ancestors.push(level_of(d)),
            settings,
            visit_spec(d, ancestors, settings, st),
            d.subdirs@.len() as int,
        );
    }
}

/// A walk through subdirectories keeps the state consistent.
pub proof fn lemma_children_consistent(
    d: DirectoryNode,
    levels: Seq<LevelView>,
    settings: ScanSettings,
    st: StateView,
    n: int,
)
    requires
        is_consistent(st),
    ensures
        is_consistent(walk_children(d, levels, settings, st, n)),
    decreases d, n,
{
    if n <= 0 || n > d.subdirs@.len() {
    } else {
        lemma_children_consistent(d, levels, settings, st, n - 1);
        lemma_walk_consistent(
            d.subdirs@[n - 1],
            levels,
            settings,
            walk_children(d, levels, settings, st, n - 1),
        );
    }
}

/// Looking at the files directly under the target leaves a consistent
/// state.
pub proof fn lemma_loose_files_consistent(
    target_path: Seq<char>,
    files: Seq<FileEntry>,
    rules: Seq<String>,
    n: int,
)
    ensures
        is_consistent(loose_files_spec(target_path, files, rules, n)),
    decreases n,
{
    if n <= 0 || n > files.len() {
    } else {
        lemma_loose_files_consistent(target_path, files, rules, n - 1);
        let st = loose_files_spec(target_path, files, rules, n - 1);
        let p = join(target_path, files[n - 1].name@);
        lemma_claim_consistent(st, p, p);
    }
}

/// After a full scan no two reported roots are in an ancestor and
/// descendant relationship: among the roots of the applications reported
/// for any target under any settings, two are the same path or neither
/// lies within the other.
pub proof fn lemma_scan_roots_never_nest(target: DirectoryNode, settings: ScanSettings)
    ensures
        is_consistent(scan_spec(target, settings)),
        roots_never_nest(scan_spec(target, settings).events),
{
    lemma_loose_files_consistent(
        target.path@,
        target.files@,
        settings.ignore@,
        target.files@.len() as int,
    );
    lemma_children_consistent(
        target,
        seq![level_of(target)],
        settings,
        loose_files_spec(target.path@, target.files@, settings.ignore@, target.files@.len() as int),
        target.subdirs@.len() as int,
    );
    lemma_consistent_never_nests(scan_spec(target, settings));
}

// ---------------------------------------------------------------------------
// The scan
// ---------------------------------------------------------------------------

/// Whether `n`, in lower case, is the name of a directory that the
/// system keeps.
pub fn system_directory(n: &[char]) -> (r: bool)
    ensures
        r == is_system_directory(n@),
{
    equals_text(n, "$recycle.bin") || equals_text(n, "system volume information") || equals_text(
        n,
        "recovery",
    ) || equals_text(n, "config.msi") || equals_text(n, "msocache")
}

impl ScanState {
    /// The state at the start of a scan: nothing resolved, nothing
    /// reported.
    pub fn new() -> (s: ScanState)
        ensures
            s@.roots.len() == 0,
            s@.events.len() == 0,
            is_consistent(s@),
    {
        let s = ScanState { roots: Vec::new(), events: Vec::new() };
        assert(s@.roots =~= Seq::<Seq<char>>::empty());
        assert(s@.events =~= Seq::<EventView>::empty());
        s
    }

    /// The roots resolved so far.
    pub fn roots(&self) -> (r: &Vec<String>)
        ensures
            text_views(r@) == self@.roots,
    {
        &self.roots
    }

    /// The events reported and not yet taken. In a consistent state no
    /// root of an application among them lies below another.
    pub fn events(&self) -> (r: &Vec<ScanEvent>)
        ensures
            event_views(r@) == self@.events,
            is_consistent(self@) ==> roots_never_nest(self@.events),
    {
        proof {
            if is_consistent(self@) {
                lemma_consistent_never_nests(self@);
            }
        }
        &self.events
    }

    /// Takes the events out of the state; the roots stay. The roots of the
    /// applications among the events of a consistent state are roots of
    /// the state.
    pub fn take_events(&mut self) -> (r: Vec<ScanEvent>)
        ensures
            event_views(r@) == old(self)@.events,
            final(self)@.roots == old(self)@.roots,
            final(self)@.events.len() == 0,
            is_consistent(old(self)@) ==> is_consistent(final(self)@) && roots_never_nest(
                event_views(r@),
            ) && events_rooted(
                (StateView { roots: final(self)@.roots, events: event_views(r@) }),
            ),
    {
        proof {
            if is_consistent(self@) {
                lemma_consistent_never_nests(self@);
            }
        }
        let mut out: Vec<ScanEvent> = Vec::new();
        proof {
            assert(event_views(out@) =~= Seq::<EventView>::empty());
        }
        std::mem::swap(&mut self.events, &mut out);
        out
    }

    /// Whether `path` is a resolved root or lies below one.
    pub fn claims(&self, path: &str) -> (r: bool)
        ensures
            r == is_claimed(self@.roots, path@),
    {
        let p = chars_of(path);
        let mut i: usize = 0;
        while i < self.roots.len()
            invariant
                i <= self.roots.len(),
                p@ == path@,
                forall|k: int| 0 <= k < i ==> !is_within(path@, #[trigger] self@.roots[k]),
            decreases self.roots.len() - i,
        {
            let root = chars_of(self.roots[i].as_str());
            assert(self@.roots[i as int] == self.roots@[i as int]@);
            if lies_within(p.as_slice(), root.as_slice()) {
                return true;
            }
            i += 1;
        }
        false
    }

    /// Whether `root` can join the resolved roots.
    pub fn can_claim(&self, root: &str) -> (r: bool)
        ensures
            r == can_claim(self@.roots, root@),
    {
        let p = chars_of(root);
        let mut i: usize = 0;
        while i < self.roots.len()
            invariant
                i <= self.roots.len(),
                p@ == root@,
                forall|k: int| 0 <= k < i ==> !overlaps(#[trigger] self@.roots[k], root@),
            decreases self.roots.len() - i,
        {
            let other = chars_of(self.roots[i].as_str());
            assert(self@.roots[i as int] == self.roots@[i as int]@);
            if do_overlap(other.as_slice(), p.as_slice()) {
                return false;
            }
            i += 1;
        }
        true
    }

    /// Whether the entry filter keeps the walk out of the directory at
    /// `path`.
    pub fn prunes(&self, path: &str, settings: &ScanSettings) -> (r: bool)
        ensures
            r == is_pruned(path@, settings.ignore@, self@.roots),
    {
        let n = lower_dir_name_of(path);
        system_directory(n.as_slice()) || ignored(settings.ignore.as_slice(), path)
            || self.claims(path)
    }

    /// Adds an event.
    fn note(&mut self, e: ScanEvent)
        ensures
            final(self)@.roots == old(self)@.roots,
            final(self)@.events == old(self)@.events.push(e@),
    {
        let ghost st = self@;
        self.events.push(e);
        assert(self@.events =~= st.events.push(e@));
    }

    /// Adds an application.
    fn report(&mut self, root: String, primary_executable: String)
        ensures
            final(self)@.roots == old(self)@.roots,
            final(self)@.events == old(self)@.events.push(
                EventView::Application { root: root@, primary_executable: primary_executable@ },
            ),
    {
        let e = ScanEvent::Application { root, primary_executable };
        let ghost st = self@;
        self.events.push(e);
        assert(self@.events =~= st.events.push(e@));
    }

    /// Adds a root.
    fn add_root(&mut self, root: String)
        ensures
            final(self)@.roots == old(self)@.roots.push(root@),
            final(self)@.events == old(self)@.events,
    {
        let ghost st = self@;
        let ghost added = root@;
        self.roots.push(root);
        assert(self@.roots =~= st.roots.push(added));
    }

    /// Reports an application if its root can be claimed. Returns whether
    /// it was reported.
    pub fn claim(&mut self, root: String, executable: String) -> (claimed: bool)
        ensures
            final(self)@ == claim_application(old(self)@, root@, executable@),
            claimed == can_claim(old(self)@.roots, root@),
            is_consistent(old(self)@) ==> is_consistent(final(self)@),
    {
        proof {
            if is_consistent(self@) {
                lemma_claim_consistent(self@, root@, executable@);
            }
        }
        if self.can_claim(root.as_str()) {
            let copy = root.clone();
            self.add_root(copy);
            self.report(root, executable);
            true
        } else {
            false
        }
    }

    /// Visits the directory `d`. A consistent state stays consistent, and
    /// roots are only added.
    pub fn visit(&mut self, d: &DirectoryNode, ancestors: &[Level], settings: &ScanSettings)
        ensures
            final(self)@ == visit_spec(*d, level_views(ancestors@), *settings, old(self)@),
            is_consistent(old(self)@) ==> is_consistent(final(self)@),
            roots_kept(old(self)@.roots, final(self)@.roots),
    {
        proof {
            lemma_visit_keeps_roots(*d, level_views(ancestors@), *settings, self@);
            if is_consistent(self@) {
                lemma_visit_consistent(*d, level_views(ancestors@), *settings, self@);
            }
        }
        match d.classify(settings.ignore.as_slice()) {
            Classification::Category => {
                self.note(ScanEvent::Container { directory: d.path.clone() });
            },
            Classification::Hybrid => {
                self.note(ScanEvent::Container { directory: d.path.clone() });
            },
            Classification::Unclassifiable => {},
            Classification::SingleFile => {
                if self.can_claim(d.path.as_str()) {
                    self.add_root(d.path.clone());
                    let ghost before = self@.events;
                    let mut i: usize = 0;
                    while i < d.files.len()
                        invariant
                            i <= d.files.len(),
                            self@.roots == old(self)@.roots.push(d.path@),
                            self@.events == before + single_file_events(
                                d.path@,
                                d.files@,
                                settings.ignore@,
                                i as int,
                            ),
                        decreases d.files.len() - i,
                    {
                        let name = d.files[i].name.as_str();
                        if candidate_file(d.path.as_str(), name, settings.ignore.as_slice()) {
                            let p = file_path(d.path.as_str(), name);
                            self.report(d.path.clone(), p);
                        }
                        i += 1;
                        assert(self@.events =~= before + single_file_events(
                            d.path@,
                            d.files@,
                            settings.ignore@,
                            i as int,
                        ));
                    }
                }
            },
            Classification::Green => {
                match find_software_best_exe(d, ancestors, settings) {
                    None => {
                        self.note(ScanEvent::Unrecognized { directory: d.path.clone() });
                    },
                    Some(s) => {
                        self.claim(s.root, s.executable);
                    },
                }
            },
        }
    }

    /// Walks through the directory `d` and all below it. `ancestors` are
    /// the levels from the target down to the parent of `d`; they are the
    /// same after the walk.
    pub fn walk(&mut self, d: &DirectoryNode, ancestors: &mut Vec<Level>, settings: &ScanSettings)
        ensures
            final(self)@ == walk_spec(*d, level_views(old(ancestors)@), *settings, old(self)@),
            level_views(final(ancestors)@) == level_views(old(ancestors)@),
            is_consistent(old(self)@) ==> is_consistent(final(self)@),
        decreases d,
    {
        proof {
            if is_consistent(self@) {
                lemma_walk_consistent(*d, level_views(ancestors@), *settings, self@);
            }
        }
        if self.prunes(d.path.as_str(), settings) {
            return ;
        }
        self.visit(d, ancestors.as_slice(), settings);
        let ghost above = level_views(ancestors@);
        ancestors.push(d.level());
        assert(level_views(ancestors@) =~= above.push(level_of(*d)));
        let ghost visited = self@;
        let mut i: usize = 0;
        while i < d.subdirs.len()
            invariant
                i <= d.subdirs.len(),
                level_views(ancestors@) == above.push(level_of(*d)),
                self@ == walk_children(
                    *d,
                    above.push(level_of(*d)),
                    *settings,
                    visited,
                    i as int,
                ),
            decreases d.subdirs.len() - i,
        {
            self.walk(&d.subdirs[i], ancestors, settings);
            i += 1;
        }
        let ghost full = ancestors@;
        assert(level_views(full).len() == above.len() + 1);
        ancestors.pop();
        assert(ancestors@ == full.drop_last());
        assert forall|j: int| 0 <= j < above.len() implies level_views(ancestors@)[j]
            == above[j] by {
            assert(level_views(full)[j] == above.push(level_of(*d))[j]);
        }
        assert(level_views(ancestors@) =~= above);
    }
}

/// Scans the snapshot `target`: reports the executables directly under it
/// as applications of their own, then walks through its subdirectories.
/// The target itself is not classified.
pub fn scan(target: &DirectoryNode, settings: &ScanSettings) -> (events: Vec<ScanEvent>)
    ensures
        event_views(events@) == scan_spec(*target, *settings).events,
        roots_never_nest(event_views(events@)),
{
    let mut state = ScanState::new();
    let mut i: usize = 0;
    assert(state@ == loose_files_spec(target.path@, target.files@, settings.ignore@, 0)) by {
        assert(state@.roots =~= Seq::<Seq<char>>::empty());
        assert(state@.events =~= Seq::<EventView>::empty());
    }
    while i < target.files.len()
        invariant
            i <= target.files.len(),
            state@ == loose_files_spec(target.path@, target.files@, settings.ignore@, i as int),
        decreases target.files.len() - i,
    {
        let name = target.files[i].name.as_str();
        if candidate_file(target.path.as_str(), name, settings.ignore.as_slice()) {
            let p = file_path(target.path.as_str(), name);
            let q = p.clone();
            state.claim(p, q);
        }
        i += 1;
    }
    let mut levels: Vec<Level> = Vec::new();
    levels.push(target.level());
    assert(level_views(levels@) =~= seq![level_of(*target)]);
    let ghost start = state@;
    let mut k: usize = 0;
    while k < target.subdirs.len()
        invariant
            k <= target.subdirs.len(),
            level_views(levels@) == seq![level_of(*target)],
            state@ == walk_children(*target, seq![level_of(*target)], *settings, start, k as int),
        decreases target.subdirs.len() - k,
    {
        state.walk(&target.subdirs[k], &mut levels, settings);
        k += 1;
    }
    proof {
        lemma_scan_roots_never_nest(*target, *settings);
    }
    state.take_events()
}

} // verus!
