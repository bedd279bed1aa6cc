//! The decisions of the daemon: what to check, what to publish, when to give up.

use vstd::prelude::*;
use crate::accumulator::{
    add_diagnostic, added, filed, grouped, is_snapshot, law_grouped_is_filed, law_removed_file_leaves_the_snapshot,
    law_snapshot_holds_every_diagnostic, mentions, of_file, Accumulator,
};
use crate::cache::{after_looks, are_outcomes, changed_files, differing, CacheOutcome, FileCache, FileStamp};
use crate::hooks::{all_placed, findings, full_path, placed, Diagnostic, DiagnosticView, Span};
use crate::orchestrator::RunResult;
use crate::pathmap::{key_set, PathKey, PathMap};
use crate::paths::{
    components, contains_path, holds_path, is_absolute, lemma_empty_path, path_texts, root, FilePath,
};
use crate::scan::{excluded, is_excluded, is_source_file, source};
use crate::state::{
    after_state, all_diagnostics, copy_infos, infos, lemma_reported_by_one, publish, publishes, same_tools, seed_check_passes,
    seed_state_version, tools_changed, Counters, State, ToolInfo,
};
use crate::text::texts;
use crate::watcher::FileEvent;

verus! {

/// Failed writes in a row after which the daemon gives up. Going on would leave
/// an old state looking fresh.
pub const MAX_CONSECUTIVE_WRITE_ERRORS: u32 = 3;

// ---------------------------------------------------------------------------
// Batches of events
// ---------------------------------------------------------------------------

/// What resolving a path to its canonical form gave.
#[derive(Debug)]
pub enum Canonical {
    /// The canonical path.
    Resolved(FilePath),
    /// There is no such file.
    Missing,
    /// The path could not be resolved for another reason.
    Failed,
}

/// The events of one window.
#[derive(Debug)]
pub struct Batch {
    /// Paths that changed, each once.
    pub paths: Vec<FilePath>,
    /// Paths that are gone, each once.
    pub removed: Vec<FilePath>,
    /// Whether events were lost.
    pub rescan: bool,
}

/// Milliseconds for which a window stays open after its first event.
pub const DEBOUNCE_WINDOW_MS: u32 = 50;

/// How much longer a window stays open that was opened `elapsed` ago. A window
/// that is over is closed.
pub fn window_left(elapsed: Span) -> (r: Option<Span>)
    ensures
        r == if elapsed.secs == 0 && elapsed.nanos < DEBOUNCE_WINDOW_MS * 1_000_000 {
            Some(Span {
                secs: 0,
                nanos: (DEBOUNCE_WINDOW_MS * 1_000_000 - elapsed.nanos) as u32,
            })
        } else {
            None
        },
{
    if elapsed.secs == 0 && elapsed.nanos < DEBOUNCE_WINDOW_MS * 1_000_000 {
        Some(Span { secs: 0, nanos: DEBOUNCE_WINDOW_MS * 1_000_000 - elapsed.nanos })
    } else {
        None
    }
}

/// `v` with `p` at its end, unless it holds that path already.
pub open spec fn with_path(v: Seq<FilePath>, p: FilePath) -> Seq<FilePath> {
    if holds_path(v, components(p@)) {
        v
    } else {
        v.push(p)
    }
}

/// The test for paths that `v` does not hold.
pub open spec fn not_in(v: Seq<FilePath>) -> spec_fn(FilePath) -> bool {
    |p: FilePath| !holds_path(v, components(p@))
}

/// The path under which a change is taken in. A file that is gone by now is not.
pub open spec fn changed_path(path: FilePath, canonical: Canonical) -> Option<FilePath> {
    match canonical {
        Canonical::Resolved(c) => Some(c),
        Canonical::Missing => None,
        Canonical::Failed => Some(path),
    }
}

/// The path under which a removal is taken in.
pub open spec fn removed_path(path: FilePath, canonical: Canonical) -> FilePath {
    match canonical {
        Canonical::Resolved(c) => c,
        _ => path,
    }
}

/// Adds a path unless it is there.
fn add_path(v: &mut Vec<FilePath>, p: FilePath)
    ensures
        final(v)@ == with_path(old(v)@, p),
{
    if !contains_path(&*v, &p) {
        v.push(p);
    }
}

impl Batch {
    /// A window without events.
    pub fn new() -> (r: Batch)
        ensures
            r.paths@.len() == 0,
            r.removed@.len() == 0,
            !r.rescan,
    {
        Batch { paths: Vec::new(), removed: Vec::new(), rescan: false }
    }

    /// Takes in an event, given the canonical form of its path. Without that form
    /// one file could be known under two names.
    pub fn intake(&mut self, event: FileEvent, canonical: Canonical)
        ensures
            match event {
                FileEvent::Rescan => *final(self) == (Batch { rescan: true, ..*old(self) }),
                FileEvent::Changed { path, .. } => {
                    &&& final(self).removed == old(self).removed
                    &&& final(self).rescan == old(self).rescan
                    &&& final(self).paths@ == match changed_path(path, canonical) {
                        Some(p) => with_path(old(self).paths@, p),
                        None => old(self).paths@,
                    }
                },
                FileEvent::Removed { path } => {
                    &&& final(self).paths == old(self).paths
                    &&& final(self).rescan == old(self).rescan
                    &&& final(self).removed@ == with_path(
                        old(self).removed@,
                        removed_path(path, canonical),
                    )
                },
            },
    {
        match event {
            FileEvent::Rescan => {
                self.rescan = true;
            },
            FileEvent::Changed { path, kind: _ } => match canonical {
                Canonical::Resolved(c) => add_path(&mut self.paths, c),
                Canonical::Missing => {},
                Canonical::Failed => add_path(&mut self.paths, path),
            },
            FileEvent::Removed { path } => match canonical {
                Canonical::Resolved(c) => add_path(&mut self.removed, c),
                _ => add_path(&mut self.removed, path),
            },
        }
    }

    /// Closes the window: a path that changed and is gone counts as gone.
    pub fn close(&mut self)
        ensures
            final(self).paths@ == old(self).paths@.filter(not_in(old(self).removed@)),
            final(self).removed == old(self).removed,
            final(self).rescan == old(self).rescan,
    {
        let ghost all = self.paths@;
        let ghost test = not_in(self.removed@);
        let mut kept: Vec<FilePath> = Vec::new();
        let mut i: usize = 0;
        assert(all.take(0).filter(test) =~= Seq::empty()) by {
            crate::sorting::lemma_filter_none(all.take(0), test);
        }
        while i < self.paths.len()
            invariant
                i <= self.paths@.len(),
                self.paths@ == all,
                self.removed == old(self).removed,
                self.rescan == old(self).rescan,
                test == not_in(self.removed@),
                kept@ == all.take(i as int).filter(test),
            decreases self.paths@.len() - i,
        {
            proof {
                assert(all.take(i + 1) =~= all.take(i as int).push(all[i as int]));
                all.take(i as int).lemma_filter_push(all[i as int], test);
            }
            if !contains_path(&self.removed, &self.paths[i]) {
                kept.push(self.paths[i].clone());
            }
            i += 1;
        }
        assert(all.take(i as int) =~= all);
        self.paths = kept;
    }
}

// ---------------------------------------------------------------------------
// Results by file
// ---------------------------------------------------------------------------

/// Diagnostics by file: the files that were checked, clean or not, and the files
/// that a tool mentioned.
pub open spec fn row_by_file(all: Seq<Diagnostic>, checked: Seq<FilePath>) -> Map<
    PathKey,
    Seq<Diagnostic>,
> {
    Map::new(
        |c: PathKey| holds_path(checked, c) || mentions(all, c),
        |c: PathKey| of_file(all, c),
    )
}

/// The results of a pass by file.
pub open spec fn by_file(results: Seq<RunResult>, checked: Seq<FilePath>) -> Map<
    PathKey,
    Seq<Diagnostic>,
> {
    row_by_file(all_diagnostics(results), checked)
}

/// One more diagnostic joins those of its file.
proof fn lemma_row_push(all: Seq<Diagnostic>, checked: Seq<FilePath>, d: Diagnostic)
    ensures
        row_by_file(all.push(d), checked) == added(row_by_file(all, checked), d),
{
    let c = components(d.file@);
    let w = all.push(d);
    let left = row_by_file(w, checked);
    let right = added(row_by_file(all, checked), d);
    assert forall|q: PathKey| #[trigger] left.contains_key(q) == right.contains_key(q) by {
        if mentions(w, q) {
            let i = choose|i: int| 0 <= i < w.len() && components((#[trigger] w[i]).file@) == q;
            if i < all.len() {
                assert(components(all[i].file@) == q);
            }
        }
        if mentions(all, q) {
            let i = choose|i: int|
                0 <= i < all.len() && components((#[trigger] all[i]).file@) == q;
            assert(components(w[i].file@) == q);
        }
        if q == c {
            assert(components(w[all.len() as int].file@) == q);
        }
    }
    assert forall|q: PathKey| #[trigger] left.contains_key(q) implies left[q] == right[q] by {
        let p = |x: Diagnostic| components(x.file@) == q;
        all.lemma_filter_push(d, p);
        if q == c && !row_by_file(all, checked).contains_key(q) {
            assert forall|i: int| 0 <= i < all.len() implies !p(#[trigger] all[i]) by {}
            crate::sorting::lemma_filter_none(all, p);
        }
    }
    assert(left =~= right);
}

/// Groups results by the file that each diagnostic is about. Checked files
/// without diagnostics are in the result too: they are clean.
pub fn group_results_by_file(results: &Vec<RunResult>, checked_files: &Vec<FilePath>) -> (r: PathMap<
    Vec<Diagnostic>,
>)
    ensures
        r.wf(),
        r@ == by_file(results@, checked_files@),
{
    let mut files: PathMap<Vec<Diagnostic>> = PathMap::new();
    let ghost none = Seq::<Diagnostic>::empty();
    let mut i: usize = 0;
    assert(files@ =~= row_by_file(none, checked_files@.take(0)));
    while i < checked_files.len()
        invariant
            i <= checked_files@.len(),
            files.wf(),
            none == Seq::<Diagnostic>::empty(),
            files@ == row_by_file(none, checked_files@.take(i as int)),
        decreases checked_files@.len() - i,
    {
        let clean: Vec<Diagnostic> = Vec::new();
        let ghost part = checked_files@.take(i as int);
        let ghost more = checked_files@.take(i + 1);
        let ghost c = components(checked_files@[i as int]@);
        files.put(checked_files[i].clone(), clean);
        proof {
            let left = row_by_file(none, more);
            let right = row_by_file(none, part).insert(c, none);
            assert forall|q: PathKey| #[trigger] left.contains_key(q) == right.contains_key(q) by {
                if holds_path(more, q) {
                    let j = choose|j: int|
                        0 <= j < more.len() && components(#[trigger] more[j]@) == q;
                    if j < part.len() {
                        assert(components(part[j]@) == q);
                    }
                }
                if holds_path(part, q) {
                    let j = choose|j: int|
                        0 <= j < part.len() && components(#[trigger] part[j]@) == q;
                    assert(components(more[j]@) == q);
                }
                if q == c {
                    assert(components(more[i as int]@) == q);
                }
            }
            assert forall|q: PathKey| #[trigger] left.contains_key(q) implies left[q]
                == right[q] by {
                crate::sorting::lemma_filter_none(
                    none,
                    |x: Diagnostic| components(x.file@) == q,
                );
            }
            assert(left =~= right);
            assert(clean@ =~= none);
        }
        i += 1;
    }
    assert(checked_files@.take(i as int) =~= checked_files@);
    let mut k: usize = 0;
    assert(all_diagnostics(results@.take(0)) =~= none);
    while k < results.len()
        invariant
            k <= results@.len(),
            files.wf(),
            files@ == row_by_file(all_diagnostics(results@.take(k as int)), checked_files@),
        decreases results@.len() - k,
    {
        let list = &results[k].diagnostics;
        let ghost base = all_diagnostics(results@.take(k as int));
        let mut n: usize = 0;
        assert(base + list@.take(0) =~= base);
        while n < list.len()
            invariant
                n <= list@.len(),
                files.wf(),
                files@ == row_by_file(base + list@.take(n as int), checked_files@),
            decreases list@.len() - n,
        {
            proof {
                lemma_row_push(base + list@.take(n as int), checked_files@, list@[n as int]);
                assert(base + list@.take(n + 1) =~= (base + list@.take(n as int)).push(
                    list@[n as int],
                ));
            }
            add_diagnostic(&mut files, list[n].clone());
            n += 1;
        }
        assert(list@.take(n as int) =~= list@);
        assert(results@.take(k + 1).drop_last() =~= results@.take(k as int));
        k += 1;
    }
    assert(results@.take(k as int) =~= results@);
    files
}

/// Results by file stand under their own files.
proof fn lemma_by_file_is_filed(results: Seq<RunResult>, checked: Seq<FilePath>)
    ensures
        filed(by_file(results, checked)),
{
    let m = by_file(results, checked);
    let all = all_diagnostics(results);
    assert forall|c: PathKey, i: int| m.contains_key(c) && 0 <= i < m[c].len() implies components(
        (#[trigger] m[c][i]).file@,
    ) == c by {
        all.lemma_filter_pred(|d: Diagnostic| components(d.file@) == c, i);
    }
}

/// A map from which files were taken is filed as before.
proof fn lemma_filed_restrict(m: Map<PathKey, Seq<Diagnostic>>, s: Set<PathKey>)
    requires
        filed(m),
    ensures
        filed(m.restrict(s)),
{
    let n = m.restrict(s);
    assert forall|c: PathKey, i: int| n.contains_key(c) && 0 <= i < n[c].len() implies components(
        (#[trigger] n[c][i]).file@,
    ) == c by {
        assert(m[c][i] == n[c][i]);
    }
}

/// Two filed maps make a filed map.
proof fn lemma_filed_union(a: Map<PathKey, Seq<Diagnostic>>, b: Map<PathKey, Seq<Diagnostic>>)
    requires
        filed(a),
        filed(b),
    ensures
        filed(a.union_prefer_right(b)),
{
    let n = a.union_prefer_right(b);
    assert forall|c: PathKey, i: int| n.contains_key(c) && 0 <= i < n[c].len() implies components(
        (#[trigger] n[c][i]).file@,
    ) == c by {
        if b.contains_key(c) {
            assert(b[c][i] == n[c][i]);
        } else {
            assert(a[c][i] == n[c][i]);
        }
    }
}

// ---------------------------------------------------------------------------
// The daemon
// ---------------------------------------------------------------------------

/// The state of the daemon between events.
#[derive(Debug)]
pub struct Daemon {
    pub root: FilePath,
    pub excludes: Vec<String>,
    pub clippy: bool,
    pub tools: Vec<ToolInfo>,
    /// Whether the tools have changed since the last published state.
    pub stale: bool,
    /// Whether an earlier run has left a state.
    pub resumed: bool,
    pub accumulator: Accumulator,
    pub cache: FileCache,
    pub counters: Counters,
    pub write_errors: u32,
}

/// What the daemon does next.
#[derive(Debug)]
pub enum Task {
    /// Nothing.
    Rest,
    /// Publish the view as it is.
    Publish,
    /// Check files, then publish.
    Check(CheckPass),
}

/// A pass of the tools.
#[derive(Debug)]
pub struct CheckPass {
    /// The files to check.
    pub files: Vec<FilePath>,
    /// After a new scan of the project: all files that are there.
    pub rescanned: Option<Vec<FilePath>>,
}

/// Which files to look at for a closed batch.
#[derive(Debug)]
pub enum Examine {
    /// All of the project, as at the start: events were lost.
    WholeProject,
    /// These.
    Files(Vec<FilePath>),
}

/// The files that are there after a new scan.
pub open spec fn scanned(pass: CheckPass) -> Option<Seq<FilePath>> {
    match pass.rescanned {
        Some(files) => Some(files@),
        None => None,
    }
}

/// Whether the daemon goes on.
#[derive(Debug, Clone, Copy, PartialEq, Eq, Structural)]
pub enum WriteStep {
    Continue,
    Abort,
}

/// The test for paths that are checked: neither excluded nor of a foreign kind.
pub open spec fn is_checked(root: Seq<char>, excludes: Seq<Seq<char>>, clippy: bool) -> spec_fn(
    FilePath,
) -> bool {
    |p: FilePath| !excluded(p@, root, excludes) && source(p@, clippy)
}

/// The paths of examined files.
pub open spec fn examined(files: Seq<(FilePath, Option<FileStamp>)>) -> Seq<FilePath> {
    files.map_values(|f: (FilePath, Option<FileStamp>)| f.0)
}

/// The view without removed files.
pub open spec fn without_files(
    m: Map<PathKey, Seq<Diagnostic>>,
    removed: Seq<FilePath>,
) -> Map<PathKey, Seq<Diagnostic>> {
    m.restrict(key_set(removed).complement())
}

/// The view after a pass: what the tools said of some files replaces what was
/// known of them. After a new scan, files that are no longer there are dropped.
pub open spec fn after_pass(
    m: Map<PathKey, Seq<Diagnostic>>,
    results: Seq<RunResult>,
    checked: Seq<FilePath>,
    rescanned: Option<Seq<FilePath>>,
) -> Map<PathKey, Seq<Diagnostic>> {
    let merged = m.union_prefer_right(by_file(results, checked));
    match rescanned {
        Some(files) => merged.restrict(key_set(files)),
        None => merged,
    }
}

/// The failed writes in a row after another write.
pub open spec fn after_write(errors: u32, ok: bool) -> u32 {
    if ok {
        0
    } else {
        (errors + 1) as u32
    }
}

/// The paths of examined files, as a vector.
fn paths_of(files: &Vec<(FilePath, Option<FileStamp>)>) -> (r: Vec<FilePath>)
    ensures
        r@ == examined(files@),
{
    let mut out: Vec<FilePath> = Vec::new();
    let mut i: usize = 0;
    while i < files.len()
        invariant
            i <= files@.len(),
            out@ == examined(files@).take(i as int),
        decreases files@.len() - i,
    {
        out.push(files[i].0.clone());
        assert(examined(files@).take(i + 1) =~= examined(files@).take(i as int).push(
            files@[i as int].0,
        ));
        i += 1;
    }
    assert(examined(files@).take(i as int) =~= examined(files@));
    out
}

impl Daemon {
    /// Whether the parts of the daemon fit together.
    pub open spec fn wf(&self) -> bool {
        &&& self.accumulator.wf()
        &&& filed(self.accumulator@)
        &&& self.cache.wf()
        &&& self.write_errors < MAX_CONSECUTIVE_WRITE_ERRORS
    }

    /// Sets up the daemon. From the last state of an earlier run it takes over the
    /// diagnostics and goes on with the counts; if the tools have changed since,
    /// the next state says so.
    pub fn resume(
        root: FilePath,
        excludes: Vec<String>,
        clippy: bool,
        tools: Vec<ToolInfo>,
        prev: &Option<State>,
    ) -> (r: Daemon)
        requires
            prev matches Some(p) ==> p.state_version < u64::MAX,
        ensures
            r.wf(),
            r.root == root,
            r.excludes == excludes,
            r.clippy == clippy,
            r.tools == tools,
            r.resumed == (prev is Some),
            r.write_errors == 0,
            r.cache@ == Map::<PathKey, FileStamp>::empty(),
            match *prev {
                Some(p) => {
                    &&& r.stale == !same_tools(infos(p.tools@), infos(tools@))
                    &&& r.accumulator@ == grouped(p.diagnostics@)
                    &&& r.counters == (Counters {
                        state_version: (p.state_version + 1) as u64,
                        check_passes: p.summary.checks_run as u64,
                        batches: 0,
                    })
                },
                None => {
                    &&& !r.stale
                    &&& r.accumulator@ == Map::<PathKey, Seq<Diagnostic>>::empty()
                    &&& r.counters == (Counters { state_version: 0, check_passes: 0, batches: 0 })
                },
            },
    {
        let mut counters = Counters::new();
        let mut stale = false;
        let mut resumed = false;
        let accumulator = match prev {
            Some(p) => {
                seed_state_version(&mut counters, p.state_version + 1);
                seed_check_passes(&mut counters, p.summary.checks_run as u64);
                stale = tools_changed(&p.tools, &tools);
                resumed = true;
                proof {
                    law_grouped_is_filed(p.diagnostics@);
                }
                Accumulator::from_state(p)
            },
            None => Accumulator::new(),
        };
        Daemon {
            root,
            excludes,
            clippy,
            tools,
            stale,
            resumed,
            accumulator,
            cache: FileCache::new(),
            counters,
            write_errors: 0,
        }
    }

    /// Starts with a scan of the project. Files that are gone are dropped, and
    /// those that have changed are checked. A state from an earlier run is renewed
    /// even if there is nothing to check.
    pub fn on_first_scan(&mut self, files: &Vec<(FilePath, Option<FileStamp>)>) -> (r: (
        Task,
        Vec<CacheOutcome>,
    ))
        requires
            old(self).wf(),
        ensures
            final(self).wf(),
            final(self).same_but_for_files(*old(self)),
            final(self).accumulator@ == old(self).accumulator@.restrict(
                key_set(examined(files@)),
            ),
            final(self).cache@ == after_looks(old(self).cache@, files@),
            are_outcomes(old(self).cache@, files@, r.1@),
            ({
                let changed = differing(old(self).cache@, files@);
                if changed.len() > 0 {
                    r.0 matches Task::Check(pass) && path_texts(pass.files@) == changed && scanned(
                        pass,
                    ) is None
                } else if old(self).resumed {
                    r.0 is Publish
                } else {
                    r.0 is Rest
                }
            }),
    {
        let current = paths_of(files);
        proof {
            lemma_filed_restrict(self.accumulator@, key_set(current@));
        }
        self.accumulator.reconcile_with(&current);
        let outcomes = self.cache.look_all(files);
        let changed = changed_files(files, &outcomes, Ghost(old(self).cache@));
        assert(path_texts(changed@).len() == changed@.len());
        let task = if changed.len() > 0 {
            Task::Check(CheckPass { files: changed, rescanned: None })
        } else if self.resumed {
            Task::Publish
        } else {
            Task::Rest
        };
        (task, outcomes)
    }

    /// Whether only the view and the cache differ.
    pub open spec fn same_but_for_files(&self, other: Daemon) -> bool {
        &&& self.root == other.root
        &&& self.excludes == other.excludes
        &&& self.clippy == other.clippy
        &&& self.tools == other.tools
        &&& self.stale == other.stale
        &&& self.resumed == other.resumed
        &&& self.counters == other.counters
        &&& self.write_errors == other.write_errors
    }

    /// The changed paths of a closed batch that are checked.
    pub fn batch_files(&self, batch: &Batch) -> (r: Vec<FilePath>)
        ensures
            r@ == batch.paths@.filter(is_checked(self.root@, texts(self.excludes@), self.clippy)),
    {
        let ghost all = batch.paths@;
        let ghost test = is_checked(self.root@, texts(self.excludes@), self.clippy);
        let mut out: Vec<FilePath> = Vec::new();
        let mut i: usize = 0;
        assert(all.take(0).filter(test) =~= Seq::empty()) by {
            crate::sorting::lemma_filter_none(all.take(0), test);
        }
        while i < batch.paths.len()
            invariant
                i <= batch.paths@.len(),
                all == batch.paths@,
                test == is_checked(self.root@, texts(self.excludes@), self.clippy),
                out@ == all.take(i as int).filter(test),
            decreases batch.paths@.len() - i,
        {
            proof {
                assert(all.take(i + 1) =~= all.take(i as int).push(all[i as int]));
                all.take(i as int).lemma_filter_push(all[i as int], test);
            }
            let p = &batch.paths[i];
            if !is_excluded(p, &self.root, &self.excludes) && is_source_file(p, self.clippy) {
                out.push(p.clone());
            }
            i += 1;
        }
        assert(all.take(i as int) =~= all);
        out
    }

    /// Decides which files to look at for a closed batch: where events were lost,
    /// any file may have changed.
    pub fn to_examine(&self, batch: &Batch) -> (r: Examine)
        ensures
            batch.rescan ==> r is WholeProject,
            !batch.rescan ==> (r matches Examine::Files(v) && v@ == batch.paths@.filter(
                is_checked(self.root@, texts(self.excludes@), self.clippy),
            )),
    {
        if batch.rescan {
            Examine::WholeProject
        } else {
            Examine::Files(self.batch_files(batch))
        }
    }

    /// Takes in a closed batch. `files` are the files that were looked at. Removed files leave
    /// the view at once. Where nothing has to be checked, a removal or a new scan
    /// is published all the same.
    pub fn on_batch(
        &mut self,
        batch: &Batch,
        files: &Vec<(FilePath, Option<FileStamp>)>,
    ) -> (r: (Task, Vec<CacheOutcome>))
        requires
            old(self).wf(),
        ensures
            final(self).wf(),
            final(self).same_but_for_files(*old(self)),
            final(self).cache@ == after_looks(old(self).cache@, files@),
            are_outcomes(old(self).cache@, files@, r.1@),
            ({
                let changed = differing(old(self).cache@, files@);
                let trimmed = without_files(old(self).accumulator@, batch.removed@);
                if changed.len() > 0 {
                    &&& final(self).accumulator@ == trimmed
                    &&& r.0 matches Task::Check(pass) && path_texts(pass.files@) == changed
                        && scanned(pass) == if batch.rescan {
                        Some(examined(files@))
                    } else {
                        None
                    }
                } else if batch.rescan {
                    &&& final(self).accumulator@ == trimmed.restrict(key_set(examined(files@)))
                    &&& r.0 is Publish
                } else {
                    &&& final(self).accumulator@ == trimmed
                    &&& if batch.removed@.len() > 0 {
                        r.0 is Publish
                    } else {
                        r.0 is Rest
                    }
                }
            }),
    {
        self.drop_files(&batch.removed);
        let outcomes = self.cache.look_all(files);
        let changed = changed_files(files, &outcomes, Ghost(old(self).cache@));
        assert(path_texts(changed@).len() == changed@.len());
        if changed.len() > 0 {
            let rescanned = if batch.rescan {
                Some(paths_of(files))
            } else {
                None
            };
            return (Task::Check(CheckPass { files: changed, rescanned }), outcomes);
        }
        if batch.rescan {
            let current = paths_of(files);
            proof {
                lemma_filed_restrict(self.accumulator@, key_set(current@));
            }
            self.accumulator.reconcile_with(&current);
            return (Task::Publish, outcomes);
        }
        let task = if batch.removed.len() > 0 {
            Task::Publish
        } else {
            Task::Rest
        };
        (task, outcomes)
    }

    /// Drops files from the view.
    fn drop_files(&mut self, removed: &Vec<FilePath>)
        requires
            old(self).wf(),
        ensures
            final(self).wf(),
            final(self).same_but_for_files(*old(self)),
            final(self).cache == old(self).cache,
            final(self).accumulator@ == without_files(old(self).accumulator@, removed@),
    {
        let ghost start = self.accumulator@;
        let mut i: usize = 0;
        assert(without_files(start, removed@.take(0)) =~= start);
        while i < removed.len()
            invariant
                i <= removed@.len(),
                self.accumulator.wf(),
                self.cache == old(self).cache,
                self.same_but_for_files(*old(self)),
                self.accumulator@ == without_files(start, removed@.take(i as int)),
            decreases removed@.len() - i,
        {
            self.accumulator.remove(&removed[i]);
            proof {
                let part = removed@.take(i as int);
                let more = removed@.take(i + 1);
                let c = components(removed@[i as int]@);
                assert forall|q: PathKey| #[trigger] holds_path(more, q) == (holds_path(part, q)
                    || q == c) by {
                    if holds_path(more, q) {
                        let j = choose|j: int|
                            0 <= j < more.len() && components(#[trigger] more[j]@) == q;
                        if j < part.len() {
                            assert(components(part[j]@) == q);
                        }
                    }
                    if holds_path(part, q) {
                        let j = choose|j: int|
                            0 <= j < part.len() && components(#[trigger] part[j]@) == q;
                        assert(components(more[j]@) == q);
                    }
                    if q == c {
                        assert(components(more[i as int]@) == q);
                    }
                }
                assert(without_files(start, more) =~= without_files(start, part).remove(c));
            }
            i += 1;
        }
        assert(removed@.take(i as int) =~= removed@);
        proof {
            lemma_filed_restrict(start, key_set(removed@).complement());
        }
    }

    /// Takes in the results of a pass and makes the state to publish. Only the
    /// first state after a change of tools is stale.
    pub fn on_results(
        &mut self,
        pass: &CheckPass,
        results: &Vec<RunResult>,
        timestamp: String,
    ) -> (r: State)
        requires
            old(self).wf(),
            old(self).counters.check_passes < u64::MAX,
        ensures
            final(self).wf(),
            final(self).settled(*old(self)),
            final(self).accumulator@ == after_pass(
                old(self).accumulator@,
                results@,
                pass.files@,
                scanned(*pass),
            ),
            is_snapshot(final(self).accumulator@, r.diagnostics@),
            publishes(
                r,
                r.diagnostics@,
                results@,
                old(self).tools@,
                old(self).stale,
                old(self).counters,
            ),
            r.timestamp == timestamp,
    {
        let groups = group_results_by_file(results, &pass.files);
        proof {
            lemma_by_file_is_filed(results@, pass.files@);
            lemma_filed_union(self.accumulator@, groups@);
        }
        self.accumulator.files.merge(groups);
        if let Some(files) = &pass.rescanned {
            proof {
                lemma_filed_restrict(self.accumulator@, key_set(files@));
            }
            self.accumulator.reconcile_with(files);
        }
        self.make_state(results, timestamp)
    }

    /// Makes the state to publish where no tool has run.
    pub fn on_publish(&mut self, timestamp: String) -> (r: State)
        requires
            old(self).wf(),
            old(self).counters.check_passes < u64::MAX,
        ensures
            final(self).wf(),
            final(self).settled(*old(self)),
            final(self).accumulator == old(self).accumulator,
            is_snapshot(final(self).accumulator@, r.diagnostics@),
            publishes(
                r,
                r.diagnostics@,
                Seq::empty(),
                old(self).tools@,
                old(self).stale,
                old(self).counters,
            ),
            r.timestamp == timestamp,
    {
        let none: Vec<RunResult> = Vec::new();
        assert(none@ =~= Seq::empty());
        self.make_state(&none, timestamp)
    }

    /// Whether a state has been made: the counters have moved on, and what follows
    /// is not stale.
    pub open spec fn settled(&self, other: Daemon) -> bool {
        &&& self.root == other.root
        &&& self.excludes == other.excludes
        &&& self.clippy == other.clippy
        &&& self.tools == other.tools
        &&& !self.stale
        &&& self.resumed == other.resumed
        &&& self.cache == other.cache
        &&& self.counters == after_state(other.counters)
        &&& self.write_errors == other.write_errors
    }

    /// Makes the state to publish.
    fn make_state(&mut self, results: &Vec<RunResult>, timestamp: String) -> (r: State)
        requires
            old(self).wf(),
            old(self).counters.check_passes < u64::MAX,
        ensures
            final(self).wf(),
            final(self).settled(*old(self)),
            final(self).accumulator == old(self).accumulator,
            is_snapshot(final(self).accumulator@, r.diagnostics@),
            publishes(
                r,
                r.diagnostics@,
                results@,
                old(self).tools@,
                old(self).stale,
                old(self).counters,
            ),
            r.timestamp == timestamp,
    {
        let view = self.accumulator.snapshot();
        let tools = copy_infos(&self.tools);
        let state = publish(view, results, tools, self.stale, &mut self.counters, timestamp);
        self.stale = false;
        state
    }

    /// Takes in whether a state could be written. Three failures in a row end the
    /// daemon; a success starts the count again.
    pub fn on_write(&mut self, ok: bool) -> (r: WriteStep)
        requires
            old(self).wf(),
        ensures
            r == if final(self).write_errors >= MAX_CONSECUTIVE_WRITE_ERRORS {
                WriteStep::Abort
            } else {
                WriteStep::Continue
            },
            *final(self) == (Daemon {
                write_errors: after_write(old(self).write_errors, ok),
                ..*old(self)
            }),
            r is Continue ==> final(self).wf(),
    {
        if ok {
            self.write_errors = 0;
            return WriteStep::Continue;
        }
        self.write_errors = self.write_errors + 1;
        if self.write_errors >= MAX_CONSECUTIVE_WRITE_ERRORS {
            WriteStep::Abort
        } else {
            WriteStep::Continue
        }
    }
}

/// What waiting for an event gave.
#[derive(Debug)]
pub enum Received {
    /// An event.
    Event(FileEvent),
    /// Nothing, for a while.
    Nothing,
    /// The watcher is gone, maybe for a reason.
    Closed { error: Option<String> },
}

/// What to do after waiting.
#[derive(Debug)]
pub enum Turn {
    /// Handle the event and those that follow closely.
    Handle(FileEvent),
    /// See whether the user wants to stop, and wait again.
    Wait,
    /// End with an error.
    Fail(String),
    /// End.
    End,
}

/// Decides what to do after waiting for an event.
pub fn turn(received: Received) -> (r: Turn)
    ensures
        match received {
            Received::Event(e) => r == Turn::Handle(e),
            Received::Nothing => r is Wait,
            Received::Closed { error: Some(e) } => r matches Turn::Fail(m) && m@
                == "pulci watcher failed: "@ + e@,
            Received::Closed { error: None } => r is End,
        },
{
    match received {
        Received::Event(e) => Turn::Handle(e),
        Received::Nothing => Turn::Wait,
        Received::Closed { error: Some(e) } => {
            let mut message = "pulci watcher failed: ".to_owned();
            message.append(e.as_str());
            Turn::Fail(message)
        },
        Received::Closed { error: None } => Turn::End,
    }
}

/// The message with which the daemon gives up.
pub fn abort_message(last_error: &str) -> (r: String)
    ensures
        r@ == "pulci aborting: 3 consecutive state.json writes failed. Last error: "@ + last_error@
            + ". Check disk space and .pulci/ permissions."@,
{
    let mut out = "pulci aborting: 3 consecutive state.json writes failed. Last error: ".to_owned();
    out.append(last_error);
    out.append(". Check disk space and .pulci/ permissions.");
    out
}

// ---------------------------------------------------------------------------
// Laws
// ---------------------------------------------------------------------------

/// After a pass, diagnostics stand under their own files as before.
proof fn lemma_after_pass_is_filed(
    m: Map<PathKey, Seq<Diagnostic>>,
    results: Seq<RunResult>,
    checked: Seq<FilePath>,
    rescanned: Option<Seq<FilePath>>,
)
    requires
        filed(m),
    ensures
        filed(after_pass(m, results, checked, rescanned)),
{
    let merged = m.union_prefer_right(by_file(results, checked));
    lemma_by_file_is_filed(results, checked);
    lemma_filed_union(m, by_file(results, checked));
    if let Some(files) = rescanned {
        lemma_filed_restrict(merged, key_set(files));
    }
}

/// Checking some files leaves what is known of all others as it was.
pub proof fn law_other_files_keep_their_diagnostics(
    m: Map<PathKey, Seq<Diagnostic>>,
    results: Seq<RunResult>,
    checked: Seq<FilePath>,
    rescanned: Option<Seq<FilePath>>,
    c: PathKey,
)
    requires
        !holds_path(checked, c),
        !mentions(all_diagnostics(results), c),
        rescanned matches Some(files) ==> holds_path(files, c),
    ensures
        after_pass(m, results, checked, rescanned).contains_key(c) == m.contains_key(c),
        m.contains_key(c) ==> after_pass(m, results, checked, rescanned)[c] == m[c],
{
}

/// Of a checked file, only what the tools said in this pass is known.
pub proof fn law_checked_files_are_replaced(
    m: Map<PathKey, Seq<Diagnostic>>,
    results: Seq<RunResult>,
    checked: Seq<FilePath>,
    rescanned: Option<Seq<FilePath>>,
    c: PathKey,
)
    requires
        holds_path(checked, c),
        rescanned matches Some(files) ==> holds_path(files, c),
    ensures
        after_pass(m, results, checked, rescanned).contains_key(c),
        after_pass(m, results, checked, rescanned)[c] == of_file(all_diagnostics(results), c),
{
}

/// After a new scan only files that are there are known.
pub proof fn law_new_scan_drops_missing_files(
    m: Map<PathKey, Seq<Diagnostic>>,
    results: Seq<RunResult>,
    checked: Seq<FilePath>,
    files: Seq<FilePath>,
    c: PathKey,
)
    requires
        !holds_path(files, c),
    ensures
        !after_pass(m, results, checked, Some(files)).contains_key(c),
{
}

/// A removed file is in no state that is published before it is checked again.
pub proof fn law_removed_files_leave_the_state(
    m: Map<PathKey, Seq<Diagnostic>>,
    removed: Seq<FilePath>,
    c: PathKey,
    published: Seq<Diagnostic>,
)
    requires
        filed(m),
        holds_path(removed, c),
        is_snapshot(without_files(m, removed), published),
    ensures
        !mentions(published, c),
{
    let rest = without_files(m, removed);
    lemma_filed_restrict(m, key_set(removed).complement());
    assert(rest.remove(c) =~= rest);
    law_removed_file_leaves_the_snapshot(rest, c, published);
}

/// A published state holds exactly what is known of the files of the project.
pub proof fn law_state_is_the_view(daemon: Daemon, published: Seq<Diagnostic>, d: Diagnostic)
    requires
        daemon.wf(),
        is_snapshot(daemon.accumulator@, published),
    ensures
        published.contains(d) == (daemon.accumulator@.contains_key(components(d.file@))
            && daemon.accumulator@[components(d.file@)].contains(d)),
{
    law_snapshot_holds_every_diagnostic(daemon.accumulator@, published, d);
}

/// What a pass publishes of a checked file is exactly what the tools said of it in
/// that pass: findings that were fixed are gone.
pub proof fn law_pass_publishes_what_the_tools_said(
    m: Map<PathKey, Seq<Diagnostic>>,
    results: Seq<RunResult>,
    checked: Seq<FilePath>,
    rescanned: Option<Seq<FilePath>>,
    published: Seq<Diagnostic>,
    d: Diagnostic,
)
    requires
        filed(m),
        is_snapshot(after_pass(m, results, checked, rescanned), published),
        holds_path(checked, components(d.file@)),
        rescanned matches Some(files) ==> holds_path(files, components(d.file@)),
    ensures
        published.contains(d) == all_diagnostics(results).contains(d),
{
    let c = components(d.file@);
    let all = all_diagnostics(results);
    let now = after_pass(m, results, checked, rescanned);
    lemma_after_pass_is_filed(m, results, checked, rescanned);
    law_snapshot_holds_every_diagnostic(now, published, d);
    let p = |x: Diagnostic| components(x.file@) == c;
    assert(now[c] == all.filter(p));
    if all.contains(d) {
        let i = choose|i: int| 0 <= i < all.len() && all[i] == d;
        all.lemma_filter_contains(p, i);
    }
    if all.filter(p).contains(d) {
        all.lemma_filter_contains_rev(p, d);
    }
}

/// What a pass publishes of a checked file is exactly what the tools printed of
/// it, under whatever spelling of its path: `printed` are their diagnostics, and
/// `dirs` the directories they ran in.
pub proof fn law_pass_publishes_what_the_tools_printed(
    m: Map<PathKey, Seq<Diagnostic>>,
    printed: Seq<Seq<DiagnosticView>>,
    dirs: Seq<Seq<char>>,
    results: Seq<RunResult>,
    checked: Seq<FilePath>,
    rescanned: Option<Seq<FilePath>>,
    published: Seq<Diagnostic>,
    v: DiagnosticView,
)
    requires
        filed(m),
        printed.len() == results.len(),
        dirs.len() == results.len(),
        forall|i: int|
            0 <= i < results.len() ==> findings((#[trigger] results[i]).diagnostics@)
                == all_placed(printed[i], dirs[i]),
        is_snapshot(after_pass(m, results, checked, rescanned), published),
        holds_path(checked, components(v.file)),
        rescanned matches Some(files) ==> holds_path(files, components(v.file)),
    ensures
        findings(published).contains(v) == exists|i: int|
            0 <= i < results.len() && (#[trigger] all_placed(printed[i], dirs[i])).contains(v),
{
    if findings(published).contains(v) {
        let k = choose|k: int| 0 <= k < published.len() && findings(published)[k] == v;
        let d = published[k];
        assert(published.contains(d));
        law_pass_publishes_what_the_tools_said(m, results, checked, rescanned, published, d);
        lemma_reported_by_one(results, d);
        let i = choose|i: int|
            0 <= i < results.len() && (#[trigger] results[i]).diagnostics@.contains(d);
        let list = results[i].diagnostics@;
        let n = choose|n: int| 0 <= n < list.len() && list[n] == d;
        assert(findings(list)[n] == v);
        assert(all_placed(printed[i], dirs[i]).contains(v));
    }
    if exists|i: int|
        0 <= i < results.len() && (#[trigger] all_placed(printed[i], dirs[i])).contains(v) {
        let i = choose|i: int|
            0 <= i < results.len() && (#[trigger] all_placed(printed[i], dirs[i])).contains(v);
        let list = results[i].diagnostics@;
        assert(findings(list).contains(v));
        let n = choose|n: int| 0 <= n < findings(list).len() && findings(list)[n] == v;
        let d = list[n];
        assert(results[i].diagnostics@.contains(d));
        lemma_reported_by_one(results, d);
        law_pass_publishes_what_the_tools_said(m, results, checked, rescanned, published, d);
        let k = choose|k: int| 0 <= k < published.len() && published[k] == d;
        assert(findings(published)[k] == v);
    }
}

/// Whether a path has only one spelling: it starts at the root, or is empty, as
/// that of a diagnostic without a place.
pub open spec fn is_full(c: PathKey) -> bool {
    c.len() == 0 || c[0] == root()
}

/// Where tools run in absolute directories and checked paths are absolute, no file
/// is known under a relative path as well.
pub proof fn law_known_paths_are_full(
    m: Map<PathKey, Seq<Diagnostic>>,
    printed: Seq<Seq<DiagnosticView>>,
    dirs: Seq<Seq<char>>,
    results: Seq<RunResult>,
    checked: Seq<FilePath>,
    rescanned: Option<Seq<FilePath>>,
    c: PathKey,
)
    requires
        forall|q: PathKey| #[trigger] m.contains_key(q) ==> is_full(q),
        printed.len() == results.len(),
        dirs.len() == results.len(),
        forall|i: int|
            0 <= i < results.len() ==> findings((#[trigger] results[i]).diagnostics@)
                == all_placed(printed[i], dirs[i]),
        forall|i: int| 0 <= i < dirs.len() ==> is_absolute(#[trigger] dirs[i]),
        forall|i: int| 0 <= i < checked.len() ==> is_absolute((#[trigger] checked[i])@),
        after_pass(m, results, checked, rescanned).contains_key(c),
    ensures
        is_full(c),
{
    let all = all_diagnostics(results);
    if holds_path(checked, c) {
        let i = choose|i: int| 0 <= i < checked.len() && components(#[trigger] checked[i]@) == c;
        assert(is_absolute(checked[i]@));
    } else if mentions(all, c) {
        let k = choose|k: int| 0 <= k < all.len() && components((#[trigger] all[k]).file@) == c;
        let d = all[k];
        assert(all.contains(d));
        lemma_reported_by_one(results, d);
        let i = choose|i: int|
            0 <= i < results.len() && (#[trigger] results[i]).diagnostics@.contains(d);
        let list = results[i].diagnostics@;
        let n = choose|n: int| 0 <= n < list.len() && list[n] == d;
        assert(findings(list).len() == printed[i].len());
        assert(findings(list)[n] == d@);
        assert(all_placed(printed[i], dirs[i])[n] == placed(printed[i][n], dirs[i]));
        let p = printed[i][n].file;
        assert(d.file@ == full_path(p, dirs[i]));
        assert(is_absolute(dirs[i]));
        if p.len() == 0 {
            lemma_empty_path(p);
        } else {
            assert(is_absolute(d.file@));
        }
    } else {
        assert(m.contains_key(c));
    }
}

/// What a pass publishes of all other files is what was published of them before.
pub proof fn law_pass_publishes_the_rest_unchanged(
    m: Map<PathKey, Seq<Diagnostic>>,
    results: Seq<RunResult>,
    checked: Seq<FilePath>,
    rescanned: Option<Seq<FilePath>>,
    before: Seq<Diagnostic>,
    published: Seq<Diagnostic>,
    d: Diagnostic,
)
    requires
        filed(m),
        is_snapshot(m, before),
        is_snapshot(after_pass(m, results, checked, rescanned), published),
        !holds_path(checked, components(d.file@)),
        !mentions(all_diagnostics(results), components(d.file@)),
        rescanned matches Some(files) ==> holds_path(files, components(d.file@)),
    ensures
        published.contains(d) == before.contains(d),
{
    lemma_after_pass_is_filed(m, results, checked, rescanned);
    law_snapshot_holds_every_diagnostic(
        after_pass(m, results, checked, rescanned),
        published,
        d,
    );
    law_snapshot_holds_every_diagnostic(m, before, d);
}

/// A restart on an unchanged project publishes what was published before.
pub proof fn law_restart_publishes_the_same(
    before: Seq<Diagnostic>,
    scanned: Seq<FilePath>,
    published: Seq<Diagnostic>,
)
    requires
        crate::sorting::ordered(before),
        forall|i: int|
            0 <= i < before.len() ==> holds_path(scanned, components((#[trigger] before[i]).file@)),
        is_snapshot(grouped(before).restrict(key_set(scanned)), published),
    ensures
        published == before,
{
    let m = grouped(before);
    assert(m.restrict(key_set(scanned)) =~= m) by {
        assert forall|c: PathKey| #[trigger] m.contains_key(c) implies key_set(scanned).contains(
            c,
        ) by {
            let i = choose|i: int|
                0 <= i < before.len() && components((#[trigger] before[i]).file@) == c;
            assert(holds_path(scanned, components(before[i].file@)));
        }
    }
    crate::accumulator::law_restart_keeps_the_view(before, published);
}

/// A change of tools shows in one state only, and versions go up by one from each
/// state to the next.
pub proof fn law_stale_is_shown_once(
    before: Daemon,
    between: Daemon,
    first: State,
    second: State,
    r1: Seq<RunResult>,
    r2: Seq<RunResult>,
)
    requires
        before.counters.state_version < u64::MAX,
        between.settled(before),
        publishes(
            first,
            first.diagnostics@,
            r1,
            before.tools@,
            before.stale,
            before.counters,
        ),
        publishes(
            second,
            second.diagnostics@,
            r2,
            between.tools@,
            between.stale,
            between.counters,
        ),
    ensures
        first.summary.stale == before.stale,
        !second.summary.stale,
        second.state_version == first.state_version + 1,
{
}

/// A path that is gone is not checked, whatever else was said of it.
pub proof fn law_gone_paths_are_not_checked(
    paths: Seq<FilePath>,
    removed: Seq<FilePath>,
    p: FilePath,
)
    requires
        holds_path(removed, components(p@)),
    ensures
        !paths.filter(not_in(removed)).contains(p),
{
    let kept = paths.filter(not_in(removed));
    if kept.contains(p) {
        let i = choose|i: int| 0 <= i < kept.len() && kept[i] == p;
        paths.lemma_filter_pred(not_in(removed), i);
    }
}

/// Whether no path stands twice in `v`.
pub open spec fn distinct(v: Seq<FilePath>) -> bool {
    forall|i: int, j: int|
        0 <= i < j < v.len() ==> components((#[trigger] v[i])@) != components((#[trigger] v[j])@)
}

/// A batch holds each path once, however often it is reported.
pub proof fn law_batch_holds_each_path_once(v: Seq<FilePath>, p: FilePath)
    requires
        distinct(v),
    ensures
        distinct(with_path(v, p)),
        holds_path(with_path(v, p), components(p@)),
        with_path(with_path(v, p), p) == with_path(v, p),
{
    let w = with_path(v, p);
    if !holds_path(v, components(p@)) {
        assert(components(w[v.len() as int]@) == components(p@));
        assert forall|i: int, j: int| 0 <= i < j < w.len() implies components(
            (#[trigger] w[i])@,
        ) != components((#[trigger] w[j])@) by {
            assert(w[i] == v[i]);
            if j < v.len() {
                assert(w[j] == v[j]);
            } else {
                assert(components(v[i]@) != components(p@));
            }
        }
    }
}

/// The failures in a row at the end of some writes.
pub open spec fn failures_in_a_row(writes: Seq<bool>) -> nat
    decreases writes.len(),
{
    if writes.len() == 0 || writes.last() {
        0
    } else {
        failures_in_a_row(writes.drop_last()) + 1
    }
}

/// The count that the daemon keeps is the number of failures in a row.
pub proof fn law_write_errors_count_failures(writes: Seq<bool>, ok: bool, errors: u32)
    requires
        errors == failures_in_a_row(writes),
        errors < MAX_CONSECUTIVE_WRITE_ERRORS,
    ensures
        after_write(errors, ok) == failures_in_a_row(writes.push(ok)),
{
    assert(writes.push(ok).drop_last() =~= writes);
}

/// That number has reached its limit exactly when the last three writes failed.
pub proof fn law_daemon_gives_up_after_three_failures(writes: Seq<bool>)
    ensures
        (failures_in_a_row(writes) >= MAX_CONSECUTIVE_WRITE_ERRORS) == (writes.len() >= 3
            && !writes[writes.len() - 1] && !writes[writes.len() - 2] && !writes[writes.len() - 3]),
{
    reveal_with_fuel(failures_in_a_row, 4);
}

/// A path joins a window unless it is there: afterwards the window holds it and all
/// that it held before, in order.
pub proof fn law_window_takes_a_path_in(v: Seq<FilePath>, p: FilePath, c: PathKey)
    ensures
        (exists|i: int|
            0 <= i < with_path(v, p).len() && components((#[trigger] with_path(v, p)[i])@) == c)
            == (c == components(p@) || exists|i: int|
            0 <= i < v.len() && components((#[trigger] v[i])@) == c),
        v.is_prefix_of(with_path(v, p)),
        with_path(v, p).len() == v.len() || with_path(v, p) == v.push(p),
{
    let w = with_path(v, p);
    assert(v =~= w.subrange(0, v.len() as int));
    if exists|i: int| 0 <= i < w.len() && components((#[trigger] w[i])@) == c {
        let i = choose|i: int| 0 <= i < w.len() && components((#[trigger] w[i])@) == c;
        if i < v.len() {
            assert(components(v[i]@) == c);
        }
    }
    if exists|i: int| 0 <= i < v.len() && components((#[trigger] v[i])@) == c {
        let i = choose|i: int| 0 <= i < v.len() && components((#[trigger] v[i])@) == c;
        assert(components(w[i]@) == c);
    }
    if c == components(p@) {
        if holds_path(v, c) {
            let i = choose|i: int| 0 <= i < v.len() && components(#[trigger] v[i]@) == c;
            assert(components(w[i]@) == c);
        } else {
            assert(components(w[v.len() as int]@) == c);
        }
    }
}

/// Changes and removals are taken in under the canonical path where there is one, else
/// under the path that was reported; only a change of a file that is gone is dropped.
pub proof fn law_events_are_taken_in_under_one_name(path: FilePath, canonical: FilePath)
    ensures
        changed_path(path, Canonical::Resolved(canonical)) == Some(canonical),
        removed_path(path, Canonical::Resolved(canonical)) == canonical,
        changed_path(path, Canonical::Failed) == Some(path),
        removed_path(path, Canonical::Failed) == path,
        changed_path(path, Canonical::Missing) is None,
        removed_path(path, Canonical::Missing) == path,
{
}

/// Closing a window takes out the paths that are gone and keeps all others.
pub proof fn law_remaining_paths_stay_in_the_window(
    paths: Seq<FilePath>,
    removed: Seq<FilePath>,
    i: int,
)
    requires
        0 <= i < paths.len(),
        forall|j: int| 0 <= j < removed.len() ==> components((#[trigger] removed[j])@)
            != components(paths[i]@),
    ensures
        paths.filter(not_in(removed)).contains(paths[i]),
{
    let c = components(paths[i]@);
    if holds_path(removed, c) {
        let j = choose|j: int| 0 <= j < removed.len() && components(#[trigger] removed[j]@) == c;
        assert(components(removed[j]@) == c);
    }
    paths.lemma_filter_contains(not_in(removed), i);
}

/// A changed path is checked exactly where it is a source and not excluded.
pub proof fn law_sources_are_checked(
    root: Seq<char>,
    excludes: Seq<Seq<char>>,
    clippy: bool,
    p: FilePath,
)
    ensures
        is_checked(root, excludes, clippy)(p) == (source(p@, clippy) && !excluded(
            p@,
            root,
            excludes,
        )),
{
}

/// The paths of examined files are theirs, one for one.
pub proof fn law_examined_files_are_complete(
    files: Seq<(FilePath, Option<FileStamp>)>,
    i: int,
)
    requires
        0 <= i < files.len(),
    ensures
        examined(files).len() == files.len(),
        examined(files)[i] == files[i].0,
{
}

/// Without removed files the view knows all other files as before, and no removed one.
pub proof fn law_only_removed_files_leave_the_view(
    m: Map<PathKey, Seq<Diagnostic>>,
    removed: Seq<FilePath>,
    c: PathKey,
)
    ensures
        ({
            let gone = exists|i: int|
                0 <= i < removed.len() && components((#[trigger] removed[i])@) == c;
            let after = without_files(m, removed);
            &&& after.contains_key(c) == (m.contains_key(c) && !gone)
            &&& after.contains_key(c) ==> after[c] == m[c]
        }),
{
    crate::pathmap::law_key_set_holds_every_path(removed, c);
}

/// By file, results hold each file that was checked or that a tool mentioned, with all
/// that the tools said of it, in order.
pub proof fn law_results_are_filed_by_file(
    results: Seq<RunResult>,
    checked: Seq<FilePath>,
    c: PathKey,
)
    ensures
        ({
            let all = all_diagnostics(results);
            let m = by_file(results, checked);
            &&& m.contains_key(c) == ((exists|i: int|
                0 <= i < checked.len() && components((#[trigger] checked[i])@) == c) || exists|
                i: int,
            |
                0 <= i < all.len() && components((#[trigger] all[i]).file@) == c)
            &&& m.contains_key(c) ==> m[c] == all.filter(
                |d: Diagnostic| components(d.file@) == c,
            )
        }),
{
    if holds_path(checked, c) {
        let i = choose|i: int| 0 <= i < checked.len() && components(#[trigger] checked[i]@) == c;
        assert(components(checked[i]@) == c);
    }
}

/// After a pass a file is known as the tools told of it where they did, else as before,
/// unless a new scan did not find it.
pub proof fn law_pass_replaces_what_the_tools_told(
    m: Map<PathKey, Seq<Diagnostic>>,
    results: Seq<RunResult>,
    checked: Seq<FilePath>,
    rescanned: Option<Seq<FilePath>>,
    c: PathKey,
)
    ensures
        ({
            let told = by_file(results, checked);
            let after = after_pass(m, results, checked, rescanned);
            let there = rescanned is None || exists|i: int|
                0 <= i < rescanned->0.len() && components((#[trigger] rescanned->0[i])@) == c;
            &&& after.contains_key(c) == (there && (told.contains_key(c) || m.contains_key(c)))
            &&& after.contains_key(c) && told.contains_key(c) ==> after[c] == told[c]
            &&& after.contains_key(c) && !told.contains_key(c) ==> after[c] == m[c]
        }),
{
    if let Some(files) = rescanned {
        crate::pathmap::law_key_set_holds_every_path(files, c);
    }
}

/// Making a state moves the counters on and clears the mark that the tools have
/// changed; nothing else of what the daemon was set up with changes.
pub proof fn law_state_changes_counters_and_mark(before: Daemon, after: Daemon)
    requires
        after.settled(before),
        before.counters.check_passes < u64::MAX,
    ensures
        !after.stale,
        after.counters.check_passes == before.counters.check_passes + 1,
        after.counters.batches == before.counters.batches,
        after.root == before.root,
        after.excludes == before.excludes,
        after.clippy == before.clippy,
        after.tools == before.tools,
        after.cache == before.cache,
        after.resumed == before.resumed,
        after.write_errors == before.write_errors,
{
}

/// Looking at files changes nothing but what is known of files.
pub proof fn law_looking_changes_only_files(before: Daemon, after: Daemon)
    requires
        after.same_but_for_files(before),
    ensures
        after.root == before.root,
        after.excludes == before.excludes,
        after.clippy == before.clippy,
        after.tools == before.tools,
        after.stale == before.stale,
        after.resumed == before.resumed,
        after.counters == before.counters,
        after.write_errors == before.write_errors,
{
}

/// A pass after a new scan knows all files that the scan found, and any other pass
/// knows of no scan.
pub proof fn law_pass_knows_its_scan(files: Vec<FilePath>, found: Vec<FilePath>)
    ensures
        scanned(CheckPass { files, rescanned: Some(found) }) == Some(found@),
        scanned(CheckPass { files, rescanned: None }) is None,
{
}

} // verus!
