//! From file system events to events that concern the daemon.

use vstd::prelude::*;
use crate::cache::{trace_ns, traced_ns};
use crate::event_trace::EventRecord;
use crate::paths::{components, FilePath};
use crate::text::{begins_with, chars_of, pieces, same_chars};

verus! {

/// An event for the daemon.
#[derive(Debug)]
pub enum FileEvent {
    /// A file was created or modified.
    Changed { path: FilePath, kind: String },
    /// A file was deleted or renamed to something else.
    Removed { path: FilePath },
    /// Events were lost: any file may have changed.
    Rescan,
}

/// What an event says.
pub enum FileEventView {
    Changed { path: Seq<char>, kind: Seq<char> },
    Removed { path: Seq<char> },
    Rescan,
}

impl View for FileEvent {
    type V = FileEventView;

    open spec fn view(&self) -> FileEventView {
        match *self {
            FileEvent::Changed { path, kind } => FileEventView::Changed {
                path: path@,
                kind: kind@,
            },
            FileEvent::Removed { path } => FileEventView::Removed { path: path@ },
            FileEvent::Rescan => FileEventView::Rescan,
        }
    }
}

/// What to watch.
#[derive(Debug)]
pub struct WatcherConfig {
    pub path: FilePath,
}

// ---------------------------------------------------------------------------
// Ignored paths
// ---------------------------------------------------------------------------

/// Whether a name is that of a directory that tools and caches own.
pub open spec fn ignored_name(c: Seq<char>) -> bool {
    ||| c == ".git"@
    ||| c == ".pulci"@
    ||| c == ".ruff_cache"@
    ||| c == ".pytest_cache"@
    ||| c == "__pycache__"@
    ||| c == "node_modules"@
    ||| c == ".venv"@
    ||| c == "target"@
    ||| "pytest-cache-files-"@.is_prefix_of(c)
}

/// Whether a path has a component that is ignored.
pub open spec fn ignored(path: Seq<char>) -> bool {
    exists|i: int| 0 <= i < components(path).len() && ignored_name(#[trigger] components(path)[i])
}

/// Whether `name` is `word`.
fn is_word(name: &[char], word: &str) -> (r: bool)
    ensures
        r == (name@ == word@),
{
    let w = chars_of(word);
    same_chars(name, w.as_slice())
}

/// Whether a name is ignored.
fn is_ignored_name(name: &[char]) -> (r: bool)
    ensures
        r == ignored_name(name@),
{
    is_word(name, ".git") || is_word(name, ".pulci") || is_word(name, ".ruff_cache") || is_word(
        name,
        ".pytest_cache",
    ) || is_word(name, "__pycache__") || is_word(name, "node_modules") || is_word(name, ".venv")
        || is_word(name, "target") || begins_with(name, "pytest-cache-files-")
}

/// Whether any component of a path is ignored.
pub fn is_ignored(path: &FilePath) -> (r: bool)
    ensures
        r == ignored(path@),
{
    let parts = path.parts();
    let ghost names = pieces(parts@);
    let mut i: usize = 0;
    while i < parts.len()
        invariant
            i <= parts@.len(),
            names == pieces(parts@),
            names == components(path@),
            forall|j: int| 0 <= j < i ==> !ignored_name(#[trigger] names[j]),
        decreases parts@.len() - i,
    {
        assert(names[i as int] == parts@[i as int]@);
        if is_ignored_name(parts[i].as_slice()) {
            assert(ignored_name(components(path@)[i as int]));
            return true;
        }
        i += 1;
    }
    false
}

// ---------------------------------------------------------------------------
// Routing
// ---------------------------------------------------------------------------

/// Which end of a rename an event tells of.
#[derive(Debug, Clone, Copy, PartialEq, Eq, Structural)]
pub enum RenameStep {
    Any,
    To,
    From,
    Both,
    Other,
}

/// What was modified.
#[derive(Debug, Clone, Copy, PartialEq, Eq, Structural)]
pub enum Modification {
    Any,
    Data,
    Metadata,
    Name(RenameStep),
    Other,
}

/// The kind of a file system event.
#[derive(Debug, Clone, Copy, PartialEq, Eq, Structural)]
pub enum RawKind {
    Any,
    Access,
    Create,
    Modify(Modification),
    Remove,
    Other,
}

/// An event as the file system reports it.
#[derive(Debug)]
pub struct RawEvent {
    /// Whether events were lost.
    pub need_rescan: bool,
    pub kind: RawKind,
    /// The kind in words.
    pub kind_text: String,
    pub paths: Vec<FilePath>,
}

/// Whether an event of some kind means that its paths are gone: they were
/// deleted, or renamed to something else.
pub open spec fn is_removal(kind: RawKind) -> bool {
    kind == RawKind::Remove || kind == RawKind::Modify(Modification::Name(RenameStep::From))
}

/// The event for one path.
pub open spec fn event_for(kind: RawKind, text: Seq<char>, path: Seq<char>) -> FileEventView {
    if is_removal(kind) {
        FileEventView::Removed { path }
    } else {
        FileEventView::Changed { path, kind: text }
    }
}

/// The events for the paths that are not ignored.
pub open spec fn events_for(kind: RawKind, text: Seq<char>, paths: Seq<FilePath>) -> Seq<
    FileEventView,
>
    decreases paths.len(),
{
    if paths.len() == 0 {
        Seq::empty()
    } else {
        let before = events_for(kind, text, paths.drop_last());
        if ignored(paths.last()@) {
            before
        } else {
            before.push(event_for(kind, text, paths.last()@))
        }
    }
}

/// What a file system event means for the daemon. A loss of events asks for a new
/// scan, whatever else the event says.
pub open spec fn routed(event: RawEvent) -> Seq<FileEventView> {
    if event.need_rescan {
        seq![FileEventView::Rescan]
    } else {
        events_for(event.kind, event.kind_text@, event.paths@)
    }
}

/// What each of several events says.
pub open spec fn event_views(v: Seq<FileEvent>) -> Seq<FileEventView> {
    v.map_values(|e: FileEvent| e@)
}

/// Turns a file system event into events for the daemon.
pub fn route(event: &RawEvent) -> (r: Vec<FileEvent>)
    ensures
        event_views(r@) == routed(*event),
{
    let mut out: Vec<FileEvent> = Vec::new();
    if event.need_rescan {
        out.push(FileEvent::Rescan);
        assert(event_views(out@) =~= seq![FileEventView::Rescan]);
        return out;
    }
    let removal = event.kind == RawKind::Remove || event.kind == RawKind::Modify(
        Modification::Name(RenameStep::From),
    );
    let mut i: usize = 0;
    assert(event_views(out@) =~= Seq::empty());
    while i < event.paths.len()
        invariant
            i <= event.paths@.len(),
            removal == is_removal(event.kind),
            event_views(out@) == events_for(
                event.kind,
                event.kind_text@,
                event.paths@.take(i as int),
            ),
        decreases event.paths@.len() - i,
    {
        assert(event.paths@.take(i + 1).drop_last() =~= event.paths@.take(i as int));
        if !is_ignored(&event.paths[i]) {
            let ghost before = out@;
            let path = event.paths[i].clone();
            if removal {
                out.push(FileEvent::Removed { path });
            } else {
                out.push(FileEvent::Changed { path, kind: event.kind_text.clone() });
            }
            assert(event_views(out@) =~= event_views(before).push(out@.last()@));
        }
        i += 1;
    }
    assert(event.paths@.take(i as int) =~= event.paths@);
    out
}

/// The record of an event for the trace. When a changed file was modified, how
/// large it is and what it holds are recorded with it, as far as they are known; of
/// a removed file there is nothing to record.
pub fn watcher_record(
    ts_ns: u128,
    event: &FileEvent,
    kind: &str,
    modified_ns: Option<i128>,
    size: Option<u64>,
    sha: Option<String>,
) -> (r: Option<EventRecord>)
    ensures
        match *event {
            FileEvent::Rescan => r is None,
            FileEvent::Removed { path } => r matches Some(
                EventRecord::Watcher { ts_ns: t, path: p, kind: k, mtime_ns, size: n, content_sha256 },
            ) && t == ts_ns && p@ == path@ && k@ == kind@ && mtime_ns is None && n is None
                && content_sha256 is None,
            FileEvent::Changed { path, .. } => r matches Some(
                EventRecord::Watcher { ts_ns: t, path: p, kind: k, mtime_ns, size: n, content_sha256 },
            ) && t == ts_ns && p@ == path@ && k@ == kind@ && mtime_ns == (match modified_ns {
                Some(ns) => traced_ns(ns),
                None => None,
            }) && n == size && content_sha256 == sha,
        },
{
    match event {
        FileEvent::Rescan => None,
        FileEvent::Removed { path } => Some(
            EventRecord::Watcher {
                ts_ns,
                path: path.clone(),
                kind: kind.to_owned(),
                mtime_ns: None,
                size: None,
                content_sha256: None,
            },
        ),
        FileEvent::Changed { path, .. } => Some(
            EventRecord::Watcher {
                ts_ns,
                path: path.clone(),
                kind: kind.to_owned(),
                mtime_ns: match modified_ns {
                    Some(ns) => trace_ns(ns),
                    None => None,
                },
                size,
                content_sha256: sha,
            },
        ),
    }
}

// ---------------------------------------------------------------------------
// Laws
// ---------------------------------------------------------------------------

/// Nothing below an ignored directory reaches the daemon. In particular writing
/// the state does not start another check.
pub proof fn law_ignored_paths_are_silent(event: RawEvent, i: int)
    requires
        !event.need_rescan,
        0 <= i < routed(event).len(),
    ensures
        match routed(event)[i] {
            FileEventView::Changed { path, .. } => !ignored(path) && !is_removal(event.kind),
            FileEventView::Removed { path } => !ignored(path) && is_removal(event.kind),
            FileEventView::Rescan => false,
        },
{
    lemma_events_are_not_ignored(event.kind, event.kind_text@, event.paths@, i);
}

/// The events for some paths are about paths that are not ignored.
proof fn lemma_events_are_not_ignored(
    kind: RawKind,
    text: Seq<char>,
    paths: Seq<FilePath>,
    i: int,
)
    requires
        0 <= i < events_for(kind, text, paths).len(),
    ensures
        match events_for(kind, text, paths)[i] {
            FileEventView::Changed { path, .. } => !ignored(path) && !is_removal(kind),
            FileEventView::Removed { path } => !ignored(path) && is_removal(kind),
            FileEventView::Rescan => false,
        },
    decreases paths.len(),
{
    let before = events_for(kind, text, paths.drop_last());
    if i < before.len() {
        lemma_events_are_not_ignored(kind, text, paths.drop_last(), i);
    }
}

/// Every path that is not ignored reaches the daemon.
pub proof fn law_every_other_path_is_reported(event: RawEvent, j: int)
    requires
        !event.need_rescan,
        0 <= j < event.paths@.len(),
        !ignored(event.paths@[j]@),
    ensures
        routed(event).contains(event_for(event.kind, event.kind_text@, event.paths@[j]@)),
{
    lemma_path_has_event(event.kind, event.kind_text@, event.paths@, j);
}

/// A path that is not ignored has its event.
proof fn lemma_path_has_event(kind: RawKind, text: Seq<char>, paths: Seq<FilePath>, j: int)
    requires
        0 <= j < paths.len(),
        !ignored(paths[j]@),
    ensures
        events_for(kind, text, paths).contains(event_for(kind, text, paths[j]@)),
    decreases paths.len(),
{
    let all = events_for(kind, text, paths);
    let before = events_for(kind, text, paths.drop_last());
    let wanted = event_for(kind, text, paths[j]@);
    if j < paths.len() - 1 {
        lemma_path_has_event(kind, text, paths.drop_last(), j);
        let i = choose|i: int| 0 <= i < before.len() && before[i] == wanted;
        assert(all[i] == wanted);
    } else {
        assert(all[before.len() as int] == wanted);
    }
}

/// What lies below an ignored path is ignored.
pub proof fn law_ignored_goes_down(path: Seq<char>, base: Seq<char>)
    requires
        crate::paths::is_under(path, base),
        ignored(base),
    ensures
        ignored(path),
{
    let i = choose|i: int|
        0 <= i < components(base).len() && ignored_name(#[trigger] components(base)[i]);
    assert(components(path)[i] == components(base)[i]);
}

/// A path is ignored exactly where one of its components is the name of a directory of
/// a tool, or starts like the names of the temporary directories of `pytest`.
pub proof fn law_tool_directories_are_ignored(path: Seq<char>)
    ensures
        ignored(path) == exists|i: int|
            0 <= i < components(path).len() && (seq![
                ".git"@,
                ".pulci"@,
                ".ruff_cache"@,
                ".pytest_cache"@,
                "__pycache__"@,
                "node_modules"@,
                ".venv"@,
                "target"@,
            ].contains(#[trigger] components(path)[i]) || "pytest-cache-files-"@.is_prefix_of(
                components(path)[i],
            )),
{
    let names = seq![
        ".git"@,
        ".pulci"@,
        ".ruff_cache"@,
        ".pytest_cache"@,
        "__pycache__"@,
        "node_modules"@,
        ".venv"@,
        "target"@,
    ];
    let parts = components(path);
    assert forall|i: int| 0 <= i < parts.len() implies (ignored_name(#[trigger] parts[i]) == (
    names.contains(parts[i]) || "pytest-cache-files-"@.is_prefix_of(parts[i]))) by {
        let c = parts[i];
        if ignored_name(c) && !"pytest-cache-files-"@.is_prefix_of(c) {
            let k: int = if c == ".git"@ {
                0
            } else if c == ".pulci"@ {
                1
            } else if c == ".ruff_cache"@ {
                2
            } else if c == ".pytest_cache"@ {
                3
            } else if c == "__pycache__"@ {
                4
            } else if c == "node_modules"@ {
                5
            } else if c == ".venv"@ {
                6
            } else {
                7
            };
            assert(names[k] == c);
        }
    }
    if ignored(path) {
        let i = choose|i: int| 0 <= i < parts.len() && ignored_name(#[trigger] parts[i]);
        assert(names.contains(parts[i]) || "pytest-cache-files-"@.is_prefix_of(parts[i]));
    }
}

/// The test for paths that are not ignored.
pub open spec fn not_ignored() -> spec_fn(FilePath) -> bool {
    |p: FilePath| !ignored(p@)
}

/// The events of some paths, by filter.
proof fn lemma_events_by_filter(
    kind: RawKind,
    text: Seq<char>,
    paths: Seq<FilePath>,
    f: spec_fn(FilePath) -> FileEventView,
)
    requires
        forall|p: FilePath| #[trigger] f(p) == event_for(kind, text, p@),
    ensures
        events_for(kind, text, paths) == paths.filter(not_ignored()).map_values(f),
    decreases paths.len(),
{
    if paths.len() == 0 {
        crate::sorting::lemma_choose_none(paths, not_ignored(), f);
    } else {
        lemma_events_by_filter(kind, text, paths.drop_last(), f);
        crate::sorting::lemma_choose_push(paths.drop_last(), paths.last(), not_ignored(), f);
        assert(paths.drop_last().push(paths.last()) =~= paths);
    }
}

/// Each path that is not ignored gives one event, in order: that it is gone where it
/// was deleted or renamed away, else that it has changed. Where events were lost there
/// is one request for a new scan and nothing else.
pub proof fn law_each_path_gives_one_event(event: RawEvent)
    ensures
        event.need_rescan ==> routed(event) == seq![FileEventView::Rescan],
        !event.need_rescan && (event.kind is Remove || event.kind == RawKind::Modify(
            Modification::Name(RenameStep::From),
        )) ==> routed(event) == event.paths@.filter(not_ignored()).map_values(
            |p: FilePath| FileEventView::Removed { path: p@ },
        ),
        !event.need_rescan && !(event.kind is Remove || event.kind == RawKind::Modify(
            Modification::Name(RenameStep::From),
        )) ==> routed(event) == event.paths@.filter(not_ignored()).map_values(
            |p: FilePath| FileEventView::Changed { path: p@, kind: event.kind_text@ },
        ),
{
    if !event.need_rescan {
        if is_removal(event.kind) {
            lemma_events_by_filter(
                event.kind,
                event.kind_text@,
                event.paths@,
                |p: FilePath| FileEventView::Removed { path: p@ },
            );
        } else {
            lemma_events_by_filter(
                event.kind,
                event.kind_text@,
                event.paths@,
                |p: FilePath| FileEventView::Changed { path: p@, kind: event.kind_text@ },
            );
        }
    }
}

/// What events say is said of each, one for one.
pub proof fn law_event_views_are_complete(v: Seq<FileEvent>, i: int)
    requires
        0 <= i < v.len(),
    ensures
        event_views(v).len() == v.len(),
        match v[i] {
            FileEvent::Changed { path, kind } => event_views(v)[i] == (FileEventView::Changed {
                path: path@,
                kind: kind@,
            }),
            FileEvent::Removed { path } => event_views(v)[i] == (FileEventView::Removed {
                path: path@,
            }),
            FileEvent::Rescan => event_views(v)[i] is Rescan,
        },
{
}

} // verus!
