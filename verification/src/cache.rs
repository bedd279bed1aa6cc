//! Which files have changed since they were last seen.

use vstd::prelude::*;
use crate::event_trace::{CacheDecision, EventRecord};
use crate::pathmap::{PathKey, PathMap};
use crate::paths::{components, path_texts, FilePath};

verus! {

/// What a file looked like: when it was modified, in nanoseconds since 1970, and
/// how many bytes it has.
#[derive(Debug, Clone, Copy, PartialEq, Eq, Structural)]
pub struct FileStamp {
    pub mtime_ns: i128,
    pub size: u64,
}

impl View for FileStamp {
    type V = FileStamp;

    open spec fn view(&self) -> FileStamp {
        *self
    }
}

/// Remembers what files looked like. The system can report one save several
/// times; the tools only run when a file differs.
#[derive(Debug)]
pub struct FileCache {
    pub entries: PathMap<FileStamp>,
}

impl View for FileCache {
    type V = Map<PathKey, FileStamp>;

    open spec fn view(&self) -> Map<PathKey, FileStamp> {
        self.entries@
    }
}

/// What looking at a file gave.
#[derive(Debug)]
pub struct CacheOutcome {
    pub changed: bool,
    pub decision: CacheDecision,
    pub prev: Option<FileStamp>,
    pub curr: Option<FileStamp>,
}

/// What is remembered of a file.
pub open spec fn remembered(m: Map<PathKey, FileStamp>, c: PathKey) -> Option<FileStamp> {
    if m.contains_key(c) {
        Some(m[c])
    } else {
        None
    }
}

/// Whether a file differs from what is remembered. One that was never seen does,
/// and so does one that cannot be examined.
pub open spec fn differs(
    m: Map<PathKey, FileStamp>,
    c: PathKey,
    current: Option<FileStamp>,
) -> bool {
    current is None || remembered(m, c) != current
}

/// What is remembered after looking at a file.
pub open spec fn after_look(
    m: Map<PathKey, FileStamp>,
    c: PathKey,
    current: Option<FileStamp>,
) -> Map<PathKey, FileStamp> {
    match current {
        Some(s) => m.insert(c, s),
        None => m.remove(c),
    }
}

/// What the cache found.
pub open spec fn decision(prev: Option<FileStamp>, current: Option<FileStamp>) -> CacheDecision {
    if current is None {
        CacheDecision::Missing
    } else if prev is None {
        CacheDecision::Unseen
    } else if prev != current {
        CacheDecision::Changed
    } else {
        CacheDecision::Filtered
    }
}

/// A time in nanoseconds since 1970 as it is traced: not where it is before that.
pub open spec fn traced_ns(ns: i128) -> Option<u128> {
    if ns >= 0 {
        Some(ns as u128)
    } else {
        None
    }
}

/// The traced time of a stamp.
pub open spec fn stamp_ns(s: Option<FileStamp>) -> Option<u128> {
    match s {
        Some(t) => traced_ns(t.mtime_ns),
        None => None,
    }
}

/// The size of a stamp.
pub open spec fn stamp_size(s: Option<FileStamp>) -> Option<u64> {
    match s {
        Some(t) => Some(t.size),
        None => None,
    }
}

/// What is remembered after looking at several files in turn.
pub open spec fn after_looks(
    m: Map<PathKey, FileStamp>,
    files: Seq<(FilePath, Option<FileStamp>)>,
) -> Map<PathKey, FileStamp>
    decreases files.len(),
{
    if files.len() == 0 {
        m
    } else {
        after_look(
            after_looks(m, files.drop_last()),
            components(files.last().0@),
            files.last().1,
        )
    }
}

/// The files that differ when each is looked at in turn.
pub open spec fn differing(
    m: Map<PathKey, FileStamp>,
    files: Seq<(FilePath, Option<FileStamp>)>,
) -> Seq<Seq<char>>
    decreases files.len(),
{
    if files.len() == 0 {
        Seq::empty()
    } else {
        let rest = files.drop_last();
        let last = files.last();
        if differs(after_looks(m, rest), components(last.0@), last.1) {
            differing(m, rest).push(last.0@)
        } else {
            differing(m, rest)
        }
    }
}

/// Whether `o` is what looking at one file gives.
pub open spec fn is_outcome(
    m: Map<PathKey, FileStamp>,
    file: (FilePath, Option<FileStamp>),
    o: CacheOutcome,
) -> bool {
    &&& o.changed == differs(m, components(file.0@), file.1)
    &&& o.prev == remembered(m, components(file.0@))
    &&& o.curr == file.1
    &&& o.decision == decision(o.prev, o.curr)
}

/// Whether `outcomes` are what looking at several files in turn gives.
pub open spec fn are_outcomes(
    m: Map<PathKey, FileStamp>,
    files: Seq<(FilePath, Option<FileStamp>)>,
    outcomes: Seq<CacheOutcome>,
) -> bool {
    outcomes.len() == files.len() && forall|i: int|
        0 <= i < files.len() ==> is_outcome(
            after_looks(m, files.take(i)),
            files[i],
            #[trigger] outcomes[i],
        )
}

/// A time as it is traced.
pub(crate) fn trace_ns(ns: i128) -> (r: Option<u128>)
    ensures
        r == traced_ns(ns),
{
    if ns >= 0 {
        Some(ns as u128)
    } else {
        None
    }
}

/// The time of a stamp for the trace.
fn ns_of(s: &Option<FileStamp>) -> (r: Option<u128>)
    ensures
        r == stamp_ns(*s),
{
    match s {
        Some(t) => trace_ns(t.mtime_ns),
        None => None,
    }
}

/// The size of a stamp for the trace.
fn size_of_stamp(s: &Option<FileStamp>) -> (r: Option<u64>)
    ensures
        r == stamp_size(*s),
{
    match s {
        Some(t) => Some(t.size),
        None => None,
    }
}

impl CacheOutcome {
    /// The record of this outcome for the trace.
    pub fn record(&self, ts_ns: u128, path: FilePath) -> (r: EventRecord)
        ensures
            r == (EventRecord::Cache {
                ts_ns,
                path,
                decision: self.decision,
                prev_mtime_ns: stamp_ns(self.prev),
                curr_mtime_ns: stamp_ns(self.curr),
                prev_size: stamp_size(self.prev),
                curr_size: stamp_size(self.curr),
                batch_id: None,
            }),
    {
        EventRecord::Cache {
            ts_ns,
            path,
            decision: self.decision,
            prev_mtime_ns: ns_of(&self.prev),
            curr_mtime_ns: ns_of(&self.curr),
            prev_size: size_of_stamp(&self.prev),
            curr_size: size_of_stamp(&self.curr),
            batch_id: None,
        }
    }
}

impl FileCache {
    /// Whether no file stands in it twice.
    pub open spec fn wf(&self) -> bool {
        self.entries.wf()
    }

    /// A cache that has seen no file.
    pub fn new() -> (r: FileCache)
        ensures
            r.wf(),
            r@ == Map::<PathKey, FileStamp>::empty(),
    {
        FileCache { entries: PathMap::new() }
    }

    /// Looks at a file, given what it looks like now, and remembers it. A file
    /// that cannot be examined is forgotten.
    pub fn look(&mut self, path: &FilePath, current: Option<FileStamp>) -> (r: CacheOutcome)
        requires
            old(self).wf(),
        ensures
            final(self).wf(),
            final(self)@ == after_look(old(self)@, components(path@), current),
            is_outcome(old(self)@, (*path, current), r),
    {
        let ghost c = components(path@);
        let ghost before = self@;
        let prev: Option<FileStamp> = match self.entries.get(path) {
            Some(s) => Some(*s),
            None => None,
        };
        match current {
            None => {
                let _gone = self.entries.take(path);
                CacheOutcome { changed: true, decision: CacheDecision::Missing, prev, curr: None }
            },
            Some(now) => {
                match prev {
                    None => {
                        self.entries.put(path.clone(), now);
                        CacheOutcome {
                            changed: true,
                            decision: CacheDecision::Unseen,
                            prev,
                            curr: current,
                        }
                    },
                    Some(then_was) => {
                        let changed = then_was.mtime_ns != now.mtime_ns || then_was.size
                            != now.size;
                        if changed {
                            self.entries.put(path.clone(), now);
                            CacheOutcome {
                                changed,
                                decision: CacheDecision::Changed,
                                prev,
                                curr: current,
                            }
                        } else {
                            assert(before.insert(c, now) =~= before);
                            CacheOutcome {
                                changed,
                                decision: CacheDecision::Filtered,
                                prev,
                                curr: current,
                            }
                        }
                    },
                }
            },
        }
    }

    /// Whether a file differs from when it was last seen.
    pub fn has_changed(&mut self, path: &FilePath, current: Option<FileStamp>) -> (r: bool)
        requires
            old(self).wf(),
        ensures
            final(self).wf(),
            final(self)@ == after_look(old(self)@, components(path@), current),
            r == differs(old(self)@, components(path@), current),
    {
        self.look(path, current).changed
    }

    /// Looks at several files in turn.
    pub fn look_all(&mut self, files: &Vec<(FilePath, Option<FileStamp>)>) -> (r: Vec<CacheOutcome>)
        requires
            old(self).wf(),
        ensures
            final(self).wf(),
            final(self)@ == after_looks(old(self)@, files@),
            are_outcomes(old(self)@, files@, r@),
    {
        let ghost start = self@;
        let mut out: Vec<CacheOutcome> = Vec::new();
        let mut i: usize = 0;
        assert(files@.take(0) =~= Seq::empty());
        while i < files.len()
            invariant
                i <= files@.len(),
                self.wf(),
                self@ == after_looks(start, files@.take(i as int)),
                out@.len() == i,
                forall|k: int|
                    0 <= k < i ==> is_outcome(
                        after_looks(start, files@.take(k)),
                        files@[k],
                        #[trigger] out@[k],
                    ),
            decreases files@.len() - i,
        {
            assert(files@.take(i + 1).drop_last() =~= files@.take(i as int));
            let outcome = self.look(&files[i].0, files[i].1);
            let ghost before = out@;
            out.push(outcome);
            proof {
                assert forall|k: int| 0 <= k < i + 1 implies is_outcome(
                    after_looks(start, files@.take(k)),
                    files@[k],
                    #[trigger] out@[k],
                ) by {
                    if k < i {
                        assert(out@[k] == before[k]);
                    }
                }
            }
            i += 1;
        }
        assert(files@.take(i as int) =~= files@);
        out
    }

    /// The files that differ from when they were last seen, in order.
    pub fn filter_changed(&mut self, files: &Vec<(FilePath, Option<FileStamp>)>) -> (r: Vec<
        FilePath,
    >)
        requires
            old(self).wf(),
        ensures
            final(self).wf(),
            final(self)@ == after_looks(old(self)@, files@),
            path_texts(r@) == differing(old(self)@, files@),
    {
        let ghost start = self@;
        let outcomes = self.look_all(files);
        changed_files(files, &outcomes, Ghost(start))
    }
}

/// The files whose outcome is that they differ.
pub(crate) fn changed_files(
    files: &Vec<(FilePath, Option<FileStamp>)>,
    outcomes: &Vec<CacheOutcome>,
    start: Ghost<Map<PathKey, FileStamp>>,
) -> (r: Vec<FilePath>)
    requires
        are_outcomes(start@, files@, outcomes@),
    ensures
        path_texts(r@) == differing(start@, files@),
{
    let mut out: Vec<FilePath> = Vec::new();
    let mut i: usize = 0;
    assert(path_texts(out@) =~= Seq::empty());
    while i < files.len()
        invariant
            i <= files@.len(),
            are_outcomes(start@, files@, outcomes@),
            path_texts(out@) == differing(start@, files@.take(i as int)),
        decreases files@.len() - i,
    {
        assert(files@.take(i + 1).drop_last() =~= files@.take(i as int));
        assert(is_outcome(
            after_looks(start@, files@.take(i as int)),
            files@[i as int],
            outcomes@[i as int],
        ));
        if outcomes[i].changed {
            let ghost before = out@;
            out.push(files[i].0.clone());
            assert(path_texts(out@) =~= path_texts(before).push(files@[i as int].0@));
        }
        i += 1;
    }
    assert(files@.take(i as int) =~= files@);
    out
}

impl Default for FileCache {
    fn default() -> (r: FileCache)
        ensures
            r.wf(),
            r@ == Map::<PathKey, FileStamp>::empty(),
    {
        FileCache::new()
    }
}

// ---------------------------------------------------------------------------
// Laws
// ---------------------------------------------------------------------------

/// A file that has not been touched is not reported twice.
pub proof fn law_untouched_file_is_filtered(
    m: Map<PathKey, FileStamp>,
    c: PathKey,
    stamp: FileStamp,
)
    ensures
        !differs(after_look(m, c, Some(stamp)), c, Some(stamp)),
{
}

/// A file is reported when its size or its time of modification has changed.
pub proof fn law_touched_file_is_reported(
    m: Map<PathKey, FileStamp>,
    c: PathKey,
    before: FileStamp,
    now: FileStamp,
)
    requires
        before.size != now.size || before.mtime_ns != now.mtime_ns,
    ensures
        differs(after_look(m, c, Some(before)), c, Some(now)),
{
}

/// A file that could not be examined is reported, and reported again when it is
/// back.
pub proof fn law_missing_file_is_forgotten(
    m: Map<PathKey, FileStamp>,
    c: PathKey,
    now: Option<FileStamp>,
)
    ensures
        differs(m, c, None),
        differs(after_look(m, c, None), c, now),
{
}

/// Looking at one file says nothing of the others.
pub proof fn law_look_touches_one_file(
    m: Map<PathKey, FileStamp>,
    c: PathKey,
    current: Option<FileStamp>,
    other: PathKey,
    seen: Option<FileStamp>,
)
    requires
        other != c,
    ensures
        differs(after_look(m, c, current), other, seen) == differs(m, other, seen),
{
}

/// A file differs exactly where it cannot be examined, was not remembered, or has
/// another time of modification or another size than what is remembered.
pub proof fn law_file_differs_by_time_or_size(
    m: Map<PathKey, FileStamp>,
    c: PathKey,
    current: Option<FileStamp>,
)
    ensures
        differs(m, c, current) == (current is None || !m.contains_key(c) || m[c].mtime_ns
            != current->0.mtime_ns || m[c].size != current->0.size),
{
    if let Some(s) = current {
        if m.contains_key(c) && m[c].mtime_ns == s.mtime_ns && m[c].size == s.size {
            assert(m[c] == s);
        }
    }
}

/// A file is remembered as it looked the last time, and forgotten if it could not be
/// examined then.
pub proof fn law_last_look_is_remembered(
    m: Map<PathKey, FileStamp>,
    files: Seq<(FilePath, Option<FileStamp>)>,
    k: int,
)
    requires
        0 <= k < files.len(),
        forall|j: int|
            k < j < files.len() ==> components((#[trigger] files[j]).0@) != components(files[k].0@),
    ensures
        ({
            let c = components(files[k].0@);
            let after = after_looks(m, files);
            &&& after.contains_key(c) == (files[k].1 is Some)
            &&& files[k].1 matches Some(s) ==> after[c] == s
        }),
    decreases files.len(),
{
    let rest = files.drop_last();
    if k < files.len() - 1 {
        assert(rest[k] == files[k]);
        assert forall|j: int| k < j < rest.len() implies components((#[trigger] rest[j]).0@)
            != components(rest[k].0@) by {
            assert(rest[j] == files[j]);
        }
        law_last_look_is_remembered(m, rest, k);
        assert(components(files[files.len() - 1].0@) != components(files[k].0@));
    }
}

/// A file that is not looked at stays as it was.
pub proof fn law_other_files_stay_remembered(
    m: Map<PathKey, FileStamp>,
    files: Seq<(FilePath, Option<FileStamp>)>,
    c: PathKey,
)
    requires
        forall|j: int| 0 <= j < files.len() ==> components((#[trigger] files[j]).0@) != c,
    ensures
        after_looks(m, files).contains_key(c) == m.contains_key(c),
        m.contains_key(c) ==> after_looks(m, files)[c] == m[c],
    decreases files.len(),
{
    if files.len() > 0 {
        let rest = files.drop_last();
        assert forall|j: int| 0 <= j < rest.len() implies components((#[trigger] rest[j]).0@)
            != c by {
            assert(rest[j] == files[j]);
        }
        law_other_files_stay_remembered(m, rest, c);
        assert(components(files[files.len() - 1].0@) != c);
    }
}

/// The test for the indices of files that differ from what is remembered after the
/// looks before them.
pub open spec fn differs_at(
    m: Map<PathKey, FileStamp>,
    files: Seq<(FilePath, Option<FileStamp>)>,
) -> spec_fn(int) -> bool {
    |i: int| differs(after_looks(m, files.take(i)), components(files[i].0@), files[i].1)
}

/// Of the first files, those that differ are listed.
proof fn lemma_differing_prefix(
    m: Map<PathKey, FileStamp>,
    files: Seq<(FilePath, Option<FileStamp>)>,
    n: nat,
    f: spec_fn(int) -> Seq<char>,
)
    requires
        n <= files.len(),
        forall|i: int| #[trigger] f(i) == files[i].0@,
    ensures
        differing(m, files.take(n as int)) == Seq::new(n, |i: int| i).filter(
            differs_at(m, files),
        ).map_values(f),
    decreases n,
{
    let p = differs_at(m, files);
    let all = Seq::new(n, |i: int| i);
    if n == 0 {
        crate::sorting::lemma_choose_none(all, p, f);
    } else {
        let k = (n - 1) as nat;
        let front = Seq::new(k, |i: int| i);
        lemma_differing_prefix(m, files, k, f);
        assert(all =~= front.push(k as int));
        crate::sorting::lemma_choose_push(front, k as int, p, f);
        assert(files.take(n as int).drop_last() =~= files.take(k as int));
    }
}

/// The files that differ, each from what is remembered after the looks before it, are
/// listed in order: all of them, and no others.
pub proof fn law_every_changed_file_is_listed(
    m: Map<PathKey, FileStamp>,
    files: Seq<(FilePath, Option<FileStamp>)>,
)
    ensures
        differing(m, files) == Seq::new(files.len(), |i: int| i).filter(
            differs_at(m, files),
        ).map_values(|i: int| files[i].0@),
        differing(m, files).len() == Seq::new(files.len(), |i: int| i).filter(
            |i: int| differs(after_looks(m, files.take(i)), components(files[i].0@), files[i].1),
        ).len(),
{
    let f = |i: int| files[i].0@;
    lemma_differing_prefix(m, files, files.len(), f);
    assert(files.take(files.len() as int) =~= files);
}

/// A path is listed exactly where a file of that path differs from what is remembered
/// after the looks before it.
pub proof fn law_listed_files_are_the_changed_ones(
    m: Map<PathKey, FileStamp>,
    files: Seq<(FilePath, Option<FileStamp>)>,
    p: Seq<char>,
)
    ensures
        differing(m, files).contains(p) == exists|i: int|
            0 <= i < files.len() && (#[trigger] files[i]).0@ == p && differs(
                after_looks(m, files.take(i)),
                components(p),
                files[i].1,
            ),
    decreases files.len(),
{
    let all = differing(m, files);
    if files.len() > 0 {
        let rest = files.drop_last();
        let before = differing(m, rest);
        let n = files.len() - 1;
        law_listed_files_are_the_changed_ones(m, rest, p);
        assert(files.take(n) =~= rest);
        if all.contains(p) {
            let k = choose|k: int| 0 <= k < all.len() && all[k] == p;
            if k < before.len() {
                assert(before[k] == p);
                let i = choose|i: int|
                    0 <= i < rest.len() && (#[trigger] rest[i]).0@ == p && differs(
                        after_looks(m, rest.take(i)),
                        components(p),
                        rest[i].1,
                    );
                assert(rest.take(i) =~= files.take(i));
                assert(files[i].0@ == p);
            } else {
                assert(files[n].0@ == p);
            }
        }
        if exists|i: int|
            0 <= i < files.len() && (#[trigger] files[i]).0@ == p && differs(
                after_looks(m, files.take(i)),
                components(p),
                files[i].1,
            ) {
            let i = choose|i: int|
                0 <= i < files.len() && (#[trigger] files[i]).0@ == p && differs(
                    after_looks(m, files.take(i)),
                    components(p),
                    files[i].1,
                );
            if i < n {
                assert(rest.take(i) =~= files.take(i));
                assert(rest[i].0@ == p);
                let k = choose|k: int| 0 <= k < before.len() && before[k] == p;
                assert(all[k] == p);
            } else {
                assert(all[all.len() - 1] == p);
            }
        }
    }
}

/// What is found of a file follows from what was remembered and what it looks like.
pub proof fn law_found_by_what_was_remembered(prev: Option<FileStamp>, current: Option<FileStamp>)
    ensures
        decision(prev, current) is Missing == (current is None),
        decision(prev, current) is Unseen == (current is Some && prev is None),
        decision(prev, current) is Filtered == (current is Some && prev is Some
            && prev->0.mtime_ns == current->0.mtime_ns && prev->0.size == current->0.size),
        decision(prev, current) is Changed == (current is Some && prev is Some
            && (prev->0.mtime_ns != current->0.mtime_ns || prev->0.size != current->0.size)),
{
    if prev is Some && current is Some && prev->0.mtime_ns == current->0.mtime_ns && prev->0.size
        == current->0.size {
        assert(prev->0 == current->0);
    }
}

/// A trace holds the size of every stamp, and its time unless that is before 1970.
pub proof fn law_stamps_are_traced(s: FileStamp)
    ensures
        stamp_size(Some(s)) == Some(s.size),
        stamp_size(None) is None,
        stamp_ns(None) is None,
        (stamp_ns(Some(s)) is Some) == (s.mtime_ns >= 0),
        s.mtime_ns >= 0 ==> stamp_ns(Some(s))->0 == s.mtime_ns,
{
}

/// The outcome of a look tells what was remembered before, what the file looks like,
/// and whether these differ; the outcomes of several looks tell it of each in turn.
pub proof fn law_outcomes_tell_what_was_found(
    m: Map<PathKey, FileStamp>,
    files: Seq<(FilePath, Option<FileStamp>)>,
    outcomes: Seq<CacheOutcome>,
    i: int,
)
    requires
        are_outcomes(m, files, outcomes),
        0 <= i < files.len(),
    ensures
        outcomes.len() == files.len(),
        ({
            let known = after_looks(m, files.take(i));
            let c = components(files[i].0@);
            &&& outcomes[i].curr == files[i].1
            &&& (outcomes[i].prev is Some) == known.contains_key(c)
            &&& known.contains_key(c) ==> outcomes[i].prev->0 == known[c]
            &&& outcomes[i].changed == (files[i].1 is None || !known.contains_key(c) || known[c]
                != files[i].1->0)
            &&& outcomes[i].changed == !(outcomes[i].decision is Filtered)
            &&& outcomes[i].decision == decision(outcomes[i].prev, outcomes[i].curr)
        }),
{
    assert(is_outcome(after_looks(m, files.take(i)), files[i], outcomes[i]));
}

} // verus!
