//! The live view of a project: the diagnostics of every file that was checked.

use vstd::prelude::*;
use crate::pathmap::{key_set, keys_of, PathKey, PathMap};
use crate::hooks::{Diagnostic, Place};
use crate::paths::{components, components_before, FilePath};
use crate::sorting::{lemma_sorted_empty, lemma_sorted_unique, ordered, stably_sorted, with_key, Ranked};
use crate::state::{insert_all, State};

verus! {

/// Diagnostics by file. A file without diagnostics was checked and is clean; a
/// file that is absent was never checked, or is gone.
#[derive(Debug)]
pub struct Accumulator {
    pub files: PathMap<Vec<Diagnostic>>,
}

impl View for Accumulator {
    type V = Map<PathKey, Seq<Diagnostic>>;

    open spec fn view(&self) -> Map<PathKey, Seq<Diagnostic>> {
        self.files@
    }
}

// ---------------------------------------------------------------------------
// What the operations mean
// ---------------------------------------------------------------------------

/// The diagnostics of the file `c`, in order.
pub open spec fn of_file(v: Seq<Diagnostic>, c: PathKey) -> Seq<Diagnostic> {
    v.filter(|d: Diagnostic| components(d.file@) == c)
}

/// Whether one of the diagnostics is about the file `c`.
pub open spec fn mentions(v: Seq<Diagnostic>, c: PathKey) -> bool {
    exists|i: int| 0 <= i < v.len() && components((#[trigger] v[i]).file@) == c
}

/// Diagnostics grouped by file.
pub open spec fn grouped(v: Seq<Diagnostic>) -> Map<PathKey, Seq<Diagnostic>> {
    Map::new(|c: PathKey| mentions(v, c), |c: PathKey| of_file(v, c))
}

/// The diagnostics of some files, one file after the other.
pub open spec fn in_order(m: Map<PathKey, Seq<Diagnostic>>, keys: Seq<PathKey>) -> Seq<Diagnostic>
    decreases keys.len(),
{
    if keys.len() == 0 {
        Seq::empty()
    } else {
        in_order(m, keys.drop_last()) + m[keys.last()]
    }
}

/// Whether `keys` lists the files of a map, each once.
pub open spec fn lists(m: Map<PathKey, Seq<Diagnostic>>, keys: Seq<PathKey>) -> bool {
    keys.no_duplicates() && m.dom() == keys.to_set()
}

/// Whether `out` is all the diagnostics of a map, sorted. Files come in any order
/// before sorting.
pub open spec fn is_snapshot(m: Map<PathKey, Seq<Diagnostic>>, out: Seq<Diagnostic>) -> bool {
    exists|keys: Seq<PathKey>| #[trigger] lists(m, keys) && stably_sorted(in_order(m, keys), out)
}

/// Whether every diagnostic stands under its own file.
pub open spec fn filed(m: Map<PathKey, Seq<Diagnostic>>) -> bool {
    forall|c: PathKey, i: int|
        m.contains_key(c) && 0 <= i < m[c].len() ==> components((#[trigger] m[c][i]).file@) == c
}

/// What is known of a file; nothing where it was never mentioned.
pub open spec fn at_or_empty(m: Map<PathKey, Seq<Diagnostic>>, c: PathKey) -> Seq<Diagnostic> {
    if m.contains_key(c) {
        m[c]
    } else {
        Seq::empty()
    }
}

/// The map with `d` added to what is known of its file.
pub open spec fn added(m: Map<PathKey, Seq<Diagnostic>>, d: Diagnostic) -> Map<
    PathKey,
    Seq<Diagnostic>,
> {
    let c = components(d.file@);
    m.insert(c, at_or_empty(m, c).push(d))
}

/// Adds a diagnostic to those of its file.
pub fn add_diagnostic(files: &mut PathMap<Vec<Diagnostic>>, d: Diagnostic)
    requires
        old(files).wf(),
    ensures
        final(files).wf(),
        final(files)@ == added(old(files)@, d),
{
    let ghost before = files@;
    let path = d.file.clone();
    let mut list = match files.take(&path) {
        Some(list) => list,
        None => Vec::new(),
    };
    assert(list@ =~= at_or_empty(before, components(path@)));
    list.push(d);
    assert(before.remove(components(path@)).insert(components(path@), list@) =~= added(before, d));
    files.put(path, list);
}

impl Accumulator {
    /// Whether no file stands in it twice.
    pub open spec fn wf(&self) -> bool {
        self.files.wf()
    }

    /// An accumulator that has seen no file.
    pub fn new() -> (r: Accumulator)
        ensures
            r.wf(),
            r@ == Map::<PathKey, Seq<Diagnostic>>::empty(),
    {
        Accumulator { files: PathMap::new() }
    }

    /// Rebuilds an accumulator from a published state, so that it survives a
    /// restart.
    pub fn from_state(prev: &State) -> (r: Accumulator)
        ensures
            r.wf(),
            r@ == grouped(prev.diagnostics@),
    {
        let mut files: PathMap<Vec<Diagnostic>> = PathMap::new();
        let ghost all = prev.diagnostics@;
        let mut i: usize = 0;
        assert(grouped(all.take(0)) =~= Map::empty());
        while i < prev.diagnostics.len()
            invariant
                i <= prev.diagnostics@.len(),
                all == prev.diagnostics@,
                files.wf(),
                files@ == grouped(all.take(i as int)),
            decreases prev.diagnostics@.len() - i,
        {
            proof {
                lemma_grouped_push(all.take(i as int), all[i as int]);
                assert(all.take(i + 1) =~= all.take(i as int).push(all[i as int]));
            }
            add_diagnostic(&mut files, prev.diagnostics[i].clone());
            i += 1;
        }
        assert(all.take(i as int) =~= all);
        Accumulator { files }
    }

    /// Sets the diagnostics of a file. Without any, the file is known to be clean.
    pub fn update(&mut self, path: FilePath, diagnostics: Vec<Diagnostic>)
        requires
            old(self).wf(),
        ensures
            final(self).wf(),
            final(self)@ == old(self)@.insert(components(path@), diagnostics@),
    {
        self.files.put(path, diagnostics);
    }

    /// Forgets a file.
    pub fn remove(&mut self, path: &FilePath)
        requires
            old(self).wf(),
        ensures
            final(self).wf(),
            final(self)@ == old(self)@.remove(components(path@)),
    {
        let _gone = self.files.take(path);
    }

    /// Forgets every file that is not in `current_files`.
    pub fn reconcile_with(&mut self, current_files: &Vec<FilePath>)
        requires
            old(self).wf(),
        ensures
            final(self).wf(),
            final(self)@ == old(self)@.restrict(key_set(current_files@)),
    {
        self.files.keep_only(current_files);
    }

    /// All diagnostics, sorted by file, line and column.
    pub fn snapshot(&self) -> (r: Vec<Diagnostic>)
        requires
            self.wf(),
        ensures
            is_snapshot(self@, r@),
    {
        let mut out: Vec<Diagnostic> = Vec::new();
        let ghost e = self.files.entries@;
        let ghost keys = keys_of(e);
        let mut i: usize = 0;
        proof {
            lemma_sorted_empty::<Diagnostic>();
            assert(in_order(self@, keys.take(0)) =~= Seq::empty());
        }
        while i < self.files.entries.len()
            invariant
                i <= self.files.entries@.len(),
                self.wf(),
                e == self.files.entries@,
                keys == keys_of(e),
                stably_sorted(in_order(self@, keys.take(i as int)), out@),
            decreases self.files.entries@.len() - i,
        {
            proof {
                crate::pathmap::lemma_at(e, i as int);
                assert(keys.take(i + 1).drop_last() =~= keys.take(i as int));
                assert(keys.take(i + 1).last() == components(e[i as int].path@));
            }
            insert_all(
                &mut out,
                &self.files.entries[i].value,
                Ghost(in_order(self@, keys.take(i as int))),
            );
            i += 1;
        }
        proof {
            assert(keys.take(i as int) =~= keys);
            assert(self@.dom() =~= keys.to_set());
            assert(lists(self@, keys));
        }
        out
    }

    /// The number of files, clean ones included.
    pub fn files_tracked(&self) -> (r: usize)
        requires
            self.wf(),
        ensures
            self@.dom().finite(),
            r == self@.dom().len(),
    {
        self.files.count()
    }
}

impl Default for Accumulator {
    fn default() -> (r: Accumulator)
        ensures
            r.wf(),
            r@ == Map::<PathKey, Seq<Diagnostic>>::empty(),
    {
        Accumulator::new()
    }
}

// ---------------------------------------------------------------------------
// Laws
// ---------------------------------------------------------------------------

/// One more diagnostic joins the group of its file.
proof fn lemma_grouped_push(v: Seq<Diagnostic>, d: Diagnostic)
    ensures
        grouped(v.push(d)) == added(grouped(v), d),
{
    let c = components(d.file@);
    let left = grouped(v.push(d));
    let right = added(grouped(v), d);
    assert forall|q: PathKey| #[trigger] left.contains_key(q) == right.contains_key(q) by {
        let w = v.push(d);
        if mentions(w, q) {
            let i = choose|i: int| 0 <= i < w.len() && components((#[trigger] w[i]).file@) == q;
            if i < v.len() {
                assert(components(v[i].file@) == q);
            }
        }
        if mentions(v, q) {
            let i = choose|i: int| 0 <= i < v.len() && components((#[trigger] v[i]).file@) == q;
            assert(components(w[i].file@) == q);
        }
        if q == c {
            assert(components(w[v.len() as int].file@) == q);
        }
    }
    assert forall|q: PathKey| #[trigger] left.contains_key(q) implies left[q] == right[q] by {
        let p = |x: Diagnostic| components(x.file@) == q;
        v.lemma_filter_push(d, p);
        if !mentions(v, q) {
            assert forall|i: int| 0 <= i < v.len() implies !p(#[trigger] v[i]) by {}
            crate::sorting::lemma_filter_none(v, p);
        }
    }
    assert(left =~= right);
}

/// What stands at a place in the diagnostics of some files, if each stands under
/// its own file.
proof fn lemma_in_order_at(m: Map<PathKey, Seq<Diagnostic>>, keys: Seq<PathKey>, k: Place)
    requires
        filed(m),
        keys.no_duplicates(),
        forall|i: int| 0 <= i < keys.len() ==> m.contains_key(#[trigger] keys[i]),
    ensures
        with_key(in_order(m, keys), k) == if keys.contains(k.file) {
            with_key(m[k.file], k)
        } else {
            Seq::empty()
        },
    decreases keys.len(),
{
    broadcast use Seq::filter_distributes_over_add;

    if keys.len() == 0 {
        assert(with_key(in_order(m, keys), k) =~= Seq::empty());
    } else {
        let rest = keys.drop_last();
        let c = keys.last();
        assert(rest.no_duplicates());
        assert forall|i: int| 0 <= i < rest.len() implies m.contains_key(#[trigger] rest[i]) by {
            assert(rest[i] == keys[i]);
        }
        lemma_in_order_at(m, rest, k);
        assert(m.contains_key(keys[keys.len() - 1]));
        assert(with_key(in_order(m, keys), k) == with_key(in_order(m, rest), k) + with_key(m[c], k));
        if c == k.file {
            assert(keys.contains(k.file)) by {
                assert(keys[keys.len() - 1] == k.file);
            }
            assert(!rest.contains(k.file)) by {
                if rest.contains(c) {
                    let i = choose|i: int| 0 <= i < rest.len() && rest[i] == c;
                    assert(keys[i] == keys[keys.len() - 1]);
                }
            }
            assert(Seq::<Diagnostic>::empty() + with_key(m[c], k) =~= with_key(m[c], k));
        } else {
            assert forall|i: int| 0 <= i < m[c].len() implies (#[trigger] m[c][i]).key() != k by {
                assert(components(m[c][i].file@) == c);
            }
            crate::sorting::lemma_with_key_none(m[c], k);
            assert(with_key(in_order(m, rest), k) + Seq::<Diagnostic>::empty() =~= with_key(
                in_order(m, rest),
                k,
            ));
            if keys.contains(k.file) {
                let i = choose|i: int| 0 <= i < keys.len() && keys[i] == k.file;
                assert(rest[i] == k.file);
            }
            if rest.contains(k.file) {
                let i = choose|i: int| 0 <= i < rest.len() && rest[i] == k.file;
                assert(keys[i] == k.file);
            }
            assert(keys.contains(k.file) == rest.contains(k.file));
        }
    }
}

/// What stands at a place in a snapshot.
proof fn lemma_snapshot_at(m: Map<PathKey, Seq<Diagnostic>>, out: Seq<Diagnostic>, k: Place)
    requires
        filed(m),
        is_snapshot(m, out),
    ensures
        with_key(out, k) == if m.contains_key(k.file) {
            with_key(m[k.file], k)
        } else {
            Seq::empty()
        },
{
    let keys = choose|keys: Seq<PathKey>| #[trigger]
        lists(m, keys) && stably_sorted(in_order(m, keys), out);
    assert forall|i: int| 0 <= i < keys.len() implies m.contains_key(#[trigger] keys[i]) by {
        assert(keys.to_set().contains(keys[i]));
    }
    lemma_in_order_at(m, keys, k);
    assert(with_key(in_order(m, keys), k) == with_key(out, k));
    assert(m.dom().contains(k.file) == keys.to_set().contains(k.file));
}

/// Where every diagnostic stands under its own file, there is only one snapshot,
/// in whatever order the files are walked.
pub proof fn law_snapshot_is_determined(
    m: Map<PathKey, Seq<Diagnostic>>,
    a: Seq<Diagnostic>,
    b: Seq<Diagnostic>,
)
    requires
        filed(m),
        is_snapshot(m, a),
        is_snapshot(m, b),
    ensures
        a == b,
{
    assert forall|k: Place| #[trigger] with_key(a, k) == with_key(b, k) by {
        lemma_snapshot_at(m, a, k);
        lemma_snapshot_at(m, b, k);
    }
    lemma_sorted_unique(a, b);
}

/// Grouping files each diagnostic under its own file.
pub proof fn law_grouped_is_filed(v: Seq<Diagnostic>)
    ensures
        filed(grouped(v)),
{
    assert forall|c: PathKey, i: int|
        grouped(v).contains_key(c) && 0 <= i < grouped(v)[c].len() implies components(
        (#[trigger] grouped(v)[c][i]).file@,
    ) == c by {
        let p = |d: Diagnostic| components(d.file@) == c;
        v.lemma_filter_pred(p, i);
    }
}

/// A restart loses nothing: what a published state holds is what the accumulator
/// rebuilt from it publishes again.
pub proof fn law_restart_keeps_the_view(published: Seq<Diagnostic>, again: Seq<Diagnostic>)
    requires
        ordered(published),
        is_snapshot(grouped(published), again),
    ensures
        again == published,
{
    let m = grouped(published);
    law_grouped_is_filed(published);
    assert forall|k: Place| #[trigger] with_key(again, k) == with_key(published, k) by {
        lemma_snapshot_at(m, again, k);
        if m.contains_key(k.file) {
            crate::sorting::lemma_with_key_of_filter(
                published,
                |d: Diagnostic| components(d.file@) == k.file,
                k,
            );
        } else {
            assert forall|i: int| 0 <= i < published.len() implies (#[trigger] published[i]).key()
                != k by {
                if published[i].key() == k {
                    assert(components(published[i].file@) == k.file);
                }
            }
            crate::sorting::lemma_with_key_none(published, k);
        }
    }
    lemma_sorted_unique(again, published);
}

/// A snapshot holds exactly the diagnostics of the tracked files.
pub proof fn law_snapshot_holds_every_diagnostic(
    m: Map<PathKey, Seq<Diagnostic>>,
    out: Seq<Diagnostic>,
    d: Diagnostic,
)
    requires
        filed(m),
        is_snapshot(m, out),
    ensures
        out.contains(d) == (m.contains_key(components(d.file@)) && m[components(d.file@)].contains(
            d,
        )),
{
    let k = d.key();
    lemma_snapshot_at(m, out, k);
    crate::sorting::lemma_with_key_contains(out, d);
    if m.contains_key(k.file) {
        crate::sorting::lemma_with_key_contains(m[k.file], d);
    }
}

/// What an update says of one file leaves all other files as they were.
pub proof fn law_update_touches_one_file(
    m: Map<PathKey, Seq<Diagnostic>>,
    path: PathKey,
    diagnostics: Seq<Diagnostic>,
    other: PathKey,
)
    requires
        other != path,
    ensures
        m.insert(path, diagnostics).contains_key(other) == m.contains_key(other),
        m.contains_key(other) ==> m.insert(path, diagnostics)[other] == m[other],
        m.insert(path, diagnostics)[path] == diagnostics,
{
}

/// A removed file leaves the snapshot.
pub proof fn law_removed_file_leaves_the_snapshot(
    m: Map<PathKey, Seq<Diagnostic>>,
    path: PathKey,
    out: Seq<Diagnostic>,
)
    requires
        filed(m),
        is_snapshot(m.remove(path), out),
    ensures
        !mentions(out, path),
{
    let rest = m.remove(path);
    assert(filed(rest)) by {
        assert forall|c: PathKey, i: int|
            rest.contains_key(c) && 0 <= i < rest[c].len() implies components(
            (#[trigger] rest[c][i]).file@,
        ) == c by {
            assert(m[c][i] == rest[c][i]);
        }
    }
    if mentions(out, path) {
        let i = choose|i: int| 0 <= i < out.len() && components((#[trigger] out[i]).file@) == path;
        assert(out.contains(out[i]));
        law_snapshot_holds_every_diagnostic(rest, out, out[i]);
    }
}

/// The diagnostics of a file are those whose path is that file, in order.
pub proof fn law_files_keep_their_own_diagnostics(
    v: Seq<Diagnostic>,
    d: Diagnostic,
    c: PathKey,
)
    ensures
        of_file(Seq::empty(), c).len() == 0,
        components(d.file@) == c ==> of_file(v.push(d), c) == of_file(v, c).push(d),
        components(d.file@) != c ==> of_file(v.push(d), c) == of_file(v, c),
{
    let p = |x: Diagnostic| components(x.file@) == c;
    v.lemma_filter_push(d, p);
    crate::sorting::lemma_filter_none(Seq::<Diagnostic>::empty(), p);
}

/// Grouping knows exactly the files that are mentioned, and of each all that is said
/// of it.
pub proof fn law_grouping_leaves_nothing_out(v: Seq<Diagnostic>, c: PathKey)
    ensures
        grouped(v).contains_key(c) == exists|i: int|
            0 <= i < v.len() && components((#[trigger] v[i]).file@) == c,
        grouped(v).contains_key(c) ==> grouped(v)[c] == v.filter(
            |d: Diagnostic| components(d.file@) == c,
        ),
{
}

/// A diagnostic is added behind those of its file, and other files stay as they were.
pub proof fn law_added_diagnostic_comes_last(
    m: Map<PathKey, Seq<Diagnostic>>,
    d: Diagnostic,
    other: PathKey,
)
    ensures
        ({
            let c = components(d.file@);
            let after = added(m, d);
            &&& after.contains_key(c)
            &&& m.contains_key(c) ==> after[c] == m[c].push(d)
            &&& !m.contains_key(c) ==> after[c] == seq![d]
            &&& other != c ==> after.contains_key(other) == m.contains_key(other)
            &&& other != c && m.contains_key(other) ==> after[other] == m[other]
        }),
{
    assert(Seq::<Diagnostic>::empty().push(d) =~= seq![d]);
}

/// At each place a snapshot holds what is known of it: as often, and in the same
/// order.
pub proof fn law_snapshot_keeps_each_place(
    m: Map<PathKey, Seq<Diagnostic>>,
    out: Seq<Diagnostic>,
    c: PathKey,
    line: u32,
    col: u32,
)
    requires
        filed(m),
        is_snapshot(m, out),
    ensures
        m.contains_key(c) ==> out.filter(
            |d: Diagnostic| components(d.file@) == c && d.line == line && d.col == col,
        ) == m[c].filter(
            |d: Diagnostic| components(d.file@) == c && d.line == line && d.col == col,
        ),
{
    let k = Place { file: c, line, col };
    let test = |d: Diagnostic| components(d.file@) == c && d.line == line && d.col == col;
    lemma_snapshot_at(m, out, k);
    assert forall|x: Diagnostic| #[trigger] test(x) == (x.key() == k) by {
        assert(x.key() == k || x.key().file != c || x.key().line != line || x.key().col != col);
    }
    crate::sorting::lemma_with_key_is(out, k, test);
    crate::sorting::lemma_with_key_is(m[c], k, test);
}

/// A snapshot comes by file, within a file by line, within a line by column.
pub proof fn law_snapshot_is_ordered(
    m: Map<PathKey, Seq<Diagnostic>>,
    out: Seq<Diagnostic>,
    i: int,
    j: int,
)
    requires
        is_snapshot(m, out),
        0 <= i < j < out.len(),
    ensures
        ({
            let a = components(out[i].file@);
            let b = components(out[j].file@);
            &&& a == b || components_before(a, b)
            &&& a == b ==> out[i].line <= out[j].line
            &&& a == b && out[i].line == out[j].line ==> out[i].col <= out[j].col
        }),
{
    let keys = choose|keys: Seq<PathKey>| #[trigger]
        lists(m, keys) && stably_sorted(in_order(m, keys), out);
    crate::state::law_published_diagnostics_are_ordered(in_order(m, keys), out, i, j);
}

} // verus!
