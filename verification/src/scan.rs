//! Which files of a project are sources.

use vstd::prelude::*;
use crate::paths::{components, extension, is_under, join, path_texts, FilePath};
use crate::text::{chars_of, same_chars, texts};
use crate::watcher::{ignored, is_ignored};

verus! {

// ---------------------------------------------------------------------------
// Single paths
// ---------------------------------------------------------------------------

/// Whether a path lies below one of the excluded paths of a project.
pub open spec fn excluded(path: Seq<char>, root: Seq<char>, excludes: Seq<Seq<char>>) -> bool {
    exists|i: int| 0 <= i < excludes.len() && is_under(path, join(root, #[trigger] excludes[i]))
}

/// Whether a path is excluded by the configuration.
pub fn is_excluded(path: &FilePath, project_root: &FilePath, excludes: &Vec<String>) -> (r: bool)
    ensures
        r == excluded(path@, project_root@, texts(excludes@)),
{
    let ghost all = texts(excludes@);
    let mut i: usize = 0;
    while i < excludes.len()
        invariant
            i <= excludes@.len(),
            all == texts(excludes@),
            forall|j: int|
                0 <= j < i ==> !is_under(path@, join(project_root@, #[trigger] all[j])),
        decreases excludes@.len() - i,
    {
        let base = project_root.join(excludes[i].as_str());
        assert(all[i as int] == excludes@[i as int]@);
        if path.starts_with(&base) {
            return true;
        }
        i += 1;
    }
    false
}

/// Whether a path has the extension `ext`.
fn has_extension(path: &FilePath, ext: &str) -> (r: bool)
    ensures
        r == (extension(path@) == Some(ext@)),
{
    let want = chars_of(ext);
    match path.extension() {
        Some(e) => same_chars(e.as_slice(), want.as_slice()),
        None => false,
    }
}

/// Whether a path is a source: Python always, Rust where `clippy` runs.
pub open spec fn source(path: Seq<char>, clippy: bool) -> bool {
    extension(path) == Some("py"@) || (clippy && extension(path) == Some("rs"@))
}

/// Whether a file is routed to the tools, by its extension.
pub fn is_source_file(path: &FilePath, clippy_enabled: bool) -> (r: bool)
    ensures
        r == source(path@, clippy_enabled),
{
    has_extension(path, "py") || (clippy_enabled && has_extension(path, "rs"))
}

// ---------------------------------------------------------------------------
// Whole trees
// ---------------------------------------------------------------------------

/// An entry of a directory.
#[derive(Debug)]
pub struct DirEntry {
    pub path: FilePath,
    pub is_dir: bool,
}

/// What a scan does with an entry.
#[derive(Debug, Clone, Copy, PartialEq, Eq, Structural)]
pub enum Treatment {
    /// It is ignored, excluded or no Python file.
    Skip,
    /// It is a directory to look into.
    Descend,
    /// It is a Python file.
    Take,
}

/// How a scan treats an entry.
pub open spec fn treatment(
    path: Seq<char>,
    is_dir: bool,
    root: Seq<char>,
    excludes: Seq<Seq<char>>,
) -> Treatment {
    if ignored(path) || excluded(path, root, excludes) {
        Treatment::Skip
    } else if is_dir {
        Treatment::Descend
    } else if extension(path) == Some("py"@) {
        Treatment::Take
    } else {
        Treatment::Skip
    }
}

/// Decides what to do with an entry.
pub fn treat(entry: &DirEntry, project_root: &FilePath, excludes: &Vec<String>) -> (r: Treatment)
    ensures
        r == treatment(entry.path@, entry.is_dir, project_root@, texts(excludes@)),
{
    if is_ignored(&entry.path) || is_excluded(&entry.path, project_root, excludes) {
        Treatment::Skip
    } else if entry.is_dir {
        Treatment::Descend
    } else if has_extension(&entry.path, "py") {
        Treatment::Take
    } else {
        Treatment::Skip
    }
}

/// A scan in progress: entries still to be treated, the next one last, and the
/// files found so far.
#[derive(Debug)]
pub struct Scan {
    pub pending: Vec<DirEntry>,
    pub found: Vec<FilePath>,
}

/// The files that some entries stand for, given the files below each directory.
/// The entry to be treated first stands last.
pub open spec fn files_of(
    pending: Seq<DirEntry>,
    below: spec_fn(Seq<char>) -> Seq<Seq<char>>,
    root: Seq<char>,
    excludes: Seq<Seq<char>>,
) -> Seq<Seq<char>>
    decreases pending.len(),
{
    if pending.len() == 0 {
        Seq::empty()
    } else {
        let e = pending.last();
        let rest = files_of(pending.drop_last(), below, root, excludes);
        match treatment(e.path@, e.is_dir, root, excludes) {
            Treatment::Skip => rest,
            Treatment::Take => seq![e.path@] + rest,
            Treatment::Descend => below(e.path@) + rest,
        }
    }
}

/// The files in a listing, in its order.
pub open spec fn files_in(
    listing: Seq<DirEntry>,
    below: spec_fn(Seq<char>) -> Seq<Seq<char>>,
    root: Seq<char>,
    excludes: Seq<Seq<char>>,
) -> Seq<Seq<char>> {
    files_of(listing.reverse(), below, root, excludes)
}

/// Treats pending entries up to and with the first directory to look into.
pub open spec fn walked(
    pending: Seq<DirEntry>,
    found: Seq<Seq<char>>,
    root: Seq<char>,
    excludes: Seq<Seq<char>>,
) -> (Seq<DirEntry>, Seq<Seq<char>>, Option<Seq<char>>)
    decreases pending.len(),
{
    if pending.len() == 0 {
        (pending, found, None)
    } else {
        let e = pending.last();
        match treatment(e.path@, e.is_dir, root, excludes) {
            Treatment::Skip => walked(pending.drop_last(), found, root, excludes),
            Treatment::Take => walked(pending.drop_last(), found.push(e.path@), root, excludes),
            Treatment::Descend => (pending.drop_last(), found, Some(e.path@)),
        }
    }
}

impl Scan {
    /// A scan that has seen nothing.
    pub fn new() -> (r: Scan)
        ensures
            r.pending@.len() == 0,
            path_texts(r.found@) == Seq::<Seq<char>>::empty(),
    {
        let r = Scan { pending: Vec::new(), found: Vec::new() };
        assert(path_texts(r.found@) =~= Seq::empty());
        r
    }

    /// Treats pending entries until a directory has to be listed.
    fn advance(&mut self, project_root: &FilePath, excludes: &Vec<String>) -> (r: Option<FilePath>)
        ensures
            ({
                let next = match r {
                    Some(d) => Some(d@),
                    None => None,
                };
                (final(self).pending@, path_texts(final(self).found@), next) == walked(
                    old(self).pending@,
                    path_texts(old(self).found@),
                    project_root@,
                    texts(excludes@),
                )
            }),
            r is None ==> final(self).pending@.len() == 0,
    {
        let ghost root = project_root@;
        let ghost words = texts(excludes@);
        let ghost goal = walked(self.pending@, path_texts(self.found@), root, words);
        while self.pending.len() > 0
            invariant
                root == project_root@,
                words == texts(excludes@),
                goal == walked(
                    old(self).pending@,
                    path_texts(old(self).found@),
                    project_root@,
                    texts(excludes@),
                ),
                walked(self.pending@, path_texts(self.found@), root, words) == goal,
            decreases self.pending@.len(),
        {
            let ghost stack = self.pending@;
            if let Some(e) = self.pending.pop() {
                assert(self.pending@ =~= stack.drop_last());
                match treat(&e, project_root, excludes) {
                    Treatment::Skip => {},
                    Treatment::Take => {
                        let ghost had = self.found@;
                        self.found.push(e.path);
                        assert(path_texts(self.found@) =~= path_texts(had).push(e.path@));
                    },
                    Treatment::Descend => {
                        return Some(e.path);
                    },
                }
            }
        }
        None
    }
}

/// Takes in the listing of a directory and goes on until the next directory has
/// to be listed. Entries are treated in the order of the listing, and what lies
/// below a directory before what follows it. A directory that cannot be listed
/// has no entries. The scan is over when there is no directory left.
pub fn collect_py_files(
    scan: &mut Scan,
    listing: Vec<DirEntry>,
    project_root: &FilePath,
    excludes: &Vec<String>,
) -> (r: Option<FilePath>)
    ensures
        ({
            let next = match r {
                Some(d) => Some(d@),
                None => None,
            };
            (final(scan).pending@, path_texts(final(scan).found@), next) == walked(
                old(scan).pending@ + listing@.reverse(),
                path_texts(old(scan).found@),
                project_root@,
                texts(excludes@),
            )
        }),
        r is None ==> final(scan).pending@.len() == 0,
{
    let ghost before = scan.pending@;
    let ghost all = listing@;
    let mut rest = listing;
    assert(before + Seq::<DirEntry>::empty() =~= before);
    while rest.len() > 0
        invariant
            rest@.len() <= all.len(),
            rest@ == all.take(rest@.len() as int),
            scan.pending@ == before + all.skip(rest@.len() as int).reverse(),
            scan.found@ == old(scan).found@,
        decreases rest@.len(),
    {
        let ghost n = rest@.len() as int;
        if let Some(e) = rest.pop() {
            scan.pending.push(e);
            proof {
                assert(e == all[n - 1]);
                assert(rest@ =~= all.take(n - 1));
                assert(all.skip(n - 1).reverse() =~= all.skip(n).reverse().push(e));
                assert(before + all.skip(n).reverse().push(e) =~= (before + all.skip(
                    n,
                ).reverse()).push(e));
            }
        }
    }
    assert(all.skip(0) =~= all);
    scan.advance(project_root, excludes)
}

// ---------------------------------------------------------------------------
// Laws
// ---------------------------------------------------------------------------

/// Whether a scan may return a path.
pub open spec fn eligible(path: Seq<char>, root: Seq<char>, excludes: Seq<Seq<char>>) -> bool {
    extension(path) == Some("py"@) && !ignored(path) && !excluded(path, root, excludes)
}

/// A scan only finds Python files that are neither ignored nor excluded.
pub proof fn law_scan_finds_only_eligible_files(
    pending: Seq<DirEntry>,
    found: Seq<Seq<char>>,
    root: Seq<char>,
    excludes: Seq<Seq<char>>,
)
    requires
        forall|i: int| 0 <= i < found.len() ==> eligible(#[trigger] found[i], root, excludes),
    ensures
        forall|i: int|
            0 <= i < walked(pending, found, root, excludes).1.len() ==> eligible(
                #[trigger] walked(pending, found, root, excludes).1[i],
                root,
                excludes,
            ),
    decreases pending.len(),
{
    if pending.len() == 0 {
        assert(walked(pending, found, root, excludes).1 == found);
    } else {
        let e = pending.last();
        match treatment(e.path@, e.is_dir, root, excludes) {
            Treatment::Skip => {
                law_scan_finds_only_eligible_files(pending.drop_last(), found, root, excludes);
                assert(walked(pending, found, root, excludes) == walked(
                    pending.drop_last(),
                    found,
                    root,
                    excludes,
                ));
            },
            Treatment::Take => {
                let more = found.push(e.path@);
                assert forall|i: int| 0 <= i < more.len() implies eligible(
                    #[trigger] more[i],
                    root,
                    excludes,
                ) by {
                    if i < found.len() {
                        assert(more[i] == found[i]);
                    }
                }
                law_scan_finds_only_eligible_files(pending.drop_last(), more, root, excludes);
                assert(walked(pending, found, root, excludes) == walked(
                    pending.drop_last(),
                    more,
                    root,
                    excludes,
                ));
            },
            Treatment::Descend => {
                assert(walked(pending, found, root, excludes).1 == found);
            },
        }
    }
}

/// A step of a scan loses no file and finds none twice: what was found, what lies
/// below the directory to be listed next and what is pending make up what was
/// found and pending before.
pub proof fn law_scan_step_keeps_the_files(
    pending: Seq<DirEntry>,
    found: Seq<Seq<char>>,
    below: spec_fn(Seq<char>) -> Seq<Seq<char>>,
    root: Seq<char>,
    excludes: Seq<Seq<char>>,
)
    ensures
        ({
            let (rest, now, next) = walked(pending, found, root, excludes);
            let ahead = match next {
                Some(d) => below(d),
                None => Seq::empty(),
            };
            now + ahead + files_of(rest, below, root, excludes) == found + files_of(
                pending,
                below,
                root,
                excludes,
            )
        }),
    decreases pending.len(),
{
    let all = files_of(pending, below, root, excludes);
    if pending.len() == 0 {
        assert(found + Seq::<Seq<char>>::empty() + all =~= found + all);
    } else {
        let e = pending.last();
        let rest = pending.drop_last();
        let tail = files_of(rest, below, root, excludes);
        match treatment(e.path@, e.is_dir, root, excludes) {
            Treatment::Skip => {
                law_scan_step_keeps_the_files(rest, found, below, root, excludes);
            },
            Treatment::Take => {
                law_scan_step_keeps_the_files(rest, found.push(e.path@), below, root, excludes);
                assert(found.push(e.path@) + tail =~= found + (seq![e.path@] + tail));
            },
            Treatment::Descend => {
                assert(found + below(e.path@) + tail =~= found + (below(e.path@) + tail));
            },
        }
    }
}

/// Entries that are appended to the pending ones are treated first.
pub proof fn law_listing_is_treated_first(
    pending: Seq<DirEntry>,
    listing: Seq<DirEntry>,
    below: spec_fn(Seq<char>) -> Seq<Seq<char>>,
    root: Seq<char>,
    excludes: Seq<Seq<char>>,
)
    ensures
        files_of(pending + listing.reverse(), below, root, excludes) == files_in(
            listing,
            below,
            root,
            excludes,
        ) + files_of(pending, below, root, excludes),
{
    lemma_files_of_concat(pending, listing.reverse(), below, root, excludes);
}

/// Each step of a scan keeps its target: the files that were found, that are in
/// the listing at hand and that are pending, whatever directory comes next. When
/// none comes they have all been found.
pub proof fn law_scan_step_keeps_the_target(
    pending: Seq<DirEntry>,
    found: Seq<Seq<char>>,
    listing: Seq<DirEntry>,
    next_listing: Seq<DirEntry>,
    below: spec_fn(Seq<char>) -> Seq<Seq<char>>,
    root: Seq<char>,
    excludes: Seq<Seq<char>>,
    target: Seq<Seq<char>>,
)
    requires
        target == found + files_in(listing, below, root, excludes) + files_of(
            pending,
            below,
            root,
            excludes,
        ),
        walked(pending + listing.reverse(), found, root, excludes).2 matches Some(d) ==> below(d)
            == files_in(next_listing, below, root, excludes),
    ensures
        ({
            let (rest, now, next) = walked(pending + listing.reverse(), found, root, excludes);
            match next {
                Some(d) => target == now + files_in(next_listing, below, root, excludes) + files_of(
                    rest,
                    below,
                    root,
                    excludes,
                ),
                None => target == now,
            }
        }),
{
    law_listing_is_treated_first(pending, listing, below, root, excludes);
    law_scan_step_keeps_the_files(pending + listing.reverse(), found, below, root, excludes);
    lemma_walk_ends_empty(pending + listing.reverse(), found, root, excludes);
    let a = files_in(listing, below, root, excludes);
    let b = files_of(pending, below, root, excludes);
    assert(found + (a + b) =~= found + a + b);
    let (rest, now, next) = walked(pending + listing.reverse(), found, root, excludes);
    if next is None {
        assert(now + Seq::<Seq<char>>::empty() + files_of(rest, below, root, excludes) =~= now);
    }
}

/// Where no directory comes next, nothing is pending.
proof fn lemma_walk_ends_empty(
    pending: Seq<DirEntry>,
    found: Seq<Seq<char>>,
    root: Seq<char>,
    excludes: Seq<Seq<char>>,
)
    ensures
        walked(pending, found, root, excludes).2 is None ==> walked(
            pending,
            found,
            root,
            excludes,
        ).0.len() == 0,
    decreases pending.len(),
{
    if pending.len() > 0 {
        let e = pending.last();
        match treatment(e.path@, e.is_dir, root, excludes) {
            Treatment::Skip => {
                lemma_walk_ends_empty(pending.drop_last(), found, root, excludes);
            },
            Treatment::Take => {
                lemma_walk_ends_empty(
                    pending.drop_last(),
                    found.push(e.path@),
                    root,
                    excludes,
                );
            },
            Treatment::Descend => {},
        }
    }
}

/// The files of two rows of entries.
pub proof fn lemma_files_of_concat(
    a: Seq<DirEntry>,
    b: Seq<DirEntry>,
    below: spec_fn(Seq<char>) -> Seq<Seq<char>>,
    root: Seq<char>,
    excludes: Seq<Seq<char>>,
)
    ensures
        files_of(a + b, below, root, excludes) == files_of(b, below, root, excludes) + files_of(
            a,
            below,
            root,
            excludes,
        ),
    decreases b.len(),
{
    let fa = files_of(a, below, root, excludes);
    if b.len() == 0 {
        assert(a + b =~= a);
        assert(Seq::<Seq<char>>::empty() + fa =~= fa);
    } else {
        let e = b.last();
        let rest = b.drop_last();
        assert((a + b).drop_last() =~= a + rest);
        assert((a + b).last() == e);
        lemma_files_of_concat(a, rest, below, root, excludes);
        let fr = files_of(rest, below, root, excludes);
        assert(seq![e.path@] + (fr + fa) =~= (seq![e.path@] + fr) + fa);
        assert(below(e.path@) + (fr + fa) =~= (below(e.path@) + fr) + fa);
    }
}

/// What lies below a path that lies below another lies below that one.
pub proof fn lemma_under_is_transitive(path: Seq<char>, middle: Seq<char>, base: Seq<char>)
    requires
        is_under(path, middle),
        is_under(middle, base),
    ensures
        is_under(path, base),
{
    let a = components(base);
    let b = components(middle);
    let c = components(path);
    assert(a =~= c.subrange(0, a.len() as int)) by {
        assert forall|n: int| 0 <= n < a.len() implies a[n] == c[n] by {
            assert(a[n] == b.subrange(0, a.len() as int)[n]);
            assert(b[n] == c.subrange(0, b.len() as int)[n]);
        }
    }
}

/// A path below an excluded directory is excluded.
pub proof fn law_exclusion_goes_down(
    path: Seq<char>,
    base: Seq<char>,
    root: Seq<char>,
    excludes: Seq<Seq<char>>,
)
    requires
        is_under(path, base),
        excluded(base, root, excludes),
    ensures
        excluded(path, root, excludes),
{
    let i = choose|i: int|
        0 <= i < excludes.len() && is_under(base, join(root, #[trigger] excludes[i]));
    lemma_under_is_transitive(path, base, join(root, excludes[i]));
}

/// A path is excluded exactly where it starts with the components of the root and of
/// one of the excluded paths.
pub proof fn law_exclusion_is_by_components(
    path: Seq<char>,
    root: Seq<char>,
    excludes: Seq<Seq<char>>,
)
    ensures
        excluded(path, root, excludes) == exists|i: int|
            0 <= i < excludes.len() && components(
                join(root, #[trigger] excludes[i]),
            ).is_prefix_of(components(path)),
{
    if excluded(path, root, excludes) {
        let i = choose|i: int|
            0 <= i < excludes.len() && is_under(path, join(root, #[trigger] excludes[i]));
        assert(components(join(root, excludes[i])).is_prefix_of(components(path)));
    }
    if exists|i: int|
        0 <= i < excludes.len() && components(join(root, #[trigger] excludes[i])).is_prefix_of(
            components(path),
        ) {
        let i = choose|i: int|
            0 <= i < excludes.len() && components(join(root, #[trigger] excludes[i])).is_prefix_of(
                components(path),
            );
        assert(is_under(path, join(root, excludes[i])));
    }
}

/// Python files are always sources, Rust files only for `clippy`, and no others are.
pub proof fn law_sources_by_extension(path: Seq<char>)
    ensures
        extension(path) == Some("py"@) ==> source(path, true) && source(path, false),
        extension(path) == Some("rs"@) ==> source(path, true) && !source(path, false),
        extension(path) != Some("py"@) && extension(path) != Some("rs"@) ==> !source(path, true)
            && !source(path, false),
{
    reveal_strlit("py");
    reveal_strlit("rs");
    assert("py"@[0] == 'p' && "rs"@[0] == 'r');
}

/// A scan skips what is ignored or excluded, looks into all other directories, and
/// takes all other Python files.
pub proof fn law_entries_are_treated(
    path: Seq<char>,
    is_dir: bool,
    root: Seq<char>,
    excludes: Seq<Seq<char>>,
)
    ensures
        ({
            let t = treatment(path, is_dir, root, excludes);
            let left_out = ignored(path) || excluded(path, root, excludes);
            &&& (t is Descend) == (is_dir && !left_out)
            &&& (t is Take) == (!is_dir && !left_out && extension(path) == Some("py"@))
            &&& (t is Skip) == (left_out || (!is_dir && extension(path) != Some("py"@)))
        }),
        eligible(path, root, excludes) == (extension(path) == Some("py"@) && !ignored(path)
            && !excluded(path, root, excludes)),
{
}

/// A scan treats its entries one after the other: it takes a file behind those it has
/// found, skips what it does not want, and stops at a directory.
pub proof fn law_scan_goes_entry_by_entry(
    pending: Seq<DirEntry>,
    e: DirEntry,
    found: Seq<Seq<char>>,
    root: Seq<char>,
    excludes: Seq<Seq<char>>,
)
    ensures
        walked(Seq::empty(), found, root, excludes) == (
            Seq::<DirEntry>::empty(),
            found,
            None::<Seq<char>>,
        ),
        ({
            let left_out = ignored(e.path@) || excluded(e.path@, root, excludes);
            let all = walked(pending.push(e), found, root, excludes);
            if e.is_dir && !left_out {
                all == (pending, found, Some(e.path@))
            } else if !e.is_dir && !left_out && extension(e.path@) == Some("py"@) {
                all == walked(pending, found.push(e.path@), root, excludes)
            } else {
                all == walked(pending, found, root, excludes)
            }
        }),
{
    assert(pending.push(e).drop_last() =~= pending);
}

} // verus!
