//! What a scan finds in a whole tree of directories.

use vstd::prelude::*;
use crate::paths::{components, is_under};
use crate::scan::{
    eligible, files_in, files_of, law_exclusion_goes_down, law_scan_step_keeps_the_target, lemma_files_of_concat,
    lemma_under_is_transitive, treatment, walked, DirEntry, Treatment,
};
use crate::sorting::lemma_filter_none;
use crate::watcher::law_ignored_goes_down;

verus! {

// ---------------------------------------------------------------------------
// Trees
// ---------------------------------------------------------------------------

/// Whether directories are nested at most `depth` deep below a listing, where
/// `lists` are the entries of each directory. One that cannot be listed has none.
pub open spec fn nested_at_most(
    lists: spec_fn(Seq<char>) -> Seq<DirEntry>,
    listing: Seq<DirEntry>,
    depth: nat,
) -> bool
    decreases depth,
{
    forall|i: int|
        0 <= i < listing.len() && (#[trigger] listing[i]).is_dir ==> depth > 0 && nested_at_most(
            lists,
            lists(listing[i].path@),
            (depth - 1) as nat,
        )
}

/// All files in a listing and below it, in order.
pub open spec fn tree_files(
    lists: spec_fn(Seq<char>) -> Seq<DirEntry>,
    listing: Seq<DirEntry>,
    depth: nat,
) -> Seq<Seq<char>>
    decreases depth, listing.len(),
{
    if listing.len() == 0 {
        Seq::empty()
    } else {
        let before = tree_files(lists, listing.drop_last(), depth);
        let e = listing.last();
        if !e.is_dir {
            before.push(e.path@)
        } else if depth > 0 {
            before + tree_files(lists, lists(e.path@), (depth - 1) as nat)
        } else {
            before
        }
    }
}

/// The number of directories in a listing and below it.
pub open spec fn tree_dirs(
    lists: spec_fn(Seq<char>) -> Seq<DirEntry>,
    listing: Seq<DirEntry>,
    depth: nat,
) -> nat
    decreases depth, listing.len(),
{
    if listing.len() == 0 {
        0
    } else {
        let before = tree_dirs(lists, listing.drop_last(), depth);
        let e = listing.last();
        if e.is_dir && depth > 0 {
            before + 1 + tree_dirs(lists, lists(e.path@), (depth - 1) as nat)
        } else {
            before
        }
    }
}

/// Whether `path` is an entry directly in the directory `dir`.
pub open spec fn is_child(path: Seq<char>, dir: Seq<char>) -> bool {
    is_under(path, dir) && components(path).len() == components(dir).len() + 1
}

/// Whether each directory lists entries of its own.
pub open spec fn lists_children(lists: spec_fn(Seq<char>) -> Seq<DirEntry>) -> bool {
    forall|d: Seq<char>, i: int|
        0 <= i < lists(d).len() ==> is_child((#[trigger] lists(d)[i]).path@, d)
}

/// Whether no directory lists an entry twice.
pub open spec fn lists_once(lists: spec_fn(Seq<char>) -> Seq<DirEntry>) -> bool {
    forall|d: Seq<char>, i: int, j: int|
        0 <= i < j < lists(d).len() ==> components((#[trigger] lists(d)[i]).path@) != components(
            (#[trigger] lists(d)[j]).path@,
        )
}

/// What a scan has found when it is over: it takes in a listing, and then that of
/// each directory it asks for. There is no answer where it asks for more than `n`.
pub open spec fn scan_run(
    lists: spec_fn(Seq<char>) -> Seq<DirEntry>,
    pending: Seq<DirEntry>,
    found: Seq<Seq<char>>,
    listing: Seq<DirEntry>,
    root: Seq<char>,
    excludes: Seq<Seq<char>>,
    n: nat,
) -> Option<Seq<Seq<char>>>
    decreases n,
{
    let (rest, now, next) = walked(pending + listing.reverse(), found, root, excludes);
    match next {
        None => Some(now),
        Some(d) => if n == 0 {
            None
        } else {
            scan_run(lists, rest, now, lists(d), root, excludes, (n - 1) as nat)
        },
    }
}

/// What a scan of the directory `start` finds, when it may ask for `n` more.
pub open spec fn scan_of(
    lists: spec_fn(Seq<char>) -> Seq<DirEntry>,
    start: Seq<char>,
    root: Seq<char>,
    excludes: Seq<Seq<char>>,
    n: nat,
) -> Option<Seq<Seq<char>>> {
    scan_run(lists, Seq::empty(), Seq::empty(), lists(start), root, excludes, n)
}

/// The test for files that a scan may return.
pub open spec fn eligible_files(root: Seq<char>, excludes: Seq<Seq<char>>) -> spec_fn(
    Seq<char>,
) -> bool {
    |p: Seq<char>| eligible(p, root, excludes)
}

/// Whether no path stands twice in `v`.
pub open spec fn each_once(v: Seq<Seq<char>>) -> bool {
    forall|i: int, j: int|
        0 <= i < j < v.len() ==> components(#[trigger] v[i]) != components(#[trigger] v[j])
}

// ---------------------------------------------------------------------------
// Depth
// ---------------------------------------------------------------------------

/// Looking deeper than a tree is nested finds nothing more.
proof fn lemma_deeper(
    lists: spec_fn(Seq<char>) -> Seq<DirEntry>,
    listing: Seq<DirEntry>,
    k: nat,
    m: nat,
)
    requires
        nested_at_most(lists, listing, k),
        k <= m,
    ensures
        nested_at_most(lists, listing, m),
        tree_files(lists, listing, m) == tree_files(lists, listing, k),
        tree_dirs(lists, listing, m) == tree_dirs(lists, listing, k),
    decreases k, listing.len(),
{
    assert forall|i: int| 0 <= i < listing.len() && (#[trigger] listing[i]).is_dir implies m > 0
        && nested_at_most(lists, lists(listing[i].path@), (m - 1) as nat) by {
        lemma_deeper(lists, lists(listing[i].path@), (k - 1) as nat, (m - 1) as nat);
    }
    if listing.len() > 0 {
        let front = listing.drop_last();
        let e = listing.last();
        assert forall|i: int| 0 <= i < front.len() && (#[trigger] front[i]).is_dir implies k > 0
            && nested_at_most(lists, lists(front[i].path@), (k - 1) as nat) by {
            assert(front[i] == listing[i]);
        }
        lemma_deeper(lists, front, k, m);
        if e.is_dir {
            assert(listing[listing.len() - 1].is_dir);
            lemma_deeper(lists, lists(e.path@), (k - 1) as nat, (m - 1) as nat);
        }
    }
}

/// Whether directories are nested at most `depth` deep below each entry.
spec fn each_nested(
    lists: spec_fn(Seq<char>) -> Seq<DirEntry>,
    entries: Seq<DirEntry>,
    depth: nat,
) -> bool {
    forall|i: int|
        0 <= i < entries.len() && (#[trigger] entries[i]).is_dir ==> nested_at_most(
            lists,
            lists(entries[i].path@),
            depth,
        )
}

/// The entries of a listing are nested as deep as the listing.
proof fn lemma_each_nested(
    lists: spec_fn(Seq<char>) -> Seq<DirEntry>,
    listing: Seq<DirEntry>,
    depth: nat,
)
    requires
        nested_at_most(lists, listing, depth),
    ensures
        each_nested(lists, listing, depth),
{
    assert forall|i: int| 0 <= i < listing.len() && (#[trigger] listing[i]).is_dir implies nested_at_most(
        lists,
        lists(listing[i].path@),
        depth,
    ) by {
        lemma_deeper(lists, lists(listing[i].path@), (depth - 1) as nat, depth);
    }
}

// ---------------------------------------------------------------------------
// Files of a tree
// ---------------------------------------------------------------------------

/// Every file of a tree lies under an entry of its listing.
proof fn lemma_file_under_entry(
    lists: spec_fn(Seq<char>) -> Seq<DirEntry>,
    listing: Seq<DirEntry>,
    depth: nat,
    j: int,
)
    requires
        lists_children(lists),
        0 <= j < tree_files(lists, listing, depth).len(),
    ensures
        exists|i: int|
            0 <= i < listing.len() && is_under(
                tree_files(lists, listing, depth)[j],
                (#[trigger] listing[i]).path@,
            ),
    decreases depth, listing.len(),
{
    let all = tree_files(lists, listing, depth);
    let front = listing.drop_last();
    let before = tree_files(lists, front, depth);
    let e = listing.last();
    let n = listing.len() - 1;
    if j < before.len() {
        lemma_file_under_entry(lists, front, depth, j);
        let i = choose|i: int|
            0 <= i < front.len() && is_under(before[j], (#[trigger] front[i]).path@);
        assert(all[j] == before[j]);
        assert(is_under(all[j], listing[i].path@));
    } else if !e.is_dir {
        assert(all[j] == e.path@);
        assert(components(e.path@).subrange(0, components(e.path@).len() as int) =~= components(
            e.path@,
        ));
        assert(is_under(all[j], listing[n].path@));
    } else {
        let inner = lists(e.path@);
        let m = j - before.len();
        lemma_file_under_entry(lists, inner, (depth - 1) as nat, m);
        let x = tree_files(lists, inner, (depth - 1) as nat)[m];
        assert(all[j] == x);
        let i = choose|i: int| 0 <= i < inner.len() && is_under(x, (#[trigger] inner[i]).path@);
        assert(is_child(lists(e.path@)[i].path@, e.path@));
        lemma_under_is_transitive(x, inner[i].path@, e.path@);
        assert(is_under(all[j], listing[n].path@));
    }
}

/// Every file below a directory lies under it.
proof fn lemma_file_under_dir(
    lists: spec_fn(Seq<char>) -> Seq<DirEntry>,
    dir: Seq<char>,
    depth: nat,
    j: int,
)
    requires
        lists_children(lists),
        0 <= j < tree_files(lists, lists(dir), depth).len(),
    ensures
        is_under(tree_files(lists, lists(dir), depth)[j], dir),
{
    let listing = lists(dir);
    let x = tree_files(lists, listing, depth)[j];
    lemma_file_under_entry(lists, listing, depth, j);
    let i = choose|i: int| 0 <= i < listing.len() && is_under(x, (#[trigger] listing[i]).path@);
    assert(is_child(lists(dir)[i].path@, dir));
    lemma_under_is_transitive(x, listing[i].path@, dir);
}

/// The eligible files below each directory.
spec fn below(
    lists: spec_fn(Seq<char>) -> Seq<DirEntry>,
    depth: nat,
    root: Seq<char>,
    excludes: Seq<Seq<char>>,
) -> spec_fn(Seq<char>) -> Seq<Seq<char>> {
    |d: Seq<char>| tree_files(lists, lists(d), depth).filter(eligible_files(root, excludes))
}

/// The files that a scan takes from one entry are the eligible ones.
proof fn lemma_entry_files(
    lists: spec_fn(Seq<char>) -> Seq<DirEntry>,
    e: DirEntry,
    k: nat,
    depth: nat,
    root: Seq<char>,
    excludes: Seq<Seq<char>>,
)
    requires
        lists_children(lists),
        k <= depth,
        e.is_dir ==> k > 0 && nested_at_most(lists, lists(e.path@), (k - 1) as nat),
    ensures
        files_of(seq![e], below(lists, depth, root, excludes), root, excludes) == (if e.is_dir {
            tree_files(lists, lists(e.path@), (k - 1) as nat).filter(
                eligible_files(root, excludes),
            )
        } else if eligible(e.path@, root, excludes) {
            seq![e.path@]
        } else {
            Seq::empty()
        }),
{
    let b = below(lists, depth, root, excludes);
    let test = eligible_files(root, excludes);
    let one = seq![e];
    assert(one.drop_last() =~= Seq::empty());
    assert(one.last() == e);
    reveal_with_fuel(files_of, 2);
    let nothing = Seq::<Seq<char>>::empty();
    assert(seq![e.path@] + nothing =~= seq![e.path@]);
    assert(b(e.path@) + nothing =~= b(e.path@));
    if e.is_dir {
        let inner = tree_files(lists, lists(e.path@), (k - 1) as nat);
        lemma_deeper(lists, lists(e.path@), (k - 1) as nat, depth);
        if treatment(e.path@, e.is_dir, root, excludes) == Treatment::Skip {
            assert forall|j: int| 0 <= j < inner.len() implies !test(#[trigger] inner[j]) by {
                lemma_file_under_dir(lists, e.path@, (k - 1) as nat, j);
                if crate::watcher::ignored(e.path@) {
                    law_ignored_goes_down(inner[j], e.path@);
                } else {
                    law_exclusion_goes_down(inner[j], e.path@, root, excludes);
                }
            }
            lemma_filter_none(inner, test);
        }
    }
}

/// The files that a scan takes from a listing are the eligible ones of its tree.
proof fn lemma_listing_files(
    lists: spec_fn(Seq<char>) -> Seq<DirEntry>,
    listing: Seq<DirEntry>,
    k: nat,
    depth: nat,
    root: Seq<char>,
    excludes: Seq<Seq<char>>,
)
    requires
        lists_children(lists),
        nested_at_most(lists, listing, k),
        k <= depth,
    ensures
        files_in(listing, below(lists, depth, root, excludes), root, excludes) == tree_files(
            lists,
            listing,
            k,
        ).filter(eligible_files(root, excludes)),
    decreases listing.len(),
{
    let b = below(lists, depth, root, excludes);
    let test = eligible_files(root, excludes);
    if listing.len() == 0 {
        assert(listing.reverse() =~= Seq::empty());
        lemma_filter_none(tree_files(lists, listing, k), test);
    } else {
        let front = listing.drop_last();
        let e = listing.last();
        assert forall|i: int| 0 <= i < front.len() && (#[trigger] front[i]).is_dir implies k > 0
            && nested_at_most(lists, lists(front[i].path@), (k - 1) as nat) by {
            assert(front[i] == listing[i]);
        }
        assert(listing[listing.len() - 1] == e);
        lemma_listing_files(lists, front, k, depth, root, excludes);
        lemma_entry_files(lists, e, k, depth, root, excludes);
        assert(listing.reverse() =~= seq![e] + front.reverse());
        lemma_files_of_concat(seq![e], front.reverse(), b, root, excludes);
        let before = tree_files(lists, front, k);
        if e.is_dir {
            Seq::filter_distributes_over_add(
                before,
                tree_files(lists, lists(e.path@), (k - 1) as nat),
                test,
            );
        } else {
            before.lemma_filter_push(e.path@, test);
            let nothing = Seq::<Seq<char>>::empty();
            assert(before.filter(test) + nothing =~= before.filter(test));
            assert(before.filter(test) + seq![e.path@] =~= before.filter(test).push(e.path@));
        }
    }
}

// ---------------------------------------------------------------------------
// Counting directories
// ---------------------------------------------------------------------------

/// The directories among some entries and below them.
spec fn dirs_of(
    lists: spec_fn(Seq<char>) -> Seq<DirEntry>,
    entries: Seq<DirEntry>,
    depth: nat,
) -> nat
    decreases entries.len(),
{
    if entries.len() == 0 {
        0
    } else {
        dirs_of(lists, entries.drop_last(), depth) + if entries.last().is_dir {
            1 + tree_dirs(lists, lists(entries.last().path@), depth)
        } else {
            0
        }
    }
}

/// Two rows of entries have as many directories as both together.
proof fn lemma_dirs_concat(
    lists: spec_fn(Seq<char>) -> Seq<DirEntry>,
    a: Seq<DirEntry>,
    b: Seq<DirEntry>,
    depth: nat,
)
    ensures
        dirs_of(lists, a + b, depth) == dirs_of(lists, a, depth) + dirs_of(lists, b, depth),
    decreases b.len(),
{
    if b.len() == 0 {
        assert(a + b =~= a);
    } else {
        assert((a + b).drop_last() =~= a + b.drop_last());
        lemma_dirs_concat(lists, a, b.drop_last(), depth);
    }
}

/// A listing has as many directories as its entries, in whatever order.
proof fn lemma_dirs_of_listing(
    lists: spec_fn(Seq<char>) -> Seq<DirEntry>,
    listing: Seq<DirEntry>,
    depth: nat,
)
    requires
        nested_at_most(lists, listing, depth),
    ensures
        dirs_of(lists, listing.reverse(), depth) == tree_dirs(lists, listing, depth),
    decreases listing.len(),
{
    if listing.len() == 0 {
        assert(listing.reverse() =~= Seq::empty());
    } else {
        let front = listing.drop_last();
        let e = listing.last();
        assert forall|i: int| 0 <= i < front.len() && (#[trigger] front[i]).is_dir implies depth > 0
            && nested_at_most(lists, lists(front[i].path@), (depth - 1) as nat) by {
            assert(front[i] == listing[i]);
        }
        assert(listing[listing.len() - 1] == e);
        lemma_dirs_of_listing(lists, front, depth);
        assert(listing.reverse() =~= seq![e] + front.reverse());
        lemma_dirs_concat(lists, seq![e], front.reverse(), depth);
        reveal_with_fuel(dirs_of, 2);
        assert(seq![e].drop_last() =~= Seq::empty());
        if e.is_dir {
            lemma_deeper(lists, lists(e.path@), (depth - 1) as nat, depth);
        }
    }
}

/// The directory that comes next is one of the pending entries; what stays pending
/// stands before it.
proof fn lemma_next_is_pending(
    lists: spec_fn(Seq<char>) -> Seq<DirEntry>,
    pending: Seq<DirEntry>,
    found: Seq<Seq<char>>,
    depth: nat,
    root: Seq<char>,
    excludes: Seq<Seq<char>>,
)
    requires
        walked(pending, found, root, excludes).2 is Some,
        each_nested(lists, pending, depth),
    ensures
        ({
            let (rest, now, next) = walked(pending, found, root, excludes);
            &&& each_nested(lists, rest, depth)
            &&& nested_at_most(lists, lists(next->0), depth)
            &&& dirs_of(lists, rest, depth) + 1 + tree_dirs(lists, lists(next->0), depth)
                <= dirs_of(lists, pending, depth)
        }),
    decreases pending.len(),
{
    if pending.len() > 0 {
        let e = pending.last();
        let front = pending.drop_last();
        assert forall|i: int| 0 <= i < front.len() && (#[trigger] front[i]).is_dir implies nested_at_most(
            lists,
            lists(front[i].path@),
            depth,
        ) by {
            assert(front[i] == pending[i]);
        }
        match treatment(e.path@, e.is_dir, root, excludes) {
            Treatment::Skip => {
                lemma_next_is_pending(lists, front, found, depth, root, excludes);
            },
            Treatment::Take => {
                lemma_next_is_pending(lists, front, found.push(e.path@), depth, root, excludes);
            },
            Treatment::Descend => {
                assert(pending[pending.len() - 1].is_dir);
            },
        }
    }
}

/// A scan that may ask for every directory ends with all files.
proof fn lemma_run(
    lists: spec_fn(Seq<char>) -> Seq<DirEntry>,
    pending: Seq<DirEntry>,
    found: Seq<Seq<char>>,
    listing: Seq<DirEntry>,
    depth: nat,
    root: Seq<char>,
    excludes: Seq<Seq<char>>,
    n: nat,
)
    requires
        lists_children(lists),
        each_nested(lists, pending, depth),
        nested_at_most(lists, listing, depth),
        n >= dirs_of(lists, pending, depth) + tree_dirs(lists, listing, depth),
    ensures
        ({
            let b = below(lists, depth, root, excludes);
            scan_run(lists, pending, found, listing, root, excludes, n) == Some(
                found + files_in(listing, b, root, excludes) + files_of(
                    pending,
                    b,
                    root,
                    excludes,
                ),
            )
        }),
    decreases n,
{
    let b = below(lists, depth, root, excludes);
    let stack = pending + listing.reverse();
    let target = found + files_in(listing, b, root, excludes) + files_of(
        pending,
        b,
        root,
        excludes,
    );
    let (rest, now, next) = walked(stack, found, root, excludes);
    if next is Some {
        let d = next->0;
        lemma_each_nested(lists, listing, depth);
        assert forall|i: int| 0 <= i < stack.len() && (#[trigger] stack[i]).is_dir implies nested_at_most(
            lists,
            lists(stack[i].path@),
            depth,
        ) by {
            if i < pending.len() {
                assert(stack[i] == pending[i]);
            } else {
                let j = listing.len() - 1 - (i - pending.len());
                assert(stack[i] == listing[j]);
            }
        }
        lemma_dirs_concat(lists, pending, listing.reverse(), depth);
        lemma_dirs_of_listing(lists, listing, depth);
        lemma_next_is_pending(lists, stack, found, depth, root, excludes);
        lemma_listing_files(lists, lists(d), depth, depth, root, excludes);
        law_scan_step_keeps_the_target(
            pending,
            found,
            listing,
            lists(d),
            b,
            root,
            excludes,
            target,
        );
        lemma_run(lists, rest, now, lists(d), depth, root, excludes, (n - 1) as nat);
    } else {
        law_scan_step_keeps_the_target(
            pending,
            found,
            listing,
            Seq::empty(),
            b,
            root,
            excludes,
            target,
        );
    }
}

// ---------------------------------------------------------------------------
// Laws
// ---------------------------------------------------------------------------

/// A scan of a directory ends, having asked for no more than the directories below
/// it, and finds exactly the files below it that are Python files and neither
/// ignored nor excluded, in the order of the listings.
pub proof fn law_scan_finds_the_tree(
    lists: spec_fn(Seq<char>) -> Seq<DirEntry>,
    start: Seq<char>,
    depth: nat,
    root: Seq<char>,
    excludes: Seq<Seq<char>>,
)
    requires
        lists_children(lists),
        nested_at_most(lists, lists(start), depth),
    ensures
        scan_of(lists, start, root, excludes, tree_dirs(lists, lists(start), depth)) == Some(
            tree_files(lists, lists(start), depth).filter(eligible_files(root, excludes)),
        ),
{
    let b = below(lists, depth, root, excludes);
    let nothing = Seq::<Seq<char>>::empty();
    let none = Seq::<DirEntry>::empty();
    let n = tree_dirs(lists, lists(start), depth);
    lemma_run(lists, none, nothing, lists(start), depth, root, excludes, n);
    lemma_listing_files(lists, lists(start), depth, depth, root, excludes);
    let all = files_in(lists(start), b, root, excludes);
    assert(nothing + all + files_of(none, b, root, excludes) =~= all);
}

/// What lies under two different entries of a directory is different.
proof fn lemma_siblings_are_apart(
    x: Seq<char>,
    y: Seq<char>,
    a: Seq<char>,
    b: Seq<char>,
    dir: Seq<char>,
)
    requires
        is_child(a, dir),
        is_child(b, dir),
        is_under(x, a),
        is_under(y, b),
        components(a) != components(b),
    ensures
        components(x) != components(y),
{
    if components(x) == components(y) {
        assert(components(a) =~= components(b));
    }
}

/// The files of a tree stand in it once.
proof fn lemma_tree_has_each_file_once(
    lists: spec_fn(Seq<char>) -> Seq<DirEntry>,
    dir: Seq<char>,
    n: int,
    depth: nat,
)
    requires
        lists_children(lists),
        lists_once(lists),
        0 <= n <= lists(dir).len(),
    ensures
        each_once(tree_files(lists, lists(dir).take(n), depth)),
    decreases depth, n,
{
    if n > 0 {
        let listing = lists(dir).take(n);
        let front = lists(dir).take(n - 1);
        let e = lists(dir)[n - 1];
        let all = tree_files(lists, listing, depth);
        let before = tree_files(lists, front, depth);
        assert(listing.drop_last() =~= front);
        assert(listing.last() == e);
        lemma_tree_has_each_file_once(lists, dir, n - 1, depth);
        if e.is_dir && depth > 0 {
            let inner = lists(e.path@);
            lemma_tree_has_each_file_once(lists, e.path@, inner.len() as int, (depth - 1) as nat);
            assert(inner.take(inner.len() as int) =~= inner);
        }
        assert forall|i: int, j: int| 0 <= i < j < all.len() implies components(
            #[trigger] all[i],
        ) != components(#[trigger] all[j]) by {
            if j < before.len() {
                assert(all[i] == before[i] && all[j] == before[j]);
            } else if i >= before.len() {
                let inner = tree_files(lists, lists(e.path@), (depth - 1) as nat);
                assert(all[i] == inner[i - before.len()]);
                assert(all[j] == inner[j - before.len()]);
            } else {
                assert(all[i] == before[i]);
                lemma_file_under_entry(lists, front, depth, i);
                let k = choose|k: int|
                    0 <= k < front.len() && is_under(before[i], (#[trigger] front[k]).path@);
                assert(front[k] == lists(dir)[k]);
                if e.is_dir {
                    let m = j - before.len();
                    assert(all[j] == tree_files(lists, lists(e.path@), (depth - 1) as nat)[m]);
                    lemma_file_under_dir(lists, e.path@, (depth - 1) as nat, m);
                } else {
                    assert(all[j] == e.path@);
                    assert(components(e.path@).subrange(0, components(e.path@).len() as int)
                        =~= components(e.path@));
                }
                assert(is_child(lists(dir)[k].path@, dir));
                assert(is_child(lists(dir)[n - 1].path@, dir));
                lemma_siblings_are_apart(all[i], all[j], front[k].path@, e.path@, dir);
            }
        }
    }
}

/// A choice among paths that stand once holds each of them once.
proof fn lemma_filter_each_once(v: Seq<Seq<char>>, p: spec_fn(Seq<char>) -> bool)
    requires
        each_once(v),
    ensures
        each_once(v.filter(p)),
    decreases v.len(),
{
    if v.len() == 0 {
        lemma_filter_none(v, p);
    } else {
        let front = v.drop_last();
        let x = v.last();
        assert forall|i: int, j: int| 0 <= i < j < front.len() implies components(
            #[trigger] front[i],
        ) != components(#[trigger] front[j]) by {
            assert(front[i] == v[i] && front[j] == v[j]);
        }
        lemma_filter_each_once(front, p);
        assert(v =~= front.push(x));
        front.lemma_filter_push(x, p);
        let kept = front.filter(p);
        let all = v.filter(p);
        assert forall|i: int, j: int| 0 <= i < j < all.len() implies components(
            #[trigger] all[i],
        ) != components(#[trigger] all[j]) by {
            assert(all[i] == kept[i]);
            if j < kept.len() {
                assert(all[j] == kept[j]);
            } else {
                assert(kept.contains(kept[i]));
                front.lemma_filter_contains_rev(p, kept[i]);
                let k = choose|k: int| 0 <= k < front.len() && front[k] == kept[i];
                assert(v[k] == front[k]);
                assert(v[v.len() - 1] == x);
            }
        }
    }
}

/// A scan finds no file twice, where no directory lists an entry twice.
pub proof fn law_scan_finds_no_file_twice(
    lists: spec_fn(Seq<char>) -> Seq<DirEntry>,
    start: Seq<char>,
    depth: nat,
    root: Seq<char>,
    excludes: Seq<Seq<char>>,
)
    requires
        lists_children(lists),
        lists_once(lists),
        nested_at_most(lists, lists(start), depth),
    ensures
        scan_of(lists, start, root, excludes, tree_dirs(lists, lists(start), depth)) matches Some(
            found,
        ) && each_once(found),
{
    law_scan_finds_the_tree(lists, start, depth, root, excludes);
    let listing = lists(start);
    lemma_tree_has_each_file_once(lists, start, listing.len() as int, depth);
    assert(listing.take(listing.len() as int) =~= listing);
    lemma_filter_each_once(
        tree_files(lists, listing, depth),
        eligible_files(root, excludes),
    );
}

} // verus!
