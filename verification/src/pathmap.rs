//! Maps from file paths.

use vstd::prelude::*;
use crate::paths::{all_parts, components, holds_path, same_parts, FilePath};
use crate::text::pieces;

verus! {

/// A path and what is kept for it.
#[derive(Debug)]
pub struct Entry<V> {
    pub path: FilePath,
    /// The components of the path.
    pub parts: Vec<Vec<char>>,
    pub value: V,
}

/// A map from paths to values.
#[derive(Debug)]
pub struct PathMap<V> {
    pub entries: Vec<Entry<V>>,
}

/// A path as a key.
pub type PathKey = Seq<Seq<char>>;

/// The keys of a sequence of entries.
pub open spec fn keys_of<V>(e: Seq<Entry<V>>) -> Seq<PathKey> {
    e.map_values(|x: Entry<V>| components(x.path@))
}

/// Whether each entry knows the components of its path.
pub open spec fn knows_parts<V>(e: Seq<Entry<V>>) -> bool {
    forall|i: int| 0 <= i < e.len() ==> pieces((#[trigger] e[i]).parts@) == components(e[i].path@)
}

/// The map that a sequence of entries stands for.
pub open spec fn map_of<V: View>(e: Seq<Entry<V>>) -> Map<PathKey, V::V> {
    Map::new(
        |c: PathKey| keys_of(e).contains(c),
        |c: PathKey| e[keys_of(e).index_of(c)].value@,
    )
}

impl<V: View> View for PathMap<V> {
    type V = Map<PathKey, V::V>;

    open spec fn view(&self) -> Map<PathKey, V::V> {
        map_of(self.entries@)
    }
}

/// The keys of `current`.
pub open spec fn key_set(current: Seq<FilePath>) -> Set<PathKey> {
    Set::new(|c: PathKey| holds_path(current, c))
}

/// The entry at an index is what the map holds for its path.
pub proof fn lemma_at<V: View>(e: Seq<Entry<V>>, i: int)
    requires
        keys_of(e).no_duplicates(),
        0 <= i < e.len(),
    ensures
        map_of(e).contains_key(components(e[i].path@)),
        map_of(e)[components(e[i].path@)] == e[i].value@,
        keys_of(e).index_of(components(e[i].path@)) == i,
{
    let k = keys_of(e);
    assert(k[i] == components(e[i].path@));
    assert(k.contains(k[i]));
    let j = k.index_of(k[i]);
    assert(0 <= j < k.len() && k[j] == k[i]);
}

/// Appending an entry for a new path inserts it into the map.
proof fn lemma_push<V: View>(e: Seq<Entry<V>>, x: Entry<V>)
    requires
        keys_of(e).no_duplicates(),
        !keys_of(e).contains(components(x.path@)),
    ensures
        keys_of(e.push(x)).no_duplicates(),
        map_of(e.push(x)) == map_of(e).insert(components(x.path@), x.value@),
{
    let c = components(x.path@);
    let k = keys_of(e);
    let k2 = keys_of(e.push(x));
    assert(k2 =~= k.push(c));
    let left = map_of(e.push(x));
    let right = map_of(e).insert(c, x.value@);
    assert forall|q: PathKey| left.contains_key(q) == right.contains_key(q) by {
        if k2.contains(q) {
            let j = choose|j: int| 0 <= j < k2.len() && k2[j] == q;
            if j < k.len() {
                assert(k[j] == q);
            }
        }
        if k.contains(q) {
            let j = choose|j: int| 0 <= j < k.len() && k[j] == q;
            assert(k2[j] == q);
        }
        if q == c {
            assert(k2[k.len() as int] == q);
        }
    }
    assert forall|q: PathKey| #[trigger] left.contains_key(q) implies left[q] == right[q] by {
        let j = choose|j: int| 0 <= j < k2.len() && k2[j] == q;
        lemma_at(e.push(x), j);
        if j < k.len() {
            assert(k[j] == q);
            lemma_at(e, j);
        }
    }
    assert(left =~= right);
}

/// Taking the last entry off removes its path from the map.
proof fn lemma_pop<V: View>(e: Seq<Entry<V>>)
    requires
        keys_of(e).no_duplicates(),
        e.len() > 0,
    ensures
        keys_of(e.drop_last()).no_duplicates(),
        !map_of(e.drop_last()).contains_key(components(e.last().path@)),
        map_of(e) == map_of(e.drop_last()).insert(components(e.last().path@), e.last().value@),
{
    let k = keys_of(e);
    let rest = e.drop_last();
    assert(keys_of(rest) =~= k.drop_last());
    assert(k[k.len() - 1] == components(e.last().path@));
    assert(!keys_of(rest).contains(components(e.last().path@)));
    lemma_push(rest, e.last());
    assert(rest.push(e.last()) =~= e);
}

/// Replacing an entry inserts its value into the map.
proof fn lemma_set<V: View>(e: Seq<Entry<V>>, i: int, x: Entry<V>)
    requires
        keys_of(e).no_duplicates(),
        0 <= i < e.len(),
        components(x.path@) == components(e[i].path@),
    ensures
        keys_of(e.update(i, x)).no_duplicates(),
        map_of(e.update(i, x)) == map_of(e).insert(components(x.path@), x.value@),
{
    let c = components(x.path@);
    let k = keys_of(e);
    assert(keys_of(e.update(i, x)) =~= k);
    let left = map_of(e.update(i, x));
    let right = map_of(e).insert(c, x.value@);
    assert(k[i] == c);
    assert forall|q: PathKey| left.contains_key(q) == right.contains_key(q) by {}
    assert forall|q: PathKey| #[trigger] left.contains_key(q) implies left[q] == right[q] by {
        let j = choose|j: int| 0 <= j < k.len() && k[j] == q;
        lemma_at(e.update(i, x), j);
        lemma_at(e, j);
    }
    assert(left =~= right);
}

/// Removing an entry removes its path from the map.
proof fn lemma_remove<V: View>(e: Seq<Entry<V>>, i: int)
    requires
        keys_of(e).no_duplicates(),
        0 <= i < e.len(),
    ensures
        keys_of(e.remove(i)).no_duplicates(),
        map_of(e.remove(i)) == map_of(e).remove(components(e[i].path@)),
{
    let c = components(e[i].path@);
    let k = keys_of(e);
    let rest = e.remove(i);
    let k2 = keys_of(rest);
    assert(k2 =~= k.remove(i));
    assert(k[i] == c);
    assert(k2.no_duplicates());
    let left = map_of(rest);
    let right = map_of(e).remove(c);
    assert forall|q: PathKey| left.contains_key(q) == right.contains_key(q) by {
        if k2.contains(q) {
            let j = choose|j: int| 0 <= j < k2.len() && k2[j] == q;
            let o = if j < i {
                j
            } else {
                j + 1
            };
            assert(k[o] == q);
        }
        if k.contains(q) && q != c {
            let j = choose|j: int| 0 <= j < k.len() && k[j] == q;
            let o = if j < i {
                j
            } else {
                j - 1
            };
            assert(k2[o] == q);
        }
    }
    assert forall|q: PathKey| #[trigger] left.contains_key(q) implies left[q] == right[q] by {
        let j = choose|j: int| 0 <= j < k2.len() && k2[j] == q;
        lemma_at(rest, j);
        let o = if j < i {
            j
        } else {
            j + 1
        };
        assert(rest[j] == e[o]);
        lemma_at(e, o);
    }
    assert(left =~= right);
}

/// Whether the path with some components is among the current ones.
fn among(wanted: &Vec<Vec<Vec<char>>>, parts: &Vec<Vec<char>>, current: &Vec<FilePath>) -> (r: bool)
    requires
        wanted@.len() == current@.len(),
        forall|i: int|
            0 <= i < current@.len() ==> pieces((#[trigger] wanted@[i])@) == components(
                current@[i]@,
            ),
    ensures
        r == holds_path(current@, pieces(parts@)),
{
    let mut i: usize = 0;
    while i < wanted.len()
        invariant
            i <= wanted@.len(),
            wanted@.len() == current@.len(),
            forall|j: int|
                0 <= j < current@.len() ==> pieces((#[trigger] wanted@[j])@) == components(
                    current@[j]@,
                ),
            forall|j: int| 0 <= j < i ==> components(#[trigger] current@[j]@) != pieces(parts@),
        decreases wanted@.len() - i,
    {
        if same_parts(&wanted[i], parts) {
            assert(components(current@[i as int]@) == pieces(parts@));
            return true;
        }
        i += 1;
    }
    false
}

impl<V: View> PathMap<V> {
    /// Whether no path has two entries, and each entry knows its components.
    pub open spec fn wf(&self) -> bool {
        keys_of(self.entries@).no_duplicates() && knows_parts(self.entries@)
    }

    /// A map without paths.
    pub fn new() -> (r: PathMap<V>)
        ensures
            r.wf(),
            r@ == Map::<PathKey, V::V>::empty(),
    {
        let r = PathMap { entries: Vec::new() };
        assert(r@ =~= Map::empty());
        r
    }

    /// The index of the entry for the path with some components.
    fn find(&self, parts: &Vec<Vec<char>>) -> (r: Option<usize>)
        requires
            self.wf(),
        ensures
            match r {
                Some(i) => {
                    &&& i < self.entries@.len()
                    &&& components(self.entries@[i as int].path@) == pieces(parts@)
                    &&& self@.contains_key(pieces(parts@))
                    &&& self@[pieces(parts@)] == self.entries@[i as int].value@
                },
                None => !self@.contains_key(pieces(parts@)),
            },
    {
        let ghost k = keys_of(self.entries@);
        let mut i: usize = 0;
        while i < self.entries.len()
            invariant
                i <= self.entries@.len(),
                self.wf(),
                k == keys_of(self.entries@),
                forall|j: int| 0 <= j < i ==> k[j] != pieces(parts@),
            decreases self.entries@.len() - i,
        {
            if same_parts(&self.entries[i].parts, parts) {
                proof {
                    lemma_at(self.entries@, i as int);
                }
                return Some(i);
            }
            assert(k[i as int] == components(self.entries@[i as int].path@));
            i += 1;
        }
        None
    }

    /// What is kept for a path.
    pub fn get(&self, path: &FilePath) -> (r: Option<&V>)
        requires
            self.wf(),
        ensures
            match r {
                Some(v) => {
                    &&& self@.contains_key(components(path@))
                    &&& self@[components(path@)] == v@
                },
                None => !self@.contains_key(components(path@)),
            },
    {
        let parts = path.parts();
        match self.find(&parts) {
            Some(i) => Some(&self.entries[i].value),
            None => None,
        }
    }

    /// Sets the value for a path.
    pub fn put(&mut self, path: FilePath, value: V)
        requires
            old(self).wf(),
        ensures
            final(self).wf(),
            final(self)@ == old(self)@.insert(components(path@), value@),
    {
        let parts = path.parts();
        self.put_entry(Entry { path, parts, value });
    }

    /// Sets the value for a path whose components are known.
    fn put_entry(&mut self, entry: Entry<V>)
        requires
            old(self).wf(),
            pieces(entry.parts@) == components(entry.path@),
        ensures
            final(self).wf(),
            final(self)@ == old(self)@.insert(components(entry.path@), entry.value@),
    {
        let ghost before = self.entries@;
        match self.find(&entry.parts) {
            Some(i) => {
                proof {
                    lemma_set(before, i as int, entry);
                }
                self.entries.set(i, entry);
            },
            None => {
                proof {
                    lemma_push(before, entry);
                }
                self.entries.push(entry);
            },
        }
    }

    /// Takes the value for a path out of the map.
    pub fn take(&mut self, path: &FilePath) -> (r: Option<V>)
        requires
            old(self).wf(),
        ensures
            final(self).wf(),
            final(self)@ == old(self)@.remove(components(path@)),
            match r {
                Some(v) => {
                    &&& old(self)@.contains_key(components(path@))
                    &&& old(self)@[components(path@)] == v@
                },
                None => !old(self)@.contains_key(components(path@)),
            },
    {
        let ghost before = self.entries@;
        let parts = path.parts();
        match self.find(&parts) {
            Some(i) => {
                let entry = self.entries.remove(i);
                proof {
                    lemma_remove(before, i as int);
                    assert forall|j: int| 0 <= j < self.entries@.len() implies pieces(
                        (#[trigger] self.entries@[j]).parts@,
                    ) == components(self.entries@[j].path@) by {
                        let o = if j < i {
                            j
                        } else {
                            j + 1
                        };
                        assert(self.entries@[j] == before[o]);
                    }
                }
                Some(entry.value)
            },
            None => {
                assert(self@ =~= old(self)@.remove(components(path@)));
                None
            },
        }
    }

    /// Removes the paths that are not in `current`.
    pub fn keep_only(&mut self, current: &Vec<FilePath>)
        requires
            old(self).wf(),
        ensures
            final(self).wf(),
            final(self)@ == old(self)@.restrict(key_set(current@)),
    {
        let ghost whole = self@;
        let ghost set = key_set(current@);
        let wanted = all_parts(current);
        let mut kept: PathMap<V> = PathMap::new();
        assert(whole.restrict(set).union_prefer_right(kept@) =~= whole.restrict(set));
        while self.entries.len() > 0
            invariant
                self.wf(),
                kept.wf(),
                set == key_set(current@),
                wanted@.len() == current@.len(),
                forall|i: int|
                    0 <= i < current@.len() ==> pieces((#[trigger] wanted@[i])@) == components(
                        current@[i]@,
                    ),
                self@.restrict(set).union_prefer_right(kept@) == whole.restrict(set),
                forall|c: PathKey| #[trigger] kept@.contains_key(c) ==> !self@.contains_key(c),
            decreases self.entries@.len(),
        {
            let ghost e = self.entries@;
            proof {
                lemma_pop(e);
            }
            if let Some(entry) = self.entries.pop() {
                let ghost c = components(entry.path@);
                let ghost part = self@;
                let ghost v = entry.value@;
                let ghost before = kept@;
                assert(self.entries@ =~= e.drop_last());
                assert(!before.contains_key(c)) by {
                    if before.contains_key(c) {
                        assert(map_of(e).contains_key(c));
                    }
                }
                assert(pieces(entry.parts@) == c) by {
                    assert(e[e.len() - 1] == entry);
                }
                if among(&wanted, &entry.parts, current) {
                    kept.put_entry(entry);
                    assert(part.restrict(set).union_prefer_right(kept@) =~= part.insert(
                        c,
                        v,
                    ).restrict(set).union_prefer_right(before));
                } else {
                    assert(part.insert(c, v).restrict(set) =~= part.restrict(set));
                }
            }
        }
        proof {
            assert(self@.restrict(set) =~= Map::empty());
            assert(self@.restrict(set).union_prefer_right(kept@) =~= kept@);
        }
        self.entries = kept.entries;
    }

    /// The number of paths.
    pub fn count(&self) -> (r: usize)
        requires
            self.wf(),
        ensures
            self@.dom().finite(),
            r == self@.dom().len(),
    {
        proof {
            let k = keys_of(self.entries@);
            k.unique_seq_to_set();
            assert(self@.dom() =~= k.to_set());
        }
        self.entries.len()
    }

    /// Takes over everything from another map.
    pub fn merge(&mut self, other: PathMap<V>)
        requires
            old(self).wf(),
            other.wf(),
        ensures
            final(self).wf(),
            final(self)@ == old(self)@.union_prefer_right(other@),
    {
        let ghost base = self@;
        let ghost whole = other@;
        let mut rest = other;
        let ghost mut done: Map<PathKey, V::V> = Map::empty();
        proof {
            assert(base.union_prefer_right(done) =~= base);
            assert(rest@.union_prefer_right(done) =~= whole);
        }
        while rest.entries.len() > 0
            invariant
                self.wf(),
                rest.wf(),
                self@ == base.union_prefer_right(done),
                rest@.union_prefer_right(done) == whole,
                forall|c: PathKey| #[trigger] done.contains_key(c) ==> !rest@.contains_key(c),
            decreases rest.entries@.len(),
        {
            let ghost e = rest.entries@;
            proof {
                lemma_pop(e);
            }
            if let Some(entry) = rest.entries.pop() {
                let ghost c = components(entry.path@);
                let ghost v = entry.value@;
                let ghost part = rest@;
                assert(rest.entries@ =~= e.drop_last());
                assert(!done.contains_key(c)) by {
                    if done.contains_key(c) {
                        assert(map_of(e).contains_key(c));
                    }
                }
                assert(pieces(entry.parts@) == c) by {
                    assert(e[e.len() - 1] == entry);
                }
                self.put_entry(entry);
                proof {
                    assert(base.union_prefer_right(done).insert(c, v) =~= base.union_prefer_right(
                        done.insert(c, v),
                    ));
                    assert(part.insert(c, v).union_prefer_right(done) =~= part.union_prefer_right(
                        done.insert(c, v),
                    ));
                    done = done.insert(c, v);
                }
            }
        }
        proof {
            assert(rest@ =~= Map::empty());
            assert(rest@.union_prefer_right(done) =~= done);
        }
    }
}

// ---------------------------------------------------------------------------
// Laws
// ---------------------------------------------------------------------------

/// The keys of some paths are their components, and no others.
pub proof fn law_key_set_holds_every_path(current: Seq<FilePath>, c: PathKey)
    ensures
        key_set(current).contains(c) == exists|i: int|
            0 <= i < current.len() && components((#[trigger] current[i])@) == c,
{
    if holds_path(current, c) {
        let i = choose|i: int| 0 <= i < current.len() && components(#[trigger] current[i]@) == c;
        assert(components(current[i]@) == c);
    }
}

/// A map holds a value for a path exactly where an entry has that path, and it is the
/// value of that entry.
pub proof fn law_map_holds_every_entry<V: View>(m: PathMap<V>, c: PathKey)
    requires
        m.wf(),
    ensures
        m@.contains_key(c) == exists|i: int|
            0 <= i < m.entries@.len() && components((#[trigger] m.entries@[i]).path@) == c,
        forall|i: int|
            0 <= i < m.entries@.len() && components((#[trigger] m.entries@[i]).path@) == c
                ==> m@[c] == m.entries@[i].value@,
{
    let e = m.entries@;
    if m@.contains_key(c) {
        let i = keys_of(e).index_of(c);
        assert(keys_of(e).contains(c));
        assert(0 <= i < e.len() && keys_of(e)[i] == c);
        assert(components(e[i].path@) == c);
    }
    assert forall|i: int|
        0 <= i < e.len() && components((#[trigger] e[i]).path@) == c implies m@.contains_key(c)
        && m@[c] == e[i].value@ by {
        lemma_at(e, i);
    }
}

} // verus!
