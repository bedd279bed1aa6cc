//! Stable sorting by a key.

use vstd::prelude::*;

verus! {

/// A value with a key from a total order.
pub trait Ranked: Sized {
    type Key;

    /// The key by which the value is sorted.
    spec fn key(&self) -> Self::Key;

    /// The strict order of keys.
    spec fn before(a: Self::Key, b: Self::Key) -> bool;

    /// Of two keys exactly one comes first, unless they are equal.
    proof fn order(a: Self::Key, b: Self::Key)
        ensures
            a == b ==> !Self::before(a, b),
            a != b ==> Self::before(a, b) != Self::before(b, a),
    ;

    /// The order is transitive.
    proof fn transitive(a: Self::Key, b: Self::Key, c: Self::Key)
        requires
            Self::before(a, b),
            Self::before(b, c),
        ensures
            Self::before(a, c),
    ;

    /// Compares two values by their keys.
    fn is_before(&self, other: &Self) -> (r: bool)
        ensures
            r == Self::before(self.key(), other.key()),
    ;
}

/// Whether no value stands behind one with a later key.
pub open spec fn ordered<T: Ranked>(s: Seq<T>) -> bool {
    forall|i: int, j: int|
        0 <= i < j < s.len() ==> !T::before(#[trigger] s[j].key(), #[trigger] s[i].key())
}

/// The values of `s` with the key `k`, in the order in which they stand.
pub open spec fn with_key<T: Ranked>(s: Seq<T>, k: T::Key) -> Seq<T> {
    s.filter(|x: T| x.key() == k)
}

/// Whether two sequences hold the same values, those with equal keys in the
/// same order.
pub open spec fn same_by_key<T: Ranked>(a: Seq<T>, b: Seq<T>) -> bool {
    forall|k: T::Key| #[trigger] with_key(a, k) == with_key(b, k)
}

/// Whether `output` is `input` sorted, equal keys keeping their order.
pub open spec fn stably_sorted<T: Ranked>(input: Seq<T>, output: Seq<T>) -> bool {
    ordered(output) && same_by_key(input, output)
}

/// The index behind the last value whose key is not later than that of `x`.
fn place_of<T: Ranked>(v: &Vec<T>, x: &T) -> (r: usize)
    requires
        ordered(v@),
    ensures
        r <= v@.len(),
        forall|i: int| 0 <= i < r ==> !T::before(x.key(), #[trigger] v@[i].key()),
        forall|i: int| r <= i < v@.len() ==> T::before(x.key(), #[trigger] v@[i].key()),
{
    let mut lo: usize = 0;
    let mut hi: usize = v.len();
    while lo < hi
        invariant
            lo <= hi <= v@.len(),
            ordered(v@),
            forall|i: int| 0 <= i < lo ==> !T::before(x.key(), #[trigger] v@[i].key()),
            forall|i: int| hi <= i < v@.len() ==> T::before(x.key(), #[trigger] v@[i].key()),
        decreases hi - lo,
    {
        let mid: usize = lo + (hi - lo) / 2;
        if x.is_before(&v[mid]) {
            proof {
                assert forall|i: int| mid <= i < v@.len() implies T::before(
                    x.key(),
                    #[trigger] v@[i].key(),
                ) by {
                    if i > mid {
                        T::order(v@[mid as int].key(), v@[i].key());
                        if v@[mid as int].key() != v@[i].key() {
                            T::transitive(x.key(), v@[mid as int].key(), v@[i].key());
                        }
                    }
                }
            }
            hi = mid;
        } else {
            proof {
                assert forall|i: int| 0 <= i < mid + 1 implies !T::before(
                    x.key(),
                    #[trigger] v@[i].key(),
                ) by {
                    if i < mid && T::before(x.key(), v@[i].key()) {
                        T::order(v@[i].key(), v@[mid as int].key());
                        if v@[i].key() != v@[mid as int].key() {
                            T::transitive(x.key(), v@[i].key(), v@[mid as int].key());
                        }
                    }
                }
            }
            lo = mid + 1;
        }
    }
    lo
}

/// A filter that nothing passes gives nothing.
pub proof fn lemma_filter_none<A>(s: Seq<A>, p: spec_fn(A) -> bool)
    requires
        forall|i: int| 0 <= i < s.len() ==> !p(#[trigger] s[i]),
    ensures
        s.filter(p) == Seq::<A>::empty(),
    decreases s.len(),
{
    reveal(Seq::filter);
    if s.len() > 0 {
        let t = s.drop_last();
        assert forall|i: int| 0 <= i < t.len() implies !p(#[trigger] t[i]) by {
            assert(t[i] == s[i]);
        }
        lemma_filter_none(t, p);
        assert(!p(s.last()));
    }
}

/// Filtering twice is filtering by both tests.
proof fn lemma_filter_twice<A>(s: Seq<A>, p: spec_fn(A) -> bool, q: spec_fn(A) -> bool)
    requires
        forall|x: A| q(x) ==> #[trigger] p(x),
    ensures
        s.filter(p).filter(q) == s.filter(q),
    decreases s.len(),
{
    if s.len() == 0 {
        assert(s.filter(p) =~= Seq::empty()) by {
            reveal(Seq::filter);
        }
        assert(s.filter(q) =~= Seq::empty()) by {
            reveal(Seq::filter);
        }
        assert(Seq::<A>::empty().filter(q) =~= Seq::empty()) by {
            reveal(Seq::filter);
        }
    } else {
        let t = s.drop_last();
        let x = s.last();
        assert(s =~= t.push(x));
        lemma_filter_twice(t, p, q);
        t.lemma_filter_push(x, p);
        t.lemma_filter_push(x, q);
        t.filter(p).lemma_filter_push(x, q);
        assert(q(x) ==> p(x));
    }
}

/// No value has a key that none has.
pub proof fn lemma_with_key_none<T: Ranked>(s: Seq<T>, k: T::Key)
    requires
        forall|i: int| 0 <= i < s.len() ==> (#[trigger] s[i]).key() != k,
    ensures
        with_key(s, k) == Seq::<T>::empty(),
{
    lemma_filter_none(s, |x: T| x.key() == k);
}

/// Filtering keeps the values with a key that always passes.
pub proof fn lemma_with_key_of_filter<T: Ranked>(s: Seq<T>, p: spec_fn(T) -> bool, k: T::Key)
    requires
        forall|x: T| x.key() == k ==> #[trigger] p(x),
    ensures
        with_key(s.filter(p), k) == with_key(s, k),
{
    lemma_filter_twice(s, p, |x: T| x.key() == k);
}

/// Inserting a value behind all that are not later keeps equal keys in order.
proof fn lemma_insert_keeps<T: Ranked>(s: Seq<T>, x: T, at: int)
    requires
        0 <= at <= s.len(),
        forall|i: int| at <= i < s.len() ==> T::before(x.key(), #[trigger] s[i].key()),
    ensures
        same_by_key(s.push(x), s.insert(at, x)),
{
    broadcast use Seq::filter_distributes_over_add;

    let left = s.take(at);
    let right = s.skip(at);
    assert(s =~= left + right);
    assert(s.insert(at, x) =~= (left + seq![x]) + right);
    assert(s.push(x) =~= (left + right) + seq![x]);
    assert forall|k: T::Key| #[trigger]
        with_key(s.push(x), k) == with_key(s.insert(at, x), k) by {
        let p = |y: T| y.key() == k;
        if x.key() == k {
            assert forall|i: int| 0 <= i < right.len() implies !p(#[trigger] right[i]) by {
                assert(right[i] == s[at + i]);
                T::order(x.key(), s[at + i].key());
            }
            lemma_filter_none(right, p);
            assert(left.filter(p) + Seq::<T>::empty() + seq![x].filter(p) =~= left.filter(p) + seq![
                x,
            ].filter(p) + Seq::<T>::empty());
        } else {
            assert forall|i: int| 0 <= i < seq![x].len() implies !p(#[trigger] seq![x][i]) by {}
            lemma_filter_none(seq![x], p);
            assert(left.filter(p) + right.filter(p) + Seq::<T>::empty() =~= left.filter(p)
                + Seq::<T>::empty() + right.filter(p));
        }
    }
}

/// Inserts `x` into a sorted vector, behind the values with the same key.
pub fn insert_sorted<T: Ranked>(v: &mut Vec<T>, x: T)
    requires
        ordered(old(v)@),
    ensures
        ordered(final(v)@),
        same_by_key(old(v)@.push(x), final(v)@),
{
    let ghost before = v@;
    let at = place_of(v, &x);
    v.insert(at, x);
    proof {
        lemma_insert_keeps(before, x, at as int);
        assert forall|i: int, j: int| 0 <= i < j < v@.len() implies !T::before(
            #[trigger] v@[j].key(),
            #[trigger] v@[i].key(),
        ) by {
            let oi = if i < at {
                i
            } else {
                i - 1
            };
            let oj = if j < at {
                j
            } else {
                j - 1
            };
            if i != at && j != at {
                assert(v@[i] == before[oi] && v@[j] == before[oj]);
            } else if i == at {
                assert(v@[j] == before[oj]);
                T::order(x.key(), before[oj].key());
            } else {
                assert(v@[i] == before[oi]);
            }
        }
    }
}

/// Appending to the input and inserting into the output keeps the relation.
pub proof fn lemma_sorted_push<T: Ranked>(input: Seq<T>, x: T, before: Seq<T>, after: Seq<T>)
    requires
        stably_sorted(input, before),
        ordered(after),
        same_by_key(before.push(x), after),
    ensures
        stably_sorted(input.push(x), after),
{
    assert forall|k: T::Key| #[trigger] with_key(input.push(x), k) == with_key(after, k) by {
        let p = |y: T| y.key() == k;
        input.lemma_filter_push(x, p);
        before.lemma_filter_push(x, p);
        assert(with_key(input, k) == with_key(before, k));
        assert(with_key(before.push(x), k) == with_key(after, k));
    }
}

/// An empty input is sorted.
pub proof fn lemma_sorted_empty<T: Ranked>()
    ensures
        stably_sorted(Seq::<T>::empty(), Seq::<T>::empty()),
{
}

/// A filter keeps what passes.
proof fn lemma_with_key_holds<T: Ranked>(s: Seq<T>, i: int)
    requires
        0 <= i < s.len(),
    ensures
        with_key(s, s[i].key()).contains(s[i]),
{
    let p = |y: T| y.key() == s[i].key();
    s.lemma_filter_contains(p, i);
}

/// What `with_key` gives stands in the sequence and has the key.
proof fn lemma_with_key_from<T: Ranked>(s: Seq<T>, k: T::Key, i: int)
    requires
        0 <= i < with_key(s, k).len(),
    ensures
        s.contains(with_key(s, k)[i]),
        with_key(s, k)[i].key() == k,
{
    let p = |y: T| y.key() == k;
    s.lemma_filter_pred(p, i);
    assert(s.filter(p).contains(s.filter(p)[i]));
    s.lemma_filter_contains_rev(p, s.filter(p)[i]);
}

/// A value stands in a sequence exactly where it stands among those with its key.
pub proof fn lemma_with_key_contains<T: Ranked>(s: Seq<T>, x: T)
    ensures
        with_key(s, x.key()).contains(x) == s.contains(x),
{
    if s.contains(x) {
        let i = choose|i: int| 0 <= i < s.len() && s[i] == x;
        lemma_with_key_holds(s, i);
    }
    if with_key(s, x.key()).contains(x) {
        let i = choose|i: int| 0 <= i < with_key(s, x.key()).len() && with_key(s, x.key())[i] == x;
        lemma_with_key_from(s, x.key(), i);
    }
}

/// `with_key` over the first value and the rest.
proof fn lemma_with_key_first<T: Ranked>(s: Seq<T>, k: T::Key)
    requires
        s.len() > 0,
    ensures
        with_key(s, k) == if s[0].key() == k {
            seq![s[0]] + with_key(s.drop_first(), k)
        } else {
            with_key(s.drop_first(), k)
        },
{
    let p = |y: T| y.key() == k;
    s.drop_first().lemma_filter_prepend(s[0], p);
    assert(s =~= seq![s[0]] + s.drop_first());
}

/// A sorted sequence is determined by the values it holds for each key.
pub proof fn lemma_sorted_unique<T: Ranked>(a: Seq<T>, b: Seq<T>)
    requires
        ordered(a),
        ordered(b),
        same_by_key(a, b),
    ensures
        a == b,
    decreases a.len(),
{
    if a.len() == 0 {
        if b.len() > 0 {
            lemma_with_key_holds(b, 0);
            assert(with_key(a, b[0].key()) == with_key(b, b[0].key()));
            let i = choose|i: int|
                0 <= i < with_key(b, b[0].key()).len() && with_key(b, b[0].key())[i] == b[0];
            lemma_with_key_from(a, b[0].key(), i);
        }
        assert(a =~= b);
    } else {
        lemma_with_key_holds(a, 0);
        let ka = a[0].key();
        assert(with_key(a, ka) == with_key(b, ka));
        let i = choose|i: int| 0 <= i < with_key(a, ka).len() && with_key(a, ka)[i] == a[0];
        lemma_with_key_from(b, ka, i);
        let j = choose|j: int| 0 <= j < b.len() && b[j] == with_key(b, ka)[i];
        let kb = b[0].key();
        lemma_with_key_holds(b, 0);
        assert(with_key(a, kb) == with_key(b, kb));
        let m = choose|m: int| 0 <= m < with_key(b, kb).len() && with_key(b, kb)[m] == b[0];
        lemma_with_key_from(a, kb, m);
        let n = choose|n: int| 0 <= n < a.len() && a[n] == with_key(a, kb)[m];
        T::order(ka, kb);
        assert(b[j].key() == ka);
        assert(a[n].key() == kb);
        assert(ka == kb);
        lemma_with_key_first(a, ka);
        lemma_with_key_first(b, ka);
        assert(a[0] == with_key(a, ka)[0]);
        assert(b[0] == with_key(b, ka)[0]);
        let ta = a.drop_first();
        let tb = b.drop_first();
        assert forall|k: T::Key| #[trigger] with_key(ta, k) == with_key(tb, k) by {
            lemma_with_key_first(a, k);
            lemma_with_key_first(b, k);
            assert(with_key(a, k) == with_key(b, k));
            if k == ka {
                assert((seq![a[0]] + with_key(ta, k)).skip(1) =~= with_key(ta, k));
                assert((seq![b[0]] + with_key(tb, k)).skip(1) =~= with_key(tb, k));
            }
        }
        assert forall|x: int, y: int| 0 <= x < y < ta.len() implies !T::before(
            #[trigger] ta[y].key(),
            #[trigger] ta[x].key(),
        ) by {
            assert(ta[x] == a[x + 1] && ta[y] == a[y + 1]);
        }
        assert forall|x: int, y: int| 0 <= x < y < tb.len() implies !T::before(
            #[trigger] tb[y].key(),
            #[trigger] tb[x].key(),
        ) by {
            assert(tb[x] == b[x + 1] && tb[y] == b[y + 1]);
        }
        lemma_sorted_unique(ta, tb);
        assert(a =~= seq![a[0]] + ta);
        assert(b =~= seq![b[0]] + tb);
    }
}

/// There is only one way to sort an input stably.
pub proof fn law_sorting_is_determined<T: Ranked>(input: Seq<T>, a: Seq<T>, b: Seq<T>)
    requires
        stably_sorted(input, a),
        stably_sorted(input, b),
    ensures
        a == b,
{
    assert forall|k: T::Key| #[trigger] with_key(a, k) == with_key(b, k) by {
        assert(with_key(input, k) == with_key(a, k));
        assert(with_key(input, k) == with_key(b, k));
    }
    lemma_sorted_unique(a, b);
}

/// A sequence holds the values that `same_by_key` relates it to.
pub proof fn lemma_same_contains<T: Ranked>(a: Seq<T>, b: Seq<T>, x: T)
    requires
        same_by_key(a, b),
    ensures
        a.contains(x) == b.contains(x),
{
    assert(with_key(a, x.key()) == with_key(b, x.key()));
    lemma_with_key_contains(a, x);
    lemma_with_key_contains(b, x);
}

/// The last value with a key, and nothing with that key behind it.
proof fn lemma_last_with_key<T: Ranked>(s: Seq<T>, k: T::Key) -> (j: int)
    requires
        with_key(s, k).len() > 0,
    ensures
        0 <= j < s.len(),
        s[j].key() == k,
        s[j] == with_key(s, k).last(),
        forall|i: int| j < i < s.len() ==> (#[trigger] s[i]).key() != k,
    decreases s.len(),
{
    let p = |x: T| x.key() == k;
    if s.len() == 0 {
        lemma_with_key_none(s, k);
        0
    } else {
        let t = s.drop_last();
        assert(s =~= t.push(s.last()));
        t.lemma_filter_push(s.last(), p);
        if s.last().key() == k {
            s.len() - 1
        } else {
            let j = lemma_last_with_key(t, k);
            assert forall|i: int| j < i < s.len() implies (#[trigger] s[i]).key() != k by {
                if i < t.len() {
                    assert(t[i] == s[i]);
                }
            }
            j
        }
    }
}

/// As many values pass a test in either of two sequences that hold the same
/// values.
pub proof fn lemma_same_count<T: Ranked>(a: Seq<T>, b: Seq<T>, q: spec_fn(T) -> bool)
    requires
        same_by_key(a, b),
    ensures
        a.filter(q).len() == b.filter(q).len(),
    decreases a.len(),
{
    broadcast use Seq::filter_distributes_over_add;

    if a.len() == 0 {
        if b.len() > 0 {
            lemma_same_contains(a, b, b[0]);
            assert(b.contains(b[0]));
        }
        assert(a =~= b);
    } else {
        let x = a.last();
        let k = x.key();
        let rest = a.drop_last();
        let p = |y: T| y.key() == k;
        assert(a =~= rest.push(x));
        rest.lemma_filter_push(x, p);
        rest.lemma_filter_push(x, q);
        assert(with_key(a, k) == with_key(b, k));
        let j = lemma_last_with_key(b, k);
        let left = b.take(j);
        let right = b.skip(j + 1);
        let without = left + right;
        assert(b =~= left + seq![x] + right);
        assert(b.filter(q) == left.filter(q) + seq![x].filter(q) + right.filter(q));
        assert(seq![x].filter(q).len() == if q(x) {
            1int
        } else {
            0
        }) by {
            Seq::<T>::empty().lemma_filter_push(x, q);
            assert(Seq::<T>::empty().push(x) =~= seq![x]);
            lemma_filter_none(Seq::<T>::empty(), q);
        }
        assert forall|c: T::Key| #[trigger] with_key(rest, c) == with_key(without, c) by {
            let r = |y: T| y.key() == c;
            rest.lemma_filter_push(x, r);
            assert(with_key(a, c) == with_key(b, c));
            assert(b.filter(r) == left.filter(r) + seq![x].filter(r) + right.filter(r));
            if c == k {
                assert forall|i: int| 0 <= i < right.len() implies (#[trigger] right[i]).key()
                    != c by {
                    assert(right[i] == b[j + 1 + i]);
                }
                lemma_with_key_none(right, c);
                assert(seq![x].filter(r) =~= seq![x]) by {
                    Seq::<T>::empty().lemma_filter_push(x, r);
                    assert(Seq::<T>::empty().push(x) =~= seq![x]);
                    lemma_filter_none(Seq::<T>::empty(), r);
                }
                assert(rest.filter(r).push(x) == left.filter(r) + seq![x] + Seq::<T>::empty());
                assert(left.filter(r) + seq![x] + Seq::<T>::empty() =~= left.filter(r).push(x));
                assert(rest.filter(r) =~= rest.filter(r).push(x).drop_last());
                assert(left.filter(r) =~= left.filter(r).push(x).drop_last());
                assert(with_key(without, c) =~= left.filter(r));
            } else {
                lemma_with_key_none(seq![x], c);
                assert(b.filter(r) =~= left.filter(r) + right.filter(r));
            }
        }
        lemma_same_count(rest, without, q);
    }
}

// ---------------------------------------------------------------------------
// Choosing and turning
// ---------------------------------------------------------------------------

/// One more value is turned if it is chosen.
pub proof fn lemma_choose_push<A, B>(
    s: Seq<A>,
    x: A,
    p: spec_fn(A) -> bool,
    f: spec_fn(A) -> B,
)
    ensures
        s.push(x).filter(p).map_values(f) == if p(x) {
            s.filter(p).map_values(f).push(f(x))
        } else {
            s.filter(p).map_values(f)
        },
{
    s.lemma_filter_push(x, p);
    if p(x) {
        assert(s.filter(p).push(x).map_values(f) =~= s.filter(p).map_values(f).push(f(x)));
    }
}

/// Of nothing, nothing is chosen.
pub proof fn lemma_choose_none<A, B>(s: Seq<A>, p: spec_fn(A) -> bool, f: spec_fn(A) -> B)
    requires
        s.len() == 0,
    ensures
        s.filter(p).map_values(f) == Seq::<B>::empty(),
{
    lemma_filter_none(s, p);
    assert(s.filter(p).map_values(f) =~= Seq::empty());
}

/// Sorting loses nothing and makes nothing up: every value stands in the output as
/// often as in the input.
pub proof fn law_sorting_is_a_permutation<T: Ranked>(input: Seq<T>, output: Seq<T>, x: T)
    requires
        stably_sorted(input, output),
    ensures
        input.len() == output.len(),
        input.filter(|y: T| y == x).len() == output.filter(|y: T| y == x).len(),
{
    let every = |y: T| true;
    lemma_same_count(input, output, every);
    lemma_filter_every(input, every);
    lemma_filter_every(output, every);
    lemma_same_count(input, output, |y: T| y == x);
}

/// A filter that everything passes keeps everything.
pub proof fn lemma_filter_every<A>(s: Seq<A>, p: spec_fn(A) -> bool)
    requires
        forall|i: int| 0 <= i < s.len() ==> p(#[trigger] s[i]),
    ensures
        s.filter(p) == s,
    decreases s.len(),
{
    reveal(Seq::filter);
    if s.len() > 0 {
        lemma_filter_every(s.drop_last(), p);
        assert(s.drop_last().push(s.last()) =~= s);
    }
}

/// Two tests that agree choose the same values.
pub proof fn lemma_filter_agrees<A>(s: Seq<A>, p: spec_fn(A) -> bool, q: spec_fn(A) -> bool)
    requires
        forall|i: int| 0 <= i < s.len() ==> p(#[trigger] s[i]) == q(s[i]),
    ensures
        s.filter(p) == s.filter(q),
    decreases s.len(),
{
    reveal(Seq::filter);
    if s.len() > 0 {
        let t = s.drop_last();
        assert forall|i: int| 0 <= i < t.len() implies p(#[trigger] t[i]) == q(t[i]) by {
            assert(t[i] == s[i]);
        }
        lemma_filter_agrees(t, p, q);
        assert(p(s[s.len() - 1]) == q(s[s.len() - 1]));
    }
}

/// The values with a key are those that a test for that key chooses.
pub proof fn lemma_with_key_is<T: Ranked>(s: Seq<T>, k: T::Key, p: spec_fn(T) -> bool)
    requires
        forall|x: T| #[trigger] p(x) == (x.key() == k),
    ensures
        with_key(s, k) == s.filter(p),
{
    lemma_filter_agrees(s, |x: T| x.key() == k, p);
}

} // verus!
