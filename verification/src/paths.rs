//! File paths with `/` as separator, compared by components.
//!
//! A path is kept as the text it was given in. Two paths are the same path when
//! they have the same components: repeated separators, a trailing separator and
//! inner `.` components do not count.
//!
//! Windows writes paths with `\` as well and starts them with a drive. Such texts
//! are turned into this form where they come in, and back where they go out.

use vstd::prelude::*;
use crate::text::{
    append, chars_of, lemma_until, pieces, same_chars, split_char, split_on, string_of, until,
};

verus! {

// ---------------------------------------------------------------------------
// Components
// ---------------------------------------------------------------------------

/// The root component.
pub open spec fn root() -> Seq<char> {
    seq!['/']
}

/// The component for the current directory.
pub open spec fn dot() -> Seq<char> {
    seq!['.']
}

/// The component for the parent directory.
pub open spec fn dot_dot() -> Seq<char> {
    seq!['.', '.']
}

/// Whether a path starts at the root.
pub open spec fn is_absolute(p: Seq<char>) -> bool {
    p.len() > 0 && p[0] == '/'
}

/// The pieces that count as components: not the empty ones, and a `.` only at
/// the very start.
pub open spec fn kept(parts: Seq<Seq<char>>, first: bool) -> Seq<Seq<char>>
    decreases parts.len(),
{
    if parts.len() == 0 {
        Seq::empty()
    } else {
        let rest = kept(parts.drop_first(), false);
        if parts[0].len() == 0 || (parts[0] == dot() && !first) {
            rest
        } else {
            seq![parts[0]] + rest
        }
    }
}

/// The components of a path.
pub open spec fn components(p: Seq<char>) -> Seq<Seq<char>> {
    let names = kept(split_on(p, '/'), true);
    if is_absolute(p) {
        seq![root()] + names
    } else {
        names
    }
}

/// Whether a component is an ordinary name.
pub open spec fn is_normal(c: Seq<char>) -> bool {
    c != root() && c != dot() && c != dot_dot()
}

/// The file name: the last component, if that is an ordinary name.
pub open spec fn file_name(p: Seq<char>) -> Option<Seq<char>> {
    let c = components(p);
    if c.len() > 0 && is_normal(c.last()) {
        Some(c.last())
    } else {
        None
    }
}

/// The index of the last dot of a name, or -1.
pub open spec fn last_dot(name: Seq<char>) -> int
    decreases name.len(),
{
    if name.len() == 0 {
        -1
    } else if name.last() == '.' {
        name.len() - 1
    } else {
        last_dot(name.drop_last())
    }
}

/// The part of the file name after its last dot. A dot at the start of the name
/// does not begin an extension.
pub open spec fn extension(p: Seq<char>) -> Option<Seq<char>> {
    match file_name(p) {
        Some(name) => if last_dot(name) > 0 {
            Some(name.skip(last_dot(name) + 1))
        } else {
            None
        },
        None => None,
    }
}

/// The file name without its extension.
pub open spec fn file_stem(p: Seq<char>) -> Option<Seq<char>> {
    match file_name(p) {
        Some(name) => if last_dot(name) > 0 {
            Some(name.take(last_dot(name)))
        } else {
            Some(name)
        },
        None => None,
    }
}

/// `rel` taken relative to `base`. An absolute `rel` stands for itself.
pub open spec fn join(base: Seq<char>, rel: Seq<char>) -> Seq<char> {
    if is_absolute(rel) {
        rel
    } else if base.len() == 0 || base.last() == '/' {
        base + rel
    } else {
        base.push('/') + rel
    }
}

/// A path without what follows its last component: separators, and `.` behind a
/// separator.
pub open spec fn bare(p: Seq<char>) -> Seq<char>
    decreases p.len(),
{
    if p.len() > 1 && (p.last() == '/' || (p.last() == '.' && p[p.len() - 2] == '/')) {
        bare(p.drop_last())
    } else {
        p
    }
}

/// Where the last piece of a text begins: behind its last separator.
pub open spec fn name_start(p: Seq<char>) -> nat
    decreases p.len(),
{
    if p.len() == 0 {
        0
    } else if p.last() == '/' {
        p.len()
    } else {
        name_start(p.drop_last())
    }
}

/// What stands before the last component, separators at its end left in.
pub open spec fn before_name(p: Seq<char>) -> Seq<char> {
    bare(p).take(name_start(bare(p)) as int)
}

/// The path of the directory that holds a path. The root and the empty path have
/// none.
pub open spec fn parent(p: Seq<char>) -> Option<Seq<char>> {
    let c = components(p);
    if c.len() == 0 || c.last() == root() {
        None
    } else {
        Some(bare(before_name(p)))
    }
}

/// The path with another extension. A path without a file name stays as it is.
pub open spec fn with_extension(p: Seq<char>, ext: Seq<char>) -> Seq<char> {
    match file_stem(p) {
        Some(stem) => before_name(p) + stem + "."@ + ext,
        None => p,
    }
}

/// Whether `p` is `base` or lies below it.
pub open spec fn is_under(p: Seq<char>, base: Seq<char>) -> bool {
    components(base).is_prefix_of(components(p))
}

// ---------------------------------------------------------------------------
// Order
// ---------------------------------------------------------------------------

/// Strict lexicographic order of texts.
pub open spec fn text_before(a: Seq<char>, b: Seq<char>) -> bool
    decreases a.len(),
{
    if b.len() == 0 {
        false
    } else if a.len() == 0 {
        true
    } else if a[0] != b[0] {
        a[0] < b[0]
    } else {
        text_before(a.drop_first(), b.drop_first())
    }
}

/// Components are ordered by kind first.
pub open spec fn kind_of(c: Seq<char>) -> int {
    if c == root() {
        0
    } else if c == dot() {
        1
    } else if c == dot_dot() {
        2
    } else {
        3
    }
}

/// Strict order of components.
pub open spec fn component_before(a: Seq<char>, b: Seq<char>) -> bool {
    kind_of(a) < kind_of(b) || (kind_of(a) == kind_of(b) && text_before(a, b))
}

/// Strict lexicographic order of component sequences.
pub open spec fn components_before(a: Seq<Seq<char>>, b: Seq<Seq<char>>) -> bool
    decreases a.len(),
{
    if b.len() == 0 {
        false
    } else if a.len() == 0 {
        true
    } else if a[0] != b[0] {
        component_before(a[0], b[0])
    } else {
        components_before(a.drop_first(), b.drop_first())
    }
}

/// Of two texts exactly one comes first, unless they are equal.
pub proof fn lemma_text_order(a: Seq<char>, b: Seq<char>)
    ensures
        a == b ==> !text_before(a, b),
        a != b ==> text_before(a, b) != text_before(b, a),
    decreases a.len(),
{
    if a.len() > 0 && b.len() > 0 && a[0] == b[0] {
        lemma_text_order(a.drop_first(), b.drop_first());
        if a.drop_first() == b.drop_first() {
            assert(a =~= seq![a[0]] + a.drop_first());
            assert(b =~= seq![b[0]] + b.drop_first());
        }
    } else if a.len() == 0 && b.len() == 0 {
        assert(a =~= b);
    }
}

/// The order of texts is transitive.
pub proof fn lemma_text_transitive(a: Seq<char>, b: Seq<char>, c: Seq<char>)
    requires
        text_before(a, b),
        text_before(b, c),
    ensures
        text_before(a, c),
    decreases a.len(),
{
    if a.len() > 0 && b.len() > 0 && c.len() > 0 && a[0] == b[0] && b[0] == c[0] {
        lemma_text_transitive(a.drop_first(), b.drop_first(), c.drop_first());
    }
}

/// Of two components exactly one comes first, unless they are equal.
pub proof fn lemma_component_order(a: Seq<char>, b: Seq<char>)
    ensures
        a == b ==> !component_before(a, b),
        a != b ==> component_before(a, b) != component_before(b, a),
{
    lemma_text_order(a, b);
}

/// The order of components is transitive.
pub proof fn lemma_component_transitive(a: Seq<char>, b: Seq<char>, c: Seq<char>)
    requires
        component_before(a, b),
        component_before(b, c),
    ensures
        component_before(a, c),
{
    if kind_of(a) == kind_of(b) && kind_of(b) == kind_of(c) {
        lemma_text_transitive(a, b, c);
    }
}

/// Of two component sequences exactly one comes first, unless they are equal.
pub proof fn lemma_components_order(a: Seq<Seq<char>>, b: Seq<Seq<char>>)
    ensures
        a == b ==> !components_before(a, b),
        a != b ==> components_before(a, b) != components_before(b, a),
    decreases a.len(),
{
    if a.len() > 0 && b.len() > 0 {
        if a[0] == b[0] {
            lemma_components_order(a.drop_first(), b.drop_first());
            if a.drop_first() == b.drop_first() {
                assert(a =~= seq![a[0]] + a.drop_first());
                assert(b =~= seq![b[0]] + b.drop_first());
            }
        } else {
            lemma_component_order(a[0], b[0]);
        }
    } else if a.len() == 0 && b.len() == 0 {
        assert(a =~= b);
    }
}

/// The order of component sequences is transitive.
pub proof fn lemma_components_transitive(a: Seq<Seq<char>>, b: Seq<Seq<char>>, c: Seq<Seq<char>>)
    requires
        components_before(a, b),
        components_before(b, c),
    ensures
        components_before(a, c),
    decreases a.len(),
{
    if a.len() > 0 && b.len() > 0 && c.len() > 0 {
        if a[0] == b[0] && b[0] == c[0] {
            lemma_components_transitive(a.drop_first(), b.drop_first(), c.drop_first());
        } else if a[0] != b[0] && b[0] != c[0] {
            lemma_component_transitive(a[0], b[0], c[0]);
            lemma_component_order(a[0], c[0]);
            lemma_component_order(a[0], b[0]);
        }
    }
}

/// Where one value stands with regard to another.
#[derive(Clone, Copy, Debug, PartialEq, Eq, Structural)]
pub enum Rank {
    Before,
    Same,
    After,
}

/// Ranks two texts.
pub fn rank_texts(a: &[char], b: &[char]) -> (r: Rank)
    ensures
        match r {
            Rank::Before => text_before(a@, b@),
            Rank::Same => a@ == b@,
            Rank::After => text_before(b@, a@),
        },
{
    let mut i: usize = 0;
    assert(a@.skip(0) =~= a@);
    assert(b@.skip(0) =~= b@);
    while i < a.len() && i < b.len()
        invariant
            i <= a@.len(),
            i <= b@.len(),
            text_before(a@, b@) == text_before(a@.skip(i as int), b@.skip(i as int)),
            text_before(b@, a@) == text_before(b@.skip(i as int), a@.skip(i as int)),
            forall|j: int| 0 <= j < i ==> a@[j] == b@[j],
        decreases a@.len() - i,
    {
        if a[i] < b[i] {
            return Rank::Before;
        }
        if a[i] > b[i] {
            return Rank::After;
        }
        assert(a@.skip(i as int).drop_first() =~= a@.skip(i + 1));
        assert(b@.skip(i as int).drop_first() =~= b@.skip(i + 1));
        i += 1;
    }
    if i < b.len() {
        Rank::Before
    } else if i < a.len() {
        Rank::After
    } else {
        assert(a@ =~= b@);
        Rank::Same
    }
}

/// Computes `kind_of`.
fn component_kind(c: &[char]) -> (r: u8)
    ensures
        r == kind_of(c@),
{
    if c.len() == 1 && c[0] == '/' {
        assert(c@ =~= root());
        0
    } else if c.len() == 1 && c[0] == '.' {
        assert(c@ =~= dot());
        1
    } else if c.len() == 2 && c[0] == '.' && c[1] == '.' {
        assert(c@ =~= dot_dot());
        2
    } else {
        3
    }
}

/// Ranks two components.
fn rank_component(a: &[char], b: &[char]) -> (r: Rank)
    ensures
        match r {
            Rank::Before => component_before(a@, b@),
            Rank::Same => a@ == b@,
            Rank::After => component_before(b@, a@),
        },
{
    let ka = component_kind(a);
    let kb = component_kind(b);
    if ka < kb {
        Rank::Before
    } else if ka > kb {
        Rank::After
    } else {
        rank_texts(a, b)
    }
}

/// Ranks two component sequences.
fn rank_components(a: &Vec<Vec<char>>, b: &Vec<Vec<char>>) -> (r: Rank)
    ensures
        match r {
            Rank::Before => components_before(pieces(a@), pieces(b@)),
            Rank::Same => pieces(a@) == pieces(b@),
            Rank::After => components_before(pieces(b@), pieces(a@)),
        },
{
    let ghost x = pieces(a@);
    let ghost y = pieces(b@);
    let mut i: usize = 0;
    assert(x.skip(0) =~= x);
    assert(y.skip(0) =~= y);
    while i < a.len() && i < b.len()
        invariant
            x == pieces(a@),
            y == pieces(b@),
            i <= a@.len(),
            i <= b@.len(),
            components_before(x, y) == components_before(x.skip(i as int), y.skip(i as int)),
            components_before(y, x) == components_before(y.skip(i as int), x.skip(i as int)),
            forall|j: int| 0 <= j < i ==> x[j] == y[j],
        decreases a@.len() - i,
    {
        proof {
            lemma_component_order(x[i as int], y[i as int]);
            assert(x.skip(i as int).drop_first() =~= x.skip(i + 1));
            assert(y.skip(i as int).drop_first() =~= y.skip(i + 1));
        }
        match rank_component(a[i].as_slice(), b[i].as_slice()) {
            Rank::Before => {
                return Rank::Before;
            },
            Rank::After => {
                return Rank::After;
            },
            Rank::Same => {},
        }
        i += 1;
    }
    if i < b.len() {
        Rank::Before
    } else if i < a.len() {
        Rank::After
    } else {
        assert(x =~= y);
        Rank::Same
    }
}

// ---------------------------------------------------------------------------
// The path type
// ---------------------------------------------------------------------------

/// A file path.
#[derive(Debug)]
pub struct FilePath {
    pub text: String,
}

impl View for FilePath {
    type V = Seq<char>;

    open spec fn view(&self) -> Seq<char> {
        self.text@
    }
}

impl Clone for FilePath {
    fn clone(&self) -> (r: Self)
        ensures
            r == *self,
    {
        FilePath { text: self.text.clone() }
    }
}

/// Paths are equal when they have the same components.
impl vstd::std_specs::cmp::PartialEqSpecImpl for FilePath {
    open spec fn obeys_eq_spec() -> bool {
        true
    }

    open spec fn eq_spec(&self, other: &Self) -> bool {
        components(self@) == components(other@)
    }
}

impl PartialEq for FilePath {
    fn eq(&self, other: &Self) -> (r: bool) {
        self.same(other)
    }
}

impl Eq for FilePath {

}

/// The texts of a sequence of paths.
pub open spec fn path_texts(v: Seq<FilePath>) -> Seq<Seq<char>> {
    v.map_values(|p: FilePath| p@)
}

/// Whether `v` holds a path with the components `c`.
pub open spec fn holds_path(v: Seq<FilePath>, c: Seq<Seq<char>>) -> bool {
    exists|i: int| 0 <= i < v.len() && components(#[trigger] v[i]@) == c
}

impl FilePath {
    /// The path with the given text.
    pub fn new(text: &str) -> (r: FilePath)
        ensures
            r@ == text@,
    {
        FilePath { text: text.to_owned() }
    }

    /// The text of the path.
    pub fn as_str(&self) -> (r: &str)
        ensures
            r@ == self@,
    {
        self.text.as_str()
    }

    /// The components of the path.
    pub fn parts(&self) -> (r: Vec<Vec<char>>)
        ensures
            pieces(r@) == components(self@),
    {
        let chars = chars_of(self.text.as_str());
        let split = split_char(chars.as_slice(), '/');
        let mut out: Vec<Vec<char>> = Vec::new();
        if chars.len() > 0 && chars[0] == '/' {
            let mut r: Vec<char> = Vec::new();
            r.push('/');
            assert(r@ =~= root());
            out.push(r);
        }
        let ghost head = pieces(out@);
        assert(is_absolute(self@) ==> head =~= seq![root()]);
        let ghost all = pieces(split@);
        assert(all.skip(0) =~= all);
        assert(head + kept(all, true) =~= components(self@));
        let mut i: usize = 0;
        while i < split.len()
            invariant
                i <= split@.len(),
                all == pieces(split@),
                components(self@) == pieces(out@) + kept(all.skip(i as int), i == 0),
            decreases split@.len() - i,
        {
            let part = &split[i];
            let is_dot = part.len() == 1 && part[0] == '.';
            assert(is_dot ==> part@ =~= dot());
            assert(all.skip(i as int).drop_first() =~= all.skip(i + 1));
            let ghost before = pieces(out@);
            let ghost rest = kept(all.skip(i + 1), false);
            if part.len() != 0 && (!is_dot || i == 0) {
                out.push(vstd::slice::slice_to_vec(part.as_slice()));
                assert(pieces(out@) =~= before.push(part@));
                assert(before + (seq![part@] + rest) =~= pieces(out@) + rest);
            }
            i += 1;
        }
        assert(pieces(out@) + kept(all.skip(i as int), false) =~= pieces(out@));
        assert(split@.len() > 0) by {
            assert(split_on(self@, '/').len() > 0);
        }
        out
    }

    /// The file name of the path.
    fn name(&self) -> (r: Option<Vec<char>>)
        ensures
            match r {
                Some(n) => file_name(self@) == Some(n@),
                None => file_name(self@) is None,
            },
    {
        let mut parts = self.parts();
        let ghost all = pieces(parts@);
        match parts.pop() {
            None => None,
            Some(last) => {
                assert(all.last() == last@);
                if component_kind(last.as_slice()) == 3 {
                    Some(last)
                } else {
                    None
                }
            },
        }
    }

    /// The extension of the file name.
    pub fn extension(&self) -> (r: Option<Vec<char>>)
        ensures
            match r {
                Some(e) => extension(self@) == Some(e@),
                None => extension(self@) is None,
            },
    {
        match self.name() {
            None => None,
            Some(n) => {
                let d = dot_index(n.as_slice());
                let total: usize = n.len();
                if d > 0 {
                    let e = vstd::slice::slice_to_vec(
                        vstd::slice::slice_subrange(n.as_slice(), d + 1, total),
                    );
                    assert(e@ =~= n@.skip(d + 1));
                    Some(e)
                } else {
                    None
                }
            },
        }
    }

    /// The file name without its extension.
    pub fn file_stem(&self) -> (r: Option<Vec<char>>)
        ensures
            match r {
                Some(e) => file_stem(self@) == Some(e@),
                None => file_stem(self@) is None,
            },
    {
        match self.name() {
            None => None,
            Some(n) => {
                let d = dot_index(n.as_slice());
                if d > 0 {
                    let e = vstd::slice::slice_to_vec(
                        vstd::slice::slice_subrange(n.as_slice(), 0, d),
                    );
                    assert(e@ =~= n@.take(d as int));
                    Some(e)
                } else {
                    Some(n)
                }
            },
        }
    }

    /// Whether the path starts at the root.
    pub fn is_absolute(&self) -> (r: bool)
        ensures
            r == is_absolute(self@),
    {
        let chars = chars_of(self.text.as_str());
        chars.len() > 0 && chars[0] == '/'
    }

    /// `rel` taken relative to this path.
    pub fn join(&self, rel: &str) -> (r: FilePath)
        ensures
            r@ == join(self@, rel@),
    {
        let mut out = chars_of(self.text.as_str());
        let more = chars_of(rel);
        if more.len() > 0 && more[0] == '/' {
            return FilePath { text: string_of(more.as_slice()) };
        }
        if out.len() > 0 && out[out.len() - 1] != '/' {
            out.push('/');
        }
        append(&mut out, more.as_slice());
        FilePath { text: string_of(out.as_slice()) }
    }

    /// What stands before the last component.
    fn before_name(&self) -> (r: Vec<char>)
        ensures
            r@ == before_name(self@),
    {
        let chars = chars_of(self.text.as_str());
        let n = bare_len(chars.as_slice());
        let head = vstd::slice::slice_subrange(chars.as_slice(), 0, n);
        assert(head@ =~= bare(self@));
        let k = start_of_name(head);
        let front = vstd::slice::slice_subrange(head, 0, k);
        assert(front@ =~= before_name(self@));
        vstd::slice::slice_to_vec(front)
    }

    /// The directory that holds the path.
    pub fn parent(&self) -> (r: Option<FilePath>)
        ensures
            match r {
                Some(d) => parent(self@) == Some(d@),
                None => parent(self@) is None,
            },
    {
        let mut parts = self.parts();
        let ghost all = pieces(parts@);
        match parts.pop() {
            None => None,
            Some(last) => {
                assert(all.last() == last@);
                if component_kind(last.as_slice()) == 0 {
                    return None;
                }
                let front = self.before_name();
                let n = bare_len(front.as_slice());
                let dir = vstd::slice::slice_subrange(front.as_slice(), 0, n);
                assert(dir@ =~= bare(front@));
                Some(FilePath { text: string_of(dir) })
            },
        }
    }

    /// The path with the extension `ext`.
    pub fn with_extension(&self, ext: &str) -> (r: FilePath)
        ensures
            r@ == with_extension(self@, ext@),
    {
        match self.file_stem() {
            None => self.clone(),
            Some(stem) => {
                let mut out = self.before_name();
                append(&mut out, stem.as_slice());
                let dot = chars_of(".");
                append(&mut out, dot.as_slice());
                let more = chars_of(ext);
                append(&mut out, more.as_slice());
                FilePath { text: string_of(out.as_slice()) }
            },
        }
    }

    /// Whether the path is `base` or lies below it.
    pub fn starts_with(&self, base: &FilePath) -> (r: bool)
        ensures
            r == is_under(self@, base@),
    {
        let a = self.parts();
        let b = base.parts();
        let ghost x = pieces(a@);
        let ghost y = pieces(b@);
        if b.len() > a.len() {
            return false;
        }
        let mut i: usize = 0;
        while i < b.len()
            invariant
                x == pieces(a@),
                y == pieces(b@),
                x == components(self@),
                y == components(base@),
                i <= b@.len(),
                b@.len() <= a@.len(),
                forall|j: int| 0 <= j < i ==> x[j] == y[j],
            decreases b@.len() - i,
        {
            if !same_chars(a[i].as_slice(), b[i].as_slice()) {
                assert(x[i as int] != y[i as int]);
                assert(x.subrange(0, y.len() as int)[i as int] == x[i as int]);
                return false;
            }
            i += 1;
        }
        assert(y =~= x.subrange(0, y.len() as int));
        true
    }

    /// Whether two paths are the same path.
    pub fn same(&self, other: &FilePath) -> (r: bool)
        ensures
            r == (components(self@) == components(other@)),
    {
        proof {
            lemma_components_order(components(self@), components(other@));
            lemma_components_order(components(other@), components(self@));
        }
        match self.rank(other) {
            Rank::Same => true,
            _ => false,
        }
    }

    /// Ranks two paths by their components.
    pub fn rank(&self, other: &FilePath) -> (r: Rank)
        ensures
            match r {
                Rank::Before => components_before(components(self@), components(other@)),
                Rank::Same => components(self@) == components(other@),
                Rank::After => components_before(components(other@), components(self@)),
            },
    {
        let a = self.parts();
        let b = other.parts();
        rank_components(&a, &b)
    }
}

/// The index of the last dot of a name, or 0 where it has none.
fn dot_index(name: &[char]) -> (r: usize)
    ensures
        last_dot(name@) > 0 ==> r == last_dot(name@),
        last_dot(name@) <= 0 ==> r == 0,
        r < name@.len() || r == 0,
        last_dot(name@) < name@.len(),
{
    let mut n: usize = name.len();
    assert(name@.take(n as int) =~= name@);
    while n > 0
        invariant
            n <= name@.len(),
            last_dot(name@) == last_dot(name@.take(n as int)),
        decreases n,
    {
        assert(name@.take(n as int).drop_last() =~= name@.take(n - 1));
        if name[n - 1] == '.' {
            return n - 1;
        }
        n -= 1;
    }
    0
}

/// The length of the text without what follows its last component.
fn bare_len(p: &[char]) -> (r: usize)
    ensures
        r <= p@.len(),
        p@.take(r as int) == bare(p@),
{
    let mut n: usize = p.len();
    assert(p@.take(n as int) =~= p@);
    while n > 1 && (p[n - 1] == '/' || (p[n - 1] == '.' && p[n - 2] == '/'))
        invariant
            n <= p@.len(),
            bare(p@.take(n as int)) == bare(p@),
        decreases n,
    {
        assert(p@.take(n as int).drop_last() =~= p@.take(n - 1));
        n -= 1;
    }
    n
}

/// Where the last piece of a text begins.
fn start_of_name(p: &[char]) -> (r: usize)
    ensures
        r <= p@.len(),
        r == name_start(p@),
{
    let mut n: usize = p.len();
    assert(p@.take(n as int) =~= p@);
    while n > 0 && p[n - 1] != '/'
        invariant
            n <= p@.len(),
            name_start(p@.take(n as int)) == name_start(p@),
        decreases n,
    {
        assert(p@.take(n as int).drop_last() =~= p@.take(n - 1));
        n -= 1;
    }
    n
}

/// Whether two rows of components are the same. Paths of one project mostly
/// differ at the end, so that is where the comparison starts.
pub fn same_parts(a: &Vec<Vec<char>>, b: &Vec<Vec<char>>) -> (r: bool)
    ensures
        r == (pieces(a@) == pieces(b@)),
{
    let ghost x = pieces(a@);
    let ghost y = pieces(b@);
    if a.len() != b.len() {
        assert(x.len() != y.len());
        return false;
    }
    let mut n: usize = a.len();
    while n > 0
        invariant
            x == pieces(a@),
            y == pieces(b@),
            n <= a@.len(),
            a@.len() == b@.len(),
            forall|j: int| n <= j < x.len() ==> x[j] == y[j],
        decreases n,
    {
        if !same_chars(a[n - 1].as_slice(), b[n - 1].as_slice()) {
            assert(x[n - 1] != y[n - 1]);
            return false;
        }
        n -= 1;
    }
    assert(x =~= y);
    true
}

/// The components of each of several paths.
pub fn all_parts(v: &Vec<FilePath>) -> (r: Vec<Vec<Vec<char>>>)
    ensures
        r@.len() == v@.len(),
        forall|i: int| 0 <= i < v@.len() ==> pieces((#[trigger] r@[i])@) == components(v@[i]@),
{
    let mut out: Vec<Vec<Vec<char>>> = Vec::new();
    let mut i: usize = 0;
    while i < v.len()
        invariant
            i <= v@.len(),
            out@.len() == i,
            forall|j: int| 0 <= j < i ==> pieces((#[trigger] out@[j])@) == components(v@[j]@),
        decreases v@.len() - i,
    {
        out.push(v[i].parts());
        i += 1;
    }
    out
}

/// Whether `v` holds the path `p`.
pub fn contains_path(v: &Vec<FilePath>, p: &FilePath) -> (r: bool)
    ensures
        r == holds_path(v@, components(p@)),
{
    let mut i: usize = 0;
    while i < v.len()
        invariant
            i <= v@.len(),
            forall|j: int| 0 <= j < i ==> components(#[trigger] v@[j]@) != components(p@),
        decreases v@.len() - i,
    {
        if v[i].same(p) {
            assert(components(v@[i as int]@) == components(p@));
            return true;
        }
        i += 1;
    }
    false
}

// ---------------------------------------------------------------------------
// Joining
// ---------------------------------------------------------------------------

/// Splitting distributes over a separator.
proof fn lemma_split_at_separator(a: Seq<char>, r: Seq<char>, c: char)
    ensures
        split_on(a.push(c) + r, c) == split_on(a, c) + split_on(r, c),
    decreases a.len(),
{
    let whole = a.push(c) + r;
    lemma_until(a, c);
    let n = until(a, c);
    if n >= a.len() {
        crate::text::lemma_until_is(whole, c, a.len());
        assert(whole.take(a.len() as int) =~= a);
        assert(whole.skip(a.len() as int + 1) =~= r);
    } else {
        crate::text::lemma_until_is(whole, c, n);
        assert(whole.take(n as int) =~= a.take(n as int));
        assert(whole.skip(n as int + 1) =~= a.skip(n as int + 1).push(c) + r);
        lemma_split_at_separator(a.skip(n as int + 1), r, c);
        assert(seq![a.take(n as int)] + (split_on(a.skip(n as int + 1), c) + split_on(r, c)) =~= (seq![
            a.take(n as int),
        ] + split_on(a.skip(n as int + 1), c)) + split_on(r, c));
    }
}

/// Keeping components distributes over concatenation.
proof fn lemma_kept_concat(x: Seq<Seq<char>>, y: Seq<Seq<char>>, first: bool)
    ensures
        kept(x + y, first) == kept(x, first) + kept(y, first && x.len() == 0),
    decreases x.len(),
{
    if x.len() == 0 {
        assert(x + y =~= y);
        assert(kept(x, first) + kept(y, first) =~= kept(y, first));
    } else {
        assert((x + y).drop_first() =~= x.drop_first() + y);
        lemma_kept_concat(x.drop_first(), y, false);
        assert(seq![x[0]] + (kept(x.drop_first(), false) + kept(y, false)) =~= (seq![x[0]] + kept(
            x.drop_first(),
            false,
        )) + kept(y, false));
    }
}

/// An empty piece is no component.
proof fn lemma_kept_empty_piece(e: Seq<char>, first: bool)
    requires
        e.len() == 0,
    ensures
        kept(seq![e], first) == Seq::<Seq<char>>::empty(),
{
    reveal_with_fuel(kept, 2);
    assert(seq![e].drop_first() =~= Seq::empty());
}

/// The empty path has no components.
pub proof fn lemma_empty_path(p: Seq<char>)
    requires
        p.len() == 0,
    ensures
        components(p).len() == 0,
{
    assert(split_on(p, '/') =~= seq![p]);
    lemma_kept_empty_piece(p, true);
}

/// Joining a relative path appends its components to those of the base.
pub proof fn lemma_join_components(base: Seq<char>, rel: Seq<char>)
    requires
        !is_absolute(rel),
    ensures
        components(join(base, rel)) == components(base) + kept(
            split_on(rel, '/'),
            base.len() == 0,
        ),
{
    let joined = join(base, rel);
    let names = split_on(rel, '/');
    if base.len() == 0 {
        assert(joined =~= rel);
        assert(split_on(base, '/') =~= seq![base]);
        lemma_kept_empty_piece(base, true);
        assert(components(base) =~= Seq::empty());
        assert(components(base) + kept(names, true) =~= kept(names, true));
    } else {
        let stem = if base.last() == '/' {
            base.drop_last()
        } else {
            base
        };
        assert(joined =~= stem.push('/') + rel);
        lemma_split_at_separator(stem, rel, '/');
        lemma_kept_concat(split_on(stem, '/'), names, true);
        if base.last() == '/' {
            let empty = Seq::<char>::empty();
            assert(base =~= stem.push('/') + empty);
            lemma_split_at_separator(stem, empty, '/');
            assert(split_on(empty, '/') =~= seq![empty]);
            lemma_kept_concat(split_on(stem, '/'), seq![empty], true);
            lemma_kept_empty_piece(empty, false);
            assert(kept(split_on(base, '/'), true) =~= kept(split_on(stem, '/'), true));
        }
        assert(is_absolute(joined) == is_absolute(base));
        assert(components(joined) =~= components(base) + kept(names, false));
    }
}

/// What is joined below a base lies under that base.
pub proof fn law_joined_path_is_under_base(base: Seq<char>, rel: Seq<char>)
    requires
        !is_absolute(rel),
    ensures
        is_under(join(base, rel), base),
{
    lemma_join_components(base, rel);
    let c = components(join(base, rel));
    assert(c.subrange(0, components(base).len() as int) =~= components(base));
}

// ---------------------------------------------------------------------------
// File names
// ---------------------------------------------------------------------------

/// A separator at the end adds no component.
proof fn lemma_trailing_separator(p: Seq<char>)
    requires
        p.len() > 0,
    ensures
        components(p.push('/')) == components(p),
{
    let empty = Seq::<char>::empty();
    assert(p.push('/') =~= p.push('/') + empty);
    lemma_split_at_separator(p, empty, '/');
    assert(split_on(empty, '/') =~= seq![empty]);
    lemma_kept_concat(split_on(p, '/'), seq![empty], true);
    lemma_kept_empty_piece(empty, false);
    assert(kept(split_on(p.push('/'), '/'), true) =~= kept(split_on(p, '/'), true));
}

/// A text without separators is a single piece.
proof fn lemma_single_piece(s: Seq<char>)
    requires
        forall|i: int| 0 <= i < s.len() ==> s[i] != '/',
    ensures
        split_on(s, '/') == seq![s],
{
    lemma_until(s, '/');
}

/// The components of a directory's text and a name behind it.
proof fn lemma_name_behind(front: Seq<char>, name: Seq<char>)
    requires
        front.len() == 0 || front.last() == '/',
        name.len() > 0,
        forall|i: int| 0 <= i < name.len() ==> name[i] != '/',
        front.len() > 0 ==> name != dot(),
    ensures
        components(front + name) == components(front).push(name),
{
    lemma_single_piece(name);
    reveal_with_fuel(kept, 2);
    assert(seq![name].drop_first() =~= Seq::empty());
    assert(kept(seq![name], front.len() == 0) =~= seq![name]);
    if front.len() == 0 {
        assert(front + name =~= name);
        assert(split_on(front, '/') =~= seq![front]);
        lemma_kept_empty_piece(front, true);
        assert(components(front) =~= Seq::empty());
        assert(components(name) =~= seq![name]);
    } else {
        let stem = front.drop_last();
        let empty = Seq::<char>::empty();
        assert(front + name =~= stem.push('/') + name);
        lemma_split_at_separator(stem, name, '/');
        lemma_kept_concat(split_on(stem, '/'), seq![name], true);
        assert(front =~= stem.push('/') + empty);
        lemma_split_at_separator(stem, empty, '/');
        assert(split_on(empty, '/') =~= seq![empty]);
        lemma_kept_concat(split_on(stem, '/'), seq![empty], true);
        lemma_kept_empty_piece(empty, false);
        assert(kept(split_on(front, '/'), true) =~= kept(split_on(stem, '/'), true));
        assert(components(front + name) =~= components(front).push(name));
    }
}

/// What follows the last component is no component.
proof fn lemma_bare(p: Seq<char>)
    ensures
        components(bare(p)) == components(p),
        bare(p).len() > 1 ==> bare(p).last() != '/',
        bare(p).len() > 1 && bare(p).last() == '.' ==> bare(p)[bare(p).len() - 2] != '/',
        p.len() > 0 ==> bare(p).len() > 0,
    decreases p.len(),
{
    if p.len() > 1 && p.last() == '/' {
        lemma_bare(p.drop_last());
        lemma_trailing_separator(p.drop_last());
        assert(p.drop_last().push('/') =~= p);
    } else if p.len() > 1 && p.last() == '.' && p[p.len() - 2] == '/' {
        lemma_bare(p.drop_last());
        let front = p.drop_last();
        let stem = front.drop_last();
        let empty = Seq::<char>::empty();
        assert(p =~= stem.push('/') + dot());
        assert(front =~= stem.push('/') + empty);
        lemma_split_at_separator(stem, dot(), '/');
        lemma_split_at_separator(stem, empty, '/');
        lemma_single_piece(dot());
        lemma_single_piece(empty);
        lemma_kept_concat(split_on(stem, '/'), seq![dot()], true);
        lemma_kept_concat(split_on(stem, '/'), seq![empty], true);
        lemma_kept_empty_piece(empty, false);
        reveal_with_fuel(kept, 2);
        assert(seq![dot()].drop_first() =~= Seq::empty());
        assert(kept(seq![dot()], false) =~= Seq::empty());
        assert(components(p) =~= components(front));
    }
}

/// Behind the last separator there is no other.
proof fn lemma_name_start(p: Seq<char>)
    ensures
        name_start(p) <= p.len(),
        forall|i: int| name_start(p) <= i < p.len() ==> p[i] != '/',
        name_start(p) > 0 ==> p[name_start(p) - 1] == '/',
    decreases p.len(),
{
    if p.len() > 0 && p.last() != '/' {
        lemma_name_start(p.drop_last());
        assert forall|i: int| name_start(p) <= i < p.len() implies p[i] != '/' by {
            if i < p.len() - 1 {
                assert(p[i] == p.drop_last()[i]);
            }
        }
        if name_start(p) > 0 {
            assert(p[name_start(p) - 1] == p.drop_last()[name_start(p) - 1]);
        }
    }
}

/// A path with a file name is what stands before the name, and the name.
pub proof fn lemma_file_name(p: Seq<char>)
    requires
        file_name(p) is Some,
    ensures
        bare(p) == before_name(p) + file_name(p)->0,
        components(p) == components(before_name(p)).push(file_name(p)->0),
        before_name(p).len() == 0 || before_name(p).last() == '/',
        file_name(p)->0.len() > 0,
        forall|i: int| 0 <= i < file_name(p)->0.len() ==> file_name(p)->0[i] != '/',
{
    let b = bare(p);
    lemma_bare(p);
    lemma_name_start(b);
    let front = before_name(p);
    let tail = b.skip(name_start(b) as int);
    assert(b =~= front + tail);
    if p.len() == 0 {
        assert(split_on(p, '/') =~= seq![p]);
        lemma_kept_empty_piece(p, true);
        assert(components(p) =~= Seq::empty());
    }
    if tail.len() == 0 {
        assert(b.last() == '/');
        assert(b =~= seq!['/']);
        let empty = Seq::<char>::empty();
        assert(b =~= empty.push('/') + empty);
        lemma_split_at_separator(empty, empty, '/');
        lemma_single_piece(empty);
        lemma_kept_concat(seq![empty], seq![empty], true);
        lemma_kept_empty_piece(empty, true);
        lemma_kept_empty_piece(empty, false);
        assert(components(b) =~= seq![root()]);
    } else {
        if front.len() > 0 && tail == dot() {
            assert(b.last() == tail.last());
            assert(b[b.len() - 2] == front.last());
        }
        lemma_name_behind(front, tail);
    }
}

/// The last dot of a name is a dot, and none follows it.
proof fn lemma_last_dot(name: Seq<char>)
    ensures
        -1 <= last_dot(name) < name.len(),
        last_dot(name) >= 0 ==> name[last_dot(name)] == '.',
        forall|i: int| last_dot(name) < i < name.len() ==> name[i] != '.',
    decreases name.len(),
{
    if name.len() > 0 && name.last() != '.' {
        let rest = name.drop_last();
        lemma_last_dot(rest);
        assert forall|i: int| last_dot(name) < i < name.len() implies name[i] != '.' by {
            if i < rest.len() {
                assert(name[i] == rest[i]);
            }
        }
    }
}

/// Another extension makes another file in the same directory: the name is the
/// stem with the extension behind it.
pub proof fn law_extension_is_replaced(p: Seq<char>, ext: Seq<char>)
    requires
        file_name(p) is Some,
        forall|i: int| 0 <= i < ext.len() ==> ext[i] != '/',
    ensures
        components(with_extension(p, ext)) == components(p).drop_last().push(
            file_stem(p)->0 + "."@ + ext,
        ),
{
    reveal_strlit(".");
    lemma_file_name(p);
    let name = file_name(p)->0;
    let stem = file_stem(p)->0;
    let front = before_name(p);
    lemma_last_dot(name);
    let new = stem + "."@ + ext;
    assert(with_extension(p, ext) =~= front + new);
    assert forall|i: int| 0 <= i < new.len() implies new[i] != '/' by {
        if i < stem.len() {
            assert(stem[i] == name[i]);
        }
    }
    assert(stem.len() > 0);
    assert(new.len() >= 2);
    lemma_name_behind(front, new);
    assert(components(p).drop_last() =~= components(front));
}

/// An extension with a dot inside is never the one that a path has, so the path
/// changes.
pub proof fn law_dotted_extension_makes_another_file(p: Seq<char>, ext: Seq<char>, k: int)
    requires
        file_name(p) is Some,
        forall|i: int| 0 <= i < ext.len() ==> ext[i] != '/',
        0 <= k < ext.len(),
        ext[k] == '.',
    ensures
        components(with_extension(p, ext)) != components(p),
{
    reveal_strlit(".");
    law_extension_is_replaced(p, ext);
    let name = file_name(p)->0;
    let stem = file_stem(p)->0;
    let new = stem + "."@ + ext;
    lemma_last_dot(name);
    if new == name {
        assert(new.len() > stem.len());
        assert(last_dot(name) == stem.len());
        assert(new[stem.len() as int + 1 + k] == '.');
    }
    assert(components(p).last() == name);
    assert(components(with_extension(p, ext)).last() == new);
}

// ---------------------------------------------------------------------------
// Windows
// ---------------------------------------------------------------------------

/// A text with `/` for every `\`.
pub open spec fn slashes(s: Seq<char>) -> Seq<char> {
    s.map_values(
        |c: char|
            if c == '\\' {
                '/'
            } else {
                c
            },
    )
}

/// A text with `\` for every `/`.
pub open spec fn backslashes(s: Seq<char>) -> Seq<char> {
    s.map_values(
        |c: char|
            if c == '/' {
                '\\'
            } else {
                c
            },
    )
}

/// Whether a text starts at the root of a drive, such as `C:/`.
pub open spec fn has_drive(s: Seq<char>) -> bool {
    s.len() >= 3 && ('a' <= s[0] <= 'z' || 'A' <= s[0] <= 'Z') && s[1] == ':' && s[2] == '/'
}

/// An ASCII letter in upper case.
pub open spec fn upper(c: char) -> char {
    if 'a' <= c <= 'z' {
        (c as u32 - 32) as char
    } else {
        c
    }
}

/// Where the drive stands in a text: at its start, or behind `//?/`.
pub open spec fn drive_index(s: Seq<char>) -> Option<int> {
    if has_drive(s) {
        Some(0)
    } else if s.len() >= 4 && s[0] == '/' && s[1] == '/' && s[2] == '?' && s[3] == '/' && has_drive(
        s.skip(4),
    ) {
        Some(4)
    } else {
        None
    }
}

/// A text with `/` for every `\`, and with its drive in upper case.
pub open spec fn folded(s: Seq<char>) -> Seq<char> {
    let t = slashes(s);
    match drive_index(t) {
        Some(i) => t.update(i, upper(t[i])),
        None => t,
    }
}

/// The path for a Windows text. A drive is a directory below the root.
pub open spec fn windows_path(s: Seq<char>) -> Seq<char> {
    if has_drive(slashes(s)) {
        seq!['/'] + folded(s)
    } else {
        folded(s)
    }
}

/// Whether a Windows text starts at a root, but names no drive or server.
pub open spec fn lacks_drive(s: Seq<char>) -> bool {
    let t = slashes(s);
    t.len() > 0 && t[0] == '/' && !(t.len() > 1 && t[1] == '/')
}

/// The part of a path that names its drive.
pub open spec fn drive_part(p: Seq<char>) -> Seq<char> {
    if on_drive(p) {
        p.take(3)
    } else if drive_index(p) == Some(4int) {
        p.take(6)
    } else {
        Seq::empty()
    }
}

/// The path for a Windows text that is read in the directory `dir`. What starts at
/// a root without a drive lies on the drive of `dir`.
pub open spec fn windows_path_in(s: Seq<char>, dir: Seq<char>) -> Seq<char> {
    if lacks_drive(s) {
        drive_part(dir) + windows_path(s)
    } else {
        windows_path(s)
    }
}

/// Whether a path lies on a drive.
pub open spec fn on_drive(p: Seq<char>) -> bool {
    p.len() > 0 && p[0] == '/' && has_drive(p.skip(1))
}

/// The Windows text of a path.
pub open spec fn windows_text(p: Seq<char>) -> Seq<char> {
    if on_drive(p) {
        backslashes(p.skip(1))
    } else {
        backslashes(p)
    }
}

/// `s` with `to` for every `from`.
fn exchanged(s: &[char], from: char, to: char) -> (r: Vec<char>)
    ensures
        r@ == s@.map_values(
            |c: char|
                if c == from {
                    to
                } else {
                    c
                },
        ),
{
    let ghost f = |c: char|
        if c == from {
            to
        } else {
            c
        };
    let mut out: Vec<char> = Vec::new();
    let mut i: usize = 0;
    while i < s.len()
        invariant
            i <= s@.len(),
            f == (|c: char|
                if c == from {
                    to
                } else {
                    c
                }),
            out@ == s@.take(i as int).map_values(f),
        decreases s@.len() - i,
    {
        out.push(
            if s[i] == from {
                to
            } else {
                s[i]
            },
        );
        assert(s@.take(i + 1).map_values(f) =~= s@.take(i as int).map_values(f).push(
            f(s@[i as int]),
        ));
        i += 1;
    }
    assert(s@.take(i as int) =~= s@);
    out
}

/// Puts an ASCII letter into upper case.
fn to_upper(c: char) -> (r: char)
    ensures
        r == upper(c),
{
    if 'a' <= c && c <= 'z' {
        ((c as u8) - 32) as char
    } else {
        c
    }
}

/// Whether `s` begins with `//?/` and a drive.
fn is_verbatim(s: &[char]) -> (r: bool)
    ensures
        r == (s@.len() >= 4 && s@[0] == '/' && s@[1] == '/' && s@[2] == '?' && s@[3] == '/'
            && has_drive(s@.skip(4))),
{
    s.len() >= 4 && s[0] == '/' && s[1] == '/' && s[2] == '?' && s[3] == '/' && drive_at(s, 4)
}

/// Whether `s` starts at the root of a drive from `i` on.
fn drive_at(s: &[char], i: usize) -> (r: bool)
    requires
        i <= 4,
    ensures
        r == (i <= s@.len() && has_drive(s@.skip(i as int))),
{
    s.len() >= i + 3 && (('a' <= s[i] && s[i] <= 'z') || ('A' <= s[i] && s[i] <= 'Z')) && s[i + 1]
        == ':' && s[i + 2] == '/'
}

impl FilePath {
    /// The path for a Windows text.
    pub fn from_windows(text: &str) -> (r: FilePath)
        ensures
            r@ == windows_path(text@),
    {
        let chars = chars_of(text);
        let mut turned = exchanged(chars.as_slice(), '\\', '/');
        let ghost t = turned@;
        assert(t =~= slashes(text@));
        assert(t.skip(0) =~= t);
        let mut out: Vec<char> = Vec::new();
        if drive_at(turned.as_slice(), 0) {
            out.push('/');
            let letter = to_upper(turned[0]);
            turned.set(0, letter);
        } else if is_verbatim(turned.as_slice()) {
            assert(t[4] == t.skip(4)[0]);
            let letter = to_upper(turned[4]);
            turned.set(4, letter);
        }
        assert(turned@ =~= folded(text@));
        append(&mut out, turned.as_slice());
        assert(out@ =~= windows_path(text@));
        FilePath { text: string_of(out.as_slice()) }
    }

    /// The path for a Windows text that is read in this directory.
    pub fn read_windows(&self, text: &str) -> (r: FilePath)
        ensures
            r@ == windows_path_in(text@, self@),
    {
        let path = FilePath::from_windows(text);
        let chars = chars_of(text);
        let total: usize = chars.len();
        let rooted = total > 0 && (chars[0] == '/' || chars[0] == '\\') && !(total > 1 && (chars[1]
            == '/' || chars[1] == '\\'));
        assert(rooted == lacks_drive(text@));
        if !rooted {
            return path;
        }
        let dir = chars_of(self.text.as_str());
        let n: usize = if dir.len() > 0 && dir[0] == '/' && drive_at(dir.as_slice(), 1) {
            3
        } else if is_verbatim(dir.as_slice()) {
            6
        } else {
            0
        };
        proof {
            if on_drive(self@) {
                assert(self@.skip(1).len() >= 3);
            } else if n == 6 {
                assert(self@.skip(4).len() >= 3);
            }
        }
        let front = vstd::slice::slice_subrange(dir.as_slice(), 0, n);
        assert(front@ =~= drive_part(self@));
        let mut out = vstd::slice::slice_to_vec(front);
        let rest = chars_of(path.as_str());
        append(&mut out, rest.as_slice());
        FilePath { text: string_of(out.as_slice()) }
    }

    /// The Windows text of the path.
    pub fn to_windows(&self) -> (r: String)
        ensures
            r@ == windows_text(self@),
    {
        let chars = chars_of(self.text.as_str());
        let total: usize = chars.len();
        let rest = if total > 0 && chars[0] == '/' && drive_at(chars.as_slice(), 1) {
            vstd::slice::slice_subrange(chars.as_slice(), 1, total)
        } else {
            chars.as_slice()
        };
        assert(on_drive(self@) ==> rest@ =~= self@.skip(1));
        let turned = exchanged(rest, '/', '\\');
        assert(turned@ =~= windows_text(self@));
        string_of(turned.as_slice())
    }
}

/// A Windows text survives the way in and out, but for its separators and the case
/// of its drive.
pub proof fn law_windows_text_survives(s: Seq<char>)
    requires
        !on_drive(slashes(s)),
    ensures
        windows_text(windows_path(s)) == backslashes(folded(s)),
{
    let t = slashes(s);
    let p = windows_path(s);
    if has_drive(t) {
        lemma_upper(t[0]);
        assert(p.skip(1) =~= folded(s));
    } else if on_drive(p) {
        assert(p.skip(1)[0] == p[1] && p.skip(1)[1] == p[2] && p.skip(1)[2] == p[3]);
        assert(t.skip(1)[0] == t[1] && t.skip(1)[1] == t[2] && t.skip(1)[2] == t[3]);
    }
}

/// A letter in upper case is a letter in upper case.
proof fn lemma_upper(c: char)
    requires
        'a' <= c <= 'z' || 'A' <= c <= 'Z',
    ensures
        'A' <= upper(c) <= 'Z',
        upper(upper(c)) == upper(c),
{
}

/// On Windows both separators separate, the case of a drive does not count, and a
/// path on a drive is absolute.
pub proof fn law_windows_paths_are_read_alike(a: Seq<char>, b: Seq<char>)
    requires
        slashes(a).len() == slashes(b).len(),
        forall|i: int| 1 <= i < a.len() ==> slashes(a)[i] == slashes(b)[i],
        has_drive(slashes(a)),
        has_drive(slashes(b)),
        upper(a[0]) == upper(b[0]),
    ensures
        windows_path(a) == windows_path(b),
        is_absolute(windows_path(a)),
{
    assert(slashes(a)[0] == a[0]) by {
        assert(a[0] != '\\');
    }
    assert(slashes(b)[0] == b[0]);
    assert(folded(a) =~= folded(b));
}

/// What starts at a root without a drive lies on the drive of the directory it is
/// read in.
pub proof fn law_rooted_text_keeps_the_drive(s: Seq<char>, dir: Seq<char>)
    requires
        lacks_drive(s),
        on_drive(dir),
    ensures
        windows_path_in(s, dir) == dir.take(3) + folded(s),
        is_absolute(windows_path_in(s, dir)),
{
    assert(!has_drive(slashes(s)));
}

// ---------------------------------------------------------------------------
// Laws of components, names and order
// ---------------------------------------------------------------------------

/// What components a text has, built up from its start: a separator in front is the
/// root, any other one adds nothing, neither does a `.` behind one, and each name
/// between them is a component.
pub proof fn law_components_are_built_up(front: Seq<char>, name: Seq<char>)
    requires
        name.len() > 0,
        forall|i: int| 0 <= i < name.len() ==> #[trigger] name[i] != '/',
    ensures
        components(Seq::empty()) == Seq::<Seq<char>>::empty(),
        components(seq!['/']) == seq![seq!['/']],
        front.len() > 0 ==> components(front.push('/')) == components(front),
        front.len() > 0 && front.last() == '/' ==> components(front.push('.')) == components(front),
        components(name) == seq![name],
        front.len() > 0 && front.last() == '/' && name != seq!['.'] ==> components(front + name)
            == components(front).push(name),
{
    let empty = Seq::<char>::empty();
    lemma_empty_path(empty);
    assert(components(empty) =~= Seq::empty());
    let slash = seq!['/'];
    assert(slash =~= empty.push('/') + empty);
    lemma_split_at_separator(empty, empty, '/');
    lemma_single_piece(empty);
    lemma_kept_concat(seq![empty], seq![empty], true);
    lemma_kept_empty_piece(empty, true);
    lemma_kept_empty_piece(empty, false);
    assert(components(slash) =~= seq![root()]);
    if front.len() > 0 {
        lemma_trailing_separator(front);
        if front.last() == '/' {
            let p = front.push('.');
            assert(p.drop_last() =~= front);
            lemma_bare(p);
            lemma_bare(front);
            assert(bare(p) == bare(front));
            if name != seq!['.'] {
                lemma_name_behind(front, name);
            }
        }
    }
    lemma_name_behind(empty, name);
    assert(empty + name =~= name);
    assert(components(empty).push(name) =~= seq![name]);
}

/// A first piece that is no `.` is kept wherever it stands.
proof fn lemma_kept_alike(parts: Seq<Seq<char>>)
    requires
        parts.len() > 0 ==> parts[0] != dot(),
    ensures
        kept(parts, false) == kept(parts, true),
{
}

/// A relative path that is joined to a base has the components of the base and then
/// its own; an absolute one stands for itself.
pub proof fn law_joined_path_has_both_components(base: Seq<char>, rel: Seq<char>)
    requires
        base.len() > 0,
    ensures
        is_absolute(rel) ==> join(base, rel) == rel,
        !is_absolute(rel) && (rel.len() == 0 || rel[0] != '.') ==> components(join(base, rel))
            == components(base) + components(rel),
{
    if !is_absolute(rel) && (rel.len() == 0 || rel[0] != '.') {
        lemma_join_components(base, rel);
        let parts = split_on(rel, '/');
        lemma_until(rel, '/');
        if parts.len() > 0 && parts[0] == dot() {
            assert(parts[0][0] == '.');
            assert(parts[0][0] == rel[0]);
        }
        lemma_kept_alike(parts);
    }
}

/// The last dot is where it stands.
proof fn lemma_last_dot_is(name: Seq<char>, k: int)
    requires
        0 <= k < name.len(),
        name[k] == '.',
        forall|i: int| k < i < name.len() ==> #[trigger] name[i] != '.',
    ensures
        last_dot(name) == k,
{
    lemma_last_dot(name);
    let d = last_dot(name);
    if d < k {
        assert(name[k] != '.');
    }
    if d > k {
        assert(name[d] != '.');
    }
}

/// A name with a dot inside is split at its last one: the stem before it, the
/// extension behind it.
pub proof fn law_name_is_stem_and_extension(front: Seq<char>, stem: Seq<char>, ext: Seq<char>)
    requires
        front.len() == 0 || front.last() == '/',
        stem.len() > 0,
        forall|i: int| 0 <= i < stem.len() ==> #[trigger] stem[i] != '/',
        forall|i: int| 0 <= i < ext.len() ==> #[trigger] ext[i] != '/' && ext[i] != '.',
        stem != seq!['.'] || ext.len() > 0,
    ensures
        file_name(front + (stem + "."@ + ext)) == Some(stem + "."@ + ext),
        file_stem(front + (stem + "."@ + ext)) == Some(stem),
        extension(front + (stem + "."@ + ext)) == Some(ext),
{
    reveal_strlit(".");
    let name = stem + "."@ + ext;
    let k = stem.len() as int;
    assert(name[k] == '.');
    assert forall|i: int| 0 <= i < name.len() implies #[trigger] name[i] != '/' by {
        if i < k {
            assert(name[i] == stem[i]);
        } else if i > k {
            assert(name[i] == ext[i - k - 1]);
        }
    }
    assert forall|i: int| k < i < name.len() implies #[trigger] name[i] != '.' by {
        assert(name[i] == ext[i - k - 1]);
    }
    lemma_last_dot_is(name, k);
    assert(name.len() >= 2);
    lemma_name_behind(front, name);
    assert(is_normal(name)) by {
        if name == root() || name == dot() {
            assert(name.len() == 1);
        }
        if name == dot_dot() {
            assert(name.len() == 2);
            assert(stem[0] == name[0]);
            assert(stem =~= seq!['.']);
        }
    }
    assert(components(front + name).last() == name);
    assert(name.take(k) =~= stem);
    assert(name.skip(k + 1) =~= ext);
}

/// A name without a dot, or with one only at its start, has no extension.
pub proof fn law_plain_name_has_no_extension(front: Seq<char>, name: Seq<char>)
    requires
        front.len() == 0 || front.last() == '/',
        name.len() > 0,
        name != seq!['.'],
        forall|i: int| 0 <= i < name.len() ==> #[trigger] name[i] != '/',
        forall|i: int| 0 < i < name.len() ==> #[trigger] name[i] != '.',
    ensures
        file_name(front + name) == Some(name),
        file_stem(front + name) == Some(name),
        extension(front + name) is None,
{
    lemma_last_dot(name);
    if last_dot(name) > 0 {
        assert(name[last_dot(name)] != '.');
    }
    lemma_name_behind(front, name);
    assert(is_normal(name)) by {
        if name == root() {
            assert(name[0] == '/');
        }
        if name == dot_dot() {
            assert(name[1] == '.');
        }
    }
    assert(components(front + name).last() == name);
}

/// The directory that holds a file has all components of the file but its name.
pub proof fn law_parent_drops_the_name(p: Seq<char>)
    requires
        file_name(p) is Some,
    ensures
        parent(p) is Some,
        components(parent(p)->0) == components(p).drop_last(),
        parent(seq!['/']) is None,
        parent(Seq::empty()) is None,
{
    lemma_file_name(p);
    lemma_bare(before_name(p));
    assert(components(p).drop_last() =~= components(before_name(p)));
    law_components_are_built_up(p, seq!['a']);
}

/// A path lies under another exactly where it has its components and maybe more.
pub proof fn law_under_is_by_components(p: Seq<char>, base: Seq<char>)
    ensures
        is_under(p, base) == (components(base).len() <= components(p).len() && forall|i: int|
            0 <= i < components(base).len() ==> #[trigger] components(p)[i] == components(base)[i]),
{
    let a = components(base);
    let b = components(p);
    if is_under(p, base) {
        assert forall|i: int| 0 <= i < a.len() implies #[trigger] b[i] == a[i] by {
            assert(b.subrange(0, a.len() as int)[i] == a[i]);
        }
    }
    if a.len() <= b.len() && forall|i: int| 0 <= i < a.len() ==> #[trigger] b[i] == a[i] {
        assert(a =~= b.subrange(0, a.len() as int));
    }
}

/// Texts are ordered by the first character in which they differ; a text comes before
/// those that go on from it.
pub proof fn law_texts_are_ordered_by_first_difference(a: Seq<char>, b: Seq<char>, k: int)
    requires
        0 <= k <= a.len(),
        k < b.len(),
        forall|i: int| 0 <= i < k ==> #[trigger] a[i] == b[i],
        k == a.len() || a[k] < b[k],
    ensures
        text_before(a, b),
        !text_before(b, a),
        !text_before(a, a),
    decreases k,
{
    lemma_text_order(a, b);
    lemma_text_order(a, a);
    if k < a.len() {
        assert(a[k] != b[k]);
    }
    assert(a != b) by {
        if k == a.len() {
            assert(a.len() != b.len());
        }
    }
    if k > 0 {
        let x = a.drop_first();
        let y = b.drop_first();
        assert(a[0] == b[0]);
        assert forall|i: int| 0 <= i < k - 1 implies #[trigger] x[i] == y[i] by {
            assert(a[i + 1] == b[i + 1]);
        }
        law_texts_are_ordered_by_first_difference(x, y, k - 1);
    }
}

/// Paths are ordered by the first component in which they differ; a path comes before
/// those below it.
pub proof fn law_paths_are_ordered_by_first_difference(
    a: Seq<Seq<char>>,
    b: Seq<Seq<char>>,
    k: int,
)
    requires
        0 <= k <= a.len(),
        k < b.len(),
        forall|i: int| 0 <= i < k ==> #[trigger] a[i] == b[i],
        k == a.len() || (a[k] != b[k] && component_before(a[k], b[k])),
    ensures
        components_before(a, b),
        !components_before(b, a),
        !components_before(a, a),
    decreases k,
{
    lemma_components_order(a, b);
    lemma_components_order(a, a);
    assert(a != b) by {
        if k == a.len() {
            assert(a.len() != b.len());
        }
    }
    if k > 0 {
        let x = a.drop_first();
        let y = b.drop_first();
        assert(a[0] == b[0]);
        assert forall|i: int| 0 <= i < k - 1 implies #[trigger] x[i] == y[i] by {
            assert(a[i + 1] == b[i + 1]);
        }
        law_paths_are_ordered_by_first_difference(x, y, k - 1);
    }
}

/// Of components the root comes first, then `.`, then `..`, then names in the order of
/// texts.
pub proof fn law_components_are_ordered_by_kind(a: Seq<char>, b: Seq<char>)
    requires
        a != seq!['/'] && a != seq!['.'] && a != seq!['.', '.'],
        b != seq!['/'] && b != seq!['.'] && b != seq!['.', '.'],
    ensures
        component_before(seq!['/'], seq!['.']),
        component_before(seq!['.'], seq!['.', '.']),
        component_before(seq!['.', '.'], a) && !component_before(a, seq!['.', '.']),
        component_before(a, b) == text_before(a, b),
{
    assert(seq!['/'][0] != seq!['.'][0]);
    assert(seq!['.'].len() != seq!['.', '.'].len());
    assert(seq!['/'].len() != seq!['.', '.'].len());
}

/// The texts of paths are theirs, one for one, and a path is held exactly where one of
/// them has its components.
pub proof fn law_path_texts_are_complete(v: Seq<FilePath>, c: Seq<Seq<char>>)
    ensures
        path_texts(v).len() == v.len(),
        forall|i: int| 0 <= i < v.len() ==> #[trigger] path_texts(v)[i] == v[i]@,
        holds_path(v, c) == exists|i: int|
            0 <= i < v.len() && components((#[trigger] v[i])@) == c,
{
    if holds_path(v, c) {
        let i = choose|i: int| 0 <= i < v.len() && components(#[trigger] v[i]@) == c;
        assert(components(v[i]@) == c);
    }
}

/// Separators are exchanged one for one, and nothing else is.
pub proof fn law_separators_are_exchanged(s: Seq<char>, i: int)
    requires
        0 <= i < s.len(),
    ensures
        slashes(s).len() == s.len(),
        backslashes(s).len() == s.len(),
        s[i] == '\\' ==> slashes(s)[i] == '/' && backslashes(s)[i] == '\\',
        s[i] == '/' ==> slashes(s)[i] == '/' && backslashes(s)[i] == '\\',
        s[i] != '/' && s[i] != '\\' ==> slashes(s)[i] == s[i] && backslashes(s)[i] == s[i],
{
}

/// A Windows text that starts with a drive becomes a path below the root, with the
/// drive in upper case; behind the drive only separators change.
pub proof fn law_drive_becomes_a_directory(s: Seq<char>, i: int)
    requires
        s.len() >= 3,
        'a' <= s[0] <= 'z' || 'A' <= s[0] <= 'Z',
        s[1] == ':',
        s[2] == '/' || s[2] == '\\',
        1 <= i < s.len(),
    ensures
        windows_path(s).len() == s.len() + 1,
        windows_path(s)[0] == '/',
        windows_path(s)[1] as u32 == if 'a' <= s[0] <= 'z' {
            (s[0] as u32 - 32) as u32
        } else {
            s[0] as u32
        },
        windows_path(s)[i + 1] == if s[i] == '\\' {
            '/'
        } else {
            s[i]
        },
        on_drive(windows_path(s)),
{
    lemma_upper(s[0]);
    let t = slashes(s);
    assert(t[0] == s[0] && t[1] == ':' && t[2] == '/');
    let p = windows_path(s);
    assert(p.skip(1) =~= folded(s));
}

} // verus!
