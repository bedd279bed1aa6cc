//! Text primitives over sequences of characters.
//!
//! Strings are unpacked into characters once, scanned with verified loops and
//! packed again at the end.

use vstd::prelude::*;
use vstd::slice::slice_subrange;

verus! {

// ---------------------------------------------------------------------------
// Packing and unpacking
// ---------------------------------------------------------------------------

/// `String::push` appends one character to the end of the string.
pub assume_specification[ String::push ](s: &mut String, c: char)
    ensures
        final(s)@ == old(s)@.push(c),
;

/// The text that `String::from_utf8_lossy` reads in bytes: well-formed UTF-8 as
/// it stands, with U+FFFD for what is not.
pub uninterp spec fn lossy_text(bytes: Seq<u8>) -> Seq<char>;

/// `String::from_utf8_lossy` decodes bytes. The result is a function of the
/// bytes; where they are valid UTF-8 it is the text they encode.
#[verifier::external_body]
pub(crate) fn decode_lossy(bytes: &[u8]) -> (r: String)
    ensures
        r@ == lossy_text(bytes@),
        vstd::utf8::valid_utf8(bytes@) ==> r@ == vstd::utf8::decode_utf8(bytes@),
{
    String::from_utf8_lossy(bytes).into_owned()
}

/// The characters of `s`, in order.
pub fn chars_of(s: &str) -> (r: Vec<char>)
    ensures
        r@ == s@,
{
    let mut out: Vec<char> = Vec::new();
    for c in it: s.chars()
        invariant
            out@ == it.seq().take(it.index()),
            it.seq() == s@,
    {
        out.push(c);
        assert(it.seq().take(it.index() + 1) =~= it.seq().take(it.index()).push(c));
    }
    assert(s@.take(s@.len() as int) =~= s@);
    out
}

/// A copy of an optional text.
pub fn copy_option(s: &Option<String>) -> (r: Option<String>)
    ensures
        r == *s,
{
    match s {
        Some(t) => Some(t.clone()),
        None => None,
    }
}

/// An optional text by its characters.
pub open spec fn option_text(s: Option<String>) -> Option<Seq<char>> {
    match s {
        Some(t) => Some(t@),
        None => None,
    }
}

/// The texts of a sequence of strings.
pub open spec fn texts(v: Seq<String>) -> Seq<Seq<char>> {
    v.map_values(|s: String| s@)
}

/// A copy of a vector of strings.
pub fn copy_strings(v: &Vec<String>) -> (r: Vec<String>)
    ensures
        r@ == v@,
{
    let mut out: Vec<String> = Vec::new();
    let mut i: usize = 0;
    while i < v.len()
        invariant
            i <= v@.len(),
            out@ == v@.take(i as int),
        decreases v@.len() - i,
    {
        out.push(v[i].clone());
        i += 1;
        assert(v@.take(i as int) =~= v@.take(i - 1).push(v@[i - 1]));
    }
    assert(v@.take(i as int) =~= v@);
    out
}

/// The string with the given characters.
pub fn string_of(chars: &[char]) -> (r: String)
    ensures
        r@ == chars@,
{
    let mut out = String::new();
    let mut i: usize = 0;
    while i < chars.len()
        invariant
            i <= chars@.len(),
            out@ == chars@.take(i as int),
        decreases chars@.len() - i,
    {
        out.push(chars[i]);
        assert(chars@.take(i + 1) =~= chars@.take(i as int).push(chars@[i as int]));
        i += 1;
    }
    assert(chars@.take(chars@.len() as int) =~= chars@);
    out
}

/// Whether two character slices are equal.
pub fn same_chars(a: &[char], b: &[char]) -> (r: bool)
    ensures
        r == (a@ == b@),
{
    if a.len() != b.len() {
        return false;
    }
    let mut i: usize = 0;
    while i < a.len()
        invariant
            i <= a@.len(),
            a@.len() == b@.len(),
            forall|j: int| 0 <= j < i ==> a@[j] == b@[j],
        decreases a@.len() - i,
    {
        if a[i] != b[i] {
            return false;
        }
        i += 1;
    }
    assert(a@ =~= b@);
    true
}

/// Whether a string holds exactly the text of a literal.
pub fn same_text(a: &str, b: &str) -> (r: bool)
    ensures
        r == (a@ == b@),
{
    let x = chars_of(a);
    let y = chars_of(b);
    same_chars(x.as_slice(), y.as_slice())
}

// ---------------------------------------------------------------------------
// White space
// ---------------------------------------------------------------------------

/// The characters with the Unicode `White_Space` property.
pub open spec fn is_white(c: char) -> bool {
    ||| '\u{9}' <= c <= '\u{d}'
    ||| c == '\u{20}'
    ||| c == '\u{85}'
    ||| c == '\u{a0}'
    ||| c == '\u{1680}'
    ||| '\u{2000}' <= c <= '\u{200a}'
    ||| c == '\u{2028}'
    ||| c == '\u{2029}'
    ||| c == '\u{202f}'
    ||| c == '\u{205f}'
    ||| c == '\u{3000}'
}

/// `s` without its leading white space.
pub open spec fn trim_start(s: Seq<char>) -> Seq<char>
    decreases s.len(),
{
    if s.len() > 0 && is_white(s[0]) {
        trim_start(s.drop_first())
    } else {
        s
    }
}

/// `s` without its trailing white space.
pub open spec fn trim_end(s: Seq<char>) -> Seq<char>
    decreases s.len(),
{
    if s.len() > 0 && is_white(s.last()) {
        trim_end(s.drop_last())
    } else {
        s
    }
}

/// `s` without white space at either end.
pub open spec fn trim(s: Seq<char>) -> Seq<char> {
    trim_end(trim_start(s))
}

/// `s` without its leading colons.
pub open spec fn trim_colons(s: Seq<char>) -> Seq<char>
    decreases s.len(),
{
    if s.len() > 0 && s[0] == ':' {
        trim_colons(s.drop_first())
    } else {
        s
    }
}

/// Decides `is_white`.
pub fn white(c: char) -> (r: bool)
    ensures
        r == is_white(c),
{
    (c >= '\u{9}' && c <= '\u{d}') || c == '\u{20}' || c == '\u{85}' || c == '\u{a0}' || c
        == '\u{1680}' || (c >= '\u{2000}' && c <= '\u{200a}') || c == '\u{2028}' || c == '\u{2029}'
        || c == '\u{202f}' || c == '\u{205f}' || c == '\u{3000}'
}

/// Drops leading white space.
pub fn trimmed_start(s: &[char]) -> (r: &[char])
    ensures
        r@ == trim_start(s@),
{
    let mut i: usize = 0;
    assert(s@.skip(0) =~= s@);
    while i < s.len() && white(s[i])
        invariant
            i <= s@.len(),
            trim_start(s@) == trim_start(s@.skip(i as int)),
        decreases s@.len() - i,
    {
        assert(s@.skip(i as int).drop_first() =~= s@.skip(i + 1));
        i += 1;
    }
    slice_subrange(s, i, s.len())
}

/// Drops trailing white space.
pub fn trimmed_end(s: &[char]) -> (r: &[char])
    ensures
        r@ == trim_end(s@),
{
    let mut n: usize = s.len();
    assert(s@.take(n as int) =~= s@);
    while n > 0 && white(s[n - 1])
        invariant
            n <= s@.len(),
            trim_end(s@) == trim_end(s@.take(n as int)),
        decreases n,
    {
        assert(s@.take(n as int).drop_last() =~= s@.take(n - 1));
        n -= 1;
    }
    slice_subrange(s, 0, n)
}

/// Drops white space at both ends.
pub fn trimmed(s: &[char]) -> (r: &[char])
    ensures
        r@ == trim(s@),
{
    trimmed_end(trimmed_start(s))
}

/// Drops leading colons.
pub fn without_colons(s: &[char]) -> (r: &[char])
    ensures
        r@ == trim_colons(s@),
{
    let mut i: usize = 0;
    assert(s@.skip(0) =~= s@);
    while i < s.len() && s[i] == ':'
        invariant
            i <= s@.len(),
            trim_colons(s@) == trim_colons(s@.skip(i as int)),
        decreases s@.len() - i,
    {
        assert(s@.skip(i as int).drop_first() =~= s@.skip(i + 1));
        i += 1;
    }
    slice_subrange(s, i, s.len())
}

// ---------------------------------------------------------------------------
// Searching and splitting
// ---------------------------------------------------------------------------

/// The number of characters of `s` before the first `c`, or all of them.
pub open spec fn until(s: Seq<char>, c: char) -> nat
    decreases s.len(),
{
    if s.len() == 0 || s[0] == c {
        0
    } else {
        1 + until(s.drop_first(), c)
    }
}

/// `until` stops at the first occurrence.
pub proof fn lemma_until(s: Seq<char>, c: char)
    ensures
        until(s, c) <= s.len(),
        until(s, c) < s.len() ==> s[until(s, c) as int] == c,
        forall|i: int| 0 <= i < until(s, c) ==> s[i] != c,
    decreases s.len(),
{
    if s.len() > 0 && s[0] != c {
        lemma_until(s.drop_first(), c);
        assert forall|i: int| 0 <= i < until(s, c) implies s[i] != c by {
            if i > 0 {
                assert(s.drop_first()[i - 1] == s[i]);
            }
        }
        if until(s, c) < s.len() {
            assert(s.drop_first()[until(s, c) - 1] == s[until(s, c) as int]);
        }
    }
}

/// `until` is the index of the first occurrence.
pub proof fn lemma_until_is(s: Seq<char>, c: char, n: nat)
    requires
        n <= s.len(),
        forall|i: int| 0 <= i < n ==> s[i] != c,
        n < s.len() ==> s[n as int] == c,
    ensures
        until(s, c) == n,
{
    lemma_until(s, c);
    if until(s, c) < n {
        assert(s[until(s, c) as int] != c);
    }
    if n < until(s, c) {
        assert(s[n as int] != c);
    }
}

/// The index of the first `c` in `s`, or the length of `s`.
pub fn find_char(s: &[char], c: char) -> (r: usize)
    ensures
        r == until(s@, c),
        r <= s@.len(),
        r < s@.len() ==> s@[r as int] == c,
{
    let mut i: usize = 0;
    while i < s.len() && s[i] != c
        invariant
            i <= s@.len(),
            forall|j: int| 0 <= j < i ==> s@[j] != c,
        decreases s@.len() - i,
    {
        i += 1;
    }
    proof {
        lemma_until_is(s@, c, i as nat);
    }
    i
}

/// The pieces of `s` between occurrences of `c`; always at least one.
pub open spec fn split_on(s: Seq<char>, c: char) -> Seq<Seq<char>>
    decreases s.len(),
{
    let n = until(s, c);
    if n >= s.len() {
        seq![s]
    } else {
        seq![s.take(n as int)] + split_on(s.skip(n as int + 1), c)
    }
}

/// The contents of a vector of pieces.
pub open spec fn pieces(v: Seq<Vec<char>>) -> Seq<Seq<char>> {
    v.map_values(|p: Vec<char>| p@)
}

/// Splits `s` at every `c`.
pub fn split_char(s: &[char], c: char) -> (r: Vec<Vec<char>>)
    ensures
        pieces(r@) == split_on(s@, c),
{
    let mut out: Vec<Vec<char>> = Vec::new();
    let mut start: usize = 0;
    assert(s@.skip(0) =~= s@);
    assert(pieces(out@) + split_on(s@, c) =~= split_on(s@, c));
    loop
        invariant
            start <= s@.len(),
            split_on(s@, c) == pieces(out@) + split_on(s@.skip(start as int), c),
        decreases s@.len() - start,
    {
        let rest = slice_subrange(s, start, s.len());
        assert(rest@ =~= s@.skip(start as int));
        let n = find_char(rest, c);
        let piece = vstd::slice::slice_to_vec(slice_subrange(rest, 0, n));
        let ghost before = out@;
        out.push(piece);
        assert(piece@ =~= rest@.take(n as int));
        assert(pieces(out@) =~= pieces(before).push(piece@));
        if n == rest.len() {
            assert(rest@.take(n as int) =~= rest@);
            assert(split_on(rest@, c) =~= seq![rest@]);
            assert(pieces(out@) =~= pieces(before) + seq![rest@]);
            return out;
        }
        proof {
            assert(rest@.skip(n + 1) =~= s@.skip(start + n + 1));
            assert(split_on(rest@, c) == seq![rest@.take(n as int)] + split_on(rest@.skip(n + 1), c));
            assert(pieces(before) + (seq![rest@.take(n as int)] + split_on(rest@.skip(n + 1), c))
                =~= pieces(out@) + split_on(rest@.skip(n + 1), c));
        }
        start = start + n + 1;
    }
}

/// `s` without one trailing carriage return.
pub open spec fn without_cr(s: Seq<char>) -> Seq<char> {
    if s.len() > 0 && s.last() == '\r' {
        s.drop_last()
    } else {
        s
    }
}

/// The lines of `s`. A line ends with `\n` or `\r\n`; the ending of the last
/// line is optional.
pub open spec fn lines(s: Seq<char>) -> Seq<Seq<char>>
    decreases s.len(),
{
    let n = until(s, '\n');
    if s.len() == 0 {
        Seq::empty()
    } else if n >= s.len() {
        seq![s]
    } else {
        seq![without_cr(s.take(n as int))] + lines(s.skip(n as int + 1))
    }
}

/// Splits `s` into its lines.
pub fn lines_of(s: &[char]) -> (r: Vec<Vec<char>>)
    ensures
        pieces(r@) == lines(s@),
{
    let mut out: Vec<Vec<char>> = Vec::new();
    let mut start: usize = 0;
    assert(s@.skip(0) =~= s@);
    assert(pieces(out@) + lines(s@) =~= lines(s@));
    while start < s.len()
        invariant
            start <= s@.len(),
            lines(s@) == pieces(out@) + lines(s@.skip(start as int)),
        decreases s@.len() - start,
    {
        let rest = slice_subrange(s, start, s.len());
        assert(rest@ =~= s@.skip(start as int));
        let n = find_char(rest, '\n');
        let ghost before = out@;
        if n == rest.len() {
            let piece = vstd::slice::slice_to_vec(rest);
            out.push(piece);
            assert(pieces(out@) =~= pieces(before) + seq![rest@]);
            return out;
        }
        let end: usize = if n > 0 && rest[n - 1] == '\r' {
            n - 1
        } else {
            n
        };
        let piece = vstd::slice::slice_to_vec(slice_subrange(rest, 0, end));
        out.push(piece);
        proof {
            assert(piece@ =~= without_cr(rest@.take(n as int)));
            assert(pieces(out@) =~= pieces(before).push(piece@));
            assert(rest@.skip(n + 1) =~= s@.skip(start + n + 1));
            assert(pieces(before) + (seq![piece@] + lines(rest@.skip(n + 1))) =~= pieces(out@)
                + lines(rest@.skip(n + 1)));
        }
        start = start + n + 1;
    }
    assert(s@.skip(start as int) =~= Seq::<char>::empty());
    assert(pieces(out@) + lines(s@.skip(start as int)) =~= pieces(out@));
    out
}

/// Whether `pat` stands in `s` at index `i`.
pub open spec fn occurs_at(s: Seq<char>, pat: Seq<char>, i: int) -> bool {
    0 <= i && i + pat.len() <= s.len() && s.subrange(i, i + pat.len()) == pat
}

/// The first index from `from` on at which `pat` stands in `s`.
pub open spec fn find_text(s: Seq<char>, pat: Seq<char>, from: int) -> Option<int>
    decreases s.len() + 1 - from,
{
    if from < 0 || from + pat.len() > s.len() {
        None
    } else if occurs_at(s, pat, from) {
        Some(from)
    } else {
        find_text(s, pat, from + 1)
    }
}

/// The index that `find_text` gives is in range and `pat` stands there.
pub proof fn lemma_find_text(s: Seq<char>, pat: Seq<char>, from: int)
    ensures
        find_text(s, pat, from) matches Some(i) ==> from <= i && occurs_at(s, pat, i),
    decreases s.len() + 1 - from,
{
    if from >= 0 && from + pat.len() <= s.len() && !occurs_at(s, pat, from) {
        lemma_find_text(s, pat, from + 1);
    }
}

/// What follows `pat` at the start of `s`, if `s` starts with it.
pub open spec fn strip(s: Seq<char>, pat: Seq<char>) -> Option<Seq<char>> {
    if occurs_at(s, pat, 0) {
        Some(s.skip(pat.len() as int))
    } else {
        None
    }
}

/// What stands before and after the first `pat` in `s`.
pub open spec fn halves(s: Seq<char>, pat: Seq<char>) -> Option<(Seq<char>, Seq<char>)> {
    match find_text(s, pat, 0) {
        Some(i) => Some((s.take(i), s.skip(i + pat.len()))),
        None => None,
    }
}

/// `s` with every `pat`, found from left to right, replaced by `with`.
pub open spec fn replace(s: Seq<char>, pat: Seq<char>, with: Seq<char>) -> Seq<char>
    decreases s.len(),
{
    match find_text(s, pat, 0) {
        Some(i) => if pat.len() > 0 && 0 <= i && i + pat.len() <= s.len() {
            s.take(i) + with + replace(s.skip(i + pat.len()), pat, with)
        } else {
            s
        },
        None => s,
    }
}

/// Decides `occurs_at`.
fn stands_at(s: &[char], pat: &[char], i: usize) -> (r: bool)
    requires
        i + pat@.len() <= s@.len(),
    ensures
        r == occurs_at(s@, pat@, i as int),
{
    let total: usize = s.len();
    assert(i + pat@.len() <= total);
    same_chars(slice_subrange(s, i, i + pat.len()), pat)
}

/// Finds the first `pat` in `s`.
pub fn find_chars(s: &[char], pat: &[char]) -> (r: Option<usize>)
    ensures
        match r {
            Some(i) => find_text(s@, pat@, 0) == Some(i as int) && i + pat@.len() <= s@.len(),
            None => find_text(s@, pat@, 0) is None,
        },
{
    if pat.len() > s.len() {
        return None;
    }
    let last: usize = s.len() - pat.len();
    let mut i: usize = 0;
    loop
        invariant
            i <= last,
            last == s@.len() - pat@.len(),
            find_text(s@, pat@, 0) == find_text(s@, pat@, i as int),
        decreases last - i,
    {
        if stands_at(s, pat, i) {
            return Some(i);
        }
        if i == last {
            return None;
        }
        i += 1;
    }
}

/// Removes `pat` from the start of `s`.
pub fn stripped<'a>(s: &'a [char], pat: &str) -> (r: Option<&'a [char]>)
    ensures
        match r {
            Some(rest) => strip(s@, pat@) == Some(rest@),
            None => strip(s@, pat@) is None,
        },
{
    let p = chars_of(pat);
    if p.len() <= s.len() && stands_at(s, p.as_slice(), 0) {
        let rest = slice_subrange(s, p.len(), s.len());
        assert(rest@ =~= s@.skip(p@.len() as int));
        Some(rest)
    } else {
        None
    }
}

/// Whether `s` starts with `pat`.
pub fn begins_with(s: &[char], pat: &str) -> (r: bool)
    ensures
        r == pat@.is_prefix_of(s@),
{
    let p = chars_of(pat);
    p.len() <= s.len() && stands_at(s, p.as_slice(), 0)
}

/// Cuts `s` at the first `pat`.
pub fn cut<'a>(s: &'a [char], pat: &str) -> (r: Option<(&'a [char], &'a [char])>)
    ensures
        match r {
            Some((a, b)) => halves(s@, pat@) == Some((a@, b@)),
            None => halves(s@, pat@) is None,
        },
{
    let p = chars_of(pat);
    match find_chars(s, p.as_slice()) {
        Some(i) => {
            let total: usize = s.len();
            let a = slice_subrange(s, 0, i);
            let b = slice_subrange(s, i + p.len(), total);
            assert(a@ =~= s@.take(i as int));
            assert(b@ =~= s@.skip(i + p@.len()));
            Some((a, b))
        },
        None => None,
    }
}

/// Replaces every `pat` in `s` by `with`.
pub fn replaced(s: &[char], pat: &[char], with: &[char]) -> (r: Vec<char>)
    requires
        pat@.len() > 0,
    ensures
        r@ == replace(s@, pat@, with@),
{
    let mut out: Vec<char> = Vec::new();
    let mut start: usize = 0;
    assert(s@.skip(0) =~= s@);
    assert(out@ + replace(s@, pat@, with@) =~= replace(s@, pat@, with@));
    loop
        invariant
            start <= s@.len(),
            pat@.len() > 0,
            replace(s@, pat@, with@) == out@ + replace(s@.skip(start as int), pat@, with@),
        decreases s@.len() - start,
    {
        let rest = slice_subrange(s, start, s.len());
        assert(rest@ =~= s@.skip(start as int));
        let ghost before = out@;
        match find_chars(rest, pat) {
            None => {
                append(&mut out, rest);
                return out;
            },
            Some(i) => {
                append(&mut out, slice_subrange(rest, 0, i));
                append(&mut out, with);
                proof {
                    assert(rest@.subrange(0, i as int) =~= rest@.take(i as int));
                    assert(rest@.skip(i + pat@.len()) =~= s@.skip(start + i + pat@.len()));
                    assert(before + (rest@.take(i as int) + with@ + replace(
                        rest@.skip(i + pat@.len()),
                        pat@,
                        with@,
                    )) =~= out@ + replace(rest@.skip(i + pat@.len()), pat@, with@));
                }
                start = start + i + pat.len();
            },
        }
    }
}

/// Appends characters.
pub fn append(out: &mut Vec<char>, more: &[char])
    ensures
        final(out)@ == old(out)@ + more@,
{
    let ghost before = out@;
    let mut i: usize = 0;
    while i < more.len()
        invariant
            i <= more@.len(),
            out@ == before + more@.take(i as int),
        decreases more@.len() - i,
    {
        out.push(more[i]);
        assert(before + more@.take(i + 1) =~= (before + more@.take(i as int)).push(more@[i as int]));
        i += 1;
    }
    assert(more@.take(more@.len() as int) =~= more@);
}

/// The characters of `s` after its last white space.
pub open spec fn tail_word(s: Seq<char>) -> Seq<char>
    decreases s.len(),
{
    if s.len() == 0 || is_white(s.last()) {
        Seq::empty()
    } else {
        tail_word(s.drop_last()).push(s.last())
    }
}

/// The last word of `s`, words being separated by white space.
pub open spec fn last_word(s: Seq<char>) -> Option<Seq<char>> {
    if trim_end(s).len() == 0 {
        None
    } else {
        Some(tail_word(trim_end(s)))
    }
}

/// Finds the last word of `s`.
pub fn word_at_end(s: &[char]) -> (r: Option<&[char]>)
    ensures
        match r {
            Some(w) => last_word(s@) == Some(w@),
            None => last_word(s@) is None,
        },
{
    let t = trimmed_end(s);
    if t.len() == 0 {
        return None;
    }
    let mut i: usize = t.len();
    assert(t@.take(t@.len() as int) =~= t@);
    assert(tail_word(t@) =~= tail_word(t@.take(i as int)) + t@.skip(i as int));
    while i > 0 && !white(t[i - 1])
        invariant
            i <= t@.len(),
            tail_word(t@) == tail_word(t@.take(i as int)) + t@.skip(i as int),
        decreases i,
    {
        proof {
            assert(t@.take(i as int).drop_last() =~= t@.take(i - 1));
            assert(tail_word(t@.take(i - 1)).push(t@[i - 1]) + t@.skip(i as int) =~= tail_word(
                t@.take(i - 1),
            ) + t@.skip(i - 1));
        }
        i -= 1;
    }
    assert(tail_word(t@.take(i as int)) =~= Seq::empty());
    let w = slice_subrange(t, i, t.len());
    assert(w@ =~= tail_word(t@));
    Some(w)
}

// ---------------------------------------------------------------------------
// Laws
// ---------------------------------------------------------------------------

/// The texts of strings are those of each string, in order.
pub proof fn law_texts_are_complete(v: Seq<String>, p: Seq<Vec<char>>)
    ensures
        texts(v).len() == v.len(),
        forall|i: int| 0 <= i < v.len() ==> #[trigger] texts(v)[i] == v[i]@,
        pieces(p).len() == p.len(),
        forall|i: int| 0 <= i < p.len() ==> #[trigger] pieces(p)[i] == p[i]@,
{
}

/// White space is what Unicode says, by code point.
pub proof fn law_white_space_by_code_point(c: char)
    ensures
        is_white(c) <==> ({
            let n = c as u32;
            9 <= n <= 13 || n == 32 || n == 133 || n == 160 || n == 5760 || 8192 <= n <= 8202 || n
                == 8232 || n == 8233 || n == 8239 || n == 8287 || n == 12288
        }),
{
}

/// What is trimmed off the start is white, and what is left does not start so.
proof fn lemma_trim_start(s: Seq<char>) -> (a: int)
    ensures
        0 <= a <= s.len(),
        trim_start(s) == s.skip(a),
        forall|i: int| 0 <= i < a ==> is_white(#[trigger] s[i]),
        a < s.len() ==> !is_white(s[a]),
    decreases s.len(),
{
    if s.len() > 0 && is_white(s[0]) {
        let rest = s.drop_first();
        let b = lemma_trim_start(rest);
        assert(rest.skip(b) =~= s.skip(b + 1));
        assert forall|i: int| 0 <= i < b + 1 implies is_white(#[trigger] s[i]) by {
            if i > 0 {
                assert(rest[i - 1] == s[i]);
            }
        }
        if b < rest.len() {
            assert(rest[b] == s[b + 1]);
        }
        b + 1
    } else {
        assert(s.skip(0) =~= s);
        0
    }
}

/// What is trimmed off the end is white, and what is left does not end so.
proof fn lemma_trim_end(s: Seq<char>) -> (n: int)
    ensures
        0 <= n <= s.len(),
        trim_end(s) == s.take(n),
        forall|i: int| n <= i < s.len() ==> is_white(#[trigger] s[i]),
        n > 0 ==> !is_white(s[n - 1]),
    decreases s.len(),
{
    if s.len() > 0 && is_white(s.last()) {
        let rest = s.drop_last();
        let n = lemma_trim_end(rest);
        assert(rest.take(n) =~= s.take(n));
        assert forall|i: int| n <= i < s.len() implies is_white(#[trigger] s[i]) by {
            if i < rest.len() {
                assert(rest[i] == s[i]);
            }
        }
        if n > 0 {
            assert(rest[n - 1] == s[n - 1]);
        }
        n
    } else {
        assert(s.take(s.len() as int) =~= s);
        s.len() as int
    }
}

/// Trimming takes off all white space at the ends and nothing else.
pub proof fn law_trimming_takes_white_ends(a: Seq<char>, t: Seq<char>, b: Seq<char>)
    requires
        forall|i: int| 0 <= i < a.len() ==> is_white(#[trigger] a[i]),
        forall|i: int| 0 <= i < b.len() ==> is_white(#[trigger] b[i]),
        t.len() > 0 ==> !is_white(t[0]) && !is_white(t.last()),
    ensures
        trim(a + t + b) == t,
        t.len() > 0 ==> trim_end(a + t + b) == a + t,
{
    let s = a + t + b;
    let k = lemma_trim_start(s);
    if t.len() > 0 {
        assert(s[a.len() as int] == t[0]);
        assert(k <= a.len()) by {
            if k > a.len() {
                assert(is_white(s[a.len() as int]));
            }
        }
        assert(k >= a.len()) by {
            if k < a.len() {
                assert(s[k] == a[k]);
            }
        }
        let u = s.skip(k);
        assert(u =~= t + b);
        let n = lemma_trim_end(u);
        assert(u[t.len() - 1] == t.last());
        assert(n >= t.len()) by {
            if n < t.len() {
                assert(is_white(u[t.len() - 1]));
            }
        }
        assert(n <= t.len()) by {
            if n > t.len() {
                assert(u[n - 1] == b[n - 1 - t.len()]);
            }
        }
        assert(u.take(n) =~= t);
        let e = lemma_trim_end(s);
        let whole = (a.len() + t.len()) as int;
        assert(s[whole - 1] == t.last());
        assert(e >= whole) by {
            if e < whole {
                assert(is_white(s[whole - 1]));
            }
        }
        assert(e <= whole) by {
            if e > whole {
                assert(s[e - 1] == b[e - 1 - whole]);
            }
        }
        assert(s.take(e) =~= a + t);
    } else {
        assert(k == s.len()) by {
            if k < s.len() {
                if k < a.len() {
                    assert(s[k] == a[k]);
                } else {
                    assert(s[k] == b[k - a.len()]);
                }
            }
        }
        assert(s.skip(k) =~= t);
        assert(trim_end(t) =~= t);
    }
}

/// Leading colons are taken off, all of them and nothing else.
pub proof fn law_colons_are_taken_off(a: Seq<char>, t: Seq<char>)
    requires
        forall|i: int| 0 <= i < a.len() ==> #[trigger] a[i] == ':',
        t.len() > 0 ==> t[0] != ':',
    ensures
        trim_colons(a + t) == t,
    decreases a.len(),
{
    if a.len() > 0 {
        assert((a + t)[0] == a[0]);
        assert((a + t).drop_first() =~= a.drop_first() + t);
        assert forall|i: int| 0 <= i < a.drop_first().len() implies #[trigger] a.drop_first()[i]
            == ':' by {
            assert(a.drop_first()[i] == a[i + 1]);
        }
        law_colons_are_taken_off(a.drop_first(), t);
    } else {
        assert(a + t =~= t);
    }
}

/// Stripping a start gives what follows it, exactly where the text has that start.
pub proof fn law_stripping_undoes_prefixing(s: Seq<char>, pat: Seq<char>, rest: Seq<char>)
    ensures
        (strip(s, pat) == Some(rest)) == (s == pat + rest),
{
    if s == pat + rest {
        assert(s.subrange(0, pat.len() as int) =~= pat);
        assert(s.skip(pat.len() as int) =~= rest);
    }
    if strip(s, pat) == Some(rest) {
        assert(s =~= pat + rest);
    }
}

/// The first occurrence is found, wherever there is one.
proof fn lemma_first_text(s: Seq<char>, pat: Seq<char>, from: int, k: int)
    requires
        0 <= from <= k,
        occurs_at(s, pat, k),
        forall|i: int| from <= i < k ==> !#[trigger] occurs_at(s, pat, i),
    ensures
        find_text(s, pat, from) == Some(k),
    decreases k - from,
{
    if from < k {
        assert(!occurs_at(s, pat, from));
        lemma_first_text(s, pat, from + 1, k);
    }
}

/// Where there is no occurrence, none is found.
proof fn lemma_no_text(s: Seq<char>, pat: Seq<char>, from: int)
    requires
        forall|i: int| from <= i ==> !#[trigger] occurs_at(s, pat, i),
    ensures
        find_text(s, pat, from) is None,
    decreases s.len() + 1 - from,
{
    if from >= 0 && from + pat.len() <= s.len() {
        assert(!occurs_at(s, pat, from));
        lemma_no_text(s, pat, from + 1);
    }
}

/// A text is cut at the first place where the separator stands, and only there.
pub proof fn law_text_is_cut_at_the_first_place(a: Seq<char>, pat: Seq<char>, b: Seq<char>)
    requires
        forall|i: int|
            0 <= i < a.len() ==> (#[trigger] (a + pat + b).subrange(i, i + pat.len())) != pat,
    ensures
        halves(a + pat + b, pat) == Some((a, b)),
{
    let s = a + pat + b;
    let k = a.len() as int;
    assert(s.subrange(k, k + pat.len()) =~= pat);
    assert forall|i: int| 0 <= i < k implies !#[trigger] occurs_at(s, pat, i) by {
        assert(s.subrange(i, i + pat.len()) != pat);
    }
    lemma_first_text(s, pat, 0, k);
    assert(s.take(k) =~= a);
    assert(s.skip(k + pat.len()) =~= b);
}

/// A text without the separator is not cut.
pub proof fn law_text_without_separator_is_whole(s: Seq<char>, pat: Seq<char>, with: Seq<char>)
    requires
        forall|i: int|
            0 <= i <= s.len() - pat.len() ==> (#[trigger] s.subrange(i, i + pat.len())) != pat,
    ensures
        halves(s, pat) is None,
        replace(s, pat, with) == s,
{
    assert forall|i: int| 0 <= i implies !#[trigger] occurs_at(s, pat, i) by {
        if i <= s.len() - pat.len() {
            assert(s.subrange(i, i + pat.len()) != pat);
        }
    }
    lemma_no_text(s, pat, 0);
}

/// Replacing goes on behind each place that is replaced, from left to right.
pub proof fn law_every_place_is_replaced(
    a: Seq<char>,
    pat: Seq<char>,
    b: Seq<char>,
    with: Seq<char>,
)
    requires
        pat.len() > 0,
        forall|i: int|
            0 <= i < a.len() ==> (#[trigger] (a + pat + b).subrange(i, i + pat.len())) != pat,
    ensures
        replace(a + pat + b, pat, with) == a + with + replace(b, pat, with),
{
    let s = a + pat + b;
    let k = a.len() as int;
    assert(s.subrange(k, k + pat.len()) =~= pat);
    assert forall|i: int| 0 <= i < k implies !#[trigger] occurs_at(s, pat, i) by {
        assert(s.subrange(i, i + pat.len()) != pat);
    }
    lemma_first_text(s, pat, 0, k);
    assert(s.take(k) =~= a);
    assert(s.skip(k + pat.len()) =~= b);
}

/// Pieces are what stands between separators.
pub proof fn law_pieces_stand_between_separators(l: Seq<char>, c: char, rest: Seq<char>)
    requires
        forall|i: int| 0 <= i < l.len() ==> #[trigger] l[i] != c,
    ensures
        split_on(l, c) == seq![l],
        split_on(l.push(c) + rest, c) == seq![l] + split_on(rest, c),
{
    lemma_until_is(l, c, l.len());
    let s = l.push(c) + rest;
    assert forall|i: int| 0 <= i < l.len() implies s[i] != c by {
        assert(s[i] == l[i]);
    }
    lemma_until_is(s, c, l.len());
    assert(s.take(l.len() as int) =~= l);
    assert(s.skip(l.len() as int + 1) =~= rest);
}

/// A text is read line by line: up to each line feed, without a carriage return
/// before it, and the last line with or without an ending.
pub proof fn law_text_is_read_by_lines(l: Seq<char>, rest: Seq<char>)
    requires
        forall|i: int| 0 <= i < l.len() ==> #[trigger] l[i] != '\n',
    ensures
        lines(Seq::<char>::empty()) == Seq::<Seq<char>>::empty(),
        l.len() > 0 ==> lines(l) == seq![l],
        l.len() > 0 && l.last() != '\r' || l.len() == 0 ==> lines(l.push('\n') + rest) == seq![l]
            + lines(rest),
        lines(l.push('\r').push('\n') + rest) == seq![l] + lines(rest),
{
    lemma_until_is(l, '\n', l.len());
    let s = l.push('\n') + rest;
    assert forall|i: int| 0 <= i < l.len() implies s[i] != '\n' by {
        assert(s[i] == l[i]);
    }
    lemma_until_is(s, '\n', l.len());
    assert(s.take(l.len() as int) =~= l);
    assert(s.skip(l.len() as int + 1) =~= rest);
    let t = l.push('\r').push('\n') + rest;
    assert forall|i: int| 0 <= i < l.len() + 1 implies t[i] != '\n' by {
        if i < l.len() {
            assert(t[i] == l[i]);
        }
    }
    lemma_until_is(t, '\n', l.len() + 1);
    assert(t.take(l.len() as int + 1) =~= l.push('\r'));
    assert(l.push('\r').drop_last() =~= l);
    assert(t.skip(l.len() as int + 2) =~= rest);
}

/// The characters behind the last white space.
proof fn lemma_tail_word(p: Seq<char>, w: Seq<char>)
    requires
        p.len() == 0 || is_white(p.last()),
        forall|i: int| 0 <= i < w.len() ==> !is_white(#[trigger] w[i]),
    ensures
        tail_word(p + w) == w,
    decreases w.len(),
{
    let s = p + w;
    if w.len() == 0 {
        assert(s =~= p);
    } else {
        assert(s.last() == w.last());
        assert(!is_white(w[w.len() - 1]));
        assert(s.drop_last() =~= p + w.drop_last());
        assert forall|i: int| 0 <= i < w.drop_last().len() implies !is_white(
            #[trigger] w.drop_last()[i],
        ) by {
            assert(w.drop_last()[i] == w[i]);
        }
        lemma_tail_word(p, w.drop_last());
        assert(w.drop_last().push(w.last()) =~= w);
    }
}

/// The last word is the one behind which there is only white space.
pub proof fn law_last_word_is_last(p: Seq<char>, w: Seq<char>, t: Seq<char>)
    requires
        p.len() == 0 || is_white(p.last()),
        forall|i: int| 0 <= i < w.len() ==> !is_white(#[trigger] w[i]),
        forall|i: int| 0 <= i < t.len() ==> is_white(#[trigger] t[i]),
    ensures
        w.len() > 0 ==> last_word(p + w + t) == Some(w),
        last_word(t) is None,
{
    let n = lemma_trim_end(t);
    if n > 0 {
        assert(is_white(t[n - 1]));
    }
    if w.len() > 0 {
        let s = p + w + t;
        let e = lemma_trim_end(s);
        let whole = (p.len() + w.len()) as int;
        assert(s[whole - 1] == w[w.len() - 1]);
        assert(e >= whole) by {
            if e < whole {
                assert(is_white(s[whole - 1]));
            }
        }
        assert(e <= whole) by {
            if e > whole {
                assert(s[e - 1] == t[e - 1 - whole]);
            }
        }
        assert(s.take(e) =~= p + w);
        lemma_tail_word(p, w);
    }
}

/// An optional text is there exactly where the string is, and is its characters.
pub proof fn law_option_text_is_the_text(s: String)
    ensures
        option_text(Some(s)) == Some(s@),
        option_text(None) is None,
{
}

} // verus!
