//! Paths and their segments.
//!
//! A path is a sequence of characters in which `/` separates segments. Any run
//! of separators counts as one boundary, and separators at either end bound
//! nothing, so `//a///b//` and `a/b` have the same two segments.

use vstd::prelude::*;

verus! {

broadcast use vstd::string::group_string_axioms;

/// The character that separates segments.
pub const SEPARATOR: char = '/';

/// The half-open index ranges of the segments of `s`: its maximal runs of
/// characters other than the separator, from left to right.
///
/// Reading `s` one character at a time, a separator leaves the ranges as they
/// are, a character that follows a non-separator extends the last range, and
/// any other character opens a new range.
pub open spec fn bounds_of(s: Seq<char>) -> Seq<(int, int)>
    decreases s.len(),
{
    if s.len() == 0 {
        Seq::empty()
    } else {
        let n = s.len() as int;
        let before = bounds_of(s.drop_last());
        if s[n - 1] == SEPARATOR {
            before
        } else if n >= 2 && s[n - 2] != SEPARATOR {
            before.drop_last().push((before.last().0, n))
        } else {
            before.push((n - 1, n))
        }
    }
}

/// The segments of `s`, in order.
pub open spec fn segments_of(s: Seq<char>) -> Seq<Seq<char>> {
    Seq::new(bounds_of(s).len(), |k: int| s.subrange(bounds_of(s)[k].0, bounds_of(s)[k].1))
}

/// Whether `b` lists ranges that lie inside a string of length `n`, each one
/// non-empty and each one starting after the end of the one before it.
pub open spec fn ordered_ranges(b: Seq<(int, int)>, n: int) -> bool {
    &&& forall|k: int| 0 <= k < b.len() ==> 0 <= (#[trigger] b[k]).0 < b[k].1 <= n
    &&& forall|k: int, l: int| 0 <= k < l < b.len() ==> (#[trigger] b[k]).1 < (#[trigger] b[l]).0
}

/// The ranges of `bounds_of` are ordered, separated from each other, and the
/// last one reaches the end of the string exactly when the string does not end
/// in a separator.
pub proof fn lemma_bounds_ordered(s: Seq<char>)
    ensures
        ordered_ranges(bounds_of(s), s.len() as int),
        bounds_of(s).len() <= s.len(),
        s.len() > 0 && s.last() != SEPARATOR ==> bounds_of(s).len() > 0 && bounds_of(s).last().1
            == s.len(),
        s.len() > 0 && s.last() == SEPARATOR ==> (forall|k: int|
            0 <= k < bounds_of(s).len() ==> (#[trigger] bounds_of(s)[k]).1 < s.len()),
    decreases s.len(),
{
    if s.len() > 0 {
        let t = s.drop_last();
        lemma_bounds_ordered(t);
        let n = s.len() as int;
        if s[n - 1] != SEPARATOR && n >= 2 && s[n - 2] != SEPARATOR {
            assert(t.last() == s[n - 2]);
        } else if s[n - 1] != SEPARATOR && n >= 2 {
            assert(t.last() == s[n - 2]);
        }
    }
}

/// Every range of `bounds_of` holds no separator and cannot be extended on
/// either side, and every character that is no separator lies in one of them:
/// the ranges are exactly the maximal separator-free runs.
pub proof fn lemma_bounds_maximal(s: Seq<char>)
    ensures
        forall|k: int, m: int|
            0 <= k < bounds_of(s).len() && (#[trigger] bounds_of(s)[k]).0 <= m < bounds_of(s)[k].1
                ==> #[trigger] s[m] != SEPARATOR,
        forall|k: int|
            0 <= k < bounds_of(s).len() && (#[trigger] bounds_of(s)[k]).0 > 0 ==> s[bounds_of(
                s,
            )[k].0 - 1] == SEPARATOR,
        forall|k: int|
            0 <= k < bounds_of(s).len() && (#[trigger] bounds_of(s)[k]).1 < s.len() ==> s[bounds_of(
                s,
            )[k].1] == SEPARATOR,
        forall|m: int|
            0 <= m < s.len() && #[trigger] s[m] != SEPARATOR ==> exists|k: int|
                0 <= k < bounds_of(s).len() && (#[trigger] bounds_of(s)[k]).0 <= m < bounds_of(
                    s,
                )[k].1,
    decreases s.len(),
{
    lemma_bounds_ordered(s);
    if s.len() > 0 {
        let t = s.drop_last();
        let n = s.len() as int;
        lemma_bounds_maximal(t);
        lemma_bounds_ordered(t);
        let b = bounds_of(s);
        let bt = bounds_of(t);
        if n >= 2 {
            assert(t.last() == s[n - 2]);
        }
        assert forall|m: int| 0 <= m < s.len() && #[trigger] s[m] != SEPARATOR implies exists|
            k: int,
        |
            0 <= k < b.len() && (#[trigger] b[k]).0 <= m < b[k].1 by {
            if m < n - 1 {
                assert(t[m] == s[m]);
                let k = choose|k: int| 0 <= k < bt.len() && (#[trigger] bt[k]).0 <= m < bt[k].1;
                if s[n - 1] != SEPARATOR && n >= 2 && s[n - 2] != SEPARATOR && k == bt.len() - 1 {
                    assert(b[k].0 <= m < b[k].1);
                } else {
                    assert(b[k] == bt[k]);
                }
            } else {
                assert(b.last().0 <= m < b.last().1);
            }
        }
        assert forall|k: int, m: int|
            0 <= k < b.len() && (#[trigger] b[k]).0 <= m < b[k].1 implies #[trigger] s[m]
            != SEPARATOR by {
            if m < n - 1 {
                assert(t[m] == s[m]);
                if k < bt.len() {
                    assert(bt[k].0 == b[k].0);
                    assert(bt[k].0 <= m < bt[k].1);
                }
            }
        }
        assert forall|k: int| 0 <= k < b.len() && (#[trigger] b[k]).0 > 0 implies s[b[k].0 - 1]
            == SEPARATOR by {
            if k < bt.len() {
                assert(bt[k].0 == b[k].0);
                assert(t[bt[k].0 - 1] == s[b[k].0 - 1]);
            }
        }
        assert forall|k: int| 0 <= k < b.len() && (#[trigger] b[k]).1 < s.len() implies s[b[k].1]
            == SEPARATOR by {
            assert(k < bt.len());
            assert(bt[k] == b[k]);
            if bt[k].1 < t.len() {
                assert(t[bt[k].1] == s[b[k].1]);
            }
        }
    }
}

/// Every segment is non-empty and free of separators.
pub proof fn lemma_segments_plain(s: Seq<char>)
    ensures
        segments_of(s).len() <= s.len(),
        forall|k: int|
            0 <= k < segments_of(s).len() ==> (#[trigger] segments_of(s)[k]).len() > 0,
        forall|k: int, m: int|
            0 <= k < segments_of(s).len() && 0 <= m < segments_of(s)[k].len()
                ==> #[trigger] segments_of(s)[k][m] != SEPARATOR,
{
    lemma_bounds_ordered(s);
    lemma_bounds_maximal(s);
    let b = bounds_of(s);
    assert forall|k: int, m: int|
        0 <= k < segments_of(s).len() && 0 <= m < segments_of(s)[k].len()
        implies #[trigger] segments_of(s)[k][m] != SEPARATOR by {
        assert(b[k].0 <= b[k].0 + m < b[k].1);
        assert(segments_of(s)[k][m] == s[b[k].0 + m]);
    }
    assert forall|k: int| 0 <= k < segments_of(s).len() implies (#[trigger] segments_of(
        s,
    )[k]).len() > 0 by {
        assert(0 <= b[k].0 < b[k].1 <= s.len());
    }
}

/// The ranges `b` after one character has been put in at index `i`: those that
/// start at or after `i` move one place to the right.
pub open spec fn shifted(b: Seq<(int, int)>, i: int) -> Seq<(int, int)> {
    Seq::new(
        b.len(),
        |k: int|
            if b[k].0 >= i {
                (b[k].0 + 1, b[k].1 + 1)
            } else {
                b[k]
            },
    )
}

/// Whether a separator put in at index `i` of `s` lands at either end of `s`
/// or next to a separator that is already there.
pub open spec fn at_boundary(s: Seq<char>, i: int) -> bool {
    &&& 0 <= i <= s.len()
    &&& i == 0 || i == s.len() || s[i - 1] == SEPARATOR || s[i] == SEPARATOR
}

proof fn lemma_insertion_bounds(s: Seq<char>, i: int)
    requires
        at_boundary(s, i),
    ensures
        bounds_of(s.insert(i, SEPARATOR)) == shifted(bounds_of(s), i),
    decreases s.len(),
{
    let t = s.insert(i, SEPARATOR);
    let n = s.len() as int;
    lemma_bounds_ordered(s);
    lemma_bounds_maximal(s);
    if i == n {
        assert(t.drop_last() == s);
        assert(bounds_of(t) == shifted(bounds_of(s), i));
    } else {
        let s1 = s.drop_last();
        let t1 = t.drop_last();
        assert(t1 == s1.insert(i, SEPARATOR));
        assert(t.last() == s.last());
        lemma_insertion_bounds(s1, i);
        lemma_bounds_ordered(s1);
        lemma_bounds_maximal(s1);
        let b1 = bounds_of(s1);
        if s[n - 1] == SEPARATOR {
        } else if n >= 2 && s[n - 2] != SEPARATOR {
            assert(s1.last() == s[n - 2]);
            assert(i < n - 1);
            assert(t[n - 1] == s[n - 2]);
            let start = b1.last().0;
            assert(bounds_of(s).last() == (start, n));
            if start < i {
                assert(start <= i - 1 < n);
                assert(start <= i < n);
                assert(s[i - 1] != SEPARATOR);
                assert(s[i] != SEPARATOR);
            }
            assert(bounds_of(t) == shifted(bounds_of(s), i));
        } else {
            assert(t[n - 1] == SEPARATOR) by {
                if i < n - 1 {
                    assert(t[n - 1] == s[n - 2]);
                }
            }
            assert(bounds_of(t) == shifted(bounds_of(s), i));
        }
    }
}

/// Separator collapse. One more separator at either end of a path, or next to
/// a separator that is already there, leaves the segments as they are. So all
/// paths that differ only in the lengths of their separator runs, such as
/// `//a///b//` and `a/b`, have the same segments.
pub proof fn lemma_separator_insertion(s: Seq<char>, i: int)
    requires
        at_boundary(s, i),
    ensures
        segments_of(s.insert(i, SEPARATOR)) == segments_of(s),
{
    let t = s.insert(i, SEPARATOR);
    lemma_insertion_bounds(s, i);
    lemma_bounds_ordered(s);
    lemma_bounds_maximal(s);
    let b = bounds_of(s);
    assert forall|k: int| 0 <= k < b.len() implies #[trigger] segments_of(t)[k] == segments_of(
        s,
    )[k] by {
        let (from, to) = b[k];
        if from >= i {
            assert(t.subrange(from + 1, to + 1) =~= s.subrange(from, to));
        } else {
            if to > i {
                assert(from <= i - 1 < to);
                assert(from <= i < to);
                assert(s[i - 1] != SEPARATOR);
                assert(s[i] != SEPARATOR);
            }
            assert(t.subrange(from, to) =~= s.subrange(from, to));
        }
    }
    assert(segments_of(t) =~= segments_of(s));
}

/// How one more character at the end of a path changes its segments: a
/// separator changes nothing, a character after a non-separator extends the
/// last segment, and any other character starts a new segment.
pub proof fn lemma_segments_push(s: Seq<char>, c: char)
    ensures
        c == SEPARATOR ==> segments_of(s.push(c)) == segments_of(s),
        c != SEPARATOR && s.len() > 0 && s.last() != SEPARATOR ==> segments_of(s).len() > 0
            && segments_of(s.push(c)) == segments_of(s).drop_last().push(
            segments_of(s).last().push(c),
        ),
        c != SEPARATOR && (s.len() == 0 || s.last() == SEPARATOR) ==> segments_of(s.push(c))
            == segments_of(s).push(seq![c]),
{
    let t = s.push(c);
    let n = t.len() as int;
    assert(t.drop_last() == s);
    lemma_bounds_ordered(s);
    lemma_bounds_ordered(t);
    let b = bounds_of(s);
    let bt = bounds_of(t);
    assert forall|k: int| 0 <= k < b.len() && k < bt.len() && bt[k] == b[k] implies segments_of(
        t,
    )[k] == #[trigger] segments_of(s)[k] by {
        assert(t.subrange(b[k].0, b[k].1) =~= s.subrange(b[k].0, b[k].1));
    }
    if c == SEPARATOR {
        assert(segments_of(t) =~= segments_of(s));
    } else if s.len() > 0 && s.last() != SEPARATOR {
        assert(t[n - 2] == s.last());
        let last = b.len() - 1;
        assert(bt[last] == (b[last].0, n));
        assert(t.subrange(b[last].0, n) =~= s.subrange(b[last].0, n - 1).push(c));
        assert(segments_of(t) =~= segments_of(s).drop_last().push(segments_of(s).last().push(c)));
    } else {
        if s.len() > 0 {
            assert(t[n - 2] == s.last());
        }
        assert(t.subrange(n - 1, n) =~= seq![c]);
        assert(segments_of(t) =~= segments_of(s).push(seq![c]));
    }
}

/// The segments of two paths put together are the segments of the first
/// followed by those of the second, provided a separator stands where they
/// meet or one of them is empty.
pub proof fn lemma_segments_concat(a: Seq<char>, b: Seq<char>)
    requires
        a.len() == 0 || b.len() == 0 || a.last() == SEPARATOR || b[0] == SEPARATOR,
    ensures
        segments_of(a + b) == segments_of(a) + segments_of(b),
    decreases b.len(),
{
    if b.len() == 0 {
        assert(a + b == a);
        assert(segments_of(a) + segments_of(b) =~= segments_of(a));
    } else {
        let b1 = b.drop_last();
        let c = b.last();
        assert(b == b1.push(c));
        assert(a + b == (a + b1).push(c));
        if b1.len() > 0 {
            assert(b1[0] == b[0]);
            assert((a + b1).last() == b1.last());
        } else {
            assert(a + b1 == a);
        }
        lemma_segments_concat(a, b1);
        lemma_segments_push(a + b1, c);
        lemma_segments_push(b1, c);
        let sa = segments_of(a);
        let sb = segments_of(b1);
        if c == SEPARATOR {
        } else if b1.len() > 0 && b1.last() != SEPARATOR {
            assert((sa + sb).drop_last() =~= sa + sb.drop_last());
            assert((sa + sb).last() == sb.last());
            assert(sa + sb.drop_last().push(sb.last().push(c)) =~= (sa + sb.drop_last()).push(
                sb.last().push(c),
            ));
        } else {
            assert(sa + sb.push(seq![c]) =~= (sa + sb).push(seq![c]));
        }
    }
}

/// A path with every separator taken out that directly follows another one.
pub open spec fn collapsed(s: Seq<char>) -> Seq<char>
    decreases s.len(),
{
    if s.len() == 0 {
        s
    } else if s.last() == SEPARATOR && s.len() >= 2 && s[s.len() - 2] == SEPARATOR {
        collapsed(s.drop_last())
    } else {
        collapsed(s.drop_last()).push(s.last())
    }
}

/// Collapsing the separator runs of a path keeps its segments.
pub proof fn lemma_collapsed_segments(s: Seq<char>)
    ensures
        segments_of(collapsed(s)) == segments_of(s),
        collapsed(s).len() <= s.len(),
        s.len() > 0 ==> collapsed(s).len() > 0 && collapsed(s).last() == s.last(),
    decreases s.len(),
{
    if s.len() > 0 {
        let s1 = s.drop_last();
        let c = s.last();
        assert(s == s1.push(c));
        lemma_collapsed_segments(s1);
        lemma_segments_push(s1, c);
        if s1.len() > 0 {
            assert(s1.last() == s[s.len() - 2]);
        }
        if !(c == SEPARATOR && s.len() >= 2 && s[s.len() - 2] == SEPARATOR) {
            lemma_segments_push(collapsed(s1), c);
        }
    }
}

/// The index ranges held in `b`, as mathematical integers.
pub open spec fn as_ranges(b: Seq<(usize, usize)>) -> Seq<(int, int)> {
    Seq::new(b.len(), |k: int| (b[k].0 as int, b[k].1 as int))
}

/// The characters of `s`, in order.
pub fn chars_of(s: &str) -> (chars: Vec<char>)
    ensures
        chars@ == s@,
{
    let mut chars: Vec<char> = Vec::new();
    for c in it: s.chars()
        invariant
            chars@ == s@.take(it.index() as int),
            it.seq() == s@,
    {
        chars.push(c);
    }
    chars
}

/// Finds the segments of `chars` in one pass from left to right.
pub fn scan_bounds(chars: &Vec<char>) -> (bounds: Vec<(usize, usize)>)
    ensures
        as_ranges(bounds@) == bounds_of(chars@),
{
    let mut bounds: Vec<(usize, usize)> = Vec::new();
    let mut start: usize = 0;
    let mut open = false;
    let mut i: usize = 0;
    while i < chars.len()
        invariant
            i <= chars.len(),
            open == (i > 0 && chars@[i - 1] != SEPARATOR),
            open ==> start < i,
            bounds_of(chars@.take(i as int)) == if open {
                as_ranges(bounds@).push((start as int, i as int))
            } else {
                as_ranges(bounds@)
            },
        decreases chars.len() - i,
    {
        let ghost seen = chars@.take(i as int);
        let ghost closed = as_ranges(bounds@);
        proof {
            assert(chars@.take(i + 1).drop_last() == seen);
            if i > 0 {
                assert(seen.last() == chars@[i - 1]);
            }
        }
        if chars[i] == SEPARATOR {
            if open {
                bounds.push((start, i));
                open = false;
                assert(as_ranges(bounds@) == closed.push((start as int, i as int)));
            }
        } else {
            if open {
                assert(closed.push((start as int, i as int)).drop_last() == closed);
            } else {
                start = i;
                open = true;
            }
        }
        i += 1;
    }
    assert(chars@.take(i as int) == chars@);
    if open {
        let ghost closed = as_ranges(bounds@);
        bounds.push((start, i));
        assert(as_ranges(bounds@) == closed.push((start as int, i as int)));
    }
    bounds
}

/// The texts of the string slices in `v`.
pub open spec fn texts(v: Seq<&str>) -> Seq<Seq<char>> {
    Seq::new(v.len(), |k: int| v[k]@)
}

/// A borrowed path together with the number of its segments, counted once
/// when the value is made.
pub struct URI<'a> {
    path: &'a str,
    segment_count: usize,
}

impl<'a> View for URI<'a> {
    type V = Seq<char>;

    closed spec fn view(&self) -> Seq<char> {
        self.path@
    }
}

impl<'a> URI<'a> {
    #[verifier::type_invariant]
    spec fn counted(self) -> bool {
        self.segment_count == segments_of(self.path@).len()
    }

    /// Borrows `path` and counts its segments.
    pub fn new(path: &'a str) -> (uri: URI<'a>)
        ensures
            uri@ == path@,
    {
        let chars = chars_of(path);
        let bounds = scan_bounds(&chars);
        URI { path, segment_count: bounds.len() }
    }

    /// The number of segments, as counted at construction.
    pub fn segment_count(&self) -> (n: usize)
        ensures
            n == segments_of(self@).len(),
    {
        proof {
            use_type_invariant(self);
        }
        self.segment_count
    }

    /// A fresh walk over the segments, starting at the first one.
    pub fn segments(&self) -> (segments: Segments<'a>)
        ensures
            segments@ == segments_of(self@),
    {
        Segments::new(self.path)
    }

    /// The path as it was given.
    pub fn as_str(&self) -> (s: &'a str)
        ensures
            s@ == self@,
    {
        self.path
    }
}

/// A walk over the segments of a path, from the first to the last.
pub struct Segments<'a> {
    path: &'a str,
    bounds: Vec<(usize, usize)>,
    next: usize,
}

impl<'a> View for Segments<'a> {
    type V = Seq<Seq<char>>;

    /// The segments that the walk has not handed out yet.
    closed spec fn view(&self) -> Seq<Seq<char>> {
        segments_of(self.path@).skip(self.next as int)
    }
}

impl<'a> Segments<'a> {
    #[verifier::type_invariant]
    spec fn parsed(self) -> bool {
        &&& as_ranges(self.bounds@) == bounds_of(self.path@)
        &&& self.next <= self.bounds.len()
    }

    /// Starts a walk over the segments of `path`.
    pub fn new(path: &'a str) -> (segments: Segments<'a>)
        ensures
            segments@ == segments_of(path@),
    {
        let chars = chars_of(path);
        let bounds = scan_bounds(&chars);
        Segments { path, bounds, next: 0 }
    }

    /// Hands out the next segment, or `None` once all have been handed out.
    pub fn next(&mut self) -> (segment: Option<&'a str>)
        ensures
            old(self)@.len() == 0 ==> segment is None && final(self)@ == old(self)@,
            old(self)@.len() > 0 ==> segment is Some && segment->0@ == old(self)@[0],
            old(self)@.len() > 0 ==> final(self)@ == old(self)@.drop_first(),
    {
        proof {
            use_type_invariant(&*self);
            lemma_bounds_ordered(self.path@);
        }
        if self.next < self.bounds.len() {
            let (from, to) = self.bounds[self.next];
            assert(as_ranges(self.bounds@)[self.next as int] == (from as int, to as int));
            let segment = self.path.substring_char(from, to);
            self.next = self.next + 1;
            assert(final(self)@ == old(self)@.drop_first());
            Some(segment)
        } else {
            None
        }
    }

    /// All segments that the walk has not handed out yet, in order.
    pub fn to_vec(self) -> (rest: Vec<&'a str>)
        ensures
            texts(rest@) == self@,
    {
        proof {
            use_type_invariant(&self);
            lemma_bounds_ordered(self.path@);
        }
        let mut rest: Vec<&'a str> = Vec::new();
        let mut k = self.next;
        while k < self.bounds.len()
            invariant
                self.next <= k <= self.bounds.len(),
                as_ranges(self.bounds@) == bounds_of(self.path@),
                ordered_ranges(bounds_of(self.path@), self.path@.len() as int),
                texts(rest@) == segments_of(self.path@).subrange(self.next as int, k as int),
            decreases self.bounds.len() - k,
        {
            let (from, to) = self.bounds[k];
            assert(as_ranges(self.bounds@)[k as int] == (from as int, to as int));
            let segment = self.path.substring_char(from, to);
            let ghost before = texts(rest@);
            rest.push(segment);
            assert(texts(rest@) == before.push(segment@));
            k = k + 1;
        }
        rest
    }
}

/// An owned path, parsed once: its characters and the ranges of its segments
/// are kept beside the text.
pub struct URIBuf {
    path: String,
    chars: Vec<char>,
    bounds: Vec<(usize, usize)>,
}

impl View for URIBuf {
    type V = Seq<char>;

    closed spec fn view(&self) -> Seq<char> {
        self.path@
    }
}

impl URIBuf {
    #[verifier::type_invariant]
    spec fn parsed(self) -> bool {
        &&& self.chars@ == self.path@
        &&& as_ranges(self.bounds@) == bounds_of(self.path@)
    }

    /// The number of segments.
    pub fn segment_count(&self) -> (n: usize)
        ensures
            n == segments_of(self@).len(),
    {
        proof {
            use_type_invariant(self);
        }
        self.bounds.len()
    }

    /// A fresh walk over the segments, starting at the first one.
    pub fn segments<'a>(&'a self) -> (segments: Segments<'a>)
        ensures
            segments@ == segments_of(self@),
    {
        Segments::new(self.path.as_str())
    }

    /// A borrowed view of this path whose segments are counted anew.
    pub fn as_uri_uncached<'a>(&'a self) -> (uri: URI<'a>)
        ensures
            uri@ == self@,
    {
        URI::new(self.path.as_str())
    }

    /// A borrowed view of this path that takes over the segment count.
    pub fn as_uri<'a>(&'a self) -> (uri: URI<'a>)
        ensures
            uri@ == self@,
    {
        proof {
            use_type_invariant(self);
        }
        URI { path: self.path.as_str(), segment_count: self.bounds.len() }
    }

    /// The path as it was given.
    pub fn as_str<'a>(&'a self) -> (s: &'a str)
        ensures
            s@ == self@,
    {
        self.path.as_str()
    }

    /// A copy of the path's text.
    pub fn to_string(&self) -> (s: String)
        ensures
            s@ == self@,
    {
        self.path.clone()
    }

    /// The characters of the path.
    pub fn chars(&self) -> (chars: &Vec<char>)
        ensures
            chars@ == self@,
    {
        proof {
            use_type_invariant(self);
        }
        &self.chars
    }

    /// The index ranges of the segments within `chars()`.
    pub fn bounds(&self) -> (bounds: &Vec<(usize, usize)>)
        ensures
            as_ranges(bounds@) == bounds_of(self@),
    {
        proof {
            use_type_invariant(self);
        }
        &self.bounds
    }
}

impl From<String> for URIBuf {
    /// Takes `path` over and parses it.
    fn from(path: String) -> (uri: URIBuf)
        ensures
            uri@ == path@,
    {
        let chars = chars_of(path.as_str());
        let bounds = scan_bounds(&chars);
        URIBuf { path, chars, bounds }
    }
}

/// What `from` gives is stated by `from` itself, through the view of the
/// path; no value is named for it here.
impl vstd::std_specs::convert::FromSpecImpl<String> for URIBuf {
    open spec fn obeys_from_spec() -> bool {
        false
    }

    open spec fn from_spec(path: String) -> URIBuf {
        arbitrary()
    }
}

/// What `from` gives is stated by `from` itself, through the view of the
/// path; no value is named for it here.
impl<'a> vstd::std_specs::convert::FromSpecImpl<&'a str> for URIBuf {
    open spec fn obeys_from_spec() -> bool {
        false
    }

    open spec fn from_spec(path: &'a str) -> URIBuf {
        arbitrary()
    }
}

impl<'a> From<&'a str> for URIBuf {
    /// Copies `path` and parses it.
    fn from(path: &'a str) -> (uri: URIBuf)
        ensures
            uri@ == path@,
    {
        let chars = chars_of(path);
        let bounds = scan_bounds(&chars);
        URIBuf { path: String::from_str(path), chars, bounds }
    }
}

impl Clone for URIBuf {
    fn clone(&self) -> (uri: URIBuf)
        ensures
            uri@ == self@,
    {
        URIBuf::from(self.path.clone())
    }
}

} // verus!
