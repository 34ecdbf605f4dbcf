//! Static collision detection between path templates.
//!
//! Two templates collide when some concrete path could match both. A template
//! may hold a dynamic span `<name>` anywhere inside a segment, so two segments
//! are compared character by character: from the left up to the first opening
//! marker, and from the right up to the first closing marker. A pair of
//! segments can collide when neither scan meets two different characters before
//! it stops.

use crate::router::uri::{as_ranges, bounds_of, chars_of, lemma_bounds_ordered, scan_bounds, segments_of, ordered_ranges, URIBuf, URI};
use vstd::prelude::*;

verus! {

/// The character that opens a dynamic span.
pub const DYNAMIC_OPEN: char = '<';

/// The character that closes a dynamic span.
pub const DYNAMIC_CLOSE: char = '>';

/// The scan of `a` and `b` in step from index `k` on. It stops at the first
/// index where either string ends or holds `stop`, and gives that index; it
/// gives `None` when it meets two different characters before that.
pub open spec fn scan_from(stop: char, a: Seq<char>, b: Seq<char>, k: int) -> Option<int>
    decreases a.len() - k,
{
    if k < 0 || k >= a.len() || k >= b.len() || a[k] == stop || b[k] == stop {
        Some(k)
    } else if a[k] != b[k] {
        None
    } else {
        scan_from(stop, a, b, k + 1)
    }
}

/// The scan of `a` and `b` from their first characters on.
pub open spec fn scan(stop: char, a: Seq<char>, b: Seq<char>) -> Option<int> {
    scan_from(stop, a, b, 0)
}

/// Whether two segments can collide: the scan from the left up to an opening
/// marker and the scan from the right up to a closing marker both stop without
/// a mismatch.
pub open spec fn segments_collide(a: Seq<char>, b: Seq<char>) -> bool {
    &&& scan(DYNAMIC_OPEN, a, b) is Some
    &&& scan(DYNAMIC_CLOSE, a.reverse(), b.reverse()) is Some
}

/// Whether two paths collide: they have the same number of segments, and each
/// pair of segments in the same position can collide.
pub open spec fn paths_collide(p: Seq<char>, q: Seq<char>) -> bool {
    &&& segments_of(p).len() == segments_of(q).len()
    &&& forall|k: int|
        0 <= k < segments_of(p).len() ==> segments_collide(
            #[trigger] segments_of(p)[k],
            segments_of(q)[k],
        )
}

/// Scans `a[a_lo..a_hi]` and `b[b_lo..b_hi]` in step from the left.
pub fn scan_left(
    stop: char,
    a: &Vec<char>,
    a_lo: usize,
    a_hi: usize,
    b: &Vec<char>,
    b_lo: usize,
    b_hi: usize,
) -> (stopped: Option<usize>)
    requires
        a_lo <= a_hi <= a.len(),
        b_lo <= b_hi <= b.len(),
    ensures
        match stopped {
            Some(k) => scan(
                stop,
                a@.subrange(a_lo as int, a_hi as int),
                b@.subrange(b_lo as int, b_hi as int),
            ) == Some(k as int),
            None => scan(
                stop,
                a@.subrange(a_lo as int, a_hi as int),
                b@.subrange(b_lo as int, b_hi as int),
            ) is None,
        },
{
    let ghost sa = a@.subrange(a_lo as int, a_hi as int);
    let ghost sb = b@.subrange(b_lo as int, b_hi as int);
    let mut k: usize = 0;
    while k < a_hi - a_lo && k < b_hi - b_lo
        invariant
            a_lo <= a_hi <= a.len(),
            b_lo <= b_hi <= b.len(),
            sa == a@.subrange(a_lo as int, a_hi as int),
            sb == b@.subrange(b_lo as int, b_hi as int),
            k <= a_hi - a_lo,
            k <= b_hi - b_lo,
            scan_from(stop, sa, sb, k as int) == scan(stop, sa, sb),
        decreases a_hi - a_lo - k,
    {
        let c1 = a[a_lo + k];
        let c2 = b[b_lo + k];
        assert(sa[k as int] == c1 && sb[k as int] == c2);
        if c1 == stop || c2 == stop {
            return Some(k);
        } else if c1 != c2 {
            return None;
        }
        k = k + 1;
    }
    Some(k)
}

/// Scans `a[a_lo..a_hi]` and `b[b_lo..b_hi]` in step from the right. The
/// result counts the characters passed, as the scan of the reversed ranges
/// does.
pub fn scan_right(
    stop: char,
    a: &Vec<char>,
    a_lo: usize,
    a_hi: usize,
    b: &Vec<char>,
    b_lo: usize,
    b_hi: usize,
) -> (stopped: Option<usize>)
    requires
        a_lo <= a_hi <= a.len(),
        b_lo <= b_hi <= b.len(),
    ensures
        match stopped {
            Some(k) => scan(
                stop,
                a@.subrange(a_lo as int, a_hi as int).reverse(),
                b@.subrange(b_lo as int, b_hi as int).reverse(),
            ) == Some(k as int),
            None => scan(
                stop,
                a@.subrange(a_lo as int, a_hi as int).reverse(),
                b@.subrange(b_lo as int, b_hi as int).reverse(),
            ) is None,
        },
{
    let ghost ra = a@.subrange(a_lo as int, a_hi as int).reverse();
    let ghost rb = b@.subrange(b_lo as int, b_hi as int).reverse();
    let mut k: usize = 0;
    while k < a_hi - a_lo && k < b_hi - b_lo
        invariant
            a_lo <= a_hi <= a.len(),
            b_lo <= b_hi <= b.len(),
            ra == a@.subrange(a_lo as int, a_hi as int).reverse(),
            rb == b@.subrange(b_lo as int, b_hi as int).reverse(),
            k <= a_hi - a_lo,
            k <= b_hi - b_lo,
            scan_from(stop, ra, rb, k as int) == scan(stop, ra, rb),
        decreases a_hi - a_lo - k,
    {
        let c1 = a[a_hi - 1 - k];
        let c2 = b[b_hi - 1 - k];
        assert(ra[k as int] == c1 && rb[k as int] == c2);
        if c1 == stop || c2 == stop {
            return Some(k);
        } else if c1 != c2 {
            return None;
        }
        k = k + 1;
    }
    Some(k)
}

/// Whether the segments `a[a_lo..a_hi]` and `b[b_lo..b_hi]` can collide.
pub fn ranges_collide(
    a: &Vec<char>,
    a_lo: usize,
    a_hi: usize,
    b: &Vec<char>,
    b_lo: usize,
    b_hi: usize,
) -> (collide: bool)
    requires
        a_lo <= a_hi <= a.len(),
        b_lo <= b_hi <= b.len(),
    ensures
        collide == segments_collide(
            a@.subrange(a_lo as int, a_hi as int),
            b@.subrange(b_lo as int, b_hi as int),
        ),
{
    scan_left(DYNAMIC_OPEN, a, a_lo, a_hi, b, b_lo, b_hi).is_some() && scan_right(
        DYNAMIC_CLOSE,
        a,
        a_lo,
        a_hi,
        b,
        b_lo,
        b_hi,
    ).is_some()
}

/// Scans `a` and `b` in step until either holds `break_c` or ends, from the
/// left when `dir` is true and from the right when it is false, and gives the
/// two cursors where the scan stopped; `None` when it met two different
/// characters first. Cursors count characters; a scan from the right that
/// passed a whole string leaves its cursor at -1.
pub fn index_match_until(break_c: char, a: &str, b: &str, dir: bool) -> (stopped: Option<
    (isize, isize),
>)
    requires
        a@.len() <= isize::MAX,
        b@.len() <= isize::MAX,
    ensures
        dir ==> stopped == match scan(break_c, a@, b@) {
            Some(k) => Some((k as isize, k as isize)),
            None => None::<(isize, isize)>,
        },
        !dir ==> stopped == match scan(break_c, a@.reverse(), b@.reverse()) {
            Some(k) => Some(((a@.len() - 1 - k) as isize, (b@.len() - 1 - k) as isize)),
            None => None::<(isize, isize)>,
        },
{
    let a_chars = chars_of(a);
    let b_chars = chars_of(b);
    let a_len = a_chars.len();
    let b_len = b_chars.len();
    assert(a_chars@.subrange(0, a_len as int) == a@);
    assert(b_chars@.subrange(0, b_len as int) == b@);
    if dir {
        match scan_left(break_c, &a_chars, 0, a_len, &b_chars, 0, b_len) {
            Some(k) => {
                proof {
                    lemma_scan_bounded(break_c, a@, b@, 0);
                }
                Some((k as isize, k as isize))
            },
            None => None,
        }
    } else {
        match scan_right(break_c, &a_chars, 0, a_len, &b_chars, 0, b_len) {
            Some(k) => {
                proof {
                    lemma_scan_bounded(break_c, a@.reverse(), b@.reverse(), 0);
                }
                Some((a_len as isize - 1 - k as isize, b_len as isize - 1 - k as isize))
            },
            None => None,
        }
    }
}

/// A scan that starts inside both strings stops inside both, or at the end of
/// one of them.
pub proof fn lemma_scan_bounded(stop: char, a: Seq<char>, b: Seq<char>, k: int)
    requires
        0 <= k <= a.len(),
        k <= b.len(),
    ensures
        scan_from(stop, a, b, k) matches Some(n) ==> k <= n <= a.len() && n <= b.len(),
    decreases a.len() - k,
{
    if k < a.len() && k < b.len() && a[k] != stop && b[k] != stop && a[k] == b[k] {
        lemma_scan_bounded(stop, a, b, k + 1);
    }
}

/// Whether the scan of `a` and `b` up to `break_c` stops without a mismatch,
/// from the left when `dir` is true and from the right when it is false.
pub fn do_match_until(break_c: char, a: &str, b: &str, dir: bool) -> (matched: bool)
    ensures
        dir ==> matched == (scan(break_c, a@, b@) is Some),
        !dir ==> matched == (scan(break_c, a@.reverse(), b@.reverse()) is Some),
{
    let a_chars = chars_of(a);
    let b_chars = chars_of(b);
    let a_len = a_chars.len();
    let b_len = b_chars.len();
    assert(a_chars@.subrange(0, a_len as int) == a@);
    assert(b_chars@.subrange(0, b_len as int) == b@);
    if dir {
        scan_left(break_c, &a_chars, 0, a_len, &b_chars, 0, b_len).is_some()
    } else {
        scan_right(break_c, &a_chars, 0, a_len, &b_chars, 0, b_len).is_some()
    }
}

/// Whether two parsed paths collide.
pub fn parsed_collide(
    a: &Vec<char>,
    a_bounds: &Vec<(usize, usize)>,
    b: &Vec<char>,
    b_bounds: &Vec<(usize, usize)>,
) -> (collide: bool)
    requires
        as_ranges(a_bounds@) == bounds_of(a@),
        as_ranges(b_bounds@) == bounds_of(b@),
    ensures
        collide == paths_collide(a@, b@),
{
    if a_bounds.len() != b_bounds.len() {
        return false;
    }
    proof {
        lemma_bounds_ordered(a@);
        lemma_bounds_ordered(b@);
    }
    let mut k: usize = 0;
    while k < a_bounds.len()
        invariant
            k <= a_bounds.len() == b_bounds.len(),
            as_ranges(a_bounds@) == bounds_of(a@),
            as_ranges(b_bounds@) == bounds_of(b@),
            ordered_ranges(bounds_of(a@), a@.len() as int),
            ordered_ranges(bounds_of(b@), b@.len() as int),
            forall|j: int|
                0 <= j < k ==> segments_collide(#[trigger] segments_of(a@)[j], segments_of(b@)[j]),
        decreases a_bounds.len() - k,
    {
        let (a_lo, a_hi) = a_bounds[k];
        let (b_lo, b_hi) = b_bounds[k];
        assert(as_ranges(a_bounds@)[k as int] == (a_lo as int, a_hi as int));
        assert(as_ranges(b_bounds@)[k as int] == (b_lo as int, b_hi as int));
        if !ranges_collide(a, a_lo, a_hi, b, b_lo, b_hi) {
            assert(!segments_collide(segments_of(a@)[k as int], segments_of(b@)[k as int]));
            return false;
        }
        k = k + 1;
    }
    true
}

/// The scan does not depend on the order of the two strings.
pub proof fn lemma_scan_symmetric(stop: char, a: Seq<char>, b: Seq<char>, k: int)
    ensures
        scan_from(stop, a, b, k) == scan_from(stop, b, a, k),
    decreases a.len() - k,
{
    if !(k < 0 || k >= a.len() || k >= b.len() || a[k] == stop || b[k] == stop) && a[k] == b[k] {
        lemma_scan_symmetric(stop, a, b, k + 1);
    }
}

/// A string scanned against itself never shows a mismatch.
pub proof fn lemma_scan_same(stop: char, a: Seq<char>, k: int)
    ensures
        scan_from(stop, a, a, k) is Some,
    decreases a.len() - k,
{
    if !(k < 0 || k >= a.len() || a[k] == stop) {
        lemma_scan_same(stop, a, k + 1);
    }
}

/// Whether two segments can collide does not depend on their order.
pub proof fn lemma_segments_collide_symmetric(a: Seq<char>, b: Seq<char>)
    ensures
        segments_collide(a, b) == segments_collide(b, a),
{
    lemma_scan_symmetric(DYNAMIC_OPEN, a, b, 0);
    lemma_scan_symmetric(DYNAMIC_CLOSE, a.reverse(), b.reverse(), 0);
}

/// Every segment can collide with itself.
pub proof fn lemma_segment_collides_with_itself(a: Seq<char>)
    ensures
        segments_collide(a, a),
{
    lemma_scan_same(DYNAMIC_OPEN, a, 0);
    lemma_scan_same(DYNAMIC_CLOSE, a.reverse(), 0);
}

/// Whether two paths collide does not depend on their order.
pub proof fn lemma_paths_collide_symmetric(p: Seq<char>, q: Seq<char>)
    ensures
        paths_collide(p, q) == paths_collide(q, p),
{
    assert forall|k: int| 0 <= k < segments_of(p).len() && k < segments_of(q).len() implies (
    #[trigger] segments_collide(segments_of(p)[k], segments_of(q)[k])) == segments_collide(
        segments_of(q)[k],
        segments_of(p)[k],
    ) by {
        lemma_segments_collide_symmetric(segments_of(p)[k], segments_of(q)[k]);
    }
    if paths_collide(p, q) {
        assert forall|k: int| 0 <= k < segments_of(q).len() implies segments_collide(
            #[trigger] segments_of(q)[k],
            segments_of(p)[k],
        ) by {
            assert(segments_collide(segments_of(p)[k], segments_of(q)[k]));
        }
    }
    if paths_collide(q, p) {
        assert forall|k: int| 0 <= k < segments_of(p).len() implies segments_collide(
            #[trigger] segments_of(p)[k],
            segments_of(q)[k],
        ) by {
            assert(segments_collide(segments_of(q)[k], segments_of(p)[k]));
        }
    }
}

/// Two paths without segments collide.
pub proof fn lemma_empty_paths_collide(p: Seq<char>, q: Seq<char>)
    requires
        segments_of(p).len() == 0,
        segments_of(q).len() == 0,
    ensures
        paths_collide(p, q),
{
}

/// Something that can be tested for a collision with a `T`.
pub trait Collider<T: ?Sized = Self> {
    /// Whether `self` and `other` collide.
    spec fn collides(&self, other: &T) -> bool;

    /// Decides whether `self` and `other` collide.
    fn collides_with(&self, other: &T) -> (collide: bool)
        ensures
            collide == self.collides(other),
    ;
}

/// Two strings are compared as two segments.
impl<'a> Collider<str> for &'a str {
    open spec fn collides(&self, other: &str) -> bool {
        segments_collide(self@, other@)
    }

    fn collides_with(&self, other: &str) -> (collide: bool) {
        do_match_until(DYNAMIC_OPEN, self, other, true) && do_match_until(
            DYNAMIC_CLOSE,
            self,
            other,
            false,
        )
    }
}

impl<'a> Collider for URI<'a> {
    open spec fn collides(&self, other: &URI<'a>) -> bool {
        paths_collide(self@, other@)
    }

    fn collides_with(&self, other: &URI<'a>) -> (collide: bool) {
        let a = chars_of(self.as_str());
        let b = chars_of(other.as_str());
        let a_bounds = scan_bounds(&a);
        let b_bounds = scan_bounds(&b);
        parsed_collide(&a, &a_bounds, &b, &b_bounds)
    }
}

impl Collider for URIBuf {
    open spec fn collides(&self, other: &URIBuf) -> bool {
        paths_collide(self@, other@)
    }

    fn collides_with(&self, other: &URIBuf) -> (collide: bool) {
        parsed_collide(self.chars(), self.bounds(), other.chars(), other.bounds())
    }
}

impl<'a> Collider<URI<'a>> for URIBuf {
    open spec fn collides(&self, other: &URI<'a>) -> bool {
        paths_collide(self@, other@)
    }

    fn collides_with(&self, other: &URI<'a>) -> (collide: bool) {
        let b = chars_of(other.as_str());
        let b_bounds = scan_bounds(&b);
        parsed_collide(self.chars(), self.bounds(), &b, &b_bounds)
    }
}

impl<'a> Collider<URIBuf> for URI<'a> {
    open spec fn collides(&self, other: &URIBuf) -> bool {
        paths_collide(other@, self@)
    }

    fn collides_with(&self, other: &URIBuf) -> (collide: bool) {
        other.collides_with(self)
    }
}

} // verus!
