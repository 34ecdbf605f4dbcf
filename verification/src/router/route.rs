//! Routes: a method, a path template, a rank and a handler.
//!
//! A template segment of the form `<name>` is dynamic and stands for any
//! concrete segment; every other segment is static and stands for itself.

use crate::method::Method;
use crate::router::collider::{
    lemma_segment_collides_with_itself, lemma_segments_collide_symmetric, parsed_collide,
    paths_collide, scan, segments_collide, Collider, DYNAMIC_CLOSE, DYNAMIC_OPEN,
};
use crate::router::uri::{
    as_ranges, bounds_of, chars_of, collapsed, lemma_bounds_ordered, ordered_ranges, scan_bounds,
    segments_of, texts, URIBuf, SEPARATOR,
};
use vstd::prelude::*;

verus! {

broadcast use vstd::string::group_string_axioms;

/// Whether a template segment is dynamic: it opens with `<` and closes with
/// `>`.
pub open spec fn is_dynamic(segment: Seq<char>) -> bool {
    segment.len() > 0 && segment.first() == '<' && segment.last() == '>'
}

/// Whether a template segment accepts a concrete segment: a dynamic one accepts
/// any, a static one only its own text.
pub open spec fn segment_matches(template: Seq<char>, concrete: Seq<char>) -> bool {
    is_dynamic(template) || template == concrete
}

/// Whether a template accepts a concrete path: both have the same number of
/// segments, and every template segment accepts the concrete segment in its
/// position.
pub open spec fn path_matches(template: Seq<char>, concrete: Seq<char>) -> bool {
    &&& segments_of(template).len() == segments_of(concrete).len()
    &&& forall|k: int|
        0 <= k < segments_of(template).len() ==> segment_matches(
            #[trigger] segments_of(template)[k],
            segments_of(concrete)[k],
        )
}

/// The concrete segments that stand in the positions below `n` in which the
/// template is dynamic, in order.
pub open spec fn params_below(template: Seq<Seq<char>>, concrete: Seq<Seq<char>>, n: int) -> Seq<
    Seq<char>,
>
    decreases n,
{
    if n <= 0 {
        Seq::empty()
    } else if is_dynamic(template[n - 1]) {
        params_below(template, concrete, n - 1).push(concrete[n - 1])
    } else {
        params_below(template, concrete, n - 1)
    }
}

/// The values that a concrete path gives to the dynamic segments of a
/// template, in order. Positions that only one of the two paths has give
/// nothing.
pub open spec fn params_of(template: Seq<char>, concrete: Seq<char>) -> Seq<Seq<char>> {
    let t = segments_of(template);
    let c = segments_of(concrete);
    params_below(
        t,
        c,
        if t.len() <= c.len() {
            t.len() as int
        } else {
            c.len() as int
        },
    )
}

/// `String::push` of the standard library: puts `c` at the end of `s`.
#[verifier::external_body]
fn push_char(s: &mut String, c: char)
    ensures
        final(s)@ == old(s)@.push(c),
{
    s.push(c)
}

/// Joins a mount point and a route's path with a separator and takes out every
/// separator that directly follows another one.
pub fn dedup(base: &str, route: &str) -> (path: String)
    ensures
        path@ == collapsed(base@ + seq![SEPARATOR] + route@),
{
    let mut joined = chars_of(base);
    joined.push(SEPARATOR);
    let mut tail = chars_of(route);
    joined.append(&mut tail);
    assert(joined@ == base@ + seq![SEPARATOR] + route@);
    let mut path = String::new();
    let mut i: usize = 0;
    while i < joined.len()
        invariant
            i <= joined.len(),
            path@ == collapsed(joined@.take(i as int)),
        decreases joined.len() - i,
    {
        let c = joined[i];
        assert(joined@.take(i + 1).drop_last() == joined@.take(i as int));
        if !(c == SEPARATOR && i > 0 && joined[i - 1] == SEPARATOR) {
            push_char(&mut path, c);
        }
        i = i + 1;
    }
    assert(joined@.take(i as int) == joined@);
    path
}

/// Whether `a[a_lo..a_hi]` and `b[b_lo..b_hi]` hold the same characters.
pub fn ranges_equal(
    a: &Vec<char>,
    a_lo: usize,
    a_hi: usize,
    b: &Vec<char>,
    b_lo: usize,
    b_hi: usize,
) -> (equal: bool)
    requires
        a_lo <= a_hi <= a.len(),
        b_lo <= b_hi <= b.len(),
    ensures
        equal == (a@.subrange(a_lo as int, a_hi as int) == b@.subrange(b_lo as int, b_hi as int)),
{
    let ghost sa = a@.subrange(a_lo as int, a_hi as int);
    let ghost sb = b@.subrange(b_lo as int, b_hi as int);
    if a_hi - a_lo != b_hi - b_lo {
        assert(sa.len() != sb.len());
        return false;
    }
    let mut k: usize = 0;
    while k < a_hi - a_lo
        invariant
            a_lo <= a_hi <= a.len(),
            b_lo <= b_hi <= b.len(),
            a_hi - a_lo == b_hi - b_lo,
            k <= a_hi - a_lo,
            sa == a@.subrange(a_lo as int, a_hi as int),
            sb == b@.subrange(b_lo as int, b_hi as int),
            forall|j: int| 0 <= j < k ==> sa[j] == sb[j],
        decreases a_hi - a_lo - k,
    {
        if a[a_lo + k] != b[b_lo + k] {
            assert(sa[k as int] != sb[k as int]);
            return false;
        }
        k = k + 1;
    }
    assert(sa =~= sb);
    true
}

/// Whether the template segment `a[lo..hi]` is dynamic.
pub fn range_is_dynamic(a: &Vec<char>, lo: usize, hi: usize) -> (dynamic: bool)
    requires
        lo <= hi <= a.len(),
    ensures
        dynamic == is_dynamic(a@.subrange(lo as int, hi as int)),
{
    lo < hi && a[lo] == '<' && a[hi - 1] == '>'
}

/// Whether a parsed template accepts a parsed concrete path.
pub fn parsed_match(
    template: &Vec<char>,
    template_bounds: &Vec<(usize, usize)>,
    concrete: &Vec<char>,
    concrete_bounds: &Vec<(usize, usize)>,
) -> (matched: bool)
    requires
        as_ranges(template_bounds@) == bounds_of(template@),
        as_ranges(concrete_bounds@) == bounds_of(concrete@),
    ensures
        matched == path_matches(template@, concrete@),
{
    if template_bounds.len() != concrete_bounds.len() {
        return false;
    }
    proof {
        lemma_bounds_ordered(template@);
        lemma_bounds_ordered(concrete@);
    }
    let mut k: usize = 0;
    while k < template_bounds.len()
        invariant
            k <= template_bounds.len() == concrete_bounds.len(),
            as_ranges(template_bounds@) == bounds_of(template@),
            as_ranges(concrete_bounds@) == bounds_of(concrete@),
            ordered_ranges(bounds_of(template@), template@.len() as int),
            ordered_ranges(bounds_of(concrete@), concrete@.len() as int),
            forall|j: int|
                0 <= j < k ==> segment_matches(
                    #[trigger] segments_of(template@)[j],
                    segments_of(concrete@)[j],
                ),
        decreases template_bounds.len() - k,
    {
        let (t_lo, t_hi) = template_bounds[k];
        let (c_lo, c_hi) = concrete_bounds[k];
        assert(as_ranges(template_bounds@)[k as int] == (t_lo as int, t_hi as int));
        assert(as_ranges(concrete_bounds@)[k as int] == (c_lo as int, c_hi as int));
        if !range_is_dynamic(template, t_lo, t_hi) && !ranges_equal(
            template,
            t_lo,
            t_hi,
            concrete,
            c_lo,
            c_hi,
        ) {
            assert(!segment_matches(
                segments_of(template@)[k as int],
                segments_of(concrete@)[k as int],
            ));
            return false;
        }
        k = k + 1;
    }
    true
}

/// A route: requests with its method whose path its template accepts are
/// handed to its handler, in the order of the ranks of the routes that accept
/// them.
pub struct Route<H> {
    pub method: Method,
    pub path: URIBuf,
    pub rank: isize,
    pub handler: H,
}

impl<H> Route<H> {
    /// A route of rank 0.
    pub fn new(method: Method, path: String, handler: H) -> (route: Route<H>)
        ensures
            route.method == method,
            route.path@ == path@,
            route.rank == 0,
            route.handler == handler,
    {
        Route { method, path: URIBuf::from(path), rank: 0, handler }
    }

    /// A route of the given rank.
    pub fn ranked(rank: isize, method: Method, path: String, handler: H) -> (route: Route<H>)
        ensures
            route.method == method,
            route.path@ == path@,
            route.rank == rank,
            route.handler == handler,
    {
        Route { method, path: URIBuf::from(path), rank, handler }
    }

    /// Gives the route another path.
    pub fn set_path(&mut self, path: String)
        ensures
            final(self).path@ == path@,
            final(self).method == old(self).method,
            final(self).rank == old(self).rank,
            final(self).handler == old(self).handler,
    {
        self.path = URIBuf::from(path);
    }

    /// The number of segments of the route's path.
    pub fn component_count(&self) -> (n: usize)
        ensures
            n == segments_of(self.path@).len(),
    {
        self.path.segment_count()
    }

    /// Whether the route stands for requests with `method` and the path `uri`.
    pub open spec fn accepts(&self, method: Method, uri: Seq<char>) -> bool {
        self.method == method && path_matches(self.path@, uri)
    }

    /// Decides whether the route stands for requests with `method` and the path
    /// `uri`.
    pub fn matches(&self, method: Method, uri: &str) -> (matched: bool)
        ensures
            matched == self.accepts(method, uri@),
    {
        if self.method != method {
            return false;
        }
        let chars = chars_of(uri);
        let bounds = scan_bounds(&chars);
        parsed_match(self.path.chars(), self.path.bounds(), &chars, &bounds)
    }

    /// The segments of `uri` that stand where the route's path is dynamic, in
    /// order.
    pub fn get_params<'a>(&self, uri: &'a str) -> (params: Vec<&'a str>)
        ensures
            texts(params@) == params_of(self.path@, uri@),
    {
        let template = self.path.chars();
        let template_bounds = self.path.bounds();
        let chars = chars_of(uri);
        let bounds = scan_bounds(&chars);
        proof {
            lemma_bounds_ordered(self.path@);
            lemma_bounds_ordered(uri@);
        }
        let n = if template_bounds.len() <= bounds.len() {
            template_bounds.len()
        } else {
            bounds.len()
        };
        let mut params: Vec<&'a str> = Vec::new();
        let mut k: usize = 0;
        while k < n
            invariant
                k <= n,
                n <= template_bounds.len(),
                n <= bounds.len(),
                template@ == self.path@,
                chars@ == uri@,
                as_ranges(template_bounds@) == bounds_of(self.path@),
                as_ranges(bounds@) == bounds_of(uri@),
                ordered_ranges(bounds_of(self.path@), self.path@.len() as int),
                ordered_ranges(bounds_of(uri@), uri@.len() as int),
                texts(params@) == params_below(
                    segments_of(self.path@),
                    segments_of(uri@),
                    k as int,
                ),
            decreases n - k,
        {
            let (t_lo, t_hi) = template_bounds[k];
            let (c_lo, c_hi) = bounds[k];
            assert(as_ranges(template_bounds@)[k as int] == (t_lo as int, t_hi as int));
            assert(as_ranges(bounds@)[k as int] == (c_lo as int, c_hi as int));
            if range_is_dynamic(template, t_lo, t_hi) {
                let value = uri.substring_char(c_lo, c_hi);
                let ghost before = texts(params@);
                params.push(value);
                assert(texts(params@) == before.push(value@));
            }
            k = k + 1;
        }
        params
    }
}

/// One segment of a template.
pub enum Segment {
    /// A segment that stands for itself: its text.
    Static(String),
    /// A segment that stands for any concrete segment: its name, which is
    /// the text between `<` and `>`.
    Dynamic(String),
}

/// Whether `segment` is the template segment with the text `text`.
pub open spec fn is_segment(text: Seq<char>, segment: Segment) -> bool {
    match segment {
        Segment::Static(t) => !is_dynamic(text) && t@ == text,
        Segment::Dynamic(name) => is_dynamic(text) && name@ == text.subrange(1, text.len() - 1),
    }
}

impl<H> Route<H> {
    /// The segments of the route's path, each told apart as static or
    /// dynamic.
    pub fn pattern(&self) -> (pattern: Vec<Segment>)
        ensures
            pattern@.len() == segments_of(self.path@).len(),
            forall|k: int|
                0 <= k < pattern@.len() ==> is_segment(
                    segments_of(self.path@)[k],
                    #[trigger] pattern@[k],
                ),
    {
        let chars = self.path.chars();
        let bounds = self.path.bounds();
        let text = self.path.as_str();
        proof {
            lemma_bounds_ordered(self.path@);
        }
        let mut pattern: Vec<Segment> = Vec::new();
        let mut k: usize = 0;
        while k < bounds.len()
            invariant
                k <= bounds.len(),
                pattern@.len() == k,
                chars@ == self.path@,
                text@ == self.path@,
                as_ranges(bounds@) == bounds_of(self.path@),
                ordered_ranges(bounds_of(self.path@), self.path@.len() as int),
                forall|j: int|
                    0 <= j < k ==> is_segment(segments_of(self.path@)[j], #[trigger] pattern@[j]),
            decreases bounds.len() - k,
        {
            let (lo, hi) = bounds[k];
            assert(as_ranges(bounds@)[k as int] == (lo as int, hi as int));
            let ghost whole = self.path@.subrange(lo as int, hi as int);
            if range_is_dynamic(chars, lo, hi) {
                let name = text.substring_char(lo + 1, hi - 1);
                assert(name@ =~= whole.subrange(1, whole.len() - 1));
                pattern.push(Segment::Dynamic(String::from_str(name)));
            } else {
                let own = text.substring_char(lo, hi);
                pattern.push(Segment::Static(String::from_str(own)));
            }
            k = k + 1;
        }
        pattern
    }
}

/// Two routes collide when they have the same method and their paths collide.
impl<H> Collider for Route<H> {
    open spec fn collides(&self, other: &Route<H>) -> bool {
        self.method == other.method && paths_collide(self.path@, other.path@)
    }

    fn collides_with(&self, other: &Route<H>) -> (collide: bool) {
        if self.method != other.method {
            return false;
        }
        self.path.collides_with(&other.path)
    }
}

/// A route and a path collide when the route's path and the path collide,
/// whatever the method.
impl<H> Collider<str> for Route<H> {
    open spec fn collides(&self, other: &str) -> bool {
        paths_collide(other@, self.path@)
    }

    fn collides_with(&self, other: &str) -> (collide: bool) {
        let chars = chars_of(other);
        let bounds = scan_bounds(&chars);
        parsed_collide(&chars, &bounds, self.path.chars(), self.path.bounds())
    }
}

/// A path and a route collide when the path and the route's path collide,
/// whatever the method.
impl<'a, H> Collider<Route<H>> for &'a str {
    open spec fn collides(&self, other: &Route<H>) -> bool {
        paths_collide(self@, other.path@)
    }

    fn collides_with(&self, other: &Route<H>) -> (collide: bool) {
        let chars = chars_of(self);
        let bounds = scan_bounds(&chars);
        parsed_collide(&chars, &bounds, other.path.chars(), other.path.bounds())
    }
}

/// A dynamic segment can collide with every segment.
pub proof fn lemma_dynamic_collides(a: Seq<char>, b: Seq<char>)
    requires
        is_dynamic(a),
    ensures
        segments_collide(a, b),
        segments_collide(b, a),
{
    assert(a.reverse()[0] == a.last());
    assert(scan(DYNAMIC_OPEN, a, b) == Some(0int));
    assert(scan(DYNAMIC_CLOSE, a.reverse(), b.reverse()) == Some(0int));
    lemma_segments_collide_symmetric(a, b);
}

/// Two template segments that accept one and the same concrete segment can
/// collide.
pub proof fn lemma_common_segment_collides(a: Seq<char>, b: Seq<char>, concrete: Seq<char>)
    requires
        segment_matches(a, concrete),
        segment_matches(b, concrete),
    ensures
        segments_collide(a, b),
{
    if is_dynamic(a) {
        lemma_dynamic_collides(a, b);
    } else if is_dynamic(b) {
        lemma_dynamic_collides(b, a);
    } else {
        lemma_segment_collides_with_itself(a);
    }
}

/// Collision detection misses nothing: two templates that accept one and the
/// same concrete path collide.
pub proof fn lemma_common_path_collides(p: Seq<char>, q: Seq<char>, concrete: Seq<char>)
    requires
        path_matches(p, concrete),
        path_matches(q, concrete),
    ensures
        paths_collide(p, q),
{
    assert forall|k: int| 0 <= k < segments_of(p).len() implies segments_collide(
        #[trigger] segments_of(p)[k],
        segments_of(q)[k],
    ) by {
        assert(segment_matches(segments_of(q)[k], segments_of(concrete)[k]));
        lemma_common_segment_collides(
            segments_of(p)[k],
            segments_of(q)[k],
            segments_of(concrete)[k],
        );
    }
}

/// Two routes that stand for one and the same request collide.
pub proof fn lemma_common_request_collides<H>(
    a: Route<H>,
    b: Route<H>,
    method: Method,
    uri: Seq<char>,
)
    requires
        a.accepts(method, uri),
        b.accepts(method, uri),
    ensures
        a.collides(&b),
{
    lemma_common_path_collides(a.path@, b.path@, uri);
}

} // verus!
