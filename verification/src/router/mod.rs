//! Paths, routes and the routing table.
//!
//! The table keeps its routes in buckets, one for each pair of a method and a
//! number of segments, and keeps the order in which the routes of a bucket were
//! added. A request is answered from one bucket alone: its candidates are the
//! routes of that bucket that accept its path, lowest rank first and, among
//! equal ranks, in the order in which they were added.

pub mod collider;
pub mod route;
pub mod template;
pub mod uri;

use crate::method::Method;
use crate::router::collider::Collider;
use crate::router::route::{parsed_match, Route};
use crate::router::uri::{as_ranges, bounds_of, chars_of, scan_bounds, segments_of};
use std::collections::HashMap;
use vstd::prelude::*;

verus! {

broadcast use vstd::std_specs::hash::group_hash_axioms;

/// The number that stands for the bucket of `method` and `count` segments.
pub open spec fn selector(method: Method, count: nat) -> nat {
    count * 16 + method.ordinal()
}

/// Different buckets have different numbers.
pub proof fn lemma_selector_injective(m1: Method, c1: nat, m2: Method, c2: nat)
    requires
        selector(m1, c1) == selector(m2, c2),
    ensures
        m1 == m2,
        c1 == c2,
{
}

/// Computes the number of a bucket.
pub fn selector_of(method: Method, count: usize) -> (key: u128)
    ensures
        key == selector(method, count as nat),
{
    (count as u128) * 16 + (method.index() as u128)
}

/// Whether route `i` of `bucket` is tried before route `j`: the lower rank goes
/// first and, among equal ranks, the route that was added first.
pub open spec fn goes_before<H>(bucket: Seq<Route<H>>, i: int, j: int) -> bool {
    bucket[i].rank < bucket[j].rank || (bucket[i].rank == bucket[j].rank && i < j)
}

/// Whether `order` lists the positions of the candidates in `bucket` for a
/// request: each position holds a route that stands for the request, each such
/// route is listed, and the list runs in the order in which the routes are
/// tried.
pub open spec fn is_candidate_order<H>(
    bucket: Seq<Route<H>>,
    method: Method,
    uri: Seq<char>,
    order: Seq<int>,
) -> bool {
    &&& forall|k: int|
        0 <= k < order.len() ==> 0 <= #[trigger] order[k] < bucket.len() && bucket[order[k]].accepts(
            method,
            uri,
        )
    &&& forall|i: int|
        0 <= i < bucket.len() && (#[trigger] bucket[i]).accepts(method, uri) ==> order.contains(i)
    &&& forall|k: int, l: int|
        0 <= k < l < order.len() ==> goes_before(bucket, #[trigger] order[k], #[trigger] order[l])
}

/// Whether `found` holds the candidates of `bucket` for a request, in the
/// order in which they are tried.
pub open spec fn are_candidates<H>(
    bucket: Seq<Route<H>>,
    method: Method,
    uri: Seq<char>,
    found: Seq<&Route<H>>,
) -> bool {
    exists|order: Seq<int>| #[trigger]
        is_candidate_order(bucket, method, uri, order) && order.len() == found.len() && forall|
            k: int,
        |
            0 <= k < found.len() ==> *#[trigger] found[k] == bucket[order[k]]
}

/// Whether `order` runs in the order in which the routes of `bucket` are
/// tried.
pub open spec fn in_trial_order<H>(bucket: Seq<Route<H>>, order: Seq<int>) -> bool {
    forall|k: int, l: int|
        0 <= k < l < order.len() ==> goes_before(bucket, #[trigger] order[k], #[trigger] order[l])
}

proof fn lemma_trial_order_unique<H>(bucket: Seq<Route<H>>, o1: Seq<int>, o2: Seq<int>)
    requires
        in_trial_order(bucket, o1),
        in_trial_order(bucket, o2),
        forall|x: int| o1.contains(x) <==> o2.contains(x),
    ensures
        o1 == o2,
    decreases o1.len(),
{
    if o1.len() == 0 {
        if o2.len() > 0 {
            assert(o2.contains(o2[0]));
        }
        assert(o1 =~= o2);
    } else {
        assert(o1.contains(o1[0]));
        assert(o2.contains(o1[0]));
        assert(o2.contains(o2[0]));
        assert(o1.contains(o2[0]));
        let l = choose|l: int| 0 <= l < o2.len() && o2[l] == o1[0];
        let k = choose|k: int| 0 <= k < o1.len() && o1[k] == o2[0];
        if k > 0 && l > 0 {
            assert(goes_before(bucket, o1[0], o1[k]));
            assert(goes_before(bucket, o2[0], o2[l]));
        }
        assert(o1[0] == o2[0]);
        let t1 = o1.drop_first();
        let t2 = o2.drop_first();
        assert forall|x: int| t1.contains(x) <==> t2.contains(x) by {
            if t1.contains(x) {
                let i = choose|i: int| 0 <= i < t1.len() && t1[i] == x;
                assert(o1[i + 1] == x);
                assert(goes_before(bucket, o1[0], o1[i + 1]));
                assert(o1.contains(x));
                let j = choose|j: int| 0 <= j < o2.len() && o2[j] == x;
                assert(j > 0);
                assert(t2[j - 1] == x);
            }
            if t2.contains(x) {
                let i = choose|i: int| 0 <= i < t2.len() && t2[i] == x;
                assert(o2[i + 1] == x);
                assert(goes_before(bucket, o2[0], o2[i + 1]));
                assert(o2.contains(x));
                let j = choose|j: int| 0 <= j < o1.len() && o1[j] == x;
                assert(j > 0);
                assert(t1[j - 1] == x);
            }
        }
        assert forall|k: int, l: int| 0 <= k < l < t1.len() implies goes_before(
            bucket,
            #[trigger] t1[k],
            #[trigger] t1[l],
        ) by {
            assert(goes_before(bucket, o1[k + 1], o1[l + 1]));
        }
        assert forall|k: int, l: int| 0 <= k < l < t2.len() implies goes_before(
            bucket,
            #[trigger] t2[k],
            #[trigger] t2[l],
        ) by {
            assert(goes_before(bucket, o2[k + 1], o2[l + 1]));
        }
        lemma_trial_order_unique(bucket, t1, t2);
        assert(o1 =~= seq![o1[0]] + t1);
        assert(o2 =~= seq![o2[0]] + t2);
    }
}

/// A request has one list of candidates and no other: two lists of positions
/// that both meet `is_candidate_order` are the same list.
pub proof fn lemma_candidate_order_unique<H>(
    bucket: Seq<Route<H>>,
    method: Method,
    uri: Seq<char>,
    o1: Seq<int>,
    o2: Seq<int>,
)
    requires
        is_candidate_order(bucket, method, uri, o1),
        is_candidate_order(bucket, method, uri, o2),
    ensures
        o1 == o2,
{
    assert forall|x: int| o1.contains(x) <==> o2.contains(x) by {
        if o1.contains(x) {
            let i = choose|i: int| 0 <= i < o1.len() && o1[i] == x;
            assert(bucket[o1[i]].accepts(method, uri));
        }
        if o2.contains(x) {
            let i = choose|i: int| 0 <= i < o2.len() && o2[i] == x;
            assert(bucket[o2[i]].accepts(method, uri));
        }
    }
    lemma_trial_order_unique(bucket, o1, o2);
}

/// The positions held in `order`, as mathematical integers.
pub open spec fn positions(order: Seq<usize>) -> Seq<int> {
    Seq::new(order.len(), |k: int| order[k] as int)
}

/// Finds the candidates in `bucket` for a request with `method` and the parsed
/// path `chars`, and lists their positions in the order in which they are
/// tried.
pub fn candidate_positions<H>(
    bucket: &Vec<Route<H>>,
    method: Method,
    chars: &Vec<char>,
    bounds: &Vec<(usize, usize)>,
) -> (order: Vec<usize>)
    requires
        as_ranges(bounds@) == bounds_of(chars@),
    ensures
        is_candidate_order(bucket@, method, chars@, positions(order@)),
{
    let mut order: Vec<usize> = Vec::new();
    let mut i: usize = 0;
    while i < bucket.len()
        invariant
            i <= bucket.len(),
            as_ranges(bounds@) == bounds_of(chars@),
            forall|k: int|
                0 <= k < order.len() ==> (#[trigger] order[k]) < i && bucket[order[k] as int].accepts(
                    method,
                    chars@,
                ),
            forall|j: int|
                0 <= j < i && (#[trigger] bucket[j]).accepts(method, chars@) ==> positions(
                    order@,
                ).contains(j),
            forall|k: int, l: int|
                0 <= k < l < order.len() ==> goes_before(
                    bucket@,
                    (#[trigger] order[k]) as int,
                    (#[trigger] order[l]) as int,
                ),
        decreases bucket.len() - i,
    {
        let route = &bucket[i];
        if route.method == method && parsed_match(
            route.path.chars(),
            route.path.bounds(),
            chars,
            bounds,
        ) {
            let mut p: usize = order.len();
            while p > 0 && bucket[order[p - 1]].rank > route.rank
                invariant
                    p <= order.len(),
                    i < bucket.len(),
                    route == &bucket[i as int],
                    forall|k: int| 0 <= k < order.len() ==> (#[trigger] order[k]) < i,
                    forall|l: int|
                        p <= l < order.len() ==> bucket[(#[trigger] order[l]) as int].rank
                            > route.rank,
                decreases p,
            {
                p = p - 1;
            }
            let ghost before = order@;
            order.insert(p, i);
            proof {
                let after = order@;
                assert(after == before.insert(p as int, i));
                assert forall|k: int| 0 <= k < before.len() implies bucket[before[k] as int].rank
                    > route.rank || k < p by {}
                assert forall|k: int| 0 <= k < p implies bucket[(#[trigger] before[k]) as int].rank
                    <= route.rank by {
                    if k < p - 1 {
                        assert(goes_before(bucket@, before[k] as int, before[p - 1] as int));
                    }
                }
                assert forall|k: int, l: int| 0 <= k < l < after.len() implies goes_before(
                    bucket@,
                    (#[trigger] after[k]) as int,
                    (#[trigger] after[l]) as int,
                ) by {
                    if l < p {
                        assert(after[k] == before[k] && after[l] == before[l]);
                    } else if l == p {
                        assert(after[k] == before[k]);
                    } else if k < p {
                        assert(after[k] == before[k] && after[l] == before[l - 1]);
                    } else if k == p {
                        assert(after[l] == before[l - 1]);
                    } else {
                        assert(after[k] == before[k - 1] && after[l] == before[l - 1]);
                    }
                }
                assert forall|k: int| 0 <= k < after.len() implies (#[trigger] after[k]) < i + 1
                    && bucket[after[k] as int].accepts(method, chars@) by {
                    if k < p {
                        assert(after[k] == before[k]);
                    } else if k > p {
                        assert(after[k] == before[k - 1]);
                    }
                }
                assert forall|j: int|
                    0 <= j < i + 1 && (#[trigger] bucket[j]).accepts(
                        method,
                        chars@,
                    ) implies positions(after).contains(j) by {
                    if j < i {
                        assert(positions(before).contains(j));
                        let x = choose|x: int|
                            0 <= x < positions(before).len() && positions(before)[x] == j;
                        if x < p {
                            assert(positions(after)[x] == j);
                        } else {
                            assert(positions(after)[x + 1] == j);
                        }
                    } else {
                        assert(positions(after)[p as int] == j);
                    }
                }
            }
        }
        i = i + 1;
    }
    order
}

/// What one more item at the end of a list does to what the list contains.
pub proof fn lemma_push_contains<T>(s: Seq<T>, x: T)
    ensures
        forall|y: T| s.push(x).contains(y) <==> s.contains(y) || y == x,
        s.no_duplicates() && !s.contains(x) ==> s.push(x).no_duplicates(),
{
    let t = s.push(x);
    assert forall|y: T| t.contains(y) <==> s.contains(y) || y == x by {
        if t.contains(y) {
            let k = choose|k: int| 0 <= k < t.len() && t[k] == y;
            if k < s.len() {
                assert(s[k] == y);
            }
        }
        if s.contains(y) {
            let k = choose|k: int| 0 <= k < s.len() && s[k] == y;
            assert(t[k] == y);
        }
        if y == x {
            assert(t[s.len() as int] == y);
        }
    }
    if s.no_duplicates() && !s.contains(x) {
        assert forall|i: int, j: int| 0 <= i < t.len() && 0 <= j < t.len() && i != j implies t[i]
            != t[j] by {
            if i < s.len() {
                assert(s.contains(t[i]));
            }
            if j < s.len() {
                assert(s.contains(t[j]));
            }
        }
    }
}

/// How strictly colliding routes are reported.
#[derive(Clone, Copy, Debug, PartialEq, Eq, Structural)]
pub enum Strictness {
    /// Only colliding routes of equal rank: which of them answers a request
    /// that both accept is settled by nothing but the order in which they were
    /// added.
    SameRank,
    /// All colliding routes, also those whose ranks settle the order in which
    /// they are tried.
    AnyRank,
}

/// Whether the routes at positions `i` and `j` of `bucket` are reported at the
/// given strictness: `i` stands before `j`, the two routes collide and, unless
/// all ranks are asked for, they have the same rank.
pub open spec fn pair_reported<H>(bucket: Seq<Route<H>>, i: int, j: int, level: Strictness) -> bool {
    &&& 0 <= i < j < bucket.len()
    &&& bucket[i].collides(&bucket[j])
    &&& level == Strictness::AnyRank || bucket[i].rank == bucket[j].rank
}

/// Lists the pairs of positions in `bucket` that are reported at the given
/// strictness, each pair once.
pub fn colliding_pairs<H>(bucket: &Vec<Route<H>>, level: Strictness) -> (pairs: Vec<(usize, usize)>)
    ensures
        forall|p: (usize, usize)|
            pairs@.contains(p) <==> pair_reported(bucket@, p.0 as int, p.1 as int, level),
        pairs@.no_duplicates(),
{
    let mut pairs: Vec<(usize, usize)> = Vec::new();
    let mut i: usize = 0;
    while i < bucket.len()
        invariant
            i <= bucket.len(),
            forall|p: (usize, usize)|
                pairs@.contains(p) <==> pair_reported(bucket@, p.0 as int, p.1 as int, level) && p.0
                    < i,
            pairs@.no_duplicates(),
        decreases bucket.len() - i,
    {
        let mut j: usize = i + 1;
        while j < bucket.len()
            invariant
                i < bucket.len(),
                i < j <= bucket.len(),
                forall|p: (usize, usize)|
                    pairs@.contains(p) <==> pair_reported(bucket@, p.0 as int, p.1 as int, level)
                        && (p.0 < i || (p.0 == i && p.1 < j)),
                pairs@.no_duplicates(),
            decreases bucket.len() - j,
        {
            let same_rank = bucket[i].rank == bucket[j].rank;
            let wanted = match level {
                Strictness::AnyRank => true,
                Strictness::SameRank => same_rank,
            };
            let ghost before = pairs@;
            let reported = wanted && bucket[i].collides_with(&bucket[j]);
            assert(reported == pair_reported(bucket@, i as int, j as int, level));
            if reported {
                proof {
                    lemma_push_contains(before, (i, j));
                }
                pairs.push((i, j));
            }
            assert forall|p: (usize, usize)|
                pairs@.contains(p) <==> pair_reported(bucket@, p.0 as int, p.1 as int, level) && (
                p.0 < i || (p.0 == i && p.1 < j + 1)) by {
                let was = before.contains(p);
                assert(was <==> pair_reported(bucket@, p.0 as int, p.1 as int, level) && (p.0 < i
                    || (p.0 == i && p.1 < j)));
                if reported {
                    assert(pairs@ == before.push((i, j)));
                    assert(before.push((i, j)).contains(p) <==> was || p == (i, j));
                } else {
                    assert(pairs@ == before);
                }
                if p.0 == i && p.1 == j {
                    assert(p == (i, j));
                }
            }
            j = j + 1;
        }
        i = i + 1;
    }
    pairs
}

/// Two routes of one bucket that are reported as colliding, by the bucket and
/// by their positions in it.
#[derive(Clone, Copy, Debug, PartialEq, Eq, Structural)]
pub struct Collision {
    /// The method of both routes.
    pub method: Method,
    /// The number of segments of both routes.
    pub segments: usize,
    /// The position in the bucket of the route that was added first.
    pub first: usize,
    /// The position in the bucket of the route that was added later.
    pub second: usize,
}

/// Puts one collision at the end of `found` for each pair in `pairs`, all of
/// them in the bucket of `method` and `segments`.
fn append_collisions(
    found: &mut Vec<Collision>,
    method: Method,
    segments: usize,
    pairs: &Vec<(usize, usize)>,
)
    requires
        old(found)@.no_duplicates(),
        pairs@.no_duplicates(),
        forall|c: Collision|
            old(found)@.contains(c) ==> !(c.method == method && c.segments == segments),
    ensures
        final(found)@.no_duplicates(),
        forall|c: Collision|
            final(found)@.contains(c) <==> old(found)@.contains(c) || (c.method == method
                && c.segments == segments && pairs@.contains((c.first, c.second))),
{
    let mut k: usize = 0;
    while k < pairs.len()
        invariant
            k <= pairs.len(),
            pairs@.no_duplicates(),
            found@.no_duplicates(),
            forall|c: Collision|
                old(found)@.contains(c) ==> !(c.method == method && c.segments == segments),
            forall|c: Collision|
                found@.contains(c) <==> old(found)@.contains(c) || (c.method == method && c.segments
                    == segments && pairs@.take(k as int).contains((c.first, c.second))),
        decreases pairs.len() - k,
    {
        let (first, second) = pairs[k];
        let collision = Collision { method, segments, first, second };
        let ghost before = found@;
        proof {
            lemma_push_contains(before, collision);
            lemma_push_contains(pairs@.take(k as int), (first, second));
            assert(pairs@.take(k + 1) == pairs@.take(k as int).push((first, second)));
            if pairs@.take(k as int).contains((first, second)) {
                let m = choose|m: int|
                    0 <= m < pairs@.take(k as int).len() && pairs@.take(k as int)[m] == (
                        first,
                        second,
                    );
                assert(pairs@[m] == pairs@[k as int]);
            }
        }
        found.push(collision);
        assert forall|c: Collision|
            found@.contains(c) <==> old(found)@.contains(c) || (c.method == method && c.segments
                == segments && pairs@.take(k + 1).contains((c.first, c.second))) by {
            let was = before.contains(c);
            assert(found@ == before.push(collision));
            assert(before.push(collision).contains(c) <==> was || c == collision);
            let had = pairs@.take(k as int).contains((c.first, c.second));
            assert(pairs@.take(k as int).push((first, second)).contains((c.first, c.second)) <==> had
                || (c.first, c.second) == (first, second));
        }
        k = k + 1;
    }
    assert(pairs@.take(k as int) == pairs@);
}

/// The routes of `routes` that belong in the bucket of `method` and `count`
/// segments, in order.
pub open spec fn of_bucket<H>(routes: Seq<Route<H>>, method: Method, count: nat) -> Seq<Route<H>>
    decreases routes.len(),
{
    if routes.len() == 0 {
        Seq::empty()
    } else if routes.last().method == method && segments_of(routes.last().path@).len() == count {
        of_bucket(routes.drop_last(), method, count).push(routes.last())
    } else {
        of_bucket(routes.drop_last(), method, count)
    }
}

/// The routes that the references in `found` stand for.
pub open spec fn owned<H>(found: Seq<&Route<H>>) -> Seq<Route<H>> {
    Seq::new(found.len(), |k: int| *found[k])
}

/// A list of routes that all belong in one bucket is what the list holds of
/// that bucket, so it has as many routes as the bucket has in it.
pub proof fn lemma_of_bucket_whole<H>(routes: Seq<Route<H>>, method: Method, count: nat)
    requires
        forall|k: int|
            0 <= k < routes.len() ==> (#[trigger] routes[k]).method == method && segments_of(
                routes[k].path@,
            ).len() == count,
    ensures
        of_bucket(routes, method, count) == routes,
    decreases routes.len(),
{
    if routes.len() > 0 {
        assert forall|k: int| 0 <= k < routes.drop_last().len() implies (
        #[trigger] routes.drop_last()[k]).method == method && segments_of(
            routes.drop_last()[k].path@,
        ).len() == count by {
            assert(routes.drop_last()[k] == routes[k]);
        }
        lemma_of_bucket_whole(routes.drop_last(), method, count);
        assert(routes.drop_last().push(routes.last()) == routes);
    }
}

/// Every route of a list is among what the list holds of the route's own
/// bucket.
pub proof fn lemma_of_bucket_contains<H>(routes: Seq<Route<H>>, k: int)
    requires
        0 <= k < routes.len(),
    ensures
        of_bucket(routes, routes[k].method, segments_of(routes[k].path@).len()).contains(routes[k]),
    decreases routes.len(),
{
    let method = routes[k].method;
    let count = segments_of(routes[k].path@).len();
    let rest = of_bucket(routes.drop_last(), method, count);
    if k == routes.len() - 1 {
        assert(rest.push(routes[k])[rest.len() as int] == routes[k]);
    } else {
        lemma_of_bucket_contains(routes.drop_last(), k);
        assert(routes.drop_last()[k] == routes[k]);
        let at = choose|at: int| 0 <= at < rest.len() && rest[at] == routes[k];
        assert(of_bucket(routes, method, count)[at] == routes[k]);
    }
}

/// The routes of `routes` that do not belong in the bucket of `method` and
/// `count` segments, in order.
pub open spec fn not_of_bucket<H>(routes: Seq<Route<H>>, method: Method, count: nat) -> Seq<
    Route<H>,
>
    decreases routes.len(),
{
    if routes.len() == 0 {
        Seq::empty()
    } else if routes.last().method == method && segments_of(routes.last().path@).len() == count {
        not_of_bucket(routes.drop_last(), method, count)
    } else {
        not_of_bucket(routes.drop_last(), method, count).push(routes.last())
    }
}

/// A list of routes falls into what it holds of one bucket and the rest: the
/// two together have as many routes as the list, and the rest holds of every
/// other bucket what the list holds of it. So the routes of a list can be
/// counted bucket by bucket.
pub proof fn lemma_of_bucket_split<H>(
    routes: Seq<Route<H>>,
    method: Method,
    count: nat,
    other_method: Method,
    other_count: nat,
)
    ensures
        routes.len() == of_bucket(routes, method, count).len() + not_of_bucket(
            routes,
            method,
            count,
        ).len(),
        !(other_method == method && other_count == count) ==> of_bucket(
            not_of_bucket(routes, method, count),
            other_method,
            other_count,
        ) == of_bucket(routes, other_method, other_count),
        of_bucket(not_of_bucket(routes, method, count), method, count).len() == 0,
    decreases routes.len(),
{
    if routes.len() > 0 {
        lemma_of_bucket_split(routes.drop_last(), method, count, other_method, other_count);
        let rest = not_of_bucket(routes.drop_last(), method, count);
        if !(routes.last().method == method && segments_of(routes.last().path@).len() == count) {
            assert(rest.push(routes.last()).drop_last() == rest);
        }
    }
}

/// The routing table.
pub struct Router<H> {
    routes: HashMap<u128, Vec<Route<H>>>,
    selectors: Vec<u128>,
}

impl<H> Router<H> {
    #[verifier::type_invariant]
    spec fn bucketed(self) -> bool {
        &&& forall|key: u128, i: int|
            self.routes@.contains_key(key) && 0 <= i < self.routes@[key]@.len() ==> selector(
                (#[trigger] self.routes@[key]@[i]).method,
                segments_of(self.routes@[key]@[i].path@).len(),
            ) == key
        &&& forall|key: u128|
            self.routes@.contains_key(key) ==> (#[trigger] self.routes@[key])@.len() > 0
        &&& self.selectors@.no_duplicates()
        &&& forall|key: u128| self.routes@.contains_key(key) <==> self.selectors@.contains(key)
    }

    /// The routes of one bucket, in the order in which they were added.
    pub closed spec fn bucket(&self, method: Method, count: nat) -> Seq<Route<H>> {
        let key = selector(method, count);
        if key <= u128::MAX && self.routes@.contains_key(key as u128) {
            self.routes@[key as u128]@
        } else {
            Seq::empty()
        }
    }

    /// A table without routes.
    pub fn new() -> (router: Router<H>)
        ensures
            forall|method: Method, count: nat| #[trigger] router.bucket(method, count).len() == 0,
    {
        Router { routes: HashMap::new(), selectors: Vec::new() }
    }

    /// Puts `route` at the end of the bucket of its method and its number of
    /// segments. No other bucket changes, and no route is merged or refused.
    pub fn add(&mut self, route: Route<H>)
        ensures
            final(self).bucket(route.method, segments_of(route.path@).len()) == old(self).bucket(
                route.method,
                segments_of(route.path@).len(),
            ).push(route),
            forall|method: Method, count: nat|
                !(method == route.method && count == segments_of(route.path@).len())
                    ==> #[trigger] final(self).bucket(method, count) == old(self).bucket(
                    method,
                    count,
                ),
    {
        proof {
            use_type_invariant(&*self);
        }
        let count = route.path.segment_count();
        let key = selector_of(route.method, count);
        let mut taken = Router::new();
        core::mem::swap(self, &mut taken);
        proof {
            use_type_invariant(&taken);
        }
        let Router { mut routes, mut selectors } = taken;
        let ghost old_routes = routes@;
        let ghost old_selectors = selectors@;
        let mut bucket = match routes.remove(&key) {
            Some(bucket) => bucket,
            None => {
                selectors.push(key);
                assert(!old_routes.contains_key(key));
                assert(!old_selectors.contains(key));
                assert forall|i: int, j: int|
                    0 <= i < selectors@.len() && 0 <= j < selectors@.len() && i
                        != j implies selectors@[i] != selectors@[j] by {
                    if i < old_selectors.len() {
                        assert(old_selectors.contains(selectors@[i]));
                    }
                    if j < old_selectors.len() {
                        assert(old_selectors.contains(selectors@[j]));
                    }
                }
                assert forall|k: u128| selectors@.contains(k) <==> (old_selectors.contains(k) || k
                    == key) by {
                    if old_selectors.contains(k) {
                        let i = choose|i: int| 0 <= i < old_selectors.len() && old_selectors[i] == k;
                        assert(selectors@[i] == k);
                    }
                    if k == key {
                        assert(selectors@[selectors@.len() - 1] == k);
                    }
                }
                Vec::new()
            },
        };
        let ghost old_bucket = bucket@;
        bucket.push(route);
        routes.insert(key, bucket);
        assert forall|k: u128, i: int|
            routes@.contains_key(k) && 0 <= i < routes@[k]@.len() implies selector(
            (#[trigger] routes@[k]@[i]).method,
            segments_of(routes@[k]@[i].path@).len(),
        ) == k by {
            if k == key {
                if i < old_bucket.len() {
                    assert(old_routes.contains_key(key));
                    assert(routes@[k]@[i] == old_routes[key]@[i]);
                }
            } else {
                assert(old_routes.contains_key(k));
                assert(routes@[k]@[i] == old_routes[k]@[i]);
            }
        }
        assert forall|k: u128| routes@.contains_key(k) <==> selectors@.contains(k) by {
            assert(old_routes.contains_key(k) <==> old_selectors.contains(k));
        }
        *self = Router { routes, selectors };
        proof {
            assert forall|method: Method, n: nat|
                !(method == route.method && n == segments_of(
                    route.path@,
                ).len()) implies #[trigger] final(self).bucket(method, n) == old(self).bucket(
                method,
                n,
            ) by {
                if selector(method, n) == key {
                    lemma_selector_injective(method, n, route.method, count as nat);
                }
            }
        }
    }

    /// The candidates for a request with `method` and the path `uri`: the
    /// routes of the request's bucket that stand for it, lowest rank first
    /// and, among equal ranks, in the order in which they were added. The
    /// table does not change, and the same call gives the same candidates
    /// again.
    pub fn candidates<'a>(&'a self, method: Method, uri: &str) -> (found: Vec<&'a Route<H>>)
        ensures
            are_candidates(self.bucket(method, segments_of(uri@).len()), method, uri@, found@),
            forall|k: int| 0 <= k < found.len() ==> (#[trigger] found[k]).accepts(method, uri@),
    {
        let chars = chars_of(uri);
        let bounds = scan_bounds(&chars);
        let key = selector_of(method, bounds.len());
        let mut found: Vec<&'a Route<H>> = Vec::new();
        match self.routes.get(&key) {
            None => {
                assert(is_candidate_order(
                    self.bucket(method, segments_of(uri@).len()),
                    method,
                    uri@,
                    Seq::<int>::empty(),
                ));
            },
            Some(bucket) => {
                let order = candidate_positions(bucket, method, &chars, &bounds);
                let mut k: usize = 0;
                while k < order.len()
                    invariant
                        k <= order.len(),
                        found.len() == k,
                        is_candidate_order(bucket@, method, uri@, positions(order@)),
                        forall|j: int|
                            0 <= j < k ==> *#[trigger] found[j] == bucket[order[j] as int],
                    decreases order.len() - k,
                {
                    assert(0 <= positions(order@)[k as int] < bucket.len());
                    found.push(&bucket[order[k]]);
                    k = k + 1;
                }
                assert(is_candidate_order(bucket@, method, uri@, positions(order@))
                    && positions(order@).len() == found@.len() && forall|j: int|
                    0 <= j < found@.len() ==> *#[trigger] found@[j] == bucket@[positions(
                        order@,
                    )[j]]);
                assert forall|j: int| 0 <= j < found.len() implies (#[trigger] found[j]).accepts(
                    method,
                    uri@,
                ) by {
                    assert(0 <= positions(order@)[j] < bucket.len());
                }
            },
        }
        found
    }

    /// The candidate that is tried first for a request with `method` and the
    /// path `uri`, if the request has a candidate at all.
    pub fn route<'a>(&'a self, method: Method, uri: &str) -> (first: Option<&'a Route<H>>)
        ensures
            match first {
                Some(route) => exists|found: Seq<&Route<H>>| #[trigger]
                    are_candidates(
                        self.bucket(method, segments_of(uri@).len()),
                        method,
                        uri@,
                        found,
                    ) && found.len() > 0 && found[0] == route,
                None => forall|i: int|
                    0 <= i < self.bucket(method, segments_of(uri@).len()).len() ==> !(
                    #[trigger] self.bucket(method, segments_of(uri@).len())[i]).accepts(
                        method,
                        uri@,
                    ),
            },
            first matches Some(route) ==> route.accepts(method, uri@),
    {
        let found = self.candidates(method, uri);
        if found.len() > 0 {
            Some(found[0])
        } else {
            proof {
                let bucket = self.bucket(method, segments_of(uri@).len());
                let order = choose|order: Seq<int>| #[trigger]
                    is_candidate_order(bucket, method, uri@, order) && order.len() == found@.len();
                assert forall|i: int| 0 <= i < bucket.len() implies !(#[trigger] bucket[i]).accepts(
                    method,
                    uri@,
                ) by {
                    if bucket[i].accepts(method, uri@) {
                        assert(order.contains(i));
                    }
                }
            }
            None
        }
    }

    /// Whether the table reports `collision` at the given strictness.
    pub open spec fn reports(&self, collision: Collision, level: Strictness) -> bool {
        pair_reported(
            self.bucket(collision.method, collision.segments as nat),
            collision.first as int,
            collision.second as int,
            level,
        )
    }

    /// All pairs of routes that the table reports at the given strictness, each
    /// pair once. Every pair of routes of every bucket is looked at, so this is
    /// for the time before the first request.
    pub fn collisions_at(&self, level: Strictness) -> (found: Vec<Collision>)
        ensures
            forall|c: Collision| found@.contains(c) <==> self.reports(c, level),
            found@.no_duplicates(),
    {
        proof {
            use_type_invariant(self);
        }
        let mut found: Vec<Collision> = Vec::new();
        let mut t: usize = 0;
        while t < self.selectors.len()
            invariant
                t <= self.selectors.len(),
                self.bucketed(),
                found@.no_duplicates(),
                forall|c: Collision|
                    found@.contains(c) <==> self.reports(c, level) && self.selectors@.take(
                        t as int,
                    ).contains(selector(c.method, c.segments as nat) as u128),
            decreases self.selectors.len() - t,
        {
            let key = self.selectors[t];
            let ghost before = found@;
            let ghost seen = self.selectors@.take(t as int);
            assert(self.selectors@.contains(key));
            assert(self.selectors@.take(t + 1) == seen.push(key));
            proof {
                lemma_push_contains(seen, key);
                if seen.contains(key) {
                    let m = choose|m: int| 0 <= m < seen.len() && seen[m] == key;
                    assert(self.selectors@[m] == self.selectors@[t as int]);
                }
            }
            match self.routes.get(&key) {
                Some(bucket) => {
                    let method = bucket[0].method;
                    let segments = bucket[0].path.segment_count();
                    assert(selector(method, segments as nat) == key);
                    assert(self.bucket(method, segments as nat) == bucket@);
                    let pairs = colliding_pairs(bucket, level);
                    assert forall|c: Collision| before.contains(c) implies !(c.method == method
                        && c.segments == segments) by {}
                    append_collisions(&mut found, method, segments, &pairs);
                    assert forall|c: Collision|
                        found@.contains(c) <==> self.reports(c, level) && seen.push(key).contains(
                            selector(c.method, c.segments as nat) as u128,
                        ) by {
                        let was = before.contains(c);
                        let c_key = selector(c.method, c.segments as nat);
                        assert(c_key <= u128::MAX);
                        assert(seen.push(key).contains(c_key as u128) <==> seen.contains(
                            c_key as u128,
                        ) || c_key as u128 == key);
                        if c_key == key {
                            lemma_selector_injective(
                                c.method,
                                c.segments as nat,
                                method,
                                segments as nat,
                            );
                            assert(pairs@.contains((c.first, c.second)) <==> self.reports(c, level));
                        }
                    }
                },
                None => {},
            }
            t = t + 1;
        }
        assert(self.selectors@.take(t as int) == self.selectors@);
        assert forall|c: Collision| self.reports(c, level) implies self.selectors@.contains(
            selector(c.method, c.segments as nat) as u128,
        ) by {
            let c_key = selector(c.method, c.segments as nat);
            assert(c_key <= u128::MAX);
            assert(self.routes@.contains_key(c_key as u128));
        }
        found
    }

    /// Whether `found` lists the pairs of colliding routes of equal rank,
    /// each pair once.
    pub open spec fn lists(&self, found: Seq<Collision>) -> bool {
        &&& forall|c: Collision| found.contains(c) <==> self.reports(c, Strictness::SameRank)
        &&& found.no_duplicates()
    }

    /// All pairs of colliding routes of equal rank, each pair once.
    pub fn collisions(&self) -> (found: Vec<Collision>)
        ensures
            self.lists(found@),
    {
        self.collisions_at(Strictness::SameRank)
    }

    /// Whether the table holds two colliding routes of equal rank.
    pub fn has_collisions(&self) -> (any: bool)
        ensures
            any == exists|c: Collision| self.reports(c, Strictness::SameRank),
    {
        let found = self.collisions();
        if found.len() > 0 {
            assert(found@.contains(found@[0]));
            true
        } else {
            assert forall|c: Collision| !self.reports(c, Strictness::SameRank) by {
                if self.reports(c, Strictness::SameRank) {
                    assert(found@.contains(c));
                }
            }
            false
        }
    }

    /// Whether the table holds `route` in one of its buckets.
    pub open spec fn holds(&self, route: Route<H>) -> bool {
        exists|method: Method, count: nat, i: int|
            0 <= i < self.bucket(method, count).len() && #[trigger] self.bucket(method, count)[i]
                == route
    }

    /// The routes of all buckets, each as often as the table holds it: the
    /// listed routes that belong in a bucket are the routes of that bucket, in
    /// the order in which they were added.
    pub fn routes<'a>(&'a self) -> (found: Vec<&'a Route<H>>)
        ensures
            forall|method: Method, count: nat|
                #[trigger] of_bucket(owned(found@), method, count) == self.bucket(method, count),
            forall|k: int| 0 <= k < found@.len() ==> self.holds(*#[trigger] found@[k]),
            forall|method: Method, count: nat, i: int|
                0 <= i < self.bucket(method, count).len() ==> found@.contains(
                    &#[trigger] self.bucket(method, count)[i],
                ),
    {
        proof {
            use_type_invariant(self);
        }
        let mut found: Vec<&'a Route<H>> = Vec::new();
        let mut t: usize = 0;
        assert(owned(found@) =~= Seq::<Route<H>>::empty());
        while t < self.selectors.len()
            invariant
                t <= self.selectors.len(),
                self.bucketed(),
                forall|method: Method, count: nat|
                    #[trigger] of_bucket(owned(found@), method, count) == if selector(method, count)
                        <= u128::MAX && self.selectors@.take(t as int).contains(
                        selector(method, count) as u128,
                    ) {
                        self.bucket(method, count)
                    } else {
                        Seq::empty()
                    },
                forall|k: int| 0 <= k < found@.len() ==> self.holds(*#[trigger] found@[k]),
                forall|x: int, i: int|
                    0 <= x < t && self.routes@.contains_key(self.selectors@[x]) && 0 <= i
                        < self.routes@[self.selectors@[x]]@.len() ==> found@.contains(
                        &#[trigger] self.routes@[self.selectors@[x]]@[i],
                    ),
            decreases self.selectors.len() - t,
        {
            let key = self.selectors[t];
            assert(self.selectors@.contains(key));
            let ghost seen = self.selectors@.take(t as int);
            assert(self.selectors@.take(t + 1) == seen.push(key));
            proof {
                lemma_push_contains(seen, key);
                if seen.contains(key) {
                    let m = choose|m: int| 0 <= m < seen.len() && seen[m] == key;
                    assert(self.selectors@[m] == self.selectors@[t as int]);
                }
            }
            match self.routes.get(&key) {
                Some(bucket) => {
                    let ghost method = bucket@[0].method;
                    let ghost count = segments_of(bucket@[0].path@).len();
                    assert(selector(method, count) == key);
                    assert(self.bucket(method, count) == bucket@);
                    let ghost before = found@;
                    let mut i: usize = 0;
                    assert(bucket@.take(0) =~= Seq::<Route<H>>::empty());
                    while i < bucket.len()
                        invariant
                            i <= bucket.len(),
                            self.bucketed(),
                            self.routes@.contains_key(key),
                            self.routes@[key] == *bucket,
                            selector(method, count) == key,
                            forall|m: Method, c: nat|
                                #[trigger] of_bucket(owned(found@), m, c) == if m == method && c
                                    == count {
                                    bucket@.take(i as int)
                                } else {
                                    of_bucket(owned(before), m, c)
                                },
                            self.bucket(method, count) == bucket@,
                            forall|k: int|
                                0 <= k < found@.len() ==> self.holds(*#[trigger] found@[k]),
                            forall|r: &Route<H>| before.contains(r) ==> found@.contains(r),
                            forall|j: int| 0 <= j < i ==> found@.contains(&#[trigger] bucket@[j]),
                        decreases bucket.len() - i,
                    {
                        let ghost was = found@;
                        proof {
                            lemma_push_contains(was, &bucket@[i as int]);
                            assert(self.bucket(method, count)[i as int] == bucket@[i as int]);
                        }
                        found.push(&bucket[i]);
                        assert(found@ == was.push(&bucket@[i as int]));
                        assert(owned(found@) =~= owned(was).push(bucket@[i as int]));
                        assert(owned(found@).drop_last() =~= owned(was));
                        assert(bucket@.take(i + 1) =~= bucket@.take(i as int).push(
                            bucket@[i as int],
                        ));
                        assert forall|m: Method, c: nat|
                            #[trigger] of_bucket(owned(found@), m, c) == if m == method && c
                                == count {
                                bucket@.take(i + 1)
                            } else {
                                of_bucket(owned(before), m, c)
                            } by {
                            let route = bucket@[i as int];
                            let listed = owned(found@);
                            assert(listed.last() == route);
                            assert(listed.drop_last() == owned(was));
                            assert(of_bucket(owned(was), m, c) == if m == method && c == count {
                                bucket@.take(i as int)
                            } else {
                                of_bucket(owned(before), m, c)
                            });
                            assert(route == self.routes@[key]@[i as int]);
                            assert(selector(route.method, segments_of(route.path@).len()) == key);
                            lemma_selector_injective(
                                route.method,
                                segments_of(route.path@).len(),
                                method,
                                count,
                            );
                        }
                        assert forall|j: int| 0 <= j < i + 1 implies found@.contains(
                            &#[trigger] bucket@[j],
                        ) by {
                            if j < i {
                                assert(was.contains(&bucket@[j]));
                            }
                            assert(was.push(&bucket@[i as int]).contains(&bucket@[j]));
                        }
                        assert forall|r: &Route<H>| before.contains(r) implies found@.contains(
                            r,
                        ) by {
                            assert(was.contains(r));
                            assert(was.push(&bucket@[i as int]).contains(r));
                        }
                        assert forall|k: int| 0 <= k < found@.len() implies self.holds(
                            *#[trigger] found@[k],
                        ) by {
                            if k < was.len() {
                                assert(found@[k] == was[k]);
                            }
                        }
                        i = i + 1;
                    }
                    assert(bucket@.take(i as int) == bucket@);
                    assert forall|m: Method, c: nat|
                        #[trigger] of_bucket(owned(found@), m, c) == if selector(m, c) <= u128::MAX
                            && seen.push(key).contains(selector(m, c) as u128) {
                            self.bucket(m, c)
                        } else {
                            Seq::empty()
                        } by {
                        if selector(m, c) == key {
                            lemma_selector_injective(m, c, method, count);
                        }
                    }
                },
                None => {},
            }
            t = t + 1;
        }
        assert(self.selectors@.take(t as int) == self.selectors@);
        assert forall|method: Method, count: nat|
            #[trigger] of_bucket(owned(found@), method, count) == self.bucket(method, count) by {
            let key = selector(method, count);
            if key <= u128::MAX && self.routes@.contains_key(key as u128) {
                assert(self.selectors@.contains(key as u128));
            } else {
                assert(self.bucket(method, count) =~= Seq::<Route<H>>::empty());
            }
        }
        assert forall|method: Method, count: nat, i: int|
            0 <= i < self.bucket(method, count).len() implies found@.contains(
            &#[trigger] self.bucket(method, count)[i],
        ) by {
            let key = selector(method, count) as u128;
            assert(self.routes@.contains_key(key));
            assert(self.selectors@.contains(key));
            let x = choose|x: int| 0 <= x < self.selectors@.len() && self.selectors@[x] == key;
            assert(found@.contains(&self.routes@[self.selectors@[x]]@[i]));
        }
        found
    }
}

} // verus!
