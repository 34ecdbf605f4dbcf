use rocket::router::collider::{do_match_until, index_match_until};
use rocket::router::route::Route;
use rocket::router::uri::{URIBuf, URI};
use rocket::Collider;
use rocket::Method;
use rocket::Method::{Get, Post, Put};
use rocket::{Data, Request, Response};

type SimpleRoute = (Method, &'static str);

fn dummy_handler(_req: &Request, _data: Data) -> Response {
    Response::empty()
}

fn m_collide(a: SimpleRoute, b: SimpleRoute) -> bool {
    let route_a = Route::new(a.0, a.1.to_string(), dummy_handler);
    route_a.collides_with(&Route::new(b.0, b.1.to_string(), dummy_handler))
}

fn unranked_collide(a: &'static str, b: &'static str) -> bool {
    let route_a = Route::ranked(0, Get, a.to_string(), dummy_handler);
    route_a.collides_with(&Route::ranked(0, Get, b.to_string(), dummy_handler))
}

fn s_r_collide(a: &'static str, b: &'static str) -> bool {
    a.collides_with(&Route::new(Get, b.to_string(), dummy_handler))
}

fn r_s_collide(a: &'static str, b: &'static str) -> bool {
    let route_a = Route::new(Get, a.to_string(), dummy_handler);
    route_a.collides_with(b)
}

fn s_s_collide(a: &'static str, b: &'static str) -> bool {
    a.collides_with(b)
}

#[test]
fn simple_collisions() {
    assert!(unranked_collide("a", "a"));
    assert!(unranked_collide("/a", "/a"));
    assert!(unranked_collide("/hello", "/hello"));
    assert!(unranked_collide("/hello", "/hello/"));
    assert!(unranked_collide("/hello/there/how/ar", "/hello/there/how/ar"));
    assert!(unranked_collide("/hello/there", "/hello/there/"));
}

#[test]
fn simple_param_collisions() {
    assert!(unranked_collide("/hello/<name>", "/hello/<person>"));
    assert!(unranked_collide("/hello/<name>/hi", "/hello/<person>/hi"));
    assert!(unranked_collide("/hello/<name>/hi/there", "/hello/<person>/hi/there"));
    assert!(unranked_collide("/<name>/hi/there", "/<person>/hi/there"));
    assert!(unranked_collide("/<name>/hi/there", "/dude/<name>/there"));
    assert!(unranked_collide("/<name>/<a>/<b>", "/<a>/<b>/<c>"));
    assert!(unranked_collide("/<name>/<a>/<b>/", "/<a>/<b>/<c>/"));
}

#[test]
fn medium_param_collisions() {
    assert!(unranked_collide("/hello/<name>", "/hello/bob"));
    assert!(unranked_collide("/<name>", "//bob"));
}

#[test]
fn hard_param_collisions() {
    assert!(unranked_collide("/<name>bob", "/<name>b"));
    assert!(unranked_collide("/a<b>c", "/abc"));
    assert!(unranked_collide("/a<b>c", "/azooc"));
    assert!(unranked_collide("/a<b>", "/a"));
    assert!(unranked_collide("/<b>", "/a"));
    assert!(unranked_collide("/<a>/<b>", "/a/b<c>"));
    assert!(unranked_collide("/<a>/bc<b>", "/a/b<c>"));
    assert!(unranked_collide("/<a>/bc<b>d", "/a/b<c>"));
}

#[test]
fn non_collisions() {
    assert!(!unranked_collide("/a", "/b"));
    assert!(!unranked_collide("/a/b", "/a"));
    assert!(!unranked_collide("/a/b", "/a/c"));
    assert!(!unranked_collide("/a/hello", "/a/c"));
    assert!(!unranked_collide("/hello", "/a/c"));
    assert!(!unranked_collide("/hello/there", "/hello/there/guy"));
    assert!(!unranked_collide("/b<a>/there", "/hi/there"));
    assert!(!unranked_collide("/<a>/<b>c", "/hi/person"));
    assert!(!unranked_collide("/<a>/<b>cd", "/hi/<a>e"));
    assert!(!unranked_collide("/a<a>/<b>", "/b<b>/<a>"));
    assert!(!unranked_collide("/a/<b>", "/b/<b>"));
    assert!(!unranked_collide("/a<a>/<b>", "/b/<b>"));
}

#[test]
fn method_dependent_non_collisions() {
    assert!(!m_collide((Get, "/"), (Post, "/")));
    assert!(!m_collide((Post, "/"), (Put, "/")));
    assert!(!m_collide((Put, "/a"), (Put, "/")));
    assert!(!m_collide((Post, "/a"), (Put, "/")));
    assert!(!m_collide((Get, "/a"), (Put, "/")));
    assert!(!m_collide((Get, "/hello"), (Put, "/hello")));
}

#[test]
fn test_str_non_collisions() {
    assert!(!s_r_collide("/a", "/b"));
    assert!(!s_r_collide("/a/b", "/a"));
    assert!(!s_r_collide("/a/b", "/a/c"));
    assert!(!s_r_collide("/a/hello", "/a/c"));
    assert!(!s_r_collide("/hello", "/a/c"));
    assert!(!s_r_collide("/hello/there", "/hello/there/guy"));
    assert!(!s_r_collide("/b<a>/there", "/hi/there"));
    assert!(!s_r_collide("/<a>/<b>c", "/hi/person"));
    assert!(!s_r_collide("/<a>/<b>cd", "/hi/<a>e"));
    assert!(!s_r_collide("/a<a>/<b>", "/b<b>/<a>"));
    assert!(!s_r_collide("/a/<b>", "/b/<b>"));
    assert!(!s_r_collide("/a<a>/<b>", "/b/<b>"));
    assert!(!r_s_collide("/a", "/b"));
    assert!(!r_s_collide("/a/b", "/a"));
    assert!(!r_s_collide("/a/b", "/a/c"));
    assert!(!r_s_collide("/a/hello", "/a/c"));
    assert!(!r_s_collide("/hello", "/a/c"));
    assert!(!r_s_collide("/hello/there", "/hello/there/guy"));
    assert!(!r_s_collide("/b<a>/there", "/hi/there"));
    assert!(!r_s_collide("/<a>/<b>c", "/hi/person"));
    assert!(!r_s_collide("/<a>/<b>cd", "/hi/<a>e"));
    assert!(!r_s_collide("/a<a>/<b>", "/b<b>/<a>"));
    assert!(!r_s_collide("/a/<b>", "/b/<b>"));
    assert!(!r_s_collide("/a<a>/<b>", "/b/<b>"));
}

#[test]
fn test_str_collisions() {
    assert!(!s_s_collide("/a", "/b"));
    assert!(!s_s_collide("/a/b", "/a"));
    assert!(!s_s_collide("/a/b", "/a/c"));
    assert!(!s_s_collide("/a/hello", "/a/c"));
    assert!(!s_s_collide("/hello", "/a/c"));
    assert!(!s_s_collide("/hello/there", "/hello/there/guy"));
    assert!(!s_s_collide("/b<a>/there", "/hi/there"));
    assert!(!s_s_collide("/<a>/<b>c", "/hi/person"));
    assert!(!s_s_collide("/<a>/<b>cd", "/hi/<a>e"));
    assert!(!s_s_collide("/a<a>/<b>", "/b<b>/<a>"));
    assert!(!s_s_collide("/a/<b>", "/b/<b>"));
    assert!(!s_s_collide("/a<a>/<b>", "/b/<b>"));
}

#[test]
fn strings_collide_as_segments() {
    assert!(s_s_collide("abc", "abc"));
    assert!(s_s_collide("<a>", "hello"));
    assert!(s_s_collide("a<b>c", "azooc"));
    assert!(s_s_collide("", ""));
    assert!(s_r_collide("/<a>", "/hello"));
    assert!(r_s_collide("/hello", "/<a>"));
}

#[test]
fn scan_from_the_left_stops_where_expected() {
    assert_eq!(index_match_until('<', "abc<d>", "abczzz", true), Some((3, 3)));
    assert_eq!(index_match_until('<', "abc", "abc", true), Some((3, 3)));
    assert_eq!(index_match_until('<', "abc", "ab", true), Some((2, 2)));
    assert_eq!(index_match_until('<', "", "abc", true), Some((0, 0)));
    assert_eq!(index_match_until('<', "<a>", "hello", true), Some((0, 0)));
    assert_eq!(index_match_until('<', "abd", "abc", true), None);
    assert_eq!(index_match_until('<', "x<a>", "y<a>", true), None);
}

#[test]
fn scan_from_the_right_stops_where_expected() {
    assert_eq!(index_match_until('>', "a<b>cd", "zzcd", false), Some((3, 1)));
    assert_eq!(index_match_until('>', "abc", "abc", false), Some((-1, -1)));
    assert_eq!(index_match_until('>', "xabc", "abc", false), Some((0, -1)));
    assert_eq!(index_match_until('>', "", "abc", false), Some((-1, 2)));
    assert_eq!(index_match_until('>', "<a>", "hello", false), Some((2, 4)));
    assert_eq!(index_match_until('>', "abd", "abc", false), None);
}

#[test]
fn match_until_tells_whether_the_scan_ends_well() {
    assert!(do_match_until('<', "ab<c>", "abzz", true));
    assert!(!do_match_until('<', "ab<c>", "azzz", true));
    assert!(do_match_until('>', "<c>yz", "aayz", false));
    assert!(!do_match_until('>', "<c>yz", "aaxz", false));
}

#[test]
fn paths_collide_both_ways() {
    let a = URIBuf::from("/a/<b>");
    let b = URIBuf::from("/<x>/c");
    assert!(a.collides_with(&b));
    assert!(b.collides_with(&a));
    assert!(URI::new("/a/<b>").collides_with(&URI::new("/<x>/c")));
    assert!(a.collides_with(&URI::new("/<x>/c")));
    assert!(URI::new("/<x>/c").collides_with(&a));
    assert!(!a.collides_with(&URIBuf::from("/a")));
    assert!(!URI::new("/a/b").collides_with(&URI::new("/a/c")));
}

#[test]
fn paths_without_segments_collide() {
    assert!(unranked_collide("/", "/"));
    assert!(unranked_collide("", "//"));
    assert!(!m_collide((Get, "/"), (Post, "/")));
}

#[test]
fn dynamic_segment_collides_with_any_segment() {
    for other in ["/x", "/<y>", "/a<b>c", "/long-segment"] {
        assert!(unranked_collide("/<a>", other));
        assert!(unranked_collide(other, "/<a>"));
    }
}
