use rocket::router::uri::{Segments, URIBuf, URI};

fn seg_count(path: &str, expected: usize) -> bool {
    let actual = URI::new(path).segment_count();
    let actual_buf = URIBuf::from(path).segment_count();
    if actual != expected || actual_buf != expected {
        println!("Count mismatch: expected {}, got {}.", expected, actual);
        println!("{}", if actual != expected { "lifetime" } else { "buf" });
        println!("Segments (for {}):", path);
        for (i, segment) in URI::new(path).segments().to_vec().iter().enumerate() {
            println!("\t{}: {}", i, segment);
        }
    }

    actual == expected && actual_buf == expected
}

fn eq_segments(path: &str, expected: &[&str]) -> bool {
    let uri = URI::new(path);
    let actual: Vec<&str> = uri.segments().to_vec();

    let uri_buf = URIBuf::from(path);
    let actual_buf: Vec<&str> = uri_buf.segments().to_vec();

    actual == expected && actual_buf == expected
}

#[test]
fn simple_segment_count() {
    assert!(seg_count("", 0));
    assert!(seg_count("/", 0));
    assert!(seg_count("a", 1));
    assert!(seg_count("/a", 1));
    assert!(seg_count("a/", 1));
    assert!(seg_count("/a/", 1));
    assert!(seg_count("/a/b", 2));
    assert!(seg_count("/a/b/", 2));
    assert!(seg_count("a/b/", 2));
    assert!(seg_count("ab/", 1));
}

#[test]
fn segment_count() {
    assert!(seg_count("////", 0));
    assert!(seg_count("//a//", 1));
    assert!(seg_count("//abc//", 1));
    assert!(seg_count("//abc/def/", 2));
    assert!(seg_count("//////abc///def//////////", 2));
    assert!(seg_count("a/b/c/d/e/f/g", 7));
    assert!(seg_count("/a/b/c/d/e/f/g", 7));
    assert!(seg_count("/a/b/c/d/e/f/g/", 7));
    assert!(seg_count("/a/b/cdjflk/d/e/f/g", 7));
    assert!(seg_count("//aaflja/b/cdjflk/d/e/f/g", 7));
    assert!(seg_count("/a   /b", 2));
}

#[test]
fn single_segments_match() {
    assert!(eq_segments("", &[]));
    assert!(eq_segments("a", &["a"]));
    assert!(eq_segments("/a", &["a"]));
    assert!(eq_segments("/a/", &["a"]));
    assert!(eq_segments("a/", &["a"]));
    assert!(eq_segments("///a/", &["a"]));
    assert!(eq_segments("///a///////", &["a"]));
    assert!(eq_segments("a///////", &["a"]));
    assert!(eq_segments("//a", &["a"]));
    assert!(eq_segments("", &[]));
    assert!(eq_segments("abc", &["abc"]));
    assert!(eq_segments("/a", &["a"]));
    assert!(eq_segments("/abc/", &["abc"]));
    assert!(eq_segments("abc/", &["abc"]));
    assert!(eq_segments("///abc/", &["abc"]));
    assert!(eq_segments("///abc///////", &["abc"]));
    assert!(eq_segments("abc///////", &["abc"]));
    assert!(eq_segments("//abc", &["abc"]));
}

#[test]
fn multi_segments_match() {
    assert!(eq_segments("a/b/c", &["a", "b", "c"]));
    assert!(eq_segments("/a/b", &["a", "b"]));
    assert!(eq_segments("/a///b", &["a", "b"]));
    assert!(eq_segments("a/b/c/d", &["a", "b", "c", "d"]));
    assert!(eq_segments("///a///////d////c", &["a", "d", "c"]));
    assert!(eq_segments("abc/abc", &["abc", "abc"]));
    assert!(eq_segments("abc/abc/", &["abc", "abc"]));
    assert!(eq_segments("///abc///////a", &["abc", "a"]));
    assert!(eq_segments("/////abc/b", &["abc", "b"]));
    assert!(eq_segments("//abc//c////////d", &["abc", "c", "d"]));
}

#[test]
fn multi_segments_match_funky_chars() {
    assert!(eq_segments("a/b/c!!!", &["a", "b", "c!!!"]));
    assert!(eq_segments("a  /b", &["a  ", "b"]));
    assert!(eq_segments("  a/b", &["  a", "b"]));
    assert!(eq_segments("  a/b  ", &["  a", "b  "]));
    assert!(eq_segments("  a///b  ", &["  a", "b  "]));
    assert!(eq_segments("  ab  ", &["  ab  "]));
}

#[test]
fn segment_mismatch() {
    assert!(!eq_segments("", &["a"]));
    assert!(!eq_segments("a", &[]));
    assert!(!eq_segments("/a/a", &["a"]));
    assert!(!eq_segments("/a/b", &["b", "a"]));
    assert!(!eq_segments("/a/a/b", &["a", "b"]));
    assert!(!eq_segments("///a/", &[]));
}

#[test]
fn separator_runs_collapse() {
    assert!(eq_segments("//a///b//", &["a", "b"]));
    assert!(eq_segments("a/b", &["a", "b"]));
    let left: Vec<&str> = URI::new("//a///b//").segments().to_vec();
    let right: Vec<&str> = URI::new("a/b").segments().to_vec();
    assert_eq!(left, right);
}

#[test]
fn segments_walk_step_by_step() {
    let mut walk = Segments::new("/one//two/");
    assert_eq!(walk.next(), Some("one"));
    assert_eq!(walk.next(), Some("two"));
    assert_eq!(walk.next(), None);
    assert_eq!(walk.next(), None);
}

#[test]
fn segments_walk_restarts() {
    let uri = URI::new("/x/y");
    let mut first = uri.segments();
    assert_eq!(first.next(), Some("x"));
    let again: Vec<&str> = uri.segments().to_vec();
    assert_eq!(again, vec!["x", "y"]);
    assert_eq!(first.to_vec(), vec!["y"]);
}

#[test]
fn non_ascii_segments() {
    assert!(eq_segments("/caf\u{e9}/\u{3053}\u{3093}/", &["caf\u{e9}", "\u{3053}\u{3093}"]));
    assert!(seg_count("/\u{e9}//\u{e9}", 2));
}

#[test]
fn uri_keeps_its_text() {
    assert_eq!(URI::new("//a/b").as_str(), "//a/b");
    let buf = URIBuf::from("/a//b/");
    assert_eq!(buf.as_str(), "/a//b/");
    assert_eq!(buf.to_string(), "/a//b/".to_string());
    assert_eq!(buf.as_uri().as_str(), "/a//b/");
    assert_eq!(buf.as_uri().segment_count(), 2);
    assert_eq!(buf.as_uri_uncached().segment_count(), 2);
    let owned = URIBuf::from("/p/q/r".to_string());
    assert_eq!(owned.segment_count(), 3);
    assert_eq!(owned.clone().as_str(), "/p/q/r");
    assert_eq!(owned.chars().len(), 6);
    assert_eq!(owned.bounds(), &vec![(1, 2), (3, 4), (5, 6)]);
}
