use rocket::config::{ConfigError, ParsingError};
use rocket::error::Error;
use rocket::http::{has_header, Header, Status};
use rocket::request::{FromParam, FromSegments};
use rocket::response::responder::text_response;
use rocket::response::{Failure, Stream};
use rocket::router::uri::Segments;
use rocket::Method::Get;
use rocket::{Data, Outcome, Request, Responder, Response, Route};

struct Number(u32);

impl<'a> FromParam<'a> for Number {
    fn from_param(param: &'a str) -> Option<Number> {
        param.parse().ok().map(Number)
    }
}

struct Pair<'a>(&'a str, &'a str);

impl<'a> FromSegments<'a> for Pair<'a> {
    fn from_segments(segments: Segments<'a>) -> Option<Pair<'a>> {
        let all = segments.to_vec();
        if all.len() == 2 {
            Some(Pair(all[0], all[1]))
        } else {
            None
        }
    }
}

fn request_with_params(template: &str, uri: &str) -> Request {
    let route = Route::new(Get, template.to_string(), ());
    let mut request = Request::mock(Get, uri);
    request.set_params(&route);
    request
}

#[test]
fn get_param_gives_the_bound_value() {
    let request = request_with_params("/<a>/x/<b>", "/12/x/hello");
    assert_eq!(request.params, vec!["12", "hello"]);
    assert_eq!(request.get_param::<String>(0), Ok("12".to_string()));
    assert_eq!(request.get_param::<&str>(1), Ok("hello"));
    assert_eq!(request.get_param::<Number>(0).map(|n| n.0), Ok(12));
}

#[test]
fn get_param_tells_no_key_from_bad_parse() {
    let request = request_with_params("/<a>/x/<b>", "/12/x/hello");
    assert_eq!(request.get_param::<Number>(1).map(|n| n.0), Err(Error::BadParse));
    assert_eq!(request.get_param::<Number>(2).map(|n| n.0), Err(Error::NoKey));
    assert_eq!(request.get_param::<String>(7), Err(Error::NoKey));
    let unbound = Request::mock(Get, "/12/x/hello");
    assert_eq!(unbound.get_param::<String>(0), Err(Error::NoKey));
}

#[test]
fn get_segments_gives_the_rest_of_the_path() {
    let request = Request::mock(Get, "/a//b/c/");
    assert_eq!(request.get_segments::<Vec<&str>>(0), Ok(vec!["a", "b", "c"]));
    assert_eq!(request.get_segments::<Vec<&str>>(1), Ok(vec!["b", "c"]));
    assert_eq!(request.get_segments::<Vec<&str>>(2), Ok(vec!["c"]));
    assert_eq!(request.get_segments::<Vec<&str>>(3), Err(Error::NoKey));
    let pair = request.get_segments::<Pair>(1);
    assert!(matches!(pair, Ok(Pair("b", "c"))));
    assert!(matches!(request.get_segments::<Pair>(0), Err(Error::BadParse)));
    assert!(matches!(Request::mock(Get, "/").get_segments::<Pair>(0), Err(Error::NoKey)));
}

#[test]
fn request_keeps_what_it_was_made_of() {
    let headers = vec![Header::new("Accept", "text/html")];
    let mut request = Request::new(Get, "/a/b".to_string(), headers);
    assert_eq!(request.uri().as_str(), "/a/b");
    assert_eq!(request.uri().segment_count(), 2);
    assert_eq!(request.headers().len(), 1);
    assert_eq!(request.content_type(), None);
    let typed = Request::new(Get, "/".to_string(), vec![Header::new("Content-Type", "a/b"), Header::new("Content-Type", "c/d")]);
    assert_eq!(typed.content_type(), Some("a/b"));
    let lower = Request::new(Get, "/".to_string(), vec![Header::new("content-type", "e/f")]);
    assert_eq!(lower.content_type(), Some("e/f"));
    assert!(has_header(request.headers(), "Accept"));
    assert!(has_header(request.headers(), "accept"));
    assert!(has_header(request.headers(), "ACCEPT"));
    assert!(!has_header(request.headers(), "Accepts"));
    assert!(!has_header(request.headers(), "\u{c5}ccept"));
    let route = Route::new(Get, "/<x>/b".to_string(), ());
    request.set_params(&route);
    assert_eq!(request.params, vec!["a"]);
    assert!(request.method == Get);
    assert_eq!(request.uri.as_str(), "/a/b");
    assert_eq!(request.headers.len(), 1);
}

#[test]
fn data_holds_its_bytes() {
    let data = Data::new(vec![1, 2, 3]);
    assert_eq!(data.peek(), &vec![1, 2, 3]);
    assert_eq!(data.into_inner(), vec![1, 2, 3]);
}

#[test]
fn outcome_tells_its_variant() {
    let success: Outcome<u8, u16, u32> = Outcome::Success(1);
    let failure: Outcome<u8, u16, u32> = Outcome::Failure(2);
    let forward: Outcome<u8, u16, u32> = Outcome::Forward(3);
    assert!(success.is_success() && !success.is_failure() && !success.is_forward());
    assert!(!failure.is_success() && failure.is_failure() && !failure.is_forward());
    assert!(!forward.is_success() && !forward.is_failure() && forward.is_forward());
    assert_eq!(success.succeeded(), Some(1));
    assert_eq!(failure.failed(), Some(2));
    assert_eq!(forward.forwarded(), Some(3));
    let forward: Outcome<u8, u16, u32> = Outcome::Forward(3);
    assert_eq!(forward.succeeded(), None);
    let success: Outcome<u8, u16, u32> = Outcome::Success(1);
    assert_eq!(success.failed(), None);
    let failure: Outcome<u8, u16, u32> = Outcome::Failure(2);
    assert_eq!(failure.forwarded(), None);
}

#[test]
fn statuses_have_their_numbers() {
    assert_eq!(Status::ok().code, 200);
    assert_eq!(Status::not_found().code, 404);
    assert_eq!(Status::internal_server_error().code, 500);
    assert_eq!(Status::new(418).to_u16(), 418);
    assert_eq!(Response::new().status.code, 200);
    assert_eq!(Response::empty().status.code, 200);
    assert_eq!(Response::not_found().status.code, 404);
    assert_eq!(Response::server_error().status.code, 500);
    let response = Response::with_status(Status::new(201), vec![1, 2]);
    assert_eq!(response.status.code, 201);
    assert_eq!(response.body.expect("a body").size, 2);
}

#[test]
fn responders_become_responses() {
    let plain = "hi".respond().expect("a response");
    assert_eq!(plain.status.code, 200);
    assert_eq!(plain.headers[0].name, "Content-Type");
    assert_eq!(plain.headers[0].value, "text/plain");
    assert_eq!(plain.body.expect("a body").content, b"hi".to_vec());
    let html = "<p>".to_string().respond().expect("a response");
    assert_eq!(html.headers[0].value, "text/html");
    assert_eq!(html.body.expect("a body").size, 3);
    let made = text_response("a/b", "\u{e9}");
    assert_eq!(made.body.expect("a body").size, 2);
    assert!(Response::not_found().respond().expect("a response").status.code == 404);
}

#[test]
fn missing_values_go_to_catchers() {
    let none: Option<&str> = None;
    assert_eq!(none.respond().err(), Some(Status::new(404)));
    assert!(Some("x").respond().is_ok());
    assert_eq!(Failure(Status::new(403)).respond().err(), Some(Status::new(403)));
    let failed: Result<&str, Failure> = Err(Failure(Status::new(500)));
    assert_eq!(failed.respond().err(), Some(Status::new(500)));
    let fine: Result<&str, Failure> = Ok("x");
    assert!(fine.respond().is_ok());
    let either: Result<&str, String> = Err("other".to_string());
    assert_eq!(either.respond().expect("a response").headers[0].value, "text/html");
}

#[test]
fn not_found_is_told_from_other_config_errors() {
    assert!(ConfigError::NotFound.is_not_found());
    assert!(!ConfigError::BadCWD.is_not_found());
    assert!(!ConfigError::IOError.is_not_found());
    assert!(!ConfigError::BadEnv("x".to_string()).is_not_found());
    let error = ParsingError { byte_range: (0, 1), start: (0, 0), end: (0, 1), desc: "bad".to_string() };
    assert_eq!(error.clone(), error);
    assert!(!ConfigError::ParseError("x".to_string(), "f".to_string(), vec![error]).is_not_found());
}

#[test]
fn stream_wraps_its_reader() {
    let stream = Stream::from(std::io::Cursor::new(vec![1u8, 2, 3]));
    assert_eq!(stream.into_inner().into_inner(), vec![1, 2, 3]);
}
