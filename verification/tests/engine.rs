use rocket::codegen::{is_valid_method, parse_rank};
use rocket::config::{Config, ConfigError, Environment, LoggingLevel, Value};
use rocket::error::LaunchError;
use rocket::http::{find_header, Header, Status};
use rocket::response::stream::{after_read, Next, ReadResult, CHUNK_SIZE};
use rocket::rocket::peek_method;
use rocket::router::route::Segment;
use rocket::router::Collision;
use rocket::testing::MockRequest;
use rocket::Method;
use rocket::Method::{Delete, Get, Head, Patch, Post, Put};
use rocket::{Answer, Catcher, Data, ErrorHandler, Handler, Outcome, Request, Response, Rocket, Route};

struct Echo(&'static str);

impl Handler for Echo {
    fn handle(&self, request: &Request, data: Data) -> Answer<Data> {
        let mut text = format!("{}:{:?}:", self.0, request.method).into_bytes();
        text.extend(data.into_inner());
        Answer::new(Outcome::Success(Response::with_status(Status::ok(), text)))
    }
}

struct Raw(Vec<u8>);

impl Handler for Raw {
    fn handle(&self, _request: &Request, _data: Data) -> Answer<Data> {
        Answer::new(Outcome::Success(Response::with_status(Status::ok(), self.0.clone())))
    }
}

struct Quiet;

impl ErrorHandler for Quiet {
    fn handle(&self, status: Status, _request: &Request) -> Answer<()> {
        Answer::new(Outcome::Success(Response::with_status(status, vec![])))
    }
}

fn engine() -> Rocket<Echo, Quiet> {
    rocket::ignite().mount(
        "/",
        vec![
            Route::new(Post, "/f".to_string(), Echo("post")),
            Route::new(Put, "/f".to_string(), Echo("put")),
            Route::new(Delete, "/f".to_string(), Echo("delete")),
            Route::new(Get, "/<a>/<b>".to_string(), Echo("get")),
        ],
    )
}

fn form_request(method: Method, content_type: &str) -> Request {
    Request::new(method, "/f".to_string(), vec![Header::new("Content-Type", content_type)])
}

const FORM: &str = "application/x-www-form-urlencoded";

#[test]
fn form_names_the_method() {
    let rocket = engine();
    let data = Data::new(b"_method=put&x=1".to_vec());
    let mut request = form_request(Post, FORM);
    rocket.preprocess_request(&mut request, &data);
    assert!(request.method == Put);
    let response = rocket.dispatch(&mut request, data);
    assert_eq!(response.body.expect("a body").content, b"put:Put:_method=put&x=1".to_vec());
}

#[test]
fn the_content_type_is_found_whatever_the_case() {
    let rocket = engine();
    let mut request =
        Request::new(Post, "/f".to_string(), vec![Header::new("content-type", FORM)]);
    rocket.preprocess_request(&mut request, &Data::new(b"_method=delete".to_vec()));
    assert!(request.method == Delete);
}

#[test]
fn method_is_kept_when_the_form_names_none() {
    let rocket = engine();
    let cases: Vec<(Method, &str, &[u8])> = vec![
        (Get, FORM, b"_method=put&x=1"),
        (Post, "text/plain", b"_method=put&x=1"),
        (Post, FORM, b"x=1&_method=put"),
        (Post, FORM, b"_method=pu"),
        (Post, FORM, b"_method=nothing"),
        (Post, FORM, b""),
    ];
    for (method, content_type, body) in cases {
        let mut request = form_request(method, content_type);
        rocket.preprocess_request(&mut request, &Data::new(body.to_vec()));
        assert!(request.method == method);
        assert_eq!(request.uri.as_str(), "/f");
        assert_eq!(request.headers.len(), 1);
    }
    let mut bare = Request::mock(Post, "/f");
    rocket.preprocess_request(&mut bare, &Data::new(b"_method=put&x=1".to_vec()));
    assert!(bare.method == Post);
}

#[test]
fn peek_reads_the_first_field_only() {
    assert!(peek_method(&b"_method=get".to_vec()) == Some(Get));
    assert!(peek_method(&b"_method=GET&a=b".to_vec()) == Some(Get));
    assert!(peek_method(&b"_method=Delete".to_vec()) == Some(Delete));
    assert!(peek_method(&b"_method=delete&more=1".to_vec()) == Some(Delete));
    assert!(peek_method(&b"_method=deleted".to_vec()) == Some(Delete));
    assert!(peek_method(&b"_method=patch&".to_vec()) == Some(Patch));
    assert!(peek_method(&b"_method=head".to_vec()) == Some(Head));
    assert!(peek_method(&b"_method=post&_method=put".to_vec()) == Some(Post));
    assert!(peek_method(&b"_method=ge".to_vec()).is_none());
    assert!(peek_method(&b"_method=options".to_vec()).is_none());
    assert!(peek_method(&b"_methods=get".to_vec()).is_none());
    assert!(peek_method(&b"a=b&_method=get".to_vec()).is_none());
    assert!(peek_method(&vec![]).is_none());
}

#[test]
fn methods_have_names() {
    let all = [
        (Method::Get, "GET"),
        (Method::Put, "PUT"),
        (Method::Post, "POST"),
        (Method::Delete, "DELETE"),
        (Method::Options, "OPTIONS"),
        (Method::Head, "HEAD"),
        (Method::Trace, "TRACE"),
        (Method::Connect, "CONNECT"),
        (Method::Patch, "PATCH"),
    ];
    for (i, (method, name)) in all.iter().enumerate() {
        assert_eq!(method.as_str(), *name);
        assert!(Method::from_str(name) == Some(*method));
        assert!(Method::from_str(&name.to_lowercase()) == Some(*method));
        assert_eq!(method.index() as usize, i);
        let bytes = format!("xx{}yy", name).into_bytes();
        assert!(Method::from_bytes(&bytes, 2, 2 + name.len()) == Some(*method));
    }
    assert!(Method::from_str("").is_none());
    assert!(Method::from_str("GETS").is_none());
    assert!(Method::from_str("G\u{e9}T").is_none());
}

#[test]
fn first_header_of_a_name_is_found() {
    let headers = vec![Header::new("A", "1"), Header::new("B", "2"), Header::new("A", "3")];
    assert_eq!(find_header(&headers, "A").map(|h| h.value.as_str()), Some("1"));
    assert_eq!(find_header(&headers, "B").map(|h| h.value.as_str()), Some("2"));
    assert!(find_header(&headers, "C").is_none());
    assert!(find_header(&vec![], "A").is_none());
    assert_eq!(headers[1].clone().name, "B");
}

#[test]
fn routes_and_catchers_are_listed() {
    let rocket = engine().register(vec![
        Catcher::new(404, Quiet),
        Catcher::new(500, Quiet),
        Catcher::any(Quiet),
    ]);
    let mut paths: Vec<(String, String)> = rocket
        .routes()
        .iter()
        .map(|r| (r.method.as_str().to_string(), r.path.to_string()))
        .collect();
    paths.sort();
    assert_eq!(
        paths,
        vec![
            ("DELETE".to_string(), "/f".to_string()),
            ("GET".to_string(), "/<a>/<b>".to_string()),
            ("POST".to_string(), "/f".to_string()),
            ("PUT".to_string(), "/f".to_string()),
        ]
    );
    let mut codes: Vec<Option<u16>> = rocket.catchers().iter().map(|c| c.code).collect();
    assert_eq!(codes.len(), 3);
    assert_eq!(codes.last(), Some(&None));
    codes.sort();
    assert_eq!(codes, vec![None, Some(404), Some(500)]);
    let empty: Rocket<Echo, Quiet> = Rocket::ignite();
    assert!(empty.routes().is_empty());
    assert!(empty.catchers().is_empty());
}

#[test]
fn collisions_stop_the_launch_only_when_asked_to() {
    let fine = engine();
    assert!(matches!(fine.prelaunch_check(vec![], false), Ok(found) if found.is_empty()));
    assert!(matches!(fine.prelaunch_check(vec![], true), Ok(found) if found.is_empty()));
    for strict in [false, true] {
        match fine.prelaunch_check(vec!["broken".to_string()], strict) {
            Err(LaunchError::FailedFairings(names)) => assert_eq!(names, vec!["broken"]),
            _ => panic!("expected failed fairings"),
        }
    }
    let colliding = engine().mount("/", vec![Route::new(Get, "/x/<y>".to_string(), Echo("more"))]);
    let pair = vec![Collision { method: Get, segments: 2, first: 0, second: 1 }];
    match colliding.prelaunch_check(vec![], false) {
        Ok(found) => assert_eq!(found, pair),
        _ => panic!("expected the collisions to be given back"),
    }
    match colliding.prelaunch_check(vec!["broken".to_string()], false) {
        Err(LaunchError::FailedFairings(names)) => assert_eq!(names, vec!["broken"]),
        _ => panic!("expected failed fairings"),
    }
    for failures in [vec![], vec!["broken".to_string()]] {
        match colliding.prelaunch_check(failures, true) {
            Err(LaunchError::Collision(found)) => assert_eq!(found, pair),
            _ => panic!("expected a collision"),
        }
    }
}

#[test]
fn routes_are_listed_as_often_as_they_are_mounted() {
    let rocket: Rocket<Echo, Quiet> = rocket::ignite()
        .mount("/", vec![Route::new(Get, "/hello".to_string(), Echo("a"))])
        .mount("/hi", vec![Route::new(Get, "/hello".to_string(), Echo("b"))]);
    let mut paths: Vec<String> = rocket.routes().iter().map(|r| r.path.to_string()).collect();
    paths.sort();
    assert_eq!(paths, vec!["/hello", "/hi/hello"]);
    let twice = rocket.mount("/", vec![Route::new(Get, "/hello".to_string(), Echo("c"))]);
    assert_eq!(twice.routes().len(), 3);
    let same: Vec<&str> = twice
        .routes()
        .into_iter()
        .filter(|r| r.component_count() == 1)
        .map(|r| r.handler.0)
        .collect();
    assert_eq!(same, vec!["a", "c"]);
    let one: Rocket<Echo, Quiet> =
        rocket::ignite().mount("/", vec![Route::new(Get, "/".to_string(), Echo("a"))]);
    assert_eq!(one.routes().len(), 1);
}

#[test]
fn mock_requests_are_answered_as_text() {
    let rocket = engine();
    let mut mock = MockRequest::new(Post, "/f")
        .headers(&vec![("Content-Type", "text/plain"), ("X", "a;b")])
        .body("hello");
    assert_eq!(mock.request.headers.len(), 2);
    assert_eq!(mock.request.headers[1].value, "a;b");
    assert_eq!(mock.dispatch_with(&rocket), Some("post:Post:hello".to_string()));
    assert!(mock.data.bytes.is_empty());
    assert_eq!(mock.dispatch_with(&rocket), Some("post:Post:".to_string()));
    let mut missing = MockRequest::new(Get, "/nowhere");
    assert_eq!(missing.dispatch_with(&rocket.register(vec![Catcher::new(404, Quiet)])), Some(String::new()));
}

#[test]
fn bodies_that_hold_no_text_give_nothing() {
    let rocket: Rocket<Raw, Quiet> =
        Rocket::ignite().mount("/", vec![Route::new(Get, "/".to_string(), Raw(vec![0xff, 0xfe]))]);
    assert_eq!(MockRequest::new(Get, "/").dispatch_with(&rocket), None);
    let rocket: Rocket<Raw, Quiet> = Rocket::ignite()
        .mount("/", vec![Route::new(Get, "/".to_string(), Raw("caf\u{e9}".as_bytes().to_vec()))]);
    assert_eq!(MockRequest::new(Get, "/").dispatch_with(&rocket), Some("caf\u{e9}".to_string()));
}

#[test]
fn declared_methods_and_ranks() {
    for method in [Get, Put, Post, Delete, Patch] {
        assert!(is_valid_method(method));
    }
    for method in [Head, Method::Options, Method::Trace, Method::Connect] {
        assert!(!is_valid_method(method));
    }
    assert_eq!(parse_rank(0), Some(0));
    assert_eq!(parse_rank(10), Some(10));
    assert_eq!(parse_rank(isize::MAX as u64), Some(isize::MAX));
    assert_eq!(parse_rank(isize::MAX as u64 + 1), None);
    assert_eq!(parse_rank(u64::MAX), None);
}

#[test]
fn pieces_are_sent_when_full_or_at_the_end() {
    assert_eq!(CHUNK_SIZE, 4096);
    assert_eq!(after_read(0, 4096, ReadResult::Read(100)), Next::Fill { from: 100 });
    assert_eq!(after_read(100, 4096, ReadResult::Read(3996)), Next::Send { len: 4096, last: false });
    assert_eq!(after_read(100, 4096, ReadResult::Read(0)), Next::Send { len: 100, last: true });
    assert_eq!(after_read(0, 4096, ReadResult::Read(0)), Next::Send { len: 0, last: true });
    assert_eq!(after_read(7, 4096, ReadResult::Interrupted), Next::Fill { from: 7 });
    assert_eq!(after_read(7, 4096, ReadResult::Failed), Next::Abort);
}

#[test]
fn templates_tell_static_from_dynamic() {
    let route = Route::new(Get, "/a/<b>//c<d>/<>/<e".to_string(), ());
    let pattern: Vec<String> = route
        .pattern()
        .into_iter()
        .map(|segment| match segment {
            Segment::Static(text) => format!("static {}", text),
            Segment::Dynamic(name) => format!("dynamic {}", name),
        })
        .collect();
    assert_eq!(pattern, vec!["static a", "dynamic b", "static c<d>", "dynamic ", "static <e"]);
}

#[test]
fn defaults_depend_on_the_environment() {
    let dev = Config::default_for(Environment::Development, "/dir/Rocket.toml", true).expect("a config");
    assert_eq!((dev.address.as_str(), dev.port), ("localhost", 8000));
    assert!(dev.log_level == LoggingLevel::Normal && dev.env == Environment::Development);
    assert_eq!(dev.filename, "/dir/Rocket.toml");
    assert!(dev.session_key.is_none() && dev.extras().is_empty());
    let stage = Config::default_for(Environment::Staging, "Rocket.toml", true).expect("a config");
    assert_eq!((stage.address.as_str(), stage.port), ("0.0.0.0", 80));
    assert!(stage.log_level == LoggingLevel::Normal);
    let prod = Config::default_for(Environment::Production, "Rocket.toml", true).expect("a config");
    assert_eq!((prod.address.as_str(), prod.port), ("0.0.0.0", 80));
    assert!(prod.log_level == LoggingLevel::Critical);
    for name in ["", "/", "//", "/.", "/./."] {
        let has_parent = std::path::Path::new(name).parent().is_some();
        assert!(!has_parent);
        match Config::default_for(Environment::Development, name, has_parent) {
            Err(ConfigError::BadFilePath(path, reason)) => {
                assert_eq!(path, name);
                assert_eq!(reason, "Configuration files must be rooted in a directory.");
            }
            _ => panic!("expected a bad file path"),
        }
    }
}

fn staging() -> Config {
    Config::default_for(Environment::Staging, "/dir/Rocket.toml", true).expect("a config")
}

fn text(value: &str) -> Value {
    Value::String(value.to_string())
}

fn bad_type(config: &mut Config, name: &str, value: Value, resolves: bool) -> (String, String, String, String) {
    match config.set(name, &value, resolves) {
        Err(ConfigError::BadType(id, expected, actual, file)) => (id, expected.to_string(), actual.to_string(), file),
        _ => panic!("expected a bad type"),
    }
}

#[test]
fn entries_are_held_to_their_rules() {
    let mut config = staging();
    assert!(config.set("address", &text("127.0.0.1"), true).is_ok());
    assert_eq!(config.address, "127.0.0.1");
    assert!(config.set("port", &Value::Integer(8080), false).is_ok());
    assert_eq!(config.port, 8080);
    assert!(config.set("session_key", &text("01234567890123456789012345678901"), false).is_ok());
    assert_eq!(config.session_key.as_deref(), Some("01234567890123456789012345678901"));
    let short = "\u{e9}".repeat(16);
    assert_eq!(short.len(), 32);
    assert!(config.set("session_key", &text(&short), false).is_ok());
    assert_eq!(config.session_key.as_deref(), Some(short.as_str()));
    assert!(config.set("log", &text("debug"), false).is_ok());
    assert!(config.log_level == LoggingLevel::Debug);
    assert!(config.set("log", &text("critical"), false).is_ok());
    assert!(config.log_level == LoggingLevel::Critical);
    assert!(config.set("log", &text("normal"), false).is_ok());
    assert!(config.log_level == LoggingLevel::Normal);
    assert!(config.extras().is_empty());
}

#[test]
fn refused_values_change_nothing() {
    let mut config = staging();
    let file = "/dir/Rocket.toml".to_string();
    let e = |id: &str, expected: &str, actual: &str| (id.to_string(), expected.to_string(), actual.to_string(), file.clone());
    assert_eq!(bad_type(&mut config, "address", Value::Integer(1), true), e("staging.address", "a string", "integer"));
    assert_eq!(bad_type(&mut config, "address", text("host:80"), true), e("staging.address", "an IP address with no port", "string"));
    assert_eq!(bad_type(&mut config, "address", text("nowhere"), false), e("staging.address", "a valid IP address", "string"));
    assert_eq!(bad_type(&mut config, "port", text("80"), true), e("staging.port", "an integer", "string"));
    assert_eq!(bad_type(&mut config, "port", Value::Integer(-1), true), e("staging.port", "an unsigned integer", "integer"));
    assert_eq!(bad_type(&mut config, "session_key", text("short"), true), e("staging.session_key", "a 192-bit base64 string", "string"));
    assert_eq!(bad_type(&mut config, "session_key", Value::Boolean(true), true), e("staging.session_key", "a string", "boolean"));
    let long = "\u{e9}".repeat(32);
    assert_eq!(long.chars().count(), 32);
    assert_eq!(bad_type(&mut config, "session_key", text(&long), true), e("staging.session_key", "a 192-bit base64 string", "string"));
    assert_eq!(bad_type(&mut config, "log", text("loud"), true), e("staging.log", "log level ('normal', 'critical', 'debug')", "string"));
    assert_eq!(bad_type(&mut config, "log", Value::Float("1.5".to_string()), true), e("staging.log", "a string", "float"));
    assert_eq!((config.address.as_str(), config.port), ("0.0.0.0", 80));
    assert!(config.session_key.is_none() && config.log_level == LoggingLevel::Normal);
    assert!(config.extras().is_empty());
}

#[test]
fn other_entries_are_kept_and_read_back() {
    let mut config = staging();
    assert!(config.set("name", &text("first"), false).is_ok());
    assert!(config.set("count", &Value::Integer(3), false).is_ok());
    assert!(config.set("on", &Value::Boolean(true), false).is_ok());
    assert!(config.set("name", &text("second"), false).is_ok());
    assert!(config.set("list", &Value::Array("[1, 2]".to_string()), false).is_ok());
    assert_eq!(config.extras().len(), 4);
    let names: Vec<&str> = config.extras().iter().map(|entry| entry.0.as_str()).collect();
    assert_eq!(names, vec!["name", "count", "on", "list"]);
    assert_eq!(config.get_str("name").ok(), Some("second"));
    assert_eq!(config.get_int("count").ok(), Some(3));
    assert_eq!(config.get_bool("on").ok(), Some(true));
    assert!(config.get_str("missing").err().expect("an error").is_not_found());
    assert!(config.get_int("missing").err().expect("an error").is_not_found());
    assert!(config.get_bool("missing").err().expect("an error").is_not_found());
    assert!(matches!(config.get_str("count"), Err(ConfigError::BadType(_, "a string", "integer", _))));
    assert!(matches!(config.get_int("name"), Err(ConfigError::BadType(_, "an integer", "string", _))));
    assert!(matches!(config.get_bool("list"), Err(ConfigError::BadType(_, "a boolean", "array", _))));
    assert!(config.get("list").is_some() && config.get("nothing").is_none());
}

#[test]
fn tables_apply_to_their_environment() {
    let config = staging();
    assert!(matches!(config.applies("staging"), Ok(true)));
    assert!(matches!(config.applies("stage"), Ok(true)));
    assert!(matches!(config.applies("dev"), Ok(false)));
    assert!(matches!(config.applies("production"), Ok(false)));
    match config.applies("testing") {
        Err(ConfigError::BadEntry(name, file)) => {
            assert_eq!(name, "testing");
            assert_eq!(file, "/dir/Rocket.toml");
        }
        _ => panic!("expected a bad entry"),
    }
}

#[test]
fn configurations_are_built_step_by_step() {
    let mut config = staging()
        .address("example".to_string())
        .port(1)
        .log_level(LoggingLevel::Debug)
        .session_key("key".to_string())
        .env(Environment::Production);
    assert_eq!((config.address.as_str(), config.port), ("example", 1));
    assert!(config.log_level == LoggingLevel::Debug && config.env == Environment::Production);
    assert_eq!(config.take_session_key(), Some("key".to_string()));
    assert_eq!(config.take_session_key(), None);
    assert_eq!(config.filename, "/dir/Rocket.toml");
}

#[test]
fn environments_and_levels_have_names() {
    assert!(Environment::from_str("development") == Some(Environment::Development));
    assert!(Environment::from_str("dev") == Some(Environment::Development));
    assert!(Environment::from_str("staging") == Some(Environment::Staging));
    assert!(Environment::from_str("stage") == Some(Environment::Staging));
    assert!(Environment::from_str("production") == Some(Environment::Production));
    assert!(Environment::from_str("prod") == Some(Environment::Production));
    assert!(Environment::from_str("Production").is_none());
    assert_eq!(Environment::Staging.as_str(), "staging");
    assert_eq!(Environment::valid(), "development, staging, production");
    assert!(LoggingLevel::from_str("critical") == Some(LoggingLevel::Critical));
    assert!(LoggingLevel::from_str("normal") == Some(LoggingLevel::Normal));
    assert!(LoggingLevel::from_str("debug") == Some(LoggingLevel::Debug));
    assert!(LoggingLevel::from_str("").is_none());
    assert_eq!(Value::Datetime("x".to_string()).type_str(), "datetime");
    assert_eq!(Value::Table("x".to_string()).type_str(), "table");
    assert_eq!(text("x").clone().as_str(), Some("x"));
    assert_eq!(Value::Integer(4).as_integer(), Some(4));
    assert_eq!(Value::Boolean(false).as_bool(), Some(false));
    assert_eq!(text("x").as_integer(), None);
}
