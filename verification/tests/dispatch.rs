use rocket::catcher::{INTERNAL_ERROR_PAGE, NOT_FOUND_PAGE};
use rocket::http::{Header, Status};
use rocket::response::Body;
use rocket::rocket::{
    after_answer, after_catcher, after_pass, finish, merge, uncaught, Conclusion, Step,
};
use rocket::router::template::{is_parsable_template, is_valid_mount_point};
use rocket::Method::{Get, Head, Post};
use rocket::{Answer, Catcher, Data, ErrorHandler, Handler, Outcome, Request, Response, Rocket, Route};
use std::cell::RefCell;
use std::rc::Rc;

type Log = Rc<RefCell<Vec<String>>>;

enum Script {
    Succeed(&'static str),
    Fail(u16),
    Decline,
    DeclineAndEat(usize),
    EchoParam(usize),
    EchoData,
}

struct Scripted {
    name: &'static str,
    script: Script,
    cookie: Option<&'static str>,
    log: Log,
}

fn page(status: u16, text: &str) -> Response {
    Response::with_raw_status(status, text.as_bytes().to_vec())
}

impl Handler for Scripted {
    fn handle(&self, request: &Request, data: Data) -> Answer<Data> {
        self.log.borrow_mut().push(format!("{}:{:?}", self.name, request.method));
        let outcome = match self.script {
            Script::Succeed(text) => Outcome::Success(page(200, text)),
            Script::Fail(code) => Outcome::Failure(Status::new(code)),
            Script::Decline => Outcome::Forward(data),
            Script::DeclineAndEat(n) => {
                let mut bytes = data.into_inner();
                bytes.drain(..n.min(bytes.len()));
                Outcome::Forward(Data::new(bytes))
            }
            Script::EchoParam(n) => match request.get_param::<String>(n) {
                Ok(value) => Outcome::Success(page(200, &value)),
                Err(_) => Outcome::Forward(data),
            },
            Script::EchoData => {
                let bytes = data.into_inner();
                Outcome::Success(Response::with_raw_status(200, bytes))
            }
        };
        let mut answer = Answer::new(outcome);
        if let Some(value) = self.cookie {
            answer.delta.push(Header::new("Set-Cookie", value));
        }
        answer
    }
}

enum Caught {
    Answer(&'static str),
    Forward,
    Fail,
}

struct Catch {
    name: &'static str,
    script: Caught,
    cookie: Option<&'static str>,
    log: Log,
}

impl ErrorHandler for Catch {
    fn handle(&self, status: Status, _request: &Request) -> Answer<()> {
        self.log.borrow_mut().push(format!("{}:{}", self.name, status.code));
        let outcome = match self.script {
            Caught::Answer(text) => Outcome::Success(page(status.code, text)),
            Caught::Forward => Outcome::Forward(()),
            Caught::Fail => Outcome::Failure(Status::new(500)),
        };
        let mut answer = Answer::new(outcome);
        if let Some(value) = self.cookie {
            answer.delta.push(Header::new("Set-Cookie", value));
        }
        answer
    }
}

struct Bench {
    log: Log,
}

impl Bench {
    fn new() -> Bench {
        Bench { log: Rc::new(RefCell::new(vec![])) }
    }

    fn route(&self, rank: isize, method: rocket::Method, path: &str, name: &'static str, script: Script) -> Route<Scripted> {
        Route::ranked(
            rank,
            method,
            path.to_string(),
            Scripted { name, script, cookie: None, log: self.log.clone() },
        )
    }

    fn route_with_cookie(
        &self,
        rank: isize,
        path: &str,
        name: &'static str,
        script: Script,
        cookie: &'static str,
    ) -> Route<Scripted> {
        Route::ranked(
            rank,
            Get,
            path.to_string(),
            Scripted { name, script, cookie: Some(cookie), log: self.log.clone() },
        )
    }

    fn catcher(&self, code: Option<u16>, name: &'static str, script: Caught) -> Catcher<Catch> {
        let handler = Catch { name, script, cookie: None, log: self.log.clone() };
        match code {
            Some(code) => Catcher::new(code, handler),
            None => Catcher::any(handler),
        }
    }

    fn log(&self) -> Vec<String> {
        self.log.borrow().clone()
    }
}

fn body_text(response: &Response) -> String {
    match &response.body {
        Some(body) => String::from_utf8(body.content.clone()).expect("text"),
        None => String::new(),
    }
}

fn header_lines(response: &Response) -> Vec<(String, String)> {
    response.headers.iter().map(|h| (h.name.clone(), h.value.clone())).collect()
}

fn line(name: &str, value: &str) -> (String, String) {
    (name.to_string(), value.to_string())
}

fn dispatch(rocket: &Rocket<Scripted, Catch>, method: rocket::Method, uri: &str, body: &str) -> Response {
    let mut request = Request::mock(method, uri);
    rocket.dispatch(&mut request, Data::new(body.as_bytes().to_vec()))
}

#[test]
fn first_success_after_forwards_answers() {
    let bench = Bench::new();
    let rocket = Rocket::ignite().mount(
        "/",
        vec![
            bench.route(3, Get, "/x", "d", Script::Succeed("fourth")),
            bench.route(2, Get, "/x", "c", Script::Succeed("third")),
            bench.route(0, Get, "/x", "a", Script::Decline),
            bench.route(1, Get, "/<any>", "b", Script::Decline),
        ],
    );
    let response = dispatch(&rocket, Get, "/x", "");
    assert_eq!(bench.log(), vec!["a:Get", "b:Get", "c:Get"]);
    assert_eq!(response.status.code, 200);
    assert_eq!(body_text(&response), "third");
    assert_eq!(header_lines(&response), vec![line("Server", "Rocket")]);
}

#[test]
fn a_handler_is_called_at_most_once() {
    let bench = Bench::new();
    let rocket = Rocket::ignite().mount(
        "/",
        vec![
            bench.route(0, Get, "/x", "a", Script::Decline),
            bench.route(0, Get, "/x", "b", Script::Decline),
        ],
    );
    let response = dispatch(&rocket, Get, "/x", "");
    assert_eq!(bench.log(), vec!["a:Get", "b:Get"]);
    assert_eq!(response.status.code, 404);
    assert_eq!(body_text(&response), NOT_FOUND_PAGE);
}

#[test]
fn forwarded_input_reaches_the_next_candidate() {
    let bench = Bench::new();
    let rocket = Rocket::ignite().mount(
        "/",
        vec![
            bench.route(0, Post, "/x", "a", Script::DeclineAndEat(2)),
            bench.route(1, Post, "/x", "b", Script::DeclineAndEat(1)),
            bench.route(2, Post, "/x", "c", Script::EchoData),
        ],
    );
    let response = dispatch(&rocket, Post, "/x", "abcdef");
    assert_eq!(body_text(&response), "def");
    assert_eq!(bench.log(), vec!["a:Post", "b:Post", "c:Post"]);
}

#[test]
fn route_gives_the_last_forward_when_all_decline() {
    let bench = Bench::new();
    let rocket: Rocket<Scripted, Catch> = Rocket::ignite().mount(
        "/",
        vec![bench.route(0, Post, "/x", "a", Script::DeclineAndEat(4))],
    );
    let mut request = Request::mock(Post, "/x");
    let answer = rocket.route(&mut request, Data::new(b"abcdef".to_vec()));
    match answer.outcome {
        Outcome::Forward(rest) => assert_eq!(rest.into_inner(), b"ef".to_vec()),
        _ => panic!("expected a forward"),
    }
    assert!(answer.delta.is_empty());
    let mut request = Request::mock(Get, "/nothing");
    let answer = rocket.route(&mut request, Data::new(b"abc".to_vec()));
    match answer.outcome {
        Outcome::Forward(rest) => assert_eq!(rest.into_inner(), b"abc".to_vec()),
        _ => panic!("expected a forward"),
    }
}

#[test]
fn failure_ends_the_pass_and_goes_to_its_catcher() {
    let bench = Bench::new();
    let rocket = Rocket::ignite()
        .mount(
            "/",
            vec![
                bench.route(0, Get, "/x", "a", Script::Fail(403)),
                bench.route(1, Get, "/x", "b", Script::Succeed("never")),
            ],
        )
        .register(vec![
            bench.catcher(Some(403), "forbidden", Caught::Answer("no")),
            bench.catcher(Some(404), "missing", Caught::Answer("gone")),
        ]);
    let response = dispatch(&rocket, Get, "/x", "");
    assert_eq!(bench.log(), vec!["a:Get", "forbidden:403"]);
    assert_eq!(response.status.code, 403);
    assert_eq!(body_text(&response), "no");
}

#[test]
fn unmatched_head_is_answered_by_get_without_body() {
    let bench = Bench::new();
    let rocket = Rocket::ignite().mount(
        "/",
        vec![bench.route_with_cookie(0, "/x", "get", Script::Succeed("hello"), "k=v")],
    );
    let plain = dispatch(&rocket, Get, "/x", "");
    let mut request = Request::mock(Head, "/x");
    let response = rocket.dispatch(&mut request, Data::new(vec![]));
    assert!(request.method == Get);
    assert_eq!(bench.log(), vec!["get:Get", "get:Get"]);
    assert_eq!(response.status.code, plain.status.code);
    assert_eq!(header_lines(&response), header_lines(&plain));
    assert_eq!(header_lines(&response), vec![line("Set-Cookie", "k=v"), line("Server", "Rocket")]);
    let body = response.body.expect("a body");
    assert!(body.content.is_empty());
    assert_eq!(body.size, 5);
    assert_eq!(plain.body.expect("a body").size, 5);
}

#[test]
fn head_route_of_its_own_is_tried_first() {
    let bench = Bench::new();
    let rocket = Rocket::ignite().mount(
        "/",
        vec![
            bench.route(0, Head, "/x", "head", Script::Decline),
            bench.route(0, Get, "/x", "get", Script::Succeed("hello")),
        ],
    );
    let response = dispatch(&rocket, Head, "/x", "");
    assert_eq!(bench.log(), vec!["head:Head", "get:Get"]);
    assert_eq!(response.status.code, 200);
    assert_eq!(response.body.expect("a body").size, 5);
}

#[test]
fn head_without_any_route_is_not_found_without_body() {
    let bench = Bench::new();
    let rocket = Rocket::ignite().mount("/", vec![bench.route(0, Post, "/x", "p", Script::Decline)]);
    let response = dispatch(&rocket, Head, "/x", "");
    assert!(bench.log().is_empty());
    assert_eq!(response.status.code, 404);
    let body = response.body.expect("a body");
    assert!(body.content.is_empty());
    assert_eq!(body.size, NOT_FOUND_PAGE.len());
}

#[test]
fn get_is_not_retried() {
    let bench = Bench::new();
    let rocket: Rocket<Scripted, Catch> =
        Rocket::ignite().mount("/", vec![bench.route(0, Get, "/x", "a", Script::Decline)]);
    let mut request = Request::mock(Get, "/x");
    let response = rocket.dispatch(&mut request, Data::new(vec![]));
    assert!(request.method == Get);
    assert_eq!(bench.log(), vec!["a:Get"]);
    assert_eq!(response.status.code, 404);
}

#[test]
fn forwarding_catcher_hands_on_to_the_default_catcher() {
    let bench = Bench::new();
    let rocket = Rocket::ignite().register(vec![
        bench.catcher(Some(404), "missing", Caught::Forward),
        bench.catcher(None, "all", Caught::Answer("from the default catcher")),
    ]);
    let response = dispatch(&rocket, Get, "/nowhere", "");
    assert_eq!(bench.log(), vec!["missing:404", "all:404"]);
    assert_eq!(response.status.code, 404);
    assert_eq!(body_text(&response), "from the default catcher");
}

#[test]
fn forwarding_catcher_without_default_gets_the_builtin_answer() {
    let bench = Bench::new();
    let rocket = Rocket::ignite().register(vec![bench.catcher(Some(404), "missing", Caught::Forward)]);
    let response = dispatch(&rocket, Get, "/nowhere", "");
    assert_eq!(bench.log(), vec!["missing:404"]);
    assert_eq!(response.status.code, 500);
    assert_eq!(body_text(&response), INTERNAL_ERROR_PAGE);
}

#[test]
fn failing_catchers_end_in_the_builtin_answer() {
    let bench = Bench::new();
    let rocket = Rocket::ignite().register(vec![
        bench.catcher(Some(404), "missing", Caught::Fail),
        bench.catcher(None, "all", Caught::Forward),
    ]);
    let response = dispatch(&rocket, Get, "/nowhere", "");
    assert_eq!(bench.log(), vec!["missing:404", "all:404"]);
    assert_eq!(response.status.code, 500);
    assert_eq!(body_text(&response), INTERNAL_ERROR_PAGE);
    assert_eq!(header_lines(&response), vec![line("Server", "Rocket")]);
}

#[test]
fn default_catcher_answers_statuses_without_a_catcher() {
    let bench = Bench::new();
    let rocket = Rocket::ignite()
        .mount("/", vec![bench.route(0, Get, "/x", "a", Script::Fail(418))])
        .register(vec![
            bench.catcher(Some(404), "missing", Caught::Answer("gone")),
            bench.catcher(None, "all", Caught::Answer("teapot")),
        ]);
    let response = dispatch(&rocket, Get, "/x", "");
    assert_eq!(bench.log(), vec!["a:Get", "all:418"]);
    assert_eq!(response.status.code, 418);
    assert_eq!(body_text(&response), "teapot");
}

#[test]
fn no_catcher_at_all_gets_the_builtin_answer_to_the_status() {
    let bench = Bench::new();
    let rocket = Rocket::ignite().mount("/", vec![bench.route(0, Get, "/x", "a", Script::Fail(418))]);
    let missing = dispatch(&rocket, Get, "/y", "");
    assert_eq!(missing.status.code, 404);
    assert_eq!(body_text(&missing), NOT_FOUND_PAGE);
    let failed = dispatch(&rocket, Get, "/x", "");
    assert_eq!(failed.status.code, 500);
    assert_eq!(body_text(&failed), INTERNAL_ERROR_PAGE);
}

#[test]
fn handle_error_asks_the_catcher_of_the_status_first() {
    let bench = Bench::new();
    let rocket: Rocket<Scripted, Catch> = Rocket::ignite().register(vec![
        bench.catcher(None, "all", Caught::Answer("any")),
        bench.catcher(Some(500), "broken", Caught::Answer("oops")),
    ]);
    let request = Request::mock(Get, "/");
    let response = rocket.handle_error(Status::internal_server_error(), &request);
    assert_eq!(body_text(&response), "oops");
    let response = rocket.handle_error(Status::not_found(), &request);
    assert_eq!(body_text(&response), "any");
    assert_eq!(bench.log(), vec!["broken:500", "all:404"]);
}

#[test]
fn static_route_of_rank_zero_answers_before_the_dynamic_one() {
    let bench = Bench::new();
    let rocket = Rocket::ignite().mount(
        "/",
        vec![
            bench.route(1, Get, "/hello/<name>", "dynamic", Script::EchoParam(0)),
            bench.route(0, Get, "/hello/bob", "static", Script::Succeed("the static route")),
        ],
    );
    let response = dispatch(&rocket, Get, "/hello/bob", "");
    assert_eq!(bench.log(), vec!["static:Get"]);
    assert_eq!(body_text(&response), "the static route");
    let response = dispatch(&rocket, Get, "/hello/alice", "");
    assert_eq!(body_text(&response), "alice");
}

#[test]
fn params_are_bound_for_the_route_that_is_tried() {
    let bench = Bench::new();
    let rocket = Rocket::ignite().mount(
        "/",
        vec![
            bench.route(0, Get, "/<a>/<b>", "second", Script::EchoParam(1)),
            bench.route(1, Get, "/<a>/x", "first", Script::EchoParam(1)),
        ],
    );
    assert_eq!(body_text(&dispatch(&rocket, Get, "/p/q", "")), "q");
    let bench = Bench::new();
    let rocket = Rocket::ignite().mount(
        "/",
        vec![
            bench.route(0, Get, "/<a>/x", "one", Script::EchoParam(1)),
            bench.route(1, Get, "/<a>/<b>", "two", Script::EchoParam(1)),
        ],
    );
    assert_eq!(body_text(&dispatch(&rocket, Get, "/p/x", "")), "x");
    assert_eq!(bench.log(), vec!["one:Get", "two:Get"]);
}

#[test]
fn only_the_winning_answer_leaves_headers() {
    let bench = Bench::new();
    let rocket = Rocket::ignite().mount(
        "/",
        vec![
            bench.route_with_cookie(0, "/x", "a", Script::Decline, "a=1"),
            bench.route_with_cookie(1, "/x", "b", Script::Succeed("ok"), "b=2"),
            bench.route_with_cookie(0, "/y", "c", Script::Fail(500), "c=3"),
        ],
    );
    let response = dispatch(&rocket, Get, "/x", "");
    assert_eq!(header_lines(&response), vec![line("Set-Cookie", "b=2"), line("Server", "Rocket")]);
    let response = dispatch(&rocket, Get, "/y", "");
    assert_eq!(response.status.code, 500);
    assert_eq!(header_lines(&response), vec![line("Server", "Rocket")]);
}

#[test]
fn catcher_headers_reach_the_error_response() {
    let bench = Bench::new();
    let handler = Catch { name: "missing", script: Caught::Answer("gone"), cookie: Some("e=1"), log: bench.log.clone() };
    let rocket: Rocket<Scripted, Catch> = Rocket::ignite().register(vec![Catcher::new(404, handler)]);
    let response = dispatch(&rocket, Get, "/nowhere", "");
    assert_eq!(header_lines(&response), vec![line("Set-Cookie", "e=1"), line("Server", "Rocket")]);
}

struct Fixed;

impl Handler for Fixed {
    fn handle(&self, _request: &Request, _data: Data) -> Answer<Data> {
        let mut response = Response::new();
        response.adjoin_header(Header::new("Server", "custom"));
        Answer::new(Outcome::Success(response))
    }
}

#[test]
fn server_header_of_the_handler_stays() {
    let rocket: Rocket<Fixed, Catch> =
        Rocket::ignite().mount("/", vec![Route::new(Get, "/".to_string(), Fixed)]);
    let mut request = Request::mock(Get, "/");
    let response = rocket.dispatch(&mut request, Data::new(vec![]));
    assert_eq!(header_lines(&response), vec![line("Server", "custom")]);
    assert!(response.body.is_none());
}

#[test]
fn route_and_process_does_not_finish_the_response() {
    let bench = Bench::new();
    let rocket: Rocket<Scripted, Catch> =
        Rocket::ignite().mount("/", vec![bench.route(0, Get, "/x", "a", Script::Succeed("hi"))]);
    let mut request = Request::mock(Head, "/x");
    let response = rocket.route_and_process(&mut request, Data::new(vec![]));
    assert!(header_lines(&response).is_empty());
    assert_eq!(body_text(&response), "hi");
    assert!(request.method == Get);
}

#[test]
fn mounted_routes_are_reached_below_the_mount_point() {
    let bench = Bench::new();
    let rocket = Rocket::ignite()
        .mount("/api/", vec![bench.route(0, Get, "/users/<id>", "user", Script::EchoParam(0))])
        .mount("/", vec![bench.route(0, Get, "/ping", "ping", Script::Succeed("pong"))]);
    assert_eq!(body_text(&dispatch(&rocket, Get, "/api/users/7", "")), "7");
    assert_eq!(dispatch(&rocket, Get, "/users/7", "").status.code, 404);
    assert_eq!(body_text(&dispatch(&rocket, Get, "/ping", "")), "pong");
    let paths: Vec<String> =
        rocket.router.candidates(Get, "/api/users/7").iter().map(|r| r.path.to_string()).collect();
    assert_eq!(paths, vec!["/api/users/<id>"]);
}

#[test]
fn mount_points_are_checked() {
    assert!(is_valid_mount_point("/"));
    assert!(is_valid_mount_point("/a/b"));
    assert!(!is_valid_mount_point(""));
    assert!(!is_valid_mount_point("a"));
    assert!(!is_valid_mount_point("/a?x=1"));
    assert!(!is_valid_mount_point("/<a>"));
    assert!(!is_valid_mount_point("/a>"));
    assert!(!is_valid_mount_point("/a b"));
    assert!(!is_valid_mount_point("/a#b"));
    assert!(!is_valid_mount_point("/caf\u{e9}"));
    assert!(is_valid_mount_point("/a-b/c.d/~e_f/%20/g:h@i/!$&'()*+,;="));
    assert!(is_valid_mount_point("//a//"));
}

#[test]
fn templates_are_checked() {
    for template in ["/", "/a", "/a/<b>", "/<a>/<b_2>/c", "/a<b>c", "/<a><b>", "//x//<y>//", "/%41"] {
        assert!(is_parsable_template(template), "{}", template);
    }
    for template in
        ["", "a", "<a>", "/<>", "/<a", "/a>", "/<a/b>", "/<<a>>", "/<a b>", "/a b", "/a?b", "/a#", "/<a>>", "/<a-b>"]
    {
        assert!(!is_parsable_template(template), "{}", template);
    }
}

#[test]
fn the_server_is_named_whatever_the_case() {
    let mut named = page(200, "abc");
    named.adjoin_header(Header::new("server", "mine"));
    assert_eq!(header_lines(&finish(named, false)), vec![line("server", "mine")]);
    let mut other = page(200, "abc");
    other.adjoin_header(Header::new("Servers", "mine"));
    assert_eq!(
        header_lines(&finish(other, false)),
        vec![line("Servers", "mine"), line("Server", "Rocket")]
    );
}

#[test]
fn later_catchers_replace_earlier_ones() {
    let bench = Bench::new();
    let rocket: Rocket<Scripted, Catch> = Rocket::ignite()
        .register(vec![
            bench.catcher(Some(404), "old", Caught::Answer("old")),
            bench.catcher(None, "old-all", Caught::Answer("old-all")),
        ])
        .catch(vec![
            bench.catcher(Some(404), "mid", Caught::Answer("mid")),
            bench.catcher(Some(404), "new", Caught::Answer("new")),
            bench.catcher(None, "new-all", Caught::Answer("new-all")),
        ]);
    assert_eq!(body_text(&dispatch(&rocket, Get, "/nowhere", "")), "new");
    let request = Request::mock(Get, "/");
    assert_eq!(body_text(&rocket.handle_error(Status::new(500), &request)), "new-all");
    assert_eq!(rocket.catchers.len(), 1);
    assert!(rocket.default_catcher.as_ref().expect("default").is_default());
    assert!(!rocket.catchers[&404].is_default());
    assert_eq!(rocket.catchers[&404].code, Some(404));
}

#[test]
fn strip_body_keeps_the_announced_length() {
    let mut response = page(200, "hello world");
    response.adjoin_header(Header::new("X", "1"));
    response.strip_body();
    assert_eq!(response.status.code, 200);
    assert_eq!(header_lines(&response), vec![line("X", "1")]);
    let Body { content, size } = response.body.expect("a body");
    assert!(content.is_empty());
    assert_eq!(size, 11);
    let mut empty = Response::not_found();
    empty.strip_body();
    assert!(empty.body.is_none());
}

fn answer_with(outcome: Outcome<Response, Status, Data>, cookie: &str) -> Answer<Data> {
    let mut answer = Answer::new(outcome);
    answer.delta.push(Header::new("Set-Cookie", cookie));
    answer
}

#[test]
fn a_forward_goes_on_and_anything_else_ends_the_pass() {
    match after_answer(answer_with(Outcome::Forward(Data::new(vec![7])), "a=1")) {
        Step::Next(rest) => assert_eq!(rest.into_inner(), vec![7]),
        Step::End(_) => panic!("expected the next step"),
    }
    match after_answer(answer_with(Outcome::Failure(Status::new(401)), "a=1")) {
        Step::End(answer) => {
            assert!(matches!(answer.outcome, Outcome::Failure(Status { code: 401 })));
            assert_eq!(answer.delta.len(), 1);
        }
        Step::Next(_) => panic!("expected the end"),
    }
    match after_answer(answer_with(Outcome::Success(page(200, "x")), "a=1")) {
        Step::End(answer) => assert!(answer.outcome.is_success()),
        Step::Next(_) => panic!("expected the end"),
    }
}

#[test]
fn a_pass_ends_in_a_response_a_retry_or_a_catcher() {
    match after_pass(Get, answer_with(Outcome::Success(page(201, "made")), "a=1")) {
        Conclusion::Respond(response) => {
            assert_eq!(response.status.code, 201);
            assert_eq!(body_text(&response), "made");
            assert_eq!(header_lines(&response), vec![line("Set-Cookie", "a=1")]);
        }
        _ => panic!("expected a response"),
    }
    for method in [Get, Head, Post] {
        match after_pass(method, answer_with(Outcome::Failure(Status::new(409)), "a=1")) {
            Conclusion::Catch(status) => assert_eq!(status.code, 409),
            _ => panic!("expected a catcher"),
        }
    }
    match after_pass(Head, answer_with(Outcome::Forward(Data::new(vec![1, 2])), "a=1")) {
        Conclusion::Retry(rest) => assert_eq!(rest.into_inner(), vec![1, 2]),
        _ => panic!("expected a retry"),
    }
    for method in [Get, Post] {
        match after_pass(method, answer_with(Outcome::Forward(Data::new(vec![1, 2])), "a=1")) {
            Conclusion::Catch(status) => assert_eq!(status.code, 404),
            _ => panic!("expected a catcher"),
        }
    }
}

#[test]
fn only_a_success_of_a_catcher_is_a_response() {
    let mut answer: Answer<()> = Answer::new(Outcome::Success(page(404, "gone")));
    answer.delta.push(Header::new("X", "1"));
    let response = after_catcher(answer).expect("a response");
    assert_eq!(header_lines(&response), vec![line("X", "1")]);
    assert_eq!(body_text(&response), "gone");
    assert!(after_catcher(Answer::new(Outcome::Forward(()))).is_none());
    assert!(after_catcher(Answer::new(Outcome::Failure(Status::new(500)))).is_none());
    assert_eq!(uncaught(Status::new(404), false).code, 404);
    assert_eq!(uncaught(Status::new(404), true).code, 500);
    assert_eq!(uncaught(Status::new(418), false).code, 418);
}

#[test]
fn finishing_names_the_server_and_strips_for_head() {
    let finished = finish(page(200, "abc"), false);
    assert_eq!(header_lines(&finished), vec![line("Server", "Rocket")]);
    assert_eq!(body_text(&finished), "abc");
    let mut named = page(200, "abc");
    named.adjoin_header(Header::new("Server", "mine"));
    named.adjoin_header(Header::new("X", "1"));
    let finished = finish(named, true);
    assert_eq!(header_lines(&finished), vec![line("Server", "mine"), line("X", "1")]);
    let body = finished.body.expect("a body");
    assert!(body.content.is_empty());
    assert_eq!(body.size, 3);
    let merged = merge(page(200, ""), vec![Header::new("A", "1"), Header::new("B", "2")]);
    assert_eq!(header_lines(&merged), vec![line("A", "1"), line("B", "2")]);
}
