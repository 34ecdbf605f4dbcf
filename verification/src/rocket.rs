//! The dispatch engine.
//!
//! A request is answered in passes over its candidates. In a pass the
//! candidates are tried in order, each at most once: a handler that succeeds
//! or fails ends the pass, a handler that declines hands the rest of the input
//! to the next one. A pass in which every candidate declined is repeated once
//! with the method `GET` when the method was `HEAD`. A request that no route
//! answered, and one whose handler failed, goes to the catchers: first to the
//! catcher of the status, then to the catcher of all statuses, and when
//! neither gives a response, the built-in answer is sent.

use crate::catcher::{is_builtin, Catcher};
use crate::error::LaunchError;
use crate::handler::{Answer, ErrorHandler, Handler};
use crate::http::{
    find_header, first_named, has_named, Header, Status, INTERNAL_SERVER_ERROR, NOT_FOUND,
};
use crate::method::{method_named, Method};
use crate::outcome::Outcome;
use crate::request::request::strings;
use crate::request::{Data, Request};
use crate::response::{is_stripped, Response};
use crate::router::route::{dedup, params_of, Route};
use crate::router::template::{parsable_template, valid_mount_point};
use crate::router::uri::{
    collapsed, lemma_collapsed_segments, lemma_segments_concat, lemma_segments_push, segments_of,
    SEPARATOR,
};
use crate::router::{
    are_candidates, is_candidate_order, lemma_candidate_order_unique, of_bucket, owned,
    Collision, Router, Strictness,
};
use std::collections::HashMap;
use vstd::prelude::*;
use vstd::std_specs::iter::IteratorSpec;

verus! {

broadcast use vstd::std_specs::hash::group_hash_axioms;

/// The name of the header that names the server.
pub const SERVER: &'static str = "Server";

/// The name by which the server calls itself.
pub const SERVER_NAME: &'static str = "Rocket";

/// One try of a route: the request as the handler saw it, the input that the
/// handler was given, and what the handler gave back.
pub struct Attempt {
    pub request: Request,
    pub data: Data,
    pub answer: Answer<Data>,
}

/// Whether two requests have the same method, path and headers.
pub open spec fn same_request(a: Request, b: Request) -> bool {
    a.method == b.method && a.uri == b.uri && a.headers == b.headers
}

/// Whether `attempt` is a try of `route` for `request` with the input `data`:
/// the handler of the route saw the request with the values bound that the
/// route takes from its path, was given `data`, and gave the answer back.
pub open spec fn is_attempt<H: Handler>(
    route: &Route<H>,
    request: Request,
    data: Data,
    attempt: Attempt,
) -> bool {
    &&& same_request(attempt.request, request)
    &&& strings(attempt.request.params@) == params_of(route.path@, request.uri@)
    &&& attempt.data == data
    &&& call_ensures(H::handle, (&route.handler, &attempt.request, attempt.data), attempt.answer)
}

/// The input that try `k` of a pass is given: the input of the pass for the
/// first try, and for every other try what the try before it handed on.
pub open spec fn input_of(attempts: Seq<Attempt>, data: Data, k: int) -> Data {
    if k <= 0 {
        data
    } else {
        attempts[k - 1].answer.outcome->Forward_0
    }
}

/// Whether `attempts` are the tries of one pass over `candidates`: the
/// candidates are tried in order and without a gap, every try but the last
/// declined, and the pass stops before the last candidate only after a try
/// that did not decline.
pub open spec fn is_walk<H: Handler>(
    candidates: Seq<&Route<H>>,
    request: Request,
    data: Data,
    attempts: Seq<Attempt>,
) -> bool {
    &&& attempts.len() <= candidates.len()
    &&& forall|k: int|
        0 <= k < attempts.len() ==> is_attempt(
            candidates[k],
            request,
            input_of(attempts, data, k),
            #[trigger] attempts[k],
        )
    &&& forall|k: int|
        0 <= k < attempts.len() - 1 ==> (#[trigger] attempts[k]).answer.outcome is Forward
    &&& attempts.len() < candidates.len() ==> attempts.len() > 0
        && !(attempts.last().answer.outcome is Forward)
}

/// The outcome of a pass: the outcome of its last try, and when there was no
/// try, a `Forward` of the input of the pass.
pub open spec fn pass_outcome(attempts: Seq<Attempt>, data: Data) -> Outcome<
    Response,
    Status,
    Data,
> {
    if attempts.len() == 0 {
        Outcome::Forward(data)
    } else {
        attempts.last().answer.outcome
    }
}

/// The headers that a pass hands to the response: those of its last try when
/// that try did not decline, and none otherwise.
pub open spec fn pass_delta(attempts: Seq<Attempt>) -> Seq<Header> {
    if attempts.len() > 0 && !(attempts.last().answer.outcome is Forward) {
        attempts.last().answer.delta@
    } else {
        Seq::empty()
    }
}

/// Whether `merged` is `response` with the headers `delta` behind its own.
pub open spec fn is_merged(response: Response, delta: Seq<Header>, merged: Response) -> bool {
    &&& merged.status == response.status
    &&& merged.headers@ == response.headers@ + delta
    &&& merged.body == response.body
}

/// Whether `caught` are the answers of the catchers in `chain` to `status`:
/// the catchers are asked in order and without a gap, every one but the last
/// gave no response, and the asking stops before the last catcher only after
/// one that gave a response.
pub open spec fn is_escalation<C: ErrorHandler>(
    chain: Seq<Catcher<C>>,
    status: Status,
    request: Request,
    caught: Seq<Answer<()>>,
) -> bool {
    &&& caught.len() <= chain.len()
    &&& forall|k: int|
        0 <= k < caught.len() ==> call_ensures(
            C::handle,
            (&chain[k].handler, status, &request),
            #[trigger] caught[k],
        )
    &&& forall|k: int| 0 <= k < caught.len() - 1 ==> !((#[trigger] caught[k]).outcome is Success)
    &&& caught.len() < chain.len() ==> caught.len() > 0 && caught.last().outcome is Success
}

/// Whether `response` is what the catchers' answers `caught` to `status` come
/// to: the response of the last catcher with its headers when it gave one,
/// the built-in answer to "Internal Server Error" when catchers were asked and
/// none gave a response, and the built-in answer to `status` when there was no
/// catcher to ask.
pub open spec fn is_caught(status: Status, caught: Seq<Answer<()>>, response: Response) -> bool {
    if caught.len() > 0 && caught.last().outcome is Success {
        is_merged(caught.last().outcome->Success_0, caught.last().delta@, response)
    } else if caught.len() > 0 {
        is_builtin(Status { code: INTERNAL_SERVER_ERROR }, response)
    } else {
        is_builtin(status, response)
    }
}

/// The request with the method `GET` in place of its own.
pub open spec fn as_get(request: Request) -> Request {
    Request {
        method: Method::Get,
        uri: request.uri,
        headers: request.headers,
        params: request.params,
    }
}

/// Whether `response` is `processed` as it leaves the engine: with a header
/// that names the server behind its own unless it has one, and without the
/// bytes of its body when the request asked for the head only.
pub open spec fn is_finished(processed: Response, head_only: bool, response: Response) -> bool {
    &&& response.status == processed.status
    &&& if has_named(processed.headers@, SERVER@) {
        response.headers@ == processed.headers@
    } else {
        &&& response.headers@.len() == processed.headers@.len() + 1
        &&& response.headers@.drop_last() == processed.headers@
        &&& response.headers@.last().name@ == SERVER@
        &&& response.headers@.last().value@ == SERVER_NAME@
    }
    &&& if head_only {
        is_stripped(processed.body, response.body)
    } else {
        response.body == processed.body
    }
}

/// The path of a route with the path `path` that is mounted at `base`.
pub open spec fn mounted_path(base: Seq<char>, path: Seq<char>) -> Seq<char> {
    collapsed(base + seq![SEPARATOR] + path)
}

/// A mounted route is reached below its mount point: the segments of its path
/// are the segments of the mount point followed by the segments of the path
/// that it had.
pub proof fn lemma_mounted_segments(base: Seq<char>, path: Seq<char>)
    ensures
        segments_of(mounted_path(base, path)) == segments_of(base) + segments_of(path),
{
    lemma_collapsed_segments(base + seq![SEPARATOR] + path);
    lemma_segments_push(base, SEPARATOR);
    assert(base + seq![SEPARATOR] == base.push(SEPARATOR));
    lemma_segments_concat(base.push(SEPARATOR), path);
}

/// Whether `mounted` is `route` mounted at `base`: it has the path of the
/// route below the mount point and nothing else is different.
pub open spec fn is_mounted<H>(route: Route<H>, base: Seq<char>, mounted: Route<H>) -> bool {
    &&& mounted.method == route.method
    &&& mounted.rank == route.rank
    &&& mounted.handler == route.handler
    &&& mounted.path@ == mounted_path(base, route.path@)
}

/// The catcher of `catchers` that answers `code` after all of them were
/// registered in order: the last one for that code.
pub open spec fn last_for<C>(catchers: Seq<Catcher<C>>, code: Option<u16>) -> Option<Catcher<C>>
    decreases catchers.len(),
{
    if catchers.len() == 0 {
        None
    } else if catchers.last().code == code {
        Some(catchers.last())
    } else {
        last_for(catchers.drop_last(), code)
    }
}

/// The name of the header that tells what kind of content a request holds.
pub const CONTENT_TYPE: &'static str = "Content-Type";

/// The content type of a form.
pub const FORM: &'static str = "application/x-www-form-urlencoded";

/// The number of bytes of the input that are looked at for a method: as many
/// as `_method=delete` has.
pub const PEEK: usize = 14;

/// The least number of bytes that name a method: as many as `_method=get`
/// has.
pub const LEAST: usize = 11;

/// The bytes of `_method=`.
pub open spec fn method_key() -> Seq<u8> {
    seq![95u8, 109, 101, 116, 104, 111, 100, 61]
}

/// The first index from `from` on at which `bytes` holds `&`, or the length of
/// `bytes` when there is none.
pub open spec fn value_end(bytes: Seq<u8>, from: int) -> int
    decreases bytes.len() - from,
{
    if from < 0 || from >= bytes.len() || bytes[from] == 38u8 {
        from
    } else {
        value_end(bytes, from + 1)
    }
}

/// The method that the start of a form names: the form starts with the field
/// `_method`, and the value of the field, as far as it lies in the first bytes
/// that are looked at, names a method.
pub open spec fn form_method(data: Seq<u8>) -> Option<Method> {
    let seen = if data.len() <= PEEK {
        data
    } else {
        data.take(PEEK as int)
    };
    if seen.len() >= LEAST && seen.take(8) == method_key() {
        method_named(seen.subrange(8, value_end(seen, 8)))
    } else {
        None
    }
}

/// Whether the headers say that the request holds a form.
pub open spec fn holds_form(headers: Seq<Header>) -> bool {
    let at = first_named(headers, CONTENT_TYPE@);
    at < headers.len() && headers[at].value@ == FORM@
}

/// The method that the start of a form names, if it names one.
pub fn peek_method(data: &Vec<u8>) -> (method: Option<Method>)
    ensures
        method == form_method(data@),
{
    let n = if data.len() <= PEEK {
        data.len()
    } else {
        PEEK
    };
    let ghost seen = if data@.len() <= PEEK {
        data@
    } else {
        data@.take(PEEK as int)
    };
    if n < LEAST {
        return None;
    }
    let key: Vec<u8> = vec![95u8, 109, 101, 116, 104, 111, 100, 61];
    let mut k: usize = 0;
    while k < 8
        invariant
            k <= 8 <= n <= data.len(),
            key@ == method_key(),
            seen.len() == n,
            forall|j: int| 0 <= j < n ==> seen[j] == data@[j],
            forall|j: int| 0 <= j < k ==> seen[j] == method_key()[j],
        decreases 8 - k,
    {
        if data[k] != key[k] {
            assert(seen.take(8)[k as int] != method_key()[k as int]);
            return None;
        }
        k = k + 1;
    }
    assert(seen.take(8) =~= method_key());
    let mut end: usize = 8;
    while end < n && data[end] != 38u8
        invariant
            8 <= end <= n <= data.len(),
            seen.len() == n,
            forall|j: int| 0 <= j < n ==> seen[j] == data@[j],
            value_end(seen, 8) == value_end(seen, end as int),
        decreases n - end,
    {
        end = end + 1;
    }
    assert(seen.subrange(8, end as int) =~= data@.subrange(8, end as int));
    Method::from_bytes(data, 8, end)
}

/// What follows one answer in a pass.
pub enum Step {
    /// The handler declined: the next candidate is tried with this input.
    Next(Data),
    /// The handler did not decline: the pass ends with its answer.
    End(Answer<Data>),
}

/// Decides what follows the answer of a handler in a pass.
pub fn after_answer(answer: Answer<Data>) -> (step: Step)
    ensures
        step == match answer.outcome {
            Outcome::Forward(rest) => Step::Next(rest),
            _ => Step::End(answer),
        },
{
    let Answer { outcome, delta } = answer;
    match outcome {
        Outcome::Forward(rest) => Step::Next(rest),
        ended => Step::End(Answer { outcome: ended, delta }),
    }
}

/// What follows a pass.
pub enum Conclusion {
    /// A handler gave a response: it is sent, with the headers of the
    /// handler's answer behind its own.
    Respond(Response),
    /// Every candidate declined a request for the head only: one more pass
    /// is made with the method `GET` and this input.
    Retry(Data),
    /// The catchers are asked to answer this status.
    Catch(Status),
}

/// Whether `conclusion` is what follows a pass that ended with `answer` for a
/// request with `method`.
pub open spec fn concludes(method: Method, answer: Answer<Data>, conclusion: Conclusion) -> bool {
    match answer.outcome {
        Outcome::Success(response) => conclusion matches Conclusion::Respond(merged) && is_merged(
            response,
            answer.delta@,
            merged,
        ),
        Outcome::Failure(status) => conclusion == Conclusion::Catch(status),
        Outcome::Forward(rest) => if method == Method::Head {
            conclusion == Conclusion::Retry(rest)
        } else {
            conclusion == Conclusion::Catch(Status { code: NOT_FOUND })
        },
    }
}

/// Decides what follows a pass that ended with `answer` for a request with
/// `method`.
pub fn after_pass(method: Method, answer: Answer<Data>) -> (conclusion: Conclusion)
    ensures
        concludes(method, answer, conclusion),
{
    let Answer { outcome, delta } = answer;
    match outcome {
        Outcome::Success(response) => Conclusion::Respond(merge(response, delta)),
        Outcome::Failure(status) => Conclusion::Catch(status),
        Outcome::Forward(rest) => {
            if method == Method::Head {
                Conclusion::Retry(rest)
            } else {
                Conclusion::Catch(Status::not_found())
            }
        },
    }
}

/// Decides what follows the answer of a catcher: its response is sent, with
/// the headers of its answer behind its own; without a response the next one
/// is asked.
pub fn after_catcher(answer: Answer<()>) -> (response: Option<Response>)
    ensures
        match answer.outcome {
            Outcome::Success(answered) => response matches Some(merged) && is_merged(
                answered,
                answer.delta@,
                merged,
            ),
            _ => response is None,
        },
{
    let Answer { outcome, delta } = answer;
    match outcome {
        Outcome::Success(response) => Some(merge(response, delta)),
        _ => None,
    }
}

/// The status that the built-in answer is made for when no catcher gave a
/// response to `status`: "Internal Server Error" when catchers were asked,
/// and `status` itself when there was none to ask.
pub fn uncaught(status: Status, asked: bool) -> (answered: Status)
    ensures
        answered == if asked {
            Status { code: INTERNAL_SERVER_ERROR }
        } else {
            status
        },
{
    if asked {
        Status::internal_server_error()
    } else {
        status
    }
}

/// Finishes a response: a header that names the server is put behind the
/// others unless the response has one, and the bytes of the body are taken
/// out when the request asked for the head only.
pub fn finish(processed: Response, head_only: bool) -> (response: Response)
    ensures
        is_finished(processed, head_only, response),
{
    let mut response = processed;
    if !response.has_header(SERVER) {
        response.adjoin_header(Header::new(SERVER, SERVER_NAME));
        assert(response.headers@.drop_last() == processed.headers@);
    }
    if head_only {
        response.strip_body();
    }
    response
}

/// All that happened while a request was answered.
pub struct Trace {
    /// The tries of the first pass.
    pub first: Seq<Attempt>,
    /// The tries of the second pass, if there was one.
    pub second: Seq<Attempt>,
    /// The request as the catchers saw it.
    pub seen: Request,
    /// The answers of the catchers that were asked.
    pub caught: Seq<Answer<()>>,
    /// The response before it was finished.
    pub processed: Response,
}

/// The engine: a routing table and the catchers.
pub struct Rocket<H, C> {
    pub router: Router<H>,
    pub catchers: HashMap<u16, Catcher<C>>,
    pub default_catcher: Option<Catcher<C>>,
}

impl<H: Handler, C: ErrorHandler> Rocket<H, C> {
    /// The catchers that are asked to answer `status`, in order: the catcher
    /// of the status, then the catcher of all statuses.
    pub open spec fn chain(&self, status: Status) -> Seq<Catcher<C>> {
        let specific = if self.catchers@.contains_key(status.code) {
            seq![self.catchers@[status.code]]
        } else {
            Seq::empty()
        };
        let fallback = match self.default_catcher {
            Some(catcher) => seq![catcher],
            None => Seq::empty(),
        };
        specific + fallback
    }

    /// Whether `attempts` are the tries of one pass over the candidates for
    /// `request`, starting with the input `data`.
    pub open spec fn walked(&self, request: Request, data: Data, attempts: Seq<Attempt>) -> bool {
        exists|candidates: Seq<&Route<H>>|
            are_candidates(
                self.router.bucket(request.method, segments_of(request.uri@).len()),
                request.method,
                request.uri@,
                candidates,
            ) && #[trigger] is_walk(candidates, request, data, attempts)
    }

    /// Whether the catchers saw `trace.seen` as `request`, gave the answers
    /// `trace.caught` to `status`, and these come to `trace.processed`.
    pub open spec fn escalated(&self, status: Status, request: Request, trace: Trace) -> bool {
        &&& same_request(trace.seen, request)
        &&& is_escalation(self.chain(status), status, trace.seen, trace.caught)
        &&& is_caught(status, trace.caught, trace.processed)
    }

    /// Whether `trace` tells how `request` with the input `data` came to the
    /// response `trace.processed`.
    pub open spec fn processed(&self, request: Request, data: Data, trace: Trace) -> bool {
        &&& self.walked(request, data, trace.first)
        &&& match pass_outcome(trace.first, data) {
            Outcome::Success(response) => {
                &&& trace.second.len() == 0
                &&& trace.caught.len() == 0
                &&& is_merged(response, pass_delta(trace.first), trace.processed)
            },
            Outcome::Failure(status) => {
                &&& trace.second.len() == 0
                &&& self.escalated(status, request, trace)
            },
            Outcome::Forward(rest) => if request.method == Method::Head {
                &&& self.walked(as_get(request), rest, trace.second)
                &&& match pass_outcome(trace.second, rest) {
                    Outcome::Success(response) => {
                        &&& trace.caught.len() == 0
                        &&& is_merged(response, pass_delta(trace.second), trace.processed)
                    },
                    Outcome::Failure(status) => self.escalated(status, as_get(request), trace),
                    Outcome::Forward(_) => self.escalated(
                        Status { code: NOT_FOUND },
                        as_get(request),
                        trace,
                    ),
                }
            } else {
                &&& trace.second.len() == 0
                &&& self.escalated(Status { code: NOT_FOUND }, request, trace)
            },
        }
    }

    /// Whether `trace` tells how `request` with the input `data` came to
    /// `response`.
    pub open spec fn explains(
        &self,
        request: Request,
        data: Data,
        trace: Trace,
        response: Response,
    ) -> bool {
        &&& self.processed(request, data, trace)
        &&& is_finished(trace.processed, request.method == Method::Head, response)
    }

    /// An engine without routes and without catchers.
    pub fn ignite() -> (rocket: Rocket<H, C>)
        ensures
            forall|method: Method, count: nat|
                #[trigger] rocket.router.bucket(method, count).len() == 0,
            rocket.catchers@.len() == 0,
            rocket.default_catcher is None,
    {
        Rocket { router: Router::new(), catchers: HashMap::new(), default_catcher: None }
    }

    /// Mounts `routes` at `base`: gives each route the path that joins `base`
    /// and the path of the route, with every run of separators collapsed, and
    /// adds the routes to the table in their order. The base has to be a
    /// mount point and the path of each route a template.
    pub fn mount(self, base: &str, routes: Vec<Route<H>>) -> (rocket: Rocket<H, C>)
        requires
            valid_mount_point(base@),
            forall|k: int| 0 <= k < routes@.len() ==> parsable_template(
                (#[trigger] routes@[k]).path@,
            ),
        ensures
            rocket.catchers == self.catchers,
            rocket.default_catcher == self.default_catcher,
            exists|added: Seq<Route<H>>|
                {
                    &&& added.len() == routes.len()
                    &&& forall|k: int|
                        0 <= k < routes.len() ==> is_mounted(routes[k], base@, #[trigger] added[k])
                    &&& forall|method: Method, count: nat|
                        #[trigger] rocket.router.bucket(method, count) == self.router.bucket(
                            method,
                            count,
                        ) + of_bucket(added, method, count)
                },
    {
        let mut rocket = self;
        let mut routes = routes;
        let ghost given = routes@;
        let ghost mut added: Seq<Route<H>> = Seq::empty();
        let n = routes.len();
        let mut left: Vec<Route<H>> = Vec::new();
        while routes.len() > 0
            invariant
                left.len() + routes.len() == n,
                n == given.len(),
                routes@ == given.take(routes.len() as int),
                forall|j: int|
                    0 <= j < left.len() ==> (#[trigger] left[j]) == given[n - 1 - j],
            decreases routes.len(),
        {
            let route = routes.pop().unwrap();
            left.push(route);
        }
        let mut k: usize = 0;
        assert forall|method: Method, count: nat|
            #[trigger] rocket.router.bucket(method, count) == self.router.bucket(method, count)
                + of_bucket(added, method, count) by {
            assert(self.router.bucket(method, count) + Seq::<Route<H>>::empty()
                == self.router.bucket(method, count));
        }
        while left.len() > 0
            invariant
                k + left.len() == n,
                n == given.len(),
                added.len() == k,
                rocket.catchers == self.catchers,
                rocket.default_catcher == self.default_catcher,
                forall|j: int|
                    0 <= j < left.len() ==> (#[trigger] left[j]) == given[n - 1 - j],
                forall|j: int| 0 <= j < k ==> is_mounted(given[j], base@, #[trigger] added[j]),
                forall|method: Method, count: nat|
                    #[trigger] rocket.router.bucket(method, count) == self.router.bucket(
                        method,
                        count,
                    ) + of_bucket(added, method, count),
            decreases left.len(),
        {
            let mut route = left.pop().unwrap();
            assert(route == given[k as int]);
            let path = dedup(base, route.path.as_str());
            route.set_path(path);
            let ghost before = added;
            let ghost old_router = rocket.router;
            proof {
                added = before.push(route);
                assert(added.drop_last() == before);
            }
            rocket.router.add(route);
            proof {
                assert forall|method: Method, count: nat|
                    #[trigger] rocket.router.bucket(method, count) == self.router.bucket(
                        method,
                        count,
                    ) + of_bucket(added, method, count) by {
                    let own = self.router.bucket(method, count);
                    let more = of_bucket(before, method, count);
                    assert(old_router.bucket(method, count) == own + more);
                    if method == route.method && count == segments_of(route.path@).len() {
                        assert((own + more).push(route) == own + more.push(route));
                    }
                }
            }
            k = k + 1;
        }
        rocket
    }

    /// Whether `after` is this engine with `catchers` registered in their
    /// order: for each status, and for all statuses, the last catcher of the
    /// list stands, and where the list has none, the one that stood before.
    /// The routes stay.
    pub open spec fn registers(&self, catchers: Seq<Catcher<C>>, after: Rocket<H, C>) -> bool {
        &&& after.router == self.router
        &&& after.default_catcher == match last_for(catchers, None) {
            Some(catcher) => Some(catcher),
            None => self.default_catcher,
        }
        &&& forall|code: u16|
            match last_for(catchers, Some(code)) {
                Some(catcher) => #[trigger] after.catchers@.contains_key(code)
                    && after.catchers@[code] == catcher,
                None => after.catchers@.contains_key(code) == self.catchers@.contains_key(code) && (
                self.catchers@.contains_key(code) ==> after.catchers@[code]
                    == self.catchers@[code]),
            }
    }

    /// Registers `catchers` in their order. A catcher for a status takes the
    /// place of the one that was registered for that status before, and a
    /// catcher for all statuses the place of the one for all statuses.
    pub fn register(self, catchers: Vec<Catcher<C>>) -> (rocket: Rocket<H, C>)
        ensures
            self.registers(catchers@, rocket),
    {
        let mut rocket = self;
        let mut catchers = catchers;
        let ghost given = catchers@;
        let n = catchers.len();
        let mut left: Vec<Catcher<C>> = Vec::new();
        while catchers.len() > 0
            invariant
                left.len() + catchers.len() == n,
                n == given.len(),
                catchers@ == given.take(catchers.len() as int),
                forall|j: int|
                    0 <= j < left.len() ==> (#[trigger] left[j]) == given[n - 1 - j],
            decreases catchers.len(),
        {
            let catcher = catchers.pop().unwrap();
            left.push(catcher);
        }
        let mut k: usize = 0;
        while left.len() > 0
            invariant
                k + left.len() == n,
                n == given.len(),
                rocket.router == self.router,
                forall|j: int|
                    0 <= j < left.len() ==> (#[trigger] left[j]) == given[n - 1 - j],
                rocket.default_catcher == match last_for(given.take(k as int), None) {
                    Some(catcher) => Some(catcher),
                    None => self.default_catcher,
                },
                forall|code: u16|
                    match last_for(given.take(k as int), Some(code)) {
                        Some(catcher) => #[trigger] rocket.catchers@.contains_key(code)
                            && rocket.catchers@[code] == catcher,
                        None => rocket.catchers@.contains_key(code) == self.catchers@.contains_key(
                            code,
                        ) && (self.catchers@.contains_key(code) ==> rocket.catchers@[code]
                            == self.catchers@[code]),
                    },
            decreases left.len(),
        {
            let catcher = left.pop().unwrap();
            assert(catcher == given[k as int]);
            assert(given.take(k + 1).drop_last() == given.take(k as int));
            assert(given.take(k + 1).last() == catcher);
            match catcher.code {
                Some(code) => {
                    rocket.catchers.insert(code, catcher);
                },
                None => {
                    rocket.default_catcher = Some(catcher);
                },
            }
            k = k + 1;
        }
        assert(given.take(k as int) == given);
        rocket
    }

    /// Registers `catchers` in their order, as `register` does.
    pub fn catch(self, catchers: Vec<Catcher<C>>) -> (rocket: Rocket<H, C>)
        ensures
            self.registers(catchers@, rocket),
    {
        self.register(catchers)
    }

    /// Gives a request that holds a form and has the method `POST` the method
    /// that the form names in its first field, if it names one there.
    pub fn preprocess_request(&self, request: &mut Request, data: &Data)
        ensures
            final(request).uri == old(request).uri,
            final(request).headers == old(request).headers,
            final(request).params == old(request).params,
            final(request).method == if old(request).method == Method::Post && holds_form(
                old(request).headers@,
            ) && form_method(data.bytes@) is Some {
                form_method(data.bytes@)->0
            } else {
                old(request).method
            },
    {
        if request.method != Method::Post {
            return ;
        }
        let is_form = match find_header(&request.headers, CONTENT_TYPE) {
            Some(header) => {
                let form = String::from_str(FORM);
                header.value == form
            },
            None => false,
        };
        if is_form {
            match peek_method(&data.bytes) {
                Some(method) => {
                    request.method = method;
                },
                None => {},
            }
        }
    }

    /// The routes of the table, each as often as the table holds it: the
    /// listed routes that belong in a bucket are the routes of that bucket, in
    /// their order.
    pub fn routes<'a>(&'a self) -> (found: Vec<&'a Route<H>>)
        ensures
            forall|method: Method, count: nat|
                #[trigger] of_bucket(owned(found@), method, count) == self.router.bucket(
                    method,
                    count,
                ),
            forall|k: int| 0 <= k < found@.len() ==> self.router.holds(*#[trigger] found@[k]),
            forall|method: Method, count: nat, i: int|
                0 <= i < self.router.bucket(method, count).len() ==> found@.contains(
                    &#[trigger] self.router.bucket(method, count)[i],
                ),
    {
        self.router.routes()
    }

    /// Whether `catcher` is registered for a status.
    pub open spec fn answers_a_status(&self, catcher: Catcher<C>) -> bool {
        exists|code: u16|
            self.catchers@.contains_key(code) && #[trigger] self.catchers@[code] == catcher
    }

    /// Whether `found` lists the catchers of the statuses in `codes`, one for
    /// each, and behind them the catcher of all statuses, if there is one.
    pub open spec fn lists_catchers(&self, found: Seq<&Catcher<C>>, codes: Seq<u16>) -> bool {
        &&& codes.no_duplicates()
        &&& forall|code: u16| codes.contains(code) <==> self.catchers@.contains_key(code)
        &&& forall|k: int| 0 <= k < codes.len() ==> *#[trigger] found[k] == self.catchers@[codes[k]]
        &&& match self.default_catcher {
            Some(catcher) => found.len() == codes.len() + 1 && *found.last() == catcher,
            None => found.len() == codes.len(),
        }
    }

    /// The catchers of the engine, each once: the catchers of the statuses,
    /// in some order, and behind them the catcher of all statuses.
    pub fn catchers<'a>(&'a self) -> (found: Vec<&'a Catcher<C>>)
        ensures
            exists|codes: Seq<u16>| #[trigger] self.lists_catchers(found@, codes),
            forall|code: u16|
                self.catchers@.contains_key(code) ==> found@.contains(
                    &#[trigger] self.catchers@[code],
                ),
            self.default_catcher matches Some(catcher) ==> found@.contains(&catcher),
            forall|k: int|
                0 <= k < found@.len() ==> self.default_catcher == Some(*#[trigger] found@[k])
                    || self.answers_a_status(*found@[k]),
    {
        let mut found: Vec<&'a Catcher<C>> = Vec::new();
        let iter = self.catchers.iter();
        let ghost pairs = iter.remaining();
        assert(pairs.no_duplicates());
        for pair in it: iter
            invariant
                it.seq() == pairs,
                pairs.no_duplicates(),
                pairs == vstd::std_specs::hash::spec_hash_map_iter(&self.catchers).remaining(),
                found@.len() == it.index(),
                forall|k: int| 0 <= k < found@.len() ==> *#[trigger] found@[k] == *pairs[k].1,
        {
            found.push(pair.1);
        }
        proof {
            vstd::std_specs::hash::axiom_spec_hash_map_iter(&self.catchers);
            assert forall|code: u16| self.catchers@.contains_key(code) implies found@.contains(
                &#[trigger] self.catchers@[code],
            ) by {
                assert(pairs.contains((&code, &self.catchers@[code])));
                let k = choose|k: int|
                    0 <= k < pairs.len() && pairs[k] == (&code, &self.catchers@[code]);
                assert(found@[k] == &self.catchers@[code]);
            }
            assert forall|k: int| 0 <= k < found@.len() implies self.answers_a_status(
                *#[trigger] found@[k],
            ) by {
                let code = *pairs[k].0;
                assert(self.catchers@.contains_key(code) && self.catchers@[code] == *pairs[k].1);
            }
        }
        let ghost listed = found@;
        let ghost codes = Seq::new(pairs.len(), |k: int| *pairs[k].0);
        proof {
            assert forall|i: int, j: int|
                0 <= i < codes.len() && 0 <= j < codes.len() && i != j implies codes[i]
                != codes[j] by {
                if codes[i] == codes[j] {
                    assert(self.catchers@[*pairs[i].0] == *pairs[i].1);
                    assert(self.catchers@[*pairs[j].0] == *pairs[j].1);
                    assert(pairs[i] == pairs[j]);
                }
            }
            assert forall|code: u16| codes.contains(code) <==> self.catchers@.contains_key(
                code,
            ) by {
                if codes.contains(code) {
                    let k = choose|k: int| 0 <= k < codes.len() && codes[k] == code;
                    assert(self.catchers@.contains_key(*pairs[k].0));
                }
                if self.catchers@.contains_key(code) {
                    assert(pairs.contains((&code, &self.catchers@[code])));
                    let k = choose|k: int|
                        0 <= k < pairs.len() && pairs[k] == (&code, &self.catchers@[code]);
                    assert(codes[k] == code);
                }
            }
            assert forall|k: int| 0 <= k < codes.len() implies *#[trigger] listed[k]
                == self.catchers@[codes[k]] by {
                assert(self.catchers@[*pairs[k].0] == *pairs[k].1);
            }
        }
        match &self.default_catcher {
            Some(catcher) => {
                proof {
                    crate::router::lemma_push_contains(listed, catcher);
                }
                found.push(catcher);
                assert(found@ == listed.push(catcher));
                assert forall|code: u16| self.catchers@.contains_key(code) implies found@.contains(
                    &#[trigger] self.catchers@[code],
                ) by {
                    assert(listed.contains(&self.catchers@[code]));
                    assert(listed.push(catcher).contains(&self.catchers@[code]));
                }
                assert(found@[listed.len() as int] == catcher);
                assert(found@.contains(catcher));
                assert forall|k: int| 0 <= k < found@.len() implies self.default_catcher == Some(
                    *#[trigger] found@[k],
                ) || self.answers_a_status(*found@[k]) by {
                    if k < listed.len() {
                        assert(found@[k] == listed[k]);
                    }
                }
                assert forall|k: int| 0 <= k < codes.len() implies *#[trigger] found@[k]
                    == self.catchers@[codes[k]] by {
                    assert(found@[k] == listed[k]);
                }
            },
            None => {},
        }
        assert(self.lists_catchers(found@, codes));
        found
    }

    /// What is looked at before the engine starts to serve. The colliding
    /// routes of equal rank are found; they are given back to be logged, and
    /// only when `strict` is set do they keep the engine from serving. A part
    /// that was attached to the engine and failed always does; `failures`
    /// names the parts that failed.
    pub fn prelaunch_check(&self, failures: Vec<String>, strict: bool) -> (checked: Result<
        Vec<Collision>,
        LaunchError,
    >)
        ensures
            match checked {
                Ok(found) => failures@.len() == 0 && (strict ==> found@.len() == 0)
                    && self.router.lists(found@),
                Err(LaunchError::Collision(found)) => strict && found@.len() > 0
                    && self.router.lists(found@),
                Err(LaunchError::FailedFairings(failed)) => failed == failures && failures@.len()
                    > 0 && (strict ==> forall|c: Collision|
                    !self.router.reports(c, Strictness::SameRank)),
            },
    {
        let found = self.router.collisions();
        if strict && found.len() > 0 {
            return Err(LaunchError::Collision(found));
        }
        if failures.len() > 0 {
            proof {
                if strict {
                    assert forall|c: Collision| !self.router.reports(c, Strictness::SameRank) by {
                        if self.router.reports(c, Strictness::SameRank) {
                            assert(found@.contains(c));
                        }
                    }
                }
            }
            return Err(LaunchError::FailedFairings(failures));
        }
        Ok(found)
    }

    /// One pass over the candidates for `request`: tries them in order until
    /// one of them does not decline, and gives back the answer of that one,
    /// or a `Forward` of the input that is left when all of them declined.
    pub fn route(&self, request: &mut Request, data: Data) -> (answer: Answer<Data>)
        ensures
            same_request(*final(request), *old(request)),
            exists|attempts: Seq<Attempt>| #[trigger]
                self.walked(*old(request), data, attempts) && answer.outcome == pass_outcome(
                    attempts,
                    data,
                ) && answer.delta@ == pass_delta(attempts),
    {
        let candidates = self.router.candidates(request.method, request.uri.as_str());
        let ghost given = data;
        let ghost mut attempts: Seq<Attempt> = Seq::empty();
        let mut rest = data;
        let mut k: usize = 0;
        while k < candidates.len()
            invariant
                k <= candidates.len(),
                attempts.len() == k,
                given == data,
                same_request(*request, *old(request)),
                are_candidates(
                    self.router.bucket(
                        old(request).method,
                        segments_of(old(request).uri@).len(),
                    ),
                    old(request).method,
                    old(request).uri@,
                    candidates@,
                ),
                rest == input_of(attempts, given, k as int),
                forall|j: int|
                    0 <= j < k ==> is_attempt(
                        candidates@[j],
                        *old(request),
                        input_of(attempts, given, j),
                        #[trigger] attempts[j],
                    ),
                forall|j: int| 0 <= j < k ==> (#[trigger] attempts[j]).answer.outcome is Forward,
            decreases candidates.len() - k,
        {
            let route = candidates[k];
            request.set_params(route);
            let ghost input = rest;
            let answer = route.handler.handle(&*request, rest);
            let ghost attempt = Attempt { request: *request, data: input, answer };
            let ghost before = attempts;
            proof {
                attempts = before.push(attempt);
                assert forall|j: int| 0 <= j < k + 1 implies is_attempt(
                    candidates@[j],
                    *old(request),
                    input_of(attempts, given, j),
                    #[trigger] attempts[j],
                ) by {
                    if j < k {
                        assert(attempts[j] == before[j]);
                        assert(input_of(attempts, given, j) == input_of(before, given, j));
                    }
                }
            }
            match after_answer(answer) {
                Step::Next(left) => {
                    rest = left;
                },
                Step::End(answer) => {
                    proof {
                        assert(attempts.last() == attempt);
                        assert(attempt.answer == answer);
                        assert(is_walk(candidates@, *old(request), given, attempts));
                        assert(self.walked(*old(request), given, attempts));
                        assert(answer.outcome == pass_outcome(attempts, given));
                        assert(answer.delta@ == pass_delta(attempts));
                    }
                    return answer;
                },
            }
            k = k + 1;
        }
        proof {
            assert(is_walk(candidates@, *old(request), given, attempts));
            assert(self.walked(*old(request), given, attempts));
        }
        Answer::new(Outcome::Forward(rest))
    }

    /// Asks the catchers to answer `status`: first the catcher of the status,
    /// then the catcher of all statuses. The first response that one of them
    /// gives is sent, with the headers of that catcher's answer behind its
    /// own. When catchers were asked and none gave a response, the built-in
    /// answer to "Internal Server Error" is sent; when there was no catcher to
    /// ask, the built-in answer to `status`.
    pub fn handle_error(&self, status: Status, request: &Request) -> (response: Response)
        ensures
            exists|caught: Seq<Answer<()>>| #[trigger]
                is_escalation(self.chain(status), status, *request, caught) && is_caught(
                    status,
                    caught,
                    response,
                ),
    {
        let ghost chain = self.chain(status);
        let ghost mut caught: Seq<Answer<()>> = Seq::empty();
        let mut asked = false;
        match self.catchers.get(&status.code) {
            Some(catcher) => {
                let answer = catcher.handle(status, request);
                proof {
                    caught = caught.push(answer);
                    assert(chain[0] == *catcher);
                }
                asked = true;
                match after_catcher(answer) {
                    Some(merged) => {
                        assert(is_escalation(chain, status, *request, caught));
                        return merged;
                    },
                    None => {},
                }
            },
            None => {},
        }
        match &self.default_catcher {
            Some(catcher) => {
                let answer = catcher.handle(status, request);
                proof {
                    assert(chain.last() == *catcher);
                    assert(chain[caught.len() as int] == *catcher);
                    caught = caught.push(answer);
                }
                asked = true;
                match after_catcher(answer) {
                    Some(merged) => {
                        assert(is_escalation(chain, status, *request, caught));
                        return merged;
                    },
                    None => {},
                }
            },
            None => {},
        }
        assert(is_escalation(chain, status, *request, caught));
        crate::catcher::default(uncaught(status, asked), request)
    }

    /// Answers `request`: one pass over its candidates and, when all of them
    /// declined a request for the head only, one more pass with the method
    /// `GET`. A response of a handler is sent with the headers of that
    /// handler's answer behind its own; the headers of every other answer are
    /// dropped. A failure goes to the catchers of its status, and a request
    /// that no route answered goes to the catchers of "Not Found".
    pub fn route_and_process(&self, request: &mut Request, data: Data) -> (response: Response)
        ensures
            final(request).uri == old(request).uri,
            final(request).headers == old(request).headers,
            final(request).method == old(request).method || (old(request).method == Method::Head
                && final(request).method == Method::Get),
            exists|trace: Trace| #[trigger]
                self.processed(*old(request), data, trace) && trace.processed == response,
    {
        let ghost asked = *old(request);
        let first = self.route(request, data);
        let ghost first_tries = choose|attempts: Seq<Attempt>| #[trigger]
            self.walked(asked, data, attempts) && first.outcome == pass_outcome(attempts, data)
                && first.delta@ == pass_delta(attempts);
        match after_pass(request.method, first) {
            Conclusion::Respond(merged) => {
                proof {
                    let trace = Trace {
                        first: first_tries,
                        second: Seq::empty(),
                        seen: asked,
                        caught: Seq::empty(),
                        processed: merged,
                    };
                    assert(self.processed(asked, data, trace));
                }
                merged
            },
            Conclusion::Catch(status) => {
                let response = self.handle_error(status, &*request);
                proof {
                    let caught = choose|caught: Seq<Answer<()>>| #[trigger]
                        is_escalation(self.chain(status), status, *request, caught) && is_caught(
                            status,
                            caught,
                            response,
                        );
                    let trace = Trace {
                        first: first_tries,
                        second: Seq::empty(),
                        seen: *request,
                        caught,
                        processed: response,
                    };
                    assert(self.processed(asked, data, trace));
                }
                response
            },
            Conclusion::Retry(rest) => {
                request.method = Method::Get;
                let ghost again = *request;
                let second = self.route(request, rest);
                let ghost second_tries = choose|attempts: Seq<Attempt>| #[trigger]
                    self.walked(again, rest, attempts) && second.outcome == pass_outcome(
                        attempts,
                        rest,
                    ) && second.delta@ == pass_delta(attempts);
                proof {
                    lemma_walked_same(self, again, as_get(asked), rest, second_tries);
                }
                match after_pass(request.method, second) {
                    Conclusion::Respond(merged) => {
                        proof {
                            let trace = Trace {
                                first: first_tries,
                                second: second_tries,
                                seen: asked,
                                caught: Seq::empty(),
                                processed: merged,
                            };
                            assert(self.processed(asked, data, trace));
                        }
                        merged
                    },
                    Conclusion::Catch(status) => {
                        let response = self.handle_error(status, &*request);
                        proof {
                            let caught = choose|caught: Seq<Answer<()>>| #[trigger]
                                is_escalation(self.chain(status), status, *request, caught)
                                    && is_caught(status, caught, response);
                            let trace = Trace {
                                first: first_tries,
                                second: second_tries,
                                seen: *request,
                                caught,
                                processed: response,
                            };
                            assert(self.processed(asked, data, trace));
                        }
                        response
                    },
                    Conclusion::Retry(_) => {
                        proof {
                            assert(false);
                        }
                        Response::not_found()
                    },
                }
            },
        }
    }

    /// Answers `request` and finishes the response: a header that names the
    /// server is put behind the others unless the response has one, and the
    /// bytes of the body are taken out when the request asked for the head
    /// only.
    pub fn dispatch(&self, request: &mut Request, data: Data) -> (response: Response)
        ensures
            final(request).uri == old(request).uri,
            final(request).headers == old(request).headers,
            final(request).method == old(request).method || (old(request).method == Method::Head
                && final(request).method == Method::Get),
            exists|trace: Trace| #[trigger] self.explains(*old(request), data, trace, response),
    {
        let was_head_request = request.method == Method::Head;
        let processed = self.route_and_process(request, data);
        let ghost trace = choose|trace: Trace| #[trigger]
            self.processed(*old(request), data, trace) && trace.processed == processed;
        let response = finish(processed, was_head_request);
        assert(self.explains(*old(request), data, trace, response));
        response
    }
}

/// Puts the headers `delta` behind the headers of `response`.
pub fn merge(response: Response, delta: Vec<Header>) -> (merged: Response)
    ensures
        is_merged(response, delta@, merged),
{
    let mut merged = response;
    merged.adjoin_headers(delta);
    merged
}

/// A pass is a pass for every request with the same method, path and
/// headers.
pub proof fn lemma_walked_same<H: Handler, C: ErrorHandler>(
    rocket: &Rocket<H, C>,
    a: Request,
    b: Request,
    data: Data,
    attempts: Seq<Attempt>,
)
    requires
        same_request(a, b),
        rocket.walked(a, data, attempts),
    ensures
        rocket.walked(b, data, attempts),
{
    let candidates = choose|candidates: Seq<&Route<H>>|
        are_candidates(
            rocket.router.bucket(a.method, segments_of(a.uri@).len()),
            a.method,
            a.uri@,
            candidates,
        ) && #[trigger] is_walk(candidates, a, data, attempts);
    assert(is_walk(candidates, b, data, attempts));
}

/// Whether the handler of `route` declines whatever it is asked.
pub open spec fn always_forwards<H: Handler>(route: &Route<H>) -> bool {
    forall|request: &Request, data: Data, answer: Answer<Data>| #[trigger]
        call_ensures(H::handle, (&route.handler, request, data), answer)
            ==> answer.outcome is Forward
}

/// Whether the handler of `route` gives a response whatever it is asked.
pub open spec fn always_succeeds<H: Handler>(route: &Route<H>) -> bool {
    forall|request: &Request, data: Data, answer: Answer<Data>| #[trigger]
        call_ensures(H::handle, (&route.handler, request, data), answer)
            ==> answer.outcome is Success
}

/// Whether the handler of `catcher` gives no response whatever it is asked.
pub open spec fn never_succeeds<C: ErrorHandler>(catcher: Catcher<C>) -> bool {
    forall|status: Status, request: &Request, answer: Answer<()>| #[trigger]
        call_ensures(C::handle, (&catcher.handler, status, request), answer) ==> !(
        answer.outcome is Success)
}

/// A request has one list of candidates: two lists that both hold its
/// candidates in the order in which they are tried are the same list.
pub proof fn lemma_candidates_unique<H>(
    bucket: Seq<Route<H>>,
    method: Method,
    uri: Seq<char>,
    a: Seq<&Route<H>>,
    b: Seq<&Route<H>>,
)
    requires
        are_candidates(bucket, method, uri, a),
        are_candidates(bucket, method, uri, b),
    ensures
        a == b,
{
    let oa = choose|order: Seq<int>| #[trigger]
        is_candidate_order(bucket, method, uri, order) && order.len() == a.len() && forall|k: int|
            0 <= k < a.len() ==> *#[trigger] a[k] == bucket[order[k]];
    let ob = choose|order: Seq<int>| #[trigger]
        is_candidate_order(bucket, method, uri, order) && order.len() == b.len() && forall|k: int|
            0 <= k < b.len() ==> *#[trigger] b[k] == bucket[order[k]];
    lemma_candidate_order_unique(bucket, method, uri, oa, ob);
    assert forall|k: int| 0 <= k < a.len() implies a[k] == b[k] by {
        assert(*a[k] == bucket[oa[k]]);
        assert(*b[k] == bucket[ob[k]]);
    }
    assert(a =~= b);
}

/// In a pass over candidates of which the first `m` always decline and the
/// next one always gives a response, exactly `m + 1` handlers are called, in
/// the order of the candidates, and the pass ends with the response of the
/// last of them.
pub proof fn lemma_walk_first_success<H: Handler>(
    candidates: Seq<&Route<H>>,
    request: Request,
    data: Data,
    attempts: Seq<Attempt>,
    m: int,
)
    requires
        is_walk(candidates, request, data, attempts),
        0 <= m < candidates.len(),
        forall|k: int| 0 <= k < m ==> always_forwards(#[trigger] candidates[k]),
        always_succeeds(candidates[m]),
    ensures
        attempts.len() == m + 1,
        forall|k: int|
            0 <= k <= m ==> is_attempt(
                candidates[k],
                request,
                input_of(attempts, data, k),
                #[trigger] attempts[k],
            ),
        pass_outcome(attempts, data) == attempts[m].answer.outcome,
        attempts[m].answer.outcome is Success,
        pass_delta(attempts) == attempts[m].answer.delta@,
{
    let n = attempts.len() as int;
    assert forall|k: int| 0 <= k < n && k < m implies (#[trigger] attempts[k]).answer.outcome
        is Forward by {
        assert(is_attempt(candidates[k], request, input_of(attempts, data, k), attempts[k]));
        assert(always_forwards(candidates[k]));
    }
    if n <= m {
        if n > 0 {
            assert(attempts[n - 1].answer.outcome is Forward);
        }
        assert(false);
    }
    assert(is_attempt(candidates[m], request, input_of(attempts, data, m), attempts[m]));
    if n > m + 1 {
        assert(attempts[m].answer.outcome is Forward);
        assert(false);
    }
}

/// In a pass over candidates that all always decline, every candidate is
/// tried, and the pass ends with a `Forward`.
pub proof fn lemma_walk_all_forward<H: Handler>(
    candidates: Seq<&Route<H>>,
    request: Request,
    data: Data,
    attempts: Seq<Attempt>,
)
    requires
        is_walk(candidates, request, data, attempts),
        forall|k: int| 0 <= k < candidates.len() ==> always_forwards(#[trigger] candidates[k]),
    ensures
        attempts.len() == candidates.len(),
        pass_outcome(attempts, data) is Forward,
{
    let n = attempts.len() as int;
    if n > 0 {
        assert(is_attempt(
            candidates[n - 1],
            request,
            input_of(attempts, data, n - 1),
            attempts[n - 1],
        ));
        assert(always_forwards(candidates[n - 1]));
    }
}

impl<H: Handler, C: ErrorHandler> Rocket<H, C> {
    /// The first response stands. When the first `m` candidates for a request
    /// always decline and the next one always gives a response, then exactly
    /// `m + 1` handlers are called, in the order of the candidates, no catcher
    /// is asked, and the response that is sent is the response of the last
    /// handler that was called: with that handler's headers behind its own,
    /// and finished as every response is.
    pub proof fn lemma_first_success_answers(
        &self,
        request: Request,
        data: Data,
        trace: Trace,
        response: Response,
        candidates: Seq<&Route<H>>,
        m: int,
    )
        requires
            self.explains(request, data, trace, response),
            are_candidates(
                self.router.bucket(request.method, segments_of(request.uri@).len()),
                request.method,
                request.uri@,
                candidates,
            ),
            0 <= m < candidates.len(),
            forall|k: int| 0 <= k < m ==> always_forwards(#[trigger] candidates[k]),
            always_succeeds(candidates[m]),
        ensures
            trace.first.len() == m + 1,
            trace.second.len() == 0,
            trace.caught.len() == 0,
            forall|k: int|
                0 <= k <= m ==> is_attempt(
                    candidates[k],
                    request,
                    input_of(trace.first, data, k),
                    #[trigger] trace.first[k],
                ),
            trace.first[m].answer.outcome is Success,
            is_merged(
                trace.first[m].answer.outcome->Success_0,
                trace.first[m].answer.delta@,
                trace.processed,
            ),
            is_finished(trace.processed, request.method == Method::Head, response),
    {
        let bucket = self.router.bucket(request.method, segments_of(request.uri@).len());
        let walked = choose|walked: Seq<&Route<H>>|
            are_candidates(bucket, request.method, request.uri@, walked) && #[trigger] is_walk(
                walked,
                request,
                data,
                trace.first,
            );
        lemma_candidates_unique(bucket, request.method, request.uri@, walked, candidates);
        lemma_walk_first_success(candidates, request, data, trace.first, m);
    }

    /// A request for the head only that no route of its own answers is
    /// answered as a `GET` request is, without the bytes of the body. When
    /// all candidates for the `HEAD` request always decline, the first `m`
    /// candidates for the same path with the method `GET` always decline and
    /// the next one always gives a response, then the response that is sent
    /// has the status of that handler's response, its headers with the
    /// handler's headers behind them, and its body without the bytes: the
    /// length that the body announces stays.
    pub proof fn lemma_head_answered_by_get(
        &self,
        request: Request,
        data: Data,
        trace: Trace,
        response: Response,
        head_candidates: Seq<&Route<H>>,
        get_candidates: Seq<&Route<H>>,
        m: int,
    )
        requires
            self.explains(request, data, trace, response),
            request.method == Method::Head,
            are_candidates(
                self.router.bucket(Method::Head, segments_of(request.uri@).len()),
                Method::Head,
                request.uri@,
                head_candidates,
            ),
            forall|k: int|
                0 <= k < head_candidates.len() ==> always_forwards(#[trigger] head_candidates[k]),
            are_candidates(
                self.router.bucket(Method::Get, segments_of(request.uri@).len()),
                Method::Get,
                request.uri@,
                get_candidates,
            ),
            0 <= m < get_candidates.len(),
            forall|k: int| 0 <= k < m ==> always_forwards(#[trigger] get_candidates[k]),
            always_succeeds(get_candidates[m]),
        ensures
            trace.first.len() == head_candidates.len(),
            trace.second.len() == m + 1,
            trace.caught.len() == 0,
            trace.second[m].answer.outcome is Success,
            is_attempt(
                get_candidates[m],
                as_get(request),
                input_of(trace.second, pass_outcome(trace.first, data)->Forward_0, m),
                trace.second[m],
            ),
            is_merged(
                trace.second[m].answer.outcome->Success_0,
                trace.second[m].answer.delta@,
                trace.processed,
            ),
            response.status == trace.second[m].answer.outcome->Success_0.status,
            is_stripped(trace.second[m].answer.outcome->Success_0.body, response.body),
            is_finished(trace.processed, true, response),
    {
        let head_bucket = self.router.bucket(Method::Head, segments_of(request.uri@).len());
        let walked = choose|walked: Seq<&Route<H>>|
            are_candidates(head_bucket, request.method, request.uri@, walked) && #[trigger] is_walk(
                walked,
                request,
                data,
                trace.first,
            );
        lemma_candidates_unique(head_bucket, Method::Head, request.uri@, walked, head_candidates);
        lemma_walk_all_forward(head_candidates, request, data, trace.first);
        let rest = pass_outcome(trace.first, data)->Forward_0;
        let again = as_get(request);
        let get_bucket = self.router.bucket(Method::Get, segments_of(request.uri@).len());
        let rewalked = choose|walked: Seq<&Route<H>>|
            are_candidates(get_bucket, again.method, again.uri@, walked) && #[trigger] is_walk(
                walked,
                again,
                rest,
                trace.second,
            );
        lemma_candidates_unique(get_bucket, Method::Get, request.uri@, rewalked, get_candidates);
        lemma_walk_first_success(get_candidates, again, rest, trace.second, m);
    }

    /// A catcher that gives no response hands the request on. When the
    /// catcher of a status never gives a response, the catcher of all
    /// statuses is asked next, and its response is the one that is sent; when
    /// it gives none either, or when there is no such catcher, the built-in
    /// answer to "Internal Server Error" is sent. A response is sent in every
    /// case.
    pub proof fn lemma_failed_catcher_hands_on(
        &self,
        status: Status,
        request: Request,
        caught: Seq<Answer<()>>,
        response: Response,
    )
        requires
            is_escalation(self.chain(status), status, request, caught),
            is_caught(status, caught, response),
            self.catchers@.contains_key(status.code),
            never_succeeds(self.catchers@[status.code]),
        ensures
            match self.default_catcher {
                Some(fallback) => {
                    &&& caught.len() == 2
                    &&& call_ensures(C::handle, (&fallback.handler, status, &request), caught[1])
                    &&& match caught[1].outcome {
                        Outcome::Success(answered) => is_merged(
                            answered,
                            caught[1].delta@,
                            response,
                        ),
                        _ => is_builtin(Status { code: INTERNAL_SERVER_ERROR }, response),
                    }
                },
                None => {
                    &&& caught.len() == 1
                    &&& is_builtin(Status { code: INTERNAL_SERVER_ERROR }, response)
                },
            },
    {
        let chain = self.chain(status);
        assert(chain[0] == self.catchers@[status.code]);
        if caught.len() > 0 {
            assert(call_ensures(C::handle, (&chain[0].handler, status, &request), caught[0]));
            assert(!(caught[0].outcome is Success));
        }
        match self.default_catcher {
            Some(fallback) => {
                assert(chain.len() == 2);
                assert(chain[1] == fallback);
                if caught.len() < 2 {
                    assert(caught.len() > 0);
                    assert(caught.last() == caught[0]);
                    assert(false);
                }
                assert(caught.last() == caught[1]);
            },
            None => {
                assert(chain.len() == 1);
                assert(caught.len() == 1);
                assert(caught.last() == caught[0]);
            },
        }
    }
}

/// An engine without routes and without catchers.
pub fn ignite<H: Handler, C: ErrorHandler>() -> (rocket: Rocket<H, C>)
    ensures
        forall|method: Method, count: nat| #[trigger] rocket.router.bucket(method, count).len() == 0,
        rocket.catchers@.len() == 0,
        rocket.default_catcher is None,
{
    Rocket::ignite()
}

} // verus!
