//! Handlers: the callables that answer requests, and what they give back.

use crate::http::{Header, Status};
use crate::outcome::Outcome;
use crate::request::{Data, Request};
use crate::response::Response;
use vstd::prelude::*;

verus! {

/// What one call of a handler gives back: its outcome, and the headers that
/// it wants to see on the response if its outcome is the one that stands.
///
/// `delta` holds what the handler did to the response-scoped state of the
/// request, such as the cookies that it set. It is kept apart from the
/// response so that it reaches the response only when the outcome is a
/// `Success`.
pub struct Answer<F> {
    pub outcome: Outcome<Response, Status, F>,
    pub delta: Vec<Header>,
}

impl<F> Answer<F> {
    /// The answer with the given outcome and no headers of its own.
    pub fn new(outcome: Outcome<Response, Status, F>) -> (answer: Answer<F>)
        ensures
            answer.outcome == outcome,
            answer.delta@.len() == 0,
    {
        Answer { outcome, delta: Vec::new() }
    }
}

/// A handler of a route. It sees the request and gets what is left of the
/// input; when it declines, it hands the input on.
pub trait Handler {
    fn handle(&self, request: &Request, data: Data) -> Answer<Data>;
}

/// A handler of a catcher. It sees the status that is to be answered and the
/// request.
pub trait ErrorHandler {
    fn handle(&self, status: Status, request: &Request) -> Answer<()>;
}

} // verus!
