//! A response that hands the request to a catcher.

use crate::http::Status;
use crate::response::responder::Responder;
use crate::response::Response;
use vstd::prelude::*;

verus! {

/// A failing response: the request goes to the catcher for the status.
#[derive(Debug)]
pub struct Failure(pub Status);

impl Responder for Failure {
    open spec fn responds(&self) -> bool {
        false
    }

    open spec fn forwards_to(&self) -> Status {
        self.0
    }

    fn respond(self) -> (answer: Result<Response, Status>) {
        Err(self.0)
    }
}

} // verus!
