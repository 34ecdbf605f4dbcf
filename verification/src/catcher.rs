//! Catchers: the handlers that answer when no route did.

use crate::error::Error;
use crate::handler::{Answer, ErrorHandler};
use crate::http::{Status, INTERNAL_SERVER_ERROR, NOT_FOUND};
use crate::request::Request;
use crate::response::{Body, Response};
use vstd::prelude::*;
use vstd::string::StringSliceAdditionalSpecFns;

verus! {

/// A catcher: a handler for one status, or for every status that has no
/// catcher of its own.
pub struct Catcher<C> {
    /// The number of the status that the catcher answers; `None` for the
    /// catcher of all others.
    pub code: Option<u16>,
    pub handler: C,
}

impl<C> Catcher<C> {
    /// A catcher for the status with the number `code`.
    pub fn new(code: u16, handler: C) -> (catcher: Catcher<C>)
        ensures
            catcher.code == Some(code),
            catcher.handler == handler,
    {
        Catcher { code: Some(code), handler }
    }

    /// A catcher for every status that has no catcher of its own.
    pub fn any(handler: C) -> (catcher: Catcher<C>)
        ensures
            catcher.code is None,
            catcher.handler == handler,
    {
        Catcher { code: None, handler }
    }

    /// Whether this is a catcher for every status that has no catcher of its
    /// own.
    pub fn is_default(&self) -> (default: bool)
        ensures
            default == (self.code is None),
    {
        self.code.is_none()
    }
}

impl<C: ErrorHandler> Catcher<C> {
    /// Asks the catcher's handler to answer `status` for `request`.
    pub fn handle(&self, status: Status, request: &Request) -> (answer: Answer<()>)
        ensures
            call_ensures(C::handle, (&self.handler, status, request), answer),
    {
        self.handler.handle(status, request)
    }
}

/// The page that is sent when nothing was found.
pub const NOT_FOUND_PAGE: &'static str =
    "<head><meta charset=\"utf-8\"><title>404: Not Found</title></head><body align=\"center\"><h1>404: Not Found</h1><p>The page you were looking for could not be found.<p><hr /><small>Rocket</small></body>";

/// The page that is sent when the server failed.
pub const INTERNAL_ERROR_PAGE: &'static str =
    "<head><meta charset=\"utf-8\"><title>500: Internal Server Error</title></head><body align=\"center\"><h1>500: Internal Server Error</h1><p>The server encountered a problem processing your request.<p><hr /><small>Rocket</small></body>";

/// The number of the status that the built-in answer to `status` has: "Not
/// Found" is answered as such, every other status as "Internal Server Error".
pub open spec fn builtin_code(status: Status) -> u16 {
    if status.code == NOT_FOUND {
        NOT_FOUND
    } else {
        INTERNAL_SERVER_ERROR
    }
}

/// The bytes of the page that the built-in answer to `status` holds.
pub open spec fn builtin_page(status: Status) -> Seq<u8> {
    if status.code == NOT_FOUND {
        NOT_FOUND_PAGE.spec_bytes()
    } else {
        INTERNAL_ERROR_PAGE.spec_bytes()
    }
}

/// Whether `response` is the built-in answer to `status`: a page without
/// headers.
pub open spec fn is_builtin(status: Status, response: Response) -> bool {
    &&& response.status.code == builtin_code(status)
    &&& response.headers@.len() == 0
    &&& response.body is Some
    &&& response.body->0.content@ == builtin_page(status)
    &&& response.body->0.size == builtin_page(status).len()
}

/// The built-in answer to "Not Found".
pub fn not_found(_error: Error, _request: &Request) -> (response: Response)
    ensures
        is_builtin(Status { code: NOT_FOUND }, response),
{
    let content = NOT_FOUND_PAGE.as_bytes_vec();
    let size = content.len();
    Response { status: Status::not_found(), headers: Vec::new(), body: Some(Body { content, size }) }
}

/// The built-in answer to "Internal Server Error".
pub fn internal_error(_error: Error, _request: &Request) -> (response: Response)
    ensures
        is_builtin(Status { code: INTERNAL_SERVER_ERROR }, response),
{
    let content = INTERNAL_ERROR_PAGE.as_bytes_vec();
    let size = content.len();
    Response {
        status: Status::internal_server_error(),
        headers: Vec::new(),
        body: Some(Body { content, size }),
    }
}

/// The built-in answer to `status`. It is made without any handler, so
/// nothing can keep it from being made.
pub fn default(status: Status, request: &Request) -> (response: Response)
    ensures
        is_builtin(status, response),
{
    if status.code == NOT_FOUND {
        not_found(Error::NoRoute, request)
    } else {
        internal_error(Error::Internal, request)
    }
}

} // verus!
