//! Responses as plain values: a status, headers and a body.

pub mod failure;
pub mod responder;
pub mod stream;

pub use self::failure::Failure;
pub use self::responder::Responder;
pub use self::stream::Stream;

use crate::http::{has_header, has_named, Header, Status, INTERNAL_SERVER_ERROR, NOT_FOUND, OK};
use vstd::prelude::*;

verus! {

/// The body of a response: its bytes, and the length that the response
/// announces for it.
pub struct Body {
    /// The bytes that are sent.
    pub content: Vec<u8>,
    /// The length that is announced.
    pub size: usize,
}

/// A response.
pub struct Response {
    pub status: Status,
    pub headers: Vec<Header>,
    pub body: Option<Body>,
}

impl Response {
    /// A response with the status "OK", without headers and without a body.
    pub fn new() -> (response: Response)
        ensures
            response.status.code == OK,
            response.headers@.len() == 0,
            response.body is None,
    {
        Response { status: Status::ok(), headers: Vec::new(), body: None }
    }

    /// A response with the given status and body, without headers.
    pub fn with_status(status: Status, body: Vec<u8>) -> (response: Response)
        ensures
            response.status == status,
            response.headers@.len() == 0,
            response.body is Some,
            response.body->0.content == body,
            response.body->0.size == body.len(),
    {
        let size = body.len();
        Response { status, headers: Vec::new(), body: Some(Body { content: body, size }) }
    }

    /// A response with the status of the given number and the given body,
    /// without headers.
    pub fn with_raw_status(status: u16, body: Vec<u8>) -> (response: Response)
        ensures
            response.status.code == status,
            response.headers@.len() == 0,
            response.body is Some,
            response.body->0.content == body,
            response.body->0.size == body.len(),
    {
        Response::with_status(Status::new(status), body)
    }

    /// A response with the status "OK", without headers and without a body.
    pub fn empty() -> (response: Response)
        ensures
            response.status.code == OK,
            response.headers@.len() == 0,
            response.body is None,
    {
        Response::new()
    }

    /// A response with the status "Not Found", without headers and without a
    /// body.
    pub fn not_found() -> (response: Response)
        ensures
            response.status.code == NOT_FOUND,
            response.headers@.len() == 0,
            response.body is None,
    {
        Response { status: Status::not_found(), headers: Vec::new(), body: None }
    }

    /// A response with the status "Internal Server Error", without headers and
    /// without a body.
    pub fn server_error() -> (response: Response)
        ensures
            response.status.code == INTERNAL_SERVER_ERROR,
            response.headers@.len() == 0,
            response.body is None,
    {
        Response { status: Status::internal_server_error(), headers: Vec::new(), body: None }
    }

    /// Whether the response has a header with the name `name`, whatever the
    /// case of the letters in the names.
    pub fn has_header(&self, name: &str) -> (found: bool)
        ensures
            found == has_named(self.headers@, name@),
    {
        has_header(&self.headers, name)
    }

    /// Puts `header` behind the headers that the response has.
    pub fn adjoin_header(&mut self, header: Header)
        ensures
            final(self).headers@ == old(self).headers@.push(header),
            final(self).status == old(self).status,
            final(self).body == old(self).body,
    {
        self.headers.push(header);
    }

    /// Puts all of `headers` behind the headers that the response has, in
    /// their order.
    pub fn adjoin_headers(&mut self, headers: Vec<Header>)
        ensures
            final(self).headers@ == old(self).headers@ + headers@,
            final(self).status == old(self).status,
            final(self).body == old(self).body,
    {
        let mut headers = headers;
        self.headers.append(&mut headers);
    }

    /// The response without the bytes of its body. The length that it
    /// announces stays, and so do the status and the headers.
    pub fn strip_body(&mut self)
        ensures
            final(self).status == old(self).status,
            final(self).headers == old(self).headers,
            is_stripped(old(self).body, final(self).body),
    {
        let body = self.body.take();
        self.body = match body {
            Some(body) => Some(Body { content: Vec::new(), size: body.size }),
            None => None,
        };
    }
}

/// Whether `after` is `before` without its bytes: a body stays a body and
/// announces the same length, but holds nothing.
pub open spec fn is_stripped(before: Option<Body>, after: Option<Body>) -> bool {
    match before {
        Some(body) => after is Some && after->0.content@.len() == 0 && after->0.size == body.size,
        None => after is None,
    }
}

} // verus!
