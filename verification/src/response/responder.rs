//! Values that can be turned into a response.

use crate::http::{Header, Status, INTERNAL_SERVER_ERROR, NOT_FOUND, OK};
use crate::response::{Body, Response};
use vstd::prelude::*;
use vstd::string::StringSliceAdditionalSpecFns;

verus! {

/// The name of the header that tells what kind of content a body holds.
pub const CONTENT_TYPE: &'static str = "Content-Type";

/// The content type of plain text.
pub const TEXT_PLAIN: &'static str = "text/plain";

/// The content type of hypertext.
pub const TEXT_HTML: &'static str = "text/html";

/// A value that a handler can give back in place of a response.
///
/// Such a value either becomes a response or hands the request to the catcher
/// for a status.
pub trait Responder: Sized {
    /// Whether the value becomes a response.
    spec fn responds(&self) -> bool;

    /// The status whose catcher gets the request when the value does not
    /// become a response.
    spec fn forwards_to(&self) -> Status;

    /// Turns the value into a response, or names the status whose catcher is
    /// to answer.
    fn respond(self) -> (answer: Result<Response, Status>)
        ensures
            answer is Ok == self.responds(),
            answer matches Err(status) ==> status == self.forwards_to(),
    ;
}

/// A response with the status "OK", the given content type and the bytes of
/// `text` as its body.
pub fn text_response(content_type: &str, text: &str) -> (response: Response)
    ensures
        response.status.code == OK,
        response.headers@.len() == 1,
        response.headers@[0].name@ == CONTENT_TYPE@,
        response.headers@[0].value@ == content_type@,
        response.body is Some,
        response.body->0.content@ == text.spec_bytes(),
        response.body->0.size == text.spec_bytes().len(),
{
    let content = text.as_bytes_vec();
    let size = content.len();
    let mut headers: Vec<Header> = Vec::new();
    headers.push(Header::new(CONTENT_TYPE, content_type));
    Response { status: crate::http::Status::ok(), headers, body: Some(Body { content, size }) }
}

/// A string slice is sent as plain text.
impl<'a> Responder for &'a str {
    open spec fn responds(&self) -> bool {
        true
    }

    open spec fn forwards_to(&self) -> Status {
        Status { code: INTERNAL_SERVER_ERROR }
    }

    fn respond(self) -> (answer: Result<Response, Status>)
        ensures
            answer matches Ok(response) ==> response.status.code == OK && response.headers@.len()
                == 1 && response.headers@[0].name@ == CONTENT_TYPE@ && response.headers@[0].value@
                == TEXT_PLAIN@ && response.body is Some && response.body->0.content@
                == self.spec_bytes(),
    {
        Ok(text_response(TEXT_PLAIN, self))
    }
}

/// A string is sent as hypertext.
impl Responder for String {
    open spec fn responds(&self) -> bool {
        true
    }

    open spec fn forwards_to(&self) -> Status {
        Status { code: INTERNAL_SERVER_ERROR }
    }

    fn respond(self) -> (answer: Result<Response, Status>)
        ensures
            answer matches Ok(response) ==> response.status.code == OK && response.headers@.len()
                == 1 && response.headers@[0].name@ == CONTENT_TYPE@ && response.headers@[0].value@
                == TEXT_HTML@ && response.body is Some && response.body->0.content@
                == vstd::utf8::encode_utf8(self@),
    {
        Ok(text_response(TEXT_HTML, self.as_str()))
    }
}

/// A response is sent as it is.
impl Responder for Response {
    open spec fn responds(&self) -> bool {
        true
    }

    open spec fn forwards_to(&self) -> Status {
        Status { code: INTERNAL_SERVER_ERROR }
    }

    fn respond(self) -> (answer: Result<Response, Status>)
        ensures
            answer == Ok::<Response, Status>(self),
    {
        Ok(self)
    }
}

/// `Some` is sent as what it holds; `None` hands the request to the catcher
/// for "Not Found".
impl<T: Responder> Responder for Option<T> {
    open spec fn responds(&self) -> bool {
        match self {
            Some(inner) => inner.responds(),
            None => false,
        }
    }

    open spec fn forwards_to(&self) -> Status {
        match self {
            Some(inner) => inner.forwards_to(),
            None => Status { code: NOT_FOUND },
        }
    }

    fn respond(self) -> (answer: Result<Response, Status>) {
        match self {
            Some(inner) => inner.respond(),
            None => Err(Status::not_found()),
        }
    }
}

/// `Ok` is sent as what it holds, and so is `Err`.
impl<T: Responder, E: Responder> Responder for Result<T, E> {
    open spec fn responds(&self) -> bool {
        match self {
            Ok(inner) => inner.responds(),
            Err(inner) => inner.responds(),
        }
    }

    open spec fn forwards_to(&self) -> Status {
        match self {
            Ok(inner) => inner.forwards_to(),
            Err(inner) => inner.forwards_to(),
        }
    }

    fn respond(self) -> (answer: Result<Response, Status>) {
        match self {
            Ok(inner) => inner.respond(),
            Err(inner) => inner.respond(),
        }
    }
}

} // verus!
