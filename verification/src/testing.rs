//! Requests that are made by hand and answered without a network.

use crate::handler::{ErrorHandler, Handler};
use crate::http::Header;
use crate::method::Method;
use crate::request::{Data, Request};
use crate::rocket::{Rocket, Trace};
use vstd::prelude::*;
use vstd::string::StringSliceAdditionalSpecFns;
use vstd::utf8::{decode_utf8, valid_utf8};

verus! {

/// `String::from_utf8` of the standard library: the text that `bytes` hold
/// when they are valid UTF-8, and `None` when they are not.
#[verifier::external_body]
fn string_from_utf8(bytes: Vec<u8>) -> (text: Option<String>)
    ensures
        match text {
            Some(text) => valid_utf8(bytes@) && text@ == decode_utf8(bytes@),
            None => !valid_utf8(bytes@),
        },
{
    String::from_utf8(bytes).ok()
}

/// The text of a body that holds `bytes`, if they hold text.
pub open spec fn body_text(bytes: Seq<u8>) -> Option<Seq<char>> {
    if valid_utf8(bytes) {
        Some(decode_utf8(bytes))
    } else {
        None
    }
}

/// A request that is made by hand, with the input that goes with it.
pub struct MockRequest {
    pub request: Request,
    pub data: Data,
}

impl MockRequest {
    /// A request with the given method and path, without headers and without
    /// input.
    pub fn new(method: Method, uri: &str) -> (mock: MockRequest)
        ensures
            mock.request.method == method,
            mock.request.uri@ == uri@,
            mock.request.headers@.len() == 0,
            mock.request.params@.len() == 0,
            mock.data.bytes@.len() == 0,
    {
        MockRequest { request: Request::mock(method, uri), data: Data::new(Vec::new()) }
    }

    /// This request with the given headers, each a name and a value, in
    /// place of the headers that it had.
    pub fn headers(self, headers: &Vec<(&str, &str)>) -> (mock: MockRequest)
        ensures
            mock.request.method == self.request.method,
            mock.request.uri == self.request.uri,
            mock.request.params == self.request.params,
            mock.data == self.data,
            mock.request.headers@.len() == headers@.len(),
            forall|k: int|
                0 <= k < headers@.len() ==> (#[trigger] mock.request.headers@[k]).name@
                    == headers@[k].0@ && mock.request.headers@[k].value@ == headers@[k].1@,
    {
        let mut made: Vec<Header> = Vec::new();
        let mut k: usize = 0;
        while k < headers.len()
            invariant
                k <= headers.len(),
                made@.len() == k,
                forall|j: int|
                    0 <= j < k ==> (#[trigger] made@[j]).name@ == headers@[j].0@ && made@[j].value@
                        == headers@[j].1@,
            decreases headers.len() - k,
        {
            made.push(Header::new(headers[k].0, headers[k].1));
            k = k + 1;
        }
        let mut mock = self;
        mock.request.headers = made;
        mock
    }

    /// This request with the bytes of `body` as its input.
    pub fn body(self, body: &str) -> (mock: MockRequest)
        ensures
            mock.request == self.request,
            mock.data.bytes@ == body.spec_bytes(),
    {
        let mut mock = self;
        mock.data = Data::new(body.as_bytes_vec());
        mock
    }

    /// Has `rocket` answer this request and gives the body of the response
    /// as text; `None` when the response has no body or the body holds no
    /// text. The input of the request is used up.
    pub fn dispatch_with<H: Handler, C: ErrorHandler>(&mut self, rocket: &Rocket<H, C>) -> (text:
        Option<String>)
        ensures
            final(self).data.bytes@.len() == 0,
            final(self).request.uri == old(self).request.uri,
            final(self).request.headers == old(self).request.headers,
            exists|trace: Trace, response: crate::response::Response| #[trigger]
                rocket.explains(old(self).request, old(self).data, trace, response) && match text {
                    Some(text) => response.body is Some && body_text(response.body->0.content@)
                        == Some(text@),
                    None => response.body is None || body_text(response.body->0.content@) is None,
                },
    {
        let mut data = Data::new(Vec::new());
        core::mem::swap(&mut self.data, &mut data);
        let response = rocket.dispatch(&mut self.request, data);
        let ghost trace = choose|trace: Trace| #[trigger]
            rocket.explains(old(self).request, old(self).data, trace, response);
        let text = match response.body {
            Some(body) => string_from_utf8(body.content),
            None => None,
        };
        assert(rocket.explains(old(self).request, old(self).data, trace, response));
        text
    }
}

} // verus!
