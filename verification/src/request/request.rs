//! The request as the handlers see it.

use crate::error::Error;
use crate::http::{find_header, first_named, Header};
use crate::method::Method;
use crate::request::param::{converted_or_bad_parse, FromParam, FromSegments};
use crate::router::route::{params_of, Route};
use crate::router::uri::{segments_of, texts, Segments, URIBuf, URI};
use vstd::prelude::*;

verus! {

/// What is left of the input of a request.
pub struct Data {
    pub bytes: Vec<u8>,
}

impl Data {
    /// The input that holds `bytes`.
    pub fn new(bytes: Vec<u8>) -> (data: Data)
        ensures
            data.bytes == bytes,
    {
        Data { bytes }
    }

    /// A look at the input.
    pub fn peek(&self) -> (bytes: &Vec<u8>)
        ensures
            *bytes == self.bytes,
    {
        &self.bytes
    }

    /// The bytes of the input.
    pub fn into_inner(self) -> (bytes: Vec<u8>)
        ensures
            bytes == self.bytes,
    {
        self.bytes
    }
}

/// The texts of the strings in `v`.
pub open spec fn strings(v: Seq<String>) -> Seq<Seq<char>> {
    Seq::new(v.len(), |k: int| v[k]@)
}

/// A request: its method, its path, its headers, and the values that the
/// route which is being tried takes from its path.
pub struct Request {
    pub method: Method,
    pub uri: URIBuf,
    pub headers: Vec<Header>,
    pub params: Vec<String>,
}

impl Request {
    /// A request with the given method and path, without headers.
    pub fn mock(method: Method, uri: &str) -> (request: Request)
        ensures
            request.method == method,
            request.uri@ == uri@,
            request.headers@.len() == 0,
            request.params@.len() == 0,
    {
        Request { method, uri: URIBuf::from(uri), headers: Vec::new(), params: Vec::new() }
    }

    /// A request with the given method, path and headers.
    pub fn new(method: Method, uri: String, headers: Vec<Header>) -> (request: Request)
        ensures
            request.method == method,
            request.uri@ == uri@,
            request.headers == headers,
            request.params@.len() == 0,
    {
        Request { method, uri: URIBuf::from(uri), headers, params: Vec::new() }
    }

    /// The headers of the request.
    pub fn headers(&self) -> (headers: &Vec<Header>)
        ensures
            *headers == self.headers,
    {
        &self.headers
    }

    /// The value of the first header with the name `Content-Type`, which
    /// tells what kind of content the request holds.
    pub fn content_type<'a>(&'a self) -> (value: Option<&'a str>)
        ensures
            match value {
                Some(text) => first_named(self.headers@, "Content-Type"@) < self.headers@.len()
                    && text@ == self.headers@[first_named(self.headers@, "Content-Type"@)].value@,
                None => first_named(self.headers@, "Content-Type"@) == self.headers@.len(),
            },
    {
        match find_header(&self.headers, "Content-Type") {
            Some(header) => Some(header.value.as_str()),
            None => None,
        }
    }

    /// The path of the request.
    pub fn uri<'a>(&'a self) -> (uri: URI<'a>)
        ensures
            uri@ == self.uri@,
    {
        self.uri.as_uri()
    }

    /// Binds the values that `route` takes from the path of the request: the
    /// segments of the path that stand where the route's path is dynamic.
    pub fn set_params<H>(&mut self, route: &Route<H>)
        ensures
            strings(final(self).params@) == params_of(route.path@, old(self).uri@),
            final(self).method == old(self).method,
            final(self).uri == old(self).uri,
            final(self).headers == old(self).headers,
    {
        let found = route.get_params(self.uri.as_str());
        let mut params: Vec<String> = Vec::new();
        let mut k: usize = 0;
        while k < found.len()
            invariant
                k <= found.len(),
                strings(params@) == texts(found@).take(k as int),
            decreases found.len() - k,
        {
            let ghost before = strings(params@);
            params.push(String::from_str(found[k]));
            assert(strings(params@) == before.push(found[k as int]@));
            assert(texts(found@).take(k + 1) == texts(found@).take(k as int).push(
                found[k as int]@,
            ));
            k = k + 1;
        }
        assert(texts(found@).take(k as int) == texts(found@));
        self.params = params;
    }

    /// The bound value at position `n`, turned into a `T`.
    ///
    /// Gives `NoKey` when the request has no value at that position and
    /// `BadParse` when the value does not stand for a `T`.
    pub fn get_param<'a, T: FromParam<'a>>(&'a self, n: usize) -> (value: Result<T, Error>)
        ensures
            n >= self.params@.len() ==> value == Err::<T, Error>(Error::NoKey),
            n < self.params@.len() ==> exists|param: &'a str, converted: Option<T>|
                param@ == self.params@[n as int]@ && #[trigger] call_ensures(
                    T::from_param,
                    (param,),
                    converted,
                ) && value == match converted {
                    Some(v) => Ok::<T, Error>(v),
                    None => Err::<T, Error>(Error::BadParse),
                },
    {
        if n >= self.params.len() {
            Err(Error::NoKey)
        } else {
            let param = self.params[n].as_str();
            let converted = T::from_param(param);
            converted_or_bad_parse(converted)
        }
    }

    /// The segments of the path from position `i` on, turned into a `T`.
    ///
    /// Gives `NoKey` when the path has no segment at that position and
    /// `BadParse` when the segments do not stand for a `T`.
    pub fn get_segments<'a, T: FromSegments<'a>>(&'a self, i: usize) -> (value: Result<T, Error>)
        ensures
            i >= segments_of(self.uri@).len() ==> value == Err::<T, Error>(Error::NoKey),
            i < segments_of(self.uri@).len() ==> exists|rest: Segments<'a>, converted: Option<T>|
                rest@ == segments_of(self.uri@).skip(i as int) && #[trigger] call_ensures(
                    T::from_segments,
                    (rest,),
                    converted,
                ) && value == match converted {
                    Some(v) => Ok::<T, Error>(v),
                    None => Err::<T, Error>(Error::BadParse),
                },
    {
        if i >= self.uri.segment_count() {
            Err(Error::NoKey)
        } else {
            let mut rest = self.uri.segments();
            let mut k: usize = 0;
            while k < i
                invariant
                    k <= i < segments_of(self.uri@).len(),
                    rest@ == segments_of(self.uri@).skip(k as int),
                decreases i - k,
            {
                let ghost before = rest@;
                let _ = rest.next();
                assert(before.drop_first() == segments_of(self.uri@).skip(k + 1));
                k = k + 1;
            }
            let converted = T::from_segments(rest);
            converted_or_bad_parse(converted)
        }
    }
}

} // verus!
