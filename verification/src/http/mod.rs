//! The plain parts of a request and of a response: status codes and headers.

pub mod accept;

use crate::method::{bytes_equal, lowered, lowered_all};
use vstd::prelude::*;
use vstd::string::StringSliceAdditionalSpecFns;
use vstd::utf8::encode_utf8;

verus! {

/// The status of a response, by its number.
#[derive(Debug, Clone, Copy, PartialEq, Eq, Hash, Structural)]
pub struct Status {
    pub code: u16,
}

/// The number of the status "OK".
pub const OK: u16 = 200;

/// The number of the status "Not Found".
pub const NOT_FOUND: u16 = 404;

/// The number of the status "Internal Server Error".
pub const INTERNAL_SERVER_ERROR: u16 = 500;

impl Status {
    /// The status with the given number.
    pub fn new(code: u16) -> (status: Status)
        ensures
            status.code == code,
    {
        Status { code }
    }

    /// The status "OK".
    pub fn ok() -> (status: Status)
        ensures
            status.code == OK,
    {
        Status { code: OK }
    }

    /// The status "Not Found".
    pub fn not_found() -> (status: Status)
        ensures
            status.code == NOT_FOUND,
    {
        Status { code: NOT_FOUND }
    }

    /// The status "Internal Server Error".
    pub fn internal_server_error() -> (status: Status)
        ensures
            status.code == INTERNAL_SERVER_ERROR,
    {
        Status { code: INTERNAL_SERVER_ERROR }
    }

    /// The number of the status.
    pub fn to_u16(&self) -> (code: u16)
        ensures
            code == self.code,
    {
        self.code
    }
}

/// One header line: a name and a value.
pub struct Header {
    pub name: String,
    pub value: String,
}

impl Header {
    /// The header with the given name and value.
    pub fn new(name: &str, value: &str) -> (header: Header)
        ensures
            header.name@ == name@,
            header.value@ == value@,
    {
        Header { name: String::from_str(name), value: String::from_str(value) }
    }
}

impl Clone for Header {
    fn clone(&self) -> (copy: Header)
        ensures
            copy.name@ == self.name@,
            copy.value@ == self.value@,
    {
        Header { name: self.name.clone(), value: self.value.clone() }
    }
}

/// Whether two names of headers are the same name: the names of headers have
/// no case, so the letters of the basic alphabet are compared without regard
/// to it.
pub open spec fn same_name(a: Seq<char>, b: Seq<char>) -> bool {
    lowered_all(encode_utf8(a)) == lowered_all(encode_utf8(b))
}

/// The bytes of `text` with the upper-case letters of the basic alphabet
/// turned into lower-case ones.
pub fn lower_bytes(text: &str) -> (lower: Vec<u8>)
    ensures
        lower@ == lowered_all(encode_utf8(text@)),
{
    let bytes = text.as_bytes_vec();
    let mut lower: Vec<u8> = Vec::new();
    let mut k: usize = 0;
    while k < bytes.len()
        invariant
            k <= bytes.len(),
            lower@ == lowered_all(bytes@.take(k as int)),
        decreases bytes.len() - k,
    {
        let b = bytes[k];
        let ghost before = lower@;
        if 65 <= b && b <= 90 {
            lower.push(b + 32);
        } else {
            lower.push(b);
        }
        assert(lower@ == before.push(lowered(b)));
        assert(bytes@.take(k + 1) == bytes@.take(k as int).push(b));
        assert(lower@ =~= lowered_all(bytes@.take(k + 1)));
        k = k + 1;
    }
    assert(bytes@.take(k as int) == bytes@);
    lower
}

/// Whether `headers` holds a header with the name `name`.
pub open spec fn has_named(headers: Seq<Header>, name: Seq<char>) -> bool {
    first_named(headers, name) < headers.len()
}

/// Decides whether `headers` holds a header with the name `name`.
pub fn has_header(headers: &Vec<Header>, name: &str) -> (found: bool)
    ensures
        found == has_named(headers@, name@),
{
    find_header(headers, name).is_some()
}

/// The position of the first header in `headers` with the name `name`, or
/// the number of headers when there is none.
pub open spec fn first_named(headers: Seq<Header>, name: Seq<char>) -> int
    decreases headers.len(),
{
    if headers.len() == 0 {
        0
    } else if same_name(headers[0].name@, name) {
        0
    } else {
        1 + first_named(headers.drop_first(), name)
    }
}

/// The first header in `headers` with the name `name`, whatever the case of
/// the letters in the names.
pub fn find_header<'a>(headers: &'a Vec<Header>, name: &str) -> (found: Option<&'a Header>)
    ensures
        0 <= first_named(headers@, name@) <= headers@.len(),
        match found {
            Some(header) => first_named(headers@, name@) < headers@.len() && *header
                == headers@[first_named(headers@, name@)],
            None => first_named(headers@, name@) == headers@.len(),
        },
{
    let wanted = lower_bytes(name);
    assert(headers@.skip(0) == headers@);
    let mut k: usize = 0;
    while k < headers.len()
        invariant
            k <= headers.len(),
            wanted@ == lowered_all(encode_utf8(name@)),
            first_named(headers@, name@) == k + first_named(headers@.skip(k as int), name@),
        decreases headers.len() - k,
    {
        assert(headers@.skip(k as int)[0] == headers@[k as int]);
        let own = lower_bytes(headers[k].name.as_str());
        if bytes_equal(&own, &wanted) {
            return Some(&headers[k]);
        }
        assert(headers@.skip(k as int).drop_first() == headers@.skip(k + 1));
        k = k + 1;
    }
    assert(headers@.skip(k as int).len() == 0);
    None
}

} // verus!
