//! Request methods.

use vstd::prelude::*;
use vstd::string::StringSliceAdditionalSpecFns;

verus! {

/// The method of a request or of a route.
#[derive(Clone, Copy, Debug, PartialEq, Eq, Hash, Structural)]
pub enum Method {
    Get,
    Put,
    Post,
    Delete,
    Options,
    Head,
    Trace,
    Connect,
    Patch,
}

impl Method {
    /// The position of the method in the list of methods, from 0 to 8.
    pub open spec fn ordinal(self) -> nat {
        match self {
            Method::Get => 0,
            Method::Put => 1,
            Method::Post => 2,
            Method::Delete => 3,
            Method::Options => 4,
            Method::Head => 5,
            Method::Trace => 6,
            Method::Connect => 7,
            Method::Patch => 8,
        }
    }

    /// The position of the method in the list of methods.
    pub fn index(self) -> (i: u8)
        ensures
            i == self.ordinal(),
    {
        match self {
            Method::Get => 0,
            Method::Put => 1,
            Method::Post => 2,
            Method::Delete => 3,
            Method::Options => 4,
            Method::Head => 5,
            Method::Trace => 6,
            Method::Connect => 7,
            Method::Patch => 8,
        }
    }
}

/// The byte `b` with an upper-case letter of the basic alphabet turned into
/// the lower-case one.
pub open spec fn lowered(b: u8) -> u8 {
    if 65 <= b <= 90 {
        (b + 32) as u8
    } else {
        b
    }
}

/// The bytes of `name` with the upper-case letters of the basic alphabet
/// turned into lower-case ones.
pub open spec fn lowered_all(name: Seq<u8>) -> Seq<u8> {
    Seq::new(name.len(), |k: int| lowered(name[k]))
}

/// The method with the name `name`, whatever the case of its letters.
pub open spec fn method_named(name: Seq<u8>) -> Option<Method> {
    let lower = lowered_all(name);
    if lower == seq![103u8, 101, 116] {
        Some(Method::Get)
    } else if lower == seq![112u8, 117, 116] {
        Some(Method::Put)
    } else if lower == seq![112u8, 111, 115, 116] {
        Some(Method::Post)
    } else if lower == seq![100u8, 101, 108, 101, 116, 101] {
        Some(Method::Delete)
    } else if lower == seq![111u8, 112, 116, 105, 111, 110, 115] {
        Some(Method::Options)
    } else if lower == seq![104u8, 101, 97, 100] {
        Some(Method::Head)
    } else if lower == seq![116u8, 114, 97, 99, 101] {
        Some(Method::Trace)
    } else if lower == seq![99u8, 111, 110, 110, 101, 99, 116] {
        Some(Method::Connect)
    } else if lower == seq![112u8, 97, 116, 99, 104] {
        Some(Method::Patch)
    } else {
        None
    }
}

/// Whether two lists of bytes are the same.
pub fn bytes_equal(a: &Vec<u8>, b: &Vec<u8>) -> (equal: bool)
    ensures
        equal == (a@ == b@),
{
    if a.len() != b.len() {
        return false;
    }
    let mut k: usize = 0;
    while k < a.len()
        invariant
            k <= a.len() == b.len(),
            forall|j: int| 0 <= j < k ==> a@[j] == b@[j],
        decreases a.len() - k,
    {
        if a[k] != b[k] {
            return false;
        }
        k = k + 1;
    }
    assert(a@ =~= b@);
    true
}

impl Method {
    /// The method that `bytes[lo..hi]` names, whatever the case of the
    /// letters.
    pub fn from_bytes(bytes: &Vec<u8>, lo: usize, hi: usize) -> (method: Option<Method>)
        requires
            lo <= hi <= bytes.len(),
        ensures
            method == method_named(bytes@.subrange(lo as int, hi as int)),
    {
        let ghost name = bytes@.subrange(lo as int, hi as int);
        let mut lower: Vec<u8> = Vec::new();
        let mut k: usize = lo;
        while k < hi
            invariant
                lo <= k <= hi <= bytes.len(),
                name == bytes@.subrange(lo as int, hi as int),
                lower@ == lowered_all(name.take(k - lo)),
            decreases hi - k,
        {
            let b = bytes[k];
            let ghost before = lower@;
            if 65 <= b && b <= 90 {
                lower.push(b + 32);
            } else {
                lower.push(b);
            }
            assert(lower@ == before.push(lowered(b)));
            assert(name.take(k + 1 - lo) == name.take(k - lo).push(b));
            assert(lower@ =~= lowered_all(name.take(k + 1 - lo)));
            k = k + 1;
        }
        assert(name.take(hi - lo) == name);
        if bytes_equal(&lower, &vec![103u8, 101, 116]) {
            Some(Method::Get)
        } else if bytes_equal(&lower, &vec![112u8, 117, 116]) {
            Some(Method::Put)
        } else if bytes_equal(&lower, &vec![112u8, 111, 115, 116]) {
            Some(Method::Post)
        } else if bytes_equal(&lower, &vec![100u8, 101, 108, 101, 116, 101]) {
            Some(Method::Delete)
        } else if bytes_equal(&lower, &vec![111u8, 112, 116, 105, 111, 110, 115]) {
            Some(Method::Options)
        } else if bytes_equal(&lower, &vec![104u8, 101, 97, 100]) {
            Some(Method::Head)
        } else if bytes_equal(&lower, &vec![116u8, 114, 97, 99, 101]) {
            Some(Method::Trace)
        } else if bytes_equal(&lower, &vec![99u8, 111, 110, 110, 101, 99, 116]) {
            Some(Method::Connect)
        } else if bytes_equal(&lower, &vec![112u8, 97, 116, 99, 104]) {
            Some(Method::Patch)
        } else {
            None
        }
    }

    /// The method that `name` names, whatever the case of the letters.
    pub fn from_str(name: &str) -> (method: Option<Method>)
        ensures
            method == method_named(vstd::utf8::encode_utf8(name@)),
    {
        let bytes = name.as_bytes_vec();
        assert(bytes@.subrange(0, bytes@.len() as int) == bytes@);
        Method::from_bytes(&bytes, 0, bytes.len())
    }

    /// The name of the method, in upper case.
    pub open spec fn name(self) -> Seq<char> {
        match self {
            Method::Get => "GET"@,
            Method::Put => "PUT"@,
            Method::Post => "POST"@,
            Method::Delete => "DELETE"@,
            Method::Options => "OPTIONS"@,
            Method::Head => "HEAD"@,
            Method::Trace => "TRACE"@,
            Method::Connect => "CONNECT"@,
            Method::Patch => "PATCH"@,
        }
    }

    /// The name of the method, in upper case.
    pub fn as_str(self) -> (name: &'static str)
        ensures
            name@ == self.name(),
    {
        match self {
            Method::Get => "GET",
            Method::Put => "PUT",
            Method::Post => "POST",
            Method::Delete => "DELETE",
            Method::Options => "OPTIONS",
            Method::Head => "HEAD",
            Method::Trace => "TRACE",
            Method::Connect => "CONNECT",
            Method::Patch => "PATCH",
        }
    }
}

} // verus!
