//! Turning segments of a path into values.

use crate::error::Error;
use crate::router::uri::{texts, Segments};
use vstd::prelude::*;

verus! {

/// A value that can be made from one segment of a path.
pub trait FromParam<'a>: Sized {
    /// Makes the value from `param`, or gives `None` when the segment does not
    /// stand for such a value.
    fn from_param(param: &'a str) -> Option<Self>;
}

/// A value that can be made from the last segments of a path.
pub trait FromSegments<'a>: Sized {
    /// Makes the value from `segments`, or gives `None` when they do not stand
    /// for such a value.
    fn from_segments(segments: Segments<'a>) -> Option<Self>;
}

/// What a request answers when the segment that was asked for has been turned
/// into `converted`: the value, or `BadParse` when there is none.
pub fn converted_or_bad_parse<T>(converted: Option<T>) -> (answer: Result<T, Error>)
    ensures
        answer == match converted {
            Some(value) => Ok::<T, Error>(value),
            None => Err::<T, Error>(Error::BadParse),
        },
{
    match converted {
        Some(value) => Ok(value),
        None => Err(Error::BadParse),
    }
}

/// Every segment is a string slice.
impl<'a> FromParam<'a> for &'a str {
    fn from_param(param: &'a str) -> (value: Option<&'a str>)
        ensures
            value == Some(param),
    {
        Some(param)
    }
}

/// Every segment is a string.
impl<'a> FromParam<'a> for String {
    fn from_param(param: &'a str) -> (value: Option<String>)
        ensures
            value is Some,
            value->0@ == param@,
    {
        Some(String::from_str(param))
    }
}

/// Any number of segments is a list of string slices.
impl<'a> FromSegments<'a> for Vec<&'a str> {
    fn from_segments(segments: Segments<'a>) -> (value: Option<Vec<&'a str>>)
        ensures
            value is Some,
            texts(value->0@) == segments@,
    {
        Some(segments.to_vec())
    }
}

} // verus!
