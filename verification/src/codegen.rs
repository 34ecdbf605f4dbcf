//! The rules for what a route may be declared with.

use crate::method::Method;
use vstd::prelude::*;

verus! {

/// Whether routes can be declared for `method`.
pub fn is_valid_method(method: Method) -> (valid: bool)
    ensures
        valid == (method == Method::Get || method == Method::Put || method == Method::Post
            || method == Method::Delete || method == Method::Patch),
{
    match method {
        Method::Get | Method::Put | Method::Post | Method::Delete | Method::Patch => true,
        _ => false,
    }
}

/// The rank that a route is declared with when `n` is written for it: `n`
/// itself, unless it is greater than every rank.
pub fn parse_rank(n: u64) -> (rank: Option<isize>)
    ensures
        rank == if n <= isize::MAX {
            Some(n as isize)
        } else {
            None::<isize>
        },
{
    if n <= isize::MAX as u64 {
        Some(n as isize)
    } else {
        None
    }
}

} // verus!
