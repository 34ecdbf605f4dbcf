//! What can go wrong while a request is answered.

use crate::router::Collision;
use vstd::prelude::*;

verus! {

/// The reason why a request, or a part of it, could not be served.
#[derive(Debug, Copy, Clone, Eq, PartialEq, Hash, Structural)]
pub enum Error {
    /// The method of the request is none that the table knows.
    BadMethod,
    /// A segment could not be turned into the value that was asked for.
    BadParse,
    /// No route answered the request.
    NoRoute,
    /// A catcher failed.
    Internal,
    /// A parameter was asked for that the request does not have.
    NoKey,
}

/// The reason why an engine must not start to serve.
pub enum LaunchError {
    /// The routing table holds colliding routes of equal rank, and the check
    /// was asked to be strict about them.
    Collision(Vec<Collision>),
    /// Parts that were attached to the engine failed; they are named.
    FailedFairings(Vec<String>),
}

} // verus!
