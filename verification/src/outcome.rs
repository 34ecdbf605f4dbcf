//! The three ways in which a handler can answer.

use vstd::prelude::*;

verus! {

/// What a handler gives back: it answered, it failed, or it declined.
///
/// `Success` and `Failure` end the work on a request. `Forward` hands the
/// work on to whoever is asked next, together with what that one needs.
pub enum Outcome<S, E, F> {
    /// The handler answered; its answer stands.
    Success(S),
    /// The handler failed; nobody else is asked.
    Failure(E),
    /// The handler declined; the next one is asked.
    Forward(F),
}

impl<S, E, F> Outcome<S, E, F> {
    /// Whether this is a `Success`.
    pub fn is_success(&self) -> (success: bool)
        ensures
            success == (*self is Success),
    {
        match self {
            Outcome::Success(_) => true,
            _ => false,
        }
    }

    /// Whether this is a `Failure`.
    pub fn is_failure(&self) -> (failure: bool)
        ensures
            failure == (*self is Failure),
    {
        match self {
            Outcome::Failure(_) => true,
            _ => false,
        }
    }

    /// Whether this is a `Forward`.
    pub fn is_forward(&self) -> (forward: bool)
        ensures
            forward == (*self is Forward),
    {
        match self {
            Outcome::Forward(_) => true,
            _ => false,
        }
    }

    /// The answer of a `Success`.
    pub fn succeeded(self) -> (answer: Option<S>)
        ensures
            answer == match self {
                Outcome::Success(s) => Some(s),
                _ => None::<S>,
            },
    {
        match self {
            Outcome::Success(s) => Some(s),
            _ => None,
        }
    }

    /// The error of a `Failure`.
    pub fn failed(self) -> (error: Option<E>)
        ensures
            error == match self {
                Outcome::Failure(e) => Some(e),
                _ => None::<E>,
            },
    {
        match self {
            Outcome::Failure(e) => Some(e),
            _ => None,
        }
    }

    /// What a `Forward` hands on.
    pub fn forwarded(self) -> (handed: Option<F>)
        ensures
            handed == match self {
                Outcome::Forward(f) => Some(f),
                _ => None::<F>,
            },
    {
        match self {
            Outcome::Forward(f) => Some(f),
            _ => None,
        }
    }
}

} // verus!
