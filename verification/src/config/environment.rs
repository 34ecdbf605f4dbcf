//! The environments that a configuration can be made for, and how much is
//! logged.

use crate::router::uri::chars_of;
use vstd::prelude::*;

verus! {

/// Whether two string slices hold the same text.
pub fn str_eq(a: &str, b: &str) -> (equal: bool)
    ensures
        equal == (a@ == b@),
{
    let x = chars_of(a);
    let y = chars_of(b);
    if x.len() != y.len() {
        return false;
    }
    let mut k: usize = 0;
    while k < x.len()
        invariant
            x@ == a@,
            y@ == b@,
            k <= x.len() == y.len(),
            forall|j: int| 0 <= j < k ==> x@[j] == y@[j],
        decreases x.len() - k,
    {
        if x[k] != y[k] {
            return false;
        }
        k = k + 1;
    }
    assert(x@ =~= y@);
    true
}

/// The environment that a configuration is made for.
#[derive(Debug, Clone, Copy, PartialEq, Eq, Hash, Structural)]
pub enum Environment {
    Development,
    Staging,
    Production,
}

impl Environment {
    /// The name of the environment.
    pub open spec fn name(self) -> Seq<char> {
        match self {
            Environment::Development => "development"@,
            Environment::Staging => "staging"@,
            Environment::Production => "production"@,
        }
    }

    /// The name of the environment.
    pub fn as_str(self) -> (name: &'static str)
        ensures
            name@ == self.name(),
    {
        match self {
            Environment::Development => "development",
            Environment::Staging => "staging",
            Environment::Production => "production",
        }
    }

    /// The environment with the name `name`: its full name or one of the
    /// short forms `dev`, `stage` and `prod`.
    pub open spec fn named(name: Seq<char>) -> Option<Environment> {
        if name == "development"@ || name == "dev"@ {
            Some(Environment::Development)
        } else if name == "staging"@ || name == "stage"@ {
            Some(Environment::Staging)
        } else if name == "production"@ || name == "prod"@ {
            Some(Environment::Production)
        } else {
            None
        }
    }

    /// The environment with the name `name`: its full name or one of the
    /// short forms `dev`, `stage` and `prod`.
    pub fn from_str(name: &str) -> (env: Option<Environment>)
        ensures
            env == Environment::named(name@),
    {
        if str_eq(name, "development") || str_eq(name, "dev") {
            Some(Environment::Development)
        } else if str_eq(name, "staging") || str_eq(name, "stage") {
            Some(Environment::Staging)
        } else if str_eq(name, "production") || str_eq(name, "prod") {
            Some(Environment::Production)
        } else {
            None
        }
    }

    /// The names of all environments, for messages.
    pub fn valid() -> (names: &'static str)
        ensures
            names@ == "development, staging, production"@,
    {
        "development, staging, production"
    }
}

/// How much is logged.
#[derive(Debug, Clone, Copy, PartialEq, Eq, Hash, Structural)]
pub enum LoggingLevel {
    /// Only what must be seen.
    Critical,
    /// What is of use in daily work.
    Normal,
    /// Everything.
    Debug,
}

impl LoggingLevel {
    /// The level with the name `name`.
    pub fn from_str(name: &str) -> (level: Option<LoggingLevel>)
        ensures
            level == if name@ == "critical"@ {
                Some(LoggingLevel::Critical)
            } else if name@ == "normal"@ {
                Some(LoggingLevel::Normal)
            } else if name@ == "debug"@ {
                Some(LoggingLevel::Debug)
            } else {
                None
            },
    {
        if str_eq(name, "critical") {
            Some(LoggingLevel::Critical)
        } else if str_eq(name, "normal") {
            Some(LoggingLevel::Normal)
        } else if str_eq(name, "debug") {
            Some(LoggingLevel::Debug)
        } else {
            None
        }
    }
}

} // verus!
