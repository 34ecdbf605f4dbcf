//! The configuration of one environment and the rules for its entries.

use crate::config::environment::{str_eq, Environment, LoggingLevel};
use crate::config::error::ConfigError;
use crate::router::uri::chars_of;
use vstd::string::StringSliceAdditionalSpecFns;
use vstd::utf8::encode_utf8;
use vstd::prelude::*;

verus! {

broadcast use vstd::string::group_string_axioms;

/// A value of a configuration entry. The variants that the rules never look
/// into hold the text in which the value was written.
pub enum Value {
    String(String),
    Integer(i64),
    Float(String),
    Boolean(bool),
    Datetime(String),
    Array(String),
    Table(String),
}

impl Value {
    /// The name of the kind of the value.
    pub open spec fn kind_name(&self) -> Seq<char> {
        match self {
            Value::String(_) => "string"@,
            Value::Integer(_) => "integer"@,
            Value::Float(_) => "float"@,
            Value::Boolean(_) => "boolean"@,
            Value::Datetime(_) => "datetime"@,
            Value::Array(_) => "array"@,
            Value::Table(_) => "table"@,
        }
    }

    /// The name of the kind of the value.
    pub fn type_str(&self) -> (name: &'static str)
        ensures
            name@ == self.kind_name(),
    {
        match self {
            Value::String(_) => "string",
            Value::Integer(_) => "integer",
            Value::Float(_) => "float",
            Value::Boolean(_) => "boolean",
            Value::Datetime(_) => "datetime",
            Value::Array(_) => "array",
            Value::Table(_) => "table",
        }
    }

    /// The text of a string value.
    pub fn as_str<'a>(&'a self) -> (text: Option<&'a str>)
        ensures
            match self {
                Value::String(s) => text is Some && text->0@ == s@,
                _ => text is None,
            },
    {
        match self {
            Value::String(s) => Some(s.as_str()),
            _ => None,
        }
    }

    /// The number of an integer value.
    pub fn as_integer(&self) -> (number: Option<i64>)
        ensures
            number == match self {
                Value::Integer(n) => Some(*n),
                _ => None::<i64>,
            },
    {
        match self {
            Value::Integer(n) => Some(*n),
            _ => None,
        }
    }

    /// The truth value of a boolean value.
    pub fn as_bool(&self) -> (truth: Option<bool>)
        ensures
            truth == match self {
                Value::Boolean(b) => Some(*b),
                _ => None::<bool>,
            },
    {
        match self {
            Value::Boolean(b) => Some(*b),
            _ => None,
        }
    }

    /// Whether two values are of the same kind and hold the same.
    pub open spec fn same(&self, other: &Value) -> bool {
        match (self, other) {
            (Value::String(a), Value::String(b)) => a@ == b@,
            (Value::Integer(a), Value::Integer(b)) => a == b,
            (Value::Float(a), Value::Float(b)) => a@ == b@,
            (Value::Boolean(a), Value::Boolean(b)) => a == b,
            (Value::Datetime(a), Value::Datetime(b)) => a@ == b@,
            (Value::Array(a), Value::Array(b)) => a@ == b@,
            (Value::Table(a), Value::Table(b)) => a@ == b@,
            _ => false,
        }
    }
}

impl Clone for Value {
    fn clone(&self) -> (copy: Value)
        ensures
            copy.same(self),
    {
        match self {
            Value::String(s) => Value::String(s.clone()),
            Value::Integer(n) => Value::Integer(*n),
            Value::Float(s) => Value::Float(s.clone()),
            Value::Boolean(b) => Value::Boolean(*b),
            Value::Datetime(s) => Value::Datetime(s.clone()),
            Value::Array(s) => Value::Array(s.clone()),
            Value::Table(s) => Value::Table(s.clone()),
        }
    }
}

/// The length that a session key must have, in bytes.
pub const SESSION_KEY_LENGTH: usize = 32;

/// The configuration of one environment.
pub struct Config {
    /// The address to serve on.
    pub address: String,
    /// The port to serve on.
    pub port: usize,
    /// How much is logged.
    pub log_level: LoggingLevel,
    /// The environment that this configuration is for.
    pub env: Environment,
    /// The key for sessions, until it is taken.
    pub session_key: Option<String>,
    /// The entries that the engine itself does not read, each name once, in
    /// the order in which the names were set first.
    pub extra: Vec<(String, Value)>,
    /// The name of the file that the configuration comes from.
    pub filename: String,
}

/// The position of the last entry in `extra` with the name `name`, or -1 when
/// there is none.
pub open spec fn last_entry(extra: Seq<(String, Value)>, name: Seq<char>) -> int
    decreases extra.len(),
{
    if extra.len() == 0 {
        -1
    } else if extra.last().0@ == name {
        extra.len() - 1
    } else {
        last_entry(extra.drop_last(), name)
    }
}

/// What is expected of an address.
pub const EXPECT_STRING: &'static str = "a string";

/// What is expected of an address that names a port.
pub const EXPECT_NO_PORT: &'static str = "an IP address with no port";

/// What is expected of an address that cannot be resolved.
pub const EXPECT_ADDRESS: &'static str = "a valid IP address";

/// What is expected of a port.
pub const EXPECT_INTEGER: &'static str = "an integer";

/// What is expected of a port below zero.
pub const EXPECT_UNSIGNED: &'static str = "an unsigned integer";

/// What is expected of a session key: 32 bytes of text.
pub const EXPECT_KEY: &'static str = "a 192-bit base64 string";

/// What is expected of a log level.
pub const EXPECT_LEVEL: &'static str = "log level ('normal', 'critical', 'debug')";

/// What is expected of a truth value.
pub const EXPECT_BOOLEAN: &'static str = "a boolean";

/// Why a file that stands in no directory is refused.
pub const NOT_ROOTED: &'static str = "Configuration files must be rooted in a directory.";

/// What the rules expect of the entry `name` when they refuse the value
/// `val`; `None` when they accept it. `resolves` tells whether the address
/// that `val` holds can be resolved.
pub open spec fn refusal(name: Seq<char>, val: Value, resolves: bool) -> Option<Seq<char>> {
    if name == "address"@ {
        match val {
            Value::String(s) => if s@.contains(':') {
                Some(EXPECT_NO_PORT@)
            } else if !resolves {
                Some(EXPECT_ADDRESS@)
            } else {
                None
            },
            _ => Some(EXPECT_STRING@),
        }
    } else if name == "port"@ {
        match val {
            Value::Integer(n) => if n < 0 || n > usize::MAX {
                Some(EXPECT_UNSIGNED@)
            } else {
                None
            },
            _ => Some(EXPECT_INTEGER@),
        }
    } else if name == "session_key"@ {
        match val {
            Value::String(s) => if encode_utf8(s@).len() != SESSION_KEY_LENGTH {
                Some(EXPECT_KEY@)
            } else {
                None
            },
            _ => Some(EXPECT_STRING@),
        }
    } else if name == "log"@ {
        match val {
            Value::String(s) => if s@ == "critical"@ || s@ == "normal"@ || s@ == "debug"@ {
                None
            } else {
                Some(EXPECT_LEVEL@)
            },
            _ => Some(EXPECT_STRING@),
        }
    } else {
        None
    }
}

/// Whether `done` is the error that tells that the entry `id` of the file
/// `filename` holds a value of the kind `actual` where `expected` was
/// expected.
pub open spec fn is_bad_type(
    done: Result<(), ConfigError>,
    id: Seq<char>,
    expected: Seq<char>,
    actual: Seq<char>,
    filename: Seq<char>,
) -> bool {
    done matches Err(ConfigError::BadType(i, e, a, f)) && i@ == id && e@ == expected && a@
        == actual && f@ == filename
}

/// Whether `after` is `before` with the entry `name` set to the value `val`,
/// which the rules accept.
pub open spec fn is_set(before: Config, name: Seq<char>, val: Value, after: Config) -> bool {
    if name == "address"@ {
        &&& after.address@ == val->String_0@
        &&& after.port == before.port
        &&& after.log_level == before.log_level
        &&& after.session_key == before.session_key
        &&& after.extra == before.extra
    } else if name == "port"@ {
        &&& after.port == val->Integer_0
        &&& after.address == before.address
        &&& after.log_level == before.log_level
        &&& after.session_key == before.session_key
        &&& after.extra == before.extra
    } else if name == "session_key"@ {
        &&& after.session_key is Some
        &&& after.session_key->0@ == val->String_0@
        &&& after.address == before.address
        &&& after.port == before.port
        &&& after.log_level == before.log_level
        &&& after.extra == before.extra
    } else if name == "log"@ {
        &&& after.log_level == if val->String_0@ == "critical"@ {
            LoggingLevel::Critical
        } else if val->String_0@ == "normal"@ {
            LoggingLevel::Normal
        } else {
            LoggingLevel::Debug
        }
        &&& after.address == before.address
        &&& after.port == before.port
        &&& after.session_key == before.session_key
        &&& after.extra == before.extra
    } else {
        &&& replaced(before.extra@, name, val, after.extra@)
        &&& after.address == before.address
        &&& after.port == before.port
        &&& after.log_level == before.log_level
        &&& after.session_key == before.session_key
    }
}

/// Whether no name occurs twice in `extra`.
pub open spec fn distinct_names(extra: Seq<(String, Value)>) -> bool {
    forall|i: int, j: int|
        0 <= i < j < extra.len() ==> (#[trigger] extra[i]).0@ != (#[trigger] extra[j]).0@
}

/// Whether `after` is `before` with the entry `name` set to `val`: the value
/// takes the place of the one that the name had, and a name that had none
/// comes behind the others. Every other entry stays as it is.
pub open spec fn replaced(
    before: Seq<(String, Value)>,
    name: Seq<char>,
    val: Value,
    after: Seq<(String, Value)>,
) -> bool {
    let at = last_entry(before, name);
    if at >= 0 {
        &&& after.len() == before.len()
        &&& after[at].0@ == name
        &&& after[at].1.same(&val)
        &&& forall|j: int| 0 <= j < before.len() && j != at ==> #[trigger] after[j] == before[j]
    } else {
        &&& after.len() == before.len() + 1
        &&& after.drop_last() == before
        &&& after.last().0@ == name
        &&& after.last().1.same(&val)
    }
}

/// `last_entry` gives a position that holds the name, or -1 when no position
/// holds it.
pub proof fn lemma_last_entry(extra: Seq<(String, Value)>, name: Seq<char>)
    ensures
        -1 <= last_entry(extra, name) < extra.len(),
        last_entry(extra, name) >= 0 ==> extra[last_entry(extra, name)].0@ == name,
        last_entry(extra, name) == -1 ==> forall|i: int|
            0 <= i < extra.len() ==> (#[trigger] extra[i]).0@ != name,
    decreases extra.len(),
{
    if extra.len() > 0 && extra.last().0@ != name {
        lemma_last_entry(extra.drop_last(), name);
        assert forall|i: int| 0 <= i < extra.len() && last_entry(extra, name)
            == -1 implies (#[trigger] extra[i]).0@ != name by {
            if i < extra.len() - 1 {
                assert(extra.drop_last()[i] == extra[i]);
            }
        }
    }
}

/// The position of the last entry in `extra` with the name `name`.
pub fn find_entry(extra: &Vec<(String, Value)>, name: &str) -> (at: Option<usize>)
    ensures
        match at {
            Some(i) => i == last_entry(extra@, name@),
            None => last_entry(extra@, name@) == -1,
        },
{
    let wanted = String::from_str(name);
    let mut k: usize = extra.len();
    assert(extra@.take(k as int) == extra@);
    while k > 0
        invariant
            k <= extra.len(),
            wanted@ == name@,
            last_entry(extra@, name@) == last_entry(extra@.take(k as int), name@),
        decreases k,
    {
        assert(extra@.take(k as int).last() == extra@[k - 1]);
        if extra[k - 1].0 == wanted {
            return Some(k - 1);
        }
        assert(extra@.take(k as int).drop_last() == extra@.take(k - 1));
        k = k - 1;
    }
    None
}

impl Config {
    /// The configuration that an environment has when nothing is set, for the
    /// file with the name `filename`. `has_parent` tells whether the file
    /// stands in a directory, as the file system's rules for paths have it;
    /// a file that stands in none is refused.
    pub fn default_for(env: Environment, filename: &str, has_parent: bool) -> (made: Result<
        Config,
        ConfigError,
    >)
        ensures
            !has_parent ==> (made matches Err(ConfigError::BadFilePath(path, reason)) && path@
                == filename@ && reason@ == NOT_ROOTED@),
            has_parent ==> (made matches Ok(config) && {
                &&& config.env == env
                &&& config.filename@ == filename@
                &&& config.session_key is None
                &&& config.extra@.len() == 0
                &&& config.address@ == if env == Environment::Development {
                    "localhost"@
                } else {
                    "0.0.0.0"@
                }
                &&& config.port == if env == Environment::Development {
                    8000usize
                } else {
                    80usize
                }
                &&& config.log_level == if env == Environment::Production {
                    LoggingLevel::Critical
                } else {
                    LoggingLevel::Normal
                }
            }),
    {
        if !has_parent {
            return Err(ConfigError::BadFilePath(String::from_str(filename), NOT_ROOTED));
        }
        let (address, port, log_level) = match env {
            Environment::Development => ("localhost", 8000, LoggingLevel::Normal),
            Environment::Staging => ("0.0.0.0", 80, LoggingLevel::Normal),
            Environment::Production => ("0.0.0.0", 80, LoggingLevel::Critical),
        };
        Ok(
            Config {
                address: String::from_str(address),
                port,
                log_level,
                session_key: None,
                extra: Vec::new(),
                env,
                filename: String::from_str(filename),
            },
        )
    }

    /// The error that tells that the entry `name` has the value `val` where
    /// `expect` was expected.
    pub fn bad_type(&self, name: &str, val: &Value, expect: &'static str) -> (error: ConfigError)
        ensures
            error matches ConfigError::BadType(id, expected, actual, filename) && id@
                == self.env.name() + seq!['.'] + name@ && expected@ == expect@ && actual@
                == val.kind_name() && filename@ == self.filename@,
    {
        let mut id = String::from_str(self.env.as_str());
        proof {
            reveal_strlit(".");
            assert("."@ =~= seq!['.']);
        }
        id.append(".");
        id.append(name);
        ConfigError::BadType(id, expect, val.type_str(), self.filename.clone())
    }

    /// Sets the entry `name` to `val`. The entries `address`, `port`,
    /// `session_key` and `log` are held to their rules; every other entry is
    /// kept as it is given, in place of the value that the entry had. `resolves`
    /// tells whether the address that `val` holds can be resolved; it is
    /// looked at for the entry `address` only. A value that the rules refuse
    /// changes nothing, and no name comes to stand twice among the entries.
    pub fn set(&mut self, name: &str, val: &Value, resolves: bool) -> (done: Result<
        (),
        ConfigError,
    >)
        ensures
            final(self).env == old(self).env,
            final(self).filename == old(self).filename,
            distinct_names(old(self).extra@) ==> distinct_names(final(self).extra@),
            match refusal(name@, *val, resolves) {
                Some(expect) => *final(self) == *old(self) && is_bad_type(
                    done,
                    old(self).env.name() + seq!['.'] + name@,
                    expect,
                    val.kind_name(),
                    old(self).filename@,
                ),
                None => done is Ok && is_set(*old(self), name@, *val, *final(self)),
            },
    {
        if str_eq(name, "address") {
            let address = match val.as_str() {
                Some(address) => address,
                None => {
                    return Err(self.bad_type(name, val, EXPECT_STRING));
                },
            };
            if text_contains(address, ':') {
                return Err(self.bad_type(name, val, EXPECT_NO_PORT));
            } else if !resolves {
                return Err(self.bad_type(name, val, EXPECT_ADDRESS));
            }
            self.address = String::from_str(address);
        } else if str_eq(name, "port") {
            let port = match val.as_integer() {
                Some(port) => port,
                None => {
                    return Err(self.bad_type(name, val, EXPECT_INTEGER));
                },
            };
            if port < 0 || port as u64 > usize::MAX as u64 {
                return Err(self.bad_type(name, val, EXPECT_UNSIGNED));
            }
            self.port = port as usize;
        } else if str_eq(name, "session_key") {
            let key = match val.as_str() {
                Some(key) => key,
                None => {
                    return Err(self.bad_type(name, val, EXPECT_STRING));
                },
            };
            if key.as_bytes().len() != SESSION_KEY_LENGTH {
                return Err(self.bad_type(name, val, EXPECT_KEY));
            }
            self.session_key = Some(String::from_str(key));
        } else if str_eq(name, "log") {
            let level = match val.as_str() {
                Some(level) => level,
                None => {
                    return Err(self.bad_type(name, val, EXPECT_STRING));
                },
            };
            match LoggingLevel::from_str(level) {
                Some(level) => {
                    self.log_level = level;
                },
                None => {
                    return Err(self.bad_type(name, val, EXPECT_LEVEL));
                },
            }
        } else {
            proof {
                lemma_last_entry(self.extra@, name@);
            }
            match find_entry(&self.extra, name) {
                Some(at) => {
                    self.extra.set(at, (String::from_str(name), val.clone()));
                    assert forall|i: int, j: int|
                        distinct_names(old(self).extra@) && 0 <= i < j
                            < self.extra@.len() implies (#[trigger] self.extra@[i]).0@ != (
                    #[trigger] self.extra@[j]).0@ by {
                        assert(old(self).extra@[i].0@ == self.extra@[i].0@);
                        assert(old(self).extra@[j].0@ == self.extra@[j].0@);
                    }
                },
                None => {
                    self.extra.push((String::from_str(name), val.clone()));
                    assert(self.extra@.drop_last() =~= old(self).extra@);
                    assert forall|i: int, j: int|
                        distinct_names(old(self).extra@) && 0 <= i < j
                            < self.extra@.len() implies (#[trigger] self.extra@[i]).0@ != (
                    #[trigger] self.extra@[j]).0@ by {
                        assert(self.extra@[i] == old(self).extra@[i]);
                        if j < old(self).extra@.len() {
                            assert(self.extra@[j] == old(self).extra@[j]);
                        }
                    }
                },
            }
        }
        Ok(())
    }

    /// Whether the table with the name `table` holds the entries of this
    /// configuration's environment. A table that is named after no
    /// environment is an error.
    pub fn applies(&self, table: &str) -> (applies: Result<bool, ConfigError>)
        ensures
            match Environment::named(table@) {
                Some(env) => applies matches Ok(own) && own == (env == self.env),
                None => applies matches Err(ConfigError::BadEntry(name, filename)) && name@
                    == table@ && filename@ == self.filename@,
            },
    {
        match Environment::from_str(table) {
            Some(env) => Ok(env == self.env),
            None => Err(ConfigError::BadEntry(String::from_str(table), self.filename.clone())),
        }
    }

    /// Takes the session key out of the configuration.
    pub fn take_session_key(&mut self) -> (key: Option<String>)
        ensures
            key == old(self).session_key,
            final(self).session_key is None,
            final(self).address == old(self).address,
            final(self).port == old(self).port,
            final(self).log_level == old(self).log_level,
            final(self).env == old(self).env,
            final(self).extra == old(self).extra,
            final(self).filename == old(self).filename,
    {
        self.session_key.take()
    }

    /// The entries that the engine itself does not read.
    pub fn extras(&self) -> (extra: &Vec<(String, Value)>)
        ensures
            *extra == self.extra,
    {
        &self.extra
    }

    /// The value of the entry `name`, among the entries that the engine
    /// itself does not read.
    pub fn get<'a>(&'a self, name: &str) -> (value: Option<&'a Value>)
        ensures
            -1 <= last_entry(self.extra@, name@) < self.extra@.len(),
            match value {
                Some(v) => last_entry(self.extra@, name@) >= 0 && *v == self.extra@[last_entry(
                    self.extra@,
                    name@,
                )].1,
                None => last_entry(self.extra@, name@) == -1,
            },
    {
        proof {
            lemma_last_entry(self.extra@, name@);
        }
        match find_entry(&self.extra, name) {
            Some(at) => Some(&self.extra[at].1),
            None => None,
        }
    }

    /// The text of the entry `name`. Gives `NotFound` when the entry was not
    /// set and `BadType` when it does not hold a string.
    pub fn get_str<'a>(&'a self, name: &str) -> (text: Result<&'a str, ConfigError>)
        ensures
            match text {
                Ok(t) => last_entry(self.extra@, name@) >= 0 && (self.extra@[last_entry(
                    self.extra@,
                    name@,
                )].1 matches Value::String(s) && t@ == s@),
                Err(ConfigError::NotFound) => last_entry(self.extra@, name@) == -1,
                Err(ConfigError::BadType(_, expected, _, _)) => last_entry(self.extra@, name@) >= 0
                    && !(self.extra@[last_entry(self.extra@, name@)].1 is String) && expected@
                    == EXPECT_STRING@,
                Err(_) => false,
            },
    {
        match self.get(name) {
            None => Err(ConfigError::NotFound),
            Some(value) => match value.as_str() {
                Some(text) => Ok(text),
                None => Err(self.bad_type(name, value, EXPECT_STRING)),
            },
        }
    }

    /// The number of the entry `name`. Gives `NotFound` when the entry was
    /// not set and `BadType` when it does not hold an integer.
    pub fn get_int(&self, name: &str) -> (number: Result<i64, ConfigError>)
        ensures
            match number {
                Ok(n) => last_entry(self.extra@, name@) >= 0 && self.extra@[last_entry(
                    self.extra@,
                    name@,
                )].1 == Value::Integer(n),
                Err(ConfigError::NotFound) => last_entry(self.extra@, name@) == -1,
                Err(ConfigError::BadType(_, expected, _, _)) => last_entry(self.extra@, name@) >= 0
                    && !(self.extra@[last_entry(self.extra@, name@)].1 is Integer) && expected@
                    == EXPECT_INTEGER@,
                Err(_) => false,
            },
    {
        match self.get(name) {
            None => Err(ConfigError::NotFound),
            Some(value) => match value.as_integer() {
                Some(number) => Ok(number),
                None => Err(self.bad_type(name, value, EXPECT_INTEGER)),
            },
        }
    }

    /// The truth value of the entry `name`. Gives `NotFound` when the entry
    /// was not set and `BadType` when it does not hold a boolean.
    pub fn get_bool(&self, name: &str) -> (truth: Result<bool, ConfigError>)
        ensures
            match truth {
                Ok(b) => last_entry(self.extra@, name@) >= 0 && self.extra@[last_entry(
                    self.extra@,
                    name@,
                )].1 == Value::Boolean(b),
                Err(ConfigError::NotFound) => last_entry(self.extra@, name@) == -1,
                Err(ConfigError::BadType(_, expected, _, _)) => last_entry(self.extra@, name@) >= 0
                    && !(self.extra@[last_entry(self.extra@, name@)].1 is Boolean) && expected@
                    == EXPECT_BOOLEAN@,
                Err(_) => false,
            },
    {
        match self.get(name) {
            None => Err(ConfigError::NotFound),
            Some(value) => match value.as_bool() {
                Some(truth) => Ok(truth),
                None => Err(self.bad_type(name, value, EXPECT_BOOLEAN)),
            },
        }
    }

    /// This configuration with another address.
    pub fn address(self, var: String) -> (config: Config)
        ensures
            config.address == var,
            config.port == self.port,
            config.log_level == self.log_level,
            config.env == self.env,
            config.session_key == self.session_key,
            config.extra == self.extra,
            config.filename == self.filename,
    {
        let mut config = self;
        config.address = var;
        config
    }

    /// This configuration with another port.
    pub fn port(self, var: usize) -> (config: Config)
        ensures
            config.port == var,
            config.address == self.address,
            config.log_level == self.log_level,
            config.env == self.env,
            config.session_key == self.session_key,
            config.extra == self.extra,
            config.filename == self.filename,
    {
        let mut config = self;
        config.port = var;
        config
    }

    /// This configuration with another log level.
    pub fn log_level(self, var: LoggingLevel) -> (config: Config)
        ensures
            config.log_level == var,
            config.address == self.address,
            config.port == self.port,
            config.env == self.env,
            config.session_key == self.session_key,
            config.extra == self.extra,
            config.filename == self.filename,
    {
        let mut config = self;
        config.log_level = var;
        config
    }

    /// This configuration with another session key.
    pub fn session_key(self, var: String) -> (config: Config)
        ensures
            config.session_key == Some(var),
            config.address == self.address,
            config.port == self.port,
            config.log_level == self.log_level,
            config.env == self.env,
            config.extra == self.extra,
            config.filename == self.filename,
    {
        let mut config = self;
        config.session_key = Some(var);
        config
    }

    /// This configuration for another environment.
    pub fn env(self, var: Environment) -> (config: Config)
        ensures
            config.env == var,
            config.address == self.address,
            config.port == self.port,
            config.log_level == self.log_level,
            config.session_key == self.session_key,
            config.extra == self.extra,
            config.filename == self.filename,
    {
        let mut config = self;
        config.env = var;
        config
    }
}

/// Whether `text` holds the character `c`.
pub fn text_contains(text: &str, c: char) -> (found: bool)
    ensures
        found == text@.contains(c),
{
    let chars = chars_of(text);
    let mut k: usize = 0;
    while k < chars.len()
        invariant
            chars@ == text@,
            k <= chars.len(),
            forall|j: int| 0 <= j < k ==> chars@[j] != c,
        decreases chars.len() - k,
    {
        if chars[k] == c {
            assert(chars@.contains(c));
            return true;
        }
        k = k + 1;
    }
    false
}

} // verus!
