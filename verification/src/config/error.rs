//! The errors that reading a configuration can end in.

use vstd::prelude::*;

verus! {

/// One error in the text of a configuration file.
#[derive(Debug, PartialEq)]
pub struct ParsingError {
    /// The first and the last byte of the text that is wrong.
    pub byte_range: (usize, usize),
    /// The line and column where the wrong text starts.
    pub start: (usize, usize),
    /// The line and column where the wrong text ends.
    pub end: (usize, usize),
    /// What is wrong.
    pub desc: String,
}

impl Clone for ParsingError {
    fn clone(&self) -> (copy: ParsingError)
        ensures
            copy.byte_range == self.byte_range,
            copy.start == self.start,
            copy.end == self.end,
            copy.desc@ == self.desc@,
    {
        ParsingError {
            byte_range: self.byte_range,
            start: self.start,
            end: self.end,
            desc: self.desc.clone(),
        }
    }
}

/// The ways in which reading a configuration can fail.
#[derive(Debug, PartialEq, Clone)]
pub enum ConfigError {
    /// The current working directory could not be determined.
    BadCWD,
    /// The configuration file was not found.
    NotFound,
    /// There was an I/O error while reading the configuration file.
    IOError,
    /// The path at which the configuration file was found was invalid.
    ///
    /// Parameters: (path, reason)
    BadFilePath(String, &'static str),
    /// The name of the environment is invalid.
    ///
    /// Parameters: (environment_name)
    BadEnv(String),
    /// An environment specified as a table `[environment]` is invalid.
    ///
    /// Parameters: (environment_name, filename)
    BadEntry(String, String),
    /// A key was specified with a value of the wrong type.
    ///
    /// Parameters: (entry_name, expected_type, actual_type, filename)
    BadType(String, &'static str, &'static str, String),
    /// The text of the file is no valid configuration.
    ///
    /// Parameters: (source_string, filename, error_list)
    ParseError(String, String, Vec<ParsingError>),
}

impl ConfigError {
    /// Whether this error is the `NotFound` variant.
    pub fn is_not_found(&self) -> (not_found: bool)
        ensures
            not_found == (*self is NotFound),
    {
        match self {
            ConfigError::NotFound => true,
            _ => false,
        }
    }
}

} // verus!
