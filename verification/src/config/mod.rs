//! Configuration: its values, its rules and its errors.

pub mod config;
pub mod environment;
pub mod error;

pub use self::config::{Config, Value};
pub use self::environment::{Environment, LoggingLevel};
pub use self::error::{ConfigError, ParsingError};
