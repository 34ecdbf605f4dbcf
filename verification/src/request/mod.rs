//! Requests, the rest of their input, and the values that handlers take from
//! their paths.

pub mod param;
pub mod request;

pub use self::param::{FromParam, FromSegments};
pub use self::request::{Data, Request};
