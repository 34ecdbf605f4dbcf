//! Request routing core: path segments, route collisions, ranked candidate
//! selection and outcome-driven dispatch.

pub mod catcher;
pub mod codegen;
pub mod config;
pub mod error;
pub mod handler;
pub mod http;
pub mod method;
pub mod outcome;
pub mod request;
pub mod response;
pub mod rocket;
pub mod router;
pub mod testing;

pub use catcher::Catcher;
pub use error::Error;
pub use handler::{Answer, ErrorHandler, Handler};
pub use method::Method;
pub use outcome::Outcome;
pub use request::{Data, Request};
pub use response::{Responder, Response};
pub use rocket::{ignite, Rocket};
pub use router::collider::Collider;
pub use router::route::Route;
pub use router::uri::{URIBuf, URI};
pub use router::Router;
