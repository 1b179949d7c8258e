//! Schema-driven API binding core.
//!
//! A single declarative schema of an HTTP-style API (routes, path captures,
//! query parameters, request bodies, response types) is the one source of
//! truth from which a server-side dispatcher, a client, and documentation are
//! derived.  The schema is built once and validated once; the dispatcher is a
//! pure function from a request descriptor to a response descriptor.

pub mod binding;
pub mod bytes;
pub mod client;
pub mod codec;
pub mod dec;
pub mod demo;
pub mod dispatch;
pub mod docs;
pub mod errors;
pub mod kinds;
pub mod pathq;
pub mod registry;
pub mod scalar;
pub mod schema;
