//! A small HTTP/1.1 server core: request parsing, response serialization,
//! path routing with named captures, an ordered middleware chain, and the
//! decision logic of a fixed worker pool.

pub mod context;
pub mod error;
pub mod fields;
pub mod length;
pub mod request;
pub mod response;
pub mod router;
pub mod server;
pub mod text;
pub mod utils;
