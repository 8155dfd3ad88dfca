//! The local notify endpoint: request parsing and the decisions of the
//! connection handler.

pub mod request;
pub mod server;
