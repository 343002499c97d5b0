//! A shared-text relay for a local network: one text value, a registry of
//! live connections, and the rules by which every edit reaches every
//! connection.
//!
//! The library is synchronous and owns no socket. A server drives it: it
//! hands in what happened on a connection and performs what the library
//! answers.

pub mod announce;
pub mod model;
pub mod relay;
pub mod routes;
pub mod session;
pub mod store;
