//! REALITY: a TLS 1.3 client whose hello proves itself to the server.

pub mod auth;
pub mod handshake;
pub mod hello;
pub mod messages;
pub mod record;
pub mod schedule;
pub mod stream;
pub mod writer;
