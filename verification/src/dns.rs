//! Names: fake addresses, DNS messages and lookups.

pub mod doh;
pub mod fake_ip;
pub mod message;
