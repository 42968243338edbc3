//! VMess.

pub mod crypto;
pub mod kdf;
pub mod protocol;
pub mod stream;
