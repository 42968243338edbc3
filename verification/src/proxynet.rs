//! The outbound protocols.

pub mod address;
pub mod aead;
pub mod crypto;
pub mod dial;
pub mod error;
pub mod http_connect;
pub mod obfs;
pub mod options;
pub mod outgoing;
pub mod reality;
pub mod socks;
pub mod ss;
pub mod transport;
pub mod trojan;
pub mod vision;
pub mod vless;
pub mod vmess;
