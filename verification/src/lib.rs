//! Core of a rule based proxy client.

pub mod bindings;
pub mod calendar;
pub mod codec;
pub mod config;
pub mod dns;
pub mod hash;
pub mod inbound;
pub mod ip;
pub mod json;
pub mod net;
pub mod outbound;
pub mod panel;
pub mod paths;
pub mod proxynet;
pub mod random;
pub mod relay;
pub mod rules;
pub mod sysproxy;
pub mod text;
pub mod theme;
pub mod tray;
pub mod tun;
pub mod ui_state;
pub mod utils;
pub mod wide;
