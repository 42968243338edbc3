//! The virtual interface that catches all traffic.

pub mod packet;
pub mod probe;
pub mod routes;
pub mod service;
pub mod stack;
pub mod tcp_nat;
