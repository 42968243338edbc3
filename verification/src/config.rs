//! Nodes, profiles and subscriptions.

pub mod catalog;
pub mod kept;
pub mod link;
pub mod node;
pub mod outbounds;
pub mod profiles;
pub mod share_link;
pub mod subscription;
pub mod yaml;
