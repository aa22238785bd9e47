pub mod broker;
pub mod broker_info;
pub mod config;
pub mod error;
pub mod handler;
pub mod headers;
pub mod packets;
pub mod pattern;
pub mod queue;
pub mod server;
pub mod topic_heir;
pub mod topics;
pub mod utils;
