//! The agent: configuration, events, the loop's decisions, request
//! building and compaction.

pub mod compact;
pub mod config;
pub mod event;
pub mod request;
pub mod run;
pub mod tool;
