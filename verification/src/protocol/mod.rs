//! The wire protocol: stream events and the relay of an agent run onto
//! the wire.

pub mod admin;
pub mod conversation;
pub mod message;
