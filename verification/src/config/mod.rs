//! Shared configuration types.

pub mod daemon;
pub mod harness;
pub mod hooks;
pub mod llm;
pub mod manifest;
pub mod system;
