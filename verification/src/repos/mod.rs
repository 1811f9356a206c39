//! Persistence: agents, sessions and skills.

pub mod agents;
pub mod sessions;
pub mod skills;
