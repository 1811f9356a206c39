//! Built-in hooks: OS tool policy, skills, memory and MCP tool schemas.

pub mod mcp;
pub mod memory;
pub mod os;
pub mod skill;
pub mod tool;
