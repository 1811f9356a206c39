//! Skill tool: loading and discovery, and slash-skill preprocessing.

pub mod handler;
