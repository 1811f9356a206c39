//! Memory tool inputs and schemas.

pub mod tools;
