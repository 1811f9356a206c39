//! The harness's memory tools.

pub mod forget;
