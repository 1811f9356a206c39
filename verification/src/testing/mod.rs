//! Test support: a scripted model provider's stream and its fixtures.

pub mod provider;
