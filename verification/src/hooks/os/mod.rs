//! OS tools: the bash command policy.

pub mod bash;
