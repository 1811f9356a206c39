//! On-disk state: the one-shot migrations applied before the daemon reads
//! it.

pub mod migrate;
