//! Per-agent hook configuration — memory recall tuning.

use vstd::prelude::*;

verus! {

/// Per-agent hook configuration.
///
/// OS-tool configuration used to live here under `bash`, but OS tool
/// execution moved client-side; the daemon no longer enforces any bash
/// policy from here.
pub struct HooksConfig {
    /// Memory hook configuration (`hooks.memory` under an agent).
    pub memory: MemoryConfig,
}

/// Built-in memory configuration.
#[derive(Debug, Clone, Copy, PartialEq, Eq, Structural)]
pub struct MemoryConfig {
    /// Maximum entries returned by auto-recall (default 5).
    pub recall_limit: usize,
}

impl Default for MemoryConfig {
    fn default() -> (r: Self)
        ensures
            r.recall_limit == 5,
    {
        MemoryConfig { recall_limit: 5 }
    }
}

impl Default for HooksConfig {
    fn default() -> (r: Self)
        ensures
            r.memory.recall_limit == 5,
    {
        HooksConfig { memory: MemoryConfig::default() }
    }
}

} // verus!
