//! System subsystem — default agent and task executor configuration.

use crate::agent::config::AgentConfig;
use crate::config::hooks::MemoryConfig;
use crate::hooks::os::bash::BashConfig;
use vstd::prelude::*;

verus! {

/// Top-level `[system]` configuration.
pub struct SystemConfig {
    /// The default system agent config (model, prompt, limits).
    pub crab: AgentConfig,
    /// Task executor pool configuration (`[system.tasks]`).
    pub tasks: TasksConfig,
    /// **Deprecated**: `[system.bash]`, captured only for migration.
    pub legacy_bash: Option<BashConfig>,
    /// **Deprecated**: moved to `[hooks.memory]`, captured only for
    /// migration.
    pub legacy_memory: Option<MemoryConfig>,
}

/// Task executor pool configuration.
#[derive(Debug, Clone, Copy, PartialEq, Eq, Structural)]
pub struct TasksConfig {
    /// Maximum number of concurrently InProgress tasks (default 4).
    pub max_concurrent: usize,
    /// Maximum number of tasks returned by queries (default 16).
    pub viewable_window: usize,
    /// Per-task execution timeout in seconds (default 300).
    pub task_timeout: u64,
}

impl Default for TasksConfig {
    fn default() -> (r: Self)
        ensures
            r.max_concurrent == 4,
            r.viewable_window == 16,
            r.task_timeout == 300,
    {
        TasksConfig { max_concurrent: 4, viewable_window: 16, task_timeout: 300 }
    }
}

impl Default for SystemConfig {
    fn default() -> (r: Self)
        ensures
            r.crab.max_iterations == 16,
            r.crab.name@.len() == 0,
            r.tasks.max_concurrent == 4,
            r.tasks.viewable_window == 16,
            r.tasks.task_timeout == 300,
            r.legacy_bash is None,
            r.legacy_memory is None,
    {
        SystemConfig {
            crab: AgentConfig::default(),
            tasks: TasksConfig::default(),
            legacy_bash: None,
            legacy_memory: None,
        }
    }
}

} // verus!
