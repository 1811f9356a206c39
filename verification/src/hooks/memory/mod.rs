//! Memory hook: the per-agent recall limits it keeps, the tool inputs it
//! accepts and how recall hits are rendered for the model.

pub mod handlers;
pub mod recall;

use crate::config::hooks::MemoryConfig;
use crate::table::NameTable;
use crate::text::string_of;
use vstd::prelude::*;

verus! {

/// The recall limit used for an agent that registered no memory config.
pub const DEFAULT_RECALL_LIMIT: usize = 5;

/// Per-agent recall limits, filled as agents register with the memory
/// hook so that a recall needs no storage round trip.
pub struct RecallLimits {
    configs: NameTable<MemoryConfig>,
}

/// The limit for `agent` under `configs`: its own, else the default.
pub open spec fn limit_for(configs: Map<Seq<char>, MemoryConfig>, agent: Seq<char>) -> usize {
    if configs.dom().contains(agent) {
        configs[agent].recall_limit
    } else {
        DEFAULT_RECALL_LIMIT
    }
}

impl RecallLimits {
    /// The registered configs by agent name.
    pub closed spec fn configs(&self) -> Map<Seq<char>, MemoryConfig> {
        self.configs@
    }

    pub closed spec fn wf(&self) -> bool {
        self.configs.wf()
    }

    /// No agent registered.
    pub fn new() -> (r: RecallLimits)
        ensures
            r.wf(),
            r.configs() == Map::<Seq<char>, MemoryConfig>::empty(),
    {
        RecallLimits { configs: NameTable::new() }
    }

    /// Remember the memory config of agent `name`.
    pub fn on_register_agent(&mut self, name: &str, config: &MemoryConfig)
        requires
            old(self).wf(),
        ensures
            final(self).wf(),
            final(self).configs() == old(self).configs().insert(name@, *config),
    {
        self.configs.insert(string_of(name), *config);
    }

    /// Forget agent `name`.
    pub fn on_unregister_agent(&mut self, name: &str)
        requires
            old(self).wf(),
        ensures
            final(self).wf(),
            final(self).configs() == old(self).configs().remove(name@),
    {
        let _ = self.configs.remove(name);
    }

    /// The recall limit of `agent`: its registered one, else the default.
    pub fn recall_limit(&self, agent: &str) -> (r: usize)
        requires
            self.wf(),
        ensures
            r == limit_for(self.configs(), agent@),
    {
        match self.configs.get(agent) {
            Some(c) => c.recall_limit,
            None => DEFAULT_RECALL_LIMIT,
        }
    }
}

/// After an agent registers, its recalls use the limit it registered.
pub proof fn lemma_registered_limit(configs: Map<Seq<char>, MemoryConfig>, agent: Seq<char>, config: MemoryConfig)
    ensures
        limit_for(configs.insert(agent, config), agent) == config.recall_limit,
{
}

/// After an agent unregisters, its recalls fall back to the default, and
/// other agents keep theirs.
pub proof fn lemma_unregistered_limit(configs: Map<Seq<char>, MemoryConfig>, agent: Seq<char>, other: Seq<char>)
    requires
        other != agent,
    ensures
        limit_for(configs.remove(agent), agent) == DEFAULT_RECALL_LIMIT,
        limit_for(configs.remove(agent), other) == limit_for(configs, other),
{
}

} // verus!
