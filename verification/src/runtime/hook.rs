//! Hook trait — lifecycle backend for agent building, user-content
//! preprocessing and history injection, reaching persistence through its
//! repository.

use crate::agent::config::AgentConfig;
use crate::model::HistoryEntry;
use crate::repos::sessions::InMemorySessionRepo;
use crate::text::string_of;
use vstd::prelude::*;

verus! {

/// Lifecycle backend for agent building and persistence. The lifecycle
/// methods default to leaving things as they are, so implementors only
/// override what they need.
pub trait Hook {
    /// Persistence backend this hook exposes to the runtime.
    type Repos;

    /// Shared handle to the persistence backend.
    fn repos(&self) -> &Self::Repos;

    /// Called before an agent is built from its configuration.
    fn on_build_agent(&self, config: AgentConfig) -> (r: AgentConfig)
        default_ensures
            r == config,
    {
        config
    }

    /// Called to preprocess user content before it becomes a message.
    fn preprocess(&self, agent: &str, content: &str) -> (r: String)
        default_ensures
            r@ == content@,
    {
        string_of(content)
    }

    /// Called before each agent run; the entries returned are injected
    /// into the history.
    fn on_before_run(&self, agent: &str, conversation_id: u64, history: &[HistoryEntry]) -> (r: Vec<HistoryEntry>)
        default_ensures
            r@.len() == 0,
    {
        Vec::new()
    }
}

/// Trivial [`Hook`] backed by in-memory sessions, for tests that need a
/// runtime but don't care about persistence.
pub struct TestHook {
    repos: InMemorySessionRepo,
}

impl TestHook {
    /// The hook's sessions.
    pub closed spec fn spec_repos(&self) -> InMemorySessionRepo {
        self.repos
    }

    /// A hook over an empty session store.
    pub fn new() -> (r: TestHook)
        ensures
            r.spec_repos().wf(),
            r.spec_repos().sessions@.len() == 0,
            r.spec_repos().next_seq == 0,
    {
        TestHook { repos: InMemorySessionRepo::new() }
    }
}

impl Hook for TestHook {
    type Repos = InMemorySessionRepo;

    fn repos(&self) -> (r: &InMemorySessionRepo)
        ensures
            *r == self.spec_repos(),
    {
        &self.repos
    }
}

} // verus!
