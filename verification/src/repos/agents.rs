//! Agent repository: agent configurations and their prompts, by name and
//! by id.
//!
//! An agent's id is its ULID, 128 bits; the nil id (0) names no agent. The
//! prompt is stored beside the configuration and read back as its system
//! prompt.

use crate::agent::config::AgentConfig;
use crate::model::str_eq;
use crate::text::string_of;
use vstd::prelude::*;

verus! {

/// Persistence backend for agent definitions. The repository owns the
/// encoding; the trait speaks configurations, prompts and ids.
pub trait AgentRepo {
    /// Every stored agent, its prompt as its system prompt.
    fn list(&self) -> Result<Vec<AgentConfig>, String>;

    /// The agent with id `id`.
    fn load(&self, id: u128) -> Result<Option<AgentConfig>, String>;

    /// The agent called `name`.
    fn load_by_name(&self, name: &str) -> Result<Option<AgentConfig>, String>;

    /// Create or replace the agent called `config.name`.
    fn upsert(&mut self, id: u128, config: &AgentConfig, prompt: &str) -> Result<(), String>;

    /// Delete the agent with id `id`; whether there was one.
    fn delete(&mut self, id: u128) -> Result<bool, String>;

    /// Rename the agent with id `id`; the id stays. Whether there was one.
    fn rename(&mut self, id: u128, new_name: &str) -> Result<bool, String>;
}

/// One stored agent.
pub struct StoredAgent {
    pub id: u128,
    pub config: AgentConfig,
    pub prompt: String,
}

/// A stored agent read as its id, configuration and prompt.
pub struct AgentEntry {
    pub id: u128,
    pub config: AgentConfig,
    pub prompt: Seq<char>,
}

/// The entry of a stored agent.
pub open spec fn entry_of(a: StoredAgent) -> AgentEntry {
    AgentEntry { id: a.id, config: a.config, prompt: a.prompt@ }
}

/// The entries of a list of stored agents.
pub open spec fn entries_of(agents: Seq<StoredAgent>) -> Seq<AgentEntry> {
    agents.map_values(|a: StoredAgent| entry_of(a))
}

/// Whether `c` is how entry `e` reads back: its configuration, with its
/// prompt as system prompt.
pub open spec fn reads_back(c: AgentConfig, e: AgentEntry) -> bool {
    &&& c.name == e.config.name
    &&& c.description == e.config.description
    &&& c.system_prompt@ == e.prompt
    &&& c.model == e.config.model
    &&& c.max_iterations == e.config.max_iterations
    &&& c.tool_choice == e.config.tool_choice
    &&& c.thinking == e.config.thinking
}

/// Whether `i` is the first entry with id `id`.
pub open spec fn first_with_id(entries: Seq<AgentEntry>, id: u128, i: int) -> bool {
    &&& 0 <= i < entries.len()
    &&& entries[i].id == id
    &&& forall|j: int| 0 <= j < i ==> entries[j].id != id
}

/// Whether some entry has id `id`.
pub open spec fn has_id(entries: Seq<AgentEntry>, id: u128) -> bool {
    exists|i: int| 0 <= i < entries.len() && #[trigger] entries[i].id == id
}

/// The position of the entry called `name`.
pub open spec fn name_index(entries: Seq<AgentEntry>, name: Seq<char>) -> Option<int> {
    if exists|i: int| 0 <= i < entries.len() && #[trigger] entries[i].config.name@ == name {
        Some(choose|i: int| 0 <= i < entries.len() && #[trigger] entries[i].config.name@ == name)
    } else {
        None
    }
}

/// `entries` with `e` stored under its name: in place of the entry of
/// that name, or after the others.
pub open spec fn stored(entries: Seq<AgentEntry>, e: AgentEntry) -> Seq<AgentEntry> {
    match name_index(entries, e.config.name@) {
        Some(i) => entries.update(i, e),
        None => entries.push(e),
    }
}

/// No two entries share a name.
pub open spec fn names_distinct(entries: Seq<AgentEntry>) -> bool {
    forall|i: int, j: int|
        0 <= i < j < entries.len() ==> #[trigger] entries[i].config.name@ != #[trigger] entries[j].config.name@
}

/// What is stored under a name is what loading that name gives back: after
/// `e` is stored, its name finds `e`.
pub proof fn lemma_stored_reads_back(entries: Seq<AgentEntry>, e: AgentEntry)
    requires
        names_distinct(entries),
    ensures
        names_distinct(stored(entries, e)),
        name_index(stored(entries, e), e.config.name@) matches Some(i) && stored(entries, e)[i] == e,
{
    let n = e.config.name@;
    let after = stored(entries, e);
    match name_index(entries, n) {
        Some(i) => {
            assert(entries[i].config.name@ == n);
            assert forall|x: int, y: int| 0 <= x < y < after.len() implies #[trigger] after[x].config.name@
                != #[trigger] after[y].config.name@ by {
                if x == i {
                    assert(entries[x].config.name@ != entries[y].config.name@);
                } else if y == i {
                    assert(entries[x].config.name@ != entries[y].config.name@);
                } else {
                    assert(entries[x].config.name@ != entries[y].config.name@);
                }
            }
            assert(after[i].config.name@ == n);
        },
        None => {
            assert forall|x: int| 0 <= x < entries.len() implies #[trigger] entries[x].config.name@ != n by {
                if entries[x].config.name@ == n {
                    assert(exists|k: int| 0 <= k < entries.len() && #[trigger] entries[k].config.name@ == n);
                }
            }
            assert forall|x: int, y: int| 0 <= x < y < after.len() implies #[trigger] after[x].config.name@
                != #[trigger] after[y].config.name@ by {
                if y < entries.len() {
                    assert(entries[x].config.name@ != entries[y].config.name@);
                } else {
                    assert(after[x] == entries[x]);
                }
            }
            assert(after[entries.len() as int].config.name@ == n);
        },
    }
    let k = choose|k: int| 0 <= k < after.len() && #[trigger] after[k].config.name@ == n;
    let at = match name_index(entries, n) {
        Some(i) => i,
        None => entries.len() as int,
    };
    assert(after[at].config.name@ == n);
    if k != at {
        if k < at {
            assert(after[k].config.name@ != after[at].config.name@);
        } else {
            assert(after[at].config.name@ != after[k].config.name@);
        }
    }
}

/// Agents held in memory.
pub struct InMemoryAgentRepo {
    agents: Vec<StoredAgent>,
}

impl InMemoryAgentRepo {
    /// The stored agents, in the order their names were first stored.
    pub closed spec fn entries(&self) -> Seq<AgentEntry> {
        entries_of(self.agents@)
    }

    /// No two agents share a name.
    pub open spec fn wf(&self) -> bool {
        names_distinct(self.entries())
    }

    /// No agents.
    pub fn new() -> (r: InMemoryAgentRepo)
        ensures
            r.wf(),
            r.entries().len() == 0,
    {
        InMemoryAgentRepo { agents: Vec::new() }
    }

    /// The position of the agent called `name`.
    fn position_of_name(&self, name: &str) -> (r: Option<usize>)
        requires
            self.wf(),
        ensures
            match r {
                Some(i) => name_index(self.entries(), name@) == Some(i as int),
                None => name_index(self.entries(), name@) is None,
            },
    {
        let ghost es = self.entries();
        let mut i: usize = 0;
        while i < self.agents.len()
            invariant
                es == entries_of(self.agents@),
                es == self.entries(),
                self.wf(),
                i <= self.agents@.len(),
                forall|j: int| 0 <= j < i ==> #[trigger] es[j].config.name@ != name@,
            decreases self.agents@.len() - i,
        {
            if str_eq(self.agents[i].config.name.as_str(), name) {
                proof {
                    assert(es[i as int].config.name@ == name@);
                    let k = choose|k: int| 0 <= k < es.len() && #[trigger] es[k].config.name@ == name@;
                    if k < i {
                        assert(es[k].config.name@ != name@);
                    } else if k > i {
                        assert(es[i as int].config.name@ != es[k].config.name@);
                    }
                }
                return Some(i);
            }
            i += 1;
        }
        None
    }

    /// The position of the first agent with id `id`.
    fn position_of_id(&self, id: u128) -> (r: Option<usize>)
        ensures
            match r {
                Some(i) => first_with_id(self.entries(), id, i as int),
                None => !has_id(self.entries(), id),
            },
    {
        let ghost es = self.entries();
        let mut i: usize = 0;
        while i < self.agents.len()
            invariant
                es == entries_of(self.agents@),
                i <= self.agents@.len(),
                forall|j: int| 0 <= j < i ==> #[trigger] es[j].id != id,
            decreases self.agents@.len() - i,
        {
            if self.agents[i].id == id {
                return Some(i);
            }
            assert(es[i as int].id != id);
            i += 1;
        }
        None
    }

    /// The configuration of the agent at `i`, its prompt as system prompt.
    fn read(&self, i: usize) -> (r: AgentConfig)
        requires
            i < self.entries().len(),
        ensures
            reads_back(r, self.entries()[i as int]),
    {
        let a = &self.agents[i];
        let mut c = a.config.copy();
        c.system_prompt = a.prompt.clone();
        c
    }

    /// Store `a` under its name.
    fn store(&mut self, a: StoredAgent)
        requires
            old(self).wf(),
        ensures
            final(self).wf(),
            final(self).entries() == stored(old(self).entries(), entry_of(a)),
    {
        let ghost before = self.entries();
        let ghost e = entry_of(a);
        match self.position_of_name(a.config.name.as_str()) {
            Some(i) => {
                self.agents.set(i, a);
                assert(self.entries() =~= before.update(i as int, e));
            },
            None => {
                self.agents.push(a);
                assert(self.entries() =~= before.push(e));
                proof {
                    assert forall|x: int| 0 <= x < before.len() implies #[trigger] before[x].config.name@ != e.config.name@ by {
                        if before[x].config.name@ == e.config.name@ {
                            assert(exists|k: int| 0 <= k < before.len() && #[trigger] before[k].config.name@
                                == e.config.name@);
                        }
                    }
                }
            },
        }
        proof {
            let after = self.entries();
            assert forall|x: int, y: int| 0 <= x < y < after.len() implies #[trigger] after[x].config.name@
                != #[trigger] after[y].config.name@ by {
                if x < before.len() && y < before.len() {
                    assert(before[x].config.name@ != before[y].config.name@);
                }
            }
        }
    }

    /// Every stored agent, its prompt as its system prompt, in order.
    pub fn list(&self) -> (r: Result<Vec<AgentConfig>, String>)
        ensures
            r matches Ok(v) && v@.len() == self.entries().len() && forall|i: int|
                0 <= i < v@.len() ==> reads_back(#[trigger] v@[i], self.entries()[i]),
    {
        let mut out: Vec<AgentConfig> = Vec::new();
        let mut i: usize = 0;
        while i < self.agents.len()
            invariant
                i <= self.agents@.len(),
                self.entries().len() == self.agents@.len(),
                out@.len() == i,
                forall|k: int| 0 <= k < i ==> reads_back(#[trigger] out@[k], self.entries()[k]),
            decreases self.agents@.len() - i,
        {
            let c = self.read(i);
            out.push(c);
            i += 1;
        }
        Ok(out)
    }

    /// The first agent with id `id`.
    pub fn load(&self, id: u128) -> (r: Result<Option<AgentConfig>, String>)
        ensures
            match r {
                Ok(Some(c)) => exists|i: int| first_with_id(self.entries(), id, i) && reads_back(c, self.entries()[i]),
                Ok(None) => !has_id(self.entries(), id),
                Err(_) => false,
            },
    {
        match self.position_of_id(id) {
            Some(i) => Ok(Some(self.read(i))),
            None => Ok(None),
        }
    }

    /// The agent called `name`.
    pub fn load_by_name(&self, name: &str) -> (r: Result<Option<AgentConfig>, String>)
        requires
            self.wf(),
        ensures
            match r {
                Ok(Some(c)) => name_index(self.entries(), name@) matches Some(i) && reads_back(c, self.entries()[i]),
                Ok(None) => name_index(self.entries(), name@) is None,
                Err(_) => false,
            },
    {
        match self.position_of_name(name) {
            Some(i) => Ok(Some(self.read(i))),
            None => Ok(None),
        }
    }

    /// Create or replace the agent called `config.name`, with id `id` and
    /// `prompt`. Refused for the nil id and for an empty name.
    pub fn upsert(&mut self, id: u128, config: &AgentConfig, prompt: &str) -> (r: Result<(), String>)
        requires
            old(self).wf(),
        ensures
            final(self).wf(),
            match r {
                Ok(()) => id != 0 && config.name@.len() > 0 && final(self).entries() == stored(
                    old(self).entries(),
                    AgentEntry { id, config: *config, prompt: prompt@ },
                ),
                Err(e) => final(self).entries() == old(self).entries() && ((id == 0 && e@
                    == "cannot upsert agent with nil ID"@) || (id != 0 && config.name@.len() == 0 && e@
                    == "cannot upsert agent with empty name"@)),
            },
    {
        if id == 0 {
            return Err(string_of("cannot upsert agent with nil ID"));
        }
        if config.name.as_str().is_empty() {
            return Err(string_of("cannot upsert agent with empty name"));
        }
        self.store(StoredAgent { id, config: config.copy(), prompt: string_of(prompt) });
        Ok(())
    }

    /// Delete the first agent with id `id`; whether there was one.
    pub fn delete(&mut self, id: u128) -> (r: Result<bool, String>)
        requires
            old(self).wf(),
        ensures
            final(self).wf(),
            match r {
                Ok(true) => exists|i: int| first_with_id(old(self).entries(), id, i) && final(self).entries()
                    == old(self).entries().remove(i),
                Ok(false) => !has_id(old(self).entries(), id) && final(self).entries() == old(self).entries(),
                Err(_) => false,
            },
    {
        match self.position_of_id(id) {
            Some(i) => {
                let ghost before = self.entries();
                let _ = self.agents.remove(i);
                proof {
                    assert(self.entries() =~= before.remove(i as int));
                    let after = self.entries();
                    assert forall|x: int, y: int| 0 <= x < y < after.len() implies #[trigger] after[x].config.name@
                        != #[trigger] after[y].config.name@ by {
                        let bx = if x < i { x } else { x + 1 };
                        let by = if y < i { y } else { y + 1 };
                        assert(after[x] == before[bx]);
                        assert(after[y] == before[by]);
                        assert(before[bx].config.name@ != before[by].config.name@);
                    }
                }
                Ok(true)
            },
            None => Ok(false),
        }
    }

    /// Give the first agent with id `id` the name `new_name`; it keeps its
    /// id, configuration and prompt, and replaces an agent already called
    /// `new_name`. Whether there was one.
    pub fn rename(&mut self, id: u128, new_name: &str) -> (r: Result<bool, String>)
        requires
            old(self).wf(),
        ensures
            final(self).wf(),
            match r {
                Ok(true) => exists|i: int|
                    first_with_id(old(self).entries(), id, i) && renamed_to(
                        old(self).entries()[i],
                        new_name@,
                        final(self).entries(),
                        old(self).entries().remove(i),
                    ),
                Ok(false) => !has_id(old(self).entries(), id) && final(self).entries() == old(self).entries(),
                Err(_) => false,
            },
    {
        match self.position_of_id(id) {
            Some(i) => {
                let ghost before = self.entries();
                let mut a = self.agents.remove(i);
                proof {
                    assert(self.entries() =~= before.remove(i as int));
                    let after = self.entries();
                    assert forall|x: int, y: int| 0 <= x < y < after.len() implies #[trigger] after[x].config.name@
                        != #[trigger] after[y].config.name@ by {
                        let bx = if x < i { x } else { x + 1 };
                        let by = if y < i { y } else { y + 1 };
                        assert(after[x] == before[bx]);
                        assert(after[y] == before[by]);
                        assert(before[bx].config.name@ != before[by].config.name@);
                    }
                }
                a.config.name = string_of(new_name);
                let ghost e = entry_of(a);
                self.store(a);
                assert(renamed_to(before[i as int], new_name@, self.entries(), before.remove(i as int)));
                Ok(true)
            },
            None => Ok(false),
        }
    }
}

/// Whether `after` is `rest` with `e` stored again under `name`, keeping
/// its id, prompt and every other setting.
pub open spec fn renamed_to(e: AgentEntry, name: Seq<char>, after: Seq<AgentEntry>, rest: Seq<AgentEntry>) -> bool {
    exists|c: AgentConfig|
        {
            &&& c.name@ == name
            &&& c.description == e.config.description
            &&& c.system_prompt == e.config.system_prompt
            &&& c.model == e.config.model
            &&& c.max_iterations == e.config.max_iterations
            &&& c.tool_choice == e.config.tool_choice
            &&& c.thinking == e.config.thinking
            &&& after == stored(rest, AgentEntry { id: e.id, config: c, prompt: e.prompt })
        }
}

} // verus!
