//! Skill repository trait and domain type.
//!
//! [`SkillRepo`] abstracts skill discovery and loading. Implementations
//! own multi-root composition and the SKILL.md parsing pipeline. The
//! trait is read-only — users author SKILL.md files on disk or install
//! packages.

use crate::hooks::skill::handler::{find_skill, has_skill, is_first_named};
use vstd::prelude::*;

verus! {

/// A named unit of agent behavior (agentskills.io format).
pub struct Skill {
    pub name: String,
    pub description: String,
    pub license: Option<String>,
    pub compatibility: Option<String>,
    /// Free-form metadata, in key order.
    pub metadata: Vec<(String, String)>,
    pub allowed_tools: Vec<String>,
    pub body: String,
}

/// Persistence backend for skill discovery.
///
/// Implementations own multi-root composition, SKILL.md parsing, and
/// filtering of hidden/disabled skills. The trait speaks domain types
/// only — no path manipulation, no byte buffers.
pub trait SkillRepo {
    /// List all available skills.
    fn list(&self) -> Result<Vec<Skill>, String>;

    /// Load a specific skill by name. Returns `None` if not found.
    fn load(&self, name: &str) -> Result<Option<Skill>, String>;
}

/// Whether `a` holds what `b` holds.
pub open spec fn same_skill(a: Skill, b: Skill) -> bool {
    &&& a.name@ == b.name@
    &&& a.description@ == b.description@
    &&& a.license == b.license
    &&& a.compatibility == b.compatibility
    &&& a.metadata@ == b.metadata@
    &&& a.allowed_tools@ == b.allowed_tools@
    &&& a.body@ == b.body@
}

impl Skill {
    /// A copy of this skill.
    pub fn copy(&self) -> (r: Skill)
        ensures
            same_skill(r, *self),
    {
        let mut metadata: Vec<(String, String)> = Vec::new();
        let mut i: usize = 0;
        while i < self.metadata.len()
            invariant
                i <= self.metadata@.len(),
                metadata@ == self.metadata@.take(i as int),
            decreases self.metadata@.len() - i,
        {
            metadata.push((self.metadata[i].0.clone(), self.metadata[i].1.clone()));
            i += 1;
            assert(metadata@ =~= self.metadata@.take(i as int));
        }
        assert(self.metadata@.take(i as int) =~= self.metadata@);
        let mut allowed_tools: Vec<String> = Vec::new();
        let mut j: usize = 0;
        while j < self.allowed_tools.len()
            invariant
                j <= self.allowed_tools@.len(),
                allowed_tools@ == self.allowed_tools@.take(j as int),
            decreases self.allowed_tools@.len() - j,
        {
            allowed_tools.push(self.allowed_tools[j].clone());
            j += 1;
            assert(allowed_tools@ =~= self.allowed_tools@.take(j as int));
        }
        assert(self.allowed_tools@.take(j as int) =~= self.allowed_tools@);
        Skill {
            name: self.name.clone(),
            description: self.description.clone(),
            license: match &self.license {
                Some(l) => Some(l.clone()),
                None => None,
            },
            compatibility: match &self.compatibility {
                Some(c) => Some(c.clone()),
                None => None,
            },
            metadata,
            allowed_tools,
            body: self.body.clone(),
        }
    }
}

/// Skills held in memory, for tests.
pub struct InMemorySkillRepo {
    pub skills: Vec<Skill>,
}

impl InMemorySkillRepo {
    pub fn with_skills(skills: Vec<Skill>) -> (r: InMemorySkillRepo)
        ensures
            r.skills == skills,
    {
        InMemorySkillRepo { skills }
    }
}

impl SkillRepo for InMemorySkillRepo {
    fn list(&self) -> (r: Result<Vec<Skill>, String>)
        ensures
            r matches Ok(v) && v@.len() == self.skills@.len() && forall|i: int|
                0 <= i < v@.len() ==> same_skill(#[trigger] v@[i], self.skills@[i]),
    {
        let mut out: Vec<Skill> = Vec::new();
        let mut i: usize = 0;
        while i < self.skills.len()
            invariant
                i <= self.skills@.len(),
                out@.len() == i,
                forall|k: int| 0 <= k < i ==> same_skill(#[trigger] out@[k], self.skills@[k]),
            decreases self.skills@.len() - i,
        {
            out.push(self.skills[i].copy());
            i += 1;
        }
        Ok(out)
    }

    fn load(&self, name: &str) -> (r: Result<Option<Skill>, String>)
        ensures
            match r {
                Ok(Some(s)) => exists|i: int| is_first_named(self.skills@, name@, i) && same_skill(s, self.skills@[i]),
                Ok(None) => !has_skill(self.skills@, name@),
                Err(_) => false,
            },
    {
        match find_skill(&self.skills, name) {
            Some(i) => Ok(Some(self.skills[i].copy())),
            None => Ok(None),
        }
    }
}

} // verus!
