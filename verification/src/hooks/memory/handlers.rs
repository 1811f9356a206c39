//! Memory tools — recall, remember, forget, memory — and how the hook
//! routes a call to one of them.

use crate::model::str_eq;
use vstd::prelude::*;

verus! {

/// Search your memory entries by keyword. Returns ranked results.
pub struct Recall {
    /// Keyword or phrase to search your memory entries for.
    pub query: String,
    /// Maximum number of results to return. Defaults to 5.
    pub limit: Option<usize>,
}

/// Save or update a memory entry. Aliases are searchable alternative terms.
pub struct Remember {
    /// Short name for this memory entry (used as identifier).
    pub name: String,
    /// The content to remember — markdown.
    pub content: String,
    /// Optional alternative search terms / related note names.
    pub aliases: Vec<String>,
}

/// Delete a memory entry by name.
pub struct Forget {
    /// Name of the memory entry to delete.
    pub name: String,
}

/// Overwrite MEMORY.md — your curated overview injected every session.
pub struct MemoryTool {
    /// The full content to write to MEMORY.md — your curated overview.
    pub content: String,
}

/// The memory tool a call names.
#[derive(Debug, Clone, Copy, PartialEq, Eq, Structural)]
pub enum MemoryToolKind {
    Recall,
    Remember,
    Forget,
    Memory,
}

/// The memory tool called `name`, if the hook owns one by that name.
pub open spec fn memory_tool_named(name: Seq<char>) -> Option<MemoryToolKind> {
    if name == "recall"@ {
        Some(MemoryToolKind::Recall)
    } else if name == "remember"@ {
        Some(MemoryToolKind::Remember)
    } else if name == "forget"@ {
        Some(MemoryToolKind::Forget)
    } else if name == "memory"@ {
        Some(MemoryToolKind::Memory)
    } else {
        None
    }
}

/// Which memory tool handles a call of `name`; `None` leaves the call to
/// other hooks.
pub fn route(name: &str) -> (r: Option<MemoryToolKind>)
    ensures
        r == memory_tool_named(name@),
{
    if str_eq(name, "recall") {
        Some(MemoryToolKind::Recall)
    } else if str_eq(name, "remember") {
        Some(MemoryToolKind::Remember)
    } else if str_eq(name, "forget") {
        Some(MemoryToolKind::Forget)
    } else if str_eq(name, "memory") {
        Some(MemoryToolKind::Memory)
    } else {
        None
    }
}

/// How many hits a `recall` call asks for: its own limit, else 5.
pub fn recall_limit(input: &Recall) -> (r: usize)
    ensures
        r == match input.limit {
            Some(n) => n,
            None => 5,
        },
{
    match input.limit {
        Some(n) => n,
        None => 5,
    }
}

} // verus!
