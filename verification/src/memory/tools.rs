//! Memory tool schema constructors for `remember` and `recall`.
//!
//! The JSON schema of each input is derived from its declaration outside
//! this library and handed in as text; these functions assemble the tool.

use crate::model::Tool;
use crate::text::string_of;
use vstd::prelude::*;

verus! {

/// Input of the `remember` tool.
pub struct RememberInput {
    /// Memory key
    pub key: String,
    /// Value to remember
    pub value: String,
}

/// Input of the `recall` tool.
pub struct RecallInput {
    /// Search query for relevant memories
    pub query: String,
    /// Maximum number of results (default: 10)
    pub limit: Option<u32>,
}

/// Build the `remember` tool schema around the JSON schema of
/// [`RememberInput`].
pub fn remember_schema(parameters: String) -> (r: Tool)
    ensures
        r.name@ == "remember"@,
        r.description@ == "Store a key-value pair in memory."@,
        r.parameters == Some(parameters),
{
    Tool {
        name: string_of("remember"),
        description: string_of("Store a key-value pair in memory."),
        parameters: Some(parameters),
    }
}

/// Build the `recall` tool schema around the JSON schema of
/// [`RecallInput`].
pub fn recall_schema(parameters: String) -> (r: Tool)
    ensures
        r.name@ == "recall"@,
        r.description@ == "Search memory for entries relevant to a query."@,
        r.parameters == Some(parameters),
{
    Tool {
        name: string_of("recall"),
        description: string_of("Search memory for entries relevant to a query."),
        parameters: Some(parameters),
    }
}

} // verus!
