//! Daemon-level administrative messages: MCP lifecycle events as the wire
//! reports them.

use vstd::prelude::*;

verus! {

/// A change in an MCP server's connection, per agent.
pub enum McpEvent {
    Connecting { agent: String, name: String },
    Connected { agent: String, name: String, tools: Vec<String> },
    Failed { agent: String, name: String, error: String },
    Disconnected { agent: String, name: String },
}

/// The kind of an MCP event on the wire.
#[derive(PartialEq, Eq, Structural, Clone, Copy, Debug)]
pub enum McpEventKind {
    Connecting,
    Connected,
    Failed,
    Disconnected,
}

/// An MCP event on the wire.
pub struct McpEventMsg {
    pub kind: McpEventKind,
    pub name: String,
    pub tools: Vec<String>,
    pub error: String,
    pub timestamp: String,
    pub agent: String,
}

/// The wire message for `event`, stamped with the current UTC time.
pub fn mcp_event_to_msg(event: McpEvent) -> (r: McpEventMsg)
    ensures
        mcp_msg_of(event, r),
{
    mcp_event_msg_at(event, crate::repos::sessions::now_rfc3339())
}

/// Whether `r` reports `event`: the tool list only for a connection, the
/// error only for a failure.
pub open spec fn mcp_msg_of(event: McpEvent, r: McpEventMsg) -> bool {
    match event {
        McpEvent::Connecting { agent, name } => r.kind == McpEventKind::Connecting && r.agent == agent && r.name == name
            && r.tools@.len() == 0 && r.error@.len() == 0,
        McpEvent::Connected { agent, name, tools } => r.kind == McpEventKind::Connected && r.agent == agent && r.name
            == name && r.tools == tools && r.error@.len() == 0,
        McpEvent::Failed { agent, name, error } => r.kind == McpEventKind::Failed && r.agent == agent && r.name == name
            && r.tools@.len() == 0 && r.error == error,
        McpEvent::Disconnected { agent, name } => r.kind == McpEventKind::Disconnected && r.agent == agent && r.name
            == name && r.tools@.len() == 0 && r.error@.len() == 0,
    }
}

/// The wire message for `event`, stamped with `now` (RFC 3339).
pub fn mcp_event_msg_at(event: McpEvent, now: String) -> (r: McpEventMsg)
    ensures
        r.timestamp == now,
        mcp_msg_of(event, r),
{
    match event {
        McpEvent::Connecting { agent, name } => McpEventMsg {
            kind: McpEventKind::Connecting,
            name,
            tools: Vec::new(),
            error: String::new(),
            timestamp: now,
            agent,
        },
        McpEvent::Connected { agent, name, tools } => McpEventMsg {
            kind: McpEventKind::Connected,
            name,
            tools,
            error: String::new(),
            timestamp: now,
            agent,
        },
        McpEvent::Failed { agent, name, error } => McpEventMsg {
            kind: McpEventKind::Failed,
            name,
            tools: Vec::new(),
            error,
            timestamp: now,
            agent,
        },
        McpEvent::Disconnected { agent, name } => McpEventMsg {
            kind: McpEventKind::Disconnected,
            name,
            tools: Vec::new(),
            error: String::new(),
            timestamp: now,
            agent,
        },
    }
}

} // verus!
