//! Agent loop events and results: [`AgentEvent`], [`AgentStep`],
//! [`AgentResponse`], [`AgentStopReason`].

use crate::model::{FinishReason, HistoryEntry, Message, ToolCall, Usage};
use vstd::prelude::*;

verus! {

/// Why an agent run stopped.
#[derive(Clone, Debug)]
pub enum AgentStopReason {
    /// The model answered with text and asked for no tools.
    TextResponse,
    /// The model produced neither text nor tool calls.
    NoAction,
    /// The run used every iteration it was allowed.
    MaxIterations,
    /// The model call failed.
    Error(String),
}

/// One LLM round: the assistant message, its usage, and the tool calls it
/// made with their results.
#[derive(Clone, Debug)]
pub struct AgentStep {
    pub message: Message,
    pub usage: Usage,
    pub finish_reason: Option<FinishReason>,
    pub tool_calls: Vec<ToolCall>,
    pub tool_results: Vec<HistoryEntry>,
}

/// The result of a full agent run.
#[derive(Clone, Debug)]
pub struct AgentResponse {
    /// Text of the final assistant message, if any.
    pub final_response: Option<String>,
    /// Number of LLM rounds that produced a step.
    pub iterations: usize,
    pub stop_reason: AgentStopReason,
    pub steps: Vec<AgentStep>,
    /// Model the run used.
    pub model: String,
}

/// An event emitted by the agent loop.
#[derive(Debug)]
pub enum AgentEvent {
    TextStart,
    TextDelta(String),
    TextEnd,
    ThinkingStart,
    ThinkingDelta(String),
    ThinkingEnd,
    /// Tool calls seen while the response is still streaming (names only
    /// are complete).
    ToolCallsBegin(Vec<ToolCall>),
    /// Tool calls about to be dispatched, with complete arguments.
    ToolCallsStart(Vec<ToolCall>),
    ToolResult { call_id: String, output: Result<String, String>, duration_ms: u64 },
    ToolCallsComplete,
    ContextUsage { usage: Usage },
    UserSteered { content: String },
    Done(AgentResponse),
}

/// The shape of an [`AgentEvent`], without its payload.
#[derive(PartialEq, Eq, Structural, Clone, Copy, Debug)]
pub enum EventKind {
    TextStart,
    TextDelta,
    TextEnd,
    ThinkingStart,
    ThinkingDelta,
    ThinkingEnd,
    ToolCallsBegin,
    ToolCallsStart,
    ToolResult,
    ToolCallsComplete,
    ContextUsage,
    UserSteered,
    Done,
}

impl AgentEvent {
    /// The shape of this event.
    pub open spec fn kind(&self) -> EventKind {
        match self {
            AgentEvent::TextStart => EventKind::TextStart,
            AgentEvent::TextDelta(_) => EventKind::TextDelta,
            AgentEvent::TextEnd => EventKind::TextEnd,
            AgentEvent::ThinkingStart => EventKind::ThinkingStart,
            AgentEvent::ThinkingDelta(_) => EventKind::ThinkingDelta,
            AgentEvent::ThinkingEnd => EventKind::ThinkingEnd,
            AgentEvent::ToolCallsBegin(_) => EventKind::ToolCallsBegin,
            AgentEvent::ToolCallsStart(_) => EventKind::ToolCallsStart,
            AgentEvent::ToolResult { .. } => EventKind::ToolResult,
            AgentEvent::ToolCallsComplete => EventKind::ToolCallsComplete,
            AgentEvent::ContextUsage { .. } => EventKind::ContextUsage,
            AgentEvent::UserSteered { .. } => EventKind::UserSteered,
            AgentEvent::Done(_) => EventKind::Done,
        }
    }
}

/// The shapes of a list of events.
pub open spec fn kinds(events: Seq<AgentEvent>) -> Seq<EventKind> {
    events.map_values(|e: AgentEvent| e.kind())
}

} // verus!
