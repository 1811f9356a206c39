//! Tests for what conversations put on the wire.

use crabtalk::agent::event::{AgentEvent, AgentResponse, AgentStep, AgentStopReason};
use crabtalk::bridge::{ClientBridge, Resolution};
use crabtalk::model::{Content, Message, Role, Tool, ToolCall, Usage};
use crabtalk::protocol::admin::{mcp_event_msg_at, mcp_event_to_msg, McpEvent, McpEventKind};
use crabtalk::protocol::conversation::{
    created_by, relay, reply_to_tool, resolve_client_tools, responding_agent, role_name,
    search_options, send_response, stream_end, SearchOptions, SearchRequest,
};
use crabtalk::protocol::message::{token_usage, StreamEvent, TokenUsage};

fn tool(name: &str) -> Tool {
    Tool { name: name.to_string(), description: String::new(), parameters: None }
}

fn call(id: &str, name: &str) -> ToolCall {
    ToolCall { id: id.to_string(), name: name.to_string(), arguments: "{\"path\":\"a\"}".to_string() }
}

fn usage(input: u32, cache_read: u32, output: u32) -> Usage {
    Usage { input_tokens: input, cache_read_tokens: cache_read, output_tokens: output, ..Usage::default() }
}

fn response(final_response: Option<&str>, usages: &[Usage]) -> AgentResponse {
    AgentResponse {
        final_response: final_response.map(|s| s.to_string()),
        iterations: usages.len(),
        stop_reason: AgentStopReason::TextResponse,
        steps: usages
            .iter()
            .map(|u| AgentStep {
                message: Message { role: "assistant".into(), content: Content::Text("x".into()) },
                usage: *u,
                finish_reason: None,
                tool_calls: vec![],
                tool_results: vec![],
            })
            .collect(),
        model: "m".into(),
    }
}

#[test]
fn creator_and_responder() {
    assert_eq!(created_by(""), "user");
    assert_eq!(created_by("tg:bob"), "tg:bob");
    assert_eq!(responding_agent("crab", ""), "crab");
    assert_eq!(responding_agent("crab", "guest"), "guest");
}

#[test]
fn relay_forwards_client_tool_calls() {
    let mut bridge: ClientBridge<u8> = ClientBridge::new();
    let tools = resolve_client_tools(&mut bridge, 9, vec![tool("open_file")]);
    assert_eq!(tools.len(), 1);
    let (events, done) =
        relay(&bridge, 9, "crab", AgentEvent::ToolCallsStart(vec![call("c1", "open_file"), call("c2", "recall")]));
    assert!(!done);
    assert_eq!(events.len(), 2);
    assert!(matches!(&events[0], StreamEvent::ToolStart { calls } if calls.len() == 2));
    assert!(matches!(&events[1],
        StreamEvent::ToolCallForward { call_id, name, arguments, conversation_id: 9 }
            if call_id == "c1" && name == "open_file" && arguments == "{\"path\":\"a\"}"));
}

#[test]
fn relay_marks_the_end() {
    let bridge: ClientBridge<u8> = ClientBridge::new();
    let (events, done) = relay(&bridge, 1, "crab", AgentEvent::Done(response(Some("bye"), &[usage(3, 0, 2)])));
    assert!(done);
    assert!(matches!(&events[0], StreamEvent::End { agent, error, .. } if agent == "crab" && error.is_empty()));
    let (deltas, done) = relay(&bridge, 1, "crab", AgentEvent::TextDelta("hi".into()));
    assert!(!done);
    assert!(matches!(&deltas[0], StreamEvent::Chunk { content } if content == "hi"));
}

#[test]
fn stream_end_without_done() {
    assert!(matches!(stream_end("crab"),
        StreamEvent::End { agent, error, model, usage: None } if agent == "crab" && error.is_empty() && model.is_empty()));
}

#[test]
fn duplicate_tool_reply_is_an_error() {
    let mut bridge: ClientBridge<u8> = ClientBridge::new();
    bridge.register_listener(1);
    assert!(matches!(reply_to_tool(&mut bridge, 1, "c1", "a".into(), false), Ok(Resolution::Stored)));
    assert_eq!(
        reply_to_tool(&mut bridge, 1, "c1", "b".into(), false).err(),
        Some("duplicate reply for call_id 'c1'".to_string())
    );
}

#[test]
fn send_response_totals_usage() {
    let r = send_response("crab".into(), response(Some("answer"), &[usage(10, 4, 2), usage(5, 0, 1)]));
    assert_eq!(r.content, "answer");
    assert_eq!(r.model, "m");
    assert_eq!(
        r.usage,
        Some(TokenUsage {
            prompt_tokens: 19,
            completion_tokens: 3,
            total_tokens: 22,
            cache_hit_tokens: Some(4),
            cache_miss_tokens: None,
            reasoning_tokens: None,
        })
    );
    let empty = send_response("crab".into(), response(None, &[]));
    assert_eq!(empty.content, "");
}

#[test]
fn single_call_token_usage() {
    let t = token_usage(&Usage { reasoning_tokens: 7, ..usage(1, 0, 2) });
    assert_eq!((t.prompt_tokens, t.completion_tokens, t.total_tokens), (1, 9, 10));
    assert_eq!(t.reasoning_tokens, Some(7));
    assert_eq!(t.cache_hit_tokens, None);
}

#[test]
fn search_options_take_defaults() {
    let defaults = SearchOptions { limit: 10, context_before: 1, context_after: 2, agent_filter: None, sender_filter: None };
    let req = SearchRequest {
        query: "q".into(),
        limit: Some(3),
        context_before: None,
        context_after: None,
        agent: "crab".into(),
        sender: String::new(),
    };
    let o = search_options(req, &defaults);
    assert_eq!((o.limit, o.context_before, o.context_after), (3, 1, 2));
    assert_eq!(o.agent_filter.as_deref(), Some("crab"));
    assert_eq!(o.sender_filter, None);
}

#[test]
fn role_names() {
    assert_eq!(role_name(Role::User), "user");
    assert_eq!(role_name(Role::Assistant), "assistant");
    assert_eq!(role_name(Role::System), "system");
}

#[test]
fn mcp_events_on_the_wire() {
    let m = mcp_event_msg_at(
        McpEvent::Connected { agent: "crab".into(), name: "search".into(), tools: vec!["find".into()] },
        "2024-01-01T00:00:00Z".into(),
    );
    assert_eq!(m.kind, McpEventKind::Connected);
    assert_eq!(m.tools, vec!["find".to_string()]);
    assert_eq!(m.timestamp, "2024-01-01T00:00:00Z");
    let f = mcp_event_to_msg(McpEvent::Failed { agent: "crab".into(), name: "search".into(), error: "boom".into() });
    assert_eq!(f.kind, McpEventKind::Failed);
    assert_eq!(f.error, "boom");
    assert!(f.tools.is_empty());
    assert!(!f.timestamp.is_empty());
}
