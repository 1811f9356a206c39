//! Tests for the scripted provider's stream fixtures and their
//! Messages-API encoding.

use crabtalk::agent::run::BlockDelta;
use crabtalk::model::FinishReason;
use crabtalk::testing::provider::{
    finish_chunk, mixed_chunk, text_chunk, text_chunks, thinking_chunk, tool_call_delta, tool_chunks,
    ChatChunk, ChunkChoice, MessagesEvent, MessagesEncoder, ScriptedToolCall, ToolCallDelta,
};

fn call(index: Option<u32>, id: &str, name: &str, arguments: &str) -> ScriptedToolCall {
    ScriptedToolCall { index, id: id.into(), name: name.into(), arguments: arguments.into() }
}

fn render(events: &[MessagesEvent]) -> Vec<String> {
    events
        .iter()
        .map(|e| match e {
            MessagesEvent::ContentBlockDelta { index, delta } => match delta {
                BlockDelta::Text(t) => format!("{index}:text:{t}"),
                BlockDelta::Thinking(t) => format!("{index}:thinking:{t}"),
                BlockDelta::InputJson(j) => format!("{index}:json:{j}"),
            },
            MessagesEvent::ToolUseStart { index, id, name } => format!("{index}:start:{id}:{name}"),
            MessagesEvent::MessageDelta { stop_reason } => format!("stop:{stop_reason}"),
        })
        .collect()
}

fn encode(chunks: &[ChatChunk]) -> Vec<String> {
    let mut t = MessagesEncoder::new();
    let mut out = vec![];
    for c in chunks {
        out.extend(render(&t.on_chunk(c)));
    }
    out
}

#[test]
fn text_stream_is_one_block() {
    assert_eq!(encode(&text_chunks("hi")), vec!["0:text:h", "0:text:i", "stop:end_turn"]);
}

#[test]
fn mixed_chunk_text_before_reasoning() {
    assert_eq!(
        encode(&[mixed_chunk("a", "b"), thinking_chunk("c"), text_chunk("d")]),
        vec!["0:text:a", "0:thinking:b", "0:thinking:c", "0:text:d"]
    );
}

#[test]
fn tool_calls_open_new_blocks() {
    let chunks = tool_chunks(vec![call(Some(0), "c1", "bash", "{\"command\":\"ls\"}"), call(None, "c2", "recall", "{}")]);
    assert_eq!(
        encode(&chunks),
        vec![
            "1:start:c1:bash",
            "1:json:{\"command\":\"ls\"}",
            "2:start:c2:recall",
            "2:json:{}",
            "stop:tool_use",
        ]
    );
}

#[test]
fn argument_fragments_follow_their_block() {
    let chunk = ChatChunk {
        choices: vec![ChunkChoice {
            content: None,
            reasoning_content: None,
            tool_calls: Some(vec![
                ToolCallDelta { index: 0, id: Some("c1".into()), name: None, arguments: Some("{\"a\"".into()) },
                ToolCallDelta { index: 0, id: None, name: None, arguments: Some(":1}".into()) },
            ]),
            finish_reason: None,
        }],
    };
    let mut t = MessagesEncoder::new();
    assert_eq!(render(&t.on_chunk(&chunk)), vec!["1:start:c1:", "1:json:{\"a\"", "1:json::1}"]);
    assert_eq!(t.block_index, 1);
}

#[test]
fn finish_reasons_map_to_stop_reasons() {
    assert_eq!(encode(&[finish_chunk(FinishReason::Length)]), vec!["stop:max_tokens"]);
    assert_eq!(encode(&[finish_chunk(FinishReason::ContentFilter)]), vec!["stop:end_turn"]);
    assert_eq!(encode(&[finish_chunk(FinishReason::Custom("x".into()))]), vec!["stop:end_turn"]);
}

#[test]
fn chunk_without_choices_is_skipped() {
    assert!(encode(&[ChatChunk { choices: vec![] }]).is_empty());
}

#[test]
fn tool_call_delta_defaults_index() {
    let d = tool_call_delta(&call(None, "c9", "skill", "{}"));
    assert_eq!(d.index, 0);
    assert_eq!(d.id.as_deref(), Some("c9"));
    assert_eq!(d.name.as_deref(), Some("skill"));
    let d = tool_call_delta(&call(Some(3), "c9", "skill", "{}"));
    assert_eq!(d.index, 3);
}
