//! Tests for the agent loop: segments, rounds, requests, compaction and
//! the tool registry.

use crabtalk::agent::compact::{clip_tool_text, compact_request, compact_summary};
use crabtalk::agent::config::AgentConfig;
use crabtalk::agent::event::{AgentEvent, AgentStep, AgentStopReason};
use crabtalk::agent::request::{build_request, WireToolChoice};
use crabtalk::agent::run::{
    commit_round, context_usage_event, ended_without_done, no_dispatcher_error, steer, AgentRun,
    BlockDelta, OpenSegment, OutputSlots, RunEvents, SegmentTracker, StepOutcome, ToolAnnouncer,
};
use crabtalk::agent::tool::ToolRegistry;
use crabtalk::model::{
    last_sender, Content, ContentBlock, FinishReason, HistoryEntry, Message, Tool, ToolCall, ToolChoice,
    ToolResultContent, Usage,
};

fn tool(name: &str) -> Tool {
    Tool { name: name.to_string(), description: format!("{name} tool"), parameters: None }
}

fn call(id: &str, name: &str) -> ToolCall {
    ToolCall { id: id.to_string(), name: name.to_string(), arguments: "{}".to_string() }
}

fn assistant_text(text: &str) -> Message {
    Message { role: "assistant".into(), content: Content::Text(text.into()) }
}

fn step(message: Message, calls: Vec<ToolCall>) -> AgentStep {
    AgentStep {
        message,
        usage: Usage::default(),
        finish_reason: None,
        tool_calls: calls,
        tool_results: vec![],
    }
}

fn kinds(events: &[AgentEvent]) -> Vec<&'static str> {
    events
        .iter()
        .map(|e| match e {
            AgentEvent::TextStart => "text_start",
            AgentEvent::TextDelta(_) => "text_delta",
            AgentEvent::TextEnd => "text_end",
            AgentEvent::ThinkingStart => "thinking_start",
            AgentEvent::ThinkingDelta(_) => "thinking_delta",
            AgentEvent::ThinkingEnd => "thinking_end",
            _ => "other",
        })
        .collect()
}

#[test]
fn segments_open_and_close_in_order() {
    let mut t = SegmentTracker::new();
    let mut all = vec![];
    all.extend(t.on_delta(BlockDelta::Thinking("hmm".into())));
    all.extend(t.on_delta(BlockDelta::Thinking(String::new())));
    all.extend(t.on_delta(BlockDelta::Text("hi".into())));
    all.extend(t.on_delta(BlockDelta::InputJson("{".into())));
    all.extend(t.on_delta(BlockDelta::Text(" there".into())));
    all.extend(t.finish());
    assert_eq!(
        kinds(&all),
        vec!["thinking_start", "thinking_delta", "thinking_end", "text_start", "text_delta", "text_delta", "text_end"]
    );
    assert_eq!(t.open, OpenSegment::Closed);
    assert!(t.finish().is_empty());
}

#[test]
fn run_stops_at_max_iterations() {
    let mut run = AgentRun::new(1, "m".into());
    assert!(run.begin_round());
    let run = match run.commit(step(assistant_text("working"), vec![call("c1", "bash")])) {
        StepOutcome::Continue(r) => r,
        StepOutcome::Done(_) => panic!("a step with calls continues"),
    };
    let mut run = run;
    assert!(!run.begin_round());
    let resp = run.exhausted();
    assert!(matches!(resp.stop_reason, AgentStopReason::MaxIterations));
    assert_eq!(resp.iterations, 1);
    assert_eq!(resp.final_response.as_deref(), Some("working"));
}

#[test]
fn text_answer_ends_the_run() {
    let mut run = AgentRun::new(4, "m".into());
    assert!(run.begin_round());
    match run.commit(step(assistant_text("done"), vec![])) {
        StepOutcome::Done(resp) => {
            assert!(matches!(resp.stop_reason, AgentStopReason::TextResponse));
            assert_eq!(resp.final_response.as_deref(), Some("done"));
            assert_eq!(resp.iterations, 1);
            assert_eq!(resp.model, "m");
        },
        StepOutcome::Continue(_) => panic!("a step without calls ends the run"),
    }
}

#[test]
fn empty_answer_is_no_action() {
    let empty = Message { role: "assistant".into(), content: Content::Blocks(vec![]) };
    assert!(AgentRun::is_no_op(&empty, &vec![]));
    let resp = AgentRun::new(4, "m".into()).no_op();
    assert!(matches!(resp.stop_reason, AgentStopReason::NoAction));
    let failed = AgentRun::new(4, "m".into()).fail("boom".into());
    assert!(matches!(failed.stop_reason, AgentStopReason::Error(e) if e == "boom"));
    assert!(failed.final_response.is_none());
}

#[test]
fn round_commits_every_tool_result() {
    let mut history = vec![HistoryEntry::user("go")];
    let calls = vec![call("c1", "bash"), call("c2", "recall")];
    let outputs = vec![Ok("listing".to_string()), Err("no such memory".to_string())];
    let results = commit_round(&mut history, assistant_text("calling"), &calls, &outputs);
    assert_eq!(history.len(), 4);
    assert_eq!(results.len(), 2);
    assert_eq!(history[1].text(), "calling");
    for (i, (id, text)) in [("c1", "listing"), ("c2", "no such memory")].iter().enumerate() {
        match &history[2 + i].message.content {
            Content::Blocks(bs) => match &bs[0] {
                ContentBlock::ToolResult { tool_use_id, content: ToolResultContent::Text(t), .. } => {
                    assert_eq!(tool_use_id, id);
                    assert_eq!(t, text);
                },
                other => panic!("unexpected block {other:?}"),
            },
            other => panic!("unexpected content {other:?}"),
        }
    }
}

#[test]
fn steering_speaks_as_last_sender() {
    let mut history = vec![HistoryEntry::user_with_sender("hi", "tg:alice")];
    let ev = steer(&mut history, "also this".into());
    assert!(matches!(ev, AgentEvent::UserSteered { content } if content == "also this"));
    assert_eq!(history.len(), 2);
    assert_eq!(history[1].sender, "tg:alice");
    assert_eq!(last_sender(&history), "tg:alice");
}

#[test]
fn context_usage_only_when_prompt_known() {
    assert!(context_usage_event(Usage::default()).is_none());
    let u = Usage { input_tokens: 10, ..Usage::default() };
    assert!(matches!(context_usage_event(u), Some(AgentEvent::ContextUsage { .. })));
}

#[test]
fn request_carries_config_and_tools() {
    let config = AgentConfig::new("crab").model("model-a").system_prompt("be brief");
    let history = vec![HistoryEntry::user("hello")];
    let r = build_request(&config, &vec![tool("bash")], &history, None);
    assert_eq!(r.model, "model-a");
    assert_eq!(r.max_tokens, 4096);
    assert_eq!(r.system.as_deref(), Some("be brief"));
    assert_eq!(r.messages.len(), 1);
    let tools = r.tools.unwrap();
    assert_eq!(tools[0].name, "bash");
    assert_eq!(tools[0].input_schema, "{\"type\":\"object\"}");
    assert!(matches!(r.tool_choice, Some(WireToolChoice::Auto)));
    assert!(r.thinking.is_none());
}

#[test]
fn disabled_choice_sends_no_tools() {
    let mut config = AgentConfig::new("crab");
    config.thinking = true;
    let r = build_request(&config, &vec![tool("bash")], &vec![], Some(&ToolChoice::Disabled));
    assert!(r.tools.is_none() && r.tool_choice.is_none());
    assert!(r.system.is_none());
    let t = r.thinking.unwrap();
    assert_eq!(t.kind, "enabled");
    assert_eq!(t.budget_tokens, Some(4095));
}

#[test]
fn clipping_long_tool_results() {
    assert_eq!(clip_tool_text("short", 10), "short");
    assert_eq!(clip_tool_text("abcdefgh", 3), "abc... [truncated]");
    assert_eq!(clip_tool_text("ééé", 3), "é... [truncated]");
}

#[test]
fn compaction_request_opens_with_identity() {
    let config = AgentConfig::new("crab").system_prompt("I am crab");
    let history = vec![HistoryEntry::tool(&"x".repeat(50), "c1", "bash")];
    let r = compact_request(&config, "Summarize.", 10, &history);
    assert_eq!(r.system.as_deref(), Some("Summarize."));
    assert_eq!(r.messages.len(), 2);
    match &r.messages[0].content {
        Content::Text(t) => assert_eq!(t, "Agent system prompt (preserve identity/profile info):\nI am crab"),
        other => panic!("unexpected content {other:?}"),
    }
    match &r.messages[1].content {
        Content::Blocks(bs) => match &bs[0] {
            ContentBlock::ToolResult { content: ToolResultContent::Text(t), .. } => {
                assert_eq!(t, &format!("{}... [truncated]", "x".repeat(10)))
            },
            other => panic!("unexpected block {other:?}"),
        },
        other => panic!("unexpected content {other:?}"),
    }
    assert!(r.tools.is_none() && r.thinking.is_none());
}

#[test]
fn compaction_summary_is_the_reply_text() {
    let reply = vec![ContentBlock::Text { text: "the summary".into() }];
    assert_eq!(compact_summary(&reply).as_deref(), Some("the summary"));
    assert_eq!(compact_summary(&vec![]), None);
}

#[test]
fn registry_keeps_tools_in_name_order() {
    let mut reg = ToolRegistry::new();
    reg.insert(tool("recall"));
    reg.insert(tool("bash"));
    reg.insert(tool("skill"));
    reg.insert(Tool { name: "bash".into(), description: "replaced".into(), parameters: None });
    let names: Vec<String> = reg.tools().into_iter().map(|t| t.name).collect();
    assert_eq!(names, vec!["bash", "recall", "skill"]);
    assert_eq!(reg.len(), 3);
    assert_eq!(reg.tools()[0].description, "replaced");
    let picked: Vec<String> =
        reg.filtered_snapshot(&vec!["skill".into(), "bash".into()]).into_iter().map(|t| t.name).collect();
    assert_eq!(picked, vec!["bash", "skill"]);
    assert!(reg.remove("recall"));
    assert!(!reg.remove("recall"));
    assert!(!reg.contains("recall"));
    assert!(reg.contains("skill"));
}

#[test]
fn outputs_are_committed_in_call_order() {
    let mut slots = OutputSlots::new(3);
    assert_eq!(slots.len(), 3);
    slots.fill(2, Ok("third".into()));
    slots.fill(0, Err("first failed".into()));
    assert!(!slots.all_filled());
    slots.fill(1, Ok("second".into()));
    assert!(slots.all_filled());
    assert_eq!(
        slots.into_outputs(),
        vec![Err("first failed".to_string()), Ok("second".to_string()), Ok("third".to_string())]
    );
}

#[test]
fn missing_dispatcher_and_missing_done() {
    assert_eq!(no_dispatcher_error("bash"), "tool 'bash' called but no tool dispatcher configured");
    let r = ended_without_done("m".into());
    assert!(matches!(r.stop_reason, AgentStopReason::Error(e) if e == "stream ended without Done"));
    assert_eq!(r.iterations, 0);
    assert!(r.final_response.is_none() && r.steps.is_empty());
}

#[test]
fn history_entry_accessors() {
    let sys = HistoryEntry::system("be nice");
    assert_eq!(sys.message.role, "system");
    assert_eq!(sys.text(), "be nice");
    let tool = HistoryEntry::tool("out", "c7", "bash");
    assert_eq!(tool.tool_call_id(), "c7");
    assert_eq!(HistoryEntry::user("hi").tool_call_id(), "");
    let thinking = HistoryEntry::assistant("answer", Some("pondering".into()), Some(&[call("c1", "bash")]));
    assert_eq!(thinking.reasoning(), "pondering");
    let calls = thinking.tool_calls();
    assert_eq!(calls.len(), 1);
    assert_eq!(calls[0].id, "c1");
    assert_eq!(calls[0].name, "bash");
    assert_eq!(calls[0].arguments, "{}");
    assert_eq!(HistoryEntry::user("hi").reasoning(), "");
    assert!(HistoryEntry::user("hi").tool_calls().is_empty());
}

#[test]
fn tool_choice_by_name() {
    assert!(matches!(ToolChoice::from_name("none"), ToolChoice::Disabled));
    assert!(matches!(ToolChoice::from_name("auto"), ToolChoice::Auto));
    assert!(matches!(ToolChoice::from_name("required"), ToolChoice::Required));
    assert!(matches!(ToolChoice::from_name("recall"), ToolChoice::Function { name } if name == "recall"));
}

#[test]
fn tool_calls_are_announced_once() {
    let mut a = ToolAnnouncer::new();
    assert!(a.on_calls(vec![]).is_none());
    assert!(matches!(a.on_calls(vec![call("c1", "bash")]), Some(AgentEvent::ToolCallsBegin(cs)) if cs.len() == 1));
    assert!(a.on_calls(vec![call("c1", "bash"), call("c2", "recall")]).is_none());
    assert!(a.announced);
}

#[test]
fn stop_reasons_read_as_finish_reasons() {
    assert!(matches!(FinishReason::from_stop_reason("end_turn"), FinishReason::Stop));
    assert!(matches!(FinishReason::from_stop_reason("max_tokens"), FinishReason::Length));
    assert!(matches!(FinishReason::from_stop_reason("tool_use"), FinishReason::ToolCalls));
    assert!(matches!(FinishReason::from_stop_reason("refusal"), FinishReason::Custom(s) if s == "refusal"));
}

fn event_name(e: &AgentEvent) -> &'static str {
    match e {
        AgentEvent::TextStart => "text_start",
        AgentEvent::TextDelta(_) => "text",
        AgentEvent::TextEnd => "text_end",
        AgentEvent::ThinkingStart => "thinking_start",
        AgentEvent::ThinkingDelta(_) => "thinking",
        AgentEvent::ThinkingEnd => "thinking_end",
        AgentEvent::ToolCallsStart(_) => "tools_start",
        AgentEvent::ToolCallsComplete => "tools_complete",
        AgentEvent::Done(_) => "done",
        _ => "other",
    }
}

#[test]
fn run_events_close_segments_before_tools_and_end() {
    let mut out = RunEvents::new();
    let mut names = Vec::new();
    for e in out.on_delta(BlockDelta::Thinking("hmm".into())) {
        names.push(event_name(&e));
    }
    for e in out.on_delta(BlockDelta::Text("hi".into())) {
        names.push(event_name(&e));
    }
    for e in out.tool_calls_start(vec![call("c1", "bash")]) {
        names.push(event_name(&e));
    }
    names.push(event_name(&out.other(AgentEvent::ToolCallsComplete)));
    for e in out.on_delta(BlockDelta::Text("bye".into())) {
        names.push(event_name(&e));
    }
    let run = AgentRun::new(2, "m".into());
    for e in out.done(run.exhausted()) {
        names.push(event_name(&e));
    }
    assert!(out.done);
    assert_eq!(
        names,
        vec![
            "thinking_start", "thinking", "thinking_end", "text_start", "text", "text_end", "tools_start",
            "tools_complete", "text_start", "text", "text_end", "done"
        ]
    );
}
