//! Tests for console output, service files, documents and migrations.

use crabtalk::doc::{merge, Doc};
use crabtalk::model::ToolCall;
use crabtalk::service::{
    log_file_name, port_file_name, render_service_template, replace_all, tail_arguments,
};
use crabtalk::storage::migrate::inline_agent_mcps;
use crabtalk::agent::event::{AgentResponse, AgentStep, AgentStopReason};
use crabtalk::model::{Content, Message, Usage};
use crabtalk::system::host::{
    decimal_string, first_line_of, tool_call_label, tool_call_labels, tool_not_registered,
    truncate_for_broadcast, usage_line, usage_report, MAX_TOOL_OUTPUT_BROADCAST,
};
use crabtalk::system::{event_sender, session_cache_bytes};

fn call(name: &str, arguments: &str) -> ToolCall {
    ToolCall { id: "c1".into(), name: name.into(), arguments: arguments.into() }
}

fn s(v: &str) -> Doc {
    Doc::Str(v.to_string())
}

fn table(entries: Vec<(&str, Doc)>) -> Doc {
    Doc::Table(entries.into_iter().map(|(k, v)| (k.to_string(), v)).collect())
}

fn render(d: &Doc) -> String {
    match d {
        Doc::Null => "null".into(),
        Doc::Str(x) => format!("{x:?}"),
        Doc::Scalar(x) => x.clone(),
        Doc::Array(v) => format!("[{}]", v.iter().map(render).collect::<Vec<_>>().join(",")),
        Doc::Table(t) => format!(
            "{{{}}}",
            t.iter().map(|(k, v)| format!("{k}={}", render(v))).collect::<Vec<_>>().join(",")
        ),
    }
}

#[test]
fn short_output_is_not_truncated() {
    assert_eq!(truncate_for_broadcast("hello", MAX_TOOL_OUTPUT_BROADCAST), "hello");
    assert_eq!(truncate_for_broadcast("hello", 5), "hello");
}

#[test]
fn long_output_is_cut_on_a_char_boundary() {
    // The marker takes 14 bytes; 3 bytes are left for the text.
    assert_eq!(truncate_for_broadcast("abcdefghijklmnopqrstuvwxyz", 17), "abc…[truncated]");
    // "é" is two bytes: only one fits in the 3 bytes left beside the marker.
    assert_eq!(truncate_for_broadcast(&"é".repeat(10), 17), "é…[truncated]");
    let out = truncate_for_broadcast(&"x".repeat(5000), MAX_TOOL_OUTPUT_BROADCAST);
    assert!(out.len() <= MAX_TOOL_OUTPUT_BROADCAST);
    assert!(out.ends_with("…[truncated]"));
}

#[test]
fn tiny_budget_leaves_only_the_marker() {
    assert_eq!(truncate_for_broadcast("abcdefghijklmnopqrstuvwxyz", 3), "…[truncated]");
}

#[test]
fn decimal_digits() {
    assert_eq!(decimal_string(0), "0");
    assert_eq!(decimal_string(18446744073709551615), "18446744073709551615");
}

#[test]
fn first_line_drops_carriage_return() {
    assert_eq!(first_line_of("ls -la\r\nmore"), "ls -la");
    assert_eq!(first_line_of("single"), "single");
    assert_eq!(first_line_of("\nsecond"), "");
}

#[test]
fn bash_call_shows_first_line_of_command() {
    assert_eq!(tool_call_label(&call("bash", r#"{"command":"cargo test\necho done"}"#)), "bash(cargo test)");
}

#[test]
fn other_calls_show_their_name() {
    assert_eq!(tool_call_label(&call("recall", r#"{"query":"x"}"#)), "recall");
    assert_eq!(tool_call_label(&call("bash", "not json")), "bash");
    assert_eq!(tool_call_label(&call("bash", r#"{"command":7}"#)), "bash");
    assert_eq!(
        tool_call_labels(&vec![call("a", "{}"), call("bash", r#"{"command":"ls"}"#)]),
        vec!["a".to_string(), "bash(ls)".to_string()]
    );
}

#[test]
fn usage_line_with_and_without_cache() {
    assert_eq!(usage_line("m", "1.2k", Some("800"), "40"), "m 1.2k in (800 cached) / 40 out");
    assert_eq!(usage_line("m", "1.2k", None, "40"), "m 1.2k in / 40 out");
}

#[test]
fn event_sender_and_cache_budget() {
    assert_eq!(event_sender("cron"), "event:cron");
    assert_eq!(session_cache_bytes(Some(2)), Some(2 * 1024 * 1024));
    assert_eq!(session_cache_bytes(None), None);
}

#[test]
fn replace_all_replaces_every_occurrence() {
    assert_eq!(replace_all("a{x}b{x}", "{x}", "yy"), "ayybyy");
    assert_eq!(replace_all("aaa", "aa", "b"), "ba");
}

#[test]
fn service_template_is_filled() {
    let t = "{label}|{description}|{subcommand}|{log_name}|{binary}|{logs_dir}|{config_dir}|{path}";
    assert_eq!(
        render_service_template(t, "ai.crabtalk.daemon", "Crabtalk", "daemon", "daemon", "/bin/crabtalk", "/logs", "/cfg", "/usr/bin"),
        "ai.crabtalk.daemon|Crabtalk|daemon|daemon|/bin/crabtalk|/logs|/cfg|/usr/bin"
    );
}

#[test]
fn service_file_names_and_tail() {
    assert_eq!(port_file_name("daemon"), "daemon.port");
    assert_eq!(log_file_name("daemon"), "daemon.log");
    assert_eq!(tail_arguments(&vec![]), vec!["-n".to_string(), "50".to_string()]);
    assert_eq!(tail_arguments(&vec!["-f".to_string()]), vec!["-f".to_string()]);
}

#[test]
fn merge_patch_replaces_removes_and_keeps() {
    let mut base = table(vec![("a", s("1")), ("b", s("2")), ("c", table(vec![("x", s("x")), ("y", s("y"))]))]);
    let patch = table(vec![("a", s("one")), ("b", Doc::Null), ("c", table(vec![("y", Doc::Null), ("z", s("z"))])), ("d", Doc::Scalar("4".into()))]);
    merge(&mut base, patch);
    assert_eq!(render(&base), r#"{a="one",c={x="x",z="z"},d=4}"#);
}

#[test]
fn merge_non_table_patch_replaces_whole() {
    let mut base = table(vec![("a", s("1"))]);
    merge(&mut base, Doc::Array(vec![s("x")]));
    assert_eq!(render(&base), r#"["x"]"#);
}

#[test]
fn merge_into_non_table_drops_patch_nulls() {
    let mut base = s("scalar");
    merge(&mut base, table(vec![("k", Doc::Null), ("v", s("v"))]));
    assert_eq!(render(&base), r#"{v="v"}"#);
}

#[test]
fn merge_new_table_key_drops_nested_nulls() {
    let mut base = table(vec![("a", Doc::Scalar("1".into()))]);
    merge(&mut base, table(vec![("x", table(vec![("y", Doc::Null), ("z", Doc::Scalar("2".into()))]))]));
    assert_eq!(render(&base), r#"{a=1,x={z=2}}"#);
}

#[test]
fn inline_agent_mcps_inlines_named_servers() {
    let mut settings = match table(vec![
        ("mcps", table(vec![("search", table(vec![("command", s("search-mcp"))]))])),
        ("agents", table(vec![("crab", table(vec![("mcps", Doc::Array(vec![s("search"), s("missing")]))]))])),
    ]) {
        Doc::Table(t) => t,
        _ => unreachable!(),
    };
    assert!(inline_agent_mcps(&mut settings));
    assert_eq!(
        render(&Doc::Table(settings.clone_table())),
        r#"{agents={crab={mcps=[{command="search-mcp",name="search"}]}}}"#
    );
    // A second pass finds nothing left to do.
    assert!(!inline_agent_mcps(&mut settings));
}

trait CloneTable {
    fn clone_table(&self) -> Vec<(String, Doc)>;
}

impl CloneTable for Vec<(String, Doc)> {
    fn clone_table(&self) -> Vec<(String, Doc)> {
        self.iter().map(|(k, v)| (k.clone(), v.copy())).collect()
    }
}

fn run_with(usages: &[Usage]) -> AgentResponse {
    AgentResponse {
        final_response: None,
        iterations: usages.len(),
        stop_reason: AgentStopReason::TextResponse,
        steps: usages
            .iter()
            .map(|u| AgentStep {
                message: Message { role: "assistant".into(), content: Content::Text("x".into()) },
                usage: *u,
                finish_reason: None,
                tool_calls: vec![],
                tool_results: vec![],
            })
            .collect(),
        model: "m".into(),
    }
}

#[test]
fn usage_report_sums_steps() {
    assert_eq!(usage_report(&run_with(&[])), None);
    let a = Usage { input_tokens: 100, cache_read_tokens: 50, output_tokens: 7, ..Usage::default() };
    let b = Usage { input_tokens: 10, cache_write_tokens: 5, output_tokens: 3, reasoning_tokens: 2, ..Usage::default() };
    assert_eq!(usage_report(&run_with(&[a, b])), Some((165, Some(50), 12)));
    let c = Usage { input_tokens: 10, output_tokens: 3, ..Usage::default() };
    assert_eq!(usage_report(&run_with(&[c])), Some((10, None, 3)));
}

#[test]
fn unregistered_tool_message() {
    assert_eq!(tool_not_registered("zap"), "tool not registered: zap");
}

#[test]
fn usage_report_needs_only_the_reported_sums_to_fit() {
    let big = Usage { input_tokens: 3_000_000_000, output_tokens: 3_000_000_000, ..Usage::default() };
    assert_eq!(usage_report(&run_with(&[big])), Some((3_000_000_000, None, 3_000_000_000)));
}
