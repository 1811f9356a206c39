//! Tests for tool forwarding, dispatch routing and agent profiles.

use crabtalk::bridge::{ClientBridge, DispatchStep, Resolution};
use crabtalk::harness::memory::forget::forget_message;
use crabtalk::harness::{
    apply_scope, combined_usage, done_event, members, on_build_agent, preprocess, route, AgentProfile,
    DispatchIndex, Member, Route, ScopeTable,
};
use crabtalk::runtime::agent_not_registered;
use crabtalk::hooks::tool::ToolHook;
use crabtalk::model::Tool;

fn strings(v: &[&str]) -> Vec<String> {
    v.iter().map(|s| s.to_string()).collect()
}

fn tool(name: &str) -> Tool {
    Tool { name: name.to_string(), description: String::new(), parameters: None }
}

fn hook() -> ToolHook<u32> {
    ToolHook::new(strings(&["bash", "ask_user"]))
}

#[test]
fn dispatch_without_listener_fails() {
    let mut h = hook();
    let step = h.dispatch_step(Some(1), "bash", "c1", 7);
    assert!(matches!(step, DispatchStep::Fail(e) if e == "no client connected to handle 'bash' for this conversation"));
}

#[test]
fn dispatch_of_foreign_tool_is_not_owned() {
    let mut h = hook();
    assert!(matches!(h.dispatch_step(Some(1), "recall", "c1", 7), DispatchStep::NotOwned));
    assert!(h.is_client_tool("ask_user"));
    assert!(!h.is_client_tool("recall"));
}

#[test]
fn dispatch_without_conversation_fails() {
    let mut h = hook();
    assert!(matches!(h.dispatch_step(None, "bash", "c1", 7),
        DispatchStep::Fail(e) if e == "'bash' requires a conversation context"));
}

#[test]
fn dispatch_without_call_id_fails() {
    let mut h = hook();
    h.register_listener(1);
    assert!(matches!(h.dispatch_step(Some(1), "bash", "", 7),
        DispatchStep::Fail(e) if e == "'bash' invoked without a call_id"));
}

#[test]
fn reply_reaches_waiting_dispatch() {
    let mut h = hook();
    h.register_listener(1);
    assert!(matches!(h.dispatch_step(Some(1), "bash", "c1", 7), DispatchStep::Wait));
    let r = h.try_resolve(1, "c1", "done".into(), false);
    assert!(matches!(r, Resolution::Deliver(7, Ok(s)) if s == "done"));
    // The call is settled: a second reply is kept as an early one.
    assert!(matches!(h.try_resolve(1, "c1", "again".into(), false), Resolution::Stored));
}

#[test]
fn early_reply_is_picked_up() {
    let mut h = hook();
    h.register_listener(1);
    assert!(matches!(h.try_resolve(1, "c1", "boom".into(), true), Resolution::Stored));
    assert!(matches!(h.dispatch_step(Some(1), "bash", "c1", 7), DispatchStep::Ready(Err(e)) if e == "boom"));
}

#[test]
fn duplicate_reply_is_refused() {
    let mut h = hook();
    h.register_listener(1);
    assert!(matches!(h.try_resolve(1, "c1", "a".into(), false), Resolution::Stored));
    assert!(matches!(h.try_resolve(1, "c1", "b".into(), false), Resolution::Duplicate));
    // The second reply is ignored: the dispatch gets the first one.
    assert!(matches!(h.dispatch_step(Some(1), "bash", "c1", 7), DispatchStep::Ready(Ok(o)) if o == "a"));
}

#[test]
fn duplicate_dispatch_is_refused() {
    let mut h = hook();
    h.register_listener(1);
    assert!(matches!(h.dispatch_step(Some(1), "bash", "c1", 7), DispatchStep::Wait));
    assert!(matches!(h.dispatch_step(Some(1), "bash", "c1", 8),
        DispatchStep::Fail(e) if e == "'bash' has a duplicate pending dispatch for call_id 'c1'"));
}

#[test]
fn calls_in_other_conversations_are_independent() {
    let mut h = hook();
    h.register_listener(1);
    h.register_listener(2);
    assert!(matches!(h.dispatch_step(Some(1), "bash", "c1", 10), DispatchStep::Wait));
    assert!(matches!(h.dispatch_step(Some(2), "bash", "c1", 20), DispatchStep::Wait));
    assert!(matches!(h.try_resolve(2, "c1", "two".into(), false), Resolution::Deliver(20, _)));
    assert!(matches!(h.try_resolve(1, "c1", "one".into(), false), Resolution::Deliver(10, _)));
}

#[test]
fn unregistering_hands_back_waiting_senders() {
    let mut h = hook();
    h.register_listener(1);
    assert!(matches!(h.dispatch_step(Some(1), "bash", "c1", 10), DispatchStep::Wait));
    assert!(matches!(h.dispatch_step(Some(1), "ask_user", "c2", 11), DispatchStep::Wait));
    let mut waiting = h.unregister_listener(1);
    waiting.sort();
    assert_eq!(waiting, vec![10, 11]);
    assert!(matches!(h.dispatch_step(Some(1), "bash", "c3", 12), DispatchStep::Fail(_)));
}

#[test]
fn abandoned_call_frees_its_id() {
    let mut h = hook();
    h.register_listener(1);
    assert!(matches!(h.dispatch_step(Some(1), "bash", "c1", 10), DispatchStep::Wait));
    h.abandon(1, "c1");
    assert!(matches!(h.dispatch_step(Some(1), "bash", "c1", 11), DispatchStep::Wait));
}

#[test]
fn client_bridge_forwards_declared_tools() {
    let mut b: ClientBridge<u32> = ClientBridge::new();
    b.register_tools(5, &vec![tool("open_file")]);
    assert!(b.is_client_tool(5, "open_file"));
    assert!(!b.is_client_tool(6, "open_file"));
    assert!(matches!(b.dispatch_step(Some(5), "other", "c", 1), DispatchStep::NotOwned));
    b.register_listener(5);
    assert!(matches!(b.dispatch_step(Some(5), "open_file", "c", 1), DispatchStep::Wait));
    assert!(matches!(b.try_resolve(5, "c", "ok".into(), false), Resolution::Deliver(1, Ok(_))));
    assert!(b.unregister_listener(5).is_empty());
    assert!(!b.is_client_tool(5, "open_file"));
}

#[test]
fn index_routes_tools_to_members() {
    let mut index = DispatchIndex::new();
    assert_eq!(index.index(&strings(&["recall", "remember"]), 0), Ok(()));
    assert_eq!(index.index(&strings(&["bash"]), 1), Ok(()));
    assert_eq!(index.owner("remember"), Some(0));
    assert_eq!(index.owner("bash"), Some(1));
    assert_eq!(index.owner("skill"), None);
}

#[test]
fn index_refuses_duplicate_tool() {
    let mut index = DispatchIndex::new();
    assert_eq!(index.index(&strings(&["recall"]), 0), Ok(()));
    assert_eq!(index.index(&strings(&["bash", "recall"]), 1), Err("duplicate tool: recall".to_string()));
    assert_eq!(index.owner("bash"), None);
}

#[test]
fn scope_restricts_routing() {
    let mut index = DispatchIndex::new();
    index.index(&strings(&["recall", "bash"]), 3).unwrap();
    let mut scopes = ScopeTable::new();
    scopes.on_resolve_agent("crab", strings(&["recall"]));
    assert!(matches!(route(&scopes, &index, "crab", "recall"), Route::Member(3)));
    assert!(matches!(route(&scopes, &index, "crab", "bash"), Route::Denied(e) if e == "tool not available: bash"));
    assert!(matches!(route(&scopes, &index, "other", "bash"), Route::Member(3)));
    assert!(matches!(route(&scopes, &index, "other", "skill"), Route::Unhandled));
    scopes.on_forget_agent("crab");
    assert!(matches!(route(&scopes, &index, "crab", "bash"), Route::Member(3)));
}

#[test]
fn empty_scope_is_unrestricted() {
    let mut scopes = ScopeTable::new();
    scopes.on_resolve_agent("crab", vec![]);
    assert!(!scopes.denies("crab", "anything"));
}

#[test]
fn usage_notes_are_concatenated() {
    assert_eq!(combined_usage(&vec![Some("a".into()), None, Some("b".into())]), Some("ab".to_string()));
    assert_eq!(combined_usage(&vec![None, Some(String::new())]), None);
}

fn profile(skills: &[&str], mcps: &[&str]) -> AgentProfile {
    AgentProfile {
        description: "An agent.".into(),
        skills: strings(skills),
        mcps: strings(mcps),
        tools: strings(&["bash"]),
    }
}

#[test]
fn unscoped_profile_keeps_its_tools() {
    let p = on_build_agent(profile(&[], &[]), &vec![Some(" Use recall.".into())], &vec![]);
    assert_eq!(p.description, "An agent. Use recall.");
    assert_eq!(p.tools, strings(&["bash"]));
}

#[test]
fn scoped_profile_gets_whitelist_and_scope_block() {
    let scoped = vec![
        (strings(&["skill"]), Some("skills: git".to_string())),
        (strings(&["mcp"]), Some("mcp servers: search".to_string())),
        (strings(&["recall"]), None),
    ];
    let p = apply_scope(profile(&["git"], &["search"]), &scoped);
    assert_eq!(p.tools, strings(&["skill", "mcp", "recall"]));
    assert_eq!(p.description, "An agent.\n\n<scope>\nskills: git\nmcp servers: search\n</scope>");
}

#[test]
fn first_preprocess_answer_wins() {
    assert_eq!(preprocess(vec![None, Some("x".into()), Some("y".into())]), Some("x".to_string()));
    assert_eq!(preprocess(vec![None, None]), None);
}

#[test]
fn done_event_names_agent() {
    assert_eq!(done_event("crab", &Some("bye".into())), ("agent:crab:done".to_string(), "bye".to_string()));
    assert_eq!(done_event("crab", &None), ("agent:crab:done".to_string(), String::new()));
}

#[test]
fn forget_messages() {
    assert_eq!(forget_message("tea", &Ok(true)), "forgot: tea");
    assert_eq!(forget_message("tea", &Ok(false)), "no entry named: tea");
    assert_eq!(forget_message("tea", &Err("disk".into())), "failed to forget tea: disk");
}

#[test]
fn members_in_composition_order() {
    assert_eq!(
        members(true, 2),
        vec![Member::Berm, Member::Mcp, Member::Memory, Member::Consumer(0), Member::Consumer(1)]
    );
    assert_eq!(members(false, 0), vec![Member::Mcp, Member::Memory]);
}

#[test]
fn unknown_agent_is_refused() {
    assert_eq!(agent_not_registered("ghost"), "agent 'ghost' not registered");
}
