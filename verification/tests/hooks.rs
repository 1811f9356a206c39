//! Tests for the MCP, memory and skill hooks.

use crabtalk::config::daemon::McpServerConfig;
use crabtalk::config::hooks::MemoryConfig;
use crabtalk::hooks::mcp::{owns_tool, overlay_env, scoped_tools, McpHook};
use crabtalk::hooks::memory::handlers::{recall_limit, route, MemoryToolKind, Recall};
use crabtalk::hooks::memory::recall::{effective_limit, format_recall};
use crabtalk::hooks::memory::RecallLimits;
use crabtalk::hooks::skill::handler::{build_skill_prompt, SkillHook};
use crabtalk::repos::skills::Skill;

fn pair(k: &str, v: &str) -> (String, String) {
    (k.to_string(), v.to_string())
}

fn server(name: &str, env: Vec<(String, String)>) -> McpServerConfig {
    McpServerConfig {
        name: name.to_string(),
        command: "run".to_string(),
        args: vec!["--stdio".to_string()],
        env,
        url: None,
        auth: None,
        auto_restart: true,
    }
}

fn skill(name: &str, description: &str, body: &str) -> Skill {
    Skill {
        name: name.to_string(),
        description: description.to_string(),
        license: None,
        compatibility: None,
        metadata: vec![],
        allowed_tools: vec![],
        body: body.to_string(),
    }
}

fn hook() -> SkillHook {
    SkillHook::new(vec![
        skill("git-flow", "Branching with Git", "use feature branches"),
        skill("deploy", "Ship to production", "run the pipeline"),
    ])
}

fn strings(v: &[&str]) -> Vec<String> {
    v.iter().map(|s| s.to_string()).collect()
}

#[test]
fn overlay_adds_only_missing_variables() {
    let env = vec![pair("A", "own")];
    let overlay = vec![pair("A", "daemon"), pair("B", "daemon")];
    assert_eq!(overlay_env(&env, &overlay), vec![pair("A", "own"), pair("B", "daemon")]);
}

#[test]
fn effective_config_overlays_daemon_env() {
    let hook = McpHook::new(vec![pair("PATH", "/bin")]);
    let cfg = hook.effective_config(&server("search", vec![pair("KEY", "k")]));
    assert_eq!(cfg.name, "search");
    assert_eq!(cfg.args, vec!["--stdio".to_string()]);
    assert_eq!(cfg.env, vec![pair("KEY", "k"), pair("PATH", "/bin")]);
    assert!(cfg.auto_restart);
}

#[test]
fn reregistering_reports_dropped_servers() {
    let mut hook = McpHook::new(vec![]);
    let first = hook.on_register_agent("crab", &vec![server("a", vec![]), server("b", vec![])]);
    assert!(first.is_empty());
    let dropped = hook.on_register_agent("crab", &vec![server("b", vec![]), server("c", vec![])]);
    assert_eq!(dropped, strings(&["a"]));
    assert_eq!(hook.allowed_mcps("crab"), strings(&["b", "c"]));
    assert!(hook.allowed_mcps("other").is_empty());
    assert_eq!(hook.on_unregister_agent("crab"), strings(&["b", "c"]));
    assert!(hook.allowed_mcps("crab").is_empty());
}

#[test]
fn mcp_scope_line() {
    let (tools, line) = scoped_tools(&vec![server("a", vec![]), server("b", vec![])]);
    assert_eq!(tools, strings(&["mcp"]));
    assert_eq!(line.unwrap(), "mcp servers: a, b");
    let (none, no_line) = scoped_tools(&vec![]);
    assert!(none.is_empty() && no_line.is_none());
    assert!(owns_tool("mcp"));
    assert!(!owns_tool("mcps"));
}

#[test]
fn memory_routes_by_name() {
    assert_eq!(route("recall"), Some(MemoryToolKind::Recall));
    assert_eq!(route("remember"), Some(MemoryToolKind::Remember));
    assert_eq!(route("forget"), Some(MemoryToolKind::Forget));
    assert_eq!(route("memory"), Some(MemoryToolKind::Memory));
    assert_eq!(route("bash"), None);
}

#[test]
fn recall_limit_defaults_to_five() {
    assert_eq!(recall_limit(&Recall { query: "q".into(), limit: None }), 5);
    assert_eq!(recall_limit(&Recall { query: "q".into(), limit: Some(2) }), 2);
}

#[test]
fn registered_recall_limits() {
    let mut limits = RecallLimits::new();
    assert_eq!(limits.recall_limit("crab"), 5);
    limits.on_register_agent("crab", &MemoryConfig { recall_limit: 12 });
    assert_eq!(limits.recall_limit("crab"), 12);
    assert_eq!(effective_limit(&limits, "crab", None), 12);
    assert_eq!(effective_limit(&limits, "crab", Some(3)), 3);
    limits.on_unregister_agent("crab");
    assert_eq!(limits.recall_limit("crab"), 5);
}

#[test]
fn recall_hits_are_rendered() {
    assert_eq!(format_recall(&vec![]), "no memories found");
    assert_eq!(
        format_recall(&vec![pair("rust", "likes rust"), pair("tea", "green")]),
        "## rust\nlikes rust\n---\n## tea\ngreen"
    );
}

#[test]
fn slash_skill_is_injected() {
    let h = hook();
    assert_eq!(
        h.preprocess(None, "  /deploy now please").unwrap(),
        "now please\n\n<skill name=\"deploy\">\nrun the pipeline\n</skill>"
    );
    assert_eq!(
        h.preprocess(None, "/git-flow").unwrap(),
        "<skill name=\"git-flow\">\nuse feature branches\n</skill>"
    );
}

#[test]
fn slash_skill_left_alone() {
    let h = hook();
    assert_eq!(h.preprocess(None, "hello /deploy"), None);
    assert_eq!(h.preprocess(None, "/unknown"), None);
    assert_eq!(h.preprocess(None, "/"), None);
    let scope = strings(&["git-flow"]);
    assert_eq!(h.preprocess(Some(&scope), "/deploy"), None);
}

#[test]
fn dispatch_loads_exact_skill() {
    assert_eq!(hook().dispatch(None, "deploy"), Ok("run the pipeline".to_string()));
}

#[test]
fn dispatch_refuses_out_of_scope_and_bad_names() {
    let h = hook();
    let scope = strings(&["git-flow"]);
    assert_eq!(h.dispatch(Some(&scope), "deploy"), Err("skill not available: deploy".to_string()));
    assert_eq!(h.dispatch(None, "../etc"), Err("invalid skill name: ../etc".to_string()));
    assert_eq!(h.dispatch(None, "a/b"), Err("invalid skill name: a/b".to_string()));
}

#[test]
fn dispatch_searches_case_insensitively() {
    let h = hook();
    assert_eq!(h.dispatch(None, "GIT"), Ok("git-flow: Branching with Git".to_string()));
    assert_eq!(
        h.dispatch(None, ""),
        Ok("git-flow: Branching with Git\ndeploy: Ship to production".to_string())
    );
    assert_eq!(h.dispatch(None, "nothing"), Ok("no skills found".to_string()));
    let scope = strings(&["deploy", "dep"]);
    assert_eq!(h.dispatch(Some(&scope), "dep"), Ok("deploy: Ship to production".to_string()));
    assert_eq!(h.dispatch(Some(&scope), ""), Ok("deploy: Ship to production".to_string()));
}

#[test]
fn skill_prompt_lists_skills() {
    assert_eq!(build_skill_prompt(&vec![]), None);
    let p = hook().system_prompt().unwrap();
    assert!(p.starts_with("\n\n<resources>\nSkills:\n"));
    assert!(p.ends_with("- git-flow: Branching with Git\n- deploy: Ship to production\n</resources>"));
}

#[test]
fn skill_scope_line() {
    let (tools, line) = hook().scoped_tools(&strings(&["a", "b"]));
    assert_eq!(tools, strings(&["skill"]));
    assert_eq!(line.unwrap(), "skills: a, b");
}

#[test]
fn empty_skill_name_lists_the_allowed_skills() {
    let h = hook();
    let scope = strings(&["deploy"]);
    assert_eq!(h.dispatch(Some(&scope), ""), Ok("deploy: Ship to production".to_string()));
}
