//! Tests for configuration: providers, manifests, slugs and the LLM plan.

use crabtalk::agent::config::AgentConfig;
use crabtalk::config::daemon::{
    validate_providers, DaemonConfig, DisabledItems, McpServerConfig, ProviderDef,
};
use crabtalk::config::hooks::{HooksConfig, MemoryConfig};
use crabtalk::config::llm::{default_model, endpoint_configured, provider_plan, LlmConfig, ProviderPlan};
use crabtalk::config::manifest::{
    add_package_repo, external_source_name, merge_agent_lists, merge_package_manifest, package_id,
    repo_slug, PackageManifest, ResolvedDirs,
};
use crabtalk::config::system::{SystemConfig, TasksConfig};
use crabtalk::storage::migrate::is_legacy_slug;

fn provider(models: &[&str]) -> ProviderDef {
    ProviderDef { models: models.iter().map(|s| s.to_string()).collect() }
}

fn mcp(name: &str, command: &str) -> McpServerConfig {
    McpServerConfig {
        name: name.to_string(),
        command: command.to_string(),
        args: vec![],
        env: vec![],
        url: None,
        auth: None,
        auto_restart: false,
    }
}

fn daemon(provider: Vec<(String, ProviderDef)>, legacy: Option<MemoryConfig>, hooks_limit: usize) -> DaemonConfig {
    DaemonConfig {
        provider,
        mcps: vec![("search".to_string(), mcp("", "search-mcp")), ("fs".to_string(), mcp("files", "fs-mcp"))],
        system: SystemConfig {
            crab: AgentConfig::new("crab"),
            tasks: TasksConfig::default(),
            legacy_bash: None,
            legacy_memory: legacy,
        },
        hooks: HooksConfig { memory: MemoryConfig { recall_limit: hooks_limit } },
        env: vec![],
        disabled: DisabledItems { providers: vec![], mcps: vec![], skills: vec![] },
    }
}

#[test]
fn repo_slug_from_url() {
    assert_eq!(
        repo_slug("https://github.com/microsoft/playwright-cli"),
        "github-com-microsoft-playwright-cli"
    );
}

#[test]
fn repo_slug_strips_outer_dashes() {
    assert_eq!(repo_slug("git@github.com:a/b.git/"), "git-github-com-a-b-git");
    assert_eq!(repo_slug(""), "");
}

#[test]
fn package_id_drops_toml_suffix() {
    assert_eq!(package_id("browser.toml"), "browser");
    assert_eq!(package_id("browser"), "browser");
    assert_eq!(package_id(".toml"), "");
}

#[test]
fn external_source_name_of_skill_dirs() {
    assert_eq!(external_source_name("/home/u/.codex/skills"), Some("codex"));
    assert_eq!(external_source_name("/home/u/codex/skills"), None);
    assert_eq!(external_source_name("/home/u/.codex/other"), None);
    assert_eq!(external_source_name("~/.agents/skills/"), Some("agents"));
    assert_eq!(external_source_name("skills"), None);
}

#[test]
fn validate_accepts_distinct_models() {
    let ps = vec![("a".to_string(), provider(&["m1", "m2"])), ("b".to_string(), provider(&["m3"]))];
    assert_eq!(validate_providers(&ps), Ok(()));
}

#[test]
fn validate_rejects_duplicate_model_across_providers() {
    let ps = vec![("a".to_string(), provider(&["m1", "m"])), ("b".to_string(), provider(&["m"]))];
    assert_eq!(
        validate_providers(&ps),
        Err("duplicate model name 'm' across providers".to_string())
    );
}

#[test]
fn validate_rejects_duplicate_within_provider() {
    let ps = vec![("a".to_string(), provider(&["x", "x"]))];
    assert!(validate_providers(&ps).is_err());
}

#[test]
fn normalize_fills_mcp_names_and_migrates_memory() {
    let cfg = daemon(vec![], Some(MemoryConfig { recall_limit: 9 }), 5);
    let c = match cfg.normalize() {
        Ok(c) => c,
        Err(e) => panic!("unexpected error {e}"),
    };
    assert_eq!(c.mcps[0].1.name, "search");
    assert_eq!(c.mcps[1].1.name, "files");
    assert_eq!(c.hooks.memory.recall_limit, 9);
    assert!(c.system.legacy_memory.is_none());
    assert!(c.system.legacy_bash.is_none());
}

#[test]
fn normalize_keeps_explicit_hooks_memory() {
    let cfg = daemon(vec![], Some(MemoryConfig { recall_limit: 9 }), 7);
    let c = cfg.normalize().ok().unwrap();
    assert_eq!(c.hooks.memory.recall_limit, 7);
}

#[test]
fn normalize_rejects_duplicate_models() {
    let ps = vec![("a".to_string(), provider(&["m"])), ("b".to_string(), provider(&["m"]))];
    let r = daemon(ps, None, 5).normalize();
    assert_eq!(r.err().unwrap(), "duplicate model name 'm' across providers");
}

#[test]
fn tasks_defaults() {
    let t = TasksConfig::default();
    assert_eq!((t.max_concurrent, t.viewable_window, t.task_timeout), (4, 16, 300));
    assert_eq!(MemoryConfig::default().recall_limit, 5);
}

#[test]
fn gateway_plan_without_kind() {
    let llm = LlmConfig { base_url: "http://localhost:5632".into(), api_key: "k".into(), kind: None };
    assert!(matches!(provider_plan(&llm),
        ProviderPlan::Gateway { base_url, api_key } if base_url == "http://localhost:5632" && api_key == "k"));
    assert!(endpoint_configured(&llm));
}

#[test]
fn direct_plan_with_kind() {
    let llm = LlmConfig { base_url: String::new(), api_key: "k".into(), kind: Some("anthropic".into()) };
    assert!(matches!(provider_plan(&llm),
        ProviderPlan::Direct { kind, api_key, base_url: None } if kind == "anthropic" && api_key == "k"));
    assert!(endpoint_configured(&llm));
    let none = LlmConfig { base_url: String::new(), api_key: String::new(), kind: None };
    assert!(!endpoint_configured(&none));
}

#[test]
fn default_model_is_first_served() {
    assert_eq!(default_model(&vec!["a".to_string(), "b".to_string()]), "a");
    assert_eq!(default_model(&vec![]), "");
}

#[test]
fn first_package_keeps_its_mcp() {
    let mut dirs = ResolvedDirs::new();
    let first = PackageManifest {
        package: None,
        mcps: vec![("browser".to_string(), mcp("browser", "first"))],
        agents: vec![("helper".to_string(), AgentConfig::new("helper"))],
    };
    let second = PackageManifest {
        package: None,
        mcps: vec![("browser".to_string(), mcp("browser", "second"))],
        agents: vec![],
    };
    assert_eq!(merge_package_manifest(&mut dirs, first), None);
    assert_eq!(merge_package_manifest(&mut dirs, second), None);
    assert_eq!(dirs.package_mcps.get("browser").unwrap().command, "first");
    assert!(dirs.package_agents.contains_key("helper"));
}

#[test]
fn add_package_repo_records_dirs() {
    let mut dirs = ResolvedDirs::new();
    add_package_repo(&mut dirs, "browser".into(), "/r/browser".into(), Some("/r/browser/agents".into()));
    assert_eq!(dirs.skill_dirs, vec!["/r/browser".to_string()]);
    assert_eq!(dirs.agent_dirs, vec!["/r/browser/agents".to_string()]);
    assert_eq!(dirs.package_skill_dirs.get("browser").unwrap(), "/r/browser");
}

#[test]
fn local_agents_win_name_conflicts() {
    let local = vec![("a".to_string(), "local a".to_string())];
    let pkg = vec![("a".to_string(), "pkg a".to_string()), ("b".to_string(), "pkg b".to_string())];
    let merged = merge_agent_lists(vec![local, pkg]);
    assert_eq!(
        merged,
        vec![("a".to_string(), "local a".to_string()), ("b".to_string(), "pkg b".to_string())]
    );
}

#[test]
fn legacy_slugs_are_recognised() {
    assert!(is_legacy_slug("crab_user_12"));
    assert!(!is_legacy_slug("crab_user_"));
    assert!(!is_legacy_slug("01HZXJ8K7Q"));
    assert!(!is_legacy_slug("crab_user_1a"));
    assert!(!is_legacy_slug("crab_12"));
    assert!(is_legacy_slug("crab_user_3"));
}

#[test]
fn repo_slug_is_its_own_slug() {
    for url in ["https://github.com/microsoft/playwright-cli", "git@github.com:a/b.git/", "--x--", "ünï/cødé"] {
        let s = repo_slug(url);
        assert_eq!(repo_slug(&s), s);
    }
}
