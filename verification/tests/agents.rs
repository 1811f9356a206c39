//! Tests for the in-memory agent repository.

use crabtalk::agent::config::AgentConfig;
use crabtalk::repos::agents::InMemoryAgentRepo;

fn config(name: &str) -> AgentConfig {
    AgentConfig::new(name).description("helps").model("m")
}

#[test]
fn upsert_then_load_reads_prompt_back() {
    let mut repo = InMemoryAgentRepo::new();
    assert_eq!(repo.upsert(7, &config("crab"), "be kind"), Ok(()));
    let by_name = repo.load_by_name("crab").unwrap().unwrap();
    assert_eq!(by_name.system_prompt, "be kind");
    assert_eq!(by_name.description, "helps");
    let by_id = repo.load(7).unwrap().unwrap();
    assert_eq!(by_id.name, "crab");
    assert!(repo.load(8).unwrap().is_none());
    assert!(repo.load_by_name("ghost").unwrap().is_none());
}

#[test]
fn upsert_refuses_nil_id_and_empty_name() {
    let mut repo = InMemoryAgentRepo::new();
    assert_eq!(repo.upsert(0, &config("crab"), ""), Err("cannot upsert agent with nil ID".to_string()));
    assert_eq!(repo.upsert(1, &config(""), ""), Err("cannot upsert agent with empty name".to_string()));
    assert!(repo.list().unwrap().is_empty());
}

#[test]
fn upsert_replaces_by_name() {
    let mut repo = InMemoryAgentRepo::new();
    repo.upsert(1, &config("a"), "one").unwrap();
    repo.upsert(2, &config("b"), "two").unwrap();
    repo.upsert(3, &config("a"), "three").unwrap();
    let all = repo.list().unwrap();
    assert_eq!(all.len(), 2);
    assert_eq!(all[0].name, "a");
    assert_eq!(all[0].system_prompt, "three");
    assert_eq!(repo.load(3).unwrap().unwrap().name, "a");
    assert!(repo.load(1).unwrap().is_none());
}

#[test]
fn delete_by_id() {
    let mut repo = InMemoryAgentRepo::new();
    repo.upsert(1, &config("a"), "").unwrap();
    assert_eq!(repo.delete(2), Ok(false));
    assert_eq!(repo.delete(1), Ok(true));
    assert!(repo.load_by_name("a").unwrap().is_none());
}

#[test]
fn rename_keeps_id_and_prompt() {
    let mut repo = InMemoryAgentRepo::new();
    repo.upsert(1, &config("a"), "p").unwrap();
    assert_eq!(repo.rename(1, "b"), Ok(true));
    assert!(repo.load_by_name("a").unwrap().is_none());
    let b = repo.load_by_name("b").unwrap().unwrap();
    assert_eq!(b.system_prompt, "p");
    assert_eq!(repo.load(1).unwrap().unwrap().name, "b");
    assert_eq!(repo.rename(9, "c"), Ok(false));
}
