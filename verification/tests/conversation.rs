//! Tests for session persistence and sender slugs.

use crabtalk::config::manifest::sender_slug;
use crabtalk::model::HistoryEntry;
use crabtalk::repos::sessions::{InMemorySessionRepo, SessionHandle};

fn repo() -> InMemorySessionRepo {
    InMemorySessionRepo::new()
}

#[test]
fn sender_slug_basic() {
    assert_eq!(sender_slug("hello"), "hello");
}

#[test]
fn sender_slug_special_chars() {
    assert_eq!(sender_slug("TG:user-123"), "tg-user-123");
}

#[test]
fn sender_slug_collapses_dashes() {
    assert_eq!(sender_slug("a::b"), "a-b");
}

#[test]
fn sender_slug_empty() {
    assert_eq!(sender_slug(""), "");
}

#[test]
fn sender_slug_all_special() {
    assert_eq!(sender_slug(":::"), "");
}

#[test]
fn create_returns_handle() {
    let mut repo = repo();
    let handle = repo.create("crab", "user").unwrap();
    assert!(!handle.as_str().is_empty());
}

#[test]
fn create_persists_meta() {
    let mut repo = repo();
    let handle = repo.create("crab", "user").unwrap();
    let snapshot = repo.load(&handle).unwrap().unwrap();
    assert_eq!(snapshot.meta.agent, "crab");
    assert_eq!(snapshot.meta.created_by, "user");
}

#[test]
fn append_messages_persists() {
    let mut repo = repo();
    let handle = repo.create("crab", "user").unwrap();
    repo.append_messages(
        &handle,
        &[
            HistoryEntry::user("hello"),
            HistoryEntry::assistant("hi", None, None),
        ],
    )
    .unwrap();

    let snapshot = repo.load(&handle).unwrap().unwrap();
    assert_eq!(snapshot.history.len(), 2);
}

#[test]
fn append_caller_filters_auto_injected() {
    let mut repo = repo();
    let handle = repo.create("crab", "user").unwrap();
    let entries = [
        HistoryEntry::user("injected").auto_injected(),
        HistoryEntry::user("real"),
    ];
    // Caller is responsible for filtering auto-injected entries.
    let persistable: Vec<_> = entries.into_iter().filter(|e| !e.auto_injected).collect();
    repo.append_messages(&handle, &persistable).unwrap();

    let snapshot = repo.load(&handle).unwrap().unwrap();
    assert_eq!(snapshot.history.len(), 1);
}

#[test]
fn load_roundtrip() {
    let mut repo = repo();
    let handle = repo.create("crab", "tester").unwrap();
    repo.append_messages(
        &handle,
        &[
            HistoryEntry::user("hello"),
            HistoryEntry::assistant("world", None, None),
        ],
    )
    .unwrap();

    let snapshot = repo.load(&handle).unwrap().unwrap();
    assert_eq!(snapshot.meta.agent, "crab");
    assert_eq!(snapshot.meta.created_by, "tester");
    assert_eq!(snapshot.history.len(), 2);
}

#[test]
fn load_after_compact() {
    let mut repo = repo();
    let handle = repo.create("crab", "user").unwrap();
    repo.append_messages(
        &handle,
        &[
            HistoryEntry::user("old"),
            HistoryEntry::assistant("old reply", None, None),
        ],
    )
    .unwrap();
    repo.append_compact(&handle, "summary of conversation")
        .unwrap();
    repo.append_messages(&handle, &[HistoryEntry::user("new")])
        .unwrap();

    let snapshot = repo.load(&handle).unwrap().unwrap();
    // After compact: summary-as-user-message + new message
    assert_eq!(snapshot.history.len(), 2);
    assert_eq!(snapshot.history[0].text(), "summary of conversation");
}

#[test]
fn update_meta_preserves_handle() {
    let mut repo = repo();
    let handle = repo.create("crab", "user").unwrap();
    let mut meta = repo.load(&handle).unwrap().unwrap().meta;
    meta.title = "My Chat".to_owned();
    repo.update_meta(&handle, &meta).unwrap();

    // Handle is stable — title change doesn't change identity.
    let snapshot = repo.load(&handle).unwrap().unwrap();
    assert_eq!(snapshot.meta.title, "My Chat");
}

#[test]
fn find_latest_returns_session() {
    let mut repo = repo();
    let _h1 = repo.create("crab", "user").unwrap();
    let h2 = repo.create("crab", "user").unwrap();
    let found = repo.find_latest("crab", "user").unwrap();
    assert!(found.is_some());
    let found = found.unwrap();
    assert!(found == h2 || found == _h1);
}

#[test]
fn load_missing_handle_returns_none() {
    let repo = repo();
    let ghost = SessionHandle::new("ghost_nobody_1");
    assert!(repo.load(&ghost).unwrap().is_none());
}

#[test]
fn find_latest_empty_repo() {
    let repo = repo();
    assert!(repo.find_latest("crab", "user").unwrap().is_none());
}

#[test]
fn find_latest_no_match() {
    let mut repo = repo();
    repo.create("other", "user").unwrap();
    assert!(repo.find_latest("crab", "user").unwrap().is_none());
}

#[test]
fn create_assigns_distinct_handles() {
    let mut repo = repo();
    let h1 = repo.create("crab", "user").unwrap();
    let h2 = repo.create("crab", "user").unwrap();
    assert_ne!(h1, h2);
}

#[test]
fn sender_slug_is_lowercase_with_single_inner_dashes() {
    let slug = sender_slug("--Web::Chat__User 42--");
    assert_eq!(slug, "web-chat-user-42");
    assert!(!slug.contains("--"));
    assert!(!slug.starts_with('-') && !slug.ends_with('-'));
}

#[test]
fn find_latest_picks_the_newest_session() {
    let mut repo = repo();
    repo.create("other", "user").unwrap();
    let _h1 = repo.create("crab", "user").unwrap();
    let h2 = repo.create("crab", "user").unwrap();
    assert_eq!(repo.find_latest("crab", "user").unwrap(), Some(h2));
    assert_eq!(repo.find_latest("ghost", "user").unwrap(), None);
}

#[test]
fn reloaded_entries_keep_their_agent() {
    let mut repo = repo();
    let handle = repo.create("crab", "user").unwrap();
    let mut reply = HistoryEntry::assistant("done", None, None);
    reply.agent = "helper".to_string();
    repo.append_messages(&handle, &[HistoryEntry::user("hi"), reply]).unwrap();
    repo.append_compact(&handle, "summary").unwrap();
    let mut again = HistoryEntry::assistant("more", None, None);
    again.agent = "helper".to_string();
    repo.append_messages(&handle, &[again]).unwrap();
    let snap = repo.load(&handle).unwrap().unwrap();
    assert_eq!(snap.history.len(), 2);
    assert_eq!(snap.history[1].agent, "helper");
}

#[test]
fn handles_count_up_from_one() {
    let mut repo = repo();
    assert_eq!(repo.create("crab", "user").unwrap().as_str(), "crab_1");
    assert_eq!(repo.create("crab", "user").unwrap().as_str(), "crab_2");
}
