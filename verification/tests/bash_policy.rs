//! Tests for the bash command policy and the bash tool results.

use crabtalk::hooks::os::bash::config::{BashConfig as AskConfig, Verdict};
use crabtalk::hooks::os::bash::{
    bash_failure, bash_result, bash_timeout, matches_pattern, split_compound, BashConfig,
};

fn strings(v: &[&str]) -> Vec<String> {
    v.iter().map(|s| s.to_string()).collect()
}

fn policy(allow: &[&str], deny: &[&str]) -> BashConfig {
    BashConfig { allow: strings(allow), deny: strings(deny) }
}

fn ask_policy(allow: &[&str], ask: &[&str], deny: &[&str]) -> AskConfig {
    AskConfig { allow: strings(allow), ask: strings(ask), deny: strings(deny) }
}

#[test]
fn star_matches_everything() {
    assert!(matches_pattern("*", "anything at all"));
    assert!(matches_pattern("*", ""));
}

#[test]
fn prefix_pattern_matches_with_arguments() {
    assert!(matches_pattern("cargo *", "cargo build --release"));
    assert!(matches_pattern("cargo *", "cargo"));
    assert!(!matches_pattern("cargo *", "cargox build"));
    assert!(!matches_pattern("cargo *", "rustc"));
}

#[test]
fn exact_pattern_matches_only_itself() {
    assert!(matches_pattern("ls", "ls"));
    assert!(!matches_pattern("ls", "ls -la"));
}

#[test]
fn split_on_shell_operators() {
    let parts = split_compound("cd foo && cargo build || echo fail; ls | wc -l");
    assert_eq!(parts, vec!["cd foo", "cargo build", "echo fail", "ls", "wc -l"]);
}

#[test]
fn split_drops_empty_parts() {
    let parts = split_compound("  ls ;;  \n pwd  ");
    assert_eq!(parts, vec!["ls", "pwd"]);
}

#[test]
fn deny_wins_over_allow() {
    let p = policy(&["*"], &["rm -rf *"]);
    assert_eq!(p.check("rm -rf /"), Err("denied by policy: rm -rf /".to_string()));
}

#[test]
fn deny_in_any_part_refuses_compound() {
    let p = policy(&[], &["sudo *"]);
    assert_eq!(
        p.check("ls && sudo reboot"),
        Err("denied by policy: sudo reboot".to_string())
    );
}

#[test]
fn allow_list_must_match() {
    let p = policy(&["cargo *", "git *"], &[]);
    assert_eq!(p.check("cargo test"), Ok(()));
    assert_eq!(p.check("git status | head"), Err("not in allow list: head".to_string()));
}

#[test]
fn empty_policy_allows_everything() {
    let p = policy(&[], &[]);
    assert_eq!(p.check("rm -rf / && sudo reboot"), Ok(()));
    assert_eq!(p.prompt_block(), None);
}

#[test]
fn prompt_block_lists_rules() {
    let p = policy(&["cargo *", "git *"], &["sudo *"]);
    assert_eq!(
        p.prompt_block().unwrap(),
        "\n\n<bash-policy>\nallowed: cargo *, git *\ndenied: sudo *\n\
         Commands not matching the allow list will be rejected.\n</bash-policy>"
    );
}

#[test]
fn prompt_block_deny_only() {
    let p = policy(&[], &["sudo *"]);
    assert_eq!(p.prompt_block().unwrap(), "\n\n<bash-policy>\ndenied: sudo *\n</bash-policy>");
}

#[test]
fn ask_policy_classifies_commands() {
    let p = ask_policy(&["cargo *"], &["git push *"], &["sudo *"]);
    assert!(matches!(p.check_command("cargo build"), Verdict::Allow));
    assert!(
        matches!(p.check_command("git push origin"), Verdict::Ask(r) if r == "requires approval: git push origin")
    );
    assert!(matches!(p.check_command("sudo ls"), Verdict::Deny(r) if r == "denied by policy: sudo ls"));
    assert!(matches!(p.check_command("make"), Verdict::Ask(r) if r == "not in allow list: make"));
}

#[test]
fn ask_policy_most_restrictive_part_wins() {
    let p = ask_policy(&["cargo *"], &["git push *"], &["sudo *"]);
    assert!(matches!(p.check("cargo build && git push origin"), Verdict::Ask(_)));
    assert!(
        matches!(p.check("git push origin; sudo ls"), Verdict::Deny(r) if r == "denied by policy: sudo ls")
    );
    assert!(matches!(p.check("cargo build && cargo test"), Verdict::Allow));
}

#[test]
fn ask_policy_empty_allows_everything() {
    let p = ask_policy(&[], &[], &[]);
    assert!(matches!(p.check("anything | goes"), Verdict::Allow));
    assert!(p.prompt_block().is_none());
}

#[test]
fn ask_policy_prompt_block() {
    let p = ask_policy(&["cargo *"], &["git push *"], &[]);
    assert_eq!(
        p.prompt_block().unwrap(),
        "\n\n<bash-policy>\nallowed: cargo *\nrequires approval: git push *\n\
         Commands not matching the allow or ask list require interactive approval.\n</bash-policy>"
    );
}

#[test]
fn bash_result_is_json_in_key_order() {
    assert_eq!(
        bash_result("out\n", "err \"x\"", 2),
        "{\"exit_code\":2,\"stderr\":\"err \\\"x\\\"\",\"stdout\":\"out\\n\"}"
    );
}

#[test]
fn bash_result_negative_exit_code() {
    assert_eq!(
        bash_result("", "", i32::MIN),
        "{\"exit_code\":-2147483648,\"stderr\":\"\",\"stdout\":\"\"}"
    );
}

#[test]
fn bash_failure_and_timeout_results() {
    assert_eq!(
        bash_failure("no shell"),
        "{\"exit_code\":-1,\"stderr\":\"bash failed: no shell\",\"stdout\":\"\"}"
    );
    assert_eq!(
        bash_timeout(),
        "{\"exit_code\":-1,\"stderr\":\"bash timed out after 30 seconds\",\"stdout\":\"\"}"
    );
}

#[test]
fn bash_result_escapes_like_serde_json() {
    let out = "quote\" back\\ tab\t nl\n cr\r bs\u{8} ff\u{c} nul\u{0} us\u{1f} del\u{7f} é";
    let err = "\u{1}\u{1b}";
    let expected = format!(
        "{{\"exit_code\":3,\"stderr\":{},\"stdout\":{}}}",
        serde_json::to_string(err).unwrap(),
        serde_json::to_string(out).unwrap()
    );
    assert_eq!(bash_result(out, err, 3), expected);
    assert_eq!(bash_result("", "\u{1b}", 0), "{\"exit_code\":0,\"stderr\":\"\\u001b\",\"stdout\":\"\"}");
}
