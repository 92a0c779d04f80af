use libruntime::probe::{is_volume_in_use, RuntimeState, StateDir};
use libruntime::text::contains_text;

fn dir(name: &str, content: Option<&str>) -> StateDir {
    StateDir { name: name.to_string(), content: content.map(|c| c.to_string()) }
}

#[test]
fn nothing_is_in_use_without_state() {
    let state = RuntimeState { containers: vec![], projects: vec![] };
    assert!(!is_volume_in_use("v", &state));
    assert!(!is_volume_in_use("", &state));
}

#[test]
fn container_state_that_holds_the_name_is_a_use() {
    let state = RuntimeState {
        containers: vec![dir("c1", Some("{\"mounts\":[]}")), dir("cX", Some("{\"volumes\":[\"v\"]}"))],
        projects: vec![],
    };
    assert!(is_volume_in_use("v", &state));
    assert!(is_volume_in_use("volumes", &state));
    assert!(!is_volume_in_use("data", &state));
}

#[test]
fn compose_directory_is_no_container() {
    let state = RuntimeState {
        containers: vec![dir("compose", Some("data"))],
        projects: vec![],
    };
    assert!(!is_volume_in_use("data", &state));
}

#[test]
fn compose_project_that_holds_the_name_is_a_use() {
    let state = RuntimeState {
        containers: vec![dir("compose", None)],
        projects: vec![dir("web", Some("volumes: [cache]")), dir("db", None)],
    };
    assert!(is_volume_in_use("cache", &state));
    assert!(!is_volume_in_use("data", &state));
}

#[test]
fn project_named_compose_still_counts() {
    let state = RuntimeState {
        containers: vec![],
        projects: vec![dir("compose", Some("data"))],
    };
    assert!(is_volume_in_use("data", &state));
}

#[test]
fn unreadable_state_is_no_evidence() {
    let state = RuntimeState {
        containers: vec![dir("c1", None), dir("c2", None)],
        projects: vec![dir("p", None)],
    };
    assert!(!is_volume_in_use("v", &state));
    assert!(!is_volume_in_use("", &state));
}

#[test]
fn the_test_is_a_substring_test() {
    let state = RuntimeState {
        containers: vec![dir("c1", Some("mydata-backup"))],
        projects: vec![],
    };
    assert!(is_volume_in_use("data", &state));
    assert!(is_volume_in_use("mydata-backup", &state));
    assert!(!is_volume_in_use("mydata-backup2", &state));
    assert!(!is_volume_in_use("Data", &state));
}

#[test]
fn substring_search() {
    assert!(contains_text("hello world", "o w"));
    assert!(contains_text("hello world", "hello world"));
    assert!(contains_text("hello world", ""));
    assert!(contains_text("", ""));
    assert!(contains_text("aab", "ab"));
    assert!(contains_text("été", "té"));
    assert!(!contains_text("hello", "hello world"));
    assert!(!contains_text("", "a"));
    assert!(!contains_text("abcabd", "abce"));
}
