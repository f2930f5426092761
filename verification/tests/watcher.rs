use signal_native_channel::bridge::watcher::{
    entry_message, is_bridge_session_file, messages_in_text, new_messages, session_dir,
    SessionWatcher,
};
use signal_native_channel::path::FilePath;

#[test]
fn session_files_by_name() {
    assert!(is_bridge_session_file(b"bridge_signal.jsonl"));
    assert!(is_bridge_session_file(b"bridge_.jsonl"));
    assert!(is_bridge_session_file(b"bridge_\xff.jsonl"));
    for name in [
        "bridge.jsonl",
        "bridges.jsonl",
        "bridge_signal.json",
        "bridge_signal",
        "Bridge_signal.jsonl",
        "cli_signal.jsonl",
        "bridge_.jsonl.bak",
        "bridgejsonl",
        "",
    ] {
        assert!(!is_bridge_session_file(name.as_bytes()));
    }
}

#[test]
fn directory_of_a_session_file() {
    let dir = |file: &str| session_dir(&FilePath::from_text(file)).map(|d| d.to_text().unwrap());
    assert_eq!(dir("/s/bridge_a.jsonl"), Ok("/s".to_string()));
    assert_eq!(dir("/bridge_a.jsonl"), Ok("/".to_string()));
    assert_eq!(dir("bridge_a.jsonl"), Ok("".to_string()));
    for file in ["", "/", "//."] {
        assert_eq!(dir(file), Err("session file has no parent directory".to_string()));
    }
}

#[test]
fn growing_files_are_read_on() {
    let mut watcher = SessionWatcher::new();
    watcher.record(b"bridge_a.jsonl", 100);
    assert_eq!(watcher.observe(b"bridge_a.jsonl", 100), None);
    assert_eq!(watcher.observe(b"bridge_a.jsonl", 130), Some(100));
    assert_eq!(watcher.observe(b"bridge_a.jsonl", 130), None);
    assert_eq!(watcher.observe(b"bridge_a.jsonl", 131), Some(130));
}

#[test]
fn new_files_are_read_from_the_start() {
    let mut watcher = SessionWatcher::new();
    watcher.record(b"bridge_a.jsonl", 100);
    assert_eq!(watcher.observe(b"bridge_b.jsonl", 0), None);
    assert_eq!(watcher.observe(b"bridge_b.jsonl", 7), Some(0));
    assert_eq!(watcher.observe(b"bridge_b.jsonl", 9), Some(7));
    assert_eq!(watcher.observe(b"bridge_a.jsonl", 101), Some(100));
}

#[test]
fn shrunken_files_keep_their_size_in_mind() {
    let mut watcher = SessionWatcher::new();
    watcher.record(b"bridge_a.jsonl", 100);
    assert_eq!(watcher.observe(b"bridge_a.jsonl", 10), None);
    assert_eq!(watcher.observe(b"bridge_a.jsonl", 100), None);
    assert_eq!(watcher.observe(b"bridge_a.jsonl", 101), Some(100));
}

#[test]
fn other_files_are_left_alone() {
    let mut watcher = SessionWatcher::new();
    watcher.record(b"notes.txt", 1);
    assert_eq!(watcher.observe(b"notes.txt", 50), None);
    assert_eq!(watcher.observe(b"notes.txt", 60), None);
}

#[test]
fn entries_of_users_are_messages() {
    let entry = |role: Option<&str>, content: Option<&str>| {
        entry_message(role.map(|s| s.to_string()), content.map(|s| s.to_string()))
    };
    assert_eq!(entry(Some("user"), Some("hi")), Some("hi".to_string()));
    assert_eq!(entry(Some("assistant"), Some("hi")), None);
    assert_eq!(entry(Some("user"), Some("")), None);
    assert_eq!(entry(Some("user"), None), None);
    assert_eq!(entry(None, Some("hi")), None);
}

#[test]
fn messages_on_the_lines_of_a_file() {
    let text = concat_lines(&[
        r#"{"role":"user","content":"first"}"#,
        r#"  {"content":"second \"quoted\"\nline","role":"user"}  "#,
        r#"{"role":"assistant","content":"no"}"#,
        r#"{"role":"user","content":""}"#,
        r#"{"role":"user","content":7}"#,
        r#"{"role":"user"}"#,
        r#"["role","user"]"#,
        "not json",
        "",
        r#"{"role":"user","content":"ünï"}"#,
    ]);
    assert_eq!(messages_in_text(&text), vec!["first", "second \"quoted\"\nline", "ünï"]);
    assert!(messages_in_text("").is_empty());
}

#[test]
fn lines_may_end_with_carriage_returns() {
    let text = "{\"role\":\"user\",\"content\":\"a\"}\r\n{\"role\":\"user\",\"content\":\"b\"}\r\n";
    assert_eq!(messages_in_text(text), vec!["a", "b"]);
}

#[test]
fn only_what_is_new_is_read() {
    let old = "{\"role\":\"user\",\"content\":\"old\"}\n";
    let new = "{\"role\":\"user\",\"content\":\"new\"}\n";
    let data = format!("{old}{new}");
    assert_eq!(new_messages(data.as_bytes(), old.len() as u64), vec!["new"]);
    assert_eq!(new_messages(data.as_bytes(), 0), vec!["old", "new"]);
    assert!(new_messages(data.as_bytes(), data.len() as u64).is_empty());
}

#[test]
fn bytes_that_are_no_text_are_replaced() {
    let mut data = b"{\"role\":\"user\",\"content\":\"a".to_vec();
    data.push(0xff);
    data.extend_from_slice(b"b\"}\n");
    assert_eq!(new_messages(&data, 0), vec!["a\u{fffd}b"]);
}

fn concat_lines(lines: &[&str]) -> String {
    lines.iter().map(|line| format!("{line}\n")).collect()
}
