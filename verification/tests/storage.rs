use todo::codec::{encode_tasks, load_from_text, parse_tasks};
use todo::task::Task;

fn task(id: usize, name: &str, description: Option<&str>, done: bool) -> Task {
    Task { id, name: name.to_string(), description: description.map(|d| d.to_string()), done }
}

#[test]
fn round_trip_plain_tasks() {
    let tasks = vec![
        task(1, "Buy milk", None, false),
        task(2, "Walk dog", Some("around the block"), true),
        task(17, "", Some(""), false),
    ];
    let text = encode_tasks(&tasks);
    let back = parse_tasks(&text).unwrap();
    assert_eq!(back, tasks);
}

#[test]
fn round_trip_special_characters() {
    let tasks = vec![
        task(1, "say \"hi\"", Some("C:\\temp"), false),
        task(2, "line\nbreak\ttab", Some("bell\u{7}end\u{1f}"), true),
        task(3, "caf\u{e9} \u{2705}", Some("\u{8}\u{c}\r"), false),
    ];
    let text = encode_tasks(&tasks);
    let back = parse_tasks(&text).unwrap();
    assert_eq!(back, tasks);
}

#[test]
fn encoding_is_valid_json_with_the_expected_fields() {
    let tasks = vec![task(1, "say \"hi\"\n", Some("a\\b"), true)];
    let text = encode_tasks(&tasks);
    let json: serde_json::Value = serde_json::from_str(&text).unwrap();
    assert_eq!(json[0]["id"], serde_json::Value::from(1u64));
    assert_eq!(json[0]["name"], serde_json::Value::String("say \"hi\"\n".to_string()));
    assert_eq!(json[0]["description"], serde_json::Value::String("a\\b".to_string()));
    assert_eq!(json[0]["done"], serde_json::Value::Bool(true));
}

#[test]
fn empty_collection_encodes_as_empty_array() {
    let tasks: Vec<Task> = Vec::new();
    assert_eq!(encode_tasks(&tasks), "[]");
    assert_eq!(parse_tasks("[]").unwrap(), tasks);
}

#[test]
fn malformed_text_loads_as_empty() {
    assert!(parse_tasks("").is_none());
    assert!(parse_tasks("{}").is_none());
    assert!(parse_tasks("[\n  {\n    \"id\": 1,\n").is_none());
    assert!(parse_tasks("not json at all").is_none());
    assert!(load_from_text("garbage").is_empty());
    assert!(load_from_text("").is_empty());
}

#[test]
fn trailing_text_is_rejected() {
    let tasks = vec![task(1, "a", None, false)];
    let mut text = encode_tasks(&tasks);
    assert!(parse_tasks(&text).is_some());
    text.push(' ');
    assert!(parse_tasks(&text).is_none());
}

#[test]
fn load_reads_back_what_was_stored() {
    let tasks = vec![task(1, "Buy milk", None, false), task(2, "Walk dog", None, true)];
    let text = encode_tasks(&tasks);
    let loaded = load_from_text(&text);
    assert_eq!(loaded, tasks);
}
