use todo::command::{execute, Command};
use todo::task::Task;

fn task(id: usize, name: &str, description: Option<&str>, done: bool) -> Task {
    Task { id, name: name.to_string(), description: description.map(|d| d.to_string()), done }
}

fn two_tasks() -> Vec<Task> {
    vec![task(1, "Buy milk", None, false), task(2, "Walk dog", Some("around the block"), false)]
}

#[test]
fn add_to_empty_store() {
    let mut tasks: Vec<Task> = Vec::new();
    let out = execute(
        &mut tasks,
        Command::Add { name: "Buy milk".to_string(), description: None },
    );
    assert!(out.mutated);
    assert_eq!(out.output, "Task added: Buy milk\n");
    assert_eq!(tasks.len(), 1);
    assert_eq!(tasks[0].id, 1);
    assert_eq!(tasks[0].name, "Buy milk");
    assert_eq!(tasks[0].description, None);
    assert!(!tasks[0].done);
    let stored = todo::codec::encode_tasks(&tasks);
    assert_eq!(
        stored,
        "[\n  {\n    \"id\": 1,\n    \"name\": \"Buy milk\",\n    \"description\": null,\n    \"done\": false\n  }\n]",
    );
    let out = execute(&mut tasks, Command::List);
    assert!(!out.mutated);
    assert_eq!(out.output, "1: \u{1f533} Buy milk\n");
}

#[test]
fn done_shows_in_list_and_json() {
    let mut tasks = two_tasks();
    let out = execute(&mut tasks, Command::Done { pos: 2 });
    assert!(out.mutated);
    assert_eq!(out.output, "Task 2 marked as done.\n");
    let out = execute(&mut tasks, Command::List);
    assert_eq!(out.output, "1: \u{1f533} Buy milk\n2: \u{2705} Walk dog\n");
    let out = execute(&mut tasks, Command::Json);
    assert!(!out.mutated);
    let json: serde_json::Value = serde_json::from_str(out.output.trim_end()).unwrap();
    assert_eq!(json[1]["done"], serde_json::Value::Bool(true));
    assert_eq!(json[0]["done"], serde_json::Value::Bool(false));
}

#[test]
fn remove_shifts_later_tasks_down() {
    let mut tasks = two_tasks();
    let out = execute(&mut tasks, Command::Remove { pos: 1 });
    assert!(out.mutated);
    assert_eq!(out.output, "Task 1 removed.\n");
    assert_eq!(tasks.len(), 1);
    assert_eq!(tasks[0].name, "Walk dog");
    let out = execute(&mut tasks, Command::List);
    assert_eq!(out.output, "1: \u{1f533} Walk dog\n");
}

#[test]
fn out_of_range_positions_are_rejected() {
    let mut tasks: Vec<Task> = Vec::new();
    let out = execute(&mut tasks, Command::Remove { pos: 1 });
    assert!(!out.mutated);
    assert_eq!(out.output, "Invalid task number. Please enter a number between 1 and 0.\n");
    assert!(tasks.is_empty());

    let mut tasks = two_tasks();
    let before = tasks.clone();
    for cmd in [
        Command::Remove { pos: 0 },
        Command::Remove { pos: 3 },
        Command::Done { pos: 0 },
        Command::Undo { pos: 7 },
        Command::Describe { pos: 3 },
    ] {
        let out = execute(&mut tasks, cmd);
        assert!(!out.mutated);
        assert_eq!(out.output, "Invalid task number. Please enter a number between 1 and 2.\n");
        assert_eq!(tasks, before);
    }
}

#[test]
fn toggles_are_idempotent() {
    let mut tasks = two_tasks();
    execute(&mut tasks, Command::Done { pos: 1 });
    assert!(tasks[0].done);
    execute(&mut tasks, Command::Done { pos: 1 });
    assert!(tasks[0].done);
    execute(&mut tasks, Command::Undo { pos: 1 });
    assert!(!tasks[0].done);
    execute(&mut tasks, Command::Undo { pos: 1 });
    assert!(!tasks[0].done);
    assert_eq!(tasks[1], two_tasks()[1]);
}

#[test]
fn describe_prints_id_name_description_state() {
    let mut tasks = two_tasks();
    let out = execute(&mut tasks, Command::Describe { pos: 2 });
    assert!(!out.mutated);
    assert_eq!(
        out.output,
        "Task 2: Walk dog\nDescription: around the block\nDone: \u{1f533}\n",
    );
    let out = execute(&mut tasks, Command::Describe { pos: 1 });
    assert_eq!(out.output, "Task 1: Buy milk\nDescription: (none)\nDone: \u{1f533}\n");
}

#[test]
fn list_of_empty_collection() {
    let mut tasks: Vec<Task> = Vec::new();
    let out = execute(&mut tasks, Command::List);
    assert!(!out.mutated);
    assert_eq!(out.output, "No tasks available.\n");
}

#[test]
fn json_of_empty_collection() {
    let mut tasks: Vec<Task> = Vec::new();
    let out = execute(&mut tasks, Command::Json);
    assert_eq!(out.output, "[]\n");
}
