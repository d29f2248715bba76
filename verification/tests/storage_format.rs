use todo_cli::codec::save_todos;
use todo_cli::store::{load_todos, StoreError};
use todo_cli::task::Task;

fn task(text: &str, completed: bool) -> Task {
    Task { task: text.to_string(), completed }
}

fn round_trips(tasks: Vec<Task>) {
    let text = save_todos(&tasks);
    let back = load_todos(Some(text.as_str())).expect("saved text must load");
    assert_eq!(back.len(), tasks.len());
    for (a, b) in tasks.iter().zip(back.iter()) {
        assert_eq!(a.task, b.task);
        assert_eq!(a.completed, b.completed);
    }
}

#[test]
fn save_empty_list_is_empty_array() {
    assert_eq!(save_todos(&Vec::new()), "[]");
}

#[test]
fn save_one_task_exact_text() {
    let expected = "[\n  {\n    \"task\": \"Buy milk\",\n    \"completed\": false\n  }\n]";
    assert_eq!(save_todos(&vec![task("Buy milk", false)]), expected);
}

#[test]
fn save_two_tasks_exact_text() {
    let expected = "[\n  {\n    \"task\": \"one\",\n    \"completed\": false\n  },\n  {\n    \"task\": \"two\",\n    \"completed\": true\n  }\n]";
    assert_eq!(save_todos(&vec![task("one", false), task("two", true)]), expected);
}

#[test]
fn round_trip_empty() {
    round_trips(Vec::new());
}

#[test]
fn round_trip_plain_tasks() {
    round_trips(vec![task("Buy milk", false), task("Walk the dog", true), task("", false)]);
}

#[test]
fn round_trip_escaped_characters() {
    round_trips(vec![
        task("quote \" backslash \\ slash /", false),
        task("tab\tnewline\nreturn\rbackspace\u{8}formfeed\u{c}", true),
        task("low controls \u{1}\u{2}\u{1f} end", false),
    ]);
}

#[test]
fn round_trip_unicode() {
    round_trips(vec![task("caf\u{e9} na\u{ef}ve \u{1F30D} \u{4e16}\u{754c}", false)]);
}

#[test]
fn saved_text_is_json_serde_reads_it_back() {
    let texts = ["Buy milk", "a\"b\\c\nd\te", "low \u{1} ctrl", "caf\u{e9} \u{1F30D}"];
    let mut tasks = Vec::new();
    for (i, t) in texts.iter().enumerate() {
        tasks.push(task(t, i % 2 == 0));
    }
    let saved = save_todos(&tasks);
    let value: serde_json::Value = serde_json::from_str(&saved).expect("saved text must be JSON");
    let items = value.as_array().expect("saved text must be a JSON array");
    assert_eq!(items.len(), tasks.len());
    for (item, t) in items.iter().zip(tasks.iter()) {
        let obj = item.as_object().expect("each element must be an object");
        assert_eq!(obj.len(), 2);
        assert_eq!(obj.get("task").and_then(|v| v.as_str()), Some(t.task.as_str()));
        assert_eq!(obj.get("completed").and_then(|v| v.as_bool()), Some(t.completed));
    }
}

#[test]
fn load_absent_file_gives_empty_list() {
    let tasks = load_todos(None).expect("an absent file is an empty list");
    assert!(tasks.is_empty());
}

#[test]
fn load_empty_array() {
    let tasks = load_todos(Some("[]")).expect("[] is an empty list");
    assert!(tasks.is_empty());
}

#[test]
fn load_accepts_unicode_escapes() {
    let text = "[\n  {\n    \"task\": \"\\u0041\\u00e9\\/x\",\n    \"completed\": true\n  }\n]";
    let tasks = load_todos(Some(text)).expect("escapes must parse");
    assert_eq!(tasks.len(), 1);
    assert_eq!(tasks[0].task, "A\u{e9}/x");
    assert!(tasks[0].completed);
}

#[test]
fn load_rejects_corrupt_text() {
    for bad in [
        "not json at all",
        "[",
        "[\n  {\n    \"task\": \"x\",\n    \"completed\": maybe\n  }\n]",
        "[\n  {\n    \"task\": \"unterminated,\n    \"completed\": true\n  }\n]",
        "[\n  {\n    \"task\": \"bad escape \\q\",\n    \"completed\": true\n  }\n]",
        "[\n  {\n    \"task\": \"lone surrogate \\ud800\",\n    \"completed\": true\n  }\n]",
        "[\n  {\n    \"task\": \"x\",\n    \"completed\": true\n  }\n] trailing",
    ] {
        let r = load_todos(Some(bad));
        assert!(
            matches!(r, Err(StoreError::Corrupt)),
            "should refuse: {bad}"
        );
    }
}

#[test]
fn second_save_after_load_writes_identical_text() {
    let tasks = vec![task("alpha \"beta\"", true), task("\u{3b3}", false)];
    let first = save_todos(&tasks);
    let reloaded = load_todos(Some(first.as_str())).expect("must load");
    let second = save_todos(&reloaded);
    assert_eq!(first, second);
}
