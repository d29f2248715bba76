use todo_cli::codec::save_todos;
use todo_cli::commands::{
    add_task, add_task_description, check_done_args, complete_task, dispatch, list_tasks,
    print_help, Command, DoneOutcome, DoneRequest,
};
use todo_cli::numbers::parse_task_number;
use todo_cli::store::load_todos;
use todo_cli::task::Task;

fn args(words: &[&str]) -> Vec<String> {
    words.iter().map(|w| w.to_string()).collect()
}

fn sample(texts: &[&str]) -> Vec<Task> {
    texts.iter().map(|t| Task { task: t.to_string(), completed: false }).collect()
}

#[test]
fn dispatch_selects_commands() {
    assert!(matches!(dispatch(&args(&["todo_cli", "add", "x"])), Command::Add));
    assert!(matches!(dispatch(&args(&["todo_cli", "list"])), Command::List));
    assert!(matches!(dispatch(&args(&["todo_cli", "done", "1"])), Command::Done));
    assert!(matches!(dispatch(&args(&["todo_cli", "help"])), Command::Help));
    assert!(matches!(dispatch(&args(&["todo_cli"])), Command::Help));
    assert!(matches!(dispatch(&args(&["todo_cli", "Add"])), Command::Unknown));
    assert!(matches!(dispatch(&args(&["todo_cli", "remove", "1"])), Command::Unknown));
}

#[test]
fn add_joins_arguments_with_spaces() {
    let d = add_task_description(&args(&["todo_cli", "add", "Buy", "some", "milk"]));
    assert_eq!(d.unwrap(), "Buy some milk");
    let d = add_task_description(&args(&["todo_cli", "add", "Buy milk"]));
    assert_eq!(d.unwrap(), "Buy milk");
}

#[test]
fn empty_add_names_no_description() {
    assert!(add_task_description(&args(&["todo_cli", "add"])).is_none());
    assert!(add_task_description(&args(&["todo_cli"])).is_none());
}

#[test]
fn add_appends_incomplete_task_last() {
    let mut tasks = sample(&["one", "two"]);
    tasks[1].completed = true;
    let before = tasks.len();
    add_task(&mut tasks, "three".to_string());
    assert_eq!(tasks.len(), before + 1);
    assert_eq!(tasks[2].task, "three");
    assert!(!tasks[2].completed);
    assert_eq!(tasks[0].task, "one");
    assert_eq!(tasks[1].task, "two");
    assert!(tasks[1].completed);
}

#[test]
fn parse_task_number_accepts_plain_and_signed_digits() {
    assert_eq!(parse_task_number("2"), Some(2));
    assert_eq!(parse_task_number("+2"), Some(2));
    assert_eq!(parse_task_number("007"), Some(7));
    assert_eq!(parse_task_number("0"), Some(0));
}

#[test]
fn parse_task_number_rejects_junk() {
    assert_eq!(parse_task_number(""), None);
    assert_eq!(parse_task_number("abc"), None);
    assert_eq!(parse_task_number("-1"), None);
    assert_eq!(parse_task_number("1.5"), None);
    assert_eq!(parse_task_number("2 "), None);
    assert_eq!(parse_task_number("+"), None);
    assert_eq!(parse_task_number("18446744073709551616"), None);
}

#[test]
fn check_done_args_covers_all_shapes() {
    assert!(matches!(check_done_args(&args(&["todo_cli", "done"])), DoneRequest::Missing));
    assert!(matches!(check_done_args(&args(&["todo_cli", "done", "abc"])), DoneRequest::NotANumber));
    assert!(matches!(check_done_args(&args(&["todo_cli", "done", "-1"])), DoneRequest::NotANumber));
    assert!(matches!(check_done_args(&args(&["todo_cli", "done", "0"])), DoneRequest::NotPositive));
    assert!(matches!(
        check_done_args(&args(&["todo_cli", "done", "2"])),
        DoneRequest::Number { number: 2 }
    ));
}

#[test]
fn done_completes_a_task_once() {
    let mut tasks = sample(&["one", "two", "three"]);
    let r = complete_task(&mut tasks, 2);
    match r {
        DoneOutcome::Completed { task } => assert_eq!(task, "two"),
        other => panic!("expected completion, got {:?}", other),
    }
    assert!(!tasks[0].completed);
    assert!(tasks[1].completed);
    assert!(!tasks[2].completed);
}

#[test]
fn done_twice_reports_already_completed_and_writes_nothing() {
    let mut tasks = sample(&["one", "two", "three"]);
    assert!(matches!(complete_task(&mut tasks, 2), DoneOutcome::Completed { .. }));
    let stored = save_todos(&tasks);
    let r = complete_task(&mut tasks, 2);
    assert!(matches!(r, DoneOutcome::AlreadyCompleted));
    assert_eq!(save_todos(&tasks), stored, "the stored text must be unchanged");
}

#[test]
fn done_out_of_range_changes_nothing() {
    let mut tasks = sample(&["one", "two", "three"]);
    let stored = save_todos(&tasks);
    assert!(matches!(complete_task(&mut tasks, 999), DoneOutcome::NotFound));
    assert!(matches!(complete_task(&mut tasks, 4), DoneOutcome::NotFound));
    assert_eq!(save_todos(&tasks), stored);
}

#[test]
fn boundary_done_arguments_leave_list_unmodified() {
    let mut tasks = sample(&["one", "two", "three"]);
    let stored = save_todos(&tasks);
    for bad in ["0", "-1", "abc"] {
        let r = check_done_args(&args(&["todo_cli", "done", bad]));
        assert!(
            matches!(r, DoneRequest::NotANumber | DoneRequest::NotPositive),
            "{bad} must be refused before the list is touched"
        );
    }
    assert!(matches!(complete_task(&mut tasks, 999), DoneOutcome::NotFound));
    assert_eq!(save_todos(&tasks), stored);
}

#[test]
fn list_empty_prints_no_tasks_yet() {
    let lines = list_tasks(&Vec::new());
    assert_eq!(lines, vec!["No tasks yet! Add one with the 'add' command."]);
}

#[test]
fn list_prints_framed_numbered_lines() {
    let mut tasks = sample(&["Buy milk", "Walk the dog"]);
    tasks[1].completed = true;
    let lines = list_tasks(&tasks);
    assert_eq!(
        lines,
        vec![
            "--- To-Do List ---",
            "[ ] 1. Buy milk",
            "[x] 2. Walk the dog",
            "------------------",
        ]
    );
}

#[test]
fn list_renders_two_digit_positions() {
    let texts: Vec<String> = (1..=12).map(|i| format!("task {i}")).collect();
    let refs: Vec<&str> = texts.iter().map(|s| s.as_str()).collect();
    let tasks = sample(&refs);
    let lines = list_tasks(&tasks);
    assert_eq!(lines.len(), 14);
    assert_eq!(lines[10], "[ ] 10. task 10");
    assert_eq!(lines[12], "[ ] 12. task 12");
}

#[test]
fn help_lines_match_usage_text() {
    let lines = print_help();
    assert_eq!(
        lines,
        vec![
            "\nRust To-Do List Manager",
            "Usage: todo_cli <COMMAND> [ARGUMENTS]",
            "\nCommands:",
            "  add \"<task>\"   - Adds a new task to the list.",
            "  list           - Lists all tasks.",
            "  done <number>  - Marks a task as complete.",
            "  help           - Shows this help message.",
        ]
    );
}

#[test]
fn fresh_environment_scenario() {
    // No storage file yet: list has nothing.
    let mut tasks = load_todos(None).expect("an absent file is an empty list");
    assert_eq!(list_tasks(&tasks), vec!["No tasks yet! Add one with the 'add' command."]);

    // add "Buy milk": one incomplete task is stored.
    let d = add_task_description(&args(&["todo_cli", "add", "Buy milk"])).unwrap();
    add_task(&mut tasks, d);
    let stored = save_todos(&tasks);
    let loaded = load_todos(Some(stored.as_str())).expect("must load");
    assert_eq!(loaded.len(), 1);
    assert_eq!(loaded[0].task, "Buy milk");
    assert!(!loaded[0].completed);
    assert_eq!(
        list_tasks(&loaded),
        vec!["--- To-Do List ---", "[ ] 1. Buy milk", "------------------"]
    );

    // done 1: the stored task becomes completed.
    let mut tasks = loaded;
    assert!(matches!(complete_task(&mut tasks, 1), DoneOutcome::Completed { .. }));
    let stored = save_todos(&tasks);
    let loaded = load_todos(Some(stored.as_str())).expect("must load");
    assert!(loaded[0].completed);
    assert_eq!(
        list_tasks(&loaded),
        vec!["--- To-Do List ---", "[x] 1. Buy milk", "------------------"]
    );
}

#[test]
fn index_still_names_same_task_after_add() {
    let mut tasks = sample(&["one", "two", "three"]);
    add_task(&mut tasks, "four".to_string());
    let r = complete_task(&mut tasks, 2);
    match r {
        DoneOutcome::Completed { task } => assert_eq!(task, "two"),
        other => panic!("expected completion, got {:?}", other),
    }
}
