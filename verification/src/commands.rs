//! The command handlers: choosing a command, adding a task, completing a
//! task, and rendering the listing and the usage text.

use vstd::prelude::*;
use crate::chars::str_eq;
use crate::numbers::{dec_chars, num_to_string};
use crate::task::{Task, TaskView, views_of};

verus! {

// ---------------------------------------------------------------------------
// Dispatch.
// ---------------------------------------------------------------------------

/// The commands the tool understands. Anything else is `Unknown`; a missing
/// command word means `Help`.
#[derive(Debug)]
pub enum Command {
    Add,
    List,
    Done,
    Help,
    Unknown,
}

/// Which command an argument list selects: the word after the program name,
/// matched exactly and case-sensitively.
pub open spec fn command_of(args: Seq<String>) -> Command {
    if args.len() < 2 {
        Command::Help
    } else if args[1]@ == "add"@ {
        Command::Add
    } else if args[1]@ == "list"@ {
        Command::List
    } else if args[1]@ == "done"@ {
        Command::Done
    } else if args[1]@ == "help"@ {
        Command::Help
    } else {
        Command::Unknown
    }
}

/// Select the command for an argument list.
pub fn dispatch(args: &Vec<String>) -> (c: Command)
    ensures
        c == command_of(args@),
{
    if args.len() < 2 {
        return Command::Help;
    }
    let w = args[1].as_str();
    if str_eq(w, "add") {
        Command::Add
    } else if str_eq(w, "list") {
        Command::List
    } else if str_eq(w, "done") {
        Command::Done
    } else if str_eq(w, "help") {
        Command::Help
    } else {
        Command::Unknown
    }
}

// ---------------------------------------------------------------------------
// add: the description is the remaining arguments joined with single spaces.
// ---------------------------------------------------------------------------

/// Sequences joined with a single space between each pair.
pub open spec fn join_with_spaces(parts: Seq<Seq<char>>) -> Seq<char>
    decreases parts.len(),
{
    if parts.len() == 0 {
        Seq::empty()
    } else if parts.len() == 1 {
        parts[0]
    } else {
        parts[0] + seq![' '] + join_with_spaces(parts.skip(1))
    }
}

/// The views of the arguments.
pub open spec fn arg_views(args: Seq<String>) -> Seq<Seq<char>> {
    args.map_values(|s: String| s@)
}

/// The task description an `add` invocation names: every argument after the
/// command word, joined with single spaces.
pub open spec fn add_description(args: Seq<String>) -> Seq<char> {
    join_with_spaces(arg_views(args).skip(2))
}

/// Joining one more part appends a space and the part.
proof fn lemma_join_push(parts: Seq<Seq<char>>, x: Seq<char>)
    requires
        parts.len() >= 1,
    ensures
        join_with_spaces(parts.push(x)) == join_with_spaces(parts) + seq![' '] + x,
    decreases parts.len(),
{
    if parts.len() == 1 {
        assert(parts.push(x)[0] == parts[0]);
        assert(parts.push(x).skip(1) =~= seq![x]);
        assert(join_with_spaces(seq![x]) == x);
        assert(join_with_spaces(parts.push(x)) =~= join_with_spaces(parts) + seq![' '] + x);
    } else {
        lemma_join_push(parts.skip(1), x);
        assert(parts.push(x).skip(1) =~= parts.skip(1).push(x));
        assert(parts.push(x)[0] == parts[0]);
        assert(join_with_spaces(parts.push(x)) =~= join_with_spaces(parts) + seq![' '] + x);
    }
}

/// The description named by an `add` invocation, or nothing when no text was
/// given.
pub fn add_task_description(args: &Vec<String>) -> (r: Option<String>)
    ensures
        args@.len() < 3 ==> r is None,
        args@.len() >= 3 ==> (r matches Some(d) && d@ == add_description(args@)),
{
    if args.len() < 3 {
        return None;
    }
    let ghost parts = arg_views(args@).skip(2);
    let mut d = String::new();
    d.append(args[2].as_str());
    proof {
        assert(parts.take(1) =~= seq![parts[0]]);
        assert(d@ =~= join_with_spaces(parts.take(1)));
    }
    let mut k: usize = 3;
    while k < args.len()
        invariant
            3 <= k <= args@.len(),
            parts == arg_views(args@).skip(2),
            parts.len() == args@.len() - 2,
            forall|m: int| 0 <= m < parts.len() ==> parts[m] == args@[m + 2]@,
            d@ == join_with_spaces(parts.take(k - 2)),
        decreases args@.len() - k,
    {
        d.append(" ");
        d.append(args[k].as_str());
        proof {
            reveal_strlit(" ");
            assert(" "@ =~= seq![' ']);
            lemma_join_push(parts.take(k - 2), parts[k - 2]);
            assert(parts.take(k - 1) =~= parts.take(k - 2).push(parts[k - 2]));
            assert(parts[k - 2] == args@[k as int]@);
            assert(d@ =~= join_with_spaces(parts.take(k - 1)));
        }
        k += 1;
    }
    proof {
        assert(parts.take(parts.len() as int) =~= parts);
    }
    Some(d)
}

/// The list after adding a description: the new task is appended, incomplete.
pub open spec fn add_result(ts: Seq<TaskView>, description: Seq<char>) -> Seq<TaskView> {
    ts.push(TaskView { task: description, completed: false })
}

/// Append a new, incomplete task with the given description. The list grows
/// by exactly one; every earlier task keeps its place and its value.
pub fn add_task(todos: &mut Vec<Task>, description: String)
    ensures
        views_of(final(todos)@) == add_result(views_of(old(todos)@), description@),
        final(todos)@.len() == old(todos)@.len() + 1,
{
    todos.push(Task { task: description, completed: false });
    proof {
        assert(views_of(todos@) =~= add_result(views_of(old(todos)@), todos@.last()@.task));
    }
}

// ---------------------------------------------------------------------------
// done: complete the task at a 1-based position.
// ---------------------------------------------------------------------------

/// Whether `done number` changes anything: the position names a task and that
/// task is not yet completed.
pub open spec fn complete_applies(ts: Seq<TaskView>, number: usize) -> bool {
    1 <= number <= ts.len() && !ts[number - 1].completed
}

/// The list after `done number`: the named task becomes completed when the
/// command applies, and nothing changes otherwise.
pub open spec fn complete_result(ts: Seq<TaskView>, number: usize) -> Seq<TaskView> {
    if complete_applies(ts, number) {
        ts.update(number - 1, TaskView { task: ts[number - 1].task, completed: true })
    } else {
        ts
    }
}

/// What a `done` invocation's arguments amount to.
#[derive(Debug)]
pub enum DoneRequest {
    /// No task number was given.
    Missing,
    /// The token does not parse as an unsigned number.
    NotANumber,
    /// The number is zero; positions are 1-based.
    NotPositive,
    /// A usable 1-based position.
    Number { number: usize },
}

/// Check the arguments of a `done` invocation: the single token after the
/// command word must parse as a positive number.
pub fn check_done_args(args: &Vec<String>) -> (r: DoneRequest)
    ensures
        args@.len() < 3 ==> (r matches DoneRequest::Missing),
        args@.len() >= 3 ==> match crate::numbers::parse_num(args@[2]@) {
            None => r matches DoneRequest::NotANumber,
            Some(n) => if n == 0 {
                r matches DoneRequest::NotPositive
            } else {
                r matches DoneRequest::Number { number } && number == n
            },
        },
{
    if args.len() < 3 {
        return DoneRequest::Missing;
    }
    match crate::numbers::parse_task_number(args[2].as_str()) {
        None => DoneRequest::NotANumber,
        Some(n) => {
            if n == 0 {
                DoneRequest::NotPositive
            } else {
                DoneRequest::Number { number: n }
            }
        },
    }
}

/// What `done` reports.
#[derive(Debug)]
pub enum DoneOutcome {
    /// The task was completed now; its description is carried for the report.
    Completed { task: String },
    /// The task was already completed; nothing was changed or written.
    AlreadyCompleted,
    /// No task has this number.
    NotFound,
}

/// Complete the task at the given 1-based position, if it exists and is not
/// already completed. The list is unchanged unless the outcome is
/// `Completed`, and only the named task's flag ever changes.
pub fn complete_task(todos: &mut Vec<Task>, number: usize) -> (r: DoneOutcome)
    requires
        number >= 1,
    ensures
        views_of(final(todos)@) == complete_result(views_of(old(todos)@), number),
        number > old(todos)@.len() ==> (r matches DoneOutcome::NotFound) && final(todos)@ == old(
            todos,
        )@,
        number <= old(todos)@.len() && old(todos)@[number - 1]@.completed ==> (
        r matches DoneOutcome::AlreadyCompleted) && final(todos)@ == old(todos)@,
        complete_applies(views_of(old(todos)@), number) ==> (r matches DoneOutcome::Completed {
            task,
        } && task@ == old(todos)@[number - 1]@.task),
{
    let ghost tvs = views_of(old(todos)@);
    if number > todos.len() {
        return DoneOutcome::NotFound;
    }
    let idx = number - 1;
    if todos[idx].completed {
        proof {
            assert(views_of(todos@) == complete_result(tvs, number));
        }
        return DoneOutcome::AlreadyCompleted;
    }
    let text = todos[idx].task.clone();
    todos[idx] = Task { task: text.clone(), completed: true };
    proof {
        assert(views_of(todos@) =~= complete_result(tvs, number));
    }
    DoneOutcome::Completed { task: text }
}

// ---------------------------------------------------------------------------
// The laws relating the handlers.
// ---------------------------------------------------------------------------

/// Completing a task is idempotent: a second `done` with the same number
/// changes nothing more, and it no longer applies, so no write happens.
pub proof fn lemma_complete_idempotent(ts: Seq<TaskView>, number: usize)
    requires
        number >= 1,
    ensures
        complete_result(complete_result(ts, number), number) == complete_result(ts, number),
        !complete_applies(complete_result(ts, number), number),
{
    let once = complete_result(ts, number);
    if complete_applies(ts, number) {
        assert(once[number - 1].completed);
        assert(complete_result(once, number) =~= once);
    }
}

/// Positions are stable under `add`: a task's 1-based position still names
/// the same task after a new one is appended, and completing it gives the
/// same list as completing first and appending after.
pub proof fn lemma_index_stable_after_add(ts: Seq<TaskView>, description: Seq<char>, number: usize)
    requires
        1 <= number <= ts.len(),
    ensures
        add_result(ts, description)[number - 1] == ts[number - 1],
        complete_result(add_result(ts, description), number) == add_result(
            complete_result(ts, number),
            description,
        ),
{
    assert(complete_result(add_result(ts, description), number) =~= add_result(
        complete_result(ts, number),
        description,
    ));
}

// ---------------------------------------------------------------------------
// list and help: the lines the tool prints.
// ---------------------------------------------------------------------------

/// The completion marker of a listing line.
pub open spec fn status_chars(completed: bool) -> Seq<char> {
    if completed {
        "[x]"@
    } else {
        "[ ]"@
    }
}

/// One listing line: marker, 1-based position, dot, description.
pub open spec fn render_line(pos: nat, t: TaskView) -> Seq<char> {
    status_chars(t.completed) + " "@ + dec_chars(pos) + ". "@ + t.task
}

/// Render one listing line.
fn render_task_line(pos: usize, t: &Task) -> (line: String)
    ensures
        line@ == render_line(pos as nat, t@),
{
    let mut line = String::new();
    if t.completed {
        line.append("[x]");
    } else {
        line.append("[ ]");
    }
    line.append(" ");
    let num = num_to_string(pos);
    line.append(num.as_str());
    line.append(". ");
    line.append(t.task.as_str());
    proof {
        assert(line@ =~= render_line(pos as nat, t@));
    }
    line
}

/// The lines `list` prints: a framed listing line per task, or a single
/// message when there are no tasks yet.
pub fn list_tasks(todos: &Vec<Task>) -> (lines: Vec<String>)
    ensures
        todos@.len() == 0 ==> lines@.len() == 1 && lines@[0]@
            == "No tasks yet! Add one with the 'add' command."@,
        todos@.len() > 0 ==> {
            &&& lines@.len() == todos@.len() + 2
            &&& lines@[0]@ == "--- To-Do List ---"@
            &&& lines@[lines@.len() - 1]@ == "------------------"@
            &&& forall|k: int|
                0 <= k < todos@.len() ==> #[trigger] lines@[k + 1]@ == render_line(
                    (k + 1) as nat,
                    todos@[k]@,
                )
        },
{
    let mut lines: Vec<String> = Vec::new();
    if todos.len() == 0 {
        lines.push(String::from_str("No tasks yet! Add one with the 'add' command."));
        return lines;
    }
    lines.push(String::from_str("--- To-Do List ---"));
    let mut i: usize = 0;
    while i < todos.len()
        invariant
            i <= todos@.len(),
            lines@.len() == i + 1,
            lines@[0]@ == "--- To-Do List ---"@,
            forall|k: int|
                0 <= k < i ==> #[trigger] lines@[k + 1]@ == render_line(
                    (k + 1) as nat,
                    todos@[k]@,
                ),
        decreases todos@.len() - i,
    {
        let line = render_task_line(i + 1, &todos[i]);
        lines.push(line);
        i += 1;
    }
    lines.push(String::from_str("------------------"));
    lines
}

/// The usage text, line by line, as `help` and every fallback print it.
pub fn print_help() -> (lines: Vec<String>)
    ensures
        lines@.len() == 7,
        lines@[0]@ == "\nRust To-Do List Manager"@,
        lines@[1]@ == "Usage: todo_cli <COMMAND> [ARGUMENTS]"@,
        lines@[2]@ == "\nCommands:"@,
        lines@[3]@ == "  add \"<task>\"   - Adds a new task to the list."@,
        lines@[4]@ == "  list           - Lists all tasks."@,
        lines@[5]@ == "  done <number>  - Marks a task as complete."@,
        lines@[6]@ == "  help           - Shows this help message."@,
{
    let mut lines: Vec<String> = Vec::new();
    lines.push(String::from_str("\nRust To-Do List Manager"));
    lines.push(String::from_str("Usage: todo_cli <COMMAND> [ARGUMENTS]"));
    lines.push(String::from_str("\nCommands:"));
    lines.push(String::from_str("  add \"<task>\"   - Adds a new task to the list."));
    lines.push(String::from_str("  list           - Lists all tasks."));
    lines.push(String::from_str("  done <number>  - Marks a task as complete."));
    lines.push(String::from_str("  help           - Shows this help message."));
    lines
}

} // verus!
