//! The task model: a text description plus a completion flag.

use vstd::prelude::*;

verus! {

/// One entry of the to-do list. A task has no identifier: its identity for
/// the user is its 1-based position in the stored order.
#[derive(Debug)]
pub struct Task {
    pub task: String,
    pub completed: bool,
}

/// The mathematical value of a [`Task`]: the description as a sequence of
/// characters, and the flag.
pub ghost struct TaskView {
    pub task: Seq<char>,
    pub completed: bool,
}

impl View for Task {
    type V = TaskView;

    open spec fn view(&self) -> TaskView {
        TaskView { task: self.task@, completed: self.completed }
    }
}

/// The views of a sequence of tasks, element by element.
pub open spec fn views_of(ts: Seq<Task>) -> Seq<TaskView> {
    ts.map_values(|t: Task| t@)
}

} // verus!
