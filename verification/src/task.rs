//! The task record and the mathematical view of a collection of tasks.

use vstd::prelude::*;

verus! {

/// A single to-do entry. `id` is assigned at creation as one more than
/// the collection length at that moment and is never reassigned; all
/// commands address tasks by 1-based position instead.
#[derive(Debug, Clone, PartialEq)]
pub struct Task {
    pub id: usize,
    pub name: String,
    pub description: Option<String>,
    pub done: bool,
}

/// The mathematical value of a task: plain sequences and an unbounded id.
pub ghost struct TaskView {
    pub id: nat,
    pub name: Seq<char>,
    pub description: Option<Seq<char>>,
    pub done: bool,
}

/// The view of an optional owned string.
pub open spec fn opt_view(o: Option<String>) -> Option<Seq<char>> {
    match o {
        Option::Some(s) => Option::Some(s@),
        Option::None => Option::None,
    }
}

impl View for Task {
    type V = TaskView;

    open spec fn view(&self) -> TaskView {
        TaskView {
            id: self.id as nat,
            name: self.name@,
            description: opt_view(self.description),
            done: self.done,
        }
    }
}

/// The value of a whole collection: the tasks' views, in order.
pub open spec fn seq_view(ts: Seq<Task>) -> Seq<TaskView> {
    ts.map_values(|t: Task| t@)
}

} // verus!
