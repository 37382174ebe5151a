//! Operations on the collection: append, positional removal, and the
//! completion toggles, all addressed by 1-based position.

use vstd::prelude::*;
use crate::task::{Task, TaskView, seq_view, opt_view};

verus! {

/// Whether `pos` is a valid 1-based position in a collection of `len`
/// tasks.
pub open spec fn valid_pos(len: nat, pos: nat) -> bool {
    1 <= pos <= len
}

/// Checks a 1-based position against the collection length.
pub fn check_pos(len: usize, pos: usize) -> (b: bool)
    ensures
        b == valid_pos(len as nat, pos as nat),
{
    1 <= pos && pos <= len
}

/// The view of a task created when the collection holds `len` tasks.
pub open spec fn new_task_view(len: nat, name: Seq<char>, description: Option<Seq<char>>) -> TaskView {
    TaskView { id: len + 1, name: name, description: description, done: false }
}

/// The same task with its completion flag set to `done`.
pub open spec fn with_done(t: TaskView, done: bool) -> TaskView {
    TaskView { done: done, ..t }
}

/// Appends a new task: its id is one more than the collection length at
/// the moment of creation, and it starts not done.
pub fn add_task(tasks: &mut Vec<Task>, name: String, description: Option<String>)
    requires
        old(tasks)@.len() < usize::MAX,
    ensures
        seq_view(final(tasks)@) == seq_view(old(tasks)@).push(
            new_task_view(old(tasks)@.len(), name@, opt_view(description)),
        ),
{
    let id = tasks.len() + 1;
    tasks.push(Task { id, name, description, done: false });
    proof {
        assert(seq_view(tasks@) =~= seq_view(old(tasks)@).push(
            new_task_view(old(tasks)@.len(), name@, opt_view(description)),
        ));
    }
}

/// Deletes the task at 1-based position `pos`; every later task moves
/// one position down.
pub fn remove_task(tasks: &mut Vec<Task>, pos: usize)
    requires
        valid_pos(old(tasks)@.len(), pos as nat),
    ensures
        seq_view(final(tasks)@) == seq_view(old(tasks)@).remove(pos - 1),
{
    tasks.remove(pos - 1);
    proof {
        assert(seq_view(tasks@) =~= seq_view(old(tasks)@).remove(pos - 1));
    }
}

/// Sets the completion flag of the task at 1-based position `pos`;
/// every other field and every other task is unchanged.
pub fn set_done(tasks: &mut Vec<Task>, pos: usize, done: bool)
    requires
        valid_pos(old(tasks)@.len(), pos as nat),
    ensures
        seq_view(final(tasks)@) == seq_view(old(tasks)@).update(
            pos - 1,
            with_done(seq_view(old(tasks)@)[pos - 1], done),
        ),
{
    let mut t = tasks.remove(pos - 1);
    t.done = done;
    tasks.insert(pos - 1, t);
    proof {
        assert(seq_view(tasks@) =~= seq_view(old(tasks)@).update(
            pos - 1,
            with_done(seq_view(old(tasks)@)[pos - 1], done),
        ));
    }
}

} // verus!
