//! The command dispatcher: one closed variant per user command, a
//! transition function on the collection, and the exact text each
//! command prints.

use vstd::prelude::*;
use crate::task::{Task, TaskView, seq_view, opt_view};
use crate::ops::{valid_pos, new_task_view, with_done, check_pos, add_task, remove_task, set_done};
use crate::num::{dec, format_usize};
use crate::codec::{spec_encode, encode_tasks};

verus! {

/// One user command, with its arguments.
pub enum Command {
    Add { name: String, description: Option<String> },
    List,
    Remove { pos: usize },
    Describe { pos: usize },
    Done { pos: usize },
    Undo { pos: usize },
    Json,
}

/// What a command run returns: the text to print, and whether the
/// collection changed and so must be saved.
pub struct Outcome {
    pub output: String,
    pub mutated: bool,
}

/// The collection after a command: `Add` appends, the three positional
/// mutators act only on a valid position, everything else reads.
pub open spec fn spec_apply(ts: Seq<TaskView>, cmd: Command) -> Seq<TaskView> {
    match cmd {
        Command::Add { name, description } => ts.push(
            new_task_view(ts.len(), name@, opt_view(description)),
        ),
        Command::Remove { pos } => if valid_pos(ts.len(), pos as nat) {
            ts.remove(pos - 1)
        } else {
            ts
        },
        Command::Done { pos } => if valid_pos(ts.len(), pos as nat) {
            ts.update(pos - 1, with_done(ts[pos - 1], true))
        } else {
            ts
        },
        Command::Undo { pos } => if valid_pos(ts.len(), pos as nat) {
            ts.update(pos - 1, with_done(ts[pos - 1], false))
        } else {
            ts
        },
        _ => ts,
    }
}

/// Whether a command changes the collection and so triggers a save.
pub open spec fn spec_mutates(ts: Seq<TaskView>, cmd: Command) -> bool {
    match cmd {
        Command::Add { .. } => true,
        Command::Remove { pos } => valid_pos(ts.len(), pos as nat),
        Command::Done { pos } => valid_pos(ts.len(), pos as nat),
        Command::Undo { pos } => valid_pos(ts.len(), pos as nat),
        _ => false,
    }
}

/// The done icon of a task line.
pub open spec fn icon(done: bool) -> Seq<char> {
    if done {
        "\u{2705}"@
    } else {
        "\u{1f533}"@
    }
}

/// One line of the listing: position, icon, name.
pub open spec fn list_line(t: TaskView, pos: nat) -> Seq<char> {
    dec(pos) + ": "@ + icon(t.done) + " "@ + t.name + "\n"@
}

/// The first `k` lines of the listing.
pub open spec fn list_lines(ts: Seq<TaskView>, k: int) -> Seq<char>
    decreases k,
{
    if k <= 0 {
        Seq::empty()
    } else {
        list_lines(ts, k - 1) + list_line(ts[k - 1], k as nat)
    }
}

/// The message for a position outside `[1, len]`.
pub open spec fn invalid_msg(len: nat) -> Seq<char> {
    "Invalid task number. Please enter a number between 1 and "@ + dec(len) + ".\n"@
}

/// The detail text of one task.
pub open spec fn describe_text(t: TaskView) -> Seq<char> {
    "Task "@ + dec(t.id) + ": "@ + t.name + "\nDescription: "@ + (match t.description {
        Option::Some(d) => d,
        Option::None => "(none)"@,
    }) + "\nDone: "@ + icon(t.done) + "\n"@
}

/// The exact text a command prints, as a function of the collection it
/// runs against.
pub open spec fn spec_output(ts: Seq<TaskView>, cmd: Command) -> Seq<char> {
    match cmd {
        Command::Add { name, .. } => "Task added: "@ + name@ + "\n"@,
        Command::List => if ts.len() == 0 {
            "No tasks available.\n"@
        } else {
            list_lines(ts, ts.len() as int)
        },
        Command::Remove { pos } => if valid_pos(ts.len(), pos as nat) {
            "Task "@ + dec(pos as nat) + " removed.\n"@
        } else {
            invalid_msg(ts.len())
        },
        Command::Describe { pos } => if valid_pos(ts.len(), pos as nat) {
            describe_text(ts[pos - 1])
        } else {
            invalid_msg(ts.len())
        },
        Command::Done { pos } => if valid_pos(ts.len(), pos as nat) {
            "Task "@ + dec(pos as nat) + " marked as done.\n"@
        } else {
            invalid_msg(ts.len())
        },
        Command::Undo { pos } => if valid_pos(ts.len(), pos as nat) {
            "Task "@ + dec(pos as nat) + " marked as undone.\n"@
        } else {
            invalid_msg(ts.len())
        },
        Command::Json => spec_encode(ts) + "\n"@,
    }
}

/// Appends the out-of-range message naming the valid bound.
fn invalid_into(out: &mut String, len: usize)
    ensures
        final(out)@ == old(out)@ + invalid_msg(len as nat),
{
    out.append("Invalid task number. Please enter a number between 1 and ");
    let s = format_usize(len);
    out.append(s.as_str());
    out.append(".\n");
    proof {
        assert(out@ =~= old(out)@ + invalid_msg(len as nat));
    }
}

/// Runs one command against the collection: the collection becomes
/// `spec_apply`, the text is `spec_output`, and the save flag is
/// `spec_mutates`, all of the collection as it was before the call.
pub fn execute(tasks: &mut Vec<Task>, cmd: Command) -> (out: Outcome)
    requires
        cmd is Add ==> old(tasks)@.len() < usize::MAX,
    ensures
        seq_view(final(tasks)@) == spec_apply(seq_view(old(tasks)@), cmd),
        out.output@ == spec_output(seq_view(old(tasks)@), cmd),
        out.mutated == spec_mutates(seq_view(old(tasks)@), cmd),
{
    match cmd {
        Command::Add { name, description } => {
            let mut output = String::new();
            output.append("Task added: ");
            output.append(name.as_str());
            output.append("\n");
            add_task(tasks, name, description);
            proof {
                assert(output@ =~= "Task added: "@ + name@ + "\n"@);
            }
            Outcome { output, mutated: true }
        },
        Command::List => {
            let n = tasks.len();
            let mut output = String::new();
            if n == 0 {
                output.append("No tasks available.\n");
            } else {
                let mut k: usize = 0;
                while k < n
                    invariant
                        tasks@ == old(tasks)@,
                        n == tasks@.len(),
                        k <= n,
                        output@ == list_lines(seq_view(tasks@), k as int),
                    decreases n - k,
                {
                    let s = format_usize(k + 1);
                    output.append(s.as_str());
                    output.append(": ");
                    if tasks[k].done {
                        output.append("\u{2705}");
                    } else {
                        output.append("\u{1f533}");
                    }
                    output.append(" ");
                    output.append(tasks[k].name.as_str());
                    output.append("\n");
                    proof {
                        assert(seq_view(tasks@)[k as int] == tasks@[k as int]@);
                        assert(output@ =~= list_lines(seq_view(tasks@), k as int + 1));
                    }
                    k = k + 1;
                }
            }
            Outcome { output, mutated: false }
        },
        Command::Remove { pos } => {
            let n = tasks.len();
            let mut output = String::new();
            if check_pos(n, pos) {
                remove_task(tasks, pos);
                output.append("Task ");
                let s = format_usize(pos);
                output.append(s.as_str());
                output.append(" removed.\n");
                proof {
                    assert(output@ =~= "Task "@ + dec(pos as nat) + " removed.\n"@);
                }
                Outcome { output, mutated: true }
            } else {
                invalid_into(&mut output, n);
                Outcome { output, mutated: false }
            }
        },
        Command::Describe { pos } => {
            let n = tasks.len();
            let mut output = String::new();
            if check_pos(n, pos) {
                let t = &tasks[pos - 1];
                output.append("Task ");
                let s = format_usize(t.id);
                output.append(s.as_str());
                output.append(": ");
                output.append(t.name.as_str());
                output.append("\nDescription: ");
                match &t.description {
                    Option::Some(d) => {
                        output.append(d.as_str());
                    },
                    Option::None => {
                        output.append("(none)");
                    },
                }
                output.append("\nDone: ");
                if t.done {
                    output.append("\u{2705}");
                } else {
                    output.append("\u{1f533}");
                }
                output.append("\n");
                proof {
                    assert(seq_view(tasks@)[pos - 1] == tasks@[pos - 1]@);
                    assert(output@ =~= describe_text(seq_view(tasks@)[pos - 1]));
                }
                Outcome { output, mutated: false }
            } else {
                invalid_into(&mut output, n);
                Outcome { output, mutated: false }
            }
        },
        Command::Done { pos } => {
            let n = tasks.len();
            let mut output = String::new();
            if check_pos(n, pos) {
                set_done(tasks, pos, true);
                output.append("Task ");
                let s = format_usize(pos);
                output.append(s.as_str());
                output.append(" marked as done.\n");
                proof {
                    assert(output@ =~= "Task "@ + dec(pos as nat) + " marked as done.\n"@);
                }
                Outcome { output, mutated: true }
            } else {
                invalid_into(&mut output, n);
                Outcome { output, mutated: false }
            }
        },
        Command::Undo { pos } => {
            let n = tasks.len();
            let mut output = String::new();
            if check_pos(n, pos) {
                set_done(tasks, pos, false);
                output.append("Task ");
                let s = format_usize(pos);
                output.append(s.as_str());
                output.append(" marked as undone.\n");
                proof {
                    assert(output@ =~= "Task "@ + dec(pos as nat) + " marked as undone.\n"@);
                }
                Outcome { output, mutated: true }
            } else {
                invalid_into(&mut output, n);
                Outcome { output, mutated: false }
            }
        },
        Command::Json => {
            let mut output = encode_tasks(tasks);
            output.append("\n");
            Outcome { output, mutated: false }
        },
    }
}

} // verus!
