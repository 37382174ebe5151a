//! The laws of the dispatcher, stated over the transition and output
//! functions that `execute` is proved to implement.

use vstd::prelude::*;
use crate::task::TaskView;
use crate::ops::{valid_pos, new_task_view, with_done};
use crate::command::{Command, spec_apply, spec_mutates, spec_output, invalid_msg};

verus! {

/// After `Add`, the collection is exactly one longer, the new task is
/// last with id one more than the old length and not done, and every
/// task that was there is unchanged in place.
pub proof fn lemma_add_appends(ts: Seq<TaskView>, name: String, description: Option<String>)
    ensures
        spec_apply(ts, Command::Add { name, description }).len() == ts.len() + 1,
        spec_apply(ts, Command::Add { name, description }).last() == new_task_view(
            ts.len(),
            name@,
            crate::task::opt_view(description),
        ),
        forall|q: int|
            0 <= q < ts.len() ==> spec_apply(ts, Command::Add { name, description })[q]
                == #[trigger] ts[q],
{
}

/// `Remove` on a valid position makes the collection one shorter:
/// tasks before the position keep their position, and every task after
/// it moves exactly one position down.
pub proof fn lemma_positional_remove(ts: Seq<TaskView>, pos: usize)
    requires
        valid_pos(ts.len(), pos as nat),
    ensures
        spec_apply(ts, Command::Remove { pos }).len() == ts.len() - 1,
        forall|q: int|
            1 <= q < pos ==> spec_apply(ts, Command::Remove { pos })[q - 1] == #[trigger] ts[q
                - 1],
        forall|q: int|
            pos < q <= ts.len() ==> spec_apply(ts, Command::Remove { pos })[q - 2] == #[trigger] ts[q
                - 1],
{
}

/// The completion toggles are idempotent: a second `Done` (or `Undo`)
/// at the same position changes nothing, and after `Done` the flag at
/// that position is true, after `Undo` false.
pub proof fn lemma_toggle_idempotent(ts: Seq<TaskView>, pos: usize)
    ensures
        spec_apply(spec_apply(ts, Command::Done { pos }), Command::Done { pos }) == spec_apply(
            ts,
            Command::Done { pos },
        ),
        spec_apply(spec_apply(ts, Command::Undo { pos }), Command::Undo { pos }) == spec_apply(
            ts,
            Command::Undo { pos },
        ),
        valid_pos(ts.len(), pos as nat) ==> spec_apply(ts, Command::Done { pos })[pos - 1].done
            == true,
        valid_pos(ts.len(), pos as nat) ==> spec_apply(ts, Command::Undo { pos })[pos - 1].done
            == false,
{
    if valid_pos(ts.len(), pos as nat) {
        let once = spec_apply(ts, Command::Done { pos });
        assert(spec_apply(once, Command::Done { pos }) =~= once);
        let onceu = spec_apply(ts, Command::Undo { pos });
        assert(spec_apply(onceu, Command::Undo { pos }) =~= onceu);
    }
}

/// Any positional command on a position outside `[1, len]` leaves the
/// collection unchanged, saves nothing, and prints the message naming
/// the valid bound.
pub proof fn lemma_range_rejection(ts: Seq<TaskView>, pos: usize, cmd: Command)
    requires
        !valid_pos(ts.len(), pos as nat),
        cmd == (Command::Remove { pos }) || cmd == (Command::Describe { pos }) || cmd == (
        Command::Done { pos }) || cmd == (Command::Undo { pos }),
    ensures
        spec_apply(ts, cmd) == ts,
        !spec_mutates(ts, cmd),
        spec_output(ts, cmd) == invalid_msg(ts.len()),
{
}

} // verus!
