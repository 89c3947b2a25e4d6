//! Laws on the lifecycle of a task.

use vstd::prelude::*;

use crate::error;
use crate::state::TaskState;

verus! {

/// From where a task may come to each state: only a validated task is queued, only a queued or an
/// approved one runs, only a running one succeeds or waits, and only a running or waiting one
/// fails.
pub proof fn law_every_state_has_its_predecessors(state: TaskState)
    ensures
        !state.may_become(TaskState::Submitted),
        state.may_become(TaskState::Validating) <==> state is Submitted,
        state.may_become(TaskState::Rejected) <==> state is Validating,
        state.may_become(TaskState::Queued) <==> state is Validating,
        state.may_become(TaskState::Running) <==> state is Queued || state is WaitingApproval,
        state.may_become(TaskState::WaitingApproval) <==> state is Running,
        state.may_become(TaskState::Succeeded) <==> state is Running,
        state.may_become(TaskState::Failed) <==> state is Running || state is WaitingApproval,
        state.may_become(TaskState::Cancelled) <==> state is Submitted || state is Validating
            || state is Queued || state is Running || state is WaitingApproval,
{
}

/// A task is over exactly where no state can follow.
pub proof fn law_terminal_states_are_dead_ends(state: TaskState)
    ensures
        state.terminal() <==> !exists|next: TaskState| state.may_become(next),
{
    if !state.terminal() {
        assert(state.may_become(TaskState::Cancelled));
    }
}

/// Different states have different names.
pub proof fn law_states_are_told_apart_by_name(a: TaskState, b: TaskState)
    requires
        a != b,
    ensures
        error::state_name(a) != error::state_name(b),
{
    reveal_strlit("Submitted");
    reveal_strlit("Validating");
    reveal_strlit("Rejected");
    reveal_strlit("Queued");
    reveal_strlit("Running");
    reveal_strlit("WaitingApproval");
    reveal_strlit("Succeeded");
    reveal_strlit("Failed");
    reveal_strlit("Cancelled");
    assert("Submitted"@.len() == 9 && "Succeeded"@.len() == 9 && "Cancelled"@.len() == 9);
    assert("Validating"@.len() == 10 && "Rejected"@.len() == 8 && "Queued"@.len() == 6);
    assert("Failed"@.len() == 6 && "Running"@.len() == 7 && "WaitingApproval"@.len() == 15);
    assert("Submitted"@[2] != "Succeeded"@[2]);
    assert("Submitted"@[0] != "Cancelled"@[0]);
    assert("Succeeded"@[0] != "Cancelled"@[0]);
    assert("Queued"@[0] != "Failed"@[0]);
}

} // verus!
