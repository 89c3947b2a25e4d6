//! Laws on replay.

use vstd::prelude::*;

use crate::event::{TaskEvent, TaskEventKind};
use crate::recovery;
use crate::state::TaskState;

verus! {

proof fn lemma_one_more(events: Seq<TaskEvent>, event: TaskEvent)
    requires
        recovery::recovered(events) is Some,
        event.sequence == events.len() + 1,
    ensures
        ({
            let at = (crate::recovery::Replay {
                state: recovery::recovered(events),
                pending_failure: false,
            });
            &&& recovery::numbered(events.push(event))
            &&& recovery::replay_from(
                recovery::replay_start(),
                recovery::kinds_of(events.push(event)),
            ) == recovery::replay_step(at, event.kind)
        }),
{
    let kinds = recovery::kinds_of(events);
    assert(recovery::kinds_of(events.push(event)) =~= kinds + seq![event.kind]);
    recovery::lemma_replay_concat(recovery::replay_start(), kinds, seq![event.kind]);
    let at = (crate::recovery::Replay {
        state: recovery::recovered(events),
        pending_failure: false,
    });
    assert(recovery::replay_from(recovery::replay_start(), kinds) == Some(at));
    assert(seq![event.kind].drop_first() =~= Seq::<TaskEventKind>::empty());
    reveal_with_fuel(recovery::replay_from, 2);
}

/// What one more event, with the next number, says of a task: a transition must start where the
/// task is and follow an edge of the lifecycle, decisions on operations belong to a running task,
/// decisions on approvals to a waiting one, and a failure alone is half a record.
pub proof fn law_events_belong_to_their_states(events: Seq<TaskEvent>, event: TaskEvent)
    requires
        recovery::recovered(events) is Some,
        event.sequence == events.len() + 1,
    ensures
        ({
            let state = recovery::recovered(events)->0;
            let next = recovery::recovered(events.push(event));
            match event.kind {
                TaskEventKind::Submitted => next is None,
                TaskEventKind::StateTransitioned { from, to } => next == (if from == state
                    && from.may_become(to) {
                    Some(to)
                } else {
                    None
                }),
                TaskEventKind::ValidationFailed { .. } => next == (if state is Validating {
                    Some(state)
                } else {
                    None
                }),
                TaskEventKind::TaskFailed { .. } => next is None,
                TaskEventKind::OperationAllowed => next == (if state is Running {
                    Some(state)
                } else {
                    None
                }),
                TaskEventKind::OperationDenied { .. } => next == (if state is Running {
                    Some(state)
                } else {
                    None
                }),
                TaskEventKind::ApprovalRequested { .. } => next == (if state is Running {
                    Some(state)
                } else {
                    None
                }),
                TaskEventKind::ApprovalConsumed { .. } => next == (if state is Running {
                    Some(state)
                } else {
                    None
                }),
                TaskEventKind::ApprovalGranted { .. } => next == (if state is WaitingApproval {
                    Some(state)
                } else {
                    None
                }),
                TaskEventKind::ApprovalDenied { .. } => next == (if state is WaitingApproval {
                    Some(state)
                } else {
                    None
                }),
                TaskEventKind::ApprovalExpired { .. } => next == (if state is WaitingApproval {
                    Some(state)
                } else {
                    None
                }),
                TaskEventKind::ApprovalRevoked { .. } => next == (if state is Running
                    || state is WaitingApproval {
                    Some(state)
                } else {
                    None
                }),
            }
        }),
{
    lemma_one_more(events, event);
}

/// A failure that is followed by the transition to the failed state is a whole record, wherever
/// the task was not over; followed by any other event it is none.
pub proof fn law_failures_come_with_their_transition(
    events: Seq<TaskEvent>,
    failure: TaskEvent,
    transition: TaskEvent,
)
    requires
        recovery::recovered(events) is Some,
        failure.sequence == events.len() + 1,
        transition.sequence == events.len() + 2,
        failure.kind is TaskFailed,
    ensures
        ({
            let state = recovery::recovered(events)->0;
            let next = recovery::recovered(events.push(failure).push(transition));
            next == (if !state.terminal() && transition.kind == (TaskEventKind::StateTransitioned {
                from: state,
                to: TaskState::Failed,
            }) {
                Some(TaskState::Failed)
            } else {
                None
            })
        }),
{
    lemma_one_more(events, failure);
    let first = events.push(failure);
    let kinds = recovery::kinds_of(first);
    let both = first.push(transition);
    assert(recovery::kinds_of(both) =~= kinds + seq![transition.kind]);
    recovery::lemma_replay_concat(recovery::replay_start(), kinds, seq![transition.kind]);
    assert(seq![transition.kind].drop_first() =~= Seq::<TaskEventKind>::empty());
    reveal_with_fuel(recovery::replay_from, 2);
}

/// A task that was submitted, and nothing more, is submitted; a list that does not begin so tells
/// nothing.
pub proof fn law_records_begin_with_the_submission(event: TaskEvent)
    ensures
        recovery::recovered(seq![event]) == (if event.sequence == 1 && event.kind is Submitted {
            Some(TaskState::Submitted)
        } else {
            None
        }),
        recovery::recovered(Seq::<TaskEvent>::empty()) is None,
{
    assert(recovery::kinds_of(seq![event]) =~= seq![event.kind]);
    assert(seq![event.kind].drop_first() =~= Seq::<TaskEventKind>::empty());
    reveal_with_fuel(recovery::replay_from, 2);
    assert(recovery::kinds_of(Seq::<TaskEvent>::empty()) =~= Seq::<TaskEventKind>::empty());
    if event.sequence != 1 {
        assert(seq![event][0].sequence != 1);
    }
}

} // verus!
