//! The lifecycle of a task.

use vstd::prelude::*;

use crate::error::StateTransitionError;

verus! {

/// Runtime lifecycle of a task.
#[derive(Clone, Copy, Debug, PartialEq, Eq, Structural)]
pub enum TaskState {
    Submitted,
    Validating,
    Rejected,
    Queued,
    Running,
    WaitingApproval,
    Succeeded,
    Failed,
    Cancelled,
}

/// The state after a cancellation.
pub open spec fn cancelled(state: TaskState) -> TaskState {
    if state.terminal() {
        state
    } else {
        TaskState::Cancelled
    }
}

impl TaskState {
    /// The states in which no more work may be performed.
    pub open spec fn terminal(self) -> bool {
        self is Rejected || self is Succeeded || self is Failed || self is Cancelled
    }

    /// The edges of the lifecycle graph.
    pub open spec fn may_become(self, next: TaskState) -> bool {
        match (self, next) {
            (TaskState::Submitted, TaskState::Validating) => true,
            (TaskState::Validating, TaskState::Rejected) => true,
            (TaskState::Validating, TaskState::Queued) => true,
            (TaskState::Queued, TaskState::Running) => true,
            (TaskState::Running, TaskState::WaitingApproval) => true,
            (TaskState::Running, TaskState::Succeeded) => true,
            (TaskState::Running, TaskState::Failed) => true,
            (TaskState::WaitingApproval, TaskState::Running) => true,
            (TaskState::WaitingApproval, TaskState::Failed) => true,
            (_, TaskState::Cancelled) => !self.terminal(),
            _ => false,
        }
    }

    /// Returns whether no more work may be performed for the task instance.
    #[must_use]
    pub fn is_terminal(self) -> (r: bool)
        ensures
            r == self.terminal(),
    {
        matches!(
            self,
            TaskState::Rejected | TaskState::Succeeded | TaskState::Failed | TaskState::Cancelled
        )
    }

    /// Returns whether the requested lifecycle transition is allowed.
    #[must_use]
    pub fn can_transition_to(self, next: TaskState) -> (r: bool)
        ensures
            r == self.may_become(next),
    {
        match (self, next) {
            (TaskState::Submitted, TaskState::Validating) => true,
            (TaskState::Validating, TaskState::Rejected) => true,
            (TaskState::Validating, TaskState::Queued) => true,
            (TaskState::Queued, TaskState::Running) => true,
            (TaskState::Running, TaskState::WaitingApproval) => true,
            (TaskState::Running, TaskState::Succeeded) => true,
            (TaskState::Running, TaskState::Failed) => true,
            (TaskState::WaitingApproval, TaskState::Running) => true,
            (TaskState::WaitingApproval, TaskState::Failed) => true,
            (_, TaskState::Cancelled) => !self.is_terminal(),
            _ => false,
        }
    }

    /// Applies a lifecycle transition, rejecting invalid and repeated transitions.
    pub fn transition_to(&mut self, next: TaskState) -> (r: Result<(), StateTransitionError>)
        ensures
            old(self).may_become(next) ==> r is Ok && *final(self) == next,
            !old(self).may_become(next) ==> r is Err && (r->Err_0)@ == (*old(self), next)
                && *final(self) == *old(self),
    {
        if !self.can_transition_to(next) {
            return Err(StateTransitionError::new(*self, next));
        }
        *self = next;
        Ok(())
    }

    /// Cancels a non-terminal task. Repeated cancellation is a no-op.
    ///
    /// Returns `true` only when the state changed.
    pub fn cancel(&mut self) -> (r: bool)
        ensures
            r == !old(self).terminal(),
            *final(self) == cancelled(*old(self)),
    {
        if self.is_terminal() {
            return false;
        }
        *self = TaskState::Cancelled;
        true
    }
}

/// Nothing follows a terminal state.
pub proof fn law_terminal_states_are_final(state: TaskState, next: TaskState)
    requires
        state.terminal(),
    ensures
        !state.may_become(next),
{
}

/// Every state that is not terminal can be cancelled, and cancelling ends the task.
pub proof fn law_live_tasks_can_be_cancelled(state: TaskState)
    requires
        !state.terminal(),
    ensures
        state.may_become(TaskState::Cancelled),
        TaskState::Cancelled.terminal(),
{
}

/// No transition stays in its state.
pub proof fn law_no_transition_repeats(state: TaskState)
    ensures
        !state.may_become(state),
{
}

/// A task runs only after it was queued, and is queued only after validation.
pub proof fn law_running_follows_validation(state: TaskState)
    ensures
        state.may_become(TaskState::Running) ==> state is Queued || state is WaitingApproval,
        state.may_become(TaskState::WaitingApproval) ==> state is Running,
        state.may_become(TaskState::Queued) ==> state is Validating,
        state.may_become(TaskState::Validating) ==> state is Submitted,
        !state.may_become(TaskState::Submitted),
{
}

} // verus!
