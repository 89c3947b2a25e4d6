//! The task lifecycle.

use aios::state::TaskState;

#[test]
fn accepts_complete_success_path() {
    let mut state = TaskState::Submitted;

    for next in [
        TaskState::Validating,
        TaskState::Queued,
        TaskState::Running,
        TaskState::WaitingApproval,
        TaskState::Running,
        TaskState::Succeeded,
    ] {
        assert_eq!(state.transition_to(next), Ok(()));
    }

    assert!(state.is_terminal());
}

#[test]
fn rejects_skipping_validation() {
    let mut state = TaskState::Submitted;

    let error = state
        .transition_to(TaskState::Running)
        .expect_err("submitted tasks must be validated before execution");

    assert_eq!(error.from(), TaskState::Submitted);
    assert_eq!(error.to(), TaskState::Running);
    assert_eq!(state, TaskState::Submitted);
}

#[test]
fn terminal_states_cannot_transition() {
    for terminal in [
        TaskState::Rejected,
        TaskState::Succeeded,
        TaskState::Failed,
        TaskState::Cancelled,
    ] {
        let mut state = terminal;
        assert!(state.transition_to(TaskState::Running).is_err());
        assert_eq!(state, terminal);
    }
}

#[test]
fn cancellation_is_idempotent() {
    let mut state = TaskState::Running;

    assert!(state.cancel());
    assert!(!state.cancel());
    assert_eq!(state, TaskState::Cancelled);
}

#[test]
fn every_live_state_can_be_cancelled_once() {
    for live in [
        TaskState::Submitted,
        TaskState::Validating,
        TaskState::Queued,
        TaskState::Running,
        TaskState::WaitingApproval,
    ] {
        let mut state = live;
        assert!(!state.is_terminal());
        assert!(state.cancel());
        assert_eq!(state, TaskState::Cancelled);
        assert!(!state.cancel());
    }
}

#[test]
fn transitions_name_both_states() {
    let mut state = TaskState::Queued;
    let error = state
        .transition_to(TaskState::Succeeded)
        .expect_err("queued tasks have not run");

    assert_eq!(
        error.display(),
        "invalid task state transition: Queued -> Succeeded"
    );
    assert!(!TaskState::Running.can_transition_to(TaskState::Running));
}
