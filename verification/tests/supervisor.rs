//! Supervision of tasks.

use aios::approval::{ApprovalError, ApprovalRequest};
use aios::error::ErrorCode;
use aios::event::{InMemoryEventStore, TaskEventKind};
use aios::ids::{ApprovalId, OperationId, TaskId};
use aios::policy::CapabilityRequest;
use aios::state::TaskState;
use aios::supervisor::{
    OperationAuthorization, SubmitResult, SupervisorError, TaskSupervisor,
};
use aios::task::{
    ApprovalPolicy, Budget, CapabilitySet, FileAccess, FileCapability, NetworkPolicy, TaskSpec,
};
use aios::time::Duration;

fn valid_task() -> TaskSpec {
    TaskSpec {
        idempotency_key: "runtime-test-001".to_owned(),
        goal: "Inspect the repository".to_owned(),
        capabilities: CapabilitySet {
            filesystem: vec![FileCapability {
                path: "/workspace/project".to_owned(),
                access: FileAccess::Read,
            }],
            network: NetworkPolicy::Deny,
            tools: vec!["test_runner".to_owned()],
        },
        budget: Budget {
            wall_time_seconds: 300,
            memory_bytes: 1_073_741_824,
            max_parallel_agents: 1,
        },
        approval: ApprovalPolicy {
            required_for: vec!["git.commit".to_owned()],
        },
    }
}

fn accepted_task_id(result: SubmitResult) -> TaskId {
    match result {
        SubmitResult::Accepted(task) => task.task_id,
        SubmitResult::Existing(_) | SubmitResult::Rejected { .. } => {
            panic!("expected an accepted task")
        }
    }
}

#[test]
fn accepts_valid_task_and_records_validation_lifecycle() {
    let mut supervisor = TaskSupervisor::default();
    let task_id = accepted_task_id(supervisor.submit(valid_task()).expect("submit task"));

    assert_eq!(
        supervisor.get(task_id).expect("task exists").state,
        TaskState::Queued
    );
    let events = supervisor.events(task_id, 0).expect("list events");
    assert_eq!(events.len(), 3);
    assert_eq!(events[0].kind, TaskEventKind::Submitted);
    assert_eq!(
        events
            .iter()
            .map(|event| event.sequence)
            .collect::<Vec<_>>(),
        vec![1, 2, 3]
    );
}

#[test]
fn rejects_invalid_task_without_recording_input_values() {
    let mut supervisor = TaskSupervisor::default();
    let mut spec = valid_task();
    spec.goal = "".to_owned();

    let result = supervisor.submit(spec).expect("submit task");
    let SubmitResult::Rejected { task, errors } = result else {
        panic!("expected rejected task");
    };

    assert_eq!(task.state, TaskState::Rejected);
    assert_eq!(errors.errors().len(), 1);
    let recorded = format!("{:?}", supervisor.events(task.task_id, 0).expect("events"));
    assert!(!recorded.contains("goal"));
    assert!(!recorded.contains("capabilities"));
}

#[test]
fn returns_existing_task_for_identical_idempotent_submission() {
    let mut supervisor = TaskSupervisor::default();
    let first = accepted_task_id(supervisor.submit(valid_task()).expect("submit task"));

    let second = supervisor.submit(valid_task()).expect("repeat task");
    let SubmitResult::Existing(task) = second else {
        panic!("expected existing task");
    };

    assert_eq!(task.task_id, first);
    assert_eq!(supervisor.events(first, 0).expect("events").len(), 3);
}

#[test]
fn rejects_idempotency_key_reuse_with_different_input() {
    let mut supervisor = TaskSupervisor::default();
    supervisor.submit(valid_task()).expect("submit task");
    let mut conflicting = valid_task();
    conflicting.goal = "Perform a different task".to_owned();

    let error = supervisor
        .submit(conflicting)
        .expect_err("conflicting task must fail");
    assert!(matches!(error, SupervisorError::IdempotencyConflict));
}

#[test]
fn records_complete_approval_and_success_lifecycle() {
    let mut supervisor = TaskSupervisor::default();
    let task_id = accepted_task_id(supervisor.submit(valid_task()).expect("submit task"));

    supervisor.start(task_id).expect("start task");
    let authorization = supervisor
        .request_operation(
            task_id,
            CapabilityRequest::Tool {
                tool: "test_runner",
                action: "git.commit",
            },
            Duration::from_secs(30),
        )
        .expect("request operation");
    let OperationAuthorization::ApprovalRequired(request) = authorization else {
        panic!("expected approval request");
    };
    supervisor
        .approve_operation(request.approval_id)
        .expect("approve operation");
    supervisor
        .authorize_operation(
            task_id,
            request.operation_id,
            CapabilityRequest::Tool {
                tool: "test_runner",
                action: "git.commit",
            },
        )
        .expect("consume approval");
    supervisor.succeed(task_id).expect("succeed task");

    assert_eq!(
        supervisor.get(task_id).expect("task exists").state,
        TaskState::Succeeded
    );
    assert_eq!(supervisor.events(task_id, 0).expect("events").len(), 10);
}

#[test]
fn denial_fails_task_and_cannot_be_reused() {
    let mut supervisor = TaskSupervisor::default();
    let task_id = accepted_task_id(supervisor.submit(valid_task()).expect("submit task"));
    supervisor.start(task_id).expect("start task");
    let OperationAuthorization::ApprovalRequired(request) = supervisor
        .request_operation(
            task_id,
            CapabilityRequest::Tool {
                tool: "test_runner",
                action: "git.commit",
            },
            Duration::from_secs(30),
        )
        .expect("request operation")
    else {
        panic!("expected approval request");
    };

    let task = supervisor
        .deny_operation(request.approval_id)
        .expect("deny operation");

    assert_eq!(task.state, TaskState::Failed);
    assert!(matches!(
        supervisor.approve_operation(request.approval_id),
        Err(SupervisorError::Approval(ApprovalError::NotFound))
    ));
}

#[test]
fn exact_resource_mismatch_consumes_linear_grant() {
    let mut spec = valid_task();
    spec.capabilities.filesystem[0].access = FileAccess::Write;
    spec.approval.required_for = vec!["filesystem.write".to_owned()];
    let mut supervisor = TaskSupervisor::default();
    let task_id = accepted_task_id(supervisor.submit(spec).expect("submit task"));
    supervisor.start(task_id).expect("start task");
    let OperationAuthorization::ApprovalRequired(request) = supervisor
        .request_operation(
            task_id,
            CapabilityRequest::File {
                path: "/workspace/project/a.txt",
                access: FileAccess::Write,
            },
            Duration::from_secs(30),
        )
        .expect("request operation")
    else {
        panic!("expected approval request");
    };
    supervisor
        .approve_operation(request.approval_id)
        .expect("approve operation");

    assert!(matches!(
        supervisor.authorize_operation(
            task_id,
            request.operation_id,
            CapabilityRequest::File {
                path: "/workspace/project/b.txt",
                access: FileAccess::Write,
            },
        ),
        Err(SupervisorError::Approval(
            ApprovalError::ScopeMismatch
        ))
    ));
    assert!(matches!(
        supervisor.authorize_operation(
            task_id,
            request.operation_id,
            CapabilityRequest::File {
                path: "/workspace/project/a.txt",
                access: FileAccess::Write,
            },
        ),
        Err(SupervisorError::Approval(ApprovalError::NotFound))
    ));
}

#[test]
fn cancellation_revokes_pending_approval() {
    let mut supervisor = TaskSupervisor::default();
    let task_id = accepted_task_id(supervisor.submit(valid_task()).expect("submit task"));
    supervisor.start(task_id).expect("start task");
    let OperationAuthorization::ApprovalRequired(request) = supervisor
        .request_operation(
            task_id,
            CapabilityRequest::Tool {
                tool: "test_runner",
                action: "git.commit",
            },
            Duration::from_secs(30),
        )
        .expect("request operation")
    else {
        panic!("expected approval request");
    };

    assert!(supervisor.cancel(task_id).expect("cancel task"));
    assert!(matches!(
        supervisor.approve_operation(request.approval_id),
        Err(SupervisorError::Approval(ApprovalError::NotFound))
    ));
    assert!(
        supervisor
            .events(task_id, 0)
            .expect("events")
            .iter()
            .any(|event| matches!(event.kind, TaskEventKind::ApprovalRevoked { .. }))
    );
}

#[test]
fn approval_request_rolls_back_when_audit_batch_fails() {
    let store = InMemoryEventStore::new(5).expect("positive capacity");
    let mut supervisor = TaskSupervisor::new(store);
    let task_id = accepted_task_id(supervisor.submit(valid_task()).expect("submit task"));
    supervisor.start(task_id).expect("start task");

    for _ in 0..2 {
        assert!(matches!(
            supervisor.request_operation(
                task_id,
                CapabilityRequest::Tool {
                    tool: "test_runner",
                    action: "git.commit",
                },
                Duration::from_secs(30),
            ),
            Err(SupervisorError::EventStore(_))
        ));
    }
    assert_eq!(
        supervisor.get(task_id).expect("task exists").state,
        TaskState::Running
    );
}

#[test]
fn approval_grant_rolls_back_when_audit_batch_fails() {
    let store = InMemoryEventStore::new(7).expect("positive capacity");
    let mut supervisor = TaskSupervisor::new(store);
    let task_id = accepted_task_id(supervisor.submit(valid_task()).expect("submit task"));
    supervisor.start(task_id).expect("start task");
    let OperationAuthorization::ApprovalRequired(request) = supervisor
        .request_operation(
            task_id,
            CapabilityRequest::Tool {
                tool: "test_runner",
                action: "git.commit",
            },
            Duration::from_secs(30),
        )
        .expect("request operation")
    else {
        panic!("expected approval request");
    };

    for _ in 0..2 {
        assert!(matches!(
            supervisor.approve_operation(request.approval_id),
            Err(SupervisorError::EventStore(_))
        ));
    }
    assert_eq!(
        supervisor.get(task_id).expect("task exists").state,
        TaskState::WaitingApproval
    );
}

#[test]
fn invalid_transition_does_not_change_state_or_append_event() {
    let mut supervisor = TaskSupervisor::default();
    let task_id = accepted_task_id(supervisor.submit(valid_task()).expect("submit task"));

    let error = supervisor
        .succeed(task_id)
        .expect_err("queued task cannot succeed directly");

    assert!(matches!(error, SupervisorError::InvalidStateTransition(_)));
    assert_eq!(
        supervisor.get(task_id).expect("task exists").state,
        TaskState::Queued
    );
    assert_eq!(supervisor.events(task_id, 0).expect("events").len(), 3);
}

#[test]
fn event_store_failure_does_not_register_task() {
    let store = InMemoryEventStore::new(2).expect("positive capacity");
    let mut supervisor = TaskSupervisor::new(store);

    let error = supervisor
        .submit(valid_task())
        .expect_err("submission needs three events");

    assert!(matches!(error, SupervisorError::EventStore(_)));
    assert!(matches!(
        supervisor.submit(valid_task()),
        Err(SupervisorError::EventStore(_))
    ));
}

#[test]
fn cancellation_is_idempotent_and_records_one_event() {
    let mut supervisor = TaskSupervisor::default();
    let task_id = accepted_task_id(supervisor.submit(valid_task()).expect("submit task"));

    assert!(supervisor.cancel(task_id).expect("cancel task"));
    assert!(!supervisor.cancel(task_id).expect("repeat cancellation"));
    assert_eq!(supervisor.events(task_id, 0).expect("events").len(), 4);
}

#[test]
fn capacity_rejects_new_tasks_but_preserves_idempotent_lookup() {
    let mut supervisor = TaskSupervisor::with_max_tasks(InMemoryEventStore::default(), 1)
        .expect("positive capacity");
    let first_id = accepted_task_id(supervisor.submit(valid_task()).expect("submit task"));

    let repeated = supervisor.submit(valid_task()).expect("repeat task");
    assert!(matches!(
        repeated,
        SubmitResult::Existing(task) if task.task_id == first_id
    ));

    let mut second = valid_task();
    second.idempotency_key = "runtime-test-002".to_owned();
    assert!(matches!(
        supervisor.submit(second),
        Err(SupervisorError::CapacityExceeded)
    ));
}

fn requested(supervisor: &mut TaskSupervisor, task_id: TaskId, action: &str) -> ApprovalRequest {
    match supervisor
        .request_operation(
            task_id,
            CapabilityRequest::Tool {
                tool: "test_runner",
                action,
            },
            Duration::from_secs(30),
        )
        .expect("request operation")
    {
        OperationAuthorization::ApprovalRequired(request) => request,
        _ => panic!("expected approval request"),
    }
}

#[test]
fn given_identifiers_and_times_give_exact_outcomes() {
    let mut supervisor = TaskSupervisor::default();
    let task_id = TaskId { value: 42 };
    let SubmitResult::Accepted(task) = supervisor
        .submit_as(valid_task(), task_id)
        .expect("submit task")
    else {
        panic!("expected an accepted task");
    };
    assert_eq!(task.task_id, task_id);
    supervisor.start_at(1_000, task_id).expect("start task");
    let context = supervisor.execution_context(task_id).expect("running task");
    assert_eq!(context.deadline_nanos(), 300_000_001_000);
    assert_eq!(context.remaining_at(1_000).nanos, 300_000_000_000);
    assert_eq!(context.remaining_at(300_000_001_000).nanos, 0);
    assert_eq!(
        supervisor.wall_time_exceeded_at(300_000_000_999, task_id),
        Ok(false)
    );
    assert_eq!(
        supervisor.wall_time_exceeded_at(300_000_001_000, task_id),
        Ok(true)
    );

    let approval_id = ApprovalId { value: 9 };
    let operation_id = OperationId { value: 8 };
    let OperationAuthorization::ApprovalRequired(request) = supervisor
        .request_operation_at(
            2_000,
            approval_id,
            operation_id,
            task_id,
            CapabilityRequest::Tool {
                tool: "test_runner",
                action: "git.commit",
            },
            Duration::from_millis(1),
        )
        .expect("request operation")
    else {
        panic!("expected approval request");
    };
    assert_eq!(request.approval_id, approval_id);
    assert_eq!(supervisor.expire_approvals_at(1_001_999), Ok(0));
    assert_eq!(supervisor.expire_approvals_at(1_002_000), Ok(1));
    assert_eq!(
        supervisor.get(task_id).expect("task exists").state,
        TaskState::Failed
    );
}

#[test]
fn an_expiry_that_cannot_be_recorded_changes_nothing() {
    let store = InMemoryEventStore::new(7).expect("positive capacity");
    let mut supervisor = TaskSupervisor::new(store);
    let task_id = TaskId { value: 42 };
    supervisor
        .submit_as(valid_task(), task_id)
        .expect("submit task");
    supervisor.start_at(0, task_id).expect("start task");
    supervisor
        .request_operation_at(
            0,
            ApprovalId { value: 9 },
            OperationId { value: 8 },
            task_id,
            CapabilityRequest::Tool {
                tool: "test_runner",
                action: "git.commit",
            },
            Duration::from_millis(1),
        )
        .expect("request operation");

    for _ in 0..2 {
        assert!(matches!(
            supervisor.expire_approvals_at(1_000_000),
            Err(SupervisorError::EventStore(_))
        ));
    }
    assert_eq!(
        supervisor.get(task_id).expect("task exists").state,
        TaskState::WaitingApproval
    );
    assert_eq!(supervisor.events(task_id, 0).expect("events").len(), 6);
}

#[test]
fn a_used_identifier_counts_as_exhausted_capacity() {
    let mut supervisor = TaskSupervisor::default();
    let task_id = TaskId { value: 42 };
    supervisor
        .submit_as(valid_task(), task_id)
        .expect("submit task");
    let mut second = valid_task();
    second.idempotency_key = "runtime-test-002".to_owned();

    assert!(matches!(
        supervisor.submit_as(second, task_id),
        Err(SupervisorError::CapacityExceeded)
    ));
}

#[test]
fn approved_operations_are_used_once() {
    let mut supervisor = TaskSupervisor::default();
    let task_id = accepted_task_id(supervisor.submit(valid_task()).expect("submit task"));
    supervisor.start(task_id).expect("start task");
    let request = requested(&mut supervisor, task_id, "git.commit");
    supervisor
        .approve_operation(request.approval_id)
        .expect("approve operation");
    let operation = CapabilityRequest::Tool {
        tool: "test_runner",
        action: "git.commit",
    };
    let receipt = supervisor
        .authorize_operation(task_id, request.operation_id, operation)
        .expect("consume approval");
    assert_eq!(receipt.approval_id, request.approval_id);

    assert!(matches!(
        supervisor.authorize_operation(
            task_id,
            request.operation_id,
            CapabilityRequest::Tool {
                tool: "test_runner",
                action: "git.commit",
            },
        ),
        Err(SupervisorError::Approval(ApprovalError::NotFound))
    ));
}

#[test]
fn a_task_waits_for_one_approval_at_a_time() {
    let mut supervisor = TaskSupervisor::default();
    let task_id = accepted_task_id(supervisor.submit(valid_task()).expect("submit task"));
    supervisor.start(task_id).expect("start task");
    let _request = requested(&mut supervisor, task_id, "git.commit");

    assert!(matches!(
        supervisor.request_operation(
            task_id,
            CapabilityRequest::Tool {
                tool: "test_runner",
                action: "git.commit",
            },
            Duration::from_secs(30),
        ),
        Err(SupervisorError::InvalidStateTransition(_))
    ));
}

#[test]
fn used_up_budgets_are_recorded_with_their_category() {
    let mut supervisor = TaskSupervisor::default();
    let task_id = accepted_task_id(supervisor.submit(valid_task()).expect("submit task"));
    supervisor.start(task_id).expect("start task");
    supervisor
        .fail_budget_exceeded(task_id)
        .expect("fail task");

    let events = supervisor.events(task_id, 4).expect("events");
    assert_eq!(
        events[0].kind,
        TaskEventKind::TaskFailed {
            code: ErrorCode::BudgetExceeded,
        }
    );
    assert_eq!(
        events[1].kind,
        TaskEventKind::StateTransitioned {
            from: TaskState::Running,
            to: TaskState::Failed,
        }
    );
}

#[test]
fn unknown_tasks_are_not_found() {
    let mut supervisor = TaskSupervisor::default();
    let task_id = TaskId::new();

    assert!(supervisor.get(task_id).is_none());
    assert_eq!(supervisor.start(task_id), Err(SupervisorError::TaskNotFound));
    assert_eq!(supervisor.cancel(task_id), Err(SupervisorError::TaskNotFound));
    assert!(matches!(
        supervisor.events(task_id, 0),
        Err(SupervisorError::TaskNotFound)
    ));
    assert_eq!(SupervisorError::TaskNotFound.display(), "task not found");
}

#[test]
fn execution_input_holds_what_the_agent_may_see() {
    let mut supervisor = TaskSupervisor::default();
    let task_id = accepted_task_id(supervisor.submit(valid_task()).expect("submit task"));
    let Ok(input) = supervisor.start_execution(task_id) else {
        panic!("start task");
    };

    assert_eq!(input.goal(), "Inspect the repository");
    assert_eq!(input.capability_tools(), &vec!["test_runner".to_owned()]);
    assert!(input.network_destinations().is_empty());
}

#[test]
fn identifiers_read_back_and_carry_their_version() {
    let task_id = TaskId { value: 0x0190_0000_0000_7000_8000_0000_0000_00ff };
    assert_eq!(task_id.display(), "01900000-0000-7000-8000-0000000000ff");
    assert_eq!(
        TaskId::parse("01900000-0000-7000-8000-0000000000ff"),
        Some(task_id)
    );
    assert_eq!(TaskId::parse("not an identifier"), None);

    let drawn = TaskId::new();
    assert_eq!(drawn.display().as_bytes()[14], b'7');
    assert_eq!(TaskId::parse(&drawn.display()), Some(drawn));
    assert_ne!(TaskId::new(), drawn);
}

#[test]
fn an_approval_of_an_ended_task_cannot_be_used() {
    let commit = || CapabilityRequest::Tool {
        tool: "test_runner",
        action: "git.commit",
    };
    let mut supervisor = TaskSupervisor::default();
    let task_id = accepted_task_id(supervisor.submit(valid_task()).expect("submit task"));
    supervisor.start(task_id).expect("start task");
    let OperationAuthorization::ApprovalRequired(request) = supervisor
        .request_operation(task_id, commit(), Duration::from_secs(30))
        .expect("request operation")
    else {
        panic!("expected approval request");
    };
    supervisor
        .approve_operation(request.approval_id)
        .expect("approve operation");
    assert_eq!(supervisor.cancel(task_id), Ok(true));
    assert_eq!(supervisor.cancel(task_id), Ok(false));

    assert!(matches!(
        supervisor.authorize_operation(task_id, request.operation_id, commit()),
        Err(SupervisorError::TaskNotRunning)
    ));
    assert_eq!(
        supervisor.get(task_id).expect("task exists").state,
        TaskState::Cancelled
    );
}
