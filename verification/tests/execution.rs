//! The boundary between operations and adapters.

use std::time::Instant;

use aios::event::InMemoryEventStore;
use aios::execution::{
    Executed, ExecutionAdapter, ExecutionError, ExecutionGate, ExecutionOutcome, GuardedOperation,
};
use aios::ids::TaskId;
use aios::policy::{CapabilityRequest, RequestModel};
use aios::state::TaskState;
use aios::supervisor::{SubmitResult, TaskSupervisor};
use aios::task::{ApprovalPolicy, Budget, CapabilitySet, NetworkPolicy, TaskSpec};
use aios::time::Duration;

struct ToolOperation {
    tool: String,
    action: String,
    argument: String,
}

impl GuardedOperation for ToolOperation {
    fn asks(&self) -> RequestModel {
        unreachable!("only proofs speak of it")
    }

    fn capability_request(&self) -> CapabilityRequest<'_> {
        CapabilityRequest::Tool {
            tool: &self.tool,
            action: &self.action,
        }
    }
}

#[derive(Default)]
struct RecordingAdapter {
    executed_arguments: Vec<String>,
    fail: bool,
}

impl ExecutionAdapter<ToolOperation> for RecordingAdapter {
    type Output = usize;
    type Error = &'static str;

    fn execute(&mut self, operation: ToolOperation) -> Result<Self::Output, Self::Error> {
        if self.fail {
            return Err("sensitive adapter detail");
        }
        self.executed_arguments.push(operation.argument);
        Ok(self.executed_arguments.len())
    }
}

fn task(required_for: &[&str]) -> TaskSpec {
    TaskSpec {
        idempotency_key: "execution-gate-test".to_owned(),
        goal: "Run one guarded tool operation".to_owned(),
        capabilities: CapabilitySet {
            filesystem: Vec::new(),
            network: NetworkPolicy::Deny,
            tools: vec!["test_runner".to_owned()],
        },
        budget: Budget {
            wall_time_seconds: 60,
            memory_bytes: 64 * 1024 * 1024,
            max_parallel_agents: 1,
        },
        approval: ApprovalPolicy {
            required_for: required_for
                .iter()
                .map(|action| (*action).to_owned())
                .collect(),
        },
    }
}

fn running_supervisor(required_for: &[&str]) -> (TaskSupervisor, TaskId) {
    let mut supervisor = TaskSupervisor::default();
    let result = supervisor.submit(task(required_for)).expect("submit task");
    let SubmitResult::Accepted(task) = result else {
        panic!("expected accepted task");
    };
    supervisor.start(task.task_id).expect("start task");
    (supervisor, task.task_id)
}

fn operation(action: &str, argument: &str) -> ToolOperation {
    ToolOperation {
        tool: "test_runner".to_owned(),
        action: action.to_owned(),
        argument: argument.to_owned(),
    }
}

#[test]
fn executes_allowed_operation_immediately() {
    let (mut supervisor, task_id) = running_supervisor(&[]);
    let mut gate = ExecutionGate::new(RecordingAdapter::default());

    let result = gate
        .request(
            &mut supervisor,
            task_id,
            operation("test.run", "original"),
            Duration::from_secs(30),
        )
        .ok()
        .expect("execute allowed operation");

    let ExecutionOutcome::Executed(Executed { output, approval }) = result else {
        panic!("expected execution");
    };
    assert_eq!(output, 1);
    assert!(approval.is_none());
    assert_eq!(gate.pending_count(), 0);
}

#[test]
fn denied_operation_never_reaches_adapter() {
    let (mut supervisor, task_id) = running_supervisor(&[]);
    let mut gate = ExecutionGate::new(RecordingAdapter::default());

    let result = gate
        .request(
            &mut supervisor,
            task_id,
            ToolOperation {
                tool: "untrusted_tool".to_owned(),
                action: "test.run".to_owned(),
                argument: "must-not-run".to_owned(),
            },
            Duration::from_secs(30),
        )
        .ok()
        .expect("deny operation");

    assert!(matches!(result, ExecutionOutcome::Denied { .. }));
    assert_eq!(gate.pending_count(), 0);
}

#[test]
fn approval_executes_the_retained_complete_operation_once() {
    let (mut supervisor, task_id) = running_supervisor(&["tool.execute"]);
    let mut gate = ExecutionGate::new(RecordingAdapter::default());
    let result = gate
        .request(
            &mut supervisor,
            task_id,
            operation("tool.execute", "approved-argument"),
            Duration::from_secs(30),
        )
        .ok()
        .expect("request approval");
    let ExecutionOutcome::ApprovalRequired(request) = result else {
        panic!("expected approval request");
    };

    let executed = gate
        .approve_and_execute(&mut supervisor, request.approval_id)
        .ok()
        .expect("approve and execute");

    assert_eq!(executed.output, 1);
    assert_eq!(
        executed.approval.expect("approval receipt").approval_id,
        request.approval_id
    );
    assert_eq!(gate.pending_count(), 0);
    assert!(matches!(
        gate.approve_and_execute(&mut supervisor, request.approval_id),
        Err(ExecutionError::OperationNotFound)
    ));
}

#[test]
fn denial_and_cancellation_drop_retained_operations() {
    let (mut supervisor, task_id) = running_supervisor(&["tool.execute"]);
    let mut gate = ExecutionGate::new(RecordingAdapter::default());
    let ExecutionOutcome::ApprovalRequired(request) = gate
        .request(
            &mut supervisor,
            task_id,
            operation("tool.execute", "denied"),
            Duration::from_secs(30),
        )
        .ok()
        .expect("request approval")
    else {
        panic!("expected approval request");
    };

    let task = gate
        .deny(&mut supervisor, request.approval_id)
        .ok()
        .expect("deny operation");

    assert_eq!(task.state, TaskState::Failed);
    assert_eq!(gate.pending_count(), 0);

    let (mut supervisor, task_id) = running_supervisor(&["tool.execute"]);
    let mut gate = ExecutionGate::new(RecordingAdapter::default());
    let _ = gate
        .request(
            &mut supervisor,
            task_id,
            operation("tool.execute", "cancelled"),
            Duration::from_secs(30),
        )
        .ok()
        .expect("request approval");
    assert!(gate.cancel(&mut supervisor, task_id).ok().expect("cancel task"));
    assert_eq!(gate.pending_count(), 0);
}

#[test]
fn audit_failure_does_not_retain_or_execute_operation() {
    let store = InMemoryEventStore::new(5).expect("positive capacity");
    let mut supervisor = TaskSupervisor::new(store);
    let SubmitResult::Accepted(task) = supervisor
        .submit(task(&["tool.execute"]))
        .expect("submit task")
    else {
        panic!("expected accepted task");
    };
    supervisor.start(task.task_id).expect("start task");
    let mut gate = ExecutionGate::new(RecordingAdapter::default());

    let result = gate.request(
        &mut supervisor,
        task.task_id,
        operation("tool.execute", "must-not-run"),
        Duration::from_secs(30),
    );

    assert!(matches!(result, Err(ExecutionError::Supervisor(_))));
    assert_eq!(gate.pending_count(), 0);
}

#[test]
fn approval_audit_failure_preserves_pending_operation() {
    let store = InMemoryEventStore::new(7).expect("positive capacity");
    let mut supervisor = TaskSupervisor::new(store);
    let SubmitResult::Accepted(task) = supervisor
        .submit(task(&["tool.execute"]))
        .expect("submit task")
    else {
        panic!("expected accepted task");
    };
    supervisor.start(task.task_id).expect("start task");
    let mut gate = ExecutionGate::new(RecordingAdapter::default());
    let ExecutionOutcome::ApprovalRequired(request) = gate
        .request(
            &mut supervisor,
            task.task_id,
            operation("tool.execute", "retained"),
            Duration::from_secs(30),
        )
        .ok()
        .expect("request approval")
    else {
        panic!("expected approval request");
    };

    assert!(matches!(
        gate.approve_and_execute(&mut supervisor, request.approval_id),
        Err(ExecutionError::Supervisor(_))
    ));
    assert_eq!(gate.pending_count(), 1);
    assert_eq!(
        supervisor.get(task.task_id).expect("task exists").state,
        TaskState::WaitingApproval
    );
}

#[test]
fn expiration_drops_retained_operation() {
    let (mut supervisor, task_id) = running_supervisor(&["tool.execute"]);
    let mut gate = ExecutionGate::new(RecordingAdapter::default());
    let _ = gate
        .request(
            &mut supervisor,
            task_id,
            operation("tool.execute", "expired"),
            Duration::from_millis(1),
        )
        .ok()
        .expect("request approval");
    pause(5);

    assert_eq!(gate.expire(&mut supervisor).ok().expect("expire approval"), 1);
    assert_eq!(gate.pending_count(), 0);
    assert_eq!(
        supervisor.get(task_id).expect("task exists").state,
        TaskState::Failed
    );
}

#[test]
fn adapter_errors_are_redacted_and_cannot_be_replayed() {
    let (mut supervisor, task_id) = running_supervisor(&["tool.execute"]);
    let mut gate = ExecutionGate::new(RecordingAdapter {
        executed_arguments: Vec::new(),
        fail: true,
    });
    let ExecutionOutcome::ApprovalRequired(request) = gate
        .request(
            &mut supervisor,
            task_id,
            operation("tool.execute", "secret-value"),
            Duration::from_secs(30),
        )
        .ok()
        .expect("request approval")
    else {
        panic!("expected approval request");
    };

    let Err(error) = gate.approve_and_execute(&mut supervisor, request.approval_id) else {
        panic!("adapter must fail");
    };

    assert_eq!(error.display(), "adapter execution failed");
    assert!(!error.display().contains("sensitive"));
    assert!(matches!(
        gate.approve_and_execute(&mut supervisor, request.approval_id),
        Err(ExecutionError::OperationNotFound)
    ));
}

fn pause(millis: u64) {
    let start = Instant::now();
    while start.elapsed().as_millis() < u128::from(millis) {}
}
