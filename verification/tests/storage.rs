//! Stored events, and recovery from them.

use std::cell::RefCell;
use std::collections::BTreeMap;
use std::rc::Rc;

use aios::approval::ApprovalAuthority;
use aios::error::ErrorCode;
use aios::event::{EventLog, EventStore, EventStoreError, TaskEvent, TaskEventKind};
use aios::ids::{OperationId, TaskId};
use aios::policy::CapabilityRequest;
use aios::recovery::{RecoverableEventStore, TaskSnapshot, recover_snapshot};
use aios::state::TaskState;
use aios::storage::{
    SCHEMA_VERSION, SchemaAction, StoredRow, check_database_file, decode_row, decode_rows,
    encode_row, list_cursor, plan_append, plan_append_at, schema_action, validate_event_limit,
};
use aios::supervisor::{SubmitResult, SupervisorError, TaskSupervisor};
use aios::task::{
    ApprovalPolicy, Budget, CapabilitySet, FileAccess, FileCapability, NetworkPolicy, TaskSpec,
};
use aios::time::Duration;

/// The rows of a database that outlives the stores opened on it.
type Rows = Rc<RefCell<BTreeMap<u128, Vec<StoredRow>>>>;

struct RowStore {
    rows: Rows,
    max_events_per_task: usize,
}

impl RowStore {
    fn open(rows: &Rows, max_events_per_task: usize) -> Result<Self, EventStoreError> {
        validate_event_limit(max_events_per_task)?;
        Ok(Self {
            rows: rows.clone(),
            max_events_per_task,
        })
    }

    fn open_in_memory(max_events_per_task: usize) -> Result<Self, EventStoreError> {
        Self::open(&Rows::default(), max_events_per_task)
    }

    fn insert(&self, task_id: TaskId, row: StoredRow) {
        self.rows
            .borrow_mut()
            .entry(task_id.value)
            .or_default()
            .push(row);
    }

    fn rows_of(&self, task_id: TaskId) -> Vec<StoredRow> {
        self.rows
            .borrow()
            .get(&task_id.value)
            .cloned()
            .unwrap_or_default()
    }
}

impl EventStore for RowStore {
    fn log(&self) -> EventLog {
        unreachable!("only proofs speak of it")
    }

    fn append_batch(
        &mut self,
        task_id: TaskId,
        kinds: &[TaskEventKind],
    ) -> Result<Vec<TaskEvent>, EventStoreError> {
        let rows = self.rows_of(task_id);
        let count = i64::try_from(rows.len()).expect("few rows");
        let last = rows.last().map_or(0, |row| row.sequence);
        let events = plan_append(task_id, kinds, count, last, self.max_events_per_task)?;
        for event in &events {
            self.insert(task_id, encode_row(event)?);
        }
        Ok(events)
    }

    fn list(
        &self,
        task_id: TaskId,
        after_sequence: u64,
    ) -> Result<Vec<TaskEvent>, EventStoreError> {
        let cursor = list_cursor(after_sequence)?;
        let rows: Vec<StoredRow> = self
            .rows_of(task_id)
            .into_iter()
            .filter(|row| row.sequence > cursor)
            .collect();
        decode_rows(task_id, &rows)
    }
}

impl RecoverableEventStore for RowStore {
    fn recover_task_snapshots(&self) -> Result<Vec<TaskSnapshot>, EventStoreError> {
        let tasks: Vec<u128> = self.rows.borrow().keys().copied().collect();
        let mut snapshots = Vec::new();
        for value in tasks {
            let task_id = TaskId { value };
            let events = self.list(task_id, 0)?;
            snapshots.push(recover_snapshot(task_id, &events)?);
        }
        Ok(snapshots)
    }
}

fn example_task() -> TaskSpec {
    TaskSpec {
        idempotency_key: "storage-test-001".to_owned(),
        goal: "Analyze the repository and report test failures".to_owned(),
        capabilities: CapabilitySet {
            filesystem: vec![FileCapability {
                path: "/workspace/project".to_owned(),
                access: FileAccess::Read,
            }],
            network: NetworkPolicy::Deny,
            tools: vec!["test_runner".to_owned()],
        },
        budget: Budget {
            wall_time_seconds: 1_800,
            memory_bytes: 8_589_934_592,
            max_parallel_agents: 2,
        },
        approval: ApprovalPolicy {
            required_for: vec!["git.commit".to_owned()],
        },
    }
}

fn queued_events() -> [TaskEventKind; 3] {
    [
        TaskEventKind::Submitted,
        TaskEventKind::StateTransitioned {
            from: TaskState::Submitted,
            to: TaskState::Validating,
        },
        TaskEventKind::StateTransitioned {
            from: TaskState::Validating,
            to: TaskState::Queued,
        },
    ]
}

#[test]
fn persists_events_across_reopen() {
    let database = Rows::default();
    let task_id = TaskId::new();

    {
        let mut store = RowStore::open(&database, 100).expect("open database");
        store
            .append_batch(task_id, &queued_events())
            .expect("append events");
    }

    let store = RowStore::open(&database, 100).expect("reopen database");
    let events = store.list(task_id, 0).expect("list events");
    assert_eq!(events.len(), 3);
    assert_eq!(events[0].sequence, 1);
    assert_eq!(events[2].sequence, 3);
}

#[test]
fn recovers_latest_task_state_from_events() {
    let mut store = RowStore::open_in_memory(100).expect("open database");
    let queued_task = TaskId::new();
    let running_task = TaskId::new();
    store
        .append_batch(queued_task, &queued_events())
        .expect("append queued task");
    store
        .append_batch(running_task, &queued_events())
        .expect("append running task");
    store
        .append_batch(
            running_task,
            &[TaskEventKind::StateTransitioned {
                from: TaskState::Queued,
                to: TaskState::Running,
            }],
        )
        .expect("append running state");

    let snapshots = store.recover_task_snapshots().expect("recover tasks");
    assert_eq!(snapshots.len(), 2);
    assert!(
        snapshots
            .iter()
            .any(|task| { task.task_id == queued_task && task.state == TaskState::Queued })
    );
    assert!(
        snapshots
            .iter()
            .any(|task| { task.task_id == running_task && task.state == TaskState::Running })
    );
}

#[test]
fn recovers_state_across_resource_free_approval_events() {
    let mut store = RowStore::open_in_memory(100).expect("open database");
    let task_id = TaskId::new();
    let operation_id = OperationId::new();
    let mut authority = ApprovalAuthority::default();
    let approval = authority
        .request(task_id, operation_id, "git.commit", Duration::from_secs(30))
        .expect("request approval");
    let mut events = queued_events().to_vec();
    events.extend([
        TaskEventKind::StateTransitioned {
            from: TaskState::Queued,
            to: TaskState::Running,
        },
        TaskEventKind::ApprovalRequested {
            approval_id: approval.approval_id,
            operation_id,
        },
        TaskEventKind::StateTransitioned {
            from: TaskState::Running,
            to: TaskState::WaitingApproval,
        },
        TaskEventKind::ApprovalGranted {
            approval_id: approval.approval_id,
            operation_id,
        },
        TaskEventKind::StateTransitioned {
            from: TaskState::WaitingApproval,
            to: TaskState::Running,
        },
        TaskEventKind::ApprovalConsumed {
            approval_id: approval.approval_id,
            operation_id,
        },
        TaskEventKind::StateTransitioned {
            from: TaskState::Running,
            to: TaskState::Succeeded,
        },
    ]);
    store
        .append_batch(task_id, &events)
        .expect("append approval lifecycle");

    let snapshots = store.recover_task_snapshots().expect("recover tasks");

    assert_eq!(snapshots.len(), 1);
    assert_eq!(snapshots[0].task_id, task_id);
    assert_eq!(snapshots[0].state, TaskState::Succeeded);
}

#[test]
fn restart_fails_non_terminal_tasks_once_and_preserves_terminal_tasks() {
    let database = Rows::default();
    let queued_task = TaskId::new();
    let running_task = TaskId::new();
    let waiting_task = TaskId::new();
    let succeeded_task = TaskId::new();

    {
        let mut store = RowStore::open(&database, 100).expect("open database");
        for task_id in [queued_task, running_task, waiting_task, succeeded_task] {
            store
                .append_batch(task_id, &queued_events())
                .expect("append queued task");
        }
        for task_id in [running_task, waiting_task, succeeded_task] {
            store
                .append_batch(
                    task_id,
                    &[TaskEventKind::StateTransitioned {
                        from: TaskState::Queued,
                        to: TaskState::Running,
                    }],
                )
                .expect("append running state");
        }
        let operation_id = OperationId::new();
        let mut authority = ApprovalAuthority::default();
        let approval = authority
            .request(
                waiting_task,
                operation_id,
                "git.commit",
                Duration::from_secs(30),
            )
            .expect("request approval");
        store
            .append_batch(
                waiting_task,
                &[
                    TaskEventKind::ApprovalRequested {
                        approval_id: approval.approval_id,
                        operation_id,
                    },
                    TaskEventKind::StateTransitioned {
                        from: TaskState::Running,
                        to: TaskState::WaitingApproval,
                    },
                ],
            )
            .expect("append waiting state");
        store
            .append_batch(
                succeeded_task,
                &[TaskEventKind::StateTransitioned {
                    from: TaskState::Running,
                    to: TaskState::Succeeded,
                }],
            )
            .expect("append success state");
    }

    {
        let store = RowStore::open(&database, 100).expect("reopen database");
        let mut supervisor = TaskSupervisor::recover(store, 10).expect("recover supervisor");

        for task_id in [queued_task, running_task, waiting_task] {
            assert_eq!(
                supervisor.get(task_id).expect("recovered task").state,
                TaskState::Failed
            );
            let events = supervisor.events(task_id, 0).expect("recovered events");
            assert!(matches!(
                events[events.len() - 2].kind,
                TaskEventKind::TaskFailed {
                    code: ErrorCode::RuntimeRestarted
                }
            ));
            assert_eq!(
                events.last().expect("terminal transition").kind,
                TaskEventKind::StateTransitioned {
                    from: match task_id {
                        id if id == queued_task => TaskState::Queued,
                        id if id == running_task => TaskState::Running,
                        _ => TaskState::WaitingApproval,
                    },
                    to: TaskState::Failed,
                }
            );
        }

        assert_eq!(
            supervisor.get(succeeded_task).expect("terminal task").state,
            TaskState::Succeeded
        );
        assert_eq!(
            supervisor
                .events(succeeded_task, 0)
                .expect("terminal events")
                .len(),
            5
        );

        let task = example_task();
        let SubmitResult::Accepted(resubmitted) =
            supervisor.submit(task).expect("explicit resubmission")
        else {
            panic!("resubmission must create a new Task");
        };
        assert!(
            ![queued_task, running_task, waiting_task, succeeded_task]
                .contains(&resubmitted.task_id)
        );
    }

    let store = RowStore::open(&database, 100).expect("reopen database again");
    let supervisor = TaskSupervisor::recover(store, 10).expect("repeat recovery");
    assert_eq!(
        supervisor
            .events(queued_task, 0)
            .expect("queued events")
            .len(),
        5
    );
    assert_eq!(
        supervisor
            .events(running_task, 0)
            .expect("running events")
            .len(),
        6
    );
    assert_eq!(
        supervisor
            .events(waiting_task, 0)
            .expect("waiting events")
            .len(),
        8
    );
}

#[test]
fn restart_audit_failure_prevents_supervisor_recovery() {
    let database = Rows::default();
    let task_id = TaskId::new();
    {
        let mut store = RowStore::open(&database, 3).expect("open database");
        store
            .append_batch(task_id, &queued_events())
            .expect("append queued task");
    }

    let store = RowStore::open(&database, 3).expect("reopen database");
    assert!(matches!(
        TaskSupervisor::recover(store, 10),
        Err(SupervisorError::EventStore(
            EventStoreError::CapacityExceeded
        ))
    ));

    let store = RowStore::open(&database, 100).expect("inspect database");
    let snapshots = store.recover_task_snapshots().expect("recover snapshots");
    assert_eq!(snapshots[0].state, TaskState::Queued);
    assert_eq!(store.list(task_id, 0).expect("events").len(), 3);
}

#[test]
fn rejects_unpaired_failure_category_during_recovery() {
    let mut store = RowStore::open_in_memory(100).expect("open database");
    let task_id = TaskId::new();
    store
        .append_batch(task_id, &queued_events())
        .expect("append queued task");
    store
        .append_batch(
            task_id,
            &[TaskEventKind::TaskFailed {
                code: ErrorCode::RuntimeRestarted,
            }],
        )
        .expect("append incomplete failure");

    assert_eq!(
        store.recover_task_snapshots().err(),
        Some(EventStoreError::Corrupt)
    );
}

#[test]
fn capacity_failure_rolls_back_the_whole_batch() {
    let mut store = RowStore::open_in_memory(2).expect("open database");
    let task_id = TaskId::new();

    let error = store
        .append_batch(task_id, &queued_events())
        .expect_err("batch exceeds capacity");

    assert_eq!(error, EventStoreError::CapacityExceeded);
    assert!(store.list(task_id, 0).expect("list events").is_empty());
}

#[test]
fn detects_corrupt_event_payload() {
    let store = RowStore::open_in_memory(100).expect("open database");
    let task_id = TaskId::new();
    store.insert(
        task_id,
        StoredRow {
            sequence: 1,
            occurred_at_unix_ms: 0,
            kind: None,
        },
    );

    assert_eq!(store.list(task_id, 0), Err(EventStoreError::Corrupt));
}

#[test]
fn rejects_recovery_when_event_sequence_has_a_gap() {
    let store = RowStore::open_in_memory(100).expect("open database");
    let task_id = TaskId::new();
    store.insert(
        task_id,
        StoredRow {
            sequence: 2,
            occurred_at_unix_ms: 0,
            kind: Some(TaskEventKind::Submitted),
        },
    );

    assert_eq!(
        store.recover_task_snapshots().err(),
        Some(EventStoreError::Corrupt)
    );
}

fn numbered(task_id: TaskId, kinds: &[TaskEventKind]) -> Vec<TaskEvent> {
    let mut events = Vec::new();
    for kind in kinds {
        events.push(TaskEvent {
            task_id,
            sequence: events.len() as u64 + 1,
            occurred_at_unix_ms: 0,
            kind: *kind,
        });
    }
    events
}

#[test]
fn lists_that_no_task_leaves_are_corrupt() {
    let task_id = TaskId { value: 7 };
    let queued = queued_events();
    let corrupt = |events: &[TaskEvent]| {
        recover_snapshot(task_id, events) == Err(EventStoreError::Corrupt)
    };
    assert_eq!(
        recover_snapshot(task_id, &numbered(task_id, &queued)),
        Ok(TaskSnapshot {
            task_id,
            state: TaskState::Queued,
        })
    );
    assert!(corrupt(&[]));
    assert!(corrupt(&numbered(task_id, &queued[1..])));
    let mut gapped = numbered(task_id, &queued);
    gapped[2].sequence = 4;
    assert!(corrupt(&gapped));
    let elsewhere = [
        queued[0],
        queued[1],
        queued[2],
        TaskEventKind::StateTransitioned {
            from: TaskState::Running,
            to: TaskState::Succeeded,
        },
    ];
    assert!(corrupt(&numbered(task_id, &elsewhere)));
    let failure = TaskEventKind::TaskFailed {
        code: ErrorCode::RuntimeRestarted,
    };
    let failed = TaskEventKind::StateTransitioned {
        from: TaskState::Queued,
        to: TaskState::Failed,
    };
    let running = TaskEventKind::StateTransitioned {
        from: TaskState::Queued,
        to: TaskState::Running,
    };
    let state = |last: &[TaskEventKind]| {
        let mut kinds = queued.to_vec();
        kinds.extend_from_slice(last);
        recover_snapshot(task_id, &numbered(task_id, &kinds)).map(|snapshot| snapshot.state)
    };
    assert_eq!(state(&[failure, failed]), Ok(TaskState::Failed));
    assert_eq!(state(&[failure]), Err(EventStoreError::Corrupt));
    assert_eq!(state(&[failure, running]), Err(EventStoreError::Corrupt));
    assert_eq!(
        state(&[failure, TaskEventKind::OperationAllowed, failed]),
        Err(EventStoreError::Corrupt)
    );
}

#[test]
fn recorded_events_lead_to_the_state_of_the_task() {
    let mut supervisor = TaskSupervisor::default();
    let task_id = TaskId { value: 11 };
    let replayed = |supervisor: &TaskSupervisor| {
        let events = supervisor.events(task_id, 0).expect("events");
        recover_snapshot(task_id, &events).expect("events replay")
    };
    supervisor
        .submit_as(example_task(), task_id)
        .expect("submit task");
    assert_eq!(supervisor.get(task_id), Some(replayed(&supervisor)));
    supervisor.start_at(0, task_id).expect("start task");
    assert_eq!(supervisor.get(task_id), Some(replayed(&supervisor)));
    supervisor
        .request_operation(
            task_id,
            CapabilityRequest::Tool {
                tool: "test_runner",
                action: "git.commit",
            },
            Duration::from_secs(30),
        )
        .expect("request operation");
    assert_eq!(replayed(&supervisor).state, TaskState::WaitingApproval);
    supervisor.cancel(task_id).expect("cancel task");
    assert_eq!(supervisor.get(task_id), Some(replayed(&supervisor)));
    assert_eq!(replayed(&supervisor).state, TaskState::Cancelled);
}

#[test]
fn restarts_fail_only_where_an_unfinished_task_cannot_be_recorded() {
    let rows = Rows::default();
    let unfinished = TaskId { value: 1 };
    let ended = TaskId { value: 2 };
    let mut store = RowStore::open(&rows, 4).expect("open database");
    store
        .append_batch(ended, &queued_events())
        .expect("append queued task");
    store
        .append_batch(
            ended,
            &[TaskEventKind::StateTransitioned {
                from: TaskState::Queued,
                to: TaskState::Cancelled,
            }],
        )
        .expect("append end");
    let found = store.recover_task_snapshots().expect("recover snapshots");
    let open = |limit: usize| RowStore::open(&rows, limit).expect("reopen database");
    assert!(matches!(
        TaskSupervisor::restart(open(4), 0, &found),
        Err(SupervisorError::CapacityExceeded)
    ));
    let supervisor = TaskSupervisor::restart(open(4), 1, &found)
        .ok()
        .expect("an ended task needs no room");
    assert_eq!(
        supervisor.get(ended).expect("task exists").state,
        TaskState::Cancelled
    );

    store
        .append_batch(unfinished, &queued_events())
        .expect("append queued task");
    let found = store.recover_task_snapshots().expect("recover snapshots");
    assert!(matches!(
        TaskSupervisor::restart(open(5), 1, &found),
        Err(SupervisorError::CapacityExceeded)
    ));
    assert!(matches!(
        TaskSupervisor::restart(open(4), 2, &found),
        Err(SupervisorError::EventStore(EventStoreError::CapacityExceeded))
    ));
    let supervisor = TaskSupervisor::restart(open(5), 2, &found)
        .ok()
        .expect("room for two more events");
    assert_eq!(
        supervisor.get(unfinished).expect("task exists").state,
        TaskState::Failed
    );
}

#[test]
fn returns_only_events_after_the_requested_sequence() {
    let mut store = RowStore::open_in_memory(100).expect("open database");
    let task_id = TaskId::new();
    store
        .append_batch(task_id, &queued_events())
        .expect("append events");

    let events = store.list(task_id, 2).expect("list events");
    assert_eq!(events.len(), 1);
    assert_eq!(events[0].sequence, 3);
}

#[test]
fn only_private_regular_files_are_opened() {
    assert_eq!(check_database_file(false, true, 0o100_600), Ok(()));
    for (symlink, regular, mode) in [
        (false, true, 0o100_644),
        (true, true, 0o100_600),
        (false, false, 0o100_600),
    ] {
        assert_eq!(
            check_database_file(symlink, regular, mode),
            Err(EventStoreError::InsecurePermissions)
        );
    }
}

#[test]
fn other_schemas_are_refused() {
    assert_eq!(schema_action(0), Ok(SchemaAction::Create));
    assert_eq!(schema_action(SCHEMA_VERSION), Ok(SchemaAction::Keep));
    assert_eq!(
        schema_action(SCHEMA_VERSION + 1),
        Err(EventStoreError::Corrupt)
    );
    assert_eq!(
        validate_event_limit(0),
        Err(EventStoreError::CapacityExceeded)
    );
}

#[test]
fn rows_read_back() {
    let task_id = TaskId { value: 77 };
    let events = plan_append_at(
        task_id,
        &[TaskEventKind::Submitted, TaskEventKind::OperationAllowed],
        3,
        3,
        10,
        &vec![1_000, 2_000],
    )
    .expect("plan");
    assert_eq!(events[0].sequence, 4);
    assert_eq!(events[1].sequence, 5);
    assert_eq!(events[1].occurred_at_unix_ms, 2_000);
    for event in &events {
        let row = encode_row(event).expect("encode");
        assert_eq!(decode_row(task_id, row), Ok(*event));
    }
}

#[test]
fn numbers_beyond_the_column_are_refused() {
    let event = TaskEvent {
        task_id: TaskId { value: 1 },
        sequence: u64::MAX,
        occurred_at_unix_ms: 0,
        kind: TaskEventKind::Submitted,
    };
    assert!(encode_row(&event).is_err());
    assert!(list_cursor(u64::MAX).is_err());
    assert_eq!(list_cursor(7), Ok(7));
    assert_eq!(
        decode_row(
            TaskId { value: 1 },
            StoredRow {
                sequence: -1,
                occurred_at_unix_ms: 0,
                kind: Some(TaskEventKind::Submitted),
            }
        ),
        Err(EventStoreError::Corrupt)
    );
}
