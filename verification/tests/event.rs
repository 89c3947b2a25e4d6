//! The in-memory event store.

use aios::event::{EventStore, EventStoreError, InMemoryEventStore, TaskEvent, TaskEventKind};
use aios::ids::TaskId;
use aios::state::TaskState;
use aios::time::recorded_millis;

#[test]
fn assigns_monotonic_sequences_per_task() {
    let mut store = InMemoryEventStore::default();
    let task_id = TaskId::new();

    store
        .append_batch(
            task_id,
            &[
                TaskEventKind::Submitted,
                TaskEventKind::StateTransitioned {
                    from: TaskState::Submitted,
                    to: TaskState::Validating,
                },
            ],
        )
        .expect("events should append");
    store
        .append_batch(
            task_id,
            &[TaskEventKind::StateTransitioned {
                from: TaskState::Validating,
                to: TaskState::Queued,
            }],
        )
        .expect("event should append");

    let events = store.list(task_id, 0).expect("events should list");
    assert_eq!(
        events
            .iter()
            .map(|event| event.sequence)
            .collect::<Vec<_>>(),
        vec![1, 2, 3]
    );
    assert_eq!(store.list(task_id, 2).expect("events should list").len(), 1);
}

#[test]
fn rejects_a_batch_atomically_when_capacity_would_be_exceeded() {
    let mut store = InMemoryEventStore::new(2).expect("positive capacity");
    let task_id = TaskId::new();

    let error = store
        .append_batch(
            task_id,
            &[
                TaskEventKind::Submitted,
                TaskEventKind::ValidationFailed { error_count: 1 },
                TaskEventKind::StateTransitioned {
                    from: TaskState::Validating,
                    to: TaskState::Rejected,
                },
            ],
        )
        .expect_err("oversized batch must fail");

    assert_eq!(error, EventStoreError::CapacityExceeded);
    assert!(
        store
            .list(task_id, 0)
            .expect("events should list")
            .is_empty()
    );
}

#[test]
fn an_empty_store_needs_room_for_events() {
    assert!(matches!(
        InMemoryEventStore::new(0),
        Err(EventStoreError::CapacityExceeded)
    ));
}

#[test]
fn events_carry_their_task_number_and_time() {
    let task_id = TaskId::new();
    let event = TaskEvent::at(task_id, 3, 1_700_000_000_000, TaskEventKind::OperationAllowed)
        .expect("valid event");

    assert_eq!(event.task_id, task_id);
    assert_eq!(event.sequence, 3);
    assert_eq!(event.occurred_at_unix_ms, 1_700_000_000_000);
    let now = TaskEvent::now(task_id, 4, TaskEventKind::Submitted).expect("valid event");
    assert!(now.occurred_at_unix_ms > 1_600_000_000_000);
}

#[test]
fn tasks_do_not_share_numbers() {
    let mut store = InMemoryEventStore::default();
    let first = TaskId { value: 5 };
    let second = TaskId { value: 3 };
    store
        .append_batch(first, &[TaskEventKind::Submitted])
        .expect("append");
    store
        .append_batch(second, &[TaskEventKind::Submitted])
        .expect("append");

    assert_eq!(store.task_ids(), vec![3, 5]);
    assert_eq!(store.task_events(first)[0].sequence, 1);
    assert_eq!(store.task_events(second)[0].sequence, 1);
}

#[test]
fn recorded_times_stay_in_range() {
    assert_eq!(recorded_millis(None), 0);
    assert_eq!(recorded_millis(Some(1_700_000_000_000)), 1_700_000_000_000);
    assert_eq!(recorded_millis(Some(u128::from(u64::MAX) + 1)), u64::MAX);
}
