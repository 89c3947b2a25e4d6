//! Laws on stored events.

use vstd::prelude::*;

use crate::event;
use crate::event::{EventLog, EventStoreError, TaskEvent, TaskEventKind};
use crate::ids::TaskId;
use crate::storage;
use crate::storage::StoredRow;

verus! {

/// A planned batch holds one event for each kind, in their order, of the task, numbered on from
/// the last number, at its own time.
pub proof fn law_planned_events_go_on_from_the_last(
    task_id: TaskId,
    kinds: Seq<TaskEventKind>,
    existing: i64,
    last: i64,
    max_events: nat,
    times: Seq<u64>,
    i: int,
)
    requires
        storage::append_plan(task_id, kinds, existing, last, max_events, times) is Ok,
        0 <= i < kinds.len(),
    ensures
        ({
            let planned = storage::append_plan(
                task_id,
                kinds,
                existing,
                last,
                max_events,
                times,
            )->Ok_0;
            &&& planned.len() == kinds.len()
            &&& planned[i].sequence == last + 1 + i
            &&& planned[i].kind == kinds[i]
            &&& planned[i].task_id == task_id
            &&& planned[i].occurred_at_unix_ms == times[i]
            &&& existing + kinds.len() <= max_events
        }),
{
}

/// A batch is planned wherever the counts are sane, the limit leaves room for all of it, and
/// numbers and times fit their columns. One that the limit leaves no room for is refused as such.
pub proof fn law_batches_that_fit_are_planned(
    task_id: TaskId,
    kinds: Seq<TaskEventKind>,
    existing: i64,
    last: i64,
    max_events: nat,
    times: Seq<u64>,
)
    requires
        0 <= existing <= usize::MAX,
    ensures
        0 <= last && existing + kinds.len() <= max_events && last + kinds.len() <= i64::MAX && (
        forall|i: int| 0 <= i < kinds.len() ==> #[trigger] times[i] <= i64::MAX)
            ==> storage::append_plan(task_id, kinds, existing, last, max_events, times) is Ok,
        kinds.len() > 0 && existing + kinds.len() > max_events ==> storage::append_plan(
            task_id,
            kinds,
            existing,
            last,
            max_events,
            times,
        ) == Err::<Seq<TaskEvent>, EventStoreError>(EventStoreError::CapacityExceeded),
        kinds.len() > 0 && 0 <= last && existing + kinds.len() <= max_events && last + kinds.len()
            > i64::MAX ==> storage::append_plan(
            task_id,
            kinds,
            existing,
            last,
            max_events,
            times,
        ) == Err::<Seq<TaskEvent>, EventStoreError>(EventStoreError::SequenceExhausted),
{
}

/// A row reads as an event exactly where its numbers are not negative and its kind was read, and
/// then as the event with these values.
pub proof fn law_rows_read_as_what_they_hold(task_id: TaskId, row: StoredRow)
    ensures
        storage::row_event(task_id, row) is Ok <==> row.sequence >= 0 && row.occurred_at_unix_ms
            >= 0 && row.kind is Some,
        storage::row_event(task_id, row) is Ok ==> {
            let event = storage::row_event(task_id, row)->Ok_0;
            event.task_id == task_id && event.sequence == row.sequence
                && event.occurred_at_unix_ms == row.occurred_at_unix_ms && Some(event.kind)
                == row.kind
        },
        storage::row_event(task_id, row) is Err ==> storage::row_event(task_id, row)->Err_0
            == EventStoreError::Corrupt,
{
}

/// A log that was extended has the events that it had, then one for each kind, in their order,
/// numbered on by one each, of the task; the events of other tasks stay.
pub proof fn law_logs_grow_at_their_end(
    old: EventLog,
    new: EventLog,
    task: u128,
    kinds: Seq<TaskEventKind>,
    i: int,
    other: u128,
)
    requires
        event::log_extended(old, new, task, kinds),
        other != task,
    ensures
        ({
            let before = event::events_of(old, task);
            let after = event::events_of(new, task);
            &&& after.len() == before.len() + kinds.len()
            &&& 0 <= i < before.len() ==> after[i] == before[i]
            &&& 0 <= i < kinds.len() ==> after[before.len() + i].sequence == before.len() + i + 1
                && after[before.len() + i].kind == kinds[i] && after[before.len()
                + i].task_id.value == task
            &&& event::events_of(new, other) == event::events_of(old, other)
        }),
{
    let before = event::events_of(old, task);
    let after = event::events_of(new, task);
    if kinds.len() > 0 {
        if 0 <= i < before.len() {
            assert(after.take(before.len() as int)[i] == after[i]);
        }
        if 0 <= i < kinds.len() {
            assert(after[before.len() + i].kind == kinds[i]);
        }
        assert(new == old.insert(task, after));
    }
}

} // verus!
