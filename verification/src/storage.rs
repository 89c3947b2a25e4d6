//! What a database-backed event store decides.
//!
//! A database holds one row for each audit event: the task, the sequence, the time and the
//! event payload. The store itself runs the statements; what is written, what a row means, and
//! which databases are refused is decided here.

use vstd::prelude::*;

use crate::event;
use crate::event::{EventLog, EventStoreError, TaskEvent, TaskEventKind};
use crate::ids::TaskId;
use crate::time::unix_time_ms;

verus! {

pub const SCHEMA_VERSION: i64 = 1;

pub const DEFAULT_BUSY_TIMEOUT_SECONDS: u64 = 5;

/// The greatest number that a database column holds.
pub const MAX_COLUMN: u64 = 0x7fff_ffff_ffff_ffff;

// -------------------------------------------------------------------- schema

/// What is to be done about the schema of a database.
#[derive(Clone, Copy, Debug, PartialEq, Eq, Structural)]
pub enum SchemaAction {
    Create,
    Keep,
}

/// What is done with a database of a schema version.
pub open spec fn schema_step(version: i64) -> Result<SchemaAction, EventStoreError> {
    if version == 0 {
        Ok(SchemaAction::Create)
    } else if version == SCHEMA_VERSION {
        Ok(SchemaAction::Keep)
    } else {
        Err(EventStoreError::Corrupt)
    }
}

/// A new database gets the schema, a database with the schema keeps it, and any other is
/// refused.
pub fn schema_action(version: i64) -> (r: Result<SchemaAction, EventStoreError>)
    ensures
        r == schema_step(version),
{
    if version == 0 {
        Ok(SchemaAction::Create)
    } else if version == SCHEMA_VERSION {
        Ok(SchemaAction::Keep)
    } else {
        Err(EventStoreError::Corrupt)
    }
}

/// A store holds at least one event of a task.
pub fn validate_event_limit(max_events_per_task: usize) -> (r: Result<(), EventStoreError>)
    ensures
        r is Ok <==> max_events_per_task > 0,
        r is Err ==> r->Err_0 == EventStoreError::CapacityExceeded,
{
    if max_events_per_task == 0 {
        return Err(EventStoreError::CapacityExceeded);
    }
    Ok(())
}

/// Whether a file may hold the events: a real, regular file that nobody but its owner may use.
pub open spec fn private_file(symlink: bool, regular: bool, mode: u32) -> bool {
    !symlink && regular && mode & 0o077 == 0
}

/// Whether an existing database file may be opened: a regular file, no symbolic link, and
/// nothing permitted to its group or to others.
pub fn check_database_file(symlink: bool, regular: bool, mode: u32) -> (r: Result<
    (),
    EventStoreError,
>)
    ensures
        r is Ok <==> private_file(symlink, regular, mode),
        r is Err ==> r->Err_0 == EventStoreError::InsecurePermissions,
{
    if symlink || !regular || mode & 0o077 != 0 {
        return Err(EventStoreError::InsecurePermissions);
    }
    Ok(())
}

// -------------------------------------------------------------------- append

/// The events that a batch appends after `existing` events, of which the last has the number
/// `last`, where event `i` occurs at `times[i]`.
pub open spec fn append_plan(
    task_id: TaskId,
    kinds: Seq<TaskEventKind>,
    existing: i64,
    last: i64,
    max_events: nat,
    times: Seq<u64>,
) -> Result<Seq<TaskEvent>, EventStoreError> {
    if kinds.len() == 0 {
        Ok(Seq::<TaskEvent>::empty())
    } else if existing < 0 || existing > usize::MAX {
        Err(EventStoreError::Corrupt)
    } else if existing + kinds.len() > max_events {
        Err(EventStoreError::CapacityExceeded)
    } else if last < 0 {
        Err(EventStoreError::Corrupt)
    } else if last + kinds.len() > MAX_COLUMN || exists|i: int|
        0 <= i < kinds.len() && #[trigger] times[i] > MAX_COLUMN {
        Err(EventStoreError::SequenceExhausted)
    } else {
        Ok(
            Seq::new(
                kinds.len(),
                |i: int|
                    TaskEvent {
                        task_id,
                        sequence: (last + 1 + i) as u64,
                        occurred_at_unix_ms: times[i],
                        kind: kinds[i],
                    },
            ),
        )
    }
}

/// Plans a batch whose events occur at given times.
pub fn plan_append_at(
    task_id: TaskId,
    kinds: &[TaskEventKind],
    existing_count: i64,
    last_sequence: i64,
    max_events_per_task: usize,
    times: &Vec<u64>,
) -> (r: Result<Vec<TaskEvent>, EventStoreError>)
    requires
        times@.len() == kinds@.len(),
    ensures
        append_plan(
            task_id,
            kinds@,
            existing_count,
            last_sequence,
            max_events_per_task as nat,
            times@,
        ) == (match r {
            Ok(events) => Ok::<Seq<TaskEvent>, EventStoreError>(events@),
            Err(error) => Err(error),
        }),
{
    let mut events: Vec<TaskEvent> = Vec::new();
    if kinds.len() == 0 {
        assert(events@ =~= Seq::<TaskEvent>::empty());
        return Ok(events);
    }
    if existing_count < 0 || existing_count as u64 > usize::MAX as u64 {
        return Err(EventStoreError::Corrupt);
    }
    match (existing_count as usize).checked_add(kinds.len()) {
        None => {
            return Err(EventStoreError::CapacityExceeded);
        },
        Some(resulting) => {
            if resulting > max_events_per_task {
                return Err(EventStoreError::CapacityExceeded);
            }
        },
    }
    if last_sequence < 0 {
        return Err(EventStoreError::Corrupt);
    }
    let last: u64 = last_sequence as u64;
    if kinds.len() as u64 > MAX_COLUMN - last {
        return Err(EventStoreError::SequenceExhausted);
    }
    let ghost planned = Seq::new(
        kinds@.len(),
        |i: int|
            TaskEvent {
                task_id,
                sequence: (last_sequence + 1 + i) as u64,
                occurred_at_unix_ms: times@[i],
                kind: kinds@[i],
            },
    );
    let mut i: usize = 0;
    while i < kinds.len()
        invariant
            i <= kinds@.len(),
            times@.len() == kinds@.len(),
            last == last_sequence,
            last + kinds@.len() <= MAX_COLUMN,
            planned.len() == kinds@.len(),
            forall|k: int|
                0 <= k < kinds@.len() ==> #[trigger] planned[k] == (TaskEvent {
                    task_id,
                    sequence: (last_sequence + 1 + k) as u64,
                    occurred_at_unix_ms: times@[k],
                    kind: kinds@[k],
                }),
            events@ == planned.take(i as int),
            forall|k: int| 0 <= k < i ==> #[trigger] times@[k] <= MAX_COLUMN,
            append_plan(
                task_id,
                kinds@,
                existing_count,
                last_sequence,
                max_events_per_task as nat,
                times@,
            ) == (if exists|k: int| 0 <= k < kinds@.len() && #[trigger] times@[k] > MAX_COLUMN {
                Err::<Seq<TaskEvent>, EventStoreError>(EventStoreError::SequenceExhausted)
            } else {
                Ok(planned)
            }),
        decreases kinds@.len() - i,
    {
        if times[i] > MAX_COLUMN {
            return Err(EventStoreError::SequenceExhausted);
        }
        events.push(
            TaskEvent {
                task_id,
                sequence: last + 1 + i as u64,
                occurred_at_unix_ms: times[i],
                kind: kinds[i],
            },
        );
        assert(events@ =~= planned.take(i + 1));
        i = i + 1;
    }
    assert(planned.take(i as int) =~= planned);
    Ok(events)
}

/// Plans a batch whose events occur now.
pub fn plan_append(
    task_id: TaskId,
    kinds: &[TaskEventKind],
    existing_count: i64,
    last_sequence: i64,
    max_events_per_task: usize,
) -> (r: Result<Vec<TaskEvent>, EventStoreError>)
    ensures
        exists|times: Seq<u64>|
            times.len() == kinds@.len() && #[trigger] append_plan(
                task_id,
                kinds@,
                existing_count,
                last_sequence,
                max_events_per_task as nat,
                times,
            ) == (match r {
                Ok(events) => Ok::<Seq<TaskEvent>, EventStoreError>(events@),
                Err(error) => Err(error),
            }),
{
    let mut times: Vec<u64> = Vec::new();
    let mut i: usize = 0;
    while i < kinds.len()
        invariant
            i <= kinds@.len(),
            times@.len() == i,
        decreases kinds@.len() - i,
    {
        times.push(unix_time_ms());
        i = i + 1;
    }
    plan_append_at(task_id, kinds, existing_count, last_sequence, max_events_per_task, &times)
}

// ---------------------------------------------------------------------- read

/// One row of a task: the numbers as the database holds them, and the payload where it could
/// be decoded.
#[derive(Clone, Copy, Debug, PartialEq, Eq, Structural)]
pub struct StoredRow {
    pub sequence: i64,
    pub occurred_at_unix_ms: i64,
    pub kind: Option<TaskEventKind>,
}

/// The event that a row holds.
pub open spec fn row_event(task_id: TaskId, row: StoredRow) -> Result<TaskEvent, EventStoreError> {
    if row.sequence < 0 || row.occurred_at_unix_ms < 0 {
        Err(EventStoreError::Corrupt)
    } else {
        match row.kind {
            None => Err(EventStoreError::Corrupt),
            Some(kind) => Ok(
                TaskEvent {
                    task_id,
                    sequence: row.sequence as u64,
                    occurred_at_unix_ms: row.occurred_at_unix_ms as u64,
                    kind,
                },
            ),
        }
    }
}

/// The row that an event is written as.
pub open spec fn event_row(event: TaskEvent) -> StoredRow {
    StoredRow {
        sequence: event.sequence as i64,
        occurred_at_unix_ms: event.occurred_at_unix_ms as i64,
        kind: Some(event.kind),
    }
}

/// Whether a number fits the columns that hold numbers.
pub open spec fn fits_column(n: u64) -> bool {
    n <= MAX_COLUMN
}

/// The row that an event is written as, if it can be.
pub open spec fn written_row(event: TaskEvent) -> Result<StoredRow, EventStoreError> {
    if fits_column(event.sequence) && fits_column(event.occurred_at_unix_ms) {
        Ok(event_row(event))
    } else {
        Err(EventStoreError::SequenceExhausted)
    }
}

/// The row that an event is written as, where its numbers fit the columns.
pub fn encode_row(event: &TaskEvent) -> (r: Result<StoredRow, EventStoreError>)
    ensures
        r == written_row(*event),
{
    if event.sequence > MAX_COLUMN || event.occurred_at_unix_ms > MAX_COLUMN {
        return Err(EventStoreError::SequenceExhausted);
    }
    Ok(
        StoredRow {
            sequence: event.sequence as i64,
            occurred_at_unix_ms: event.occurred_at_unix_ms as i64,
            kind: Some(event.kind),
        },
    )
}

/// Reads one row.
pub fn decode_row(task_id: TaskId, row: StoredRow) -> (r: Result<TaskEvent, EventStoreError>)
    ensures
        r == row_event(task_id, row),
{
    if row.sequence < 0 || row.occurred_at_unix_ms < 0 {
        return Err(EventStoreError::Corrupt);
    }
    match row.kind {
        None => Err(EventStoreError::Corrupt),
        Some(kind) => Ok(
            TaskEvent {
                task_id,
                sequence: row.sequence as u64,
                occurred_at_unix_ms: row.occurred_at_unix_ms as u64,
                kind,
            },
        ),
    }
}

/// Reads the rows of a task, all of them or none.
pub fn decode_rows(task_id: TaskId, rows: &Vec<StoredRow>) -> (r: Result<
    Vec<TaskEvent>,
    EventStoreError,
>)
    ensures
        r is Ok <==> forall|i: int|
            0 <= i < rows@.len() ==> row_event(task_id, #[trigger] rows@[i]) is Ok,
        r is Ok ==> (r->Ok_0)@ == rows@.map_values(
            |row: StoredRow| row_event(task_id, row)->Ok_0,
        ),
        r is Err ==> r->Err_0 == EventStoreError::Corrupt,
{
    let mut events: Vec<TaskEvent> = Vec::new();
    let mut i: usize = 0;
    while i < rows.len()
        invariant
            i <= rows@.len(),
            events@.len() == i,
            forall|k: int|
                0 <= k < i ==> row_event(task_id, #[trigger] rows@[k]) == Ok::<
                    TaskEvent,
                    EventStoreError,
                >(events@[k]),
        decreases rows@.len() - i,
    {
        match decode_row(task_id, rows[i]) {
            Ok(event) => {
                events.push(event);
            },
            Err(error) => {
                return Err(error);
            },
        }
        i = i + 1;
    }
    assert(events@ =~= rows@.map_values(|row: StoredRow| row_event(task_id, row)->Ok_0));
    Ok(events)
}

/// The sequence after which rows are selected, as the database holds it.
pub fn list_cursor(after_sequence: u64) -> (r: Result<i64, EventStoreError>)
    ensures
        r is Ok <==> fits_column(after_sequence),
        r is Ok ==> r->Ok_0 == after_sequence,
        r is Err ==> r->Err_0 == EventStoreError::SequenceExhausted,
{
    if after_sequence > MAX_COLUMN {
        return Err(EventStoreError::SequenceExhausted);
    }
    Ok(after_sequence as i64)
}

// ---------------------------------------------------------------------- laws

/// Reading gives back what was written: each event of a planned batch fits its row, and the row
/// holds that event.
pub proof fn law_rows_read_back(
    task_id: TaskId,
    kinds: Seq<TaskEventKind>,
    existing: i64,
    last: i64,
    max_events: nat,
    times: Seq<u64>,
    i: int,
)
    requires
        append_plan(task_id, kinds, existing, last, max_events, times) is Ok,
        0 <= i < append_plan(task_id, kinds, existing, last, max_events, times)->Ok_0.len(),
    ensures
        ({
            let planned = append_plan(task_id, kinds, existing, last, max_events, times)->Ok_0[i];
            &&& 0 < planned.sequence <= MAX_COLUMN
            &&& planned.occurred_at_unix_ms <= MAX_COLUMN
            &&& row_event(task_id, event_row(planned)) == Ok::<TaskEvent, EventStoreError>(planned)
        }),
{
    assert(!(times[i] > MAX_COLUMN));
}

/// A planned batch extends the log: where the count and the last number that the database
/// reports are those of the events that it holds, the events with the batch behind them are the
/// log with that batch appended.
pub proof fn law_planned_batches_extend_the_log(
    log: EventLog,
    task_id: TaskId,
    kinds: Seq<TaskEventKind>,
    max_events: nat,
    times: Seq<u64>,
)
    requires
        kinds.len() > 0,
        event::events_of(log, task_id.value).len() <= MAX_COLUMN,
        append_plan(
            task_id,
            kinds,
            event::events_of(log, task_id.value).len() as i64,
            event::events_of(log, task_id.value).len() as i64,
            max_events,
            times,
        ) is Ok,
    ensures
        event::log_extended(
            log,
            log.insert(
                task_id.value,
                event::events_of(log, task_id.value) + append_plan(
                    task_id,
                    kinds,
                    event::events_of(log, task_id.value).len() as i64,
                    event::events_of(log, task_id.value).len() as i64,
                    max_events,
                    times,
                )->Ok_0,
            ),
            task_id.value,
            kinds,
        ),
{
    let before = event::events_of(log, task_id.value);
    let n = before.len() as i64;
    let planned = append_plan(task_id, kinds, n, n, max_events, times)->Ok_0;
    let new = log.insert(task_id.value, before + planned);
    assert(new =~= log.insert(task_id.value, event::events_of(new, task_id.value)));
    assert((before + planned).take(before.len() as int) =~= before);
    assert forall|i: int| 0 <= i < kinds.len() implies {
        let event = #[trigger] (before + planned)[before.len() + i];
        &&& event.task_id.value == task_id.value
        &&& event.sequence == before.len() + i + 1
        &&& event.kind == kinds[i]
    } by {
        assert((before + planned)[before.len() + i] == planned[i]);
    }
}

} // verus!
