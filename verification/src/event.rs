//! Audit events and the append-only stores that hold them.

use vstd::prelude::*;

use crate::error::ErrorCode;
use crate::idmap::IdMap;
use crate::ids::{ApprovalId, OperationId, TaskId};
use crate::policy::DenialReason;
use crate::state::TaskState;
use crate::time::unix_time_ms;

verus! {

pub const DEFAULT_MAX_EVENTS_PER_TASK: usize = 10_000;

/// Metadata recorded for a task lifecycle change.
#[derive(Clone, Copy, Debug, PartialEq, Eq, Structural)]
pub struct TaskEvent {
    pub task_id: TaskId,
    pub sequence: u64,
    pub occurred_at_unix_ms: u64,
    pub kind: TaskEventKind,
}

/// Audit-safe event payloads. Task goals and capability values are excluded.
#[derive(Clone, Copy, Debug, PartialEq, Eq, Structural)]
pub enum TaskEventKind {
    Submitted,
    StateTransitioned { from: TaskState, to: TaskState },
    ValidationFailed { error_count: usize },
    TaskFailed { code: ErrorCode },
    OperationAllowed,
    OperationDenied { reason: DenialReason },
    ApprovalRequested { approval_id: ApprovalId, operation_id: OperationId },
    ApprovalGranted { approval_id: ApprovalId, operation_id: OperationId },
    ApprovalDenied { approval_id: ApprovalId, operation_id: OperationId },
    ApprovalExpired { approval_id: ApprovalId, operation_id: OperationId },
    ApprovalRevoked { approval_id: ApprovalId, operation_id: OperationId },
    ApprovalConsumed { approval_id: ApprovalId, operation_id: OperationId },
}

/// Event persistence failure without leaking backend details to API callers.
#[derive(Clone, Copy, Debug, PartialEq, Eq, Structural)]
pub enum EventStoreError {
    CapacityExceeded,
    SequenceExhausted,
    Corrupt,
    InsecurePermissions,
    Unavailable,
}

impl EventStoreError {
    /// The text of the failure.
    pub open spec fn text(self) -> Seq<char> {
        match self {
            EventStoreError::CapacityExceeded => "event capacity exceeded"@,
            EventStoreError::SequenceExhausted => "event sequence exhausted"@,
            EventStoreError::Corrupt => "event store data is corrupt"@,
            EventStoreError::InsecurePermissions => "event store permissions are insecure"@,
            EventStoreError::Unavailable => "event store unavailable"@,
        }
    }

    /// The text of the failure.
    #[must_use]
    pub fn display(&self) -> (r: &'static str)
        ensures
            r@ == self.text(),
    {
        match self {
            EventStoreError::CapacityExceeded => "event capacity exceeded",
            EventStoreError::SequenceExhausted => "event sequence exhausted",
            EventStoreError::Corrupt => "event store data is corrupt",
            EventStoreError::InsecurePermissions => "event store permissions are insecure",
            EventStoreError::Unavailable => "event store unavailable",
        }
    }
}

impl TaskEvent {
    /// Creates an event that occurred at a given wall-clock time.
    pub fn at(
        task_id: TaskId,
        sequence: u64,
        occurred_at_unix_ms: u64,
        kind: TaskEventKind,
    ) -> (r: Result<TaskEvent, EventStoreError>)
        ensures
            r == if sequence == 0 {
                Err::<TaskEvent, EventStoreError>(EventStoreError::SequenceExhausted)
            } else {
                Ok((TaskEvent { task_id, sequence, occurred_at_unix_ms, kind }))
            },
    {
        if sequence == 0 {
            return Err(EventStoreError::SequenceExhausted);
        }
        Ok(TaskEvent { task_id, sequence, occurred_at_unix_ms, kind })
    }

    /// Creates an event using the current wall-clock time.
    pub fn now(task_id: TaskId, sequence: u64, kind: TaskEventKind) -> (r: Result<
        TaskEvent,
        EventStoreError,
    >)
        ensures
            sequence == 0 ==> r == Err::<TaskEvent, EventStoreError>(
                EventStoreError::SequenceExhausted,
            ),
            sequence != 0 ==> r is Ok && r->Ok_0.task_id == task_id && r->Ok_0.sequence == sequence
                && r->Ok_0.kind == kind,
    {
        TaskEvent::at(task_id, sequence, unix_time_ms(), kind)
    }
}

/// What a store holds: for each task its events, oldest first.
pub type EventLog = Map<u128, Seq<TaskEvent>>;

/// The events of one task; none for a task that the store does not know.
pub open spec fn events_of(log: EventLog, task: u128) -> Seq<TaskEvent> {
    if log.contains_key(task) {
        log[task]
    } else {
        Seq::<TaskEvent>::empty()
    }
}

/// Whether `new` is `old` with one batch appended to the events of one task: the kinds in
/// their order, numbered on from the events that were there.
pub open spec fn log_extended(
    old: EventLog,
    new: EventLog,
    task: u128,
    kinds: Seq<TaskEventKind>,
) -> bool {
    let before = events_of(old, task);
    let after = events_of(new, task);
    if kinds.len() == 0 {
        new == old
    } else {
        &&& new == old.insert(task, after)
        &&& after.len() == before.len() + kinds.len()
        &&& after.take(before.len() as int) == before
        &&& forall|i: int|
            0 <= i < kinds.len() ==> {
                let event = #[trigger] after[before.len() + i];
                &&& event.task_id.value == task
                &&& event.sequence == before.len() + i + 1
                &&& event.kind == kinds[i]
            }
    }
}

/// Whether the events of every task are numbered from one without gaps.
pub open spec fn log_contiguous(log: EventLog) -> bool {
    forall|task: u128, i: int|
        #![trigger log[task][i]]
        log.contains_key(task) && 0 <= i < log[task].len() ==> log[task][i].sequence == i + 1
            && log[task][i].task_id.value == task
}

/// Appending keeps every event that was there, and the numbering without gaps.
pub proof fn law_append_only_and_contiguous(
    old: EventLog,
    new: EventLog,
    task: u128,
    kinds: Seq<TaskEventKind>,
)
    requires
        log_contiguous(old),
        log_extended(old, new, task, kinds),
    ensures
        log_contiguous(new),
        forall|t: u128| #[trigger]
            events_of(old, t) == events_of(new, t).take(events_of(old, t).len() as int),
        forall|t: u128| t != task ==> #[trigger] events_of(new, t) == events_of(old, t),
{
    let before = events_of(old, task);
    assert forall|t: u128| #[trigger]
        events_of(old, t) == events_of(new, t).take(events_of(old, t).len() as int) by {
        if t != task || kinds.len() == 0 {
            assert(events_of(new, t) == events_of(old, t));
            assert(events_of(old, t).take(events_of(old, t).len() as int) =~= events_of(old, t));
        }
    }
    if kinds.len() > 0 {
        assert forall|t: u128, i: int|
            #![trigger new[t][i]]
            new.contains_key(t) && 0 <= i < new[t].len() implies new[t][i].sequence == i + 1
            && new[t][i].task_id.value == t by {
            if t == task {
                let after = events_of(new, task);
                if i < before.len() {
                    assert(after.take(before.len() as int)[i] == after[i]);
                    assert(old[t][i] == before[i]);
                } else {
                    let k = i - before.len();
                    assert(after[before.len() + k] == after[i]);
                }
            } else {
                assert(old[t][i] == new[t][i]);
            }
        }
    }
}

/// Append-only storage used by the task supervisor.
///
/// An implementation appends a batch whole or not at all. `admits` says for which batches
/// it promises to succeed; a store that depends on outside resources promises nothing.
pub trait EventStore {
    /// What the store holds.
    spec fn log(&self) -> EventLog;

    /// Whether the store promises to take `count` more events for a task. A store that says
    /// nothing here promises nothing.
    open spec fn admits(&self, task: u128, count: nat) -> bool {
        false
    }

    /// Whether the store promises to list the events of a task. A store that says nothing here
    /// promises nothing.
    open spec fn reads(&self, task: u128) -> bool {
        false
    }

    /// Atomically appends all event kinds for one task.
    fn append_batch(&mut self, task_id: TaskId, kinds: &[TaskEventKind]) -> (r: Result<
        Vec<TaskEvent>,
        EventStoreError,
    >)
        ensures
            r is Ok ==> log_extended(old(self).log(), final(self).log(), task_id.value, kinds@)
                && (r->Ok_0)@ == events_of(final(self).log(), task_id.value).skip(
                events_of(old(self).log(), task_id.value).len() as int,
            ),
            r is Err ==> final(self).log() == old(self).log() && !old(self).admits(
                task_id.value,
                kinds@.len(),
            ),
            forall|task: u128, count: nat|
                old(self).admits(
                    task,
                    count + (if r is Ok && task == task_id.value {
                        kinds@.len()
                    } else {
                        0
                    }),
                ) ==> #[trigger] final(self).admits(task, count),
            forall|task: u128| old(self).reads(task) ==> #[trigger] final(self).reads(task),
    ;

    /// Returns events with a sequence greater than `after_sequence`.
    fn list(&self, task_id: TaskId, after_sequence: u64) -> (r: Result<
        Vec<TaskEvent>,
        EventStoreError,
    >)
        ensures
            r is Ok ==> (r->Ok_0)@ == events_of(self.log(), task_id.value).filter(
                |event: TaskEvent| event.sequence > after_sequence,
            ),
            self.reads(task_id.value) ==> r is Ok,
    ;
}

/// How many events of a task a log gained.
pub open spec fn grown(old: EventLog, new: EventLog, task: u128) -> nat {
    (events_of(new, task).len() - events_of(old, task).len()) as nat
}

/// Whether a store that lost no events keeps its promises: what it promised to take beyond the
/// events that it gained, it still promises, and what it promised to list.
pub open spec fn carries<S: EventStore>(old: S, new: S) -> bool {
    &&& forall|task: u128| #[trigger]
        events_of(new.log(), task).len() >= events_of(old.log(), task).len()
    &&& forall|task: u128, count: nat|
        old.admits(task, count + grown(old.log(), new.log(), task)) ==> #[trigger] new.admits(
            task,
            count,
        )
    &&& forall|task: u128| old.reads(task) ==> #[trigger] new.reads(task)
}

/// Promises are kept over several steps where each step keeps them.
pub proof fn lemma_carries_on<S: EventStore>(a: S, b: S, c: S)
    requires
        carries(a, b),
        carries(b, c),
    ensures
        carries(a, c),
{
    assert forall|task: u128| #[trigger] events_of(c.log(), task).len() >= events_of(
        a.log(),
        task,
    ).len() by {
        assert(events_of(b.log(), task).len() >= events_of(a.log(), task).len());
    }
    assert forall|task: u128, count: nat|
        a.admits(task, count + grown(a.log(), c.log(), task)) implies #[trigger] c.admits(
        task,
        count,
    ) by {
        assert(events_of(c.log(), task).len() >= events_of(b.log(), task).len());
        assert(events_of(b.log(), task).len() >= events_of(a.log(), task).len());
        let later = count + grown(b.log(), c.log(), task);
        assert(later + grown(a.log(), b.log(), task) == count + grown(a.log(), c.log(), task));
        assert(b.admits(task, later));
    }
}

/// The events of one task in an [`InMemoryEventStore`].
struct TaskLog {
    events: Vec<TaskEvent>,
}

impl View for TaskLog {
    type V = Seq<TaskEvent>;

    closed spec fn view(&self) -> Seq<TaskEvent> {
        self.events@
    }
}

/// Bounded, process-local event store.
pub struct InMemoryEventStore {
    events: IdMap<TaskLog>,
    max_events_per_task: usize,
}

impl InMemoryEventStore {
    /// The strict per-task event limit.
    pub closed spec fn limit(&self) -> nat {
        self.max_events_per_task as nat
    }

    /// Creates a store with a strict per-task event limit.
    pub fn new(max_events_per_task: usize) -> (r: Result<InMemoryEventStore, EventStoreError>)
        ensures
            max_events_per_task == 0 ==> r is Err && r->Err_0 == EventStoreError::CapacityExceeded,
            max_events_per_task > 0 ==> r is Ok && r->Ok_0.limit() == max_events_per_task
                && r->Ok_0.log() == Map::<u128, Seq<TaskEvent>>::empty(),
    {
        if max_events_per_task == 0 {
            return Err(EventStoreError::CapacityExceeded);
        }
        Ok(InMemoryEventStore { events: IdMap::new(), max_events_per_task })
    }

    /// The tasks that the store has events of, in ascending order.
    pub fn task_ids(&self) -> (r: Vec<u128>)
        ensures
            crate::idmap::lists_ascending(r@, self.log().dom()),
    {
        self.events.ids()
    }

    /// All events of one task.
    pub fn task_events(&self, task_id: TaskId) -> (r: Vec<TaskEvent>)
        ensures
            r@ == events_of(self.log(), task_id.value),
    {
        let mut out: Vec<TaskEvent> = Vec::new();
        match self.events.get(task_id.value) {
            Some(log) => {
                let mut i: usize = 0;
                while i < log.events.len()
                    invariant
                        i <= log.events@.len(),
                        out@ == log.events@.take(i as int),
                    decreases log.events@.len() - i,
                {
                    out.push(log.events[i]);
                    i = i + 1;
                    assert(out@ =~= log.events@.take(i as int));
                }
                assert(out@ =~= log.events@);
            },
            None => {
                assert(out@ =~= Seq::<TaskEvent>::empty());
            },
        }
        out
    }
}

impl Default for InMemoryEventStore {
    fn default() -> (r: Self)
        ensures
            r.limit() == DEFAULT_MAX_EVENTS_PER_TASK,
            r.log() == Map::<u128, Seq<TaskEvent>>::empty(),
    {
        InMemoryEventStore {
            events: IdMap::new(),
            max_events_per_task: DEFAULT_MAX_EVENTS_PER_TASK,
        }
    }
}

impl EventStore for InMemoryEventStore {
    closed spec fn log(&self) -> EventLog {
        self.events@
    }

    open spec fn reads(&self, task: u128) -> bool {
        true
    }

    open spec fn admits(&self, task: u128, count: nat) -> bool {
        count == 0 || events_of(self.log(), task).len() + count <= self.limit()
    }

    fn append_batch(&mut self, task_id: TaskId, kinds: &[TaskEventKind]) -> (r: Result<
        Vec<TaskEvent>,
        EventStoreError,
    >)
        ensures
            final(self).limit() == old(self).limit(),
            r is Ok <==> old(self).admits(task_id.value, kinds@.len()),
            r is Err ==> r->Err_0 == EventStoreError::CapacityExceeded,
    {
        let ghost start = self.log();
        let ghost before = events_of(start, task_id.value);
        if kinds.len() == 0 {
            let none: Vec<TaskEvent> = Vec::new();
            assert(none@ =~= before.skip(before.len() as int));
            return Ok(none);
        }
        let existing_length: usize = match self.events.get(task_id.value) {
            Some(log) => log.events.len(),
            None => 0,
        };
        assert(existing_length == before.len());
        if kinds.len() > self.max_events_per_task || existing_length > self.max_events_per_task
            - kinds.len() {
            return Err(EventStoreError::CapacityExceeded);
        }
        let mut appended: Vec<TaskEvent> = Vec::new();
        let mut i: usize = 0;
        while i < kinds.len()
            invariant
                i <= kinds@.len(),
                existing_length + kinds@.len() <= self.max_events_per_task,
                appended@.len() == i,
                forall|k: int|
                    0 <= k < i ==> {
                        let event = #[trigger] appended@[k];
                        &&& event.task_id == task_id
                        &&& event.sequence == existing_length + k + 1
                        &&& event.kind == kinds@[k]
                    },
            decreases kinds@.len() - i,
        {
            let sequence: u64 = existing_length as u64 + i as u64 + 1;
            appended.push(
                TaskEvent {
                    task_id,
                    sequence,
                    occurred_at_unix_ms: unix_time_ms(),
                    kind: kinds[i],
                },
            );
            i = i + 1;
        }
        let mut events: Vec<TaskEvent> = match self.events.remove(task_id.value) {
            Some(log) => log.events,
            None => Vec::new(),
        };
        assert(events@ == before);
        let mut j: usize = 0;
        while j < appended.len()
            invariant
                j <= appended@.len(),
                events@ == before + appended@.take(j as int),
            decreases appended@.len() - j,
        {
            events.push(appended[j]);
            j = j + 1;
            assert(events@ =~= before + appended@.take(j as int));
        }
        self.events.insert(task_id.value, TaskLog { events });
        proof {
            let after = events_of(self.log(), task_id.value);
            assert(appended@.take(appended@.len() as int) =~= appended@);
            assert(after == before + appended@);
            assert(after.skip(before.len() as int) =~= appended@);
            assert(after.take(before.len() as int) =~= before);
            assert(self.log() =~= start.insert(task_id.value, after));
            assert forall|k: int| 0 <= k < kinds@.len() implies {
                let event = #[trigger] after[before.len() + k];
                &&& event.task_id.value == task_id.value
                &&& event.sequence == before.len() + k + 1
                &&& event.kind == kinds@[k]
            } by {
                assert(after[before.len() + k] == appended@[k]);
            }
        }
        Ok(appended)
    }

    fn list(&self, task_id: TaskId, after_sequence: u64) -> (r: Result<
        Vec<TaskEvent>,
        EventStoreError,
    >)
        ensures
            r is Ok,
    {
        let ghost keep = |event: TaskEvent| event.sequence > after_sequence;
        let mut out: Vec<TaskEvent> = Vec::new();
        match self.events.get(task_id.value) {
            Some(log) => {
                let ghost all = log.events@;
                let mut i: usize = 0;
                assert(all.take(0).filter(keep) =~= Seq::<TaskEvent>::empty()) by {
                    reveal(Seq::filter);
                }
                while i < log.events.len()
                    invariant
                        i <= log.events@.len(),
                        all == log.events@,
                        keep == (|event: TaskEvent| event.sequence > after_sequence),
                        out@ == all.take(i as int).filter(keep),
                    decreases log.events@.len() - i,
                {
                    proof {
                        let next = all.take(i + 1);
                        assert(next.drop_last() =~= all.take(i as int));
                        assert(next.last() == all[i as int]);
                        reveal(Seq::filter);
                    }
                    let event = log.events[i];
                    if event.sequence > after_sequence {
                        out.push(event);
                    }
                    i = i + 1;
                }
                assert(all.take(i as int) =~= all);
            },
            None => {
                assert(Seq::<TaskEvent>::empty().filter(keep) =~= Seq::<TaskEvent>::empty()) by {
                    reveal(Seq::filter);
                }
            },
        }
        Ok(out)
    }
}

/// The events of every task stay within the limit: a batch that is admitted keeps them there.
pub proof fn law_task_events_stay_bounded(
    store: InMemoryEventStore,
    new: EventLog,
    task: u128,
    kinds: Seq<TaskEventKind>,
    other: u128,
)
    requires
        events_of(store.log(), other).len() <= store.limit(),
        store.admits(task, kinds.len()),
        log_extended(store.log(), new, task, kinds),
    ensures
        events_of(new, other).len() <= store.limit(),
{
}

/// Reading after a number gives exactly what was appended after it: where the numbering has
/// no gaps, listing after `after` skips the first `after` events.
pub proof fn law_list_resumes_after_a_number(log: EventLog, task: u128, after: u64)
    requires
        log_contiguous(log),
        after <= events_of(log, task).len(),
    ensures
        events_of(log, task).filter(|event: TaskEvent| event.sequence > after) == events_of(
            log,
            task,
        ).skip(after as int),
{
    let all = events_of(log, task);
    let keep = |event: TaskEvent| event.sequence > after;
    assert forall|i: int| 0 <= i < all.len() implies all[i].sequence == i + 1 by {
        assert(log[task][i] == all[i]);
    }
    lemma_filter_is_skip(all, keep, after as int, all.len() as int);
    assert(all.take(all.len() as int) =~= all);
}

proof fn lemma_filter_is_skip(
    all: Seq<TaskEvent>,
    keep: spec_fn(TaskEvent) -> bool,
    from: int,
    n: int,
)
    requires
        0 <= from,
        0 <= n <= all.len(),
        forall|i: int| 0 <= i < all.len() ==> keep(#[trigger] all[i]) == (i >= from),
    ensures
        all.take(n).filter(keep) == (if n <= from {
            Seq::<TaskEvent>::empty()
        } else {
            all.take(n).skip(from)
        }),
    decreases n,
{
    reveal(Seq::filter);
    let part = all.take(n);
    if n > 0 {
        lemma_filter_is_skip(all, keep, from, n - 1);
        assert(part.drop_last() =~= all.take(n - 1));
        assert(part.last() == all[n - 1]);
        if n - 1 >= from {
            assert(part.skip(from) =~= (if n - 1 <= from {
                Seq::<TaskEvent>::empty()
            } else {
                all.take(n - 1).skip(from)
            }).push(all[n - 1]));
        }
    } else {
        assert(part.filter(keep) =~= Seq::<TaskEvent>::empty());
        if n > from {
            assert(part.skip(from) =~= Seq::<TaskEvent>::empty());
        }
    }
}

} // verus!
