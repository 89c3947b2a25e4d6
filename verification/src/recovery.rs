//! Replaying the audit events of a task to its latest state.

use vstd::prelude::*;

use crate::event;
use crate::event::{
    EventLog, EventStore, EventStoreError, InMemoryEventStore, TaskEvent, TaskEventKind,
};
use crate::ids::TaskId;
use crate::state::TaskState;

verus! {

/// Public, non-sensitive task state returned by the supervisor.
#[derive(Clone, Copy, Debug, PartialEq, Eq, Structural)]
pub struct TaskSnapshot {
    pub task_id: TaskId,
    pub state: TaskState,
}

/// What a prefix of the events of a task says: the state that it leads to, and whether it
/// ends in a failure category whose transition is still to come.
pub struct Replay {
    pub state: Option<TaskState>,
    pub pending_failure: bool,
}

/// Before any event.
pub open spec fn replay_start() -> Replay {
    Replay { state: None, pending_failure: false }
}

/// What one more event says; `None` where it cannot follow.
pub open spec fn replay_step(at: Replay, kind: TaskEventKind) -> Option<Replay> {
    if at.pending_failure {
        match kind {
            TaskEventKind::StateTransitioned { from, to } => if at.state == Some(from)
                && to == TaskState::Failed {
                Some(Replay { state: Some(to), pending_failure: false })
            } else {
                None
            },
            _ => None,
        }
    } else {
        let stays = match kind {
            TaskEventKind::ValidationFailed { .. } => at.state == Some(TaskState::Validating),
            TaskEventKind::OperationAllowed => at.state == Some(TaskState::Running),
            TaskEventKind::OperationDenied { .. } => at.state == Some(TaskState::Running),
            TaskEventKind::ApprovalRequested { .. } => at.state == Some(TaskState::Running),
            TaskEventKind::ApprovalConsumed { .. } => at.state == Some(TaskState::Running),
            TaskEventKind::ApprovalGranted { .. } => at.state == Some(TaskState::WaitingApproval),
            TaskEventKind::ApprovalDenied { .. } => at.state == Some(TaskState::WaitingApproval),
            TaskEventKind::ApprovalExpired { .. } => at.state == Some(TaskState::WaitingApproval),
            TaskEventKind::ApprovalRevoked { .. } => at.state == Some(TaskState::Running)
                || at.state == Some(TaskState::WaitingApproval),
            _ => false,
        };
        match kind {
            TaskEventKind::Submitted => if at.state is None {
                Some(Replay { state: Some(TaskState::Submitted), pending_failure: false })
            } else {
                None
            },
            TaskEventKind::StateTransitioned { from, to } => if at.state == Some(from)
                && from.may_become(to) {
                Some(Replay { state: Some(to), pending_failure: false })
            } else {
                None
            },
            TaskEventKind::TaskFailed { .. } => if at.state is Some && !at.state->0.terminal() {
                Some(Replay { state: at.state, pending_failure: true })
            } else {
                None
            },
            _ => if stays {
                Some(at)
            } else {
                None
            },
        }
    }
}

/// What a run of event kinds says, from a given point on.
pub open spec fn replay_from(at: Replay, kinds: Seq<TaskEventKind>) -> Option<Replay>
    decreases kinds.len(),
{
    if kinds.len() == 0 {
        Some(at)
    } else {
        match replay_step(at, kinds[0]) {
            Some(next) => replay_from(next, kinds.drop_first()),
            None => None,
        }
    }
}

/// The kinds of a list of events.
pub open spec fn kinds_of(events: Seq<TaskEvent>) -> Seq<TaskEventKind> {
    events.map_values(|event: TaskEvent| event.kind)
}

/// Whether events are numbered from one without gaps.
pub open spec fn numbered(events: Seq<TaskEvent>) -> bool {
    forall|i: int| 0 <= i < events.len() ==> (#[trigger] events[i]).sequence == i + 1
}

/// The state that a complete list of events leads to; `None` for a corrupt list.
pub open spec fn recovered(events: Seq<TaskEvent>) -> Option<TaskState> {
    if !numbered(events) {
        None
    } else {
        match replay_from(replay_start(), kinds_of(events)) {
            Some(at) => if at.pending_failure {
                None
            } else {
                at.state
            },
            None => None,
        }
    }
}

/// Replaying two runs is replaying the second from where the first led.
pub proof fn lemma_replay_concat(at: Replay, a: Seq<TaskEventKind>, b: Seq<TaskEventKind>)
    ensures
        replay_from(at, a + b) == (match replay_from(at, a) {
            Some(mid) => replay_from(mid, b),
            None => None::<Replay>,
        }),
    decreases a.len(),
{
    if a.len() == 0 {
        assert(a + b =~= b);
    } else {
        assert((a + b)[0] == a[0]);
        assert((a + b).drop_first() =~= a.drop_first() + b);
        if let Some(next) = replay_step(at, a[0]) {
            lemma_replay_concat(next, a.drop_first(), b);
        }
    }
}

proof fn lemma_replay_take(at: Replay, kinds: Seq<TaskEventKind>, i: int)
    requires
        0 <= i < kinds.len(),
    ensures
        replay_from(at, kinds.take(i + 1)) == (match replay_from(at, kinds.take(i)) {
            Some(mid) => replay_step(mid, kinds[i]),
            None => None::<Replay>,
        }),
{
    let one = seq![kinds[i]];
    assert(kinds.take(i + 1) =~= kinds.take(i) + one);
    lemma_replay_concat(at, kinds.take(i), one);
    if let Some(mid) = replay_from(at, kinds.take(i)) {
        assert(one.drop_first() =~= Seq::<TaskEventKind>::empty());
        reveal_with_fuel(replay_from, 2);
    }
}

proof fn lemma_replay_stuck(at: Replay, kinds: Seq<TaskEventKind>, i: int)
    requires
        0 <= i <= kinds.len(),
        replay_from(at, kinds.take(i)) is None,
    ensures
        replay_from(at, kinds) is None,
{
    assert(kinds =~= kinds.take(i) + kinds.skip(i));
    lemma_replay_concat(at, kinds.take(i), kinds.skip(i));
}

fn step(
    state: Option<TaskState>,
    pending_failure: bool,
    kind: TaskEventKind,
) -> (r: Option<(Option<TaskState>, bool)>)
    ensures
        replay_step((Replay { state, pending_failure }), kind) == (match r {
            Some((state, pending_failure)) => Some((Replay { state, pending_failure })),
            None => None::<Replay>,
        }),
{
    if pending_failure {
        return match (kind, state) {
            (TaskEventKind::StateTransitioned { from, to }, Some(current)) => {
                if current == from && to == TaskState::Failed {
                    Some((Some(to), false))
                } else {
                    None
                }
            },
            _ => None,
        };
    }
    match (kind, state) {
        (TaskEventKind::Submitted, None) => Some((Some(TaskState::Submitted), false)),
        (TaskEventKind::StateTransitioned { from, to }, Some(current)) => {
            if current == from && from.can_transition_to(to) {
                Some((Some(to), false))
            } else {
                None
            }
        },
        (TaskEventKind::ValidationFailed { .. }, Some(TaskState::Validating)) => {
            Some((state, false))
        },
        (TaskEventKind::TaskFailed { .. }, Some(current)) => {
            if current.is_terminal() {
                None
            } else {
                Some((state, true))
            }
        },
        (TaskEventKind::OperationAllowed, Some(TaskState::Running)) => Some((state, false)),
        (TaskEventKind::OperationDenied { .. }, Some(TaskState::Running)) => Some((state, false)),
        (TaskEventKind::ApprovalRequested { .. }, Some(TaskState::Running)) => {
            Some((state, false))
        },
        (TaskEventKind::ApprovalConsumed { .. }, Some(TaskState::Running)) => {
            Some((state, false))
        },
        (TaskEventKind::ApprovalGranted { .. }, Some(TaskState::WaitingApproval)) => {
            Some((state, false))
        },
        (TaskEventKind::ApprovalDenied { .. }, Some(TaskState::WaitingApproval)) => {
            Some((state, false))
        },
        (TaskEventKind::ApprovalExpired { .. }, Some(TaskState::WaitingApproval)) => {
            Some((state, false))
        },
        (TaskEventKind::ApprovalRevoked { .. }, Some(TaskState::Running)) => Some((state, false)),
        (TaskEventKind::ApprovalRevoked { .. }, Some(TaskState::WaitingApproval)) => {
            Some((state, false))
        },
        _ => None,
    }
}

/// Reconstructs the latest state of one task from all of its events.
///
/// A list that is too long to be numbered in 64 bits is refused as exhausted or corrupt.
pub fn recover_snapshot(task_id: TaskId, events: &[TaskEvent]) -> (r: Result<
    TaskSnapshot,
    EventStoreError,
>)
    ensures
        r is Ok ==> recovered(events@) is Some && r->Ok_0 == (TaskSnapshot {
            task_id,
            state: recovered(events@)->0,
        }),
        events@.len() < u64::MAX ==> (r is Ok <==> recovered(events@) is Some),
        events@.len() < u64::MAX && r is Err ==> r->Err_0 == EventStoreError::Corrupt,
{
    let mut state: Option<TaskState> = None;
    let mut expected_sequence: u64 = 1;
    let mut pending_failure = false;
    let ghost kinds = kinds_of(events@);
    let mut i: usize = 0;
    assert(kinds.take(0) =~= Seq::<TaskEventKind>::empty());
    while i < events.len()
        invariant
            i <= events@.len(),
            expected_sequence == i + 1,
            kinds == kinds_of(events@),
            forall|k: int| 0 <= k < i ==> (#[trigger] events@[k]).sequence == k + 1,
            replay_from(replay_start(), kinds.take(i as int)) == Some(
                (Replay { state, pending_failure }),
            ),
        decreases events@.len() - i,
    {
        let event = events[i];
        if event.sequence != expected_sequence {
            assert(!numbered(events@));
            return Err(EventStoreError::Corrupt);
        }
        if expected_sequence == 0xffff_ffff_ffff_ffff {
            return Err(EventStoreError::SequenceExhausted);
        }
        expected_sequence = expected_sequence + 1;
        proof {
            lemma_replay_take(replay_start(), kinds, i as int);
        }
        match step(state, pending_failure, event.kind) {
            Some((next, failing)) => {
                state = next;
                pending_failure = failing;
            },
            None => {
                proof {
                    lemma_replay_stuck(replay_start(), kinds, i + 1);
                }
                return Err(EventStoreError::Corrupt);
            },
        }
        i = i + 1;
    }
    assert(kinds.take(i as int) =~= kinds);
    if pending_failure {
        return Err(EventStoreError::Corrupt);
    }
    match state {
        Some(state) => Ok(TaskSnapshot { task_id, state }),
        None => Err(EventStoreError::Corrupt),
    }
}

/// Whether a list of snapshots tells the state of every task of a log, each once.
pub open spec fn snapshots_cover(log: EventLog, list: Seq<TaskSnapshot>) -> bool {
    &&& forall|i: int|
        0 <= i < list.len() ==> log.contains_key((#[trigger] list[i]).task_id.value) && recovered(
            log[list[i].task_id.value],
        ) == Some(list[i].state)
    &&& forall|i: int, j: int|
        0 <= i < j < list.len() ==> (#[trigger] list[i]).task_id != (#[trigger] list[j]).task_id
    &&& forall|task: u128| #[trigger]
        log.contains_key(task) ==> exists|i: int|
            0 <= i < list.len() && (#[trigger] list[i]).task_id.value == task
}

/// A store whose tasks can be found again after a restart.
pub trait RecoverableEventStore: EventStore {
    /// Whether the store promises to find its tasks again. A store that says nothing here
    /// promises nothing.
    open spec fn tells_tasks(&self) -> bool {
        false
    }

    /// Reconstructs the latest public state of every task from its events.
    ///
    /// This does not restore task input or resume execution.
    fn recover_task_snapshots(&self) -> (r: Result<Vec<TaskSnapshot>, EventStoreError>)
        ensures
            r is Ok ==> snapshots_cover(self.log(), (r->Ok_0)@),
            r is Err ==> !self.tells_tasks(),
    ;
}

impl RecoverableEventStore for InMemoryEventStore {
    /// The events of every task replay.
    open spec fn tells_tasks(&self) -> bool {
        forall|task: u128| #[trigger]
            self.log().contains_key(task) ==> self.log()[task].len() < u64::MAX && recovered(
                self.log()[task],
            ) is Some
    }

    fn recover_task_snapshots(&self) -> (r: Result<Vec<TaskSnapshot>, EventStoreError>)
        ensures
            r is Ok ==> forall|task: u128| #[trigger]
                self.log().contains_key(task) ==> recovered(self.log()[task]) is Some,
            r is Err && (forall|task: u128| #[trigger]
                self.log().contains_key(task) ==> self.log()[task].len() < u64::MAX) ==> exists|
                task: u128,
            |
                #[trigger] self.log().contains_key(task) && recovered(self.log()[task]) is None,
    {
        let ids = self.task_ids();
        let mut out: Vec<TaskSnapshot> = Vec::new();
        let mut i: usize = 0;
        while i < ids.len()
            invariant
                i <= ids@.len(),
                crate::idmap::lists_ascending(ids@, self.log().dom()),
                out@.len() == i,
                forall|k: int|
                    0 <= k < i ==> (#[trigger] out@[k]).task_id.value == ids@[k] && recovered(
                        self.log()[ids@[k]],
                    ) == Some(out@[k].state),
            decreases ids@.len() - i,
        {
            let task_id = TaskId { value: ids[i] };
            let ghost all = self.log()[task_id.value];
            proof {
                assert(ids@.to_set().contains(ids@[i as int]));
                assert(self.log().contains_key(task_id.value));
            }
            let events = self.task_events(task_id);
            match recover_snapshot(task_id, events.as_slice()) {
                Ok(snapshot) => {
                    out.push(snapshot);
                },
                Err(error) => {
                    return Err(error);
                },
            }
            i = i + 1;
        }
        proof {
            assert forall|a: int, b: int| 0 <= a < b < out@.len() implies (#[trigger] out@[a]).task_id
                != (#[trigger] out@[b]).task_id by {
                assert(ids@[a] < ids@[b]);
            }
            assert forall|task: u128| #[trigger] self.log().contains_key(task) implies exists|k: int|
                0 <= k < out@.len() && (#[trigger] out@[k]).task_id.value == task by {
                assert(ids@.to_set().contains(task));
                let k = choose|k: int| 0 <= k < ids@.len() && ids@[k] == task;
                assert(out@[k].task_id.value == task);
            }
            assert forall|task: u128| #[trigger] self.log().contains_key(task) implies recovered(
                self.log()[task],
            ) is Some by {
                let k = choose|k: int|
                    0 <= k < out@.len() && (#[trigger] out@[k]).task_id.value == task;
                assert(out@[k].task_id.value == ids@[k]);
            }
            assert forall|k: int| 0 <= k < out@.len() implies self.log().contains_key(
                (#[trigger] out@[k]).task_id.value,
            ) by {
                assert(ids@.to_set().contains(ids@[k]));
            }
        }
        Ok(out)
    }
}

/// Whether `new` is `old` with a batch of kinds of one task appended and numbered on.
pub open spec fn appended(
    task: u128,
    old: Seq<TaskEvent>,
    new: Seq<TaskEvent>,
    kinds: Seq<TaskEventKind>,
) -> bool {
    &&& new.len() == old.len() + kinds.len()
    &&& new.take(old.len() as int) == old
    &&& forall|i: int|
        0 <= i < kinds.len() ==> {
            let event = #[trigger] new[old.len() + i];
            &&& event.task_id.value == task
            &&& event.kind == kinds[i]
            &&& event.sequence == old.len() + i + 1
        }
}

/// Extending a log appends its batch to the events of its task.
pub proof fn lemma_log_extended_appends(
    old: EventLog,
    new: EventLog,
    task: u128,
    kinds: Seq<TaskEventKind>,
)
    requires
        event::log_extended(old, new, task, kinds),
    ensures
        appended(task, event::events_of(old, task), event::events_of(new, task), kinds),
{
    let before = event::events_of(old, task);
    if kinds.len() == 0 {
        assert(before.take(before.len() as int) =~= before);
    }
}

/// The state after a batch is the state that the batch leads to from the state before it.
pub proof fn law_replay_of_a_batch(
    task: u128,
    old: Seq<TaskEvent>,
    new: Seq<TaskEvent>,
    kinds: Seq<TaskEventKind>,
    state: TaskState,
    next: TaskState,
)
    requires
        recovered(old) == Some(state),
        appended(task, old, new, kinds),
        replay_from((Replay { state: Some(state), pending_failure: false }), kinds) == Some(
            (Replay { state: Some(next), pending_failure: false }),
        ),
    ensures
        recovered(new) == Some(next),
{
    assert forall|i: int| 0 <= i < new.len() implies (#[trigger] new[i]).sequence == i + 1 by {
        if i < old.len() {
            assert(new.take(old.len() as int)[i] == new[i]);
            assert(old[i].sequence == i + 1);
        } else {
            let k = i - old.len();
            assert(new[old.len() + k] == new[i]);
        }
    }
    assert(kinds_of(new) =~= kinds_of(old) + kinds) by {
        assert forall|i: int| 0 <= i < new.len() implies kinds_of(new)[i] == (kinds_of(old)
            + kinds)[i] by {
            if i < old.len() {
                assert(new.take(old.len() as int)[i] == new[i]);
            } else {
                let k = i - old.len();
                assert(new[old.len() + k] == new[i]);
            }
        }
    }
    lemma_replay_concat(replay_start(), kinds_of(old), kinds);
}

/// The first batch of a task replays from the start.
pub proof fn law_replay_of_the_first_batch(
    task: u128,
    new: Seq<TaskEvent>,
    kinds: Seq<TaskEventKind>,
    next: TaskState,
)
    requires
        appended(task, Seq::<TaskEvent>::empty(), new, kinds),
        replay_from(replay_start(), kinds) == Some(
            (Replay { state: Some(next), pending_failure: false }),
        ),
    ensures
        recovered(new) == Some(next),
{
    assert forall|i: int| 0 <= i < new.len() implies (#[trigger] new[i]).sequence == i + 1
        && new[i].kind == kinds[i] by {
        assert(new[0 + i] == new[i]);
        let none = Seq::<TaskEvent>::empty();
        assert(new[none.len() + i].sequence == none.len() + i + 1);
    }
    assert(kinds_of(new) =~= kinds);
}

/// A failure category without its transition is corrupt.
pub proof fn law_unpaired_failure_is_corrupt(events: Seq<TaskEvent>)
    requires
        events.len() > 0,
        events.last().kind is TaskFailed,
    ensures
        recovered(events) is None,
{
    let kinds = kinds_of(events);
    let n = kinds.len() - 1;
    lemma_replay_take(replay_start(), kinds, n);
    assert(kinds.take(n + 1) =~= kinds);
}

/// A failure category that is not directly followed by the transition to `Failed` is corrupt.
pub proof fn law_failures_are_followed_by_their_transition(events: Seq<TaskEvent>, i: int)
    requires
        0 <= i < events.len() - 1,
        events[i].kind is TaskFailed,
        !(events[i + 1].kind matches TaskEventKind::StateTransitioned { to, .. } && to is Failed),
    ensures
        recovered(events) is None,
{
    let kinds = kinds_of(events);
    lemma_replay_take(replay_start(), kinds, i);
    lemma_replay_take(replay_start(), kinds, i + 1);
    lemma_replay_stuck(replay_start(), kinds, i + 2);
}

/// A list that is empty, or that does not begin with the submission, is corrupt.
pub proof fn law_lists_begin_with_the_submission(events: Seq<TaskEvent>)
    requires
        events.len() == 0 || !(events[0].kind is Submitted),
    ensures
        recovered(events) is None,
{
    let kinds = kinds_of(events);
    if events.len() > 0 {
        assert(kinds[0] == events[0].kind);
    }
}

/// A transition from another state than the one that was reached is corrupt, and so is one that
/// the state machine does not have where no failure category comes directly before it.
pub proof fn law_transitions_start_where_the_task_is(
    events: Seq<TaskEvent>,
    i: int,
    at: Replay,
    from: TaskState,
    to: TaskState,
)
    requires
        0 <= i < events.len(),
        replay_from(replay_start(), kinds_of(events).take(i)) == Some(at),
        events[i].kind == (TaskEventKind::StateTransitioned { from, to }),
        at.state != Some(from) || (!from.may_become(to) && !at.pending_failure),
    ensures
        recovered(events) is None,
{
    let kinds = kinds_of(events);
    lemma_replay_take(replay_start(), kinds, i);
    lemma_replay_stuck(replay_start(), kinds, i + 1);
}

/// A list with a gap in its numbering is corrupt.
pub proof fn law_gaps_are_corrupt(events: Seq<TaskEvent>, i: int)
    requires
        0 <= i < events.len(),
        events[i].sequence != i + 1,
    ensures
        recovered(events) is None,
{
}

} // verus!
