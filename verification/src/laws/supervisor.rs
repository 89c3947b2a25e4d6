//! Laws on the supervisor.

use vstd::prelude::*;

use crate::approval::{ApprovalError, ApprovalReceipt};
use crate::error::ErrorCode;
use crate::event;
use crate::event::{EventLog, TaskEventKind};
use crate::ids::{ApprovalId, OperationId};
use crate::idmap;
use crate::policy::RequestModel;
use crate::recovery;
use crate::recovery::TaskSnapshot;
use crate::state::TaskState;
use crate::supervision;
use crate::supervision::SupervisorModel;
use crate::supervisor;
use crate::supervisor::{OperationAuthorization, SubmitResult, SupervisorError};
use crate::task::TaskModel;

verus! {

/// The kinds of the events of a task that one log has beyond another, in their order.
pub open spec fn gained(old: EventLog, new: EventLog, task: u128) -> Seq<TaskEventKind> {
    recovery::kinds_of(
        event::events_of(new, task).skip(event::events_of(old, task).len() as int),
    )
}

/// Whether two logs have the same events of every task but one, and all that the first has of
/// that one too.
pub open spec fn others_kept(old: EventLog, new: EventLog, task: u128) -> bool {
    &&& forall|other: u128|
        other != task ==> #[trigger] event::events_of(new, other) == event::events_of(old, other)
    &&& event::events_of(old, task).is_prefix_of(event::events_of(new, task))
}

proof fn lemma_gained(old: EventLog, new: EventLog, task: u128, kinds: Seq<TaskEventKind>)
    requires
        event::log_extended(old, new, task, kinds),
    ensures
        gained(old, new, task) == kinds,
        others_kept(old, new, task),
{
    let before = event::events_of(old, task);
    let after = event::events_of(new, task);
    if kinds.len() == 0 {
        assert(after.skip(before.len() as int).len() == 0);
        assert(gained(old, new, task) =~= kinds);
    } else {
        let list = gained(old, new, task);
        assert forall|i: int| 0 <= i < kinds.len() implies list[i] == kinds[i] by {
            assert(after[before.len() + i].kind == kinds[i]);
        }
        assert(list =~= kinds);
        assert(before =~= after.take(before.len() as int));
    }
    assert forall|other: u128| other != task implies #[trigger] event::events_of(new, other)
        == event::events_of(old, other) by {
        if kinds.len() > 0 {
            assert(new == old.insert(task, after));
        }
    }
}

// --------------------------------------------------------------- submissions

/// A submission under a new key, where there is room, registers one task under that key: queued
/// where it is valid, rejected with its issues where it is not, with the steps of its validation
/// recorded. It changes no other task.
pub proof fn law_submissions_register_one_task(
    old: SupervisorModel,
    new: SupervisorModel,
    spec: TaskModel,
    id: u128,
    r: Result<SubmitResult, SupervisorError>,
    other: u128,
    key: Seq<char>,
)
    requires
        supervisor::submit_outcome(old, new, spec, id, r),
        !old.index.contains_key(spec.idempotency_key),
        r is Ok,
        other != id,
        key != spec.idempotency_key,
    ensures
        !old.tasks.contains_key(id) && old.tasks.dom().len() < old.max_tasks,
        new.index.contains_key(spec.idempotency_key) && new.index[spec.idempotency_key] == id,
        new.index.contains_key(key) <==> old.index.contains_key(key),
        new.index.contains_key(key) ==> new.index[key] == old.index[key],
        new.tasks.contains_key(id) && new.tasks[id].spec == Some(spec) && new.tasks[id].deadline
            is None,
        new.tasks.contains_key(other) <==> old.tasks.contains_key(other),
        new.tasks.contains_key(other) ==> new.tasks[other] == old.tasks[other],
        new.pending == old.pending && new.approved == old.approved && new.authority
            == old.authority && new.max_tasks == old.max_tasks,
        others_kept(old.log, new.log, id),
        spec.valid() ==> {
            &&& new.tasks[id].state == TaskState::Queued
            &&& r->Ok_0 is Accepted && r->Ok_0->Accepted_0.task_id.value == id
                && r->Ok_0->Accepted_0.state == TaskState::Queued
            &&& gained(old.log, new.log, id) == seq![
                TaskEventKind::Submitted,
                TaskEventKind::StateTransitioned {
                    from: TaskState::Submitted,
                    to: TaskState::Validating,
                },
                TaskEventKind::StateTransitioned {
                    from: TaskState::Validating,
                    to: TaskState::Queued,
                },
            ]
        },
        !spec.valid() ==> {
            &&& new.tasks[id].state == TaskState::Rejected
            &&& r->Ok_0 is Rejected && r->Ok_0->Rejected_task.task_id.value == id
                && r->Ok_0->Rejected_task.state == TaskState::Rejected
                && r->Ok_0->Rejected_errors@ == spec.issues()
            &&& gained(old.log, new.log, id) == seq![
                TaskEventKind::Submitted,
                TaskEventKind::StateTransitioned {
                    from: TaskState::Submitted,
                    to: TaskState::Validating,
                },
                TaskEventKind::ValidationFailed { error_count: spec.issues().len() as usize },
                TaskEventKind::StateTransitioned {
                    from: TaskState::Validating,
                    to: TaskState::Rejected,
                },
            ]
        },
{
    lemma_gained(old.log, new.log, id, supervision::submission_kinds(spec));
    let kinds = supervision::submission_kinds(spec);
    if spec.valid() {
        assert(kinds =~= seq![
            TaskEventKind::Submitted,
            TaskEventKind::StateTransitioned {
                from: TaskState::Submitted,
                to: TaskState::Validating,
            },
            TaskEventKind::StateTransitioned {
                from: TaskState::Validating,
                to: TaskState::Queued,
            },
        ]);
    } else {
        assert(kinds =~= seq![
            TaskEventKind::Submitted,
            TaskEventKind::StateTransitioned {
                from: TaskState::Submitted,
                to: TaskState::Validating,
            },
            TaskEventKind::ValidationFailed { error_count: spec.issues().len() as usize },
            TaskEventKind::StateTransitioned {
                from: TaskState::Validating,
                to: TaskState::Rejected,
            },
        ]);
    }
}

/// A submission that is refused changes nothing. One under a key in use is a conflict exactly
/// where the task differs, whatever the room; otherwise a full supervisor refuses it, and one
/// with room and a new identifier does not.
pub proof fn law_submissions_are_refused_for_a_reason(
    old: SupervisorModel,
    new: SupervisorModel,
    spec: TaskModel,
    id: u128,
    r: Result<SubmitResult, SupervisorError>,
)
    requires
        supervisor::submit_outcome(old, new, spec, id, r),
    ensures
        r is Err ==> new == old,
        r == Err::<SubmitResult, SupervisorError>(SupervisorError::IdempotencyConflict)
            <==> old.index.contains_key(spec.idempotency_key)
            && old.tasks[old.index[spec.idempotency_key]].spec != Some(spec),
        r == Err::<SubmitResult, SupervisorError>(SupervisorError::CapacityExceeded)
            <==> !old.index.contains_key(spec.idempotency_key) && (old.tasks.dom().len()
            >= old.max_tasks || old.tasks.contains_key(id)),
        r is Err ==> r->Err_0 is IdempotencyConflict || r->Err_0 is CapacityExceeded
            || r->Err_0 is EventStore,
        old.index.contains_key(spec.idempotency_key) && r is Ok ==> new == old && r->Ok_0
            == SubmitResult::Existing(
            TaskSnapshot {
                task_id: crate::ids::TaskId { value: old.index[spec.idempotency_key] },
                state: old.tasks[old.index[spec.idempotency_key]].state,
            },
        ),
{
}

// --------------------------------------------------------------- transitions

/// A transition takes a known task along an edge of the lifecycle, and no other task. Its
/// contract is kept and its deadline set as asked.
pub proof fn law_transitions_move_one_task(
    old: SupervisorModel,
    new: SupervisorModel,
    task: u128,
    next: TaskState,
    code: Option<ErrorCode>,
    deadline: Option<u128>,
    r: Result<(), SupervisorError>,
    other: u128,
)
    requires
        supervisor::transition_outcome(old, new, task, next, code, deadline, r),
        other != task,
    ensures
        !old.tasks.contains_key(task) ==> r == Err::<(), SupervisorError>(
            SupervisorError::TaskNotFound,
        ),
        r is Err ==> new == old,
        r is Ok ==> old.tasks.contains_key(task) && old.tasks[task].state.may_become(next),
        old.tasks.contains_key(task) && !old.tasks[task].state.may_become(next) ==> r is Err
            && r->Err_0 is InvalidStateTransition && r->Err_0->InvalidStateTransition_0@ == (
            old.tasks[task].state,
            next,
        ),
        r is Ok ==> new.tasks[task].state == next && new.tasks[task].deadline == deadline
            && new.tasks[task].spec == old.tasks[task].spec && new.index == old.index
            && new.max_tasks == old.max_tasks && others_kept(old.log, new.log, task),
        new.tasks.contains_key(other) <==> old.tasks.contains_key(other),
        new.tasks.contains_key(other) ==> new.tasks[other] == old.tasks[other],
{
    if r is Ok {
        lemma_gained(old.log, new.log, task, old.transition_kinds(task, next, code));
    }
}

/// A transition that does not end a task takes no approval away; one that ends it takes away its
/// approvals, pending or granted, and no others.
pub proof fn law_ended_tasks_lose_their_own_approvals(
    old: SupervisorModel,
    new: SupervisorModel,
    task: u128,
    next: TaskState,
    code: Option<ErrorCode>,
    deadline: Option<u128>,
    r: Result<(), SupervisorError>,
    id: u128,
)
    requires
        supervisor::transition_outcome(old, new, task, next, code, deadline, r),
        r is Ok,
    ensures
        ({
            let ends = next is Rejected || next is Succeeded || next is Failed
                || next is Cancelled;
            &&& new.pending.contains_key(id) <==> old.pending.contains_key(id) && !(ends
                && old.pending[id].task == task)
            &&& new.pending.contains_key(id) ==> new.pending[id] == old.pending[id]
            &&& new.approved.contains_key(id) <==> old.approved.contains_key(id) && !(ends
                && old.approved[id].task == task)
            &&& new.approved.contains_key(id) ==> new.approved[id] == old.approved[id]
            &&& new.authority.pending.contains_key(id) <==> old.authority.pending.contains_key(id)
                && !(ends && old.pending.contains_key(id) && old.pending[id].task == task)
            &&& new.authority.pending.contains_key(id) ==> new.authority.pending[id]
                == old.authority.pending[id]
        }),
{
}

/// What is recorded of a transition ends with the transition itself; before it stands the
/// category of a failure, where there is one, and before that a revocation of each approval of a
/// task that ends.
pub proof fn law_transitions_are_recorded(
    old: SupervisorModel,
    new: SupervisorModel,
    task: u128,
    next: TaskState,
    code: Option<ErrorCode>,
    deadline: Option<u128>,
    r: Result<(), SupervisorError>,
    id: u128,
)
    requires
        supervisor::transition_outcome(old, new, task, next, code, deadline, r),
        r is Ok,
        old.pending.dom().finite(),
        old.approved.dom().finite(),
    ensures
        ({
            let kinds = gained(old.log, new.log, task);
            let ends = next is Rejected || next is Succeeded || next is Failed
                || next is Cancelled;
            let last = kinds.len() - 1;
            &&& last >= 0
            &&& kinds[last] == (TaskEventKind::StateTransitioned {
                from: old.tasks[task].state,
                to: next,
            })
            &&& code is Some ==> last >= 1 && kinds[last - 1] == (TaskEventKind::TaskFailed {
                code: code->0,
            })
            &&& ends && old.pending.contains_key(id) && old.pending[id].task == task
                ==> kinds.contains(
                TaskEventKind::ApprovalRevoked {
                    approval_id: ApprovalId { value: id },
                    operation_id: OperationId { value: old.pending[id].operation },
                },
            )
            &&& ends && old.approved.contains_key(id) && old.approved[id].task == task
                ==> kinds.contains(
                TaskEventKind::ApprovalRevoked {
                    approval_id: ApprovalId { value: old.approved[id].grant.approval },
                    operation_id: OperationId { value: id },
                },
            )
            &&& !ends && code is None ==> kinds.len() == 1
        }),
{
    let kinds = old.transition_kinds(task, next, code);
    lemma_gained(old.log, new.log, task, kinds);
    let waits = supervision::pending_for(old.pending, task);
    let holds = supervision::approved_for(old.approved, task);
    assert(waits.subset_of(old.pending.dom()));
    vstd::set_lib::lemma_set_subset_finite(old.pending.dom(), waits);
    assert(holds.subset_of(old.approved.dom()));
    vstd::set_lib::lemma_set_subset_finite(old.approved.dom(), holds);
    idmap::lemma_ascending_lists(waits);
    idmap::lemma_ascending_lists(holds);
    if next.terminal() {
        let a = idmap::ascending(waits);
        let b = idmap::ascending(holds);
        if waits.contains(id) {
            assert(a.to_set().contains(id));
            let k = choose|k: int| 0 <= k < a.len() && a[k] == id;
            assert(kinds[k] == (TaskEventKind::ApprovalRevoked {
                approval_id: ApprovalId { value: id },
                operation_id: OperationId { value: old.pending[id].operation },
            }));
        }
        if holds.contains(id) {
            assert(b.to_set().contains(id));
            let k = choose|k: int| 0 <= k < b.len() && b[k] == id;
            assert(kinds[a.len() + k] == (TaskEventKind::ApprovalRevoked {
                approval_id: ApprovalId { value: old.approved[id].grant.approval },
                operation_id: OperationId { value: id },
            }));
        }
    }
}

/// A cancelled task was not over; a task that was over is left alone, and the caller told so. An
/// unknown task cannot be cancelled.
pub proof fn law_live_tasks_are_cancelled(
    old: SupervisorModel,
    new: SupervisorModel,
    task: u128,
    r: Result<bool, SupervisorError>,
)
    requires
        supervisor::cancel_outcome(old, new, task, r),
    ensures
        !old.tasks.contains_key(task) ==> r == Err::<bool, SupervisorError>(
            SupervisorError::TaskNotFound,
        ),
        old.tasks.contains_key(task) && old.tasks[task].state.terminal() ==> r == Ok::<
            bool,
            SupervisorError,
        >(false) && new == old,
        old.tasks.contains_key(task) && !old.tasks[task].state.terminal() ==> (r == Ok::<
            bool,
            SupervisorError,
        >(true) && new.tasks[task].state == TaskState::Cancelled && new.tasks[task].deadline
            == old.tasks[task].deadline) || (r is Err && r->Err_0 is EventStore && new == old),
{
}

// -------------------------------------------------------------------- budget

/// The budget of a task lasts its wall time from when it left the queue, and is never set again.
pub proof fn law_budgets_last_from_the_start(old: SupervisorModel, task: u128, now: u128)
    requires
        old.tasks.contains_key(task),
    ensures
        old.tasks[task].state is Queued && now
            + old.tasks[task].spec->0.budget.wall_time_seconds * 1_000_000_000 <= u128::MAX
            ==> supervisor::deadline_after_start(old, task, now) is Some
            && supervisor::deadline_after_start(old, task, now)->0 == now
            + old.tasks[task].spec->0.budget.wall_time_seconds * 1_000_000_000,
        old.tasks[task].state is Queued && now
            + old.tasks[task].spec->0.budget.wall_time_seconds * 1_000_000_000 > u128::MAX
            ==> supervisor::deadline_after_start(old, task, now) == Some(u128::MAX),
        !(old.tasks[task].state is Queued) ==> supervisor::deadline_after_start(old, task, now)
            == old.tasks[task].deadline,
{
}

/// The budget of a live task is used up from its deadline on, and never before; one that is over
/// or was not started has none to use up.
pub proof fn law_budgets_are_used_up_from_the_deadline_on(
    m: SupervisorModel,
    task: u128,
    now: u128,
    later: u128,
)
    requires
        now <= later,
    ensures
        !m.tasks.contains_key(task) ==> supervisor::wall_time_verdict(m, task, now) == Err::<
            bool,
            SupervisorError,
        >(SupervisorError::TaskNotFound),
        supervisor::wall_time_verdict(m, task, now) == Ok::<bool, SupervisorError>(true)
            ==> supervisor::wall_time_verdict(m, task, later) == Ok::<bool, SupervisorError>(true),
        m.tasks.contains_key(task) && !m.tasks[task].state.terminal() && m.tasks[task].deadline
            is Some ==> supervisor::wall_time_verdict(m, task, m.tasks[task].deadline->0) == Ok::<
            bool,
            SupervisorError,
        >(true) && (now < m.tasks[task].deadline->0 ==> supervisor::wall_time_verdict(
            m,
            task,
            now,
        ) == Ok::<bool, SupervisorError>(false)),
        m.tasks.contains_key(task) && (m.tasks[task].state.terminal() || m.tasks[task].deadline
            is None) ==> supervisor::wall_time_verdict(m, task, now) == Ok::<
            bool,
            SupervisorError,
        >(false),
{
}

/// Only a running or a waiting task lends its budget to an operation.
pub proof fn law_started_tasks_lend_their_budget(m: SupervisorModel, task: u128)
    ensures
        supervisor::unbindable(m, task) is None <==> m.tasks.contains_key(task) && (
        m.tasks[task].state is Running || m.tasks[task].state is WaitingApproval),
        !m.tasks.contains_key(task) ==> supervisor::unbindable(m, task) == Some(
            SupervisorError::TaskNotFound,
        ),
        m.tasks.contains_key(task) && supervisor::unbindable(m, task) is Some
            ==> supervisor::unbindable(m, task) == Some(SupervisorError::TaskNotRunning),
{
}

// ----------------------------------------------------------------- approvals

/// At a given time the approvals whose deadline has come run out, and no others; the task of each
/// fails, every other task stays as it was, and the number of them is told.
pub proof fn law_due_approvals_run_out(
    old: SupervisorModel,
    new: SupervisorModel,
    now: u128,
    count: usize,
    id: u128,
    task: u128,
)
    requires
        old.coherent(),
        supervisor::expire_outcome(old, new, now, Ok(count)),
        old.tasks.contains_key(task),
    ensures
        new.pending.contains_key(id) <==> old.pending.contains_key(id) && now
            < old.authority.pending[id].deadline,
        new.pending.contains_key(id) ==> new.pending[id] == old.pending[id],
        new.authority.pending.contains_key(id) <==> old.authority.pending.contains_key(id) && now
            < old.authority.pending[id].deadline,
        old.pending.contains_key(id) && now >= old.authority.pending[id].deadline ==> {
            &&& new.tasks[old.pending[id].task].state == TaskState::Failed
            &&& gained(old.log, new.log, old.pending[id].task) == seq![
                TaskEventKind::ApprovalExpired {
                    approval_id: ApprovalId { value: id },
                    operation_id: OperationId { value: old.pending[id].operation },
                },
                TaskEventKind::StateTransitioned {
                    from: old.tasks[old.pending[id].task].state,
                    to: TaskState::Failed,
                },
            ]
        },
        (forall|k: u128| #[trigger]
            old.pending.contains_key(k) && old.pending[k].task == task ==> now
                < old.authority.pending[k].deadline) ==> new.tasks[task] == old.tasks[task]
            && event::events_of(new.log, task) == event::events_of(old.log, task),
        new.tasks[task].spec == old.tasks[task].spec && new.tasks[task].deadline
            == old.tasks[task].deadline,
        new.approved == old.approved && new.index == old.index,
        count as nat + new.pending.dom().len() == old.pending.dom().len(),
{
    let due = old.due(now);
    assert forall|k: u128| #[trigger] due.contains(k) <==> old.pending.contains_key(k) && now
        >= old.authority.pending[k].deadline by {
        assert(old.pending.dom().contains(k) == old.authority.pending.dom().contains(k));
    }
    assert(due.subset_of(old.pending.dom()));
    assert(new.pending.dom() =~= old.pending.dom().difference(due));
    vstd::set_lib::lemma_set_subset_finite(old.pending.dom(), due);
    vstd::set_lib::lemma_set_disjoint_lens(new.pending.dom(), due);
    assert(new.pending.dom() + due =~= old.pending.dom());
    if old.pending.contains_key(id) && now >= old.authority.pending[id].deadline {
        let t = old.pending[id].task;
        assert(due.contains(id));
        assert(old.pending_sound(id));
        let before = event::events_of(old.log, t);
        let after = event::events_of(new.log, t);
        let kinds = old.expiry_kinds(id);
        let list = gained(old.log, new.log, t);
        assert forall|i: int| 0 <= i < kinds.len() implies list[i] == kinds[i] by {
            assert(after[before.len() + i].kind == kinds[i]);
        }
        assert(list =~= kinds);
    }
    if supervision::touches(old.pending, due, task) {
        let k = choose|k: u128| #[trigger] due.contains(k) && old.pending[k].task == task;
        assert(old.pending.contains_key(k));
    }
}

/// A running task gets what its policy decides: what is allowed is allowed, what is denied is
/// denied for the same reason, and only what needs an approval waits for one. The answer is
/// recorded. No other task is touched.
pub proof fn law_requests_get_what_the_policy_decides(
    old: SupervisorModel,
    new: SupervisorModel,
    now: u128,
    approval: u128,
    operation: u128,
    task: u128,
    request: RequestModel,
    ttl: nat,
    r: Result<OperationAuthorization, SupervisorError>,
    other: u128,
)
    requires
        supervisor::request_outcome(old, new, now, approval, operation, task, request, ttl, r),
        r is Ok,
        other != task,
    ensures
        old.tasks.contains_key(task) && old.tasks[task].state is Running,
        others_kept(old.log, new.log, task),
        new.tasks.contains_key(other) <==> old.tasks.contains_key(other),
        new.tasks.contains_key(other) ==> new.tasks[other] == old.tasks[other],
        new.approved == old.approved,
        ({
            let decision = old.tasks[task].spec->0.decide(request);
            &&& r->Ok_0 is Allowed <==> decision is Allow
            &&& r->Ok_0 is Denied <==> decision is Deny
            &&& r->Ok_0 is ApprovalRequired <==> decision is ApprovalRequired
            &&& decision is Deny ==> r->Ok_0->Denied_reason == decision->Deny_reason
            &&& !(decision is ApprovalRequired) ==> new.tasks == old.tasks && new.pending
                == old.pending && new.authority == old.authority
            &&& decision is Allow ==> gained(old.log, new.log, task) == seq![
                TaskEventKind::OperationAllowed,
            ]
            &&& decision is Deny ==> gained(old.log, new.log, task) == seq![
                TaskEventKind::OperationDenied { reason: decision->Deny_reason },
            ]
            &&& decision is ApprovalRequired ==> {
                &&& new.tasks[task].state == TaskState::WaitingApproval
                &&& new.pending.contains_key(approval) && new.pending[approval].task == task
                    && new.pending[approval].operation == operation
                    && new.pending[approval].request == request
                &&& new.authority.pending.contains_key(approval)
                    && new.authority.pending[approval].task == task
                    && new.authority.pending[approval].operation == operation
                    && new.authority.pending[approval].action == request.action()
                    && new.authority.pending[approval].deadline == now + ttl
                &&& r->Ok_0->ApprovalRequired_0.approval_id.value == approval
                    && r->Ok_0->ApprovalRequired_0.task_id.value == task
                    && r->Ok_0->ApprovalRequired_0.operation_id.value == operation
                    && r->Ok_0->ApprovalRequired_0.action@ == request.action()
                &&& gained(old.log, new.log, task) == seq![
                    TaskEventKind::ApprovalRequested {
                        approval_id: ApprovalId { value: approval },
                        operation_id: OperationId { value: operation },
                    },
                    TaskEventKind::StateTransitioned {
                        from: TaskState::Running,
                        to: TaskState::WaitingApproval,
                    },
                ]
            }
        }),
{
    let decision = old.tasks[task].spec->0.decide(request);
    if decision is ApprovalRequired {
        lemma_gained(old.log, new.log, task, supervision::waiting_kinds(approval, operation));
    } else {
        lemma_gained(old.log, new.log, task, supervision::decision_kinds(decision));
    }
}

/// A request that fails changes nothing. It fails for an unknown task, for one that does not run,
/// for a task that already waits for an approval, and where the authority or the store refuses.
pub proof fn law_failed_requests_change_nothing(
    old: SupervisorModel,
    new: SupervisorModel,
    now: u128,
    approval: u128,
    operation: u128,
    task: u128,
    request: RequestModel,
    ttl: nat,
    r: Result<OperationAuthorization, SupervisorError>,
)
    requires
        supervisor::request_outcome(old, new, now, approval, operation, task, request, ttl, r),
    ensures
        r is Err ==> new == old,
        !old.tasks.contains_key(task) ==> r is Err && r->Err_0 == SupervisorError::TaskNotFound,
        old.tasks.contains_key(task) && !(old.tasks[task].state is Running) ==> r is Err
            && r->Err_0 is InvalidStateTransition && r->Err_0->InvalidStateTransition_0@ == (
            old.tasks[task].state,
            TaskState::WaitingApproval,
        ),
        old.tasks.contains_key(task) && old.tasks[task].state is Running
            && old.tasks[task].spec->0.decide(request) is ApprovalRequired && old.waits(task)
            ==> r is Err && r->Err_0 == SupervisorError::Approval(
            ApprovalError::DuplicateOperation,
        ),
        old.tasks.contains_key(task) && old.tasks[task].state is Running && !(
        old.tasks[task].spec->0.decide(request) is ApprovalRequired) ==> r is Ok || r->Err_0
            is EventStore,
{
}

/// An approved task runs again, and its operation may be performed once, as it was requested and
/// until the deadline of the approval. The approval is no longer pending.
pub proof fn law_approved_tasks_run_again(
    old: SupervisorModel,
    new: SupervisorModel,
    id: u128,
    r: Result<TaskSnapshot, SupervisorError>,
    other: u128,
)
    requires
        supervisor::approve_outcome(old, new, id, r),
    ensures
        r is Err ==> new == old,
        !old.pending.contains_key(id) ==> r == Err::<TaskSnapshot, SupervisorError>(
            SupervisorError::Approval(ApprovalError::NotFound),
        ),
        r is Ok ==> {
            let task = old.pending[id].task;
            let operation = old.pending[id].operation;
            &&& old.pending.contains_key(id) && old.tasks[task].state is WaitingApproval
            &&& r->Ok_0.task_id.value == task && r->Ok_0.state == TaskState::Running
            &&& new.tasks[task].state == TaskState::Running && new.tasks[task].deadline
                == old.tasks[task].deadline && new.tasks[task].spec == old.tasks[task].spec
            &&& !new.pending.contains_key(id) && !new.authority.pending.contains_key(id)
            &&& new.approved.contains_key(operation) && new.approved[operation].task == task
                && new.approved[operation].request == old.pending[id].request
            &&& new.approved[operation].grant.approval == id
                && new.approved[operation].grant.deadline == old.authority.pending[id].deadline
                && new.approved[operation].grant.task == old.authority.pending[id].task
                && new.approved[operation].grant.operation == old.authority.pending[id].operation
                && new.approved[operation].grant.action == old.authority.pending[id].action
            &&& other != task ==> new.tasks[other] == old.tasks[other]
            &&& other != id && old.pending.contains_key(other) ==> new.pending.contains_key(other)
                && new.pending[other] == old.pending[other]
            &&& other != operation && old.approved.contains_key(other)
                ==> new.approved.contains_key(other) && new.approved[other] == old.approved[other]
            &&& others_kept(old.log, new.log, task)
            &&& gained(old.log, new.log, task) == seq![
                TaskEventKind::ApprovalGranted {
                    approval_id: ApprovalId { value: id },
                    operation_id: OperationId { value: operation },
                },
                TaskEventKind::StateTransitioned {
                    from: TaskState::WaitingApproval,
                    to: TaskState::Running,
                },
            ]
        },
{
    if r is Ok {
        lemma_gained(old.log, new.log, old.pending[id].task, old.grant_kinds(id));
    }
}

/// A denied task fails, and its operation is not approved. The approval is no longer pending.
pub proof fn law_denied_tasks_fail(
    old: SupervisorModel,
    new: SupervisorModel,
    id: u128,
    r: Result<TaskSnapshot, SupervisorError>,
    other: u128,
)
    requires
        supervisor::deny_outcome(old, new, id, r),
    ensures
        r is Err ==> new == old,
        !old.pending.contains_key(id) ==> r == Err::<TaskSnapshot, SupervisorError>(
            SupervisorError::Approval(ApprovalError::NotFound),
        ),
        old.pending.contains_key(id) ==> r is Ok || r->Err_0 is EventStore,
        r is Ok ==> {
            let task = old.pending[id].task;
            &&& r->Ok_0.task_id.value == task && r->Ok_0.state == TaskState::Failed
            &&& new.tasks[task].state == TaskState::Failed
            &&& new.approved == old.approved
            &&& !new.pending.contains_key(id) && !new.authority.pending.contains_key(id)
            &&& other != task ==> new.tasks[other] == old.tasks[other]
            &&& other != id && old.pending.contains_key(other) ==> new.pending.contains_key(other)
                && new.pending[other] == old.pending[other]
            &&& others_kept(old.log, new.log, task)
            &&& gained(old.log, new.log, task) == seq![
                TaskEventKind::ApprovalDenied {
                    approval_id: ApprovalId { value: id },
                    operation_id: OperationId { value: old.pending[id].operation },
                },
                TaskEventKind::StateTransitioned {
                    from: old.tasks[task].state,
                    to: TaskState::Failed,
                },
            ]
        },
{
    if r is Ok {
        lemma_gained(old.log, new.log, old.pending[id].task, old.denial_kinds(id));
    }
}

/// An approved operation is performed as it was requested, by its own running task, before its
/// deadline, and is then gone; a try with another request uses it up too. Nothing else changes
/// but the record of its use.
pub proof fn law_approved_operations_are_performed_as_requested(
    old: SupervisorModel,
    new: SupervisorModel,
    now: u128,
    task: u128,
    operation: u128,
    request: RequestModel,
    r: Result<ApprovalReceipt, SupervisorError>,
    other: u128,
)
    requires
        supervisor::authorize_outcome(old, new, now, task, operation, request, r),
        other != operation,
    ensures
        r is Ok ==> {
            let held = old.approved[operation];
            &&& old.tasks.contains_key(task) && old.tasks[task].state is Running
            &&& old.approved.contains_key(operation) && held.task == task && held.request
                == request && held.grant.task == task && held.grant.operation == operation
                && held.grant.action == request.action()
            &&& now < held.grant.deadline
            &&& r->Ok_0.approval_id.value == held.grant.approval
            &&& !new.approved.contains_key(operation)
            &&& gained(old.log, new.log, task) == seq![
                TaskEventKind::ApprovalConsumed {
                    approval_id: ApprovalId { value: held.grant.approval },
                    operation_id: OperationId { value: operation },
                },
            ]
            &&& others_kept(old.log, new.log, task)
        },
        new.approved.contains_key(other) <==> old.approved.contains_key(other),
        new.approved.contains_key(other) ==> new.approved[other] == old.approved[other],
        new.tasks == old.tasks && new.pending == old.pending && new.authority == old.authority
            && new.index == old.index,
        r is Err ==> new.log == old.log,
        !old.tasks.contains_key(task) ==> r is Err && r->Err_0 == SupervisorError::TaskNotFound
            && new == old,
        old.tasks.contains_key(task) && !(old.tasks[task].state is Running) ==> r is Err
            && r->Err_0 == SupervisorError::TaskNotRunning && new == old,
        old.tasks.contains_key(task) && old.tasks[task].state is Running
            && !old.approved.contains_key(operation) ==> r is Err && r->Err_0
            == SupervisorError::Approval(ApprovalError::NotFound),
        old.tasks.contains_key(task) && old.tasks[task].state is Running
            && old.approved.contains_key(operation) ==> !new.approved.contains_key(operation),
        old.tasks.contains_key(task) && old.tasks[task].state is Running
            && old.approved.contains_key(operation) && (old.approved[operation].task != task
            || old.approved[operation].request != request) ==> r is Err && r->Err_0
            == SupervisorError::Approval(ApprovalError::ScopeMismatch),
        old.tasks.contains_key(task) && old.tasks[task].state is Running
            && old.approved.contains_key(operation) && old.approved[operation].task == task
            && old.approved[operation].request == request && now
            >= old.approved[operation].grant.deadline ==> r is Err && r->Err_0
            == SupervisorError::Approval(ApprovalError::Expired),
{
    if r is Ok {
        lemma_gained(
            old.log,
            new.log,
            task,
            supervision::consumed_kinds(old.approved[operation].grant.approval, operation),
        );
    }
}

// ------------------------------------------------------------------- restart

/// After a restart every task of the log is known: one that was over is as it was, with nothing
/// recorded, and every other has failed because of the restart.
pub proof fn law_restarts_fail_what_was_not_over(
    log: EventLog,
    new: SupervisorModel,
    max_tasks: nat,
    task: u128,
)
    requires
        supervisor::recovered_supervisor(log, new, max_tasks),
    ensures
        new.tasks.contains_key(task) <==> log.contains_key(task),
        new.max_tasks == max_tasks,
        log.contains_key(task) ==> {
            let was = recovery::recovered(log[task])->0;
            let over = was is Rejected || was is Succeeded || was is Failed || was is Cancelled;
            &&& over ==> new.tasks[task].state == was && gained(log, new.log, task) == Seq::<
                TaskEventKind,
            >::empty()
            &&& !over ==> new.tasks[task].state == TaskState::Failed && gained(
                log,
                new.log,
                task,
            ) == seq![
                TaskEventKind::TaskFailed { code: ErrorCode::RuntimeRestarted },
                TaskEventKind::StateTransitioned { from: was, to: TaskState::Failed },
            ]
        },
{
    assert(new.tasks.dom().contains(task) == log.dom().contains(task));
    if log.contains_key(task) {
        let was = recovery::recovered(log[task])->0;
        let kinds = supervisor::restart_kinds(was);
        let before = log[task];
        let after = event::events_of(new.log, task);
        let list = gained(log, new.log, task);
        assert forall|i: int| 0 <= i < kinds.len() implies list[i] == kinds[i] by {
            assert(after[before.len() + i].kind == kinds[i]);
        }
        assert(list =~= kinds);
    }
}

/// What a supervisor starts with: no task, no approval, room for 1024 approvals of at most a
/// quarter of an hour.
pub proof fn law_supervisors_start_empty(log: EventLog, max_tasks: nat)
    ensures
        ({
            let m = supervisor::empty_supervisor(log, max_tasks);
            &&& m.tasks.dom().len() == 0 && m.index.dom().len() == 0
            &&& m.pending.dom().len() == 0 && m.approved.dom().len() == 0
            &&& m.authority.pending.dom().len() == 0
            &&& m.authority.max_pending == 1_024
            &&& m.authority.max_ttl == 900 * 1_000_000_000
            &&& m.max_tasks == max_tasks && m.log == log
        }),
{
    assert(supervisor::empty_supervisor(log, max_tasks).tasks.dom() =~= Set::<u128>::empty());
    assert(supervisor::empty_supervisor(log, max_tasks).index.dom() =~= Set::<Seq<char>>::empty());
    assert(supervisor::empty_supervisor(log, max_tasks).pending.dom() =~= Set::<u128>::empty());
    assert(supervisor::empty_supervisor(log, max_tasks).approved.dom() =~= Set::<u128>::empty());
    assert(supervisor::empty_supervisor(log, max_tasks).authority.pending.dom() =~= Set::<
        u128,
    >::empty());
}

} // verus!
