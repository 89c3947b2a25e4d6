//! Laws on the execution gate.

use vstd::prelude::*;

use crate::approval::ApprovalReceipt;
use crate::execution;
use crate::execution::{
    Executed, ExecutionAdapter, ExecutionError, ExecutionGate, ExecutionOutcome, GateModel,
    GuardedOperation,
};
use crate::recovery::TaskSnapshot;
use crate::supervision::SupervisorModel;
use crate::supervisor::{OperationAuthorization, SupervisorError};

verus! {

/// An allowed operation is performed at once, as it is, and nothing is retained. A denied one is
/// answered with the reason and reaches no adapter. One that needs an approval is retained as it
/// is, under its approval. A failure of the supervisor is passed on, and nothing changes.
pub proof fn law_requests_run_or_wait_or_stop<A: ExecutionAdapter<O>, O: GuardedOperation>(
    old: ExecutionGate<A, O>,
    new: ExecutionGate<A, O>,
    task: u128,
    operation: O,
    answer: Result<OperationAuthorization, SupervisorError>,
    r: Result<ExecutionOutcome<A::Output>, ExecutionError<A::Error>>,
    other: u128,
)
    requires
        execution::gate_request(old, new, task, operation, answer, r),
    ensures
        answer is Ok && answer->Ok_0 is Allowed ==> new@ == old@ && match r {
            Ok(ExecutionOutcome::Executed(executed)) => executed.approval is None && A::performs(
                old.adapter(),
                operation,
                new.adapter(),
                Ok(executed.output),
            ),
            Err(ExecutionError::Adapter(error)) => A::performs(
                old.adapter(),
                operation,
                new.adapter(),
                Err(error),
            ),
            _ => false,
        },
        !(answer is Ok && answer->Ok_0 is Allowed) ==> new.adapter() == old.adapter() && !(r is Ok
            && r->Ok_0 is Executed) && !(r is Err && r->Err_0 is Adapter),
        answer is Ok && answer->Ok_0 is Denied ==> new@ == old@ && r is Ok && r->Ok_0 is Denied
            && r->Ok_0->Denied_reason == answer->Ok_0->Denied_reason,
        answer is Err ==> new@ == old@ && r is Err && r->Err_0 is Supervisor
            && r->Err_0->Supervisor_0 == answer->Err_0,
        answer is Ok && answer->Ok_0 is ApprovalRequired ==> {
            let asked = answer->Ok_0->ApprovalRequired_0;
            let id = asked.operation_id.value;
            &&& r is Ok && r->Ok_0 is ApprovalRequired && r->Ok_0->ApprovalRequired_0 == asked
            &&& new@.pending.contains_key(id) && new@.pending[id].operation == operation
                && new@.pending[id].task == task && new@.pending[id].approval
                == asked.approval_id.value
            &&& new@.index.contains_key(asked.approval_id.value)
                && new@.index[asked.approval_id.value] == id
            &&& other != id ==> (new@.pending.contains_key(other) <==> old@.pending.contains_key(
                other,
            )) && (old@.pending.contains_key(other) ==> new@.pending[other]
                == old@.pending[other])
            &&& other != asked.approval_id.value ==> (new@.index.contains_key(other)
                <==> old@.index.contains_key(other)) && (old@.index.contains_key(other)
                ==> new@.index[other] == old@.index[other])
        },
{
}

/// What runs on an approval is what was retained for it, once, with the receipt of the approval;
/// whatever comes of it, it is no longer retained, and what is retained for other approvals is.
/// Where the grant or its use failed, nothing runs.
pub proof fn law_approvals_run_what_was_retained<A: ExecutionAdapter<O>, O: GuardedOperation>(
    old: ExecutionGate<A, O>,
    new: ExecutionGate<A, O>,
    before: SupervisorModel,
    after: SupervisorModel,
    approval: u128,
    granted: Result<TaskSnapshot, SupervisorError>,
    used: Result<ApprovalReceipt, SupervisorError>,
    r: Result<Executed<A::Output>, ExecutionError<A::Error>>,
    other: u128,
)
    requires
        execution::gate_grant(old, new, before, after, approval, granted, used, r),
    ensures
        ({
            let id = old@.index[approval];
            let held = old@.pending[id];
            &&& granted is Err ==> new@ == old@ && new.adapter() == old.adapter() && after == before
                && r is Err && r->Err_0 is Supervisor && r->Err_0->Supervisor_0 == granted->Err_0
            &&& granted is Ok ==> !new@.pending.contains_key(id) && !new@.index.contains_key(
                approval,
            )
            &&& other != id && old@.pending.contains_key(other) ==> new@.pending.contains_key(
                other,
            ) && new@.pending[other] == old@.pending[other]
            &&& other != approval && old@.index.contains_key(other) ==> new@.index.contains_key(
                other,
            ) && new@.index[other] == old@.index[other]
            &&& granted is Ok && used is Err ==> new.adapter() == old.adapter() && r is Err
                && r->Err_0 is Supervisor && r->Err_0->Supervisor_0 == used->Err_0
            &&& granted is Ok && used is Ok ==> match r {
                Ok(executed) => executed.approval == Some(used->Ok_0) && A::performs(
                    old.adapter(),
                    held.operation,
                    new.adapter(),
                    Ok(executed.output),
                ),
                Err(ExecutionError::Adapter(error)) => A::performs(
                    old.adapter(),
                    held.operation,
                    new.adapter(),
                    Err(error),
                ),
                _ => false,
            }
        }),
{
}

/// A denied operation is released and never runs; a denial that failed releases nothing.
pub proof fn law_denied_operations_are_released<A, O, E>(
    old: ExecutionGate<A, O>,
    new: ExecutionGate<A, O>,
    before: SupervisorModel,
    after: SupervisorModel,
    approval: u128,
    answer: Result<TaskSnapshot, SupervisorError>,
    r: Result<TaskSnapshot, ExecutionError<E>>,
    other: u128,
)
    requires
        execution::gate_deny(old, new, before, after, approval, answer, r),
    ensures
        new.adapter() == old.adapter(),
        !old@.index.contains_key(approval) ==> r is Err && r->Err_0 is OperationNotFound && new@
            == old@ && after == before,
        old@.index.contains_key(approval) ==> (r is Ok <==> answer is Ok),
        r is Err ==> new@ == old@,
        r is Ok ==> !new@.index.contains_key(approval) && !new@.pending.contains_key(
            old@.index[approval],
        ) && r->Ok_0 == answer->Ok_0,
        r is Ok && other != approval && old@.index.contains_key(other) ==> new@.index.contains_key(
            other,
        ) && new@.index[other] == old@.index[other],
        r is Ok && other != old@.index[approval] && old@.pending.contains_key(other)
            ==> new@.pending.contains_key(other) && new@.pending[other] == old@.pending[other],
{
}

/// After an expiry no operation of a task that is over is retained, and every other operation is.
pub proof fn law_operations_of_ended_tasks_are_dropped<A, O, E>(
    old: ExecutionGate<A, O>,
    new: ExecutionGate<A, O>,
    after: SupervisorModel,
    answer: Result<usize, SupervisorError>,
    r: Result<usize, ExecutionError<E>>,
    id: u128,
)
    requires
        execution::gate_expire(old, new, after, answer, r),
    ensures
        new.adapter() == old.adapter(),
        answer is Ok <==> r is Ok,
        answer is Ok ==> r->Ok_0 == answer->Ok_0,
        answer is Err ==> new@ == old@,
        answer is Ok ==> (new@.pending.contains_key(id) <==> old@.pending.contains_key(id) && !(
        after.tasks.contains_key(old@.pending[id].task)
            && after.tasks[old@.pending[id].task].state.terminal())),
        new@.pending.contains_key(id) ==> new@.pending[id] == old@.pending[id],
{
}

/// After a cancellation no operation of the task is retained, and every other operation is.
pub proof fn law_operations_of_cancelled_tasks_are_dropped<A, O, E>(
    old: ExecutionGate<A, O>,
    new: ExecutionGate<A, O>,
    task: u128,
    answer: Result<bool, SupervisorError>,
    r: Result<bool, ExecutionError<E>>,
    id: u128,
)
    requires
        execution::gate_cancel(old, new, task, answer, r),
    ensures
        new.adapter() == old.adapter(),
        answer is Ok <==> r is Ok,
        answer is Ok ==> r->Ok_0 == answer->Ok_0,
        answer is Err ==> new@ == old@,
        answer is Ok ==> (new@.pending.contains_key(id) <==> old@.pending.contains_key(id)
            && old@.pending[id].task != task),
        new@.pending.contains_key(id) ==> new@.pending[id] == old@.pending[id],
{
}

/// What is dropped is forgotten under its approval too, and no other approval is.
pub proof fn law_dropped_operations_are_forgotten<O>(
    gate: GateModel<O>,
    ids: Set<u128>,
    approval: u128,
)
    ensures
        gate.dropped(ids).index.contains_key(approval) <==> gate.index.contains_key(approval)
            && !exists|id: u128| #[trigger] ids.contains(id) && gate.pending[id].approval
            == approval,
        gate.dropped(ids).index.contains_key(approval) ==> gate.dropped(ids).index[approval]
            == gate.index[approval],
{
}

/// What a failure says does not depend on what the adapter or the supervisor reported.
pub proof fn law_failures_tell_nothing_of_the_adapter<E>(
    a: E,
    b: E,
    x: SupervisorError,
    y: SupervisorError,
)
    ensures
        ExecutionError::<E>::Adapter(a).text() == ExecutionError::<E>::Adapter(b).text(),
        ExecutionError::<E>::Supervisor(x).text() == ExecutionError::<E>::Supervisor(y).text(),
        ExecutionError::<E>::Adapter(a).text() == "adapter execution failed"@,
        ExecutionError::<E>::Supervisor(x).text() == "operation authorization failed"@,
        ExecutionError::<E>::OperationNotFound.text() == "pending operation not found"@,
{
}

} // verus!
