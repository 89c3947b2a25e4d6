//! The execution gate between a guarded operation and the adapter that executes it.

use vstd::prelude::*;

use crate::approval::{ApprovalReceipt, ApprovalRequest};
use crate::event;
use crate::event::EventStore;
use crate::idmap;
use crate::idmap::IdMap;
use crate::ids::{ApprovalId, OperationId, TaskId};
use crate::policy::{CapabilityRequest, DenialReason, RequestModel};
use crate::recovery::TaskSnapshot;
use crate::room;
use crate::state::TaskState;
use crate::supervision::SupervisorModel;
use crate::supervisor;
use crate::supervisor::{OperationAuthorization, SupervisorError, TaskSupervisor};
use crate::time::Duration;

verus! {

/// One adapter-owned operation whose capability request is constructed by trusted code.
///
/// Implementations intentionally should not expose model-selected identifiers as trusted
/// capability fields. The complete operation value is retained by [`ExecutionGate`] while
/// human approval is pending.
pub trait GuardedOperation {
    /// What the operation asks for.
    spec fn asks(&self) -> RequestModel;

    /// The capability request of the operation.
    fn capability_request(&self) -> (r: CapabilityRequest<'_>)
        ensures
            r@ == self.asks(),
    ;
}

/// Executes one complete operation value without shell or prompt interpretation.
pub trait ExecutionAdapter<O: GuardedOperation>: Sized {
    type Output;

    type Error;

    /// What executing an operation may do to the adapter and return: anything, unless the
    /// adapter says more.
    open spec fn performs(
        before: Self,
        operation: O,
        after: Self,
        r: Result<Self::Output, Self::Error>,
    ) -> bool {
        true
    }

    /// Executes one operation.
    fn execute(&mut self, operation: O) -> (r: Result<Self::Output, Self::Error>)
        ensures
            Self::performs(*old(self), operation, *final(self), r),
    ;
}

/// Successful execution metadata returned after the adapter completes.
pub struct Executed<T> {
    pub output: T,
    pub approval: Option<ApprovalReceipt>,
}

/// Result of submitting one operation to the guarded adapter boundary.
pub enum ExecutionOutcome<T> {
    Executed(Executed<T>),
    Denied { reason: DenialReason },
    ApprovalRequired(ApprovalRequest),
}

/// Failure before or during guarded adapter execution.
pub enum ExecutionError<E> {
    Supervisor(SupervisorError),
    Adapter(E),
    OperationNotFound,
}

impl<E> ExecutionError<E> {
    /// The text of the failure. What the adapter reported is left out.
    pub open spec fn text(self) -> Seq<char> {
        match self {
            ExecutionError::Supervisor(_) => "operation authorization failed"@,
            ExecutionError::Adapter(_) => "adapter execution failed"@,
            ExecutionError::OperationNotFound => "pending operation not found"@,
        }
    }

    /// The text of the failure.
    #[must_use]
    pub fn display(&self) -> (r: &'static str)
        ensures
            r@ == self.text(),
    {
        match self {
            ExecutionError::Supervisor(_) => "operation authorization failed",
            ExecutionError::Adapter(_) => "adapter execution failed",
            ExecutionError::OperationNotFound => "pending operation not found",
        }
    }
}

/// One operation that the execution gate retains.
pub struct RetainedModel<O> {
    pub task: u128,
    pub approval: u128,
    pub operation: O,
}

struct PendingExecution<O> {
    task_id: TaskId,
    approval_id: ApprovalId,
    operation: O,
}

impl<O> View for PendingExecution<O> {
    type V = RetainedModel<O>;

    closed spec fn view(&self) -> RetainedModel<O> {
        RetainedModel {
            task: self.task_id.value,
            approval: self.approval_id.value,
            operation: self.operation,
        }
    }
}

/// What a gate retains.
#[verifier::ext_equal]
#[verifier::reject_recursive_types(O)]
pub struct GateModel<O> {
    /// By operation.
    pub pending: Map<u128, RetainedModel<O>>,
    /// From approvals to operations.
    pub index: Map<u128, u128>,
}

/// The approvals of some retained operations.
pub open spec fn approvals_of<O>(pending: Map<u128, RetainedModel<O>>, ids: Set<u128>) -> Set<
    u128,
> {
    Set::new(
        |approval: u128|
            exists|id: u128| #[trigger] ids.contains(id) && pending[id].approval == approval,
    )
}

/// The retained operations of one task.
pub open spec fn operations_of<O>(pending: Map<u128, RetainedModel<O>>, task: u128) -> Set<u128> {
    Set::new(|id: u128| pending.contains_key(id) && pending[id].task == task)
}

/// The retained operations of tasks that have ended.
pub open spec fn ended_operations<O>(
    pending: Map<u128, RetainedModel<O>>,
    m: SupervisorModel,
) -> Set<u128> {
    Set::new(
        |id: u128|
            pending.contains_key(id) && m.tasks.contains_key(pending[id].task)
                && m.tasks[pending[id].task].state.terminal(),
    )
}

impl<O> GateModel<O> {
    /// One more operation is retained.
    pub open spec fn retained(
        self,
        operation_id: u128,
        approval: u128,
        task: u128,
        operation: O,
    ) -> GateModel<O> {
        GateModel {
            pending: self.pending.insert(
                operation_id,
                RetainedModel { task, approval, operation },
            ),
            index: self.index.insert(approval, operation_id),
        }
    }

    /// One operation is released.
    pub open spec fn released(self, approval: u128, operation_id: u128) -> GateModel<O> {
        GateModel {
            pending: self.pending.remove(operation_id),
            index: self.index.remove(approval),
        }
    }

    /// Some operations are dropped, and their approvals forgotten.
    pub open spec fn dropped(self, ids: Set<u128>) -> GateModel<O> {
        GateModel {
            pending: self.pending.remove_keys(ids),
            index: self.index.remove_keys(approvals_of(self.pending, ids)),
        }
    }
}

/// Keeps complete operations private and invokes an adapter only after runtime authorization.
///
/// The execution gate deliberately exposes no reference to its adapter. Pending operation count is
/// bounded by the supervisor's approval authority.
#[verifier::reject_recursive_types(O)]
pub struct ExecutionGate<A, O> {
    adapter: A,
    pending: IdMap<PendingExecution<O>>,
    approval_index: IdMap<u128>,
}

impl<A, O> View for ExecutionGate<A, O> {
    type V = GateModel<O>;

    closed spec fn view(&self) -> GateModel<O> {
        GateModel { pending: self.pending@, index: self.approval_index@ }
    }
}

/// What a request does to the execution gate and returns, after the supervisor answered `answer`.
/// Only an allowed operation reaches the adapter; one that needs an approval is retained whole.
pub open spec fn gate_request<A: ExecutionAdapter<O>, O: GuardedOperation>(
    old: ExecutionGate<A, O>,
    new: ExecutionGate<A, O>,
    task: u128,
    operation: O,
    answer: Result<OperationAuthorization, SupervisorError>,
    r: Result<ExecutionOutcome<A::Output>, ExecutionError<A::Error>>,
) -> bool {
    match answer {
        Err(error) => {
            &&& r is Err && r->Err_0 == ExecutionError::<A::Error>::Supervisor(error)
            &&& new@ == old@
            &&& new.adapter() == old.adapter()
        },
        Ok(OperationAuthorization::Allowed) => {
            &&& new@ == old@
            &&& executed_result(old.adapter(), operation, new.adapter(), None, outcome_of(r))
        },
        Ok(OperationAuthorization::Denied { reason }) => {
            &&& r is Ok && r->Ok_0 == (ExecutionOutcome::<A::Output>::Denied { reason })
            &&& new@ == old@
            &&& new.adapter() == old.adapter()
        },
        Ok(OperationAuthorization::ApprovalRequired(approval)) => {
            &&& r is Ok && r->Ok_0 == ExecutionOutcome::<A::Output>::ApprovalRequired(approval)
            &&& new@ == old@.retained(
                approval.operation_id.value,
                approval.approval_id.value,
                task,
                operation,
            )
            &&& new.adapter() == old.adapter()
        },
    }
}

/// The execution that an outcome reports, if it reports one.
pub open spec fn outcome_of<T, E>(r: Result<ExecutionOutcome<T>, ExecutionError<E>>) -> Option<
    Result<Executed<T>, ExecutionError<E>>,
> {
    match r {
        Ok(ExecutionOutcome::Executed(executed)) => Some(Ok(executed)),
        Ok(_) => None,
        Err(error) => Some(Err(error)),
    }
}

/// Whether `r` reports that the adapter executed exactly `operation`.
pub open spec fn executed_result<A: ExecutionAdapter<O>, O: GuardedOperation>(
    before: A,
    operation: O,
    after: A,
    approval: Option<ApprovalReceipt>,
    r: Option<Result<Executed<A::Output>, ExecutionError<A::Error>>>,
) -> bool {
    match r {
        Some(Ok(executed)) => executed.approval == approval && A::performs(
            before,
            operation,
            after,
            Ok(executed.output),
        ),
        Some(Err(ExecutionError::Adapter(error))) => A::performs(
            before,
            operation,
            after,
            Err(error),
        ),
        _ => false,
    }
}

/// What an approval does to the execution gate and the supervisor and returns. The operation
/// that runs is the one that was retained, and it runs only after its approval was consumed.
pub open spec fn gate_approve<A: ExecutionAdapter<O>, O: GuardedOperation>(
    old: ExecutionGate<A, O>,
    new: ExecutionGate<A, O>,
    before: SupervisorModel,
    mid: SupervisorModel,
    after: SupervisorModel,
    approval: u128,
    granted: Result<TaskSnapshot, SupervisorError>,
    used: Result<ApprovalReceipt, SupervisorError>,
    r: Result<Executed<A::Output>, ExecutionError<A::Error>>,
) -> bool {
    if !holds(old@, approval) {
        &&& r is Err && r->Err_0 is OperationNotFound
        &&& new@ == old@
        &&& new.adapter() == old.adapter()
        &&& after == before
    } else {
        &&& supervisor::approved_operation(before, mid, approval, granted)
        &&& gate_grant(old, new, mid, after, approval, granted, used, r)
    }
}

/// Whether an execution gate holds the operation that an approval is for.
pub open spec fn holds<O>(gate: GateModel<O>, approval: u128) -> bool {
    gate.index.contains_key(approval) && gate.pending.contains_key(gate.index[approval])
}

/// What follows after the supervisor answered `granted` to an approval, and `used` to the use of
/// what it granted.
pub open spec fn gate_grant<A: ExecutionAdapter<O>, O: GuardedOperation>(
    old: ExecutionGate<A, O>,
    new: ExecutionGate<A, O>,
    before: SupervisorModel,
    after: SupervisorModel,
    approval: u128,
    granted: Result<TaskSnapshot, SupervisorError>,
    used: Result<ApprovalReceipt, SupervisorError>,
    r: Result<Executed<A::Output>, ExecutionError<A::Error>>,
) -> bool {
    let operation_id = old@.index[approval];
    let held = old@.pending[operation_id];
    match granted {
        Err(error) => {
            &&& r is Err && r->Err_0 == ExecutionError::<A::Error>::Supervisor(error)
            &&& new@ == old@
            &&& new.adapter() == old.adapter()
            &&& after == before
        },
        Ok(_) => {
            &&& new@ == old@.released(approval, operation_id)
            &&& supervisor::authorized_operation(
                before,
                after,
                held.task,
                operation_id,
                held.operation.asks(),
                used,
            )
            &&& gate_use(old.adapter(), held.operation, new.adapter(), used, r)
        },
    }
}

/// What follows after the supervisor answered `used` to the use of an approved operation.
pub open spec fn gate_use<A: ExecutionAdapter<O>, O: GuardedOperation>(
    before: A,
    operation: O,
    after: A,
    used: Result<ApprovalReceipt, SupervisorError>,
    r: Result<Executed<A::Output>, ExecutionError<A::Error>>,
) -> bool {
    match used {
        Err(error) => {
            &&& r is Err && r->Err_0 == ExecutionError::<A::Error>::Supervisor(error)
            &&& after == before
        },
        Ok(receipt) => executed_result(before, operation, after, Some(receipt), Some(r)),
    }
}

/// What a denial does to the execution gate and returns, after the supervisor answered `answer`.
pub open spec fn gate_deny<A, O, E>(
    old: ExecutionGate<A, O>,
    new: ExecutionGate<A, O>,
    before: SupervisorModel,
    after: SupervisorModel,
    approval: u128,
    answer: Result<TaskSnapshot, SupervisorError>,
    r: Result<TaskSnapshot, ExecutionError<E>>,
) -> bool {
    &&& new.adapter() == old.adapter()
    &&& if !old@.index.contains_key(approval) {
        r is Err && r->Err_0 is OperationNotFound && new@ == old@ && after == before
    } else {
        &&& supervisor::denied_operation(before, after, approval, answer)
        &&& match answer {
            Err(error) => r is Err && r->Err_0 == ExecutionError::<E>::Supervisor(error) && new@
                == old@,
            Ok(task) => r is Ok && r->Ok_0 == task && new@ == old@.released(
                approval,
                old@.index[approval],
            ),
        }
    }
}

/// What an expiry does to the execution gate and returns, after the supervisor answered `answer`.
pub open spec fn gate_expire<A, O, E>(
    old: ExecutionGate<A, O>,
    new: ExecutionGate<A, O>,
    after: SupervisorModel,
    answer: Result<usize, SupervisorError>,
    r: Result<usize, ExecutionError<E>>,
) -> bool {
    &&& new.adapter() == old.adapter()
    &&& match answer {
        Err(error) => r is Err && r->Err_0 == ExecutionError::<E>::Supervisor(error) && new@
            == old@,
        Ok(count) => r is Ok && r->Ok_0 == count && new@ == old@.dropped(
            ended_operations(old@.pending, after),
        ),
    }
}

/// What a cancellation does to the execution gate and returns, after the supervisor answered
/// `answer`.
pub open spec fn gate_cancel<A, O, E>(
    old: ExecutionGate<A, O>,
    new: ExecutionGate<A, O>,
    task: u128,
    answer: Result<bool, SupervisorError>,
    r: Result<bool, ExecutionError<E>>,
) -> bool {
    &&& new.adapter() == old.adapter()
    &&& match answer {
        Err(error) => r is Err && r->Err_0 == ExecutionError::<E>::Supervisor(error) && new@
            == old@,
        Ok(changed) => r is Ok && r->Ok_0 == changed && new@ == old@.dropped(
            operations_of(old@.pending, task),
        ),
    }
}

/// What a request does to the execution gate and the supervisor and returns, for some answer of
/// the supervisor.
pub open spec fn gate_requested<A: ExecutionAdapter<O>, O: GuardedOperation>(
    old: ExecutionGate<A, O>,
    new: ExecutionGate<A, O>,
    before: SupervisorModel,
    after: SupervisorModel,
    task: u128,
    operation: O,
    ttl: nat,
    r: Result<ExecutionOutcome<A::Output>, ExecutionError<A::Error>>,
) -> bool {
    exists|answer: Result<OperationAuthorization, SupervisorError>| #[trigger]
        supervisor::requested_operation(before, after, task, operation.asks(), ttl, answer)
            && gate_request(old, new, task, operation, answer, r)
}

/// What an approval does to the execution gate and the supervisor and returns, for some answers
/// of the supervisor.
pub open spec fn gate_approved<A: ExecutionAdapter<O>, O: GuardedOperation>(
    old: ExecutionGate<A, O>,
    new: ExecutionGate<A, O>,
    before: SupervisorModel,
    after: SupervisorModel,
    approval: u128,
    r: Result<Executed<A::Output>, ExecutionError<A::Error>>,
) -> bool {
    exists|
        mid: SupervisorModel,
        granted: Result<TaskSnapshot, SupervisorError>,
        used: Result<ApprovalReceipt, SupervisorError>,
    |
        mid.coherent() && #[trigger] gate_approve(
            old,
            new,
            before,
            mid,
            after,
            approval,
            granted,
            used,
            r,
        )
}

/// What a denial does to the execution gate and the supervisor and returns, for some answer of
/// the supervisor.
pub open spec fn gate_denied<A, O, E>(
    old: ExecutionGate<A, O>,
    new: ExecutionGate<A, O>,
    before: SupervisorModel,
    after: SupervisorModel,
    approval: u128,
    r: Result<TaskSnapshot, ExecutionError<E>>,
) -> bool {
    exists|answer: Result<TaskSnapshot, SupervisorError>| #[trigger]
        gate_deny(old, new, before, after, approval, answer, r)
}

/// What an expiry does to the execution gate and the supervisor and returns, for some answer of
/// the supervisor.
pub open spec fn gate_expired<A, O, E>(
    old: ExecutionGate<A, O>,
    new: ExecutionGate<A, O>,
    before: SupervisorModel,
    after: SupervisorModel,
    r: Result<usize, ExecutionError<E>>,
) -> bool {
    exists|answer: Result<usize, SupervisorError>| #[trigger]
        supervisor::expired_approvals(before, after, answer) && gate_expire(
            old,
            new,
            after,
            answer,
            r,
        )
}

/// What a cancellation does to the execution gate and the supervisor and returns, for some
/// answer of the supervisor.
pub open spec fn gate_cancelled<A, O, E>(
    old: ExecutionGate<A, O>,
    new: ExecutionGate<A, O>,
    before: SupervisorModel,
    after: SupervisorModel,
    task: u128,
    r: Result<bool, ExecutionError<E>>,
) -> bool {
    exists|answer: Result<bool, SupervisorError>| #[trigger]
        supervisor::cancel_outcome(before, after, task, answer) && gate_cancel(
            old,
            new,
            task,
            answer,
            r,
        )
}

/// Whether a failure comes from the event store.
pub open spec fn store_failed<T, E>(r: Result<T, ExecutionError<E>>) -> bool {
    r matches Err(ExecutionError::Supervisor(SupervisorError::EventStore(_)))
}

/// The task of the operation that an approval is for.
pub open spec fn held_task<O>(gate: GateModel<O>, approval: u128) -> u128 {
    gate.pending[gate.index[approval]].task
}

impl<A, O> ExecutionGate<A, O> {
    /// The adapter behind the execution gate.
    pub closed spec fn adapter(&self) -> A {
        self.adapter
    }
}

impl<A, O> ExecutionGate<A, O> where O: GuardedOperation, A: ExecutionAdapter<O> {
    /// Puts an adapter behind a gate.
    #[must_use]
    pub fn new(adapter: A) -> (r: ExecutionGate<A, O>)
        ensures
            r.adapter() == adapter,
            r@ == (GateModel {
                pending: Map::<u128, RetainedModel<O>>::empty(),
                index: Map::<u128, u128>::empty(),
            }),
    {
        ExecutionGate { adapter, pending: IdMap::new(), approval_index: IdMap::new() }
    }

    /// Authorizes an operation and executes it immediately only when no approval is required.
    pub fn request<S: EventStore>(
        &mut self,
        supervisor: &mut TaskSupervisor<S>,
        task_id: TaskId,
        operation: O,
        approval_ttl: Duration,
    ) -> (r: Result<ExecutionOutcome<A::Output>, ExecutionError<A::Error>>)
        requires
            old(supervisor)@.coherent(),
        ensures
            final(supervisor)@.coherent(),
            event::carries(old(supervisor).store(), final(supervisor).store()),
            gate_requested(
                *old(self),
                *final(self),
                old(supervisor)@,
                final(supervisor)@,
                task_id.value,
                operation,
                approval_ttl.nanos as nat,
                r,
            ),
            old(supervisor).admits_every_sweep() && old(supervisor).admits(task_id.value, 1)
                && old(supervisor).admits(task_id.value, 2) ==> !store_failed(r),
    {
        let answer = supervisor.request_operation(
            task_id,
            operation.capability_request(),
            approval_ttl,
        );
        self.take_authorization(task_id, operation, answer)
    }

    /// Goes on from the answer of the supervisor to a request.
    pub(crate) fn take_authorization(
        &mut self,
        task_id: TaskId,
        operation: O,
        answer: Result<OperationAuthorization, SupervisorError>,
    ) -> (r: Result<ExecutionOutcome<A::Output>, ExecutionError<A::Error>>)
        ensures
            gate_request(*old(self), *final(self), task_id.value, operation, answer, r),
    {
        match answer {
            Err(error) => Err(ExecutionError::Supervisor(error)),
            Ok(OperationAuthorization::Allowed) => match self.adapter.execute(operation) {
                Ok(output) => Ok(
                    ExecutionOutcome::Executed(Executed { output, approval: None }),
                ),
                Err(error) => Err(ExecutionError::Adapter(error)),
            },
            Ok(OperationAuthorization::Denied { reason }) => Ok(
                ExecutionOutcome::Denied { reason },
            ),
            Ok(OperationAuthorization::ApprovalRequired(approval)) => {
                self.pending.insert(
                    approval.operation_id.value,
                    PendingExecution { task_id, approval_id: approval.approval_id, operation },
                );
                self.approval_index.insert(
                    approval.approval_id.value,
                    approval.operation_id.value,
                );
                Ok(ExecutionOutcome::ApprovalRequired(approval))
            },
        }
    }

    /// Approves, consumes, and executes the exact operation retained by the execution gate.
    pub fn approve_and_execute<S: EventStore>(
        &mut self,
        supervisor: &mut TaskSupervisor<S>,
        approval_id: ApprovalId,
    ) -> (r: Result<Executed<A::Output>, ExecutionError<A::Error>>)
        requires
            old(supervisor)@.coherent(),
        ensures
            final(supervisor)@.coherent(),
            event::carries(old(supervisor).store(), final(supervisor).store()),
            gate_approved(
                *old(self),
                *final(self),
                old(supervisor)@,
                final(supervisor)@,
                approval_id.value,
                r,
            ),
            old(supervisor).has_room(held_task(old(self)@, approval_id.value), 3)
                ==> !store_failed(r),
    {
        let ghost before = supervisor@;
        let ghost nothing: Result<ApprovalReceipt, SupervisorError> = Err(
            SupervisorError::TaskNotFound,
        );
        let ghost unasked: Result<TaskSnapshot, SupervisorError> = Err(
            SupervisorError::TaskNotFound,
        );
        if self.find_operation(approval_id).is_none() {
            let r: Result<Executed<A::Output>, ExecutionError<A::Error>> = Err(
                ExecutionError::OperationNotFound,
            );
            assert(gate_approve(
                *old(self),
                *self,
                before,
                before,
                supervisor@,
                approval_id.value,
                unasked,
                nothing,
                r,
            ));
            return r;
        }
        let granted = supervisor.approve_operation(approval_id);
        let ghost mid = *supervisor;
        let r = self.take_grant(supervisor, approval_id, granted);
        proof {
            event::lemma_carries_on(old(supervisor).store(), mid.store(), supervisor.store());
            let task = held_task(old(self)@, approval_id.value);
            if old(supervisor).has_room(task, 3) {
                room::lemma_grant_leaves_room(
                    *old(supervisor),
                    mid,
                    task,
                    approval_id.value,
                    granted,
                    3,
                );
            }
            let used = choose|used: Result<ApprovalReceipt, SupervisorError>| #[trigger]
                gate_grant(
                    *old(self),
                    *self,
                    mid@,
                    supervisor@,
                    approval_id.value,
                    granted,
                    used,
                    r,
                );
            assert(gate_approve(
                *old(self),
                *self,
                before,
                mid@,
                supervisor@,
                approval_id.value,
                granted,
                used,
                r,
            ));
        }
        r
    }

    fn find_operation(&self, approval_id: ApprovalId) -> (r: Option<OperationId>)
        ensures
            r == (if holds(self@, approval_id.value) {
                Some((OperationId { value: self@.index[approval_id.value] }))
            } else {
                None
            }),
    {
        match self.approval_index.get(approval_id.value) {
            Some(found) => {
                if self.pending.contains(*found) {
                    Some(OperationId { value: *found })
                } else {
                    None
                }
            },
            None => None,
        }
    }

    /// Goes on from the answer of the supervisor to an approval.
    pub(crate) fn take_grant<S: EventStore>(
        &mut self,
        supervisor: &mut TaskSupervisor<S>,
        approval_id: ApprovalId,
        granted: Result<TaskSnapshot, SupervisorError>,
    ) -> (r: Result<Executed<A::Output>, ExecutionError<A::Error>>)
        requires
            old(supervisor)@.coherent(),
            holds(old(self)@, approval_id.value),
        ensures
            final(supervisor)@.coherent(),
            event::carries(old(supervisor).store(), final(supervisor).store()),
            exists|used: Result<ApprovalReceipt, SupervisorError>| #[trigger]
                gate_grant(
                    *old(self),
                    *final(self),
                    old(supervisor)@,
                    final(supervisor)@,
                    approval_id.value,
                    granted,
                    used,
                    r,
                ),
            old(supervisor).admits(held_task(old(self)@, approval_id.value), 1) && store_failed(r)
                ==> granted matches Err(SupervisorError::EventStore(_)),
    {
        let ghost nothing: Result<ApprovalReceipt, SupervisorError> = Err(
            SupervisorError::TaskNotFound,
        );
        if let Err(error) = granted {
            let r: Result<Executed<A::Output>, ExecutionError<A::Error>> = Err(
                ExecutionError::Supervisor(error),
            );
            assert(gate_grant(
                *old(self),
                *self,
                old(supervisor)@,
                supervisor@,
                approval_id.value,
                granted,
                nothing,
                r,
            ));
            return r;
        }
        let operation_id = match self.find_operation(approval_id) {
            Some(operation_id) => operation_id,
            None => {
                assert(false);
                return Err(ExecutionError::OperationNotFound);
            },
        };
        let pending = match self.remove_pending(approval_id, operation_id) {
            Some(pending) => pending,
            None => {
                assert(false);
                return Err(ExecutionError::OperationNotFound);
            },
        };
        let used = supervisor.authorize_operation(
            pending.task_id,
            operation_id,
            pending.operation.capability_request(),
        );
        let r = self.take_receipt(pending.operation, used);
        assert(gate_grant(
            *old(self),
            *self,
            old(supervisor)@,
            supervisor@,
            approval_id.value,
            granted,
            used,
            r,
        ));
        r
    }

    /// Goes on from the answer of the supervisor to the use of an approved operation.
    pub(crate) fn take_receipt(
        &mut self,
        operation: O,
        used: Result<ApprovalReceipt, SupervisorError>,
    ) -> (r: Result<Executed<A::Output>, ExecutionError<A::Error>>)
        ensures
            final(self)@ == old(self)@,
            gate_use(old(self).adapter(), operation, final(self).adapter(), used, r),
    {
        match used {
            Err(error) => Err(ExecutionError::Supervisor(error)),
            Ok(receipt) => match self.adapter.execute(operation) {
                Ok(output) => Ok(Executed { output, approval: Some(receipt) }),
                Err(error) => Err(ExecutionError::Adapter(error)),
            },
        }
    }

    /// Denies a pending operation and removes its complete value only after audit persistence.
    pub fn deny<S: EventStore>(
        &mut self,
        supervisor: &mut TaskSupervisor<S>,
        approval_id: ApprovalId,
    ) -> (r: Result<TaskSnapshot, ExecutionError<A::Error>>)
        requires
            old(supervisor)@.coherent(),
        ensures
            final(supervisor)@.coherent(),
            event::carries(old(supervisor).store(), final(supervisor).store()),
            gate_denied(
                *old(self),
                *final(self),
                old(supervisor)@,
                final(supervisor)@,
                approval_id.value,
                r,
            ),
            old(supervisor).admits_every_sweep() ==> !store_failed(r),
    {
        let ghost before = supervisor@;
        if self.approval_index.get(approval_id.value).is_none() {
            let r: Result<TaskSnapshot, ExecutionError<A::Error>> = Err(
                ExecutionError::OperationNotFound,
            );
            assert(gate_deny(
                *old(self),
                *self,
                before,
                supervisor@,
                approval_id.value,
                Err(SupervisorError::TaskNotFound),
                r,
            ));
            return r;
        }
        let answer = supervisor.deny_operation(approval_id);
        let r = self.take_denial(approval_id, answer);
        assert(gate_deny(
            *old(self),
            *self,
            before,
            supervisor@,
            approval_id.value,
            answer,
            r,
        ));
        r
    }

    /// Goes on from the answer of the supervisor to a denial.
    pub(crate) fn take_denial(
        &mut self,
        approval_id: ApprovalId,
        answer: Result<TaskSnapshot, SupervisorError>,
    ) -> (r: Result<TaskSnapshot, ExecutionError<A::Error>>)
        ensures
            final(self).adapter() == old(self).adapter(),
            match answer {
                Err(error) => r is Err && r->Err_0 == ExecutionError::<A::Error>::Supervisor(error)
                    && final(self)@ == old(self)@,
                Ok(task) => r is Ok && r->Ok_0 == task && final(self)@ == (if old(
                    self,
                )@.index.contains_key(approval_id.value) {
                    old(self)@.released(approval_id.value, old(self)@.index[approval_id.value])
                } else {
                    old(self)@
                }),
            },
    {
        match answer {
            Ok(task) => {
                if let Some(found) = self.approval_index.get(approval_id.value) {
                    let operation_id = OperationId { value: *found };
                    let _ = self.remove_pending(approval_id, operation_id);
                }
                Ok(task)
            },
            Err(error) => Err(ExecutionError::Supervisor(error)),
        }
    }

    /// Expires runtime approvals and drops complete operations for newly terminal tasks.
    pub fn expire<S: EventStore>(&mut self, supervisor: &mut TaskSupervisor<S>) -> (r: Result<
        usize,
        ExecutionError<A::Error>,
    >)
        requires
            old(supervisor)@.coherent(),
        ensures
            final(supervisor)@.coherent(),
            event::carries(old(supervisor).store(), final(supervisor).store()),
            gate_expired(*old(self), *final(self), old(supervisor)@, final(supervisor)@, r),
            old(supervisor).admits_every_sweep() ==> r is Ok,
    {
        let answer = supervisor.expire_approvals();
        self.take_expiry(supervisor, answer)
    }

    /// Goes on from the answer of the supervisor to an expiry of approvals.
    pub(crate) fn take_expiry<S: EventStore>(
        &mut self,
        supervisor: &TaskSupervisor<S>,
        answer: Result<usize, SupervisorError>,
    ) -> (r: Result<usize, ExecutionError<A::Error>>)
        ensures
            gate_expire(*old(self), *final(self), supervisor@, answer, r),
    {
        match answer {
            Err(error) => Err(ExecutionError::Supervisor(error)),
            Ok(expired) => {
                self.purge_terminal(supervisor);
                Ok(expired)
            },
        }
    }

    /// Cancels a task and drops its retained operations after the runtime invalidates approvals.
    pub fn cancel<S: EventStore>(
        &mut self,
        supervisor: &mut TaskSupervisor<S>,
        task_id: TaskId,
    ) -> (r: Result<bool, ExecutionError<A::Error>>)
        requires
            old(supervisor)@.coherent(),
        ensures
            final(supervisor)@.coherent(),
            event::carries(old(supervisor).store(), final(supervisor).store()),
            gate_cancelled(
                *old(self),
                *final(self),
                old(supervisor)@,
                final(supervisor)@,
                task_id.value,
                r,
            ),
            store_failed(r) ==> !old(supervisor).admits(
                task_id.value,
                old(supervisor)@.transition_kinds(
                    task_id.value,
                    TaskState::Cancelled,
                    None,
                ).len(),
            ),
    {
        let answer = supervisor.cancel(task_id);
        self.take_cancellation(task_id, answer)
    }

    /// Goes on from the answer of the supervisor to a cancellation.
    pub(crate) fn take_cancellation(
        &mut self,
        task_id: TaskId,
        answer: Result<bool, SupervisorError>,
    ) -> (r: Result<bool, ExecutionError<A::Error>>)
        ensures
            gate_cancel(*old(self), *final(self), task_id.value, answer, r),
    {
        match answer {
            Err(error) => Err(ExecutionError::Supervisor(error)),
            Ok(changed) => {
                self.remove_task(task_id);
                Ok(changed)
            },
        }
    }

    /// How many operations the execution gate retains.
    #[must_use]
    pub fn pending_count(&self) -> (r: usize)
        ensures
            r == self@.pending.dom().len(),
    {
        self.pending.len()
    }

    fn remove_pending(&mut self, approval_id: ApprovalId, operation_id: OperationId) -> (r: Option<
        PendingExecution<O>,
    >)
        ensures
            final(self)@ == old(self)@.released(approval_id.value, operation_id.value),
            final(self).adapter() == old(self).adapter(),
            r is Some <==> old(self)@.pending.contains_key(operation_id.value),
            r is Some ==> (r->0)@ == old(self)@.pending[operation_id.value],
    {
        let _ = self.approval_index.remove(approval_id.value);
        self.pending.remove(operation_id.value)
    }

    fn remove_task(&mut self, task_id: TaskId)
        ensures
            final(self)@ == old(self)@.dropped(
                operations_of(old(self)@.pending, task_id.value),
            ),
            final(self).adapter() == old(self).adapter(),
    {
        let ids = self.pending.ids();
        let ghost start = self@;
        let ghost wanted = operations_of(start.pending, task_id.value);
        let mut chosen: Vec<u128> = Vec::new();
        let mut i: usize = 0;
        while i < ids.len()
            invariant
                i <= ids@.len(),
                *self == *old(self),
                start == self@,
                wanted == operations_of(start.pending, task_id.value),
                idmap::lists_ascending(ids@, start.pending.dom()),
                forall|k: int| 0 <= k < chosen@.len() ==> wanted.contains(#[trigger] chosen@[k]),
                forall|k: int| 0 <= k < i && wanted.contains(#[trigger] ids@[k]) ==> chosen@
                    .contains(ids@[k]),
            decreases ids@.len() - i,
        {
            let ghost before = chosen@;
            assert(ids@.to_set().contains(ids@[i as int]));
            if let Some(pending) = self.pending.get(ids[i]) {
                if pending.task_id == task_id {
                    chosen.push(ids[i]);
                    assert(chosen@[before.len() as int] == ids@[i as int]);
                }
            }
            assert forall|k: int| 0 <= k < i + 1 && wanted.contains(#[trigger] ids@[k]) implies chosen@
                .contains(ids@[k]) by {
                if k < i {
                    let m = choose|m: int| 0 <= m < before.len() && before[m] == ids@[k];
                    assert(chosen@[m] == ids@[k]);
                }
            }
            i = i + 1;
        }
        proof {
            lemma_chosen_all(ids@, start.pending.dom(), wanted, chosen@);
        }
        self.drop_operations(&chosen);
    }

    fn purge_terminal<S: EventStore>(&mut self, supervisor: &TaskSupervisor<S>)
        ensures
            final(self)@ == old(self)@.dropped(
                ended_operations(old(self)@.pending, supervisor@),
            ),
            final(self).adapter() == old(self).adapter(),
    {
        let ids = self.pending.ids();
        let ghost start = self@;
        let ghost wanted = ended_operations(start.pending, supervisor@);
        let mut chosen: Vec<u128> = Vec::new();
        let mut i: usize = 0;
        while i < ids.len()
            invariant
                i <= ids@.len(),
                *self == *old(self),
                start == self@,
                wanted == ended_operations(start.pending, supervisor@),
                idmap::lists_ascending(ids@, start.pending.dom()),
                forall|k: int| 0 <= k < chosen@.len() ==> wanted.contains(#[trigger] chosen@[k]),
                forall|k: int| 0 <= k < i && wanted.contains(#[trigger] ids@[k]) ==> chosen@
                    .contains(ids@[k]),
            decreases ids@.len() - i,
        {
            let ghost before = chosen@;
            assert(ids@.to_set().contains(ids@[i as int]));
            if let Some(pending) = self.pending.get(ids[i]) {
                if let Some(task) = supervisor.get(pending.task_id) {
                    if task.state.is_terminal() {
                        chosen.push(ids[i]);
                        assert(chosen@[before.len() as int] == ids@[i as int]);
                    }
                }
            }
            assert forall|k: int| 0 <= k < i + 1 && wanted.contains(#[trigger] ids@[k]) implies chosen@
                .contains(ids@[k]) by {
                if k < i {
                    let m = choose|m: int| 0 <= m < before.len() && before[m] == ids@[k];
                    assert(chosen@[m] == ids@[k]);
                }
            }
            i = i + 1;
        }
        proof {
            lemma_chosen_all(ids@, start.pending.dom(), wanted, chosen@);
        }
        self.drop_operations(&chosen);
    }

    fn drop_operations(&mut self, ids: &Vec<u128>)
        requires
            forall|k: int| 0 <= k < ids@.len() ==> old(self)@.pending.contains_key(#[trigger] ids@[k]),
        ensures
            final(self)@ == old(self)@.dropped(ids@.to_set()),
            final(self).adapter() == old(self).adapter(),
    {
        let ghost start = self@;
        let mut i: usize = 0;
        proof {
            let none = ids@.take(0).to_set();
            assert(none =~= Set::<u128>::empty());
            assert(start.pending.remove_keys(none) =~= start.pending);
            assert(start.index.remove_keys(approvals_of(start.pending, none)) =~= start.index);
        }
        while i < ids.len()
            invariant
                i <= ids@.len(),
                start == old(self)@,
                self.adapter() == old(self).adapter(),
                forall|k: int|
                    0 <= k < ids@.len() ==> start.pending.contains_key(#[trigger] ids@[k]),
                self@ == start.dropped(ids@.take(i as int).to_set()),
            decreases ids@.len() - i,
        {
            let ghost done = ids@.take(i as int).to_set();
            let ghost next = ids@.take(i + 1).to_set();
            let ghost id = ids@[i as int];
            proof {
                lemma_take_one(ids@, i as int);
            }
            if let Some(pending) = self.pending.remove(ids[i]) {
                assert(pending@ == start.pending[id]);
                let _ = self.approval_index.remove(pending.approval_id.value);
                proof {
                    lemma_approvals_insert(start.pending, done, id);
                    assert(self@.index =~= start.index.remove_keys(
                        approvals_of(start.pending, next),
                    ));
                }
            } else {
                proof {
                    assert(done.contains(id));
                    assert(next =~= done);
                    assert(self@.index =~= start.index.remove_keys(
                        approvals_of(start.pending, next),
                    ));
                }
            }
            assert(self@.pending =~= start.pending.remove_keys(next));
            i = i + 1;
        }
        assert(ids@.take(i as int) =~= ids@);
    }
}

proof fn lemma_take_one(list: Seq<u128>, i: int)
    requires
        0 <= i < list.len(),
    ensures
        list.take(i + 1).to_set() == list.take(i).to_set().insert(list[i]),
{
    let next = list.take(i + 1);
    let done = list.take(i).to_set();
    assert(next =~= list.take(i).push(list[i]));
    assert forall|k: u128| done.insert(list[i]).contains(k) implies next.to_set().contains(k) by {
        if k == list[i] {
            assert(next[i] == k);
        } else {
            let m = choose|m: int| 0 <= m < i && list.take(i)[m] == k;
            assert(next[m] == k);
        }
    }
    assert(next.to_set() =~= done.insert(list[i]));
}

proof fn lemma_approvals_insert<O>(
    pending: Map<u128, RetainedModel<O>>,
    done: Set<u128>,
    id: u128,
)
    ensures
        approvals_of(pending, done.insert(id)) == approvals_of(pending, done).insert(
            pending[id].approval,
        ),
{
    let left = approvals_of(pending, done.insert(id));
    let right = approvals_of(pending, done).insert(pending[id].approval);
    assert forall|a: u128| left.contains(a) implies right.contains(a) by {
        let k = choose|k: u128| #[trigger]
            done.insert(id).contains(k) && pending[k].approval == a;
        if k != id {
            assert(done.contains(k));
        }
    }
    assert forall|a: u128| right.contains(a) implies left.contains(a) by {
        if a == pending[id].approval {
            assert(done.insert(id).contains(id));
        } else {
            let k = choose|k: u128| #[trigger] done.contains(k) && pending[k].approval == a;
            assert(done.insert(id).contains(k));
        }
    }
    assert(left =~= right);
}

proof fn lemma_chosen_all(ids: Seq<u128>, all: Set<u128>, wanted: Set<u128>, chosen: Seq<u128>)
    requires
        ids.to_set() == all,
        wanted.subset_of(all),
        forall|k: int| 0 <= k < chosen.len() ==> wanted.contains(#[trigger] chosen[k]),
        forall|k: int| 0 <= k < ids.len() && wanted.contains(#[trigger] ids[k]) ==> chosen.contains(
            ids[k],
        ),
    ensures
        chosen.to_set() == wanted,
{
    assert forall|k: u128| wanted.contains(k) implies chosen.to_set().contains(k) by {
        assert(all.contains(k));
        assert(ids.to_set().contains(k));
        let m = choose|m: int| 0 <= m < ids.len() && ids[m] == k;
        assert(wanted.contains(ids[m]));
    }
    assert(chosen.to_set() =~= wanted);
}

/// A denied operation never reaches the adapter, nor does one that waits for an approval.
pub proof fn law_only_authorized_operations_run<A: ExecutionAdapter<O>, O: GuardedOperation>(
    old: ExecutionGate<A, O>,
    new: ExecutionGate<A, O>,
    task: u128,
    operation: O,
    answer: Result<OperationAuthorization, SupervisorError>,
    r: Result<ExecutionOutcome<A::Output>, ExecutionError<A::Error>>,
)
    requires
        gate_request(old, new, task, operation, answer, r),
        !(answer is Ok && answer->Ok_0 is Allowed),
    ensures
        new.adapter() == old.adapter(),
        !(r is Ok && r->Ok_0 is Executed),
{
}

/// What runs at once was allowed: where a request ends in an execution, the task is running and
/// its policy allows what the operation asks for.
pub proof fn law_policy_allows_what_runs<A: ExecutionAdapter<O>, O: GuardedOperation>(
    old: ExecutionGate<A, O>,
    new: ExecutionGate<A, O>,
    before: SupervisorModel,
    after: SupervisorModel,
    task: u128,
    operation: O,
    ttl: nat,
    answer: Result<OperationAuthorization, SupervisorError>,
    r: Result<ExecutionOutcome<A::Output>, ExecutionError<A::Error>>,
)
    requires
        supervisor::requested_operation(before, after, task, operation.asks(), ttl, answer),
        gate_request(old, new, task, operation, answer, r),
        r is Ok,
        r->Ok_0 is Executed,
    ensures
        before.tasks.contains_key(task),
        before.tasks[task].state is Running,
        before.tasks[task].spec->0.decide(operation.asks()) is Allow,
{
    let (now, approval, id, mid, swept) = choose|
        now: u128,
        approval: u128,
        id: u128,
        mid: SupervisorModel,
        swept: Result<usize, SupervisorError>,
    |
        #[trigger] supervisor::expire_outcome(before, mid, now, swept) && supervisor::after_expiry(
            swept,
            mid,
            after,
            answer,
            #[trigger] supervisor::request_outcome(
                mid,
                after,
                now,
                approval,
                id,
                task,
                operation.asks(),
                ttl,
                answer,
            ),
        );
    assert(answer is Ok && answer->Ok_0 is Allowed);
    assert(swept is Ok);
    assert(mid.tasks.dom().contains(task));
    assert(before.tasks.contains_key(task));
}

/// What runs after an approval is what was asked for: where an approval ends in an execution,
/// the task is running, and its policy asks for an approval of what the retained operation asks
/// for.
pub proof fn law_policy_knows_what_is_approved<A: ExecutionAdapter<O>, O: GuardedOperation>(
    old: ExecutionGate<A, O>,
    new: ExecutionGate<A, O>,
    before: SupervisorModel,
    mid: SupervisorModel,
    after: SupervisorModel,
    approval: u128,
    granted: Result<TaskSnapshot, SupervisorError>,
    used: Result<ApprovalReceipt, SupervisorError>,
    r: Result<Executed<A::Output>, ExecutionError<A::Error>>,
)
    requires
        mid.coherent(),
        gate_approve(old, new, before, mid, after, approval, granted, used, r),
        r is Ok,
    ensures
        old@.index.contains_key(approval),
        old@.pending.contains_key(old@.index[approval]),
        ({
            let held = old@.pending[old@.index[approval]];
            &&& mid.tasks.contains_key(held.task)
            &&& mid.tasks[held.task].state is Running
            &&& mid.tasks[held.task].spec->0.decide(held.operation.asks()) is ApprovalRequired
            &&& r->Ok_0.approval is Some
        }),
{
    let operation_id = old@.index[approval];
    let held = old@.pending[operation_id];
    let now = choose|now: u128| #[trigger]
        supervisor::authorize_outcome(
            mid,
            after,
            now,
            held.task,
            operation_id,
            held.operation.asks(),
            used,
        );
    assert(used is Ok);
    assert(mid.approved.contains_key(operation_id));
    assert(mid.approved_sound(operation_id));
}

/// A retained operation runs at most once: after an approval that got past the supervisor's
/// grant, the execution gate no longer knows it.
pub proof fn law_retained_operations_run_once<A: ExecutionAdapter<O>, O: GuardedOperation>(
    old: ExecutionGate<A, O>,
    mid_gate: ExecutionGate<A, O>,
    new: ExecutionGate<A, O>,
    m0: SupervisorModel,
    m1: SupervisorModel,
    m2: SupervisorModel,
    m3: SupervisorModel,
    m4: SupervisorModel,
    approval: u128,
    granted: Result<TaskSnapshot, SupervisorError>,
    used: Result<ApprovalReceipt, SupervisorError>,
    r: Result<Executed<A::Output>, ExecutionError<A::Error>>,
    granted2: Result<TaskSnapshot, SupervisorError>,
    used2: Result<ApprovalReceipt, SupervisorError>,
    s: Result<Executed<A::Output>, ExecutionError<A::Error>>,
)
    requires
        gate_approve(old, mid_gate, m0, m1, m2, approval, granted, used, r),
        granted is Ok,
        gate_approve(mid_gate, new, m2, m3, m4, approval, granted2, used2, s),
    ensures
        s is Err,
        s->Err_0 is OperationNotFound,
        new.adapter() == mid_gate.adapter(),
        m4 == m2,
{
}

/// After an approval that ended in an execution, or in a failure of the adapter, there is room
/// left for all but three events, where the end of the task may take one more.
pub proof fn lemma_approval_leaves_room<
    A: ExecutionAdapter<O>,
    O: GuardedOperation,
    S: EventStore,
>(
    old: ExecutionGate<A, O>,
    new: ExecutionGate<A, O>,
    before: TaskSupervisor<S>,
    after: TaskSupervisor<S>,
    approval: u128,
    r: Result<Executed<A::Output>, ExecutionError<A::Error>>,
    task: u128,
    count: nat,
)
    requires
        before@.coherent(),
        event::carries(before.store(), after.store()),
        gate_approved(old, new, before@, after@, approval, r),
        before.has_room(task, count),
        before.has_room(held_task(old@, approval), 5),
        count >= 5,
        !(r matches Err(ExecutionError::Supervisor(_))),
    ensures
        after.has_room(task, (count - 3) as nat),
        room::ending(after@, task) <= room::ending(before@, task) + 1,
{
    let (mid, granted, used) = choose|
        mid: SupervisorModel,
        granted: Result<TaskSnapshot, SupervisorError>,
        used: Result<ApprovalReceipt, SupervisorError>,
    |
        mid.coherent() && #[trigger] gate_approve(
            old,
            new,
            before@,
            mid,
            after@,
            approval,
            granted,
            used,
            r,
        );
    if old@.index.contains_key(approval) && old@.pending.contains_key(old@.index[approval]) {
        let operation_id = old@.index[approval];
        room::lemma_grant_and_use_leave_room(
            before,
            mid,
            after,
            task,
            approval,
            granted,
            held_task(old@, approval),
            operation_id,
            old@.pending[operation_id].operation.asks(),
            used,
            count,
        );
    } else {
        room::lemma_room_left(before, after, task, count, 3);
    }
}

} // verus!
