//! The mathematical model of the task supervisor.
//!
//! Each operation of the supervisor is an effect on [`SupervisorModel`], applied only after
//! its audit events were appended to the log. [`SupervisorModel::coherent`] is what every
//! operation keeps.

use vstd::prelude::*;

use crate::approval::{AuthorityModel, GrantModel, PendingModel};
use crate::error::ErrorCode;
use crate::event;
use crate::event::{EventLog, TaskEvent, TaskEventKind};
use crate::idmap;
use crate::ids::{ApprovalId, OperationId};
use crate::policy::{PolicyDecision, RequestModel};
use crate::recovery;
use crate::recovery::Replay;
use crate::state::TaskState;
use crate::task::TaskModel;
use crate::time::NANOS_PER_SECOND;

verus! {

/// What the supervisor knows of one task.
pub struct RecordModel {
    /// `None` for a task that was found again after a restart.
    pub spec: Option<TaskModel>,
    pub state: TaskState,
    /// When the wall-time budget of a started task is used up.
    pub deadline: Option<u128>,
}

/// One operation that waits for an approval.
pub struct OperationModel {
    pub task: u128,
    pub operation: u128,
    pub request: RequestModel,
}

/// One operation that was approved and not consumed yet.
pub struct ApprovedModel {
    pub task: u128,
    pub request: RequestModel,
    pub grant: GrantModel,
}

/// What the supervisor knows.
#[verifier::ext_equal]
pub struct SupervisorModel {
    pub tasks: Map<u128, RecordModel>,
    /// Idempotency keys.
    pub index: Map<Seq<char>, u128>,
    pub log: EventLog,
    pub authority: AuthorityModel,
    /// By approval.
    pub pending: Map<u128, OperationModel>,
    /// By operation.
    pub approved: Map<u128, ApprovedModel>,
    pub max_tasks: nat,
}

/// The approvals that operations of one task wait for.
pub open spec fn pending_for(pending: Map<u128, OperationModel>, task: u128) -> Set<u128> {
    Set::new(|id: u128| pending.contains_key(id) && pending[id].task == task)
}

/// The approved operations of one task.
pub open spec fn approved_for(approved: Map<u128, ApprovedModel>, task: u128) -> Set<u128> {
    Set::new(|id: u128| approved.contains_key(id) && approved[id].task == task)
}

impl RecordModel {
    /// Only a valid task is ever queued or run, and a started task has a deadline.
    pub open spec fn sound(self) -> bool {
        &&& !(self.state is Submitted) && !(self.state is Validating)
        &&& !self.state.terminal() ==> self.spec is Some && self.spec->0.valid()
        &&& self.state is Running || self.state is WaitingApproval ==> self.deadline is Some
    }
}

impl SupervisorModel {
    /// A pending operation is what its approval is bound to, and its task waits for it or
    /// was started over.
    pub open spec fn pending_sound(self, id: u128) -> bool {
        let p = self.pending[id];
        let a = self.authority.pending[id];
        &&& a.task == p.task
        &&& a.operation == p.operation
        &&& a.action == p.request.action()
        &&& self.tasks.contains_key(p.task)
        &&& self.tasks[p.task].state is WaitingApproval || self.tasks[p.task].state is Running
        &&& self.tasks[p.task].spec->0.decide(p.request) is ApprovalRequired
    }

    /// An approved operation is what its grant is bound to, and its task was started.
    pub open spec fn approved_sound(self, id: u128) -> bool {
        let p = self.approved[id];
        &&& p.grant.task == p.task
        &&& p.grant.operation == id
        &&& p.grant.action == p.request.action()
        &&& self.tasks.contains_key(p.task)
        &&& !(self.tasks[p.task].state is Queued)
        &&& self.tasks[p.task].spec is Some
        &&& self.tasks[p.task].spec->0.decide(p.request) is ApprovalRequired
    }

    /// What every operation of the supervisor keeps.
    pub open spec fn coherent(self) -> bool {
        &&& self.tasks.dom().finite()
        &&& self.authority.bounded()
        &&& self.pending.dom() == self.authority.pending.dom()
        &&& self.approved.dom().finite()
        &&& forall|id: u128| #[trigger] self.pending.contains_key(id) ==> self.pending_sound(id)
        &&& forall|a: u128, b: u128|
            #![trigger self.pending[a], self.pending[b]]
            self.pending.contains_key(a) && self.pending.contains_key(b) && self.pending[a].task
                == self.pending[b].task ==> a == b
        &&& forall|id: u128| #[trigger] self.approved.contains_key(id) ==> self.approved_sound(id)
        &&& forall|task: u128| #[trigger]
            self.tasks.contains_key(task) ==> self.tasks[task].sound()
        &&& forall|key: Seq<char>| #[trigger]
            self.index.contains_key(key) ==> self.tasks.contains_key(self.index[key])
                && self.tasks[self.index[key]].spec is Some
                && self.tasks[self.index[key]].spec->0.idempotency_key == key
    }

    /// Whether every waiting task waits for the approval of one of its operations. Only
    /// making a task wait from outside ends this.
    pub open spec fn attended(self) -> bool {
        forall|task: u128| #[trigger]
            self.tasks.contains_key(task) && self.tasks[task].state is WaitingApproval
                ==> self.waits(task)
    }

    /// Whether some operation of the task waits for an approval.
    pub open spec fn waits(self, task: u128) -> bool {
        exists|id: u128| #[trigger] self.pending.contains_key(id) && self.pending[id].task == task
    }

    /// The approvals whose deadline has come.
    pub open spec fn due(self, now: u128) -> Set<u128> {
        crate::approval::expired_ids(self.authority.pending, now)
    }

    // ---------------------------------------------------------------- events

    /// The revocations recorded when a task ends: its pending approvals, then its approved
    /// operations, each in ascending order.
    pub open spec fn revocations(self, task: u128) -> Seq<TaskEventKind> {
        idmap::ascending(pending_for(self.pending, task)).map_values(
            |id: u128|
                TaskEventKind::ApprovalRevoked {
                    approval_id: ApprovalId { value: id },
                    operation_id: OperationId { value: self.pending[id].operation },
                },
        ) + idmap::ascending(approved_for(self.approved, task)).map_values(
            |id: u128|
                TaskEventKind::ApprovalRevoked {
                    approval_id: ApprovalId { value: self.approved[id].grant.approval },
                    operation_id: OperationId { value: id },
                },
        )
    }

    /// The events of a transition: revocations where the task ends, the failure category
    /// where there is one, and the transition itself.
    pub open spec fn transition_kinds(
        self,
        task: u128,
        next: TaskState,
        code: Option<ErrorCode>,
    ) -> Seq<TaskEventKind> {
        let revoked = if next.terminal() {
            self.revocations(task)
        } else {
            Seq::<TaskEventKind>::empty()
        };
        let failure = match code {
            Some(code) => seq![TaskEventKind::TaskFailed { code }],
            None => Seq::<TaskEventKind>::empty(),
        };
        (revoked + failure).push(
            TaskEventKind::StateTransitioned { from: self.tasks[task].state, to: next },
        )
    }

    /// The events of an approval that ran out.
    pub open spec fn expiry_kinds(self, id: u128) -> Seq<TaskEventKind> {
        seq![
            TaskEventKind::ApprovalExpired {
                approval_id: ApprovalId { value: id },
                operation_id: OperationId { value: self.pending[id].operation },
            },
            TaskEventKind::StateTransitioned {
                from: self.tasks[self.pending[id].task].state,
                to: TaskState::Failed,
            },
        ]
    }

    /// The events of a denied approval.
    pub open spec fn denial_kinds(self, id: u128) -> Seq<TaskEventKind> {
        seq![
            TaskEventKind::ApprovalDenied {
                approval_id: ApprovalId { value: id },
                operation_id: OperationId { value: self.pending[id].operation },
            },
            TaskEventKind::StateTransitioned {
                from: self.tasks[self.pending[id].task].state,
                to: TaskState::Failed,
            },
        ]
    }

    /// The events of a granted approval.
    pub open spec fn grant_kinds(self, id: u128) -> Seq<TaskEventKind> {
        seq![
            TaskEventKind::ApprovalGranted {
                approval_id: ApprovalId { value: id },
                operation_id: OperationId { value: self.pending[id].operation },
            },
            TaskEventKind::StateTransitioned {
                from: TaskState::WaitingApproval,
                to: TaskState::Running,
            },
        ]
    }

    // --------------------------------------------------------------- effects

    /// A task is registered.
    pub open spec fn submitted(
        self,
        log: EventLog,
        id: u128,
        spec: TaskModel,
    ) -> SupervisorModel {
        SupervisorModel {
            tasks: self.tasks.insert(
                id,
                RecordModel {
                    spec: Some(spec),
                    state: if spec.valid() {
                        TaskState::Queued
                    } else {
                        TaskState::Rejected
                    },
                    deadline: None,
                },
            ),
            index: self.index.insert(spec.idempotency_key, id),
            log,
            ..self
        }
    }

    /// A task changes its state. Where it ends, its approvals end with it.
    pub open spec fn moved(
        self,
        log: EventLog,
        task: u128,
        next: TaskState,
        deadline: Option<u128>,
    ) -> SupervisorModel {
        let gone = if next.terminal() {
            pending_for(self.pending, task)
        } else {
            Set::<u128>::empty()
        };
        let spent = if next.terminal() {
            approved_for(self.approved, task)
        } else {
            Set::<u128>::empty()
        };
        SupervisorModel {
            tasks: self.tasks.insert(
                task,
                RecordModel { state: next, deadline, ..self.tasks[task] },
            ),
            log,
            authority: AuthorityModel {
                pending: self.authority.pending.remove_keys(gone),
                ..self.authority
            },
            pending: self.pending.remove_keys(gone),
            approved: self.approved.remove_keys(spent),
            ..self
        }
    }

    /// A running task begins to wait for an approval.
    pub open spec fn waiting(
        self,
        log: EventLog,
        id: u128,
        bound: PendingModel,
        request: RequestModel,
    ) -> SupervisorModel {
        SupervisorModel {
            tasks: self.tasks.insert(
                bound.task,
                RecordModel { state: TaskState::WaitingApproval, ..self.tasks[bound.task] },
            ),
            log,
            authority: AuthorityModel {
                pending: self.authority.pending.insert(id, bound),
                ..self.authority
            },
            pending: self.pending.insert(
                id,
                OperationModel { task: bound.task, operation: bound.operation, request },
            ),
            ..self
        }
    }

    /// A waiting task fails with its approval denied or run out.
    pub open spec fn failed_waiting(self, log: EventLog, id: u128) -> SupervisorModel {
        let task = self.pending[id].task;
        SupervisorModel {
            tasks: self.tasks.insert(
                task,
                RecordModel { state: TaskState::Failed, ..self.tasks[task] },
            ),
            log,
            authority: self.authority.without(id),
            pending: self.pending.remove(id),
            ..self
        }
    }

    /// A waiting task runs again with its operation approved.
    pub open spec fn resumed(self, log: EventLog, id: u128) -> SupervisorModel {
        let p = self.pending[id];
        let bound = self.authority.pending[id];
        SupervisorModel {
            tasks: self.tasks.insert(
                p.task,
                RecordModel { state: TaskState::Running, ..self.tasks[p.task] },
            ),
            log,
            authority: self.authority.without(id),
            pending: self.pending.remove(id),
            approved: self.approved.insert(
                p.operation,
                ApprovedModel {
                    task: p.task,
                    request: p.request,
                    grant: GrantModel {
                        approval: id,
                        task: bound.task,
                        operation: bound.operation,
                        action: bound.action,
                        deadline: bound.deadline,
                    },
                },
            ),
            ..self
        }
    }

    /// An approved operation is used up.
    pub open spec fn consumed(self, log: EventLog, operation: u128) -> SupervisorModel {
        SupervisorModel { log, approved: self.approved.remove(operation), ..self }
    }

    /// Only the log grew.
    pub open spec fn logged(self, log: EventLog) -> SupervisorModel {
        SupervisorModel { log, ..self }
    }

    /// When the wall-time budget of a task started at `now` is used up.
    pub open spec fn started_deadline(self, task: u128, now: u128) -> u128 {
        let end = now + self.tasks[task].spec->0.budget.wall_time_seconds * NANOS_PER_SECOND;
        if end > u128::MAX {
            u128::MAX
        } else {
            end as u128
        }
    }
}

/// The events of a submission.
pub open spec fn submission_kinds(spec: TaskModel) -> Seq<TaskEventKind> {
    let start = seq![
        TaskEventKind::Submitted,
        TaskEventKind::StateTransitioned {
            from: TaskState::Submitted,
            to: TaskState::Validating,
        },
    ];
    if spec.valid() {
        start + seq![
            TaskEventKind::StateTransitioned {
                from: TaskState::Validating,
                to: TaskState::Queued,
            },
        ]
    } else {
        start + seq![
            TaskEventKind::ValidationFailed { error_count: spec.issues().len() as usize },
            TaskEventKind::StateTransitioned {
                from: TaskState::Validating,
                to: TaskState::Rejected,
            },
        ]
    }
}

/// The events of an operation that begins to wait.
pub open spec fn waiting_kinds(id: u128, operation: u128) -> Seq<TaskEventKind> {
    seq![
        TaskEventKind::ApprovalRequested {
            approval_id: ApprovalId { value: id },
            operation_id: OperationId { value: operation },
        },
        TaskEventKind::StateTransitioned {
            from: TaskState::Running,
            to: TaskState::WaitingApproval,
        },
    ]
}

/// The event of a consumed approval.
pub open spec fn consumed_kinds(id: u128, operation: u128) -> Seq<TaskEventKind> {
    seq![
        TaskEventKind::ApprovalConsumed {
            approval_id: ApprovalId { value: id },
            operation_id: OperationId { value: operation },
        },
    ]
}

/// The event of a decision that needs no approval.
pub open spec fn decision_kinds(decision: PolicyDecision) -> Seq<TaskEventKind> {
    match decision {
        PolicyDecision::Deny { reason } => seq![TaskEventKind::OperationDenied { reason }],
        _ => seq![TaskEventKind::OperationAllowed],
    }
}

// ------------------------------------------------------------- coherence

pub proof fn lemma_submitted_coherent(
    m: SupervisorModel,
    log: EventLog,
    id: u128,
    spec: TaskModel,
)
    requires
        m.coherent(),
        !m.tasks.contains_key(id),
    ensures
        m.submitted(log, id, spec).coherent(),
        m.attended() ==> m.submitted(log, id, spec).attended(),
{
    let n = m.submitted(log, id, spec);
    assert(n.tasks.dom() =~= m.tasks.dom().insert(id));
    assert forall|a: u128| #[trigger] n.pending.contains_key(a) implies n.pending_sound(a) by {
        assert(m.pending_sound(a));
    }
    assert forall|o: u128| #[trigger] n.approved.contains_key(o) implies n.approved_sound(o) by {
        assert(m.approved_sound(o));
    }
    if m.attended() {
        assert forall|t: u128| #[trigger]
            n.tasks.contains_key(t) && n.tasks[t].state is WaitingApproval implies n.waits(t) by {
            assert(m.tasks.contains_key(t));
            assert(m.waits(t));
            let a = choose|a: u128| #[trigger] m.pending.contains_key(a) && m.pending[a].task == t;
            assert(n.pending.contains_key(a) && n.pending[a].task == t);
        }
    }
    assert forall|t: u128| #[trigger] n.tasks.contains_key(t) implies n.tasks[t].sound() by {
        if t != id {
            assert(m.tasks.contains_key(t));
        }
    }
    assert forall|key: Seq<char>| #[trigger] n.index.contains_key(key) implies n.tasks.contains_key(
        n.index[key],
    ) && n.tasks[n.index[key]].spec is Some && n.tasks[n.index[key]].spec->0.idempotency_key
        == key by {
        if key != spec.idempotency_key {
            assert(m.index.contains_key(key));
        }
    }
}

pub proof fn lemma_moved_coherent(
    m: SupervisorModel,
    log: EventLog,
    task: u128,
    next: TaskState,
    deadline: Option<u128>,
)
    requires
        m.coherent(),
        m.tasks.contains_key(task),
        m.tasks[task].state.may_become(next) || (next is Failed && !m.tasks[task].state.terminal()),
        next is Running || next is WaitingApproval ==> deadline is Some,
    ensures
        m.moved(log, task, next, deadline).coherent(),
        m.attended() && !(next is WaitingApproval) ==> m.moved(
            log,
            task,
            next,
            deadline,
        ).attended(),
{
    let n = m.moved(log, task, next, deadline);
    assert(n.tasks.dom() =~= m.tasks.dom());
    assert(n.pending.dom() =~= n.authority.pending.dom());
    assert(n.authority.pending.dom().subset_of(m.authority.pending.dom()));
    assert(n.approved.dom().subset_of(m.approved.dom()));
    vstd::set_lib::lemma_len_subset(n.approved.dom(), m.approved.dom());
    vstd::set_lib::lemma_len_subset(n.authority.pending.dom(), m.authority.pending.dom());
    assert forall|a: u128| #[trigger] n.pending.contains_key(a) implies n.pending_sound(a) by {
        assert(m.pending.contains_key(a));
        assert(m.pending_sound(a));
    }
    assert forall|a: u128, b: u128|
        #![trigger n.pending[a], n.pending[b]]
        n.pending.contains_key(a) && n.pending.contains_key(b) && n.pending[a].task
            == n.pending[b].task implies a == b by {
        assert(m.pending[a] == n.pending[a] && m.pending[b] == n.pending[b]);
        assert(m.pending.contains_key(a) && m.pending.contains_key(b));
    }
    assert forall|o: u128| #[trigger] n.approved.contains_key(o) implies n.approved_sound(o) by {
        assert(m.approved.contains_key(o));
        assert(m.approved_sound(o));
    }
    assert forall|t: u128| #[trigger] n.tasks.contains_key(t) implies n.tasks[t].sound() by {
        assert(m.tasks.contains_key(t));
        assert(m.tasks[t].sound());
    }
    if m.attended() && !(next is WaitingApproval) {
        assert forall|t: u128| #[trigger]
            n.tasks.contains_key(t) && n.tasks[t].state is WaitingApproval implies n.waits(t) by {
            assert(m.tasks.contains_key(t));
            assert(m.waits(t));
            let a = choose|a: u128| #[trigger] m.pending.contains_key(a) && m.pending[a].task == t;
            assert(n.pending.contains_key(a) && n.pending[a].task == t);
        }
    }
    assert forall|key: Seq<char>| #[trigger] n.index.contains_key(key) implies n.tasks.contains_key(
        n.index[key],
    ) && n.tasks[n.index[key]].spec is Some && n.tasks[n.index[key]].spec->0.idempotency_key
        == key by {
        assert(m.index.contains_key(key));
        assert(m.tasks.contains_key(m.index[key]));
    }
}

pub proof fn lemma_waiting_coherent(
    m: SupervisorModel,
    log: EventLog,
    id: u128,
    bound: PendingModel,
    request: RequestModel,
)
    requires
        m.coherent(),
        m.tasks.contains_key(bound.task),
        m.tasks[bound.task].state is Running,
        m.tasks[bound.task].spec->0.decide(request) is ApprovalRequired,
        bound.action == request.action(),
        !m.pending.contains_key(id),
        !m.waits(bound.task),
        m.authority.pending.dom().len() < m.authority.max_pending,
    ensures
        m.waiting(log, id, bound, request).coherent(),
        m.attended() ==> m.waiting(log, id, bound, request).attended(),
{
    let n = m.waiting(log, id, bound, request);
    assert(n.tasks.dom() =~= m.tasks.dom());
    assert(n.pending.dom() =~= n.authority.pending.dom());
    assert(n.authority.pending.dom() =~= m.authority.pending.dom().insert(id));
    assert forall|a: u128| #[trigger] n.pending.contains_key(a) implies n.pending_sound(a) by {
        if a != id {
            assert(m.pending.contains_key(a));
            assert(m.pending_sound(a));
            assert(m.pending[a].task != bound.task);
        }
    }
    assert forall|a: u128, b: u128|
        #![trigger n.pending[a], n.pending[b]]
        n.pending.contains_key(a) && n.pending.contains_key(b) && n.pending[a].task
            == n.pending[b].task implies a == b by {
        if a != id {
            assert(m.pending.contains_key(a) && m.pending[a] == n.pending[a]);
        }
        if b != id {
            assert(m.pending.contains_key(b) && m.pending[b] == n.pending[b]);
        }
    }
    assert forall|o: u128| #[trigger] n.approved.contains_key(o) implies n.approved_sound(o) by {
        assert(m.approved_sound(o));
    }
    assert forall|t: u128| #[trigger] n.tasks.contains_key(t) implies n.tasks[t].sound() by {
        assert(m.tasks.contains_key(t));
        assert(m.tasks[t].sound());
    }
    if m.attended() {
        assert forall|t: u128| #[trigger]
            n.tasks.contains_key(t) && n.tasks[t].state is WaitingApproval implies n.waits(t) by {
            if t == bound.task {
                assert(n.pending.contains_key(id) && n.pending[id].task == t);
            } else {
                assert(m.tasks.contains_key(t));
                assert(m.waits(t));
                let a = choose|a: u128| #[trigger] m.pending.contains_key(a) && m.pending[a].task == t;
                assert(n.pending.contains_key(a) && n.pending[a].task == t);
            }
        }
    }
    assert forall|key: Seq<char>| #[trigger] n.index.contains_key(key) implies n.tasks.contains_key(
        n.index[key],
    ) && n.tasks[n.index[key]].spec is Some && n.tasks[n.index[key]].spec->0.idempotency_key
        == key by {
        assert(m.index.contains_key(key));
        assert(m.tasks.contains_key(m.index[key]));
    }
}

/// Removing one pending approval whose task moves out of waiting.
proof fn lemma_left_waiting(m: SupervisorModel, n: SupervisorModel, id: u128, next: TaskState)
    requires
        n.approved.dom().finite(),
        m.coherent(),
        m.pending.contains_key(id),
        next is Failed || next is Running,
        n.tasks == m.tasks.insert(
            m.pending[id].task,
            (RecordModel { state: next, ..m.tasks[m.pending[id].task] }),
        ),
        n.index == m.index,
        n.authority == m.authority.without(id),
        n.pending == m.pending.remove(id),
        n.max_tasks == m.max_tasks,
        forall|o: u128| #[trigger] n.approved.contains_key(o) ==> n.approved_sound(o),
    ensures
        n.coherent(),
        m.attended() ==> n.attended(),
{
    let task = m.pending[id].task;
    assert(m.pending_sound(id));
    assert(m.tasks[task].sound());
    assert(n.tasks.dom() =~= m.tasks.dom());
    assert(n.pending.dom() =~= n.authority.pending.dom());
    assert(n.authority.pending.dom() =~= m.authority.pending.dom().remove(id));
    assert forall|a: u128| #[trigger] n.pending.contains_key(a) implies n.pending_sound(a) by {
        assert(m.pending.contains_key(a));
        assert(m.pending_sound(a));
        assert(m.pending[a].task != task) by {
            if m.pending[a].task == m.pending[id].task {
                assert(a == id);
            }
        }
    }
    assert forall|a: u128, b: u128|
        #![trigger n.pending[a], n.pending[b]]
        n.pending.contains_key(a) && n.pending.contains_key(b) && n.pending[a].task
            == n.pending[b].task implies a == b by {
        assert(m.pending[a] == n.pending[a] && m.pending[b] == n.pending[b]);
        assert(m.pending.contains_key(a) && m.pending.contains_key(b));
    }
    assert forall|t: u128| #[trigger] n.tasks.contains_key(t) implies n.tasks[t].sound() by {
        assert(m.tasks.contains_key(t));
        assert(m.tasks[t].sound());
    }
    if m.attended() {
        assert forall|t: u128| #[trigger]
            n.tasks.contains_key(t) && n.tasks[t].state is WaitingApproval implies n.waits(t) by {
            assert(m.tasks.contains_key(t));
            assert(m.waits(t));
            let a = choose|a: u128| #[trigger] m.pending.contains_key(a) && m.pending[a].task == t;
            assert(n.pending.contains_key(a) && n.pending[a].task == t);
        }
    }
    assert forall|key: Seq<char>| #[trigger] n.index.contains_key(key) implies n.tasks.contains_key(
        n.index[key],
    ) && n.tasks[n.index[key]].spec is Some && n.tasks[n.index[key]].spec->0.idempotency_key
        == key by {
        assert(m.index.contains_key(key));
        assert(m.tasks.contains_key(m.index[key]));
    }
}

pub proof fn lemma_failed_waiting_coherent(m: SupervisorModel, log: EventLog, id: u128)
    requires
        m.coherent(),
        m.pending.contains_key(id),
    ensures
        m.failed_waiting(log, id).coherent(),
        m.attended() ==> m.failed_waiting(log, id).attended(),
{
    let n = m.failed_waiting(log, id);
    assert(m.pending_sound(id));
    assert forall|o: u128| #[trigger] n.approved.contains_key(o) implies n.approved_sound(o) by {
        assert(m.approved.contains_key(o));
        assert(m.approved_sound(o));
    }
    lemma_left_waiting(m, n, id, TaskState::Failed);
}

pub proof fn lemma_resumed_coherent(m: SupervisorModel, log: EventLog, id: u128)
    requires
        m.coherent(),
        m.pending.contains_key(id),
    ensures
        m.resumed(log, id).coherent(),
        m.attended() ==> m.resumed(log, id).attended(),
{
    let n = m.resumed(log, id);
    assert(m.pending_sound(id));
    assert(m.tasks[m.pending[id].task].sound());
    assert forall|o: u128| #[trigger] n.approved.contains_key(o) implies n.approved_sound(o) by {
        if o != m.pending[id].operation {
            assert(m.approved.contains_key(o));
            assert(m.approved_sound(o));
        }
    }
    lemma_left_waiting(m, n, id, TaskState::Running);
}

pub proof fn lemma_consumed_coherent(m: SupervisorModel, log: EventLog, operation: u128)
    requires
        m.coherent(),
    ensures
        m.consumed(log, operation).coherent(),
        m.attended() ==> m.consumed(log, operation).attended(),
{
    let n = m.consumed(log, operation);
    assert forall|a: u128| #[trigger] n.pending.contains_key(a) implies n.pending_sound(a) by {
        assert(m.pending_sound(a));
    }
    assert forall|o: u128| #[trigger] n.approved.contains_key(o) implies n.approved_sound(o) by {
        assert(m.approved.contains_key(o));
        assert(m.approved_sound(o));
    }
    if m.attended() {
        assert forall|t: u128| #[trigger]
            n.tasks.contains_key(t) && n.tasks[t].state is WaitingApproval implies n.waits(t) by {
            assert(m.waits(t));
            let a = choose|a: u128| #[trigger] m.pending.contains_key(a) && m.pending[a].task == t;
            assert(n.pending.contains_key(a) && n.pending[a].task == t);
        }
    }
}

pub proof fn lemma_logged_coherent(m: SupervisorModel, log: EventLog)
    requires
        m.coherent(),
    ensures
        m.logged(log).coherent(),
        m.attended() ==> m.logged(log).attended(),
{
    let n = m.logged(log);
    assert forall|a: u128| #[trigger] n.pending.contains_key(a) implies n.pending_sound(a) by {
        assert(m.pending_sound(a));
    }
    assert forall|o: u128| #[trigger] n.approved.contains_key(o) implies n.approved_sound(o) by {
        assert(m.approved_sound(o));
    }
    if m.attended() {
        assert forall|t: u128| #[trigger]
            n.tasks.contains_key(t) && n.tasks[t].state is WaitingApproval implies n.waits(t) by {
            assert(m.waits(t));
            let a = choose|a: u128| #[trigger] m.pending.contains_key(a) && m.pending[a].task == t;
            assert(n.pending.contains_key(a) && n.pending[a].task == t);
        }
    }
}

// ---------------------------------------------------------------- expiry

/// Whether one of these approvals is of an operation of the task.
pub open spec fn touches(pending: Map<u128, OperationModel>, done: Set<u128>, task: u128) -> bool {
    exists|id: u128| #[trigger] done.contains(id) && pending[id].task == task
}

/// `new` is `old` after the approvals in `done` ran out: each is gone, its task failed, and
/// the events of its task grew by the two events of the expiry. Nothing else changed.
pub open spec fn expired_effect(
    old: SupervisorModel,
    new: SupervisorModel,
    done: Set<u128>,
) -> bool {
    &&& new.index == old.index
    &&& new.approved == old.approved
    &&& new.max_tasks == old.max_tasks
    &&& new.pending == old.pending.remove_keys(done)
    &&& new.authority == (AuthorityModel {
        pending: old.authority.pending.remove_keys(done),
        ..old.authority
    })
    &&& new.tasks.dom() == old.tasks.dom()
    &&& forall|task: u128| #[trigger]
        old.tasks.contains_key(task) ==> new.tasks[task] == (if touches(old.pending, done, task) {
            (RecordModel { state: TaskState::Failed, ..old.tasks[task] })
        } else {
            old.tasks[task]
        })
    &&& forall|task: u128|
        !touches(old.pending, done, task) ==> #[trigger] event::events_of(new.log, task)
            == event::events_of(old.log, task)
    &&& forall|id: u128| #[trigger]
        done.contains(id) ==> recovery::appended(
            old.pending[id].task,
            event::events_of(old.log, old.pending[id].task),
            event::events_of(new.log, old.pending[id].task),
            old.expiry_kinds(id),
        )
}

/// Nothing ran out, nothing changed.
pub proof fn lemma_expired_none(m: SupervisorModel)
    ensures
        expired_effect(m, m, Set::<u128>::empty()),
{
    assert(m.pending.remove_keys(Set::<u128>::empty()) =~= m.pending);
    assert(m.authority.pending.remove_keys(Set::<u128>::empty()) =~= m.authority.pending);
}

/// One more approval ran out.
pub proof fn lemma_expired_one(
    old: SupervisorModel,
    mid: SupervisorModel,
    log: EventLog,
    done: Set<u128>,
    id: u128,
)
    requires
        old.coherent(),
        expired_effect(old, mid, done),
        forall|a: u128| #[trigger] done.contains(a) ==> old.pending.contains_key(a),
        old.pending.contains_key(id),
        !done.contains(id),
        event::log_extended(mid.log, log, old.pending[id].task, old.expiry_kinds(id)),
    ensures
        expired_effect(old, mid.failed_waiting(log, id), done.insert(id)),
{
    let new = mid.failed_waiting(log, id);
    let next = done.insert(id);
    let task = old.pending[id].task;
    assert(mid.pending[id] == old.pending[id]);
    assert(old.pending_sound(id));
    assert(!touches(old.pending, done, task)) by {
        if touches(old.pending, done, task) {
            let a = choose|a: u128| #[trigger] done.contains(a) && old.pending[a].task == task;
            assert(old.pending.contains_key(a));
            assert(old.pending[a].task == old.pending[id].task);
            assert(a == id);
        }
    }
    assert(new.pending =~= old.pending.remove_keys(next));
    assert(new.authority.pending =~= old.authority.pending.remove_keys(next));
    assert(new.tasks.dom() =~= old.tasks.dom());
    assert(touches(old.pending, next, task)) by {
        assert(next.contains(id));
    }
    assert forall|t: u128| t != task implies touches(old.pending, next, t) == touches(
        old.pending,
        done,
        t,
    ) by {
        if touches(old.pending, next, t) {
            let a = choose|a: u128| #[trigger] next.contains(a) && old.pending[a].task == t;
            assert(done.contains(a));
        }
        if touches(old.pending, done, t) {
            let a = choose|a: u128| #[trigger] done.contains(a) && old.pending[a].task == t;
            assert(next.contains(a));
        }
    }
    assert forall|t: u128|
        !touches(old.pending, next, t) implies #[trigger] event::events_of(new.log, t)
        == event::events_of(old.log, t) by {
        assert(t != task);
        assert(event::events_of(mid.log, t) == event::events_of(old.log, t));
    }
    assert forall|a: u128| #[trigger] next.contains(a) implies recovery::appended(
        old.pending[a].task,
        event::events_of(old.log, old.pending[a].task),
        event::events_of(new.log, old.pending[a].task),
        old.expiry_kinds(a),
    ) by {
        if a == id {
            assert(event::events_of(mid.log, task) == event::events_of(old.log, task));
            recovery::lemma_log_extended_appends(mid.log, log, task, old.expiry_kinds(id));
        } else {
            assert(done.contains(a));
            assert(old.pending.contains_key(a));
            assert(old.pending[a].task != task) by {
                if old.pending[a].task == old.pending[id].task {
                    assert(a == id);
                }
            }
            assert(event::events_of(new.log, old.pending[a].task) == event::events_of(
                mid.log,
                old.pending[a].task,
            ));
        }
    }
    assert forall|t: u128| #[trigger] old.tasks.contains_key(t) implies new.tasks[t] == (
    if touches(old.pending, next, t) {
        (RecordModel { state: TaskState::Failed, ..old.tasks[t] })
    } else {
        old.tasks[t]
    }) by {
        if t != task {
            assert(mid.tasks[t] == new.tasks[t]);
        } else {
            assert(mid.tasks[t] == old.tasks[t]);
        }
    }
}

// ------------------------------------------------------------------ laws

/// Whether the events of a task replay to the state that the supervisor holds.
pub open spec fn audited(m: SupervisorModel, task: u128) -> bool {
    m.tasks.contains_key(task) ==> recovery::recovered(event::events_of(m.log, task)) == Some(
        m.tasks[task].state,
    )
}

proof fn lemma_replay_revocations(at: Replay, kinds: Seq<TaskEventKind>)
    requires
        !at.pending_failure,
        at.state == Some(TaskState::Running) || at.state == Some(TaskState::WaitingApproval),
        forall|i: int| 0 <= i < kinds.len() ==> (#[trigger] kinds[i]) is ApprovalRevoked,
    ensures
        recovery::replay_from(at, kinds) == Some(at),
    decreases kinds.len(),
{
    if kinds.len() > 0 {
        assert(kinds[0] is ApprovalRevoked);
        assert forall|i: int| 0 <= i < kinds.drop_first().len() implies (
        #[trigger] kinds.drop_first()[i]) is ApprovalRevoked by {
            assert(kinds.drop_first()[i] == kinds[i + 1]);
        }
        lemma_replay_revocations(at, kinds.drop_first());
    }
}

/// Nothing waits for, or was approved for, a task that was never started.
proof fn lemma_no_revocations(m: SupervisorModel, task: u128)
    requires
        m.coherent(),
        m.tasks.contains_key(task),
        m.tasks[task].state is Queued,
    ensures
        m.revocations(task) == Seq::<TaskEventKind>::empty(),
{
    let p = pending_for(m.pending, task);
    let a = approved_for(m.approved, task);
    assert(p =~= Set::<u128>::empty()) by {
        assert forall|id: u128| !p.contains(id) by {
            if p.contains(id) {
                assert(m.pending.contains_key(id));
                assert(m.pending_sound(id));
            }
        }
    }
    assert(a =~= Set::<u128>::empty()) by {
        assert forall|id: u128| !a.contains(id) by {
            if a.contains(id) {
                assert(m.approved.contains_key(id));
                assert(m.approved_sound(id));
            }
        }
    }
    let none = Seq::<u128>::empty();
    assert(none.to_set() =~= Set::<u128>::empty());
    idmap::lemma_is_ascending(none, Set::<u128>::empty());
    assert(m.revocations(task) =~= Seq::<TaskEventKind>::empty());
}

/// Every transition is audited: where the log of a task replays to its state, it still does
/// after the transition and its events.
pub proof fn law_transitions_are_audited(
    m: SupervisorModel,
    log: EventLog,
    task: u128,
    next: TaskState,
    code: Option<ErrorCode>,
    deadline: Option<u128>,
    other: u128,
)
    requires
        m.coherent(),
        m.tasks.contains_key(task),
        m.tasks[task].state.may_become(next),
        code is Some ==> next is Failed,
        event::log_extended(m.log, log, task, m.transition_kinds(task, next, code)),
        audited(m, other),
    ensures
        audited(m.moved(log, task, next, deadline), other),
{
    let n = m.moved(log, task, next, deadline);
    let current = m.tasks[task].state;
    let kinds = m.transition_kinds(task, next, code);
    if other != task {
        assert(event::events_of(log, other) == event::events_of(m.log, other));
        if n.tasks.contains_key(other) {
            assert(m.tasks.contains_key(other));
        }
    } else {
        let at = Replay { state: Some(current), pending_failure: false };
        let revoked = if next.terminal() {
            m.revocations(task)
        } else {
            Seq::<TaskEventKind>::empty()
        };
        let failure = match code {
            Some(code) => seq![TaskEventKind::TaskFailed { code }],
            None => Seq::<TaskEventKind>::empty(),
        };
        let last = TaskEventKind::StateTransitioned { from: current, to: next };
        assert(m.tasks[task].sound());
        if current is Queued {
            lemma_no_revocations(m, task);
        } else {
            assert forall|i: int| 0 <= i < revoked.len() implies (
            #[trigger] revoked[i]) is ApprovalRevoked by {
            }
            lemma_replay_revocations(at, revoked);
        }
        assert(recovery::replay_from(at, revoked) == Some(at)) by {
            reveal_with_fuel(recovery::replay_from, 2);
        }
        let tail = failure.push(last);
        assert(kinds =~= revoked + tail);
        recovery::lemma_replay_concat(at, revoked, tail);
        reveal_with_fuel(recovery::replay_from, 3);
        if code is Some {
            assert(tail[0] is TaskFailed);
            assert(tail.drop_first() =~= seq![last]);
            assert(seq![last].drop_first() =~= Seq::<TaskEventKind>::empty());
        } else {
            assert(tail =~= seq![last]);
            assert(tail.drop_first() =~= Seq::<TaskEventKind>::empty());
        }
        recovery::lemma_log_extended_appends(m.log, log, task, kinds);
        recovery::law_replay_of_a_batch(
            task,
            event::events_of(m.log, task),
            event::events_of(log, task),
            kinds,
            current,
            next,
        );
    }
}

/// A submission is audited: the events of a new task replay to the state it was given.
pub proof fn law_submissions_are_audited(
    m: SupervisorModel,
    log: EventLog,
    id: u128,
    spec: TaskModel,
    other: u128,
)
    requires
        event::events_of(m.log, id).len() == 0,
        event::log_extended(m.log, log, id, submission_kinds(spec)),
        other != id ==> audited(m, other),
    ensures
        audited(m.submitted(log, id, spec), other),
{
    let kinds = submission_kinds(spec);
    if other != id {
        assert(event::events_of(log, other) == event::events_of(m.log, other));
    } else {
        let next = if spec.valid() {
            TaskState::Queued
        } else {
            TaskState::Rejected
        };
        reveal_with_fuel(recovery::replay_from, 5);
        assert(kinds.drop_first().drop_first().drop_first().len() == kinds.len() - 3);
        assert(kinds.drop_first()[0] == kinds[1]);
        assert(kinds.drop_first().drop_first()[0] == kinds[2]);
        if !spec.valid() {
            assert(kinds.drop_first().drop_first().drop_first()[0] == kinds[3]);
        }
        recovery::lemma_log_extended_appends(m.log, log, id, kinds);
        assert(event::events_of(m.log, id) =~= Seq::<TaskEvent>::empty());
        recovery::law_replay_of_the_first_batch(id, event::events_of(log, id), kinds, next);
    }
}

proof fn lemma_two_events(at: TaskState, first: TaskEventKind, next: TaskState)
    requires
        recovery::replay_step((Replay { state: Some(at), pending_failure: false }), first) == Some(
            (Replay { state: Some(at), pending_failure: false }),
        ),
        at.may_become(next),
    ensures
        recovery::replay_from(
            (Replay { state: Some(at), pending_failure: false }),
            seq![first, TaskEventKind::StateTransitioned { from: at, to: next }],
        ) == Some((Replay { state: Some(next), pending_failure: false })),
{
    let kinds = seq![first, TaskEventKind::StateTransitioned { from: at, to: next }];
    assert(kinds.drop_first()[0] == kinds[1]);
    assert(kinds.drop_first().drop_first() =~= Seq::<TaskEventKind>::empty());
    reveal_with_fuel(recovery::replay_from, 3);
}

/// Asking for an approval, granting it, denying it and its running out are audited, unless the
/// task was started over while its approval was pending: such a task no longer waits, and a
/// replay knows of a decided approval only while the task waits.
pub proof fn law_approvals_are_audited(
    m: SupervisorModel,
    log: EventLog,
    id: u128,
    bound: PendingModel,
    request: RequestModel,
    other: u128,
)
    requires
        m.coherent(),
        m.pending.contains_key(id) && m.pending[id].task == other ==> m.tasks[other].state
            is WaitingApproval,
        audited(m, other),
    ensures
        m.tasks.contains_key(bound.task) && m.tasks[bound.task].state is Running
            && event::log_extended(m.log, log, bound.task, waiting_kinds(id, bound.operation))
            ==> audited(m.waiting(log, id, bound, request), other),
        m.pending.contains_key(id) && event::log_extended(
            m.log,
            log,
            m.pending[id].task,
            m.grant_kinds(id),
        ) ==> audited(m.resumed(log, id), other),
        m.pending.contains_key(id) && event::log_extended(
            m.log,
            log,
            m.pending[id].task,
            m.denial_kinds(id),
        ) ==> audited(m.failed_waiting(log, id), other),
        m.pending.contains_key(id) && event::log_extended(
            m.log,
            log,
            m.pending[id].task,
            m.expiry_kinds(id),
        ) ==> audited(m.failed_waiting(log, id), other),
{
    if m.tasks.contains_key(bound.task) && m.tasks[bound.task].state is Running
        && event::log_extended(m.log, log, bound.task, waiting_kinds(id, bound.operation)) {
        let kinds = waiting_kinds(id, bound.operation);
        if other == bound.task {
            lemma_two_events(TaskState::Running, kinds[0], TaskState::WaitingApproval);
            lemma_batch_audited(
                m,
                log,
                bound.task,
                kinds,
                TaskState::Running,
                TaskState::WaitingApproval,
            );
        } else {
            assert(event::events_of(log, other) == event::events_of(m.log, other));
        }
    }
    if m.pending.contains_key(id) {
        let task = m.pending[id].task;
        assert(m.pending_sound(id));
        let at = TaskState::WaitingApproval;
        if event::log_extended(m.log, log, task, m.grant_kinds(id)) {
            if other == task {
                lemma_two_events(at, m.grant_kinds(id)[0], TaskState::Running);
                lemma_batch_audited(m, log, task, m.grant_kinds(id), at, TaskState::Running);
            } else {
                assert(event::events_of(log, other) == event::events_of(m.log, other));
            }
        }
        if event::log_extended(m.log, log, task, m.denial_kinds(id)) {
            if other == task {
                lemma_two_events(at, m.denial_kinds(id)[0], TaskState::Failed);
                lemma_batch_audited(m, log, task, m.denial_kinds(id), at, TaskState::Failed);
            } else {
                assert(event::events_of(log, other) == event::events_of(m.log, other));
            }
        }
        if event::log_extended(m.log, log, task, m.expiry_kinds(id)) {
            if other == task {
                lemma_two_events(at, m.expiry_kinds(id)[0], TaskState::Failed);
                lemma_batch_audited(m, log, task, m.expiry_kinds(id), at, TaskState::Failed);
            } else {
                assert(event::events_of(log, other) == event::events_of(m.log, other));
            }
        }
    }
}

proof fn lemma_batch_audited(
    m: SupervisorModel,
    log: EventLog,
    task: u128,
    kinds: Seq<TaskEventKind>,
    state: TaskState,
    next: TaskState,
)
    requires
        m.tasks.contains_key(task),
        m.tasks[task].state == state,
        audited(m, task),
        event::log_extended(m.log, log, task, kinds),
        recovery::replay_from((Replay { state: Some(state), pending_failure: false }), kinds)
            == Some((Replay { state: Some(next), pending_failure: false })),
    ensures
        recovery::recovered(event::events_of(log, task)) == Some(next),
{
    recovery::lemma_log_extended_appends(m.log, log, task, kinds);
    recovery::law_replay_of_a_batch(
        task,
        event::events_of(m.log, task),
        event::events_of(log, task),
        kinds,
        state,
        next,
    );
}

/// Decisions on a running task and the use of an approval are audited.
pub proof fn law_decisions_are_audited(
    m: SupervisorModel,
    log: EventLog,
    task: u128,
    kind: TaskEventKind,
    operation: u128,
    other: u128,
)
    requires
        m.tasks.contains_key(task),
        m.tasks[task].state is Running,
        kind is OperationAllowed || kind is OperationDenied || kind is ApprovalConsumed,
        event::log_extended(m.log, log, task, seq![kind]),
        audited(m, other),
    ensures
        audited(m.logged(log), other),
        audited(m.consumed(log, operation), other),
{
    if other == task {
        let at = Replay { state: Some(TaskState::Running), pending_failure: false };
        assert(seq![kind].drop_first() =~= Seq::<TaskEventKind>::empty());
        reveal_with_fuel(recovery::replay_from, 2);
        lemma_batch_audited(m, log, task, seq![kind], TaskState::Running, TaskState::Running);
    } else {
        assert(event::events_of(log, other) == event::events_of(m.log, other));
    }
}

/// The expiry of approvals is audited, unless the task was started over while its approval was
/// pending.
pub proof fn law_expiry_is_audited(
    old: SupervisorModel,
    new: SupervisorModel,
    done: Set<u128>,
    task: u128,
)
    requires
        old.coherent(),
        touches(old.pending, done, task) ==> old.tasks[task].state is WaitingApproval,
        forall|id: u128| #[trigger] done.contains(id) ==> old.pending.contains_key(id),
        expired_effect(old, new, done),
        audited(old, task),
    ensures
        audited(new, task),
{
    if new.tasks.contains_key(task) {
        assert(old.tasks.contains_key(task));
        if touches(old.pending, done, task) {
            let id = choose|id: u128| #[trigger] done.contains(id) && old.pending[id].task == task;
            assert(old.pending.contains_key(id));
            assert(old.pending_sound(id));
            let at = TaskState::WaitingApproval;
            lemma_two_events(at, old.expiry_kinds(id)[0], TaskState::Failed);
            recovery::law_replay_of_a_batch(
                task,
                event::events_of(old.log, task),
                event::events_of(new.log, task),
                old.expiry_kinds(id),
                at,
                TaskState::Failed,
            );
        }
    }
}

/// Expiry never touches a task that has ended or was never started.
pub proof fn law_expiry_touches_live_tasks_only(
    old: SupervisorModel,
    new: SupervisorModel,
    done: Set<u128>,
    task: u128,
)
    requires
        old.coherent(),
        forall|id: u128| #[trigger] done.contains(id) ==> old.pending.contains_key(id),
        expired_effect(old, new, done),
        old.tasks.contains_key(task),
        old.tasks[task].state.terminal() || old.tasks[task].state is Queued,
    ensures
        new.tasks[task] == old.tasks[task],
        event::events_of(new.log, task) == event::events_of(old.log, task),
{
    if touches(old.pending, done, task) {
        let id = choose|id: u128| #[trigger] done.contains(id) && old.pending[id].task == task;
        assert(old.pending.contains_key(id));
        assert(old.pending_sound(id));
    }
}

/// A task that ended has nothing pending, so no approval can act on it.
pub proof fn law_ended_tasks_have_no_pending_approval(m: SupervisorModel, task: u128, id: u128)
    requires
        m.coherent(),
        m.tasks.contains_key(task),
        m.tasks[task].state.terminal(),
        m.pending.contains_key(id),
    ensures
        m.pending[id].task != task,
{
    assert(m.pending_sound(id));
}

/// Ending a task revokes everything that was pending or approved for it.
pub proof fn law_ending_revokes_approvals(
    m: SupervisorModel,
    log: EventLog,
    task: u128,
    next: TaskState,
    deadline: Option<u128>,
    id: u128,
)
    requires
        next.terminal(),
    ensures
        m.moved(log, task, next, deadline).pending.contains_key(id) ==> m.moved(
            log,
            task,
            next,
            deadline,
        ).pending[id].task != task,
        m.moved(log, task, next, deadline).approved.contains_key(id) ==> m.moved(
            log,
            task,
            next,
            deadline,
        ).approved[id].task != task,
{
}

/// Where every waiting task waits for the approval of one of its operations, no transition but
/// making a task wait changes that, and neither do a decision on an approval, its expiry or its
/// use.
pub proof fn law_waiting_tasks_stay_attended(
    m: SupervisorModel,
    log: EventLog,
    task: u128,
    next: TaskState,
    deadline: Option<u128>,
    id: u128,
    operation: u128,
)
    requires
        m.coherent(),
        m.attended(),
        m.tasks.contains_key(task),
        m.tasks[task].state.may_become(next),
        !(next is WaitingApproval),
        next is Running ==> deadline is Some,
        m.pending.contains_key(id),
    ensures
        m.moved(log, task, next, deadline).attended(),
        m.resumed(log, id).attended(),
        m.failed_waiting(log, id).attended(),
        m.consumed(log, operation).attended(),
{
    lemma_moved_coherent(m, log, task, next, deadline);
    lemma_resumed_coherent(m, log, id);
    lemma_failed_waiting_coherent(m, log, id);
    lemma_consumed_coherent(m, log, operation);
}

} // verus!
