//! Stateful task supervision.
//!
//! The supervisor records an audit event before applying each in-memory state change. It
//! does not execute models, tools, or operating-system operations.

use vstd::prelude::*;

use crate::approval;
use crate::approval::{
    ApprovalAuthority, ApprovalError, ApprovalGrant, ApprovalReceipt, ApprovalRequest,
    AuthorityModel, PendingModel,
};
use crate::error::{ErrorCode, StateTransitionError, ValidationErrors};
use crate::event;
use crate::event::{
    EventLog, EventStore, EventStoreError, InMemoryEventStore, TaskEvent, TaskEventKind,
};
use crate::idmap;
use crate::idmap::IdMap;
use crate::ids;
use crate::ids::{ApprovalId, OperationId, TaskId, fresh_identifier};
use crate::policy::{
    CapabilityPolicy, CapabilityRequest, DenialReason, PolicyDecision, RequestModel,
};
use crate::recovery;
use crate::recovery::{RecoverableEventStore, TaskSnapshot};
use crate::state::TaskState;
use crate::supervision;
use crate::supervision::{ApprovedModel, OperationModel, RecordModel, SupervisorModel};
use crate::task;
use crate::task::{
    DestinationModel, FileAccess, NetworkDestination, NetworkPolicy, NetworkTransport, TaskModel,
    TaskSpec, clone_destinations,
};
use crate::text;
use crate::text::{clone_texts, text_eq};
use crate::time;
use crate::time::{Clock, Duration, NANOS_PER_SECOND, remaining_until};

verus! {

pub const DEFAULT_MAX_TASKS: usize = 10_000;

struct TaskRecord {
    spec: Option<TaskSpec>,
    state: TaskState,
    deadline: Option<u128>,
}

impl View for TaskRecord {
    type V = RecordModel;

    closed spec fn view(&self) -> RecordModel {
        RecordModel {
            spec: match self.spec {
                Some(spec) => Some(spec@),
                None => None,
            },
            state: self.state,
            deadline: self.deadline,
        }
    }
}

/// A capability request that the supervisor keeps.
pub enum OwnedCapabilityRequest {
    File { path: String, access: FileAccess },
    Network { host: String, transport: NetworkTransport, port: u16 },
    Tool { tool: String, action: String },
}

impl View for OwnedCapabilityRequest {
    type V = RequestModel;

    open spec fn view(&self) -> RequestModel {
        match *self {
            OwnedCapabilityRequest::File { path, access } => RequestModel::File {
                path: path@,
                access,
            },
            OwnedCapabilityRequest::Network { host, transport, port } => RequestModel::Network {
                host: host@,
                transport,
                port,
            },
            OwnedCapabilityRequest::Tool { tool, action } => RequestModel::Tool {
                tool: tool@,
                action: action@,
            },
        }
    }
}

impl OwnedCapabilityRequest {
    /// Copies a borrowed request.
    pub fn from_borrowed(request: CapabilityRequest<'_>) -> (r: OwnedCapabilityRequest)
        ensures
            r@ == request@,
    {
        match request {
            CapabilityRequest::File { path, access } => OwnedCapabilityRequest::File {
                path: path.to_owned(),
                access,
            },
            CapabilityRequest::Network { host, transport, port } => {
                OwnedCapabilityRequest::Network { host: host.to_owned(), transport, port }
            },
            CapabilityRequest::Tool { tool, action } => OwnedCapabilityRequest::Tool {
                tool: tool.to_owned(),
                action: action.to_owned(),
            },
        }
    }

    /// Lends the request.
    pub fn as_borrowed(&self) -> (r: CapabilityRequest<'_>)
        ensures
            r@ == self@,
    {
        match self {
            OwnedCapabilityRequest::File { path, access } => CapabilityRequest::File {
                path: path.as_str(),
                access: *access,
            },
            OwnedCapabilityRequest::Network { host, transport, port } => {
                CapabilityRequest::Network {
                    host: host.as_str(),
                    transport: *transport,
                    port: *port,
                }
            },
            OwnedCapabilityRequest::Tool { tool, action } => CapabilityRequest::Tool {
                tool: tool.as_str(),
                action: action.as_str(),
            },
        }
    }

    /// The action under which an approval policy may list the request.
    pub fn action(&self) -> (r: &str)
        ensures
            r@ == self@.action(),
    {
        match self {
            OwnedCapabilityRequest::File { access, .. } => match access {
                FileAccess::Read => "filesystem.read",
                FileAccess::Write => "filesystem.write",
            },
            OwnedCapabilityRequest::Network { .. } => "network.egress",
            OwnedCapabilityRequest::Tool { action, .. } => action.as_str(),
        }
    }

    /// Whether two requests ask for the same.
    pub fn same_as(&self, other: &OwnedCapabilityRequest) -> (r: bool)
        ensures
            r == (self@ == other@),
    {
        match (self, other) {
            (
                OwnedCapabilityRequest::File { path: a, access: x },
                OwnedCapabilityRequest::File { path: b, access: y },
            ) => *x == *y && text_eq(a.as_str(), b.as_str()),
            (
                OwnedCapabilityRequest::Network { host: a, transport: x, port: p },
                OwnedCapabilityRequest::Network { host: b, transport: y, port: q },
            ) => *x == *y && *p == *q && text_eq(a.as_str(), b.as_str()),
            (
                OwnedCapabilityRequest::Tool { tool: a, action: x },
                OwnedCapabilityRequest::Tool { tool: b, action: y },
            ) => text_eq(a.as_str(), b.as_str()) && text_eq(x.as_str(), y.as_str()),
            _ => false,
        }
    }
}

struct PendingOperation {
    task_id: TaskId,
    operation_id: OperationId,
    request: OwnedCapabilityRequest,
}

impl View for PendingOperation {
    type V = OperationModel;

    closed spec fn view(&self) -> OperationModel {
        OperationModel {
            task: self.task_id.value,
            operation: self.operation_id.value,
            request: self.request@,
        }
    }
}

struct ApprovedOperation {
    task_id: TaskId,
    request: OwnedCapabilityRequest,
    grant: ApprovalGrant,
}

impl View for ApprovedOperation {
    type V = ApprovedModel;

    closed spec fn view(&self) -> ApprovedModel {
        ApprovedModel { task: self.task_id.value, request: self.request@, grant: self.grant@ }
    }
}

/// Result of submitting a task specification.
#[derive(Debug)]
pub enum SubmitResult {
    Accepted(TaskSnapshot),
    Existing(TaskSnapshot),
    Rejected { task: TaskSnapshot, errors: ValidationErrors },
}

/// Resource-free result of evaluating an operation for one running task.
#[derive(Debug)]
pub enum OperationAuthorization {
    Allowed,
    Denied { reason: DenialReason },
    ApprovalRequired(ApprovalRequest),
}

/// Supervisor operation failure.
#[derive(Clone, Copy, Debug, PartialEq, Eq, Structural)]
pub enum SupervisorError {
    TaskNotFound,
    TaskNotRunning,
    IdempotencyConflict,
    CapacityExceeded,
    InvalidStateTransition(StateTransitionError),
    EventStore(EventStoreError),
    Approval(ApprovalError),
}

impl SupervisorError {
    /// The text of the failure.
    pub open spec fn text(self) -> Seq<char> {
        match self {
            SupervisorError::TaskNotFound => "task not found"@,
            SupervisorError::TaskNotRunning => "task is not running"@,
            SupervisorError::IdempotencyConflict => "idempotency key conflict"@,
            SupervisorError::CapacityExceeded => "task capacity exceeded"@,
            SupervisorError::InvalidStateTransition(error) => "invalid task state transition: "@
                + crate::error::state_name(error@.0) + " -> "@ + crate::error::state_name(
                error@.1,
            ),
            SupervisorError::EventStore(error) => error.text(),
            SupervisorError::Approval(error) => error.text(),
        }
    }

    /// The text of the failure.
    #[must_use]
    pub fn display(&self) -> (r: String)
        ensures
            r@ == self.text(),
    {
        match self {
            SupervisorError::TaskNotFound => "task not found".to_owned(),
            SupervisorError::TaskNotRunning => "task is not running".to_owned(),
            SupervisorError::IdempotencyConflict => "idempotency key conflict".to_owned(),
            SupervisorError::CapacityExceeded => "task capacity exceeded".to_owned(),
            SupervisorError::InvalidStateTransition(error) => error.display(),
            SupervisorError::EventStore(error) => error.display().to_owned(),
            SupervisorError::Approval(error) => error.display().to_owned(),
        }
    }
}

/// The wall-time budget of one started task.
#[derive(Clone, Copy)]
pub struct TaskExecutionContext {
    deadline: u128,
    clock: Clock,
}

impl TaskExecutionContext {
    /// When the budget is used up.
    pub closed spec fn deadline(&self) -> u128 {
        self.deadline
    }

    /// When the budget is used up.
    #[must_use]
    pub fn deadline_nanos(&self) -> (r: u128)
        ensures
            r == self.deadline(),
    {
        self.deadline
    }

    /// Reads the clock that the deadline is held against.
    #[must_use]
    pub fn now(&self) -> u128 {
        self.clock.now()
    }

    /// What is left of the budget at a given time.
    pub fn remaining_at(&self, now: u128) -> (r: Duration)
        ensures
            r.nanos == time::remaining(self.deadline(), now),
    {
        remaining_until(self.deadline, now)
    }

    /// What is left of the budget now.
    pub fn remaining_wall_time(&self) -> (r: Duration)
        ensures
            exists|now: u128| r.nanos == #[trigger] time::remaining(self.deadline(), now),
    {
        let now: u128 = self.clock.now();
        self.remaining_at(now)
    }
}

/// What a started task hands to its agent.
pub struct TaskExecutionInput {
    goal: String,
    tools: Vec<String>,
    destinations: Vec<NetworkDestination>,
}

/// The destinations that a task may reach.
pub open spec fn allowed_destinations(spec: TaskModel) -> Seq<DestinationModel> {
    match spec.network {
        Some(list) => list,
        None => Seq::<DestinationModel>::empty(),
    }
}

impl TaskExecutionInput {
    /// Whether this is the input of a given task.
    pub closed spec fn of(&self, spec: TaskModel) -> bool {
        &&& self.goal@ == spec.goal
        &&& text::texts(self.tools@) == spec.tools
        &&& task::destination_models(self.destinations@) == allowed_destinations(spec)
    }

    /// The goal of the task.
    #[must_use]
    pub fn goal(&self) -> (r: &str)
        ensures
            forall|spec: TaskModel| #[trigger] self.of(spec) ==> r@ == spec.goal,
    {
        self.goal.as_str()
    }

    /// The tools that the task may use.
    #[must_use]
    pub fn capability_tools(&self) -> (r: &Vec<String>)
        ensures
            forall|spec: TaskModel| #[trigger] self.of(spec) ==> text::texts(r@) == spec.tools,
    {
        &self.tools
    }

    /// The destinations that the task may reach.
    #[must_use]
    pub fn network_destinations(&self) -> (r: &Vec<NetworkDestination>)
        ensures
            forall|spec: TaskModel| #[trigger]
                self.of(spec) ==> task::destination_models(r@) == allowed_destinations(spec),
    {
        &self.destinations
    }
}

// -------------------------------------------------------- idempotency keys

struct KeyEntry {
    key: String,
    id: u128,
}

struct KeyIndex {
    entries: Vec<KeyEntry>,
}

spec fn key_map(entries: Seq<KeyEntry>) -> Map<Seq<char>, u128>
    decreases entries.len(),
{
    if entries.len() == 0 {
        Map::<Seq<char>, u128>::empty()
    } else {
        key_map(entries.drop_last()).insert(entries.last().key@, entries.last().id)
    }
}

impl View for KeyIndex {
    type V = Map<Seq<char>, u128>;

    closed spec fn view(&self) -> Map<Seq<char>, u128> {
        key_map(self.entries@)
    }
}

impl KeyIndex {
    fn new() -> (r: KeyIndex)
        ensures
            r@ == Map::<Seq<char>, u128>::empty(),
    {
        KeyIndex { entries: Vec::new() }
    }

    fn get(&self, key: &str) -> (r: Option<u128>)
        ensures
            r is Some <==> self@.contains_key(key@),
            r is Some ==> r->0 == self@[key@],
    {
        let mut i: usize = self.entries.len();
        assert(self.entries@.take(i as int) =~= self.entries@);
        while i > 0
            invariant
                i <= self.entries@.len(),
                self@.contains_key(key@) == key_map(self.entries@.take(i as int)).contains_key(
                    key@,
                ),
                self@.contains_key(key@) ==> self@[key@] == key_map(
                    self.entries@.take(i as int),
                )[key@],
            decreases i,
        {
            let ghost prefix = self.entries@.take(i as int);
            assert(prefix.drop_last() =~= self.entries@.take(i - 1));
            assert(prefix.last() == self.entries@[i - 1]);
            if text_eq(self.entries[i - 1].key.as_str(), key) {
                return Some(self.entries[i - 1].id);
            }
            i = i - 1;
        }
        None
    }

    fn insert(&mut self, key: String, id: u128)
        ensures
            final(self)@ == old(self)@.insert(key@, id),
    {
        self.entries.push(KeyEntry { key, id });
        assert(self.entries@.drop_last() =~= old(self).entries@);
    }
}

// ---------------------------------------------------------------- outcomes

/// What a submission does and returns.
///
/// A key that is in use returns the task that uses it, or a conflict where the input
/// differs. A drawn identifier that already names a task counts as exhausted capacity.
pub open spec fn submit_outcome(
    old: SupervisorModel,
    new: SupervisorModel,
    spec: TaskModel,
    id: u128,
    r: Result<SubmitResult, SupervisorError>,
) -> bool {
    if old.index.contains_key(spec.idempotency_key) {
        let found = old.index[spec.idempotency_key];
        &&& new == old
        &&& if old.tasks[found].spec == Some(spec) {
            r == Ok::<SubmitResult, SupervisorError>(
                SubmitResult::Existing(
                    (TaskSnapshot {
                        task_id: TaskId { value: found },
                        state: old.tasks[found].state,
                    }),
                ),
            )
        } else {
            r == Err::<SubmitResult, SupervisorError>(SupervisorError::IdempotencyConflict)
        }
    } else if old.tasks.dom().len() >= old.max_tasks || old.tasks.contains_key(id) {
        new == old && r == Err::<SubmitResult, SupervisorError>(SupervisorError::CapacityExceeded)
    } else {
        match r {
            Err(error) => error is EventStore && new == old,
            Ok(result) => {
                &&& event::log_extended(
                    old.log,
                    new.log,
                    id,
                    supervision::submission_kinds(spec),
                )
                &&& new == old.submitted(new.log, id, spec)
                &&& if spec.valid() {
                    result == SubmitResult::Accepted(
                        (TaskSnapshot {
                            task_id: TaskId { value: id },
                            state: TaskState::Queued,
                        }),
                    )
                } else {
                    &&& result matches SubmitResult::Rejected { task, errors }
                    &&& task == (TaskSnapshot {
                        task_id: TaskId { value: id },
                        state: TaskState::Rejected,
                    })
                    &&& errors@ == spec.issues()
                }
            },
        }
    }
}

/// What a transition does and returns.
pub open spec fn transition_outcome(
    old: SupervisorModel,
    new: SupervisorModel,
    task: u128,
    next: TaskState,
    code: Option<ErrorCode>,
    deadline: Option<u128>,
    r: Result<(), SupervisorError>,
) -> bool {
    if !old.tasks.contains_key(task) {
        new == old && r == Err::<(), SupervisorError>(SupervisorError::TaskNotFound)
    } else if !old.tasks[task].state.may_become(next) {
        &&& new == old
        &&& r matches Err(SupervisorError::InvalidStateTransition(error))
        &&& error@ == (old.tasks[task].state, next)
    } else {
        match r {
            Err(error) => error is EventStore && new == old,
            Ok(_) => event::log_extended(
                old.log,
                new.log,
                task,
                old.transition_kinds(task, next, code),
            ) && new == old.moved(new.log, task, next, deadline),
        }
    }
}

/// The deadline of a task after it was started at `now`: set when it leaves the queue, and
/// never set again.
pub open spec fn deadline_after_start(old: SupervisorModel, task: u128, now: u128) -> Option<u128> {
    if old.tasks[task].state is Queued {
        Some(old.started_deadline(task, now))
    } else {
        old.tasks[task].deadline
    }
}

/// What the expiry of approvals at `now` does and returns. Where the audit of one fails, the
/// approvals before it, in ascending order, have run out and the others are pending.
pub open spec fn expire_outcome(
    old: SupervisorModel,
    new: SupervisorModel,
    now: u128,
    r: Result<usize, SupervisorError>,
) -> bool {
    match r {
        Ok(count) => count == old.due(now).len() && supervision::expired_effect(
            old,
            new,
            old.due(now),
        ),
        Err(error) => error is EventStore && exists|k: int|
            0 <= k < old.due(now).len() && #[trigger] supervision::expired_effect(
                old,
                new,
                idmap::ascending(old.due(now)).take(k).to_set(),
            ),
    }
}

/// What a request of an operation does and returns once no approval is due.
pub open spec fn request_outcome(
    old: SupervisorModel,
    new: SupervisorModel,
    now: u128,
    approval: u128,
    operation: u128,
    task: u128,
    request: RequestModel,
    ttl: nat,
    r: Result<OperationAuthorization, SupervisorError>,
) -> bool {
    if !old.tasks.contains_key(task) {
        new == old && r == Err::<OperationAuthorization, SupervisorError>(
            SupervisorError::TaskNotFound,
        )
    } else if !(old.tasks[task].state is Running) {
        &&& new == old
        &&& r matches Err(SupervisorError::InvalidStateTransition(error))
        &&& error@ == (old.tasks[task].state, TaskState::WaitingApproval)
    } else {
        let decision = old.tasks[task].spec->0.decide(request);
        match decision {
            PolicyDecision::Allow => match r {
                Err(error) => error is EventStore && new == old,
                Ok(authorization) => authorization is Allowed && event::log_extended(
                    old.log,
                    new.log,
                    task,
                    supervision::decision_kinds(decision),
                ) && new == old.logged(new.log),
            },
            PolicyDecision::Deny { reason } => match r {
                Err(error) => error is EventStore && new == old,
                Ok(authorization) => authorization == (OperationAuthorization::Denied { reason })
                    && event::log_extended(
                    old.log,
                    new.log,
                    task,
                    supervision::decision_kinds(decision),
                ) && new == old.logged(new.log),
            },
            PolicyDecision::ApprovalRequired => if old.waits(task) {
                new == old && r == Err::<OperationAuthorization, SupervisorError>(
                    SupervisorError::Approval(ApprovalError::DuplicateOperation),
                )
            } else {
                match old.authority.refusal(
                    now,
                    approval,
                    task,
                    operation,
                    request.action(),
                    ttl,
                ) {
                    Some(error) => new == old && r == Err::<
                        OperationAuthorization,
                        SupervisorError,
                    >(SupervisorError::Approval(error)),
                    None => match r {
                        Err(error) => error is EventStore && new == old,
                        Ok(authorization) => {
                            &&& authorization matches OperationAuthorization::ApprovalRequired(
                                asked,
                            )
                            &&& approval::request_matches(
                                asked,
                                approval,
                                task,
                                operation,
                                request.action(),
                                ttl,
                            )
                            &&& event::log_extended(
                                old.log,
                                new.log,
                                task,
                                supervision::waiting_kinds(approval, operation),
                            )
                            &&& new == old.waiting(
                                new.log,
                                approval,
                                PendingModel {
                                    task,
                                    operation,
                                    action: request.action(),
                                    deadline: (now + ttl) as u128,
                                },
                                request,
                            )
                        },
                    },
                }
            },
        }
    }
}

/// What the grant of a pending operation does and returns once no approval is due.
pub open spec fn approve_outcome(
    old: SupervisorModel,
    new: SupervisorModel,
    id: u128,
    r: Result<TaskSnapshot, SupervisorError>,
) -> bool {
    if !old.pending.contains_key(id) {
        new == old && r == Err::<TaskSnapshot, SupervisorError>(
            SupervisorError::Approval(ApprovalError::NotFound),
        )
    } else {
        let task = old.pending[id].task;
        if !(old.tasks[task].state is WaitingApproval) {
            &&& new == old
            &&& r matches Err(SupervisorError::InvalidStateTransition(error))
            &&& error@ == (old.tasks[task].state, TaskState::Running)
        } else {
            match r {
                Err(error) => error is EventStore && new == old,
                Ok(snapshot) => {
                    &&& snapshot == (TaskSnapshot {
                        task_id: TaskId { value: task },
                        state: TaskState::Running,
                    })
                    &&& event::log_extended(old.log, new.log, task, old.grant_kinds(id))
                    &&& new == old.resumed(new.log, id)
                },
            }
        }
    }
}

/// What the denial of a pending operation does and returns once no approval is due.
pub open spec fn deny_outcome(
    old: SupervisorModel,
    new: SupervisorModel,
    id: u128,
    r: Result<TaskSnapshot, SupervisorError>,
) -> bool {
    if !old.pending.contains_key(id) {
        new == old && r == Err::<TaskSnapshot, SupervisorError>(
            SupervisorError::Approval(ApprovalError::NotFound),
        )
    } else {
        let task = old.pending[id].task;
        match r {
            Err(error) => error is EventStore && new == old,
            Ok(snapshot) => {
                &&& snapshot == (TaskSnapshot {
                    task_id: TaskId { value: task },
                    state: TaskState::Failed,
                })
                &&& event::log_extended(old.log, new.log, task, old.denial_kinds(id))
                &&& new == old.failed_waiting(new.log, id)
            },
        }
    }
}

/// What the use of an approved operation at `now` does and returns. Past the lookup the
/// approval is gone whatever comes of it.
pub open spec fn authorize_outcome(
    old: SupervisorModel,
    new: SupervisorModel,
    now: u128,
    task: u128,
    operation: u128,
    request: RequestModel,
    r: Result<ApprovalReceipt, SupervisorError>,
) -> bool {
    if !old.tasks.contains_key(task) {
        new == old && r == Err::<ApprovalReceipt, SupervisorError>(SupervisorError::TaskNotFound)
    } else if !(old.tasks[task].state is Running) {
        new == old && r == Err::<ApprovalReceipt, SupervisorError>(SupervisorError::TaskNotRunning)
    } else if !old.approved.contains_key(operation) {
        new == old && r == Err::<ApprovalReceipt, SupervisorError>(
            SupervisorError::Approval(ApprovalError::NotFound),
        )
    } else {
        let held = old.approved[operation];
        if held.task != task || held.request != request {
            new == old.consumed(old.log, operation) && r == Err::<
                ApprovalReceipt,
                SupervisorError,
            >(SupervisorError::Approval(ApprovalError::ScopeMismatch))
        } else {
            match held.grant.authorized(now, task, operation, request.action()) {
                Err(error) => new == old.consumed(old.log, operation) && r == Err::<
                    ApprovalReceipt,
                    SupervisorError,
                >(SupervisorError::Approval(error)),
                Ok(receipt) => match r {
                    Err(error) => error is EventStore && new == old.consumed(old.log, operation),
                    Ok(given) => given == receipt && event::log_extended(
                        old.log,
                        new.log,
                        task,
                        supervision::consumed_kinds(held.grant.approval, operation),
                    ) && new == old.consumed(new.log, operation),
                },
            }
        }
    }
}

/// Where the expiry that comes first fails, its error is the outcome; otherwise `follows`
/// holds.
pub open spec fn after_expiry<T>(
    swept: Result<usize, SupervisorError>,
    mid: SupervisorModel,
    new: SupervisorModel,
    r: Result<T, SupervisorError>,
    follows: bool,
) -> bool {
    match swept {
        Err(error) => new == mid && r == Err::<T, SupervisorError>(error),
        Ok(_) => follows,
    }
}

/// What a request of an operation does and returns: for some time and some drawn identifiers,
/// approvals that are due run out, and the request follows.
pub open spec fn requested_operation(
    old: SupervisorModel,
    new: SupervisorModel,
    task: u128,
    request: RequestModel,
    ttl: nat,
    r: Result<OperationAuthorization, SupervisorError>,
) -> bool {
    exists|
        now: u128,
        approval: u128,
        operation: u128,
        mid: SupervisorModel,
        swept: Result<usize, SupervisorError>,
    |
        #[trigger] expire_outcome(old, mid, now, swept) && after_expiry(
            swept,
            mid,
            new,
            r,
            #[trigger] request_outcome(
                mid,
                new,
                now,
                approval,
                operation,
                task,
                request,
                ttl,
                r,
            ),
        )
}

/// What the grant of an operation does and returns: for some time, approvals that are due run
/// out, and the grant follows.
pub open spec fn approved_operation(
    old: SupervisorModel,
    new: SupervisorModel,
    approval: u128,
    r: Result<TaskSnapshot, SupervisorError>,
) -> bool {
    exists|now: u128, mid: SupervisorModel, swept: Result<usize, SupervisorError>| #[trigger]
        expire_outcome(old, mid, now, swept) && after_expiry(
            swept,
            mid,
            new,
            r,
            approve_outcome(mid, new, approval, r),
        )
}

/// What the denial of an operation does and returns: for some time, approvals that are due run
/// out, and the denial follows.
pub open spec fn denied_operation(
    old: SupervisorModel,
    new: SupervisorModel,
    approval: u128,
    r: Result<TaskSnapshot, SupervisorError>,
) -> bool {
    exists|now: u128, mid: SupervisorModel, swept: Result<usize, SupervisorError>| #[trigger]
        expire_outcome(old, mid, now, swept) && after_expiry(
            swept,
            mid,
            new,
            r,
            deny_outcome(mid, new, approval, r),
        )
}

/// What the use of an approved operation does and returns, for some time.
pub open spec fn authorized_operation(
    old: SupervisorModel,
    new: SupervisorModel,
    task: u128,
    operation: u128,
    request: RequestModel,
    r: Result<ApprovalReceipt, SupervisorError>,
) -> bool {
    exists|now: u128| #[trigger]
        authorize_outcome(old, new, now, task, operation, request, r)
}

/// What the expiry of approvals does and returns, for some time.
pub open spec fn expired_approvals(
    old: SupervisorModel,
    new: SupervisorModel,
    r: Result<usize, SupervisorError>,
) -> bool {
    exists|now: u128| #[trigger] expire_outcome(old, new, now, r)
}

/// A supervisor that knows no tasks yet.
pub open spec fn empty_supervisor(log: EventLog, max_tasks: nat) -> SupervisorModel {
    SupervisorModel {
        tasks: Map::<u128, RecordModel>::empty(),
        index: Map::<Seq<char>, u128>::empty(),
        log,
        authority: AuthorityModel {
            pending: Map::<u128, PendingModel>::empty(),
            max_pending: approval::DEFAULT_MAX_PENDING_APPROVALS as nat,
            max_ttl: (approval::DEFAULT_MAX_TTL_SECONDS * NANOS_PER_SECOND) as nat,
        },
        pending: Map::<u128, OperationModel>::empty(),
        approved: Map::<u128, ApprovedModel>::empty(),
        max_tasks,
    }
}

// -------------------------------------------------------------- supervisor

/// Coordinates validated tasks and records every accepted state change.
pub struct TaskSupervisor<S = InMemoryEventStore> {
    tasks: IdMap<TaskRecord>,
    idempotency_index: KeyIndex,
    event_store: S,
    approval_authority: ApprovalAuthority,
    pending_operations: IdMap<PendingOperation>,
    approved_operations: IdMap<ApprovedOperation>,
    max_tasks: usize,
}

impl<S: EventStore> View for TaskSupervisor<S> {
    type V = SupervisorModel;

    closed spec fn view(&self) -> SupervisorModel {
        SupervisorModel {
            tasks: self.tasks@,
            index: self.idempotency_index@,
            log: self.event_store.log(),
            authority: self.approval_authority@,
            pending: self.pending_operations@,
            approved: self.approved_operations@,
            max_tasks: self.max_tasks as nat,
        }
    }
}

impl Default for TaskSupervisor<InMemoryEventStore> {
    fn default() -> (r: Self)
        ensures
            r@ == empty_supervisor(
                Map::<u128, Seq<TaskEvent>>::empty(),
                DEFAULT_MAX_TASKS as nat,
            ),
            r@.coherent(),
            r.store().log() == Map::<u128, Seq<TaskEvent>>::empty(),
            r.store().limit() == event::DEFAULT_MAX_EVENTS_PER_TASK,
    {
        TaskSupervisor::new(InMemoryEventStore::default())
    }
}

impl<S: EventStore> TaskSupervisor<S> {
    /// The event store.
    pub closed spec fn store(&self) -> S {
        self.event_store
    }

    /// Whether the event store promises to take `count` more events of a task.
    pub open spec fn admits(&self, task: u128, count: nat) -> bool {
        self.store().admits(task, count)
    }

    /// Whether the event store promises to take the events of every approval that is due.
    pub open spec fn admits_sweep(&self, now: u128) -> bool {
        forall|id: u128| #[trigger]
            self@.due(now).contains(id) ==> self.admits(self@.pending[id].task, 2)
    }

    /// Whether the event store promises to take the events of every approval that may run out.
    pub open spec fn admits_every_sweep(&self) -> bool {
        forall|id: u128| #[trigger]
            self@.pending.contains_key(id) ==> self.admits(self@.pending[id].task, 2)
    }

    /// Whether the event store promises to take the events of every approval that may run out,
    /// and any batch of up to `count` more events of a task.
    pub open spec fn has_room(&self, task: u128, count: nat) -> bool {
        &&& self.admits_every_sweep()
        &&& forall|k: nat| k <= count ==> #[trigger] self.admits(task, k)
    }

    proof fn lemma_every_sweep(&self, now: u128)
        requires
            self@.coherent(),
            self.admits_every_sweep(),
        ensures
            self.admits_sweep(now),
    {
        assert forall|id: u128| #[trigger] self@.due(now).contains(id) implies self.admits(
            self@.pending[id].task,
            2,
        ) by {
            assert(self@.authority.pending.dom().contains(id));
            assert(self@.pending.contains_key(id));
        }
    }

    /// The log of the model is that of the event store.
    pub proof fn law_the_log_is_that_of_the_store(&self)
        ensures
            self@.log == self.store().log(),
    {
    }

    /// Creates a supervisor with the default task limit.
    #[must_use]
    pub fn new(event_store: S) -> (r: TaskSupervisor<S>)
        ensures
            r@ == empty_supervisor(event_store.log(), DEFAULT_MAX_TASKS as nat),
            r@.coherent(),
            r.store() == event_store,
    {
        TaskSupervisor {
            tasks: IdMap::new(),
            idempotency_index: KeyIndex::new(),
            event_store,
            approval_authority: ApprovalAuthority::default(),
            pending_operations: IdMap::new(),
            approved_operations: IdMap::new(),
            max_tasks: DEFAULT_MAX_TASKS,
        }
    }

    /// Creates a supervisor with a task limit.
    pub fn with_max_tasks(event_store: S, max_tasks: usize) -> (r: Result<
        TaskSupervisor<S>,
        SupervisorError,
    >)
        ensures
            max_tasks == 0 ==> r is Err && r->Err_0 == SupervisorError::CapacityExceeded,
            max_tasks > 0 ==> r is Ok && (r->Ok_0)@ == empty_supervisor(
                event_store.log(),
                max_tasks as nat,
            ) && (r->Ok_0)@.coherent() && r->Ok_0.store() == event_store,
    {
        if max_tasks == 0 {
            return Err(SupervisorError::CapacityExceeded);
        }
        let mut supervisor = TaskSupervisor::new(event_store);
        supervisor.max_tasks = max_tasks;
        Ok(supervisor)
    }

    /// Submits a task, validates it, and leaves it queued or rejected.
    ///
    /// The task identifier is drawn; whatever it is, the outcome is that of
    /// [`TaskSupervisor::submit_as`].
    pub fn submit(&mut self, spec: TaskSpec) -> (r: Result<SubmitResult, SupervisorError>)
        requires
            old(self)@.coherent(),
        ensures
            final(self)@.coherent(),
            event::carries(old(self).store(), final(self).store()),
            exists|id: u128|
                ids::is_version_7(id) && #[trigger] submit_outcome(
                    old(self)@,
                    final(self)@,
                    spec@,
                    id,
                    r,
                ) && (r matches Err(SupervisorError::EventStore(_)) ==> !old(self).admits(
                    id,
                    supervision::submission_kinds(spec@).len(),
                )),
    {
        let task_id = TaskId::new();
        self.submit_as(spec, task_id)
    }

    /// Submits a task under a given identifier.
    pub fn submit_as(&mut self, spec: TaskSpec, task_id: TaskId) -> (r: Result<
        SubmitResult,
        SupervisorError,
    >)
        requires
            old(self)@.coherent(),
        ensures
            final(self)@.coherent(),
            event::carries(old(self).store(), final(self).store()),
            submit_outcome(old(self)@, final(self)@, spec@, task_id.value, r),
            r matches Err(SupervisorError::EventStore(_)) ==> !old(self).admits(
                task_id.value,
                supervision::submission_kinds(spec@).len(),
            ),
    {
        if let Some(found) = self.idempotency_index.get(spec.idempotency_key.as_str()) {
            let ghost key = spec@.idempotency_key;
            assert(self@.index.contains_key(key));
            match self.tasks.get(found) {
                None => {
                    return Err(SupervisorError::TaskNotFound);
                },
                Some(existing) => {
                    let same = match &existing.spec {
                        Some(known) => known.same_as(&spec),
                        None => false,
                    };
                    if !same {
                        return Err(SupervisorError::IdempotencyConflict);
                    }
                    return Ok(
                        SubmitResult::Existing(
                            TaskSnapshot {
                                task_id: TaskId { value: found },
                                state: existing.state,
                            },
                        ),
                    );
                },
            }
        }
        if self.tasks.len() >= self.max_tasks || self.tasks.contains(task_id.value) {
            return Err(SupervisorError::CapacityExceeded);
        }
        let validation = spec.validate();
        let mut event_kinds: Vec<TaskEventKind> = Vec::new();
        event_kinds.push(TaskEventKind::Submitted);
        event_kinds.push(
            TaskEventKind::StateTransitioned {
                from: TaskState::Submitted,
                to: TaskState::Validating,
            },
        );
        let state = match &validation {
            Ok(()) => {
                event_kinds.push(
                    TaskEventKind::StateTransitioned {
                        from: TaskState::Validating,
                        to: TaskState::Queued,
                    },
                );
                TaskState::Queued
            },
            Err(errors) => {
                event_kinds.push(
                    TaskEventKind::ValidationFailed { error_count: errors.errors().len() },
                );
                event_kinds.push(
                    TaskEventKind::StateTransitioned {
                        from: TaskState::Validating,
                        to: TaskState::Rejected,
                    },
                );
                TaskState::Rejected
            },
        };
        assert(event_kinds@ =~= supervision::submission_kinds(spec@));
        let ghost start = self@;
        if let Err(error) = self.event_store.append_batch(task_id, event_kinds.as_slice()) {
            assert(self@ =~= start);
            return Err(SupervisorError::EventStore(error));
        }
        let ghost model = spec@;
        let idempotency_key = spec.idempotency_key.clone();
        self.tasks.insert(task_id.value, TaskRecord { spec: Some(spec), state, deadline: None });
        self.idempotency_index.insert(idempotency_key, task_id.value);
        proof {
            assert(self@ =~= start.submitted(self@.log, task_id.value, model));
            supervision::lemma_submitted_coherent(start, self@.log, task_id.value, model);
        }
        let task = TaskSnapshot { task_id, state };
        match validation {
            Ok(()) => Ok(SubmitResult::Accepted(task)),
            Err(errors) => Ok(SubmitResult::Rejected { task, errors }),
        }
    }

    /// The state of a task.
    #[must_use]
    pub fn get(&self, task_id: TaskId) -> (r: Option<TaskSnapshot>)
        ensures
            r == if self@.tasks.contains_key(task_id.value) {
                Some((TaskSnapshot { task_id, state: self@.tasks[task_id.value].state }))
            } else {
                None
            },
    {
        match self.tasks.get(task_id.value) {
            Some(record) => Some(TaskSnapshot { task_id, state: record.state }),
            None => None,
        }
    }

    /// Starts a queued task. Its wall-time budget runs from now.
    pub fn start(&mut self, task_id: TaskId) -> (r: Result<(), SupervisorError>)
        requires
            old(self)@.coherent(),
        ensures
            final(self)@.coherent(),
            event::carries(old(self).store(), final(self).store()),
            exists|now: u128|
                transition_outcome(
                    old(self)@,
                    final(self)@,
                    task_id.value,
                    TaskState::Running,
                    None,
                    #[trigger] deadline_after_start(old(self)@, task_id.value, now),
                    r,
                ),
            r matches Err(SupervisorError::EventStore(_)) ==> !old(self).admits(task_id.value, 1),
    {
        let now: u128 = self.approval_authority.clock().now();
        self.start_at(now, task_id)
    }

    /// Starts a queued task at a given time.
    pub fn start_at(&mut self, now: u128, task_id: TaskId) -> (r: Result<(), SupervisorError>)
        requires
            old(self)@.coherent(),
        ensures
            final(self)@.coherent(),
            event::carries(old(self).store(), final(self).store()),
            transition_outcome(
                old(self)@,
                final(self)@,
                task_id.value,
                TaskState::Running,
                None,
                deadline_after_start(old(self)@, task_id.value, now),
                r,
            ),
            r matches Err(SupervisorError::EventStore(_)) ==> !old(self).admits(task_id.value, 1),
    {
        let mut deadline: Option<u128> = None;
        if let Some(record) = self.tasks.get(task_id.value) {
            assert(self@.tasks.contains_key(task_id.value));
            deadline = record.deadline;
            if record.state == TaskState::Queued {
                let seconds: u64 = match &record.spec {
                    Some(spec) => spec.budget.wall_time_seconds,
                    None => 0,
                };
                let budget: u128 = Duration::from_secs(seconds).nanos;
                deadline = Some(
                    match now.checked_add(budget) {
                        Some(end) => end,
                        None => 0xffff_ffff_ffff_ffff_ffff_ffff_ffff_ffff,
                    },
                );
            }
        }
        self.transition(task_id, TaskState::Running, None, deadline)
    }

    /// Starts a queued task and hands out what its agent works with.
    pub fn start_execution(&mut self, task_id: TaskId) -> (r: Result<
        TaskExecutionInput,
        SupervisorError,
    >)
        requires
            old(self)@.coherent(),
        ensures
            final(self)@.coherent(),
            event::carries(old(self).store(), final(self).store()),
            exists|now: u128|
                transition_outcome(
                    old(self)@,
                    final(self)@,
                    task_id.value,
                    TaskState::Running,
                    None,
                    #[trigger] deadline_after_start(old(self)@, task_id.value, now),
                    (match r {
                        Ok(_) => Ok::<(), SupervisorError>(()),
                        Err(error) => Err(error),
                    }),
                ),
            r is Ok ==> (r->Ok_0).of(old(self)@.tasks[task_id.value].spec->0),
            r matches Err(SupervisorError::EventStore(_)) ==> !old(self).admits(task_id.value, 1),
    {
        match self.start(task_id) {
            Err(error) => {
                return Err(error);
            },
            Ok(()) => {},
        }
        match self.tasks.get(task_id.value) {
            Some(record) => {
                assert(self@.tasks.contains_key(task_id.value));
                assert(record@.sound());
                match &record.spec {
                    Some(spec) => {
                        let destinations = match &spec.capabilities.network {
                            NetworkPolicy::Deny => {
                                let none: Vec<NetworkDestination> = Vec::new();
                                assert(task::destination_models(none@)
                                    =~= Seq::<DestinationModel>::empty());
                                none
                            },
                            NetworkPolicy::Allow { destinations } => clone_destinations(
                                destinations,
                            ),
                        };
                        Ok(
                            TaskExecutionInput {
                                goal: spec.goal.clone(),
                                tools: clone_texts(&spec.capabilities.tools),
                                destinations,
                            },
                        )
                    },
                    None => Err(SupervisorError::TaskNotFound),
                }
            },
            None => Err(SupervisorError::TaskNotFound),
        }
    }

    /// Reads the clock that deadlines are held against. The reading is whatever the machine tells.
    #[must_use]
    pub fn now(&self) -> u128 {
        self.approval_authority.clock().now()
    }

    /// The wall-time budget of a task that was started and has not ended.
    pub fn execution_context(&self, task_id: TaskId) -> (r: Result<
        TaskExecutionContext,
        SupervisorError,
    >)
        requires
            self@.coherent(),
        ensures
            unbindable(self@, task_id.value) == (match r {
                Ok(_) => None,
                Err(error) => Some(error),
            }),
            !self@.tasks.contains_key(task_id.value) ==> r is Err && r->Err_0
                == SupervisorError::TaskNotFound,
            self@.tasks.contains_key(task_id.value) && !(self@.tasks[task_id.value].state is Running
                || self@.tasks[task_id.value].state is WaitingApproval) ==> r is Err && r->Err_0
                == SupervisorError::TaskNotRunning,
            self@.tasks.contains_key(task_id.value) && (self@.tasks[task_id.value].state is Running
                || self@.tasks[task_id.value].state is WaitingApproval) ==> r is Ok
                && self@.tasks[task_id.value].deadline == Some(r->Ok_0.deadline()),
    {
        match self.tasks.get(task_id.value) {
            None => Err(SupervisorError::TaskNotFound),
            Some(record) => {
                assert(self@.tasks.contains_key(task_id.value));
                assert(record@.sound());
                if record.state != TaskState::Running && record.state
                    != TaskState::WaitingApproval {
                    return Err(SupervisorError::TaskNotRunning);
                }
                match record.deadline {
                    Some(deadline) => Ok(
                        TaskExecutionContext { deadline, clock: self.approval_authority.clock() },
                    ),
                    None => Err(SupervisorError::TaskNotRunning),
                }
            },
        }
    }

    /// Whether the wall-time budget of a live task is used up.
    pub fn wall_time_exceeded(&self, task_id: TaskId) -> (r: Result<bool, SupervisorError>)
        requires
            self@.coherent(),
        ensures
            exists|now: u128|
                r == #[trigger] wall_time_verdict(self@, task_id.value, now),
    {
        let now: u128 = self.approval_authority.clock().now();
        self.wall_time_exceeded_at(now, task_id)
    }

    /// Whether the wall-time budget of a live task is used up at a given time.
    pub fn wall_time_exceeded_at(&self, now: u128, task_id: TaskId) -> (r: Result<
        bool,
        SupervisorError,
    >)
        requires
            self@.coherent(),
        ensures
            r == wall_time_verdict(self@, task_id.value, now),
    {
        match self.tasks.get(task_id.value) {
            None => Err(SupervisorError::TaskNotFound),
            Some(record) => {
                if record.state.is_terminal() {
                    return Ok(false);
                }
                match record.deadline {
                    Some(deadline) => Ok(now >= deadline),
                    None => Ok(false),
                }
            },
        }
    }

    /// Evaluates one exact operation and records the decision before returning it.
    ///
    /// Approvals that are due run out first. The time is read and the identifiers are drawn;
    /// whatever they are, the outcome is that of [`TaskSupervisor::request_operation_at`].
    pub fn request_operation(
        &mut self,
        task_id: TaskId,
        request: CapabilityRequest<'_>,
        approval_ttl: Duration,
    ) -> (r: Result<OperationAuthorization, SupervisorError>)
        requires
            old(self)@.coherent(),
        ensures
            final(self)@.coherent(),
            event::carries(old(self).store(), final(self).store()),
            requested_operation(
                old(self)@,
                final(self)@,
                task_id.value,
                request@,
                approval_ttl.nanos as nat,
                r,
            ),
            old(self).admits_every_sweep() && old(self).admits(task_id.value, 1) && old(self).admits(
                task_id.value,
                2,
            ) ==> !(r matches Err(SupervisorError::EventStore(_))),
    {
        let now: u128 = self.approval_authority.clock().now();
        proof {
            if self.admits_every_sweep() {
                self.lemma_every_sweep(now);
            }
        }
        let approval: u128 = fresh_identifier();
        let operation: u128 = fresh_identifier();
        self.request_operation_at(
            now,
            ApprovalId { value: approval },
            OperationId { value: operation },
            task_id,
            request,
            approval_ttl,
        )
    }

    /// Evaluates one exact operation at a given time under given identifiers.
    pub fn request_operation_at(
        &mut self,
        now: u128,
        approval_id: ApprovalId,
        operation_id: OperationId,
        task_id: TaskId,
        request: CapabilityRequest<'_>,
        approval_ttl: Duration,
    ) -> (r: Result<OperationAuthorization, SupervisorError>)
        requires
            old(self)@.coherent(),
        ensures
            final(self)@.coherent(),
            event::carries(old(self).store(), final(self).store()),
            exists|mid: SupervisorModel, swept: Result<usize, SupervisorError>| #[trigger]
                expire_outcome(old(self)@, mid, now, swept) && after_expiry(
                    swept,
                    mid,
                    final(self)@,
                    r,
                    request_outcome(
                        mid,
                        final(self)@,
                        now,
                        approval_id.value,
                        operation_id.value,
                        task_id.value,
                        request@,
                        approval_ttl.nanos as nat,
                        r,
                    ),
                ),
            old(self).admits_sweep(now) && old(self).admits(task_id.value, 1) && old(self).admits(
                task_id.value,
                2,
            ) ==> !(r matches Err(SupervisorError::EventStore(_))),
    {
        let ghost start = self@;
        let swept = self.expire_approvals_at(now);
        let ghost mid = self@;
        match swept {
            Err(error) => Err(error),
            Ok(_) => {
                proof {
                    lemma_nothing_due(start, mid, now);
                    if start.tasks.contains_key(task_id.value) && !(
                    mid.tasks[task_id.value].state is Failed) {
                        lemma_untouched_promises(*old(self), *self, now, task_id.value);
                    }
                }
                self.request_settled(
                    now,
                    approval_id,
                    operation_id,
                    task_id,
                    request,
                    approval_ttl,
                )
            },
        }
    }

    /// Evaluates one exact operation while no approval is due.
    fn request_settled(
        &mut self,
        now: u128,
        approval_id: ApprovalId,
        operation_id: OperationId,
        task_id: TaskId,
        request: CapabilityRequest<'_>,
        approval_ttl: Duration,
    ) -> (r: Result<OperationAuthorization, SupervisorError>)
        requires
            old(self)@.coherent(),
            old(self)@.due(now) == Set::<u128>::empty(),
        ensures
            final(self)@.coherent(),
            event::carries(old(self).store(), final(self).store()),
            request_outcome(
                old(self)@,
                final(self)@,
                now,
                approval_id.value,
                operation_id.value,
                task_id.value,
                request@,
                approval_ttl.nanos as nat,
                r,
            ),
            old(self).admits(task_id.value, 1) && old(self).admits(task_id.value, 2) ==> !(
            r matches Err(SupervisorError::EventStore(_))),
    {
        let ghost start = self@;
        let owned_request = OwnedCapabilityRequest::from_borrowed(request);
        let decision = match self.tasks.get(task_id.value) {
            None => {
                return Err(SupervisorError::TaskNotFound);
            },
            Some(record) => {
                assert(self@.tasks.contains_key(task_id.value));
                assert(record@.sound());
                let mut proposed = record.state;
                if let Err(error) = proposed.transition_to(TaskState::WaitingApproval) {
                    return Err(SupervisorError::InvalidStateTransition(error));
                }
                match &record.spec {
                    Some(spec) => match CapabilityPolicy::from_task(spec) {
                        Ok(policy) => policy.evaluate(owned_request.as_borrowed()),
                        Err(_) => {
                            return Err(SupervisorError::TaskNotFound);
                        },
                    },
                    None => {
                        return Err(SupervisorError::TaskNotFound);
                    },
                }
            },
        };
        match decision {
            PolicyDecision::Allow => {
                let mut kinds: Vec<TaskEventKind> = Vec::new();
                kinds.push(TaskEventKind::OperationAllowed);
                assert(kinds@ =~= supervision::decision_kinds(decision));
                if let Err(error) = self.event_store.append_batch(task_id, kinds.as_slice()) {
                    assert(self@ =~= start);
                    return Err(SupervisorError::EventStore(error));
                }
                proof {
                    assert(self@ =~= start.logged(self@.log));
                    supervision::lemma_logged_coherent(start, self@.log);
                }
                Ok(OperationAuthorization::Allowed)
            },
            PolicyDecision::Deny { reason } => {
                let mut kinds: Vec<TaskEventKind> = Vec::new();
                kinds.push(TaskEventKind::OperationDenied { reason });
                assert(kinds@ =~= supervision::decision_kinds(decision));
                if let Err(error) = self.event_store.append_batch(task_id, kinds.as_slice()) {
                    assert(self@ =~= start);
                    return Err(SupervisorError::EventStore(error));
                }
                proof {
                    assert(self@ =~= start.logged(self@.log));
                    supervision::lemma_logged_coherent(start, self@.log);
                }
                Ok(OperationAuthorization::Denied { reason })
            },
            PolicyDecision::ApprovalRequired => {
                if self.has_pending(task_id) {
                    return Err(SupervisorError::Approval(ApprovalError::DuplicateOperation));
                }
                proof {
                    lemma_purge_nothing(start.authority, now);
                }
                let approval = match self.approval_authority.request_at(
                    now,
                    approval_id.value,
                    task_id,
                    operation_id,
                    owned_request.action(),
                    approval_ttl,
                ) {
                    Ok(approval) => approval,
                    Err(error) => {
                        assert(self@ =~= start);
                        return Err(SupervisorError::Approval(error));
                    },
                };
                let ghost bound = PendingModel {
                    task: task_id.value,
                    operation: operation_id.value,
                    action: request@.action(),
                    deadline: (now + approval_ttl.nanos) as u128,
                };
                let mut kinds: Vec<TaskEventKind> = Vec::new();
                kinds.push(TaskEventKind::ApprovalRequested { approval_id, operation_id });
                kinds.push(
                    TaskEventKind::StateTransitioned {
                        from: TaskState::Running,
                        to: TaskState::WaitingApproval,
                    },
                );
                assert(kinds@ =~= supervision::waiting_kinds(
                    approval_id.value,
                    operation_id.value,
                ));
                if let Err(error) = self.event_store.append_batch(task_id, kinds.as_slice()) {
                    let _ = self.approval_authority.revoke(approval_id);
                    proof {
                        assert(self@.authority.pending =~= start.authority.pending);
                        assert(self@ =~= start);
                    }
                    return Err(SupervisorError::EventStore(error));
                }
                self.pending_operations.insert(
                    approval_id.value,
                    PendingOperation { task_id, operation_id, request: owned_request },
                );
                self.set_state(task_id, TaskState::WaitingApproval);
                proof {
                    assert(self@ =~= start.waiting(
                        self@.log,
                        approval_id.value,
                        bound,
                        request@,
                    ));
                    supervision::lemma_waiting_coherent(
                        start,
                        self@.log,
                        approval_id.value,
                        bound,
                        request@,
                    );
                }
                Ok(OperationAuthorization::ApprovalRequired(approval))
            },
        }
    }

    /// Grants one pending operation and resumes its task only after audit persistence succeeds.
    pub fn approve_operation(&mut self, approval_id: ApprovalId) -> (r: Result<
        TaskSnapshot,
        SupervisorError,
    >)
        requires
            old(self)@.coherent(),
        ensures
            final(self)@.coherent(),
            event::carries(old(self).store(), final(self).store()),
            approved_operation(old(self)@, final(self)@, approval_id.value, r),
            old(self).admits_every_sweep() ==> !(r matches Err(SupervisorError::EventStore(_))),
    {
        let now: u128 = self.approval_authority.clock().now();
        proof {
            if self.admits_every_sweep() {
                self.lemma_every_sweep(now);
            }
        }
        self.approve_operation_at(now, approval_id)
    }

    /// Grants one pending operation at a given time.
    pub fn approve_operation_at(&mut self, now: u128, approval_id: ApprovalId) -> (r: Result<
        TaskSnapshot,
        SupervisorError,
    >)
        requires
            old(self)@.coherent(),
        ensures
            final(self)@.coherent(),
            event::carries(old(self).store(), final(self).store()),
            exists|mid: SupervisorModel, swept: Result<usize, SupervisorError>| #[trigger]
                expire_outcome(old(self)@, mid, now, swept) && after_expiry(
                    swept,
                    mid,
                    final(self)@,
                    r,
                    approve_outcome(mid, final(self)@, approval_id.value, r),
                ),
            old(self).admits_sweep(now) && (old(self)@.pending.contains_key(approval_id.value)
                ==> old(self).admits(old(self)@.pending[approval_id.value].task, 2)) ==> !(
            r matches Err(SupervisorError::EventStore(_))),
    {
        let ghost start = self@;
        let swept = self.expire_approvals_at(now);
        let ghost mid = self@;
        match swept {
            Err(error) => Err(error),
            Ok(_) => {
                proof {
                    lemma_nothing_due(start, mid, now);
                    if mid.pending.contains_key(approval_id.value) {
                        lemma_still_pending(start, mid, now, approval_id.value);
                        lemma_untouched_promises(
                            *old(self),
                            *self,
                            now,
                            start.pending[approval_id.value].task,
                        );
                    }
                }
                self.approve_settled(now, approval_id)
            },
        }
    }

    fn approve_settled(&mut self, now: u128, approval_id: ApprovalId) -> (r: Result<
        TaskSnapshot,
        SupervisorError,
    >)
        requires
            old(self)@.coherent(),
            old(self)@.due(now) == Set::<u128>::empty(),
        ensures
            final(self)@.coherent(),
            event::carries(old(self).store(), final(self).store()),
            approve_outcome(old(self)@, final(self)@, approval_id.value, r),
            old(self)@.pending.contains_key(approval_id.value) && old(self).admits(
                old(self)@.pending[approval_id.value].task,
                2,
            ) ==> !(r matches Err(SupervisorError::EventStore(_))),
    {
        let ghost start = self@;
        let ghost id = approval_id.value;
        let (task_id, operation_id) = match self.pending_operations.get(approval_id.value) {
            None => {
                return Err(SupervisorError::Approval(ApprovalError::NotFound));
            },
            Some(pending) => (pending.task_id, pending.operation_id),
        };
        assert(start.pending.contains_key(id));
        assert(start.pending_sound(id));
        match self.tasks.get(task_id.value) {
            None => {
                return Err(SupervisorError::TaskNotFound);
            },
            Some(record) => {
                let mut proposed = record.state;
                if let Err(error) = proposed.transition_to(TaskState::Running) {
                    return Err(SupervisorError::InvalidStateTransition(error));
                }
            },
        }
        proof {
            assert(start.authority.pending.contains_key(id));
            assert(!start.due(now).contains(id));
        }
        let grant = match self.approval_authority.approve_at(now, approval_id) {
            Ok(grant) => grant,
            Err(error) => {
                return Err(SupervisorError::Approval(error));
            },
        };
        let mut kinds: Vec<TaskEventKind> = Vec::new();
        kinds.push(TaskEventKind::ApprovalGranted { approval_id, operation_id });
        kinds.push(
            TaskEventKind::StateTransitioned {
                from: TaskState::WaitingApproval,
                to: TaskState::Running,
            },
        );
        assert(kinds@ =~= start.grant_kinds(id));
        if let Err(error) = self.event_store.append_batch(task_id, kinds.as_slice()) {
            grant.restore(&mut self.approval_authority);
            proof {
                assert(self@.authority.pending =~= start.authority.pending);
                assert(self@ =~= start);
            }
            return Err(SupervisorError::EventStore(error));
        }
        match self.pending_operations.remove(approval_id.value) {
            Some(pending) => {
                self.approved_operations.insert(
                    operation_id.value,
                    ApprovedOperation { task_id, request: pending.request, grant },
                );
            },
            None => {},
        }
        self.set_state(task_id, TaskState::Running);
        proof {
            assert(self@ =~= start.resumed(self@.log, id));
            supervision::lemma_resumed_coherent(start, self@.log, id);
        }
        Ok(TaskSnapshot { task_id, state: TaskState::Running })
    }

    /// Denies one pending operation and fails its task.
    pub fn deny_operation(&mut self, approval_id: ApprovalId) -> (r: Result<
        TaskSnapshot,
        SupervisorError,
    >)
        requires
            old(self)@.coherent(),
        ensures
            final(self)@.coherent(),
            event::carries(old(self).store(), final(self).store()),
            denied_operation(old(self)@, final(self)@, approval_id.value, r),
            old(self).admits_every_sweep() ==> !(r matches Err(SupervisorError::EventStore(_))),
    {
        let now: u128 = self.approval_authority.clock().now();
        proof {
            if self.admits_every_sweep() {
                self.lemma_every_sweep(now);
            }
        }
        self.deny_operation_at(now, approval_id)
    }

    /// Denies one pending operation at a given time.
    pub fn deny_operation_at(&mut self, now: u128, approval_id: ApprovalId) -> (r: Result<
        TaskSnapshot,
        SupervisorError,
    >)
        requires
            old(self)@.coherent(),
        ensures
            final(self)@.coherent(),
            event::carries(old(self).store(), final(self).store()),
            exists|mid: SupervisorModel, swept: Result<usize, SupervisorError>| #[trigger]
                expire_outcome(old(self)@, mid, now, swept) && after_expiry(
                    swept,
                    mid,
                    final(self)@,
                    r,
                    deny_outcome(mid, final(self)@, approval_id.value, r),
                ),
            old(self).admits_sweep(now) && (old(self)@.pending.contains_key(approval_id.value)
                ==> old(self).admits(old(self)@.pending[approval_id.value].task, 2)) ==> !(
            r matches Err(SupervisorError::EventStore(_))),
    {
        let ghost start = self@;
        let swept = self.expire_approvals_at(now);
        let ghost mid = self@;
        match swept {
            Err(error) => Err(error),
            Ok(_) => {
                proof {
                    lemma_nothing_due(start, mid, now);
                    if mid.pending.contains_key(approval_id.value) {
                        lemma_still_pending(start, mid, now, approval_id.value);
                        lemma_untouched_promises(
                            *old(self),
                            *self,
                            now,
                            start.pending[approval_id.value].task,
                        );
                    }
                }
                self.deny_settled(approval_id)
            },
        }
    }

    fn deny_settled(&mut self, approval_id: ApprovalId) -> (r: Result<
        TaskSnapshot,
        SupervisorError,
    >)
        requires
            old(self)@.coherent(),
        ensures
            final(self)@.coherent(),
            event::carries(old(self).store(), final(self).store()),
            deny_outcome(old(self)@, final(self)@, approval_id.value, r),
            old(self)@.pending.contains_key(approval_id.value) && old(self).admits(
                old(self)@.pending[approval_id.value].task,
                2,
            ) ==> !(r matches Err(SupervisorError::EventStore(_))),
    {
        let ghost start = self@;
        let ghost id = approval_id.value;
        let (task_id, operation_id) = match self.pending_operations.get(approval_id.value) {
            None => {
                return Err(SupervisorError::Approval(ApprovalError::NotFound));
            },
            Some(pending) => (pending.task_id, pending.operation_id),
        };
        assert(start.pending.contains_key(id));
        assert(start.pending_sound(id));
        if !self.approval_authority.contains(approval_id) {
            assert(start.authority.pending.dom().contains(id));
            return Err(SupervisorError::Approval(ApprovalError::NotFound));
        }
        let current = match self.tasks.get(task_id.value) {
            None => {
                return Err(SupervisorError::TaskNotFound);
            },
            Some(record) => {
                let mut proposed = record.state;
                if let Err(error) = proposed.transition_to(TaskState::Failed) {
                    return Err(SupervisorError::InvalidStateTransition(error));
                }
                record.state
            },
        };
        let mut kinds: Vec<TaskEventKind> = Vec::new();
        kinds.push(TaskEventKind::ApprovalDenied { approval_id, operation_id });
        kinds.push(TaskEventKind::StateTransitioned { from: current, to: TaskState::Failed });
        assert(kinds@ =~= start.denial_kinds(id));
        if let Err(error) = self.event_store.append_batch(task_id, kinds.as_slice()) {
            assert(self@ =~= start);
            return Err(SupervisorError::EventStore(error));
        }
        let _ = self.approval_authority.revoke(approval_id);
        let _ = self.pending_operations.remove(approval_id.value);
        self.set_state(task_id, TaskState::Failed);
        proof {
            assert(self@ =~= start.failed_waiting(self@.log, id));
            supervision::lemma_failed_waiting_coherent(start, self@.log, id);
        }
        Ok(TaskSnapshot { task_id, state: TaskState::Failed })
    }

    /// Consumes the approved operation only when the full resource request still matches.
    pub fn authorize_operation(
        &mut self,
        task_id: TaskId,
        operation_id: OperationId,
        request: CapabilityRequest<'_>,
    ) -> (r: Result<ApprovalReceipt, SupervisorError>)
        requires
            old(self)@.coherent(),
        ensures
            final(self)@.coherent(),
            event::carries(old(self).store(), final(self).store()),
            authorized_operation(
                old(self)@,
                final(self)@,
                task_id.value,
                operation_id.value,
                request@,
                r,
            ),
            old(self).admits(task_id.value, 1) ==> !(r matches Err(SupervisorError::EventStore(_))),
    {
        let now: u128 = self.approval_authority.clock().now();
        self.authorize_operation_at(now, task_id, operation_id, request)
    }

    /// Consumes the approved operation at a given time.
    pub fn authorize_operation_at(
        &mut self,
        now: u128,
        task_id: TaskId,
        operation_id: OperationId,
        request: CapabilityRequest<'_>,
    ) -> (r: Result<ApprovalReceipt, SupervisorError>)
        requires
            old(self)@.coherent(),
        ensures
            final(self)@.coherent(),
            event::carries(old(self).store(), final(self).store()),
            authorize_outcome(
                old(self)@,
                final(self)@,
                now,
                task_id.value,
                operation_id.value,
                request@,
                r,
            ),
            old(self).admits(task_id.value, 1) ==> !(r matches Err(SupervisorError::EventStore(_))),
    {
        let ghost start = self@;
        let ghost operation = operation_id.value;
        match self.tasks.get(task_id.value) {
            None => {
                return Err(SupervisorError::TaskNotFound);
            },
            Some(record) => {
                if record.state != TaskState::Running {
                    return Err(SupervisorError::TaskNotRunning);
                }
            },
        }
        let supplied = OwnedCapabilityRequest::from_borrowed(request);
        let approved = match self.approved_operations.remove(operation_id.value) {
            Some(approved) => approved,
            None => {
                assert(self@.approved =~= start.approved);
                assert(self@ =~= start);
                return Err(SupervisorError::Approval(ApprovalError::NotFound));
            },
        };
        proof {
            assert(start.approved.contains_key(operation));
            assert(start.approved_sound(operation));
            assert(self@ =~= start.consumed(start.log, operation));
            supervision::lemma_consumed_coherent(start, start.log, operation);
        }
        if approved.task_id != task_id || !approved.request.same_as(&supplied) {
            return Err(SupervisorError::Approval(ApprovalError::ScopeMismatch));
        }
        let decision = match self.tasks.get(task_id.value) {
            None => {
                return Err(SupervisorError::TaskNotFound);
            },
            Some(record) => {
                assert(self@.tasks.contains_key(task_id.value));
                assert(record@.sound());
                match &record.spec {
                    Some(spec) => match CapabilityPolicy::from_task(spec) {
                        Ok(policy) => policy.evaluate(supplied.as_borrowed()),
                        Err(_) => {
                            return Err(SupervisorError::TaskNotFound);
                        },
                    },
                    None => {
                        return Err(SupervisorError::TaskNotFound);
                    },
                }
            },
        };
        if decision != PolicyDecision::ApprovalRequired {
            return Err(SupervisorError::Approval(ApprovalError::ScopeMismatch));
        }
        let approval_id = approved.grant.approval_id();
        let receipt = match approved.grant.authorize_at(
            now,
            task_id,
            operation_id,
            supplied.action(),
        ) {
            Ok(receipt) => receipt,
            Err(error) => {
                return Err(SupervisorError::Approval(error));
            },
        };
        let mut kinds: Vec<TaskEventKind> = Vec::new();
        kinds.push(TaskEventKind::ApprovalConsumed { approval_id, operation_id });
        assert(kinds@ =~= supervision::consumed_kinds(approval_id.value, operation));
        if let Err(error) = self.event_store.append_batch(task_id, kinds.as_slice()) {
            assert(self@ =~= start.consumed(start.log, operation));
            return Err(SupervisorError::EventStore(error));
        }
        proof {
            assert(self@ =~= start.consumed(self@.log, operation));
            supervision::lemma_consumed_coherent(start, self@.log, operation);
        }
        Ok(receipt)
    }

    /// Expires pending requests and fails their waiting tasks after audit persistence succeeds.
    pub fn expire_approvals(&mut self) -> (r: Result<usize, SupervisorError>)
        requires
            old(self)@.coherent(),
        ensures
            final(self)@.coherent(),
            event::carries(old(self).store(), final(self).store()),
            expired_approvals(old(self)@, final(self)@, r),
            old(self).admits_every_sweep() ==> r is Ok,
    {
        let now: u128 = self.approval_authority.clock().now();
        proof {
            if self.admits_every_sweep() {
                self.lemma_every_sweep(now);
            }
        }
        self.expire_approvals_at(now)
    }

    /// Expires one pending request and fails its waiting task after its audit persists.
    pub(crate) fn expire_approval(&mut self, approval_id: ApprovalId) -> (r: Result<
        (),
        SupervisorError,
    >)
        requires
            old(self)@.coherent(),
            old(self)@.pending.contains_key(approval_id.value),
        ensures
            final(self)@.coherent(),
            event::carries(old(self).store(), final(self).store()),
            r is Ok ==> event::log_extended(
                old(self)@.log,
                final(self)@.log,
                old(self)@.pending[approval_id.value].task,
                old(self)@.expiry_kinds(approval_id.value),
            ) && final(self)@ == old(self)@.failed_waiting(final(self)@.log, approval_id.value),
            r is Err ==> r->Err_0 is EventStore && final(self)@ == old(self)@ && !old(self).admits(
                old(self)@.pending[approval_id.value].task,
                2,
            ),
    {
        let ghost start = self@;
        let ghost id = approval_id.value;
        assert(start.pending_sound(id));
        let (task_id, operation_id) = match self.pending_operations.get(approval_id.value) {
            Some(pending) => (pending.task_id, pending.operation_id),
            None => {
                assert(false);
                return Err(SupervisorError::TaskNotFound);
            },
        };
        let current = match self.tasks.get(task_id.value) {
            None => {
                return Err(SupervisorError::TaskNotFound);
            },
            Some(record) => {
                let mut proposed = record.state;
                if let Err(error) = proposed.transition_to(TaskState::Failed) {
                    return Err(SupervisorError::InvalidStateTransition(error));
                }
                record.state
            },
        };
        let mut kinds: Vec<TaskEventKind> = Vec::new();
        kinds.push(TaskEventKind::ApprovalExpired { approval_id, operation_id });
        kinds.push(TaskEventKind::StateTransitioned { from: current, to: TaskState::Failed });
        assert(kinds@ =~= start.expiry_kinds(id));
        if let Err(error) = self.event_store.append_batch(task_id, kinds.as_slice()) {
            assert(self@ =~= start);
            return Err(SupervisorError::EventStore(error));
        }
        let _ = self.approval_authority.revoke(approval_id);
        let _ = self.pending_operations.remove(approval_id.value);
        self.set_state(task_id, TaskState::Failed);
        proof {
            assert(self@ =~= start.failed_waiting(self@.log, id));
            supervision::lemma_failed_waiting_coherent(start, self@.log, id);
        }
        Ok(())
    }

    /// Expires the pending requests that are due at a given time.
    pub fn expire_approvals_at(&mut self, now: u128) -> (r: Result<usize, SupervisorError>)
        requires
            old(self)@.coherent(),
        ensures
            final(self)@.coherent(),
            event::carries(old(self).store(), final(self).store()),
            expire_outcome(old(self)@, final(self)@, now, r),
            old(self)@.due(now).len() == 0 ==> *final(self) == *old(self),
            r is Err ==> exists|k: int|
                0 <= k < old(self)@.due(now).len() && #[trigger] supervision::expired_effect(
                    old(self)@,
                    final(self)@,
                    idmap::ascending(old(self)@.due(now)).take(k).to_set(),
                ) && !old(self).admits(
                    old(self)@.pending[idmap::ascending(old(self)@.due(now))[k]].task,
                    2,
                ),
            old(self).admits_sweep(now) ==> r is Ok,
            old(self)@.due(now).len() > 0 && old(self).admits(
                old(self)@.pending[idmap::ascending(old(self)@.due(now))[0]].task,
                2,
            ) ==> !final(self)@.pending.contains_key(idmap::ascending(old(self)@.due(now))[0]),
    {
        let ghost start = self@;
        let ghost due = start.due(now);
        let expired = self.approval_authority.expired_ids_at(now);
        let mut i: usize = 0;
        proof {
            idmap::lemma_is_ascending(expired@, due);
            supervision::lemma_expired_none(start);
            assert(expired@.take(0).to_set() =~= Set::<u128>::empty());
        }
        while i < expired.len()
            invariant
                i <= expired@.len(),
                start == old(self)@,
                start.coherent(),
                i == 0 ==> *self == *old(self),
                due == start.due(now),
                expired@ == idmap::ascending(due),
                expired@.no_duplicates(),
                expired@.len() == due.len(),
                expired@.to_set() == due,
                self@.coherent(),
                event::carries(old(self).store(), self.store()),
                supervision::expired_effect(start, self@, expired@.take(i as int).to_set()),
                i > 0 ==> !self@.pending.contains_key(expired@[0]),
            decreases expired@.len() - i,
        {
            let approval_id = ApprovalId { value: expired[i] };
            let ghost id = approval_id.value;
            let ghost mid = self@;
            let ghost held = self.store();
            let ghost done = expired@.take(i as int).to_set();
            proof {
                assert(expired@.to_set().contains(expired@[i as int]));
                assert(due.contains(id));
                assert(start.authority.pending.dom().contains(id));
                assert(start.pending.dom().contains(id));
                assert(!done.contains(id)) by {
                    if done.contains(id) {
                        let k = choose|k: int|
                            0 <= k < i && expired@.take(i as int)[k] == id;
                        assert(expired@[k] == expired@[i as int]);
                    }
                }
                assert forall|a: u128| #[trigger] done.contains(a) implies start.pending.contains_key(
                    a,
                ) by {
                    let k = choose|k: int| 0 <= k < i && expired@.take(i as int)[k] == a;
                    assert(expired@[k] == a);
                    assert(expired@.to_set().contains(a));
                    assert(start.authority.pending.dom().contains(a));
                    assert(start.pending.dom().contains(a));
                }
                assert(mid.pending.contains_key(id));
                assert(mid.pending_sound(id));
                lemma_same_expiry(start, mid, done, id);
                assert(mid.log == held.log());
                assert(start.log == old(self).store().log());
            }
            if let Err(error) = self.expire_approval(approval_id) {
                proof {
                    let task = start.pending[id].task;
                    assert(!supervision::touches(start.pending, done, task)) by {
                        if supervision::touches(start.pending, done, task) {
                            let a = choose|a: u128| #[trigger]
                                done.contains(a) && start.pending[a].task == task;
                            assert(start.pending[a].task == start.pending[id].task);
                            assert(a == id);
                        }
                    }
                    assert(event::events_of(mid.log, task) == event::events_of(start.log, task));
                    assert(event::grown(old(self).store().log(), held.log(), task) == 0);
                    if old(self).admits(task, 2) {
                        assert(held.admits(task, 2));
                    }
                    assert(supervision::expired_effect(start, self@, done));
                }
                return Err(error);
            }
            proof {
                event::lemma_carries_on(old(self).store(), held, self.store());
                supervision::lemma_expired_one(start, mid, self@.log, done, id);
                let next = expired@.take(i + 1);
                assert(next.to_set() =~= done.insert(id)) by {
                    assert(next =~= expired@.take(i as int).push(id));
                    assert forall|k: u128| done.insert(id).contains(k) implies next.to_set().contains(
                        k,
                    ) by {
                        if k == id {
                            assert(next[i as int] == k);
                        } else {
                            let m = choose|m: int| 0 <= m < i && expired@.take(i as int)[m] == k;
                            assert(next[m] == k);
                        }
                    }
                }
            }
            i = i + 1;
        }
        assert(expired@.take(i as int) =~= expired@);
        Ok(expired.len())
    }

    /// Makes a running task wait for an approval that is given from outside.
    pub fn wait_for_approval(&mut self, task_id: TaskId) -> (r: Result<(), SupervisorError>)
        requires
            old(self)@.coherent(),
        ensures
            final(self)@.coherent(),
            event::carries(old(self).store(), final(self).store()),
            transition_outcome(
                old(self)@,
                final(self)@,
                task_id.value,
                TaskState::WaitingApproval,
                None,
                old(self)@.tasks[task_id.value].deadline,
                r,
            ),
            r matches Err(SupervisorError::EventStore(_)) ==> !old(self).admits(
                task_id.value,
                old(self)@.transition_kinds(task_id.value, TaskState::WaitingApproval, None).len(),
            ),
    {
        let deadline = self.deadline_of(task_id);
        self.transition(task_id, TaskState::WaitingApproval, None, deadline)
    }

    /// Lets a task that waits for an approval run again. A queued task is started.
    pub fn resume_after_approval(&mut self, task_id: TaskId) -> (r: Result<(), SupervisorError>)
        requires
            old(self)@.coherent(),
        ensures
            final(self)@.coherent(),
            event::carries(old(self).store(), final(self).store()),
            exists|now: u128|
                transition_outcome(
                    old(self)@,
                    final(self)@,
                    task_id.value,
                    TaskState::Running,
                    None,
                    #[trigger] deadline_after_start(old(self)@, task_id.value, now),
                    r,
                ),
            r matches Err(SupervisorError::EventStore(_)) ==> !old(self).admits(task_id.value, 1),
    {
        self.start(task_id)
    }

    /// Records the success of a running task.
    pub fn succeed(&mut self, task_id: TaskId) -> (r: Result<(), SupervisorError>)
        requires
            old(self)@.coherent(),
        ensures
            final(self)@.coherent(),
            event::carries(old(self).store(), final(self).store()),
            transition_outcome(
                old(self)@,
                final(self)@,
                task_id.value,
                TaskState::Succeeded,
                None,
                old(self)@.tasks[task_id.value].deadline,
                r,
            ),
            r matches Err(SupervisorError::EventStore(_)) ==> !old(self).admits(
                task_id.value,
                old(self)@.transition_kinds(task_id.value, TaskState::Succeeded, None).len(),
            ),
    {
        let deadline = self.deadline_of(task_id);
        self.transition(task_id, TaskState::Succeeded, None, deadline)
    }

    /// Records the failure of a running or waiting task.
    pub fn fail(&mut self, task_id: TaskId) -> (r: Result<(), SupervisorError>)
        requires
            old(self)@.coherent(),
        ensures
            final(self)@.coherent(),
            event::carries(old(self).store(), final(self).store()),
            transition_outcome(
                old(self)@,
                final(self)@,
                task_id.value,
                TaskState::Failed,
                None,
                old(self)@.tasks[task_id.value].deadline,
                r,
            ),
            r matches Err(SupervisorError::EventStore(_)) ==> !old(self).admits(
                task_id.value,
                old(self)@.transition_kinds(task_id.value, TaskState::Failed, None).len(),
            ),
    {
        let deadline = self.deadline_of(task_id);
        self.transition(task_id, TaskState::Failed, None, deadline)
    }

    /// Records the failure of a task whose budget is used up.
    pub fn fail_budget_exceeded(&mut self, task_id: TaskId) -> (r: Result<(), SupervisorError>)
        requires
            old(self)@.coherent(),
        ensures
            final(self)@.coherent(),
            event::carries(old(self).store(), final(self).store()),
            transition_outcome(
                old(self)@,
                final(self)@,
                task_id.value,
                TaskState::Failed,
                Some(ErrorCode::BudgetExceeded),
                old(self)@.tasks[task_id.value].deadline,
                r,
            ),
            r matches Err(SupervisorError::EventStore(_)) ==> !old(self).admits(
                task_id.value,
                old(self)@.transition_kinds(
                    task_id.value,
                    TaskState::Failed,
                    Some(ErrorCode::BudgetExceeded),
                ).len(),
            ),
    {
        let deadline = self.deadline_of(task_id);
        self.transition(task_id, TaskState::Failed, Some(ErrorCode::BudgetExceeded), deadline)
    }

    /// Cancels a non-terminal task and records one event. Repeated cancellation is a no-op.
    pub fn cancel(&mut self, task_id: TaskId) -> (r: Result<bool, SupervisorError>)
        requires
            old(self)@.coherent(),
        ensures
            final(self)@.coherent(),
            event::carries(old(self).store(), final(self).store()),
            cancel_outcome(old(self)@, final(self)@, task_id.value, r),
            r matches Err(SupervisorError::EventStore(_)) ==> !old(self).admits(
                task_id.value,
                old(self)@.transition_kinds(task_id.value, TaskState::Cancelled, None).len(),
            ),
    {
        match self.tasks.get(task_id.value) {
            None => {
                return Err(SupervisorError::TaskNotFound);
            },
            Some(record) => {
                if record.state.is_terminal() {
                    return Ok(false);
                }
            },
        }
        let deadline = self.deadline_of(task_id);
        match self.transition(task_id, TaskState::Cancelled, None, deadline) {
            Ok(()) => Ok(true),
            Err(error) => Err(error),
        }
    }

    /// The events of a task with a sequence greater than `after_sequence`.
    pub fn events(&self, task_id: TaskId, after_sequence: u64) -> (r: Result<
        Vec<TaskEvent>,
        SupervisorError,
    >)
        ensures
            !self@.tasks.contains_key(task_id.value) ==> r is Err && r->Err_0
                == SupervisorError::TaskNotFound,
            self@.tasks.contains_key(task_id.value) && r is Err ==> r->Err_0 is EventStore
                && !self.store().reads(task_id.value),
            r is Ok ==> (r->Ok_0)@ == event::events_of(self@.log, task_id.value).filter(
                |event: TaskEvent| event.sequence > after_sequence,
            ),
    {
        if !self.tasks.contains(task_id.value) {
            return Err(SupervisorError::TaskNotFound);
        }
        match self.event_store.list(task_id, after_sequence) {
            Ok(events) => Ok(events),
            Err(error) => Err(SupervisorError::EventStore(error)),
        }
    }

    fn deadline_of(&self, task_id: TaskId) -> (r: Option<u128>)
        ensures
            self@.tasks.contains_key(task_id.value) ==> r == self@.tasks[task_id.value].deadline,
    {
        match self.tasks.get(task_id.value) {
            Some(record) => record.deadline,
            None => None,
        }
    }

    fn has_pending(&self, task_id: TaskId) -> (r: bool)
        ensures
            r == self@.waits(task_id.value),
    {
        let ids = self.pending_operations.ids();
        let mut i: usize = 0;
        while i < ids.len()
            invariant
                i <= ids@.len(),
                idmap::lists_ascending(ids@, self@.pending.dom()),
                forall|k: int|
                    0 <= k < i ==> self@.pending[#[trigger] ids@[k]].task != task_id.value,
            decreases ids@.len() - i,
        {
            assert(ids@.to_set().contains(ids@[i as int]));
            match self.pending_operations.get(ids[i]) {
                Some(pending) => {
                    if pending.task_id == task_id {
                        assert(self@.pending.contains_key(ids@[i as int]));
                        return true;
                    }
                },
                None => {},
            }
            i = i + 1;
        }
        proof {
            assert forall|id: u128| #[trigger]
                self@.pending.contains_key(id) implies self@.pending[id].task != task_id.value by {
                assert(ids@.to_set().contains(id));
                let m = choose|m: int| 0 <= m < ids@.len() && ids@[m] == id;
                assert(self@.pending[ids@[m]] == self@.pending[id]);
            }
        }
        false
    }

    fn set_state(&mut self, task_id: TaskId, state: TaskState)
        requires
            old(self)@.tasks.contains_key(task_id.value),
        ensures
            final(self)@ == (SupervisorModel {
                tasks: old(self)@.tasks.insert(
                    task_id.value,
                    RecordModel { state, ..old(self)@.tasks[task_id.value] },
                ),
                ..old(self)@
            }),
            final(self).store() == old(self).store(),
    {
        let ghost start = self@;
        if let Some(record) = self.tasks.remove(task_id.value) {
            let mut record = record;
            record.state = state;
            self.tasks.insert(task_id.value, record);
        }
        proof {
            assert(self@.tasks =~= start.tasks.insert(
                task_id.value,
                RecordModel { state, ..start.tasks[task_id.value] },
            ));
        }
    }

    fn set_deadline(&mut self, task_id: TaskId, deadline: Option<u128>)
        requires
            old(self)@.tasks.contains_key(task_id.value),
        ensures
            final(self)@ == (SupervisorModel {
                tasks: old(self)@.tasks.insert(
                    task_id.value,
                    RecordModel { deadline, ..old(self)@.tasks[task_id.value] },
                ),
                ..old(self)@
            }),
            final(self).store() == old(self).store(),
    {
        let ghost start = self@;
        if let Some(record) = self.tasks.remove(task_id.value) {
            let mut record = record;
            record.deadline = deadline;
            self.tasks.insert(task_id.value, record);
        }
        proof {
            assert(self@.tasks =~= start.tasks.insert(
                task_id.value,
                RecordModel { deadline, ..start.tasks[task_id.value] },
            ));
        }
    }

    fn transition(
        &mut self,
        task_id: TaskId,
        next: TaskState,
        code: Option<ErrorCode>,
        deadline: Option<u128>,
    ) -> (r: Result<(), SupervisorError>)
        requires
            old(self)@.coherent(),
            (next is Running || next is WaitingApproval) && old(self)@.tasks.contains_key(
                task_id.value,
            ) && old(self)@.tasks[task_id.value].state.may_become(next) ==> deadline is Some,
        ensures
            final(self)@.coherent(),
            event::carries(old(self).store(), final(self).store()),
            transition_outcome(
                old(self)@,
                final(self)@,
                task_id.value,
                next,
                code,
                deadline,
                r,
            ),
            r matches Err(SupervisorError::EventStore(_)) ==> !old(self).admits(
                task_id.value,
                old(self)@.transition_kinds(task_id.value, next, code).len(),
            ),
    {
        let current = match self.tasks.get(task_id.value) {
            None => {
                return Err(SupervisorError::TaskNotFound);
            },
            Some(record) => record.state,
        };
        let mut proposed = current;
        if let Err(error) = proposed.transition_to(next) {
            return Err(SupervisorError::InvalidStateTransition(error));
        }
        self.apply_transition(task_id, current, next, code, deadline)
    }

    fn apply_transition(
        &mut self,
        task_id: TaskId,
        current: TaskState,
        next: TaskState,
        code: Option<ErrorCode>,
        deadline: Option<u128>,
    ) -> (r: Result<(), SupervisorError>)
        requires
            old(self)@.coherent(),
            old(self)@.tasks.contains_key(task_id.value),
            old(self)@.tasks[task_id.value].state == current,
            current.may_become(next),
            next is Running || next is WaitingApproval ==> deadline is Some,
        ensures
            final(self)@.coherent(),
            event::carries(old(self).store(), final(self).store()),
            transition_outcome(
                old(self)@,
                final(self)@,
                task_id.value,
                next,
                code,
                deadline,
                r,
            ),
            r matches Err(SupervisorError::EventStore(_)) ==> !old(self).admits(
                task_id.value,
                old(self)@.transition_kinds(task_id.value, next, code).len(),
            ),
    {
        let ghost start = self@;
        let ghost task = task_id.value;
        let mut event_kinds: Vec<TaskEventKind> = if next.is_terminal() {
            self.revocation_events(task_id)
        } else {
            Vec::new()
        };
        if let Some(code) = code {
            event_kinds.push(TaskEventKind::TaskFailed { code });
        }
        event_kinds.push(TaskEventKind::StateTransitioned { from: current, to: next });
        assert(event_kinds@ =~= start.transition_kinds(task, next, code));
        if let Err(error) = self.event_store.append_batch(task_id, event_kinds.as_slice()) {
            assert(self@ =~= start);
            return Err(SupervisorError::EventStore(error));
        }
        if next.is_terminal() {
            self.invalidate_approvals(task_id);
        }
        self.set_state(task_id, next);
        self.set_deadline(task_id, deadline);
        proof {
            let goal = start.moved(self@.log, task, next, deadline);
            assert(self@.tasks =~= goal.tasks);
            assert(self@.pending =~= goal.pending);
            assert(self@.authority.pending =~= goal.authority.pending);
            assert(self@.approved =~= goal.approved);
            assert(self@ =~= goal);
            supervision::lemma_moved_coherent(start, self@.log, task, next, deadline);
        }
        Ok(())
    }

    fn revocation_events(&self, task_id: TaskId) -> (r: Vec<TaskEventKind>)
        ensures
            r@ == self@.revocations(task_id.value),
    {
        let ghost task = task_id.value;
        let ghost pending = supervision::pending_for(self@.pending, task);
        let ghost approved = supervision::approved_for(self@.approved, task);
        let pending_ids = self.pending_ids(task_id);
        let approved_ids = self.approved_ids(task_id);
        let ghost first = idmap::ascending(pending).map_values(
            |id: u128|
                TaskEventKind::ApprovalRevoked {
                    approval_id: ApprovalId { value: id },
                    operation_id: OperationId { value: self@.pending[id].operation },
                },
        );
        let ghost second = idmap::ascending(approved).map_values(
            |id: u128|
                TaskEventKind::ApprovalRevoked {
                    approval_id: ApprovalId { value: self@.approved[id].grant.approval },
                    operation_id: OperationId { value: id },
                },
        );
        let mut out: Vec<TaskEventKind> = Vec::new();
        let mut i: usize = 0;
        while i < pending_ids.len()
            invariant
                i <= pending_ids@.len(),
                pending == supervision::pending_for(self@.pending, task),
                idmap::lists_ascending(pending_ids@, pending),
                pending_ids@ == idmap::ascending(pending),
                first == pending_ids@.map_values(
                    |id: u128|
                        TaskEventKind::ApprovalRevoked {
                            approval_id: ApprovalId { value: id },
                            operation_id: OperationId { value: self@.pending[id].operation },
                        },
                ),
                out@ == first.take(i as int),
            decreases pending_ids@.len() - i,
        {
            assert(pending_ids@.to_set().contains(pending_ids@[i as int]));
            match self.pending_operations.get(pending_ids[i]) {
                Some(operation) => {
                    out.push(
                        TaskEventKind::ApprovalRevoked {
                            approval_id: ApprovalId { value: pending_ids[i] },
                            operation_id: operation.operation_id,
                        },
                    );
                },
                None => {
                    assert(false);
                },
            }
            i = i + 1;
            assert(out@ =~= first.take(i as int));
        }
        assert(out@ =~= first);
        let mut j: usize = 0;
        assert(first + second.take(0) =~= first);
        while j < approved_ids.len()
            invariant
                j <= approved_ids@.len(),
                approved == supervision::approved_for(self@.approved, task),
                idmap::lists_ascending(approved_ids@, approved),
                approved_ids@ == idmap::ascending(approved),
                second == approved_ids@.map_values(
                    |id: u128|
                        TaskEventKind::ApprovalRevoked {
                            approval_id: ApprovalId { value: self@.approved[id].grant.approval },
                            operation_id: OperationId { value: id },
                        },
                ),
                out@ == first + second.take(j as int),
            decreases approved_ids@.len() - j,
        {
            assert(approved_ids@.to_set().contains(approved_ids@[j as int]));
            match self.approved_operations.get(approved_ids[j]) {
                Some(operation) => {
                    out.push(
                        TaskEventKind::ApprovalRevoked {
                            approval_id: operation.grant.approval_id(),
                            operation_id: OperationId { value: approved_ids[j] },
                        },
                    );
                },
                None => {
                    assert(false);
                },
            }
            j = j + 1;
            assert(out@ =~= first + second.take(j as int));
        }
        assert(second.take(j as int) =~= second);
        out
    }

    fn pending_ids(&self, task_id: TaskId) -> (r: Vec<u128>)
        ensures
            idmap::lists_ascending(r@, supervision::pending_for(self@.pending, task_id.value)),
            r@ == idmap::ascending(supervision::pending_for(self@.pending, task_id.value)),
            r@.no_duplicates(),
    {
        let ids = self.pending_operations.ids();
        let ghost wanted = supervision::pending_for(self@.pending, task_id.value);
        let mut out: Vec<u128> = Vec::new();
        let mut i: usize = 0;
        while i < ids.len()
            invariant
                i <= ids@.len(),
                idmap::lists_ascending(ids@, self@.pending.dom()),
                wanted == supervision::pending_for(self@.pending, task_id.value),
                selects(ids@, wanted, i as int, out@),
            decreases ids@.len() - i,
        {
            let ghost before = out@;
            assert(ids@.to_set().contains(ids@[i as int]));
            match self.pending_operations.get(ids[i]) {
                Some(pending) => {
                    if pending.task_id == task_id {
                        out.push(ids[i]);
                    }
                },
                None => {},
            }
            proof {
                lemma_selects_step(ids@, wanted, i as int, before, out@);
            }
            i = i + 1;
        }
        proof {
            lemma_selects_all(ids@, self@.pending.dom(), wanted, out@);
            idmap::lemma_is_ascending(out@, wanted);
        }
        out
    }

    fn approved_ids(&self, task_id: TaskId) -> (r: Vec<u128>)
        ensures
            idmap::lists_ascending(r@, supervision::approved_for(self@.approved, task_id.value)),
            r@ == idmap::ascending(supervision::approved_for(self@.approved, task_id.value)),
            r@.no_duplicates(),
    {
        let ids = self.approved_operations.ids();
        let ghost wanted = supervision::approved_for(self@.approved, task_id.value);
        let mut out: Vec<u128> = Vec::new();
        let mut i: usize = 0;
        while i < ids.len()
            invariant
                i <= ids@.len(),
                idmap::lists_ascending(ids@, self@.approved.dom()),
                wanted == supervision::approved_for(self@.approved, task_id.value),
                selects(ids@, wanted, i as int, out@),
            decreases ids@.len() - i,
        {
            let ghost before = out@;
            assert(ids@.to_set().contains(ids@[i as int]));
            match self.approved_operations.get(ids[i]) {
                Some(approved) => {
                    if approved.task_id == task_id {
                        out.push(ids[i]);
                    }
                },
                None => {},
            }
            proof {
                lemma_selects_step(ids@, wanted, i as int, before, out@);
            }
            i = i + 1;
        }
        proof {
            lemma_selects_all(ids@, self@.approved.dom(), wanted, out@);
            idmap::lemma_is_ascending(out@, wanted);
        }
        out
    }

    fn invalidate_approvals(&mut self, task_id: TaskId)
        ensures
            final(self)@ == (SupervisorModel {
                authority: AuthorityModel {
                    pending: old(self)@.authority.pending.remove_keys(
                        supervision::pending_for(old(self)@.pending, task_id.value),
                    ),
                    ..old(self)@.authority
                },
                pending: old(self)@.pending.remove_keys(
                    supervision::pending_for(old(self)@.pending, task_id.value),
                ),
                approved: old(self)@.approved.remove_keys(
                    supervision::approved_for(old(self)@.approved, task_id.value),
                ),
                ..old(self)@
            }),
            final(self).store() == old(self).store(),
    {
        let ghost start = self@;
        let ghost pending = supervision::pending_for(start.pending, task_id.value);
        let ghost approved = supervision::approved_for(start.approved, task_id.value);
        let pending_ids = self.pending_ids(task_id);
        let approved_ids = self.approved_ids(task_id);
        let mut i: usize = 0;
        proof {
            assert(pending_ids@.take(0).to_set() =~= Set::<u128>::empty());
            assert(start.pending.remove_keys(Set::<u128>::empty()) =~= start.pending);
            assert(start.authority.pending.remove_keys(Set::<u128>::empty())
                =~= start.authority.pending);
        }
        while i < pending_ids.len()
            invariant
                self.store() == old(self).store(),
                i <= pending_ids@.len(),
                self@.tasks == start.tasks,
                self@.index == start.index,
                self@.log == start.log,
                self@.approved == start.approved,
                self@.max_tasks == start.max_tasks,
                self@.authority.max_pending == start.authority.max_pending,
                self@.authority.max_ttl == start.authority.max_ttl,
                self@.pending == start.pending.remove_keys(pending_ids@.take(i as int).to_set()),
                self@.authority.pending == start.authority.pending.remove_keys(
                    pending_ids@.take(i as int).to_set(),
                ),
            decreases pending_ids@.len() - i,
        {
            let ghost id = pending_ids@[i as int];
            let _ = self.approval_authority.revoke(ApprovalId { value: pending_ids[i] });
            let _ = self.pending_operations.remove(pending_ids[i]);
            proof {
                lemma_take_insert(pending_ids@, i as int);
                assert(self@.pending =~= start.pending.remove_keys(
                    pending_ids@.take(i + 1).to_set(),
                ));
                assert(self@.authority.pending =~= start.authority.pending.remove_keys(
                    pending_ids@.take(i + 1).to_set(),
                ));
            }
            i = i + 1;
        }
        let mut j: usize = 0;
        proof {
            assert(pending_ids@.take(i as int) =~= pending_ids@);
            assert(approved_ids@.take(0).to_set() =~= Set::<u128>::empty());
            assert(start.approved.remove_keys(Set::<u128>::empty()) =~= start.approved);
        }
        let ghost mid = self@;
        while j < approved_ids.len()
            invariant
                self.store() == old(self).store(),
                j <= approved_ids@.len(),
                mid.approved == start.approved,
                self@ == (SupervisorModel {
                    approved: start.approved.remove_keys(approved_ids@.take(j as int).to_set()),
                    ..mid
                }),
            decreases approved_ids@.len() - j,
        {
            let _ = self.approved_operations.remove(approved_ids[j]);
            proof {
                lemma_take_insert(approved_ids@, j as int);
                assert(self@.approved =~= start.approved.remove_keys(
                    approved_ids@.take(j + 1).to_set(),
                ));
            }
            j = j + 1;
        }
        assert(approved_ids@.take(j as int) =~= approved_ids@);
    }
}

/// The state of a task after a restart: what has not ended has failed.
pub open spec fn restart_state(state: TaskState) -> TaskState {
    if state.terminal() {
        state
    } else {
        TaskState::Failed
    }
}

/// The events that a restart records of a task.
pub open spec fn restart_kinds(state: TaskState) -> Seq<TaskEventKind> {
    if state.terminal() {
        Seq::<TaskEventKind>::empty()
    } else {
        seq![
            TaskEventKind::TaskFailed { code: ErrorCode::RuntimeRestarted },
            TaskEventKind::StateTransitioned { from: state, to: TaskState::Failed },
        ]
    }
}

/// `new` knows the first `n` tasks of a list, each in its state after the restart, with the
/// events of the restart recorded. The other tasks of the list are as they were.
pub open spec fn restarted(
    log: EventLog,
    new: SupervisorModel,
    list: Seq<TaskSnapshot>,
    n: int,
) -> bool {
    &&& forall|k: int|
        0 <= k < n ==> {
            let task = (#[trigger] list[k]).task_id.value;
            &&& new.tasks.contains_key(task)
            &&& new.tasks[task] == (RecordModel {
                spec: None,
                state: restart_state(list[k].state),
                deadline: None,
            })
            &&& recovery::appended(
                task,
                event::events_of(log, task),
                event::events_of(new.log, task),
                restart_kinds(list[k].state),
            )
        }
    &&& forall|k: int|
        n <= k < list.len() ==> event::events_of(new.log, (#[trigger] list[k]).task_id.value)
            == event::events_of(log, list[k].task_id.value)
    &&& forall|task: u128| #[trigger]
        new.tasks.contains_key(task) ==> exists|k: int|
            0 <= k < n && (#[trigger] list[k]).task_id.value == task
    &&& forall|task: u128|
        !log.contains_key(task) ==> #[trigger] event::events_of(new.log, task).len() == 0
}

/// What a supervisor knows after a restart over a log.
pub open spec fn recovered_supervisor(log: EventLog, new: SupervisorModel, max_tasks: nat) -> bool {
    &&& new == (SupervisorModel {
        tasks: new.tasks,
        log: new.log,
        ..empty_supervisor(new.log, max_tasks)
    })
    &&& new.tasks.dom() == log.dom()
    &&& forall|task: u128|
        !log.contains_key(task) ==> #[trigger] event::events_of(new.log, task).len() == 0
    &&& forall|task: u128| #[trigger]
        log.contains_key(task) ==> {
            &&& recovery::recovered(log[task]) is Some
            &&& new.tasks[task] == (RecordModel {
                spec: None,
                state: restart_state(recovery::recovered(log[task])->0),
                deadline: None,
            })
            &&& recovery::appended(
                task,
                log[task],
                event::events_of(new.log, task),
                restart_kinds(recovery::recovered(log[task])->0),
            )
        }
}

impl<S: EventStore> TaskSupervisor<S> {
    /// Registers one task of a store after a restart.
    fn take_over(&mut self, snapshot: TaskSnapshot) -> (r: Result<(), SupervisorError>)
        ensures
            event::carries(old(self).store(), final(self).store()),
            r is Err ==> r->Err_0 is EventStore && !snapshot.state.terminal() && !old(self).admits(
                snapshot.task_id.value,
                2,
            ) && final(self)@ == old(self)@,
            r is Ok ==> final(self)@ == (SupervisorModel {
                tasks: old(self)@.tasks.insert(
                    snapshot.task_id.value,
                    RecordModel {
                        spec: None,
                        state: restart_state(snapshot.state),
                        deadline: None,
                    },
                ),
                log: final(self)@.log,
                ..old(self)@
            }) && event::log_extended(
                old(self)@.log,
                final(self)@.log,
                snapshot.task_id.value,
                restart_kinds(snapshot.state),
            ),
    {
        let mut state = snapshot.state;
        if !snapshot.state.is_terminal() {
            let mut kinds: Vec<TaskEventKind> = Vec::new();
            kinds.push(TaskEventKind::TaskFailed { code: ErrorCode::RuntimeRestarted });
            kinds.push(
                TaskEventKind::StateTransitioned { from: snapshot.state, to: TaskState::Failed },
            );
            assert(kinds@ =~= restart_kinds(snapshot.state));
            if let Err(error) = self.event_store.append_batch(
                snapshot.task_id,
                kinds.as_slice(),
            ) {
                return Err(SupervisorError::EventStore(error));
            }
            state = TaskState::Failed;
        }
        self.tasks.insert(
            snapshot.task_id.value,
            TaskRecord { spec: None, state, deadline: None },
        );
        Ok(())
    }

    /// Registers the tasks of a store after a restart.
    fn take_over_all(&mut self, snapshots: &Vec<TaskSnapshot>) -> (r: Result<(), SupervisorError>)
        requires
            old(self)@.coherent(),
            old(self)@.tasks == Map::<u128, RecordModel>::empty(),
            old(self)@.pending == Map::<u128, OperationModel>::empty(),
            old(self)@.approved == Map::<u128, ApprovedModel>::empty(),
            old(self)@.index == Map::<Seq<char>, u128>::empty(),
            recovery::snapshots_cover(old(self)@.log, snapshots@),
        ensures
            event::carries(old(self).store(), final(self).store()),
            r is Err ==> r->Err_0 is EventStore && exists|k: int|
                0 <= k < snapshots@.len() && #[trigger] restart_refused(
                    old(self).store(),
                    snapshots@[k],
                ),
            r is Ok ==> final(self)@.coherent() && final(self)@ == (SupervisorModel {
                tasks: final(self)@.tasks,
                log: final(self)@.log,
                ..old(self)@
            }) && restarted(
                old(self)@.log,
                final(self)@,
                snapshots@,
                snapshots@.len() as int,
            ),
    {
        let ghost log = self@.log;
        let ghost list = snapshots@;
        let mut i: usize = 0;
        while i < snapshots.len()
            invariant
                i <= snapshots@.len(),
                list == snapshots@,
                log == old(self)@.log,
                recovery::snapshots_cover(log, list),
                old(self)@.pending == Map::<u128, OperationModel>::empty(),
                old(self)@.approved == Map::<u128, ApprovedModel>::empty(),
                old(self)@.index == Map::<Seq<char>, u128>::empty(),
                self@ == (SupervisorModel { tasks: self@.tasks, log: self@.log, ..old(self)@ }),
                restarted(log, self@, list, i as int),
                self@.coherent(),
                event::carries(old(self).store(), self.store()),
            decreases snapshots@.len() - i,
        {
            let snapshot = snapshots[i];
            let ghost before = self@;
            let ghost held = self.store();
            assert(list[i as int] == snapshot);
            assert(before.log == held.log());
            if let Err(error) = self.take_over(snapshot) {
                proof {
                    let task = snapshot.task_id.value;
                    assert(log == old(self).store().log());
                    assert(event::events_of(before.log, list[i as int].task_id.value)
                        == event::events_of(log, task));
                    assert(event::grown(old(self).store().log(), held.log(), task) == 0);
                    if old(self).admits(task, 2) {
                        assert(held.admits(task, 2));
                    }
                    assert(restart_refused(old(self).store(), snapshots@[i as int]));
                    event::lemma_carries_on(old(self).store(), held, self.store());
                }
                return Err(error);
            }
            proof {
                event::lemma_carries_on(old(self).store(), held, self.store());
                recovery::lemma_log_extended_appends(
                    before.log,
                    self@.log,
                    snapshot.task_id.value,
                    restart_kinds(snapshot.state),
                );
                lemma_restarted_step(log, before, self@, list, i as int);
            }
            i = i + 1;
        }
        Ok(())
    }

    /// A supervisor that takes over the tasks that a store was found to hold.
    ///
    /// A task that had not ended fails: its execution is not resumed and its input is not
    /// restored. Where the audit of that fails, there is no supervisor.
    pub fn restart(event_store: S, max_tasks: usize, snapshots: &Vec<TaskSnapshot>) -> (r: Result<
        TaskSupervisor<S>,
        SupervisorError,
    >)
        requires
            recovery::snapshots_cover(event_store.log(), snapshots@),
        ensures
            r matches Err(SupervisorError::CapacityExceeded) <==> max_tasks == 0
                || snapshots@.len() > max_tasks,
            r is Err ==> r->Err_0 == SupervisorError::CapacityExceeded || (r->Err_0 is EventStore
                && exists|k: int|
                0 <= k < snapshots@.len() && #[trigger] restart_refused(
                    event_store,
                    snapshots@[k],
                )),
            r is Ok ==> recovered_supervisor(
                event_store.log(),
                (r->Ok_0)@,
                max_tasks as nat,
            ) && (r->Ok_0)@.coherent() && event::carries(event_store, r->Ok_0.store()),
    {
        let ghost log = event_store.log();
        if max_tasks == 0 || snapshots.len() > max_tasks {
            return Err(SupervisorError::CapacityExceeded);
        }
        let mut supervisor = TaskSupervisor::new(event_store);
        supervisor.max_tasks = max_tasks;
        if let Err(error) = supervisor.take_over_all(snapshots) {
            return Err(error);
        }
        proof {
            lemma_restarted_all(log, supervisor@, snapshots@);
        }
        Ok(supervisor)
    }
}

/// Whether a store did not promise to take the events of the failure of an unfinished task.
pub open spec fn restart_refused<S: EventStore>(store: S, snapshot: TaskSnapshot) -> bool {
    !snapshot.state.terminal() && !store.admits(snapshot.task_id.value, 2)
}

impl<S: RecoverableEventStore> TaskSupervisor<S> {
    /// Takes over the tasks of a store after a restart.
    ///
    /// The store is asked for the tasks that it holds; whatever it answers, the outcome is that
    /// of [`TaskSupervisor::restart`].
    pub fn recover(event_store: S, max_tasks: usize) -> (r: Result<
        TaskSupervisor<S>,
        SupervisorError,
    >)
        ensures
            max_tasks == 0 ==> r is Err && r->Err_0 == SupervisorError::CapacityExceeded,
            r is Ok ==> recovered_supervisor(
                event_store.log(),
                (r->Ok_0)@,
                max_tasks as nat,
            ) && (r->Ok_0)@.coherent() && event_store.log().dom().len() <= max_tasks
                && event::carries(event_store, r->Ok_0.store()),
            r is Err ==> r->Err_0 is EventStore || (r->Err_0 == SupervisorError::CapacityExceeded
                && (max_tasks == 0 || event_store.log().dom().len() > max_tasks)),
            r matches Err(SupervisorError::EventStore(_)) && event_store.tells_tasks() ==> exists|
                task: u128,
            |
                #[trigger] event_store.log().contains_key(task) && !recovery::recovered(
                    event_store.log()[task],
                )->0.terminal() && !event_store.admits(task, 2),
    {
        let ghost log = event_store.log();
        if max_tasks == 0 {
            return Err(SupervisorError::CapacityExceeded);
        }
        let snapshots = match event_store.recover_task_snapshots() {
            Ok(snapshots) => snapshots,
            Err(error) => {
                return Err(SupervisorError::EventStore(error));
            },
        };
        proof {
            lemma_snapshot_count(log, snapshots@);
        }
        let r = TaskSupervisor::restart(event_store, max_tasks, &snapshots);
        proof {
            if r matches Err(SupervisorError::EventStore(_)) {
                let k = choose|k: int|
                    0 <= k < snapshots@.len() && #[trigger] restart_refused(
                        event_store,
                        snapshots@[k],
                    );
                assert(log.contains_key(snapshots@[k].task_id.value));
            }
        }
        r
    }
}

proof fn lemma_restarted_step(
    log: EventLog,
    before: SupervisorModel,
    after: SupervisorModel,
    list: Seq<TaskSnapshot>,
    i: int,
)
    requires
        0 <= i < list.len(),
        recovery::snapshots_cover(log, list),
        restarted(log, before, list, i),
        before.coherent(),
        before.pending == Map::<u128, OperationModel>::empty(),
        before.approved == Map::<u128, ApprovedModel>::empty(),
        before.index == Map::<Seq<char>, u128>::empty(),
        after == (SupervisorModel {
            tasks: before.tasks.insert(
                list[i].task_id.value,
                RecordModel { spec: None, state: restart_state(list[i].state), deadline: None },
            ),
            log: after.log,
            ..before
        }),
        forall|t: u128|
            t != list[i].task_id.value ==> #[trigger] event::events_of(after.log, t)
                == event::events_of(before.log, t),
        recovery::appended(
            list[i].task_id.value,
            event::events_of(before.log, list[i].task_id.value),
            event::events_of(after.log, list[i].task_id.value),
            restart_kinds(list[i].state),
        ),
    ensures
        restarted(log, after, list, i + 1),
        after.coherent(),
{
    let task = list[i].task_id.value;
    assert(after.tasks.dom() =~= before.tasks.dom().insert(task));
    assert forall|k: int| 0 <= k < i + 1 implies {
        let t = (#[trigger] list[k]).task_id.value;
        &&& after.tasks.contains_key(t)
        &&& after.tasks[t] == (RecordModel {
            spec: None,
            state: restart_state(list[k].state),
            deadline: None,
        })
        &&& recovery::appended(
            t,
            event::events_of(log, t),
            event::events_of(after.log, t),
            restart_kinds(list[k].state),
        )
    } by {
        if k < i {
            assert(list[k].task_id != list[i].task_id);
        }
    }
    assert forall|k: int| i + 1 <= k < list.len() implies event::events_of(
        after.log,
        (#[trigger] list[k]).task_id.value,
    ) == event::events_of(log, list[k].task_id.value) by {
        assert(list[i].task_id != list[k].task_id);
    }
    assert forall|t: u128| #[trigger] after.tasks.contains_key(t) implies exists|k: int|
        0 <= k < i + 1 && (#[trigger] list[k]).task_id.value == t by {
        if t != task {
            assert(before.tasks.contains_key(t));
            let k = choose|k: int| 0 <= k < i && (#[trigger] list[k]).task_id.value == t;
            assert(list[k].task_id.value == t);
        } else {
            assert(list[i].task_id.value == t);
        }
    }
    assert forall|t: u128| #[trigger] after.tasks.contains_key(t) implies after.tasks[t].sound() by {
        if t != task {
            assert(before.tasks.contains_key(t));
        }
    }
}

proof fn lemma_snapshot_count(log: EventLog, list: Seq<TaskSnapshot>)
    requires
        recovery::snapshots_cover(log, list),
    ensures
        log.dom().len() == list.len(),
        log.dom().finite(),
{
    let ids = list.map_values(|s: TaskSnapshot| s.task_id.value);
    assert(ids.no_duplicates()) by {
        assert forall|a: int, b: int|
            0 <= a < ids.len() && 0 <= b < ids.len() && a != b implies ids[a] != ids[b] by {
            if a < b {
                assert(list[a].task_id != list[b].task_id);
            } else {
                assert(list[b].task_id != list[a].task_id);
            }
        }
    }
    assert(ids.to_set() =~= log.dom()) by {
        assert forall|task: u128| log.dom().contains(task) implies ids.to_set().contains(task) by {
            assert(log.contains_key(task));
            let k = choose|k: int| 0 <= k < list.len() && (#[trigger] list[k]).task_id.value == task;
            assert(ids[k] == task);
        }
        assert forall|task: u128| ids.to_set().contains(task) implies log.dom().contains(task) by {
            let k = choose|k: int| 0 <= k < ids.len() && ids[k] == task;
            assert(log.contains_key(list[k].task_id.value));
        }
    }
    ids.unique_seq_to_set();
    vstd::seq_lib::seq_to_set_is_finite(ids);
}

proof fn lemma_restarted_all(log: EventLog, new: SupervisorModel, list: Seq<TaskSnapshot>)
    requires
        recovery::snapshots_cover(log, list),
        restarted(log, new, list, list.len() as int),
        new.tasks.dom().finite(),
    ensures
        new.tasks.dom() == log.dom(),
        log.dom().len() == list.len(),
        forall|task: u128| #[trigger]
            log.contains_key(task) ==> {
                &&& recovery::recovered(log[task]) is Some
                &&& new.tasks[task] == (RecordModel {
                    spec: None,
                    state: restart_state(recovery::recovered(log[task])->0),
                    deadline: None,
                })
                &&& recovery::appended(
                    task,
                    log[task],
                    event::events_of(new.log, task),
                    restart_kinds(recovery::recovered(log[task])->0),
                )
            },
{
    assert forall|task: u128| log.dom().contains(task) implies new.tasks.dom().contains(task) by {
        assert(log.contains_key(task));
        let k = choose|k: int| 0 <= k < list.len() && (#[trigger] list[k]).task_id.value == task;
        assert(new.tasks.contains_key(list[k].task_id.value));
    }
    assert forall|task: u128| new.tasks.dom().contains(task) implies log.dom().contains(task) by {
        assert(new.tasks.contains_key(task));
        let k = choose|k: int| 0 <= k < list.len() && (#[trigger] list[k]).task_id.value == task;
        assert(log.contains_key(list[k].task_id.value));
    }
    assert(new.tasks.dom() =~= log.dom());
    lemma_snapshot_count(log, list);
    assert forall|task: u128| #[trigger] log.contains_key(task) implies {
        &&& recovery::recovered(log[task]) is Some
        &&& new.tasks[task] == (RecordModel {
            spec: None,
            state: restart_state(recovery::recovered(log[task])->0),
            deadline: None,
        })
        &&& recovery::appended(
            task,
            log[task],
            event::events_of(new.log, task),
            restart_kinds(recovery::recovered(log[task])->0),
        )
    } by {
        let k = choose|k: int| 0 <= k < list.len() && (#[trigger] list[k]).task_id.value == task;
        assert(list[k].task_id.value == task);
    }
}

/// One operation of the supervisor with what it was given and what it returned.
pub enum StepModel {
    Submit { spec: TaskModel, id: u128, r: Result<SubmitResult, SupervisorError> },
    Move {
        task: u128,
        next: TaskState,
        code: Option<ErrorCode>,
        deadline: Option<u128>,
        r: Result<(), SupervisorError>,
    },
    Cancel { task: u128, r: Result<bool, SupervisorError> },
    Expire { now: u128, r: Result<usize, SupervisorError> },
    Request {
        now: u128,
        approval: u128,
        operation: u128,
        task: u128,
        request: RequestModel,
        ttl: nat,
        r: Result<OperationAuthorization, SupervisorError>,
    },
    Approve { id: u128, r: Result<TaskSnapshot, SupervisorError> },
    Deny { id: u128, r: Result<TaskSnapshot, SupervisorError> },
    Authorize {
        now: u128,
        task: u128,
        operation: u128,
        request: RequestModel,
        r: Result<ApprovalReceipt, SupervisorError>,
    },
}

/// The failure of a result.
pub open spec fn failure_of<T>(r: Result<T, SupervisorError>) -> Option<SupervisorError> {
    match r {
        Ok(_) => None,
        Err(error) => Some(error),
    }
}

impl StepModel {
    /// The failure that the operation returned.
    pub open spec fn failure(self) -> Option<SupervisorError> {
        match self {
            StepModel::Submit { r, .. } => failure_of(r),
            StepModel::Move { r, .. } => failure_of(r),
            StepModel::Cancel { r, .. } => failure_of(r),
            StepModel::Expire { r, .. } => failure_of(r),
            StepModel::Request { r, .. } => failure_of(r),
            StepModel::Approve { r, .. } => failure_of(r),
            StepModel::Deny { r, .. } => failure_of(r),
            StepModel::Authorize { r, .. } => failure_of(r),
        }
    }
}

/// Whether `new` is what the operation makes of `old`.
pub open spec fn stepped(old: SupervisorModel, new: SupervisorModel, step: StepModel) -> bool {
    match step {
        StepModel::Submit { spec, id, r } => submit_outcome(old, new, spec, id, r),
        StepModel::Move { task, next, code, deadline, r } => (code is Some ==> next is Failed)
            && transition_outcome(old, new, task, next, code, deadline, r),
        StepModel::Cancel { task, r } => cancel_outcome(old, new, task, r),
        StepModel::Expire { now, r } => expire_outcome(old, new, now, r),
        StepModel::Request { now, approval, operation, task, request, ttl, r } => old.due(now)
            == Set::<u128>::empty() && request_outcome(
            old,
            new,
            now,
            approval,
            operation,
            task,
            request,
            ttl,
            r,
        ),
        StepModel::Approve { id, r } => approve_outcome(old, new, id, r),
        StepModel::Deny { id, r } => deny_outcome(old, new, id, r),
        StepModel::Authorize { now, task, operation, request, r } => authorize_outcome(
            old,
            new,
            now,
            task,
            operation,
            request,
            r,
        ),
    }
}

/// A sweep of approvals ends pending ones only.
proof fn lemma_sweep(old: SupervisorModel, new: SupervisorModel, step: StepModel) -> (done: Set<
    u128,
>)
    requires
        old.coherent(),
        stepped(old, new, step),
        step is Expire,
    ensures
        supervision::expired_effect(old, new, done),
        forall|id: u128| #[trigger] done.contains(id) ==> old.pending.contains_key(id),
{
    let now = step->Expire_now;
    let due = old.due(now);
    assert forall|id: u128| #[trigger] due.contains(id) implies old.pending.contains_key(id) by {
        assert(old.authority.pending.dom().contains(id));
    }
    match step->Expire_r {
        Ok(_) => due,
        Err(_) => {
            let list = idmap::ascending(due);
            let k = choose|k: int|
                0 <= k < due.len() && #[trigger] supervision::expired_effect(
                    old,
                    new,
                    list.take(k).to_set(),
                );
            assert(due.subset_of(old.pending.dom()));
            vstd::set_lib::lemma_len_subset(due, old.authority.pending.dom());
            idmap::lemma_ascending_lists(due);
            idmap::lemma_is_ascending(list, due);
            assert forall|id: u128| #[trigger] list.take(k).to_set().contains(id) implies
                old.pending.contains_key(id) by {
                let i = choose|i: int| 0 <= i < k && list.take(k)[i] == id;
                assert(list.to_set().contains(list[i]));
            }
            list.take(k).to_set()
        },
    }
}

/// A restart is audited, and done once: every task it takes over has ended without its input and
/// without an approval, its events replay to the state it is given, and a second restart has
/// nothing to record.
pub proof fn law_restart_is_audited_and_final(
    log: EventLog,
    new: SupervisorModel,
    max_tasks: nat,
    task: u128,
)
    requires
        recovered_supervisor(log, new, max_tasks),
        log.contains_key(task),
    ensures
        new.tasks[task].state.terminal(),
        new.tasks[task].spec is None,
        new.pending.dom() == Set::<u128>::empty(),
        new.approved.dom() == Set::<u128>::empty(),
        supervision::audited(new, task),
        recovery::recovered(event::events_of(new.log, task)) is Some,
        restart_kinds(recovery::recovered(event::events_of(new.log, task))->0) == Seq::<
            TaskEventKind,
        >::empty(),
{
    let state = recovery::recovered(log[task])->0;
    let kinds = restart_kinds(state);
    let at = recovery::Replay { state: Some(state), pending_failure: false };
    if state.terminal() {
        assert(recovery::replay_from(at, kinds) == Some(at));
    } else {
        assert(kinds.drop_first()[0] == kinds[1]);
        assert(kinds.drop_first().drop_first() =~= Seq::<TaskEventKind>::empty());
        reveal_with_fuel(recovery::replay_from, 3);
    }
    recovery::law_replay_of_a_batch(
        task,
        log[task],
        event::events_of(new.log, task),
        kinds,
        state,
        restart_state(state),
    );
}

/// Submitting is idempotent: after a submission registered a task, submitting the same input
/// again, under whatever identifier is drawn, returns that task and changes nothing; other
/// input under the same key is a conflict.
pub proof fn law_submission_is_idempotent(
    old: SupervisorModel,
    mid: SupervisorModel,
    new: SupervisorModel,
    spec: TaskModel,
    again: TaskModel,
    first: u128,
    second: u128,
    r: Result<SubmitResult, SupervisorError>,
    s: Result<SubmitResult, SupervisorError>,
)
    requires
        submit_outcome(old, mid, spec, first, r),
        r is Ok,
        again.idempotency_key == spec.idempotency_key,
        submit_outcome(mid, new, again, second, s),
    ensures
        new == mid,
        again == spec && old.index.contains_key(spec.idempotency_key) ==> s == r,
        again == spec && !old.index.contains_key(spec.idempotency_key) ==> s == Ok::<
            SubmitResult,
            SupervisorError,
        >(
            SubmitResult::Existing(
                (TaskSnapshot {
                    task_id: TaskId { value: first },
                    state: mid.tasks[first].state,
                }),
            ),
        ),
        again != spec ==> s == Err::<SubmitResult, SupervisorError>(
            SupervisorError::IdempotencyConflict,
        ),
{
}

/// An approval is used at most once: whatever the first use returned, past the lookup the
/// second finds nothing.
pub proof fn law_approved_operations_are_used_once(
    old: SupervisorModel,
    mid: SupervisorModel,
    new: SupervisorModel,
    now: u128,
    later: u128,
    task: u128,
    operation: u128,
    request: RequestModel,
    other: RequestModel,
    r: Result<ApprovalReceipt, SupervisorError>,
    s: Result<ApprovalReceipt, SupervisorError>,
)
    requires
        old.tasks.contains_key(task),
        old.tasks[task].state is Running,
        authorize_outcome(old, mid, now, task, operation, request, r),
        authorize_outcome(mid, new, later, task, operation, other, s),
    ensures
        s == Err::<ApprovalReceipt, SupervisorError>(
            SupervisorError::Approval(ApprovalError::NotFound),
        ),
        new == mid,
{
}

/// Whether the events of every task replay to the state that the supervisor holds, and the log
/// has events of no other task.
pub open spec fn replays(m: SupervisorModel) -> bool {
    forall|task: u128|
        supervision::audited(m, task) && (#[trigger] event::events_of(m.log, task).len() > 0
            ==> m.tasks.contains_key(task))
}

/// Whether a step denied an approval or had it run out although its task no longer waited,
/// because it was started over from outside.
pub open spec fn decided_late(old: SupervisorModel, new: SupervisorModel, step: StepModel) -> bool {
    (step is Deny || step is Expire) && exists|id: u128| #[trigger]
        old.pending.contains_key(id) && !new.pending.contains_key(id) && !(
        old.tasks[old.pending[id].task].state is WaitingApproval)
}

/// Every operation is audited: where the events of every task replay to its state, they still do
/// after any operation of the supervisor, but one that decided an approval late. A replay knows of
/// a denied or expired approval only while its task waits.
pub proof fn law_operations_are_audited(
    old: SupervisorModel,
    new: SupervisorModel,
    step: StepModel,
)
    requires
        old.coherent(),
        replays(old),
        stepped(old, new, step),
        !decided_late(old, new, step),
    ensures
        replays(new),
{
    assert forall|task: u128|
        supervision::audited(new, task) && (#[trigger] event::events_of(new.log, task).len() > 0
            ==> new.tasks.contains_key(task)) by {
        assert(event::events_of(old.log, task).len() > 0 ==> old.tasks.contains_key(task));
        assert(supervision::audited(old, task));
        lemma_step_audited(old, new, step, task);
    }
}

proof fn lemma_step_audited(
    old: SupervisorModel,
    new: SupervisorModel,
    step: StepModel,
    task: u128,
)
    requires
        old.coherent(),
        replays(old),
        supervision::audited(old, task),
        stepped(old, new, step),
        !decided_late(old, new, step),
        event::events_of(old.log, task).len() > 0 ==> old.tasks.contains_key(task),
    ensures
        supervision::audited(new, task),
        event::events_of(new.log, task).len() > 0 ==> new.tasks.contains_key(task),
{
    match step {
        StepModel::Submit { spec, id, r } => {
            if r is Ok && !old.index.contains_key(spec.idempotency_key) {
                assert(event::events_of(old.log, id).len() == 0);
                supervision::law_submissions_are_audited(old, new.log, id, spec, task);
            }
        },
        StepModel::Move { task: moved, next, code, deadline, r } => {
            if r is Ok {
                supervision::law_transitions_are_audited(
                    old,
                    new.log,
                    moved,
                    next,
                    code,
                    deadline,
                    task,
                );
            }
        },
        StepModel::Cancel { task: moved, r } => {
            if r is Ok && r->Ok_0 {
                supervision::law_transitions_are_audited(
                    old,
                    new.log,
                    moved,
                    TaskState::Cancelled,
                    None,
                    old.tasks[moved].deadline,
                    task,
                );
            }
        },
        StepModel::Expire { .. } => {
            let done = lemma_sweep(old, new, step);
            if supervision::touches(old.pending, done, task) {
                let id = choose|id: u128| #[trigger]
                    done.contains(id) && old.pending[id].task == task;
                assert(old.pending.contains_key(id));
                assert(old.pending_sound(id));
                assert(!new.pending.contains_key(id));
            }
            supervision::law_expiry_is_audited(old, new, done, task);
        },
        StepModel::Request { now, approval, operation, task: asked, request, ttl, r } => {
            if r is Ok {
                let decision = old.tasks[asked].spec->0.decide(request);
                if decision is ApprovalRequired {
                    lemma_purge_nothing(old.authority, now);
                    assert(!old.authority.pending.dom().contains(approval));
                    assert(!old.pending.dom().contains(approval));
                    supervision::law_approvals_are_audited(
                        old,
                        new.log,
                        approval,
                        PendingModel {
                            task: asked,
                            operation,
                            action: request.action(),
                            deadline: (now + ttl) as u128,
                        },
                        request,
                        task,
                    );
                } else {
                    supervision::law_decisions_are_audited(
                        old,
                        new.log,
                        asked,
                        supervision::decision_kinds(decision)[0],
                        operation,
                        task,
                    );
                }
            }
        },
        StepModel::Approve { id, r } => {
            if r is Ok {
                assert(old.pending_sound(id));
                supervision::law_approvals_are_audited(
                    old,
                    new.log,
                    id,
                    old.authority.pending[id],
                    old.pending[id].request,
                    task,
                );
            }
        },
        StepModel::Deny { id, r } => {
            if r is Ok {
                assert(old.pending_sound(id));
                assert(!new.pending.contains_key(id));
                supervision::law_approvals_are_audited(
                    old,
                    new.log,
                    id,
                    old.authority.pending[id],
                    old.pending[id].request,
                    task,
                );
            }
        },
        StepModel::Authorize { task: asked, operation, r, .. } => {
            if r is Ok {
                supervision::law_decisions_are_audited(
                    old,
                    new.log,
                    asked,
                    supervision::consumed_kinds(
                        old.approved[operation].grant.approval,
                        operation,
                    )[0],
                    operation,
                    task,
                );
            }
        },
    }
}

/// Whether states follow one another by operations of the supervisor, none of which decided an
/// approval late.
pub open spec fn history(states: Seq<SupervisorModel>, steps: Seq<StepModel>) -> bool {
    &&& states.len() == steps.len() + 1
    &&& forall|i: int|
        0 <= i < steps.len() ==> (#[trigger] states[i]).coherent() && stepped(
            states[i],
            states[i + 1],
            steps[i],
        ) && !decided_late(states[i], states[i + 1], steps[i])
}

/// Recovery finds what the supervisor knew: after any operations on a supervisor that started
/// empty, or from a state whose events replay, the events of every task replay to its state.
pub proof fn law_histories_replay(states: Seq<SupervisorModel>, steps: Seq<StepModel>, n: int)
    requires
        history(states, steps),
        replays(states[0]),
        0 <= n < states.len(),
    ensures
        replays(states[n]),
        forall|task: u128| #[trigger]
            states[n].tasks.contains_key(task) ==> recovery::recovered(
                event::events_of(states[n].log, task),
            ) == Some(states[n].tasks[task].state),
    decreases n,
{
    if n > 0 {
        law_histories_replay(states, steps, n - 1);
        assert(states[n - 1].coherent());
        law_operations_are_audited(states[n - 1], states[n], steps[n - 1]);
    }
    assert forall|task: u128| #[trigger] states[n].tasks.contains_key(task) implies
        recovery::recovered(event::events_of(states[n].log, task)) == Some(
        states[n].tasks[task].state,
    ) by {
        assert(supervision::audited(states[n], task));
    }
}

/// An empty supervisor over an empty log, and one that was recovered, are states whose events
/// replay.
pub proof fn law_supervisors_start_replayable(
    log: EventLog,
    new: SupervisorModel,
    max_tasks: nat,
)
    ensures
        replays(empty_supervisor(Map::<u128, Seq<TaskEvent>>::empty(), max_tasks)),
        recovered_supervisor(log, new, max_tasks) ==> replays(new),
{
    if recovered_supervisor(log, new, max_tasks) {
        assert forall|task: u128|
            supervision::audited(new, task) && (#[trigger] event::events_of(new.log, task).len() > 0
                ==> new.tasks.contains_key(task)) by {
            assert(new.tasks.dom().contains(task) == log.dom().contains(task));
            if log.contains_key(task) {
                law_restart_is_audited_and_final(log, new, max_tasks, task);
            }
        }
    }
}

/// A failed audit changes nothing: no operation that reports a store failure leaves a trace,
/// but that an approval in use is lost, and that a sweep of approvals keeps what it had done.
pub proof fn law_failed_audit_changes_nothing(
    old: SupervisorModel,
    new: SupervisorModel,
    step: StepModel,
    error: EventStoreError,
)
    requires
        stepped(old, new, step),
        step.failure() == Some(SupervisorError::EventStore(error)),
    ensures
        !(step is Authorize) && !(step is Expire) ==> new == old,
        step matches StepModel::Authorize { operation, .. } ==> new == old.consumed(
            old.log,
            operation,
        ),
        step matches StepModel::Expire { now, .. } ==> exists|k: int|
            0 <= k < old.due(now).len() && #[trigger] supervision::expired_effect(
                old,
                new,
                idmap::ascending(old.due(now)).take(k).to_set(),
            ),
{
}

/// A task that ended stays as it is, whatever is asked of the supervisor.
pub proof fn law_ended_tasks_stay(
    old: SupervisorModel,
    new: SupervisorModel,
    step: StepModel,
    ended: u128,
)
    requires
        old.coherent(),
        old.tasks.contains_key(ended),
        old.tasks[ended].state.terminal(),
        stepped(old, new, step),
    ensures
        new.tasks.contains_key(ended),
        new.tasks[ended] == old.tasks[ended],
{
    match step {
        StepModel::Approve { id, .. } => {
            if old.pending.contains_key(id) {
                assert(old.pending_sound(id));
            }
        },
        StepModel::Deny { id, .. } => {
            if old.pending.contains_key(id) {
                assert(old.pending_sound(id));
            }
        },
        StepModel::Expire { now, .. } => {
            let done = lemma_sweep(old, new, step);
            supervision::law_expiry_touches_live_tasks_only(old, new, done, ended);
        },
        _ => {},
    }
}

/// An approval of a task that ended cannot be used.
pub proof fn law_ended_tasks_use_no_approval(
    old: SupervisorModel,
    new: SupervisorModel,
    now: u128,
    task: u128,
    operation: u128,
    request: RequestModel,
    r: Result<ApprovalReceipt, SupervisorError>,
)
    requires
        old.tasks.contains_key(task),
        old.tasks[task].state.terminal(),
        authorize_outcome(old, new, now, task, operation, request, r),
    ensures
        r == Err::<ApprovalReceipt, SupervisorError>(SupervisorError::TaskNotRunning),
        new == old,
{
}

/// Cancelling is idempotent: after a cancellation that was answered, cancelling the task again
/// is answered with `false` and changes nothing.
pub proof fn law_cancellation_is_idempotent(
    old: SupervisorModel,
    mid: SupervisorModel,
    new: SupervisorModel,
    task: u128,
    r: Result<bool, SupervisorError>,
    s: Result<bool, SupervisorError>,
)
    requires
        cancel_outcome(old, mid, task, r),
        r is Ok,
        cancel_outcome(mid, new, task, s),
    ensures
        s == Ok::<bool, SupervisorError>(false),
        new == mid,
{
}

/// The number of tasks stays within its limit, and no operation forgets a task.
pub proof fn law_tasks_stay_bounded(old: SupervisorModel, new: SupervisorModel, step: StepModel)
    requires
        old.coherent(),
        old.tasks.dom().len() <= old.max_tasks,
        stepped(old, new, step),
    ensures
        new.tasks.dom().len() <= new.max_tasks,
        old.tasks.dom().subset_of(new.tasks.dom()),
{
    match step {
        StepModel::Submit { spec, id, r } => {
            if new != old {
                assert(new.tasks.dom() =~= old.tasks.dom().insert(id));
            }
        },
        StepModel::Move { task, .. } => {
            if new != old {
                assert(new.tasks.dom() =~= old.tasks.dom());
            }
        },
        StepModel::Request { .. } => {
            if new != old {
                assert(new.tasks.dom() =~= old.tasks.dom());
            }
        },
        StepModel::Approve { id, .. } => {
            if old.pending.contains_key(id) {
                assert(old.pending_sound(id));
                assert(new.tasks.dom() =~= old.tasks.dom());
            }
        },
        StepModel::Deny { id, .. } => {
            if old.pending.contains_key(id) {
                assert(old.pending_sound(id));
                assert(new.tasks.dom() =~= old.tasks.dom());
            }
        },
        StepModel::Cancel { .. } => {
            if new != old {
                assert(new.tasks.dom() =~= old.tasks.dom());
            }
        },
        _ => {},
    }
}

/// Whether the wall-time budget of a task is used up at `now`.
pub open spec fn wall_time_verdict(m: SupervisorModel, task: u128, now: u128) -> Result<
    bool,
    SupervisorError,
> {
    if !m.tasks.contains_key(task) {
        Err(SupervisorError::TaskNotFound)
    } else {
        Ok(
            !m.tasks[task].state.terminal() && m.tasks[task].deadline is Some && now
                >= m.tasks[task].deadline->0,
        )
    }
}

/// Why an operation of a task cannot be bound to a budget, if it cannot.
pub open spec fn unbindable(m: SupervisorModel, task: u128) -> Option<SupervisorError> {
    if !m.tasks.contains_key(task) {
        Some(SupervisorError::TaskNotFound)
    } else if !(m.tasks[task].state is Running || m.tasks[task].state is WaitingApproval) {
        Some(SupervisorError::TaskNotRunning)
    } else {
        None
    }
}

/// What a cancellation does and returns.
pub open spec fn cancel_outcome(
    old: SupervisorModel,
    new: SupervisorModel,
    task: u128,
    r: Result<bool, SupervisorError>,
) -> bool {
    if old.tasks.contains_key(task) && old.tasks[task].state.terminal() {
        new == old && r == Ok::<bool, SupervisorError>(false)
    } else {
        &&& r is Ok ==> r->Ok_0
        &&& transition_outcome(
            old,
            new,
            task,
            TaskState::Cancelled,
            None,
            old.tasks[task].deadline,
            (match r {
                Ok(_) => Ok::<(), SupervisorError>(()),
                Err(error) => Err(error),
            }),
        )
    }
}

spec fn selects(ids: Seq<u128>, wanted: Set<u128>, n: int, out: Seq<u128>) -> bool {
    &&& forall|k: int| 0 <= k < out.len() ==> wanted.contains(#[trigger] out[k])
    &&& forall|k: int| #![trigger out[k]] 0 <= k < out.len() && n < ids.len() ==> out[k] < ids[n]
    &&& forall|a: int, b: int| 0 <= a < b < out.len() ==> out[a] < out[b]
    &&& forall|k: int| 0 <= k < n && wanted.contains(#[trigger] ids[k]) ==> out.contains(ids[k])
}

proof fn lemma_selects_step(
    ids: Seq<u128>,
    wanted: Set<u128>,
    n: int,
    before: Seq<u128>,
    after: Seq<u128>,
)
    requires
        0 <= n < ids.len(),
        forall|i: int, j: int| 0 <= i < j < ids.len() ==> ids[i] < ids[j],
        selects(ids, wanted, n, before),
        after == if wanted.contains(ids[n]) {
            before.push(ids[n])
        } else {
            before
        },
    ensures
        selects(ids, wanted, n + 1, after),
{
    assert forall|k: int|
        #![trigger after[k]]
        0 <= k < after.len() && n + 1 < ids.len() implies after[k] < ids[n + 1] by {
        assert(ids[n] < ids[n + 1]);
        if k < before.len() {
            assert(after[k] == before[k]);
        }
    }
    assert forall|k: int| 0 <= k < n + 1 && wanted.contains(#[trigger] ids[k]) implies after.contains(
        ids[k],
    ) by {
        if k < n {
            assert(before.contains(ids[k]));
            let m = choose|m: int| 0 <= m < before.len() && before[m] == ids[k];
            assert(after[m] == ids[k]);
        } else {
            assert(after[before.len() as int] == ids[k]);
        }
    }
}

proof fn lemma_selects_all(ids: Seq<u128>, all: Set<u128>, wanted: Set<u128>, out: Seq<u128>)
    requires
        idmap::lists_ascending(ids, all),
        wanted.subset_of(all),
        selects(ids, wanted, ids.len() as int, out),
    ensures
        idmap::lists_ascending(out, wanted),
{
    assert forall|k: u128| wanted.contains(k) implies out.to_set().contains(k) by {
        assert(all.contains(k));
        assert(ids.to_set().contains(k));
        let m = choose|m: int| 0 <= m < ids.len() && ids[m] == k;
        assert(wanted.contains(ids[m]));
    }
    assert(out.to_set() =~= wanted);
}

proof fn lemma_take_insert(list: Seq<u128>, i: int)
    requires
        0 <= i < list.len(),
    ensures
        list.take(i + 1).to_set() == list.take(i).to_set().insert(list[i]),
{
    let next = list.take(i + 1);
    let done = list.take(i).to_set();
    assert(next =~= list.take(i).push(list[i]));
    assert forall|k: u128| done.insert(list[i]).contains(k) implies next.to_set().contains(k) by {
        if k == list[i] {
            assert(next[i] == k);
        } else {
            let m = choose|m: int| 0 <= m < i && list.take(i)[m] == k;
            assert(next[m] == k);
        }
    }
    assert(next.to_set() =~= done.insert(list[i]));
}

/// An expiry that succeeded leaves nothing due.
proof fn lemma_nothing_due(old: SupervisorModel, mid: SupervisorModel, now: u128)
    requires
        supervision::expired_effect(old, mid, old.due(now)),
    ensures
        mid.due(now) == Set::<u128>::empty(),
{
    assert(mid.due(now) =~= Set::<u128>::empty());
}

/// A sweep leaves what was promised for a task that it does not fail.
proof fn lemma_untouched_promises<S: EventStore>(
    old: TaskSupervisor<S>,
    mid: TaskSupervisor<S>,
    now: u128,
    task: u128,
)
    requires
        old@.coherent(),
        supervision::expired_effect(old@, mid@, old@.due(now)),
        event::carries(old.store(), mid.store()),
        old@.tasks.contains_key(task),
        !(mid@.tasks[task].state is Failed),
    ensures
        forall|count: nat| #[trigger] old.admits(task, count) ==> mid.admits(task, count),
{
    assert(!supervision::touches(old@.pending, old@.due(now), task));
    assert(event::events_of(mid@.log, task) == event::events_of(old@.log, task));
    assert(event::grown(old.store().log(), mid.store().log(), task) == 0);
    assert forall|count: nat| #[trigger] old.admits(task, count) implies mid.admits(task, count) by {
        assert(old.store().admits(task, count));
        assert(mid.store().admits(task, count));
    }
}

/// An approval that is pending after a sweep was not due, and its task is as it was.
proof fn lemma_still_pending(old: SupervisorModel, mid: SupervisorModel, now: u128, id: u128)
    requires
        old.coherent(),
        supervision::expired_effect(old, mid, old.due(now)),
        mid.pending.contains_key(id),
    ensures
        old.pending.contains_key(id),
        mid.pending[id] == old.pending[id],
        old.tasks.contains_key(old.pending[id].task),
        !(mid.tasks[old.pending[id].task].state is Failed),
{
    let done = old.due(now);
    let task = old.pending[id].task;
    assert(old.pending_sound(id));
    assert(!supervision::touches(old.pending, done, task)) by {
        if supervision::touches(old.pending, done, task) {
            let a = choose|a: u128| #[trigger] done.contains(a) && old.pending[a].task == task;
            assert(old.authority.pending.dom().contains(a));
            assert(old.pending.dom().contains(a));
            assert(old.pending[a].task == old.pending[id].task);
            assert(a == id);
        }
    }
}

/// Purging purges nothing where nothing is due.
proof fn lemma_purge_nothing(authority: AuthorityModel, now: u128)
    requires
        approval::expired_ids(authority.pending, now) == Set::<u128>::empty(),
    ensures
        authority.purged(now) == authority,
{
    assert(authority.purged(now).pending =~= authority.pending);
}

/// The events of an expiry do not depend on the expiries before it.
proof fn lemma_same_expiry(start: SupervisorModel, mid: SupervisorModel, done: Set<u128>, id: u128)
    requires
        start.coherent(),
        supervision::expired_effect(start, mid, done),
        forall|a: u128| #[trigger] done.contains(a) ==> start.pending.contains_key(a),
        start.pending.contains_key(id),
        !done.contains(id),
    ensures
        mid.expiry_kinds(id) == start.expiry_kinds(id),
{
    let task = start.pending[id].task;
    assert(start.pending_sound(id));
    assert(mid.pending[id] == start.pending[id]);
    assert(!supervision::touches(start.pending, done, task)) by {
        if supervision::touches(start.pending, done, task) {
            let a = choose|a: u128| #[trigger] done.contains(a) && start.pending[a].task == task;
            assert(start.pending.contains_key(a));
            assert(start.pending[a].task == start.pending[id].task);
        }
    }
    assert(start.tasks.contains_key(task));
}

} // verus!
