//! Pending human approvals and the one-time grants that they become.

use vstd::prelude::*;

use crate::idmap;
use crate::idmap::IdMap;
use crate::ids::{ApprovalId, OperationId, TaskId, fresh_identifier};
use crate::text;
use crate::text::{is_valid_identifier, text_eq};
use crate::time::{Clock, Duration, NANOS_PER_MILLI, NANOS_PER_SECOND};

verus! {

pub const DEFAULT_MAX_PENDING_APPROVALS: usize = 1_024;

pub const DEFAULT_MAX_TTL_SECONDS: u64 = 900;

pub const MAX_MAX_PENDING_APPROVALS: usize = 65_536;

pub const MAX_MAX_TTL_SECONDS: u64 = 86_400;

pub const MAX_ACTION_BYTES: usize = 64;

/// Non-sensitive data a user interface may present for one approval request.
#[derive(Clone, Debug, PartialEq, Eq)]
pub struct ApprovalRequest {
    pub approval_id: ApprovalId,
    pub task_id: TaskId,
    pub operation_id: OperationId,
    pub action: String,
    pub expires_after_ms: u64,
}

/// Proof that one linear grant was consumed successfully.
#[derive(Clone, Copy, Debug, PartialEq, Eq, Structural)]
pub struct ApprovalReceipt {
    pub approval_id: ApprovalId,
}

/// Approval lifecycle failure without resource or token values.
#[derive(Clone, Copy, Debug, PartialEq, Eq, Structural)]
pub enum ApprovalError {
    InvalidConfig,
    InvalidRequest,
    DuplicateOperation,
    CapacityExceeded,
    NotFound,
    Expired,
    ScopeMismatch,
}

impl ApprovalError {
    /// The text of the failure.
    pub open spec fn text(self) -> Seq<char> {
        match self {
            ApprovalError::InvalidConfig => "invalid approval authority configuration"@,
            ApprovalError::InvalidRequest => "approval request is invalid"@,
            ApprovalError::DuplicateOperation => "operation already has a pending approval"@,
            ApprovalError::CapacityExceeded => "pending approval capacity exceeded"@,
            ApprovalError::NotFound => "approval request not found"@,
            ApprovalError::Expired => "approval expired"@,
            ApprovalError::ScopeMismatch => "approval scope does not match"@,
        }
    }

    /// The text of the failure.
    #[must_use]
    pub fn display(&self) -> (r: &'static str)
        ensures
            r@ == self.text(),
    {
        match self {
            ApprovalError::InvalidConfig => "invalid approval authority configuration",
            ApprovalError::InvalidRequest => "approval request is invalid",
            ApprovalError::DuplicateOperation => "operation already has a pending approval",
            ApprovalError::CapacityExceeded => "pending approval capacity exceeded",
            ApprovalError::NotFound => "approval request not found",
            ApprovalError::Expired => "approval expired",
            ApprovalError::ScopeMismatch => "approval scope does not match",
        }
    }
}

/// What one pending approval is bound to.
pub struct PendingModel {
    pub task: u128,
    pub operation: u128,
    pub action: Seq<char>,
    pub deadline: u128,
}

/// What one grant is bound to.
pub struct GrantModel {
    pub approval: u128,
    pub task: u128,
    pub operation: u128,
    pub action: Seq<char>,
    pub deadline: u128,
}

/// A one-time grant. It intentionally cannot be cloned or debugged.
#[must_use]
pub struct ApprovalGrant {
    approval_id: ApprovalId,
    task_id: TaskId,
    operation_id: OperationId,
    action: String,
    deadline: u128,
    clock: Clock,
}

impl View for ApprovalGrant {
    type V = GrantModel;

    closed spec fn view(&self) -> GrantModel {
        GrantModel {
            approval: self.approval_id.value,
            task: self.task_id.value,
            operation: self.operation_id.value,
            action: self.action@,
            deadline: self.deadline,
        }
    }
}

impl GrantModel {
    /// What consuming the grant at `now` for a given scope gives.
    pub open spec fn authorized(
        self,
        now: u128,
        task: u128,
        operation: u128,
        action: Seq<char>,
    ) -> Result<ApprovalReceipt, ApprovalError> {
        if now >= self.deadline {
            Err(ApprovalError::Expired)
        } else if self.task != task || self.operation != operation || self.action != action {
            Err(ApprovalError::ScopeMismatch)
        } else {
            Ok(ApprovalReceipt { approval_id: ApprovalId { value: self.approval } })
        }
    }

    /// The pending approval that the grant was made from.
    pub open spec fn pending(self) -> PendingModel {
        PendingModel {
            task: self.task,
            operation: self.operation,
            action: self.action,
            deadline: self.deadline,
        }
    }
}

impl ApprovalGrant {
    /// The approval that was granted.
    #[must_use]
    pub fn approval_id(&self) -> (r: ApprovalId)
        ensures
            r.value == self@.approval,
    {
        self.approval_id
    }

    /// Consumes the grant while verifying its exact task, operation, action, and deadline.
    pub fn authorize(self, task_id: TaskId, operation_id: OperationId, action: &str) -> (r: Result<
        ApprovalReceipt,
        ApprovalError,
    >)
        ensures
            exists|now: u128|
                r == #[trigger] self@.authorized(now, task_id.value, operation_id.value, action@),
    {
        let now: u128 = self.clock.now();
        self.authorize_at(now, task_id, operation_id, action)
    }

    /// Consumes the grant at a given time.
    pub fn authorize_at(
        self,
        now: u128,
        task_id: TaskId,
        operation_id: OperationId,
        action: &str,
    ) -> (r: Result<ApprovalReceipt, ApprovalError>)
        ensures
            r == self@.authorized(now, task_id.value, operation_id.value, action@),
    {
        if now >= self.deadline {
            return Err(ApprovalError::Expired);
        }
        if self.task_id != task_id || self.operation_id != operation_id || !text_eq(
            self.action.as_str(),
            action,
        ) {
            return Err(ApprovalError::ScopeMismatch);
        }
        Ok(ApprovalReceipt { approval_id: self.approval_id })
    }

    /// Puts the grant back as the pending approval that it was.
    pub fn restore(self, authority: &mut ApprovalAuthority)
        ensures
            final(authority)@ == (AuthorityModel {
                pending: old(authority)@.pending.insert(self@.approval, self@.pending()),
                ..old(authority)@
            }),
            final(authority).same_clock(*old(authority)),
    {
        authority.pending.insert(
            self.approval_id.value,
            PendingApproval {
                task_id: self.task_id,
                operation_id: self.operation_id,
                action: self.action,
                deadline: self.deadline,
            },
        );
    }
}

struct PendingApproval {
    task_id: TaskId,
    operation_id: OperationId,
    action: String,
    deadline: u128,
}

impl View for PendingApproval {
    type V = PendingModel;

    closed spec fn view(&self) -> PendingModel {
        PendingModel {
            task: self.task_id.value,
            operation: self.operation_id.value,
            action: self.action@,
            deadline: self.deadline,
        }
    }
}

/// What an authority knows.
#[verifier::ext_equal]
pub struct AuthorityModel {
    pub pending: Map<u128, PendingModel>,
    pub max_pending: nat,
    pub max_ttl: nat,
}

/// The approvals whose deadline has come.
pub open spec fn expired_ids(pending: Map<u128, PendingModel>, now: u128) -> Set<u128> {
    Set::new(|id: u128| pending.contains_key(id) && now >= pending[id].deadline)
}

/// Whether some approval is pending for exactly this operation of the task.
pub open spec fn has_operation(
    pending: Map<u128, PendingModel>,
    task: u128,
    operation: u128,
) -> bool {
    exists|id: u128| #[trigger]
        pending.contains_key(id) && pending[id].task == task && pending[id].operation == operation
}

impl AuthorityModel {
    /// Without the approvals whose deadline has come.
    pub open spec fn purged(self, now: u128) -> AuthorityModel {
        AuthorityModel {
            pending: self.pending.remove_keys(expired_ids(self.pending, now)),
            ..self
        }
    }

    /// Why a request made at `now` under a drawn identifier is refused, if it is.
    pub open spec fn refusal(
        self,
        now: u128,
        id: u128,
        task: u128,
        operation: u128,
        action: Seq<char>,
        ttl: nat,
    ) -> Option<ApprovalError> {
        let live = self.purged(now);
        if !text::is_identifier(action, MAX_ACTION_BYTES as nat) || ttl < NANOS_PER_MILLI || ttl
            > self.max_ttl {
            Some(ApprovalError::InvalidRequest)
        } else if has_operation(live.pending, task, operation) || live.pending.contains_key(id) {
            Some(ApprovalError::DuplicateOperation)
        } else if live.pending.dom().len() >= self.max_pending {
            Some(ApprovalError::CapacityExceeded)
        } else if now + ttl > u128::MAX {
            Some(ApprovalError::InvalidRequest)
        } else {
            None
        }
    }

    /// After a request that was not refused.
    pub open spec fn requested(
        self,
        now: u128,
        id: u128,
        task: u128,
        operation: u128,
        action: Seq<char>,
        ttl: nat,
    ) -> AuthorityModel {
        let live = self.purged(now);
        AuthorityModel {
            pending: live.pending.insert(
                id,
                PendingModel { task, operation, action, deadline: (now + ttl) as u128 },
            ),
            ..self
        }
    }

    /// Without one approval.
    pub open spec fn without(self, id: u128) -> AuthorityModel {
        AuthorityModel { pending: self.pending.remove(id), ..self }
    }

    /// The limits that every authority is made with.
    pub open spec fn bounded(self) -> bool {
        &&& 1 <= self.max_pending <= MAX_MAX_PENDING_APPROVALS
        &&& 1 <= self.max_ttl <= MAX_MAX_TTL_SECONDS * NANOS_PER_SECOND
        &&& self.pending.dom().finite()
        &&& self.pending.dom().len() <= self.max_pending
    }
}

/// The approval request that a successful request returns.
pub open spec fn request_matches(
    r: ApprovalRequest,
    id: u128,
    task: u128,
    operation: u128,
    action: Seq<char>,
    ttl: nat,
) -> bool {
    &&& r.approval_id.value == id
    &&& r.task_id.value == task
    &&& r.operation_id.value == operation
    &&& r.action@ == action
    &&& r.expires_after_ms == ttl / (NANOS_PER_MILLI as nat)
}

/// Bounded in-memory authority for pending approval requests and linear grants.
pub struct ApprovalAuthority {
    pending: IdMap<PendingApproval>,
    max_pending: usize,
    max_ttl: Duration,
    clock: Clock,
}

impl View for ApprovalAuthority {
    type V = AuthorityModel;

    closed spec fn view(&self) -> AuthorityModel {
        AuthorityModel {
            pending: self.pending@,
            max_pending: self.max_pending as nat,
            max_ttl: self.max_ttl.nanos as nat,
        }
    }
}

/// Whether an authority can be made with these limits.
pub open spec fn usable_limits(max_pending: usize, max_ttl: Duration) -> bool {
    1 <= max_pending <= MAX_MAX_PENDING_APPROVALS && 1 <= max_ttl.nanos <= MAX_MAX_TTL_SECONDS
        * NANOS_PER_SECOND
}

impl ApprovalAuthority {
    /// Whether two authorities read one clock.
    pub closed spec fn same_clock(self, other: ApprovalAuthority) -> bool {
        self.clock == other.clock
    }

    /// Creates an authority with bounds on the number and the life of pending approvals.
    pub fn new(max_pending: usize, max_ttl: Duration) -> (r: Result<
        ApprovalAuthority,
        ApprovalError,
    >)
        ensures
            r is Ok <==> usable_limits(max_pending, max_ttl),
            r is Ok ==> (r->Ok_0)@ == (AuthorityModel {
                pending: Map::<u128, PendingModel>::empty(),
                max_pending: max_pending as nat,
                max_ttl: max_ttl.nanos as nat,
            }),
            r is Err ==> r->Err_0 == ApprovalError::InvalidConfig,
    {
        let limit = Duration::from_secs(MAX_MAX_TTL_SECONDS);
        if max_pending == 0 || max_pending > MAX_MAX_PENDING_APPROVALS || max_ttl.is_zero()
            || max_ttl.nanos > limit.nanos {
            return Err(ApprovalError::InvalidConfig);
        }
        Ok(
            ApprovalAuthority {
                pending: IdMap::new(),
                max_pending,
                max_ttl,
                clock: Clock::start(),
            },
        )
    }

    /// The clock that deadlines are held against.
    pub fn clock(&self) -> Clock {
        self.clock
    }

    /// Registers one exact operation for later human approval.
    ///
    /// The time is read from the clock and the identifier is drawn; whatever they are, the
    /// outcome is that of [`ApprovalAuthority::request_at`].
    pub fn request(
        &mut self,
        task_id: TaskId,
        operation_id: OperationId,
        action: &str,
        ttl: Duration,
    ) -> (r: Result<ApprovalRequest, ApprovalError>)
        requires
            old(self)@.bounded(),
        ensures
            final(self)@.bounded(),
            exists|now: u128, id: u128| #[trigger]
                request_outcome(
                    old(self)@,
                    final(self)@,
                    now,
                    id,
                    task_id.value,
                    operation_id.value,
                    action@,
                    ttl.nanos as nat,
                    r,
                ),
    {
        let now: u128 = self.clock.now();
        let id: u128 = fresh_identifier();
        self.request_at(now, id, task_id, operation_id, action, ttl)
    }

    /// Registers one exact operation at a given time under a given identifier.
    pub fn request_at(
        &mut self,
        now: u128,
        id: u128,
        task_id: TaskId,
        operation_id: OperationId,
        action: &str,
        ttl: Duration,
    ) -> (r: Result<ApprovalRequest, ApprovalError>)
        requires
            old(self)@.bounded(),
        ensures
            final(self)@.bounded(),
            final(self).same_clock(*old(self)),
            request_outcome(
                old(self)@,
                final(self)@,
                now,
                id,
                task_id.value,
                operation_id.value,
                action@,
                ttl.nanos as nat,
                r,
            ),
    {
        let ghost start = self@;
        self.purge_expired_at(now);
        let ghost live = self@;
        let shortest = Duration::from_millis(1);
        if !is_valid_action(action) || ttl.nanos < shortest.nanos || ttl.nanos
            > self.max_ttl.nanos {
            return Err(ApprovalError::InvalidRequest);
        }
        if self.has_pending_operation(task_id, operation_id) || self.pending.contains(id) {
            return Err(ApprovalError::DuplicateOperation);
        }
        if self.pending.len() >= self.max_pending {
            return Err(ApprovalError::CapacityExceeded);
        }
        let deadline: u128 = match now.checked_add(ttl.nanos) {
            Some(deadline) => deadline,
            None => {
                return Err(ApprovalError::InvalidRequest);
            },
        };
        let expires_after_ms: u64 = duration_ms(ttl);
        let owned = action.to_owned();
        self.pending.insert(
            id,
            PendingApproval { task_id, operation_id, action: owned.clone(), deadline },
        );
        proof {
            assert(self@ =~= start.requested(
                now,
                id,
                task_id.value,
                operation_id.value,
                action@,
                ttl.nanos as nat,
            ));
            assert(self@.pending.dom() =~= live.pending.dom().insert(id));
        }
        Ok(
            ApprovalRequest {
                approval_id: ApprovalId { value: id },
                task_id,
                operation_id,
                action: owned,
                expires_after_ms,
            },
        )
    }

    /// Approves and removes one pending request, returning a linear grant.
    pub fn approve(&mut self, approval_id: ApprovalId) -> (r: Result<ApprovalGrant, ApprovalError>)
        requires
            old(self)@.bounded(),
        ensures
            final(self)@.bounded(),
            exists|now: u128| #[trigger]
                approve_outcome(old(self)@, final(self)@, now, approval_id.value, r),
    {
        let now: u128 = self.clock.now();
        self.approve_at(now, approval_id)
    }

    /// Approves one pending request at a given time.
    pub fn approve_at(&mut self, now: u128, approval_id: ApprovalId) -> (r: Result<
        ApprovalGrant,
        ApprovalError,
    >)
        requires
            old(self)@.bounded(),
        ensures
            final(self)@.bounded(),
            final(self).same_clock(*old(self)),
            approve_outcome(old(self)@, final(self)@, now, approval_id.value, r),
    {
        let clock = self.clock;
        match self.remove(approval_id) {
            None => Err(ApprovalError::NotFound),
            Some(pending) => {
                if now >= pending.deadline {
                    return Err(ApprovalError::Expired);
                }
                Ok(
                    ApprovalGrant {
                        approval_id,
                        task_id: pending.task_id,
                        operation_id: pending.operation_id,
                        action: pending.action,
                        deadline: pending.deadline,
                        clock,
                    },
                )
            },
        }
    }

    /// Denies and removes one pending request.
    pub fn deny(&mut self, approval_id: ApprovalId) -> (r: Result<(), ApprovalError>)
        requires
            old(self)@.bounded(),
        ensures
            final(self)@.bounded(),
            exists|now: u128| #[trigger]
                deny_outcome(old(self)@, final(self)@, now, approval_id.value, r),
    {
        let now: u128 = self.clock.now();
        self.deny_at(now, approval_id)
    }

    /// Denies one pending request at a given time.
    pub fn deny_at(&mut self, now: u128, approval_id: ApprovalId) -> (r: Result<(), ApprovalError>)
        requires
            old(self)@.bounded(),
        ensures
            final(self)@.bounded(),
            final(self).same_clock(*old(self)),
            deny_outcome(old(self)@, final(self)@, now, approval_id.value, r),
    {
        match self.remove(approval_id) {
            None => Err(ApprovalError::NotFound),
            Some(pending) => {
                if now >= pending.deadline {
                    return Err(ApprovalError::Expired);
                }
                Ok(())
            },
        }
    }

    /// How many approvals are pending.
    pub fn pending_count(&mut self) -> (r: usize)
        requires
            old(self)@.bounded(),
        ensures
            final(self)@.bounded(),
            exists|now: u128|
                final(self)@ == #[trigger] old(self)@.purged(now) && r == old(self)@.purged(
                    now,
                ).pending.dom().len(),
    {
        let now: u128 = self.clock.now();
        self.pending_count_at(now)
    }

    /// How many approvals are pending at a given time.
    pub fn pending_count_at(&mut self, now: u128) -> (r: usize)
        requires
            old(self)@.bounded(),
        ensures
            final(self)@.bounded(),
            final(self).same_clock(*old(self)),
            final(self)@ == old(self)@.purged(now),
            r == old(self)@.purged(now).pending.dom().len(),
    {
        self.purge_expired_at(now);
        self.pending.len()
    }

    /// The approvals whose deadline has come, in ascending order. They stay pending.
    pub fn expired_ids_at(&self, now: u128) -> (r: Vec<u128>)
        ensures
            idmap::lists_ascending(r@, expired_ids(self@.pending, now)),
    {
        let ids = self.pending.ids();
        let ghost due = expired_ids(self@.pending, now);
        let mut out: Vec<u128> = Vec::new();
        let mut i: usize = 0;
        while i < ids.len()
            invariant
                i <= ids@.len(),
                idmap::lists_ascending(ids@, self@.pending.dom()),
                due == expired_ids(self@.pending, now),
                forall|k: int| 0 <= k < out@.len() ==> due.contains(#[trigger] out@[k]),
                forall|k: int|
                    #![trigger out@[k]]
                    0 <= k < out@.len() && i < ids@.len() ==> out@[k] < ids@[i as int],
                forall|a: int, b: int| 0 <= a < b < out@.len() ==> out@[a] < out@[b],
                forall|k: int| 0 <= k < i && due.contains(#[trigger] ids@[k]) ==> out@.contains(
                    ids@[k],
                ),
            decreases ids@.len() - i,
        {
            let ghost before = out@;
            assert(ids@.to_set().contains(ids@[i as int]));
            match self.pending.get(ids[i]) {
                Some(pending) => {
                    if now >= pending.deadline {
                        out.push(ids[i]);
                        assert(out@[before.len() as int] == ids@[i as int]);
                    }
                },
                None => {},
            }
            assert forall|k: int| 0 <= k < i + 1 && due.contains(#[trigger] ids@[k]) implies out@
                .contains(ids@[k]) by {
                if k < i {
                    assert(before.contains(ids@[k]));
                    let m = choose|m: int| 0 <= m < before.len() && before[m] == ids@[k];
                    assert(out@[m] == ids@[k]);
                }
            }
            i = i + 1;
            assert forall|k: int|
                #![trigger out@[k]]
                0 <= k < out@.len() && i < ids@.len() implies out@[k] < ids@[i as int] by {
                assert(ids@[i - 1] < ids@[i as int]);
                if k < before.len() {
                    assert(out@[k] == before[k]);
                }
            }
        }
        proof {
            assert forall|k: u128| due.contains(k) implies out@.to_set().contains(k) by {
                assert(self@.pending.dom().contains(k));
                assert(ids@.to_set().contains(k));
                let m = choose|m: int| 0 <= m < ids@.len() && ids@[m] == k;
                assert(due.contains(ids@[m]));
            }
            assert(out@.to_set() =~= due);
        }
        out
    }

    /// Whether an approval is pending.
    #[must_use]
    pub fn contains(&self, approval_id: ApprovalId) -> (r: bool)
        ensures
            r == self@.pending.contains_key(approval_id.value),
    {
        self.pending.contains(approval_id.value)
    }

    /// Removes a pending approval without a grant. Tells whether there was one.
    pub fn revoke(&mut self, approval_id: ApprovalId) -> (r: bool)
        ensures
            r == old(self)@.pending.contains_key(approval_id.value),
            final(self)@ == old(self)@.without(approval_id.value),
            final(self).same_clock(*old(self)),
    {
        self.remove(approval_id).is_some()
    }

    fn purge_expired_at(&mut self, now: u128)
        requires
            old(self)@.bounded(),
        ensures
            final(self)@ == old(self)@.purged(now),
            final(self)@.bounded(),
            final(self).same_clock(*old(self)),
    {
        let ghost start = self@.pending;
        let ghost due = expired_ids(start, now);
        let expired = self.expired_ids_at(now);
        let mut i: usize = 0;
        while i < expired.len()
            invariant
                i <= expired@.len(),
                idmap::lists_ascending(expired@, due),
                self@.max_pending == old(self)@.max_pending,
                self@.max_ttl == old(self)@.max_ttl,
                self.same_clock(*old(self)),
                self@.pending == start.remove_keys(expired@.take(i as int).to_set()),
            decreases expired@.len() - i,
        {
            let ghost done = expired@.take(i as int).to_set();
            let _ = self.pending.remove(expired[i]);
            proof {
                let next = expired@.take(i + 1);
                assert(next =~= expired@.take(i as int).push(expired@[i as int]));
                assert(next.to_set() =~= done.insert(expired@[i as int])) by {
                    assert forall|k: u128| done.insert(expired@[i as int]).contains(k) implies next
                        .to_set().contains(k) by {
                        if k == expired@[i as int] {
                            assert(next[i as int] == k);
                        } else {
                            let m = choose|m: int|
                                0 <= m < i && expired@.take(i as int)[m] == k;
                            assert(next[m] == k);
                        }
                    }
                }
                assert(self@.pending =~= start.remove_keys(next.to_set()));
            }
            i = i + 1;
        }
        proof {
            assert(expired@.take(i as int) =~= expired@);
            assert(self@ =~= old(self)@.purged(now));
            assert(self@.pending.dom() =~= start.dom().difference(due));
            vstd::set_lib::lemma_len_difference(start.dom(), due);
        }
    }

    fn has_pending_operation(&self, task_id: TaskId, operation_id: OperationId) -> (r: bool)
        ensures
            r == has_operation(self@.pending, task_id.value, operation_id.value),
    {
        let ids = self.pending.ids();
        let mut i: usize = 0;
        while i < ids.len()
            invariant
                i <= ids@.len(),
                idmap::lists_ascending(ids@, self@.pending.dom()),
                forall|k: int|
                    0 <= k < i ==> !(self@.pending[#[trigger] ids@[k]].task == task_id.value
                        && self@.pending[ids@[k]].operation == operation_id.value),
            decreases ids@.len() - i,
        {
            assert(ids@.to_set().contains(ids@[i as int]));
            match self.pending.get(ids[i]) {
                Some(pending) => {
                    if pending.task_id == task_id && pending.operation_id == operation_id {
                        assert(self@.pending.contains_key(ids@[i as int]));
                        return true;
                    }
                },
                None => {},
            }
            i = i + 1;
        }
        proof {
            assert forall|id: u128| #[trigger] self@.pending.contains_key(id) implies !(
            self@.pending[id].task == task_id.value && self@.pending[id].operation
                == operation_id.value) by {
                assert(ids@.to_set().contains(id));
                let m = choose|m: int| 0 <= m < ids@.len() && ids@[m] == id;
                assert(self@.pending[ids@[m]] == self@.pending[id]);
            }
        }
        false
    }

    fn remove(&mut self, approval_id: ApprovalId) -> (r: Option<PendingApproval>)
        ensures
            final(self)@ == old(self)@.without(approval_id.value),
            final(self).same_clock(*old(self)),
            r is Some <==> old(self)@.pending.contains_key(approval_id.value),
            r is Some ==> (r->0)@ == old(self)@.pending[approval_id.value],
            old(self)@.bounded() ==> final(self)@.bounded(),
    {
        let r = self.pending.remove(approval_id.value);
        proof {
            assert(self@.pending.dom() =~= old(self)@.pending.dom().remove(approval_id.value));
        }
        r
    }
}

impl Default for ApprovalAuthority {
    fn default() -> (r: Self)
        ensures
            r@ == (AuthorityModel {
                pending: Map::<u128, PendingModel>::empty(),
                max_pending: DEFAULT_MAX_PENDING_APPROVALS as nat,
                max_ttl: (DEFAULT_MAX_TTL_SECONDS * NANOS_PER_SECOND) as nat,
            }),
    {
        ApprovalAuthority {
            pending: IdMap::new(),
            max_pending: DEFAULT_MAX_PENDING_APPROVALS,
            max_ttl: Duration::from_secs(DEFAULT_MAX_TTL_SECONDS),
            clock: Clock::start(),
        }
    }
}

/// What a request does and returns. Expired approvals are purged first in every case.
pub open spec fn request_outcome(
    old: AuthorityModel,
    new: AuthorityModel,
    now: u128,
    id: u128,
    task: u128,
    operation: u128,
    action: Seq<char>,
    ttl: nat,
    r: Result<ApprovalRequest, ApprovalError>,
) -> bool {
    match old.refusal(now, id, task, operation, action, ttl) {
        Some(error) => r == Err::<ApprovalRequest, ApprovalError>(error) && new == old.purged(now),
        None => r is Ok && request_matches(r->Ok_0, id, task, operation, action, ttl) && new
            == old.requested(now, id, task, operation, action, ttl),
    }
}

/// What an approval does and returns. The request is gone in every case.
pub open spec fn approve_outcome(
    old: AuthorityModel,
    new: AuthorityModel,
    now: u128,
    id: u128,
    r: Result<ApprovalGrant, ApprovalError>,
) -> bool {
    &&& new == old.without(id)
    &&& if !old.pending.contains_key(id) {
        r is Err && r->Err_0 == ApprovalError::NotFound
    } else if now >= old.pending[id].deadline {
        r is Err && r->Err_0 == ApprovalError::Expired
    } else {
        r is Ok && (r->Ok_0)@.approval == id && (r->Ok_0)@.pending() == old.pending[id]
    }
}

/// What a denial does and returns. The request is gone in every case.
pub open spec fn deny_outcome(
    old: AuthorityModel,
    new: AuthorityModel,
    now: u128,
    id: u128,
    r: Result<(), ApprovalError>,
) -> bool {
    &&& new == old.without(id)
    &&& if !old.pending.contains_key(id) {
        r is Err && r->Err_0 == ApprovalError::NotFound
    } else if now >= old.pending[id].deadline {
        r is Err && r->Err_0 == ApprovalError::Expired
    } else {
        r is Ok
    }
}

fn is_valid_action(action: &str) -> (r: bool)
    ensures
        r == text::is_identifier(action@, MAX_ACTION_BYTES as nat),
{
    is_valid_identifier(action, MAX_ACTION_BYTES)
}

fn duration_ms(duration: Duration) -> (r: u64)
    requires
        duration.nanos <= MAX_MAX_TTL_SECONDS * NANOS_PER_SECOND,
    ensures
        r == duration.nanos / NANOS_PER_MILLI,
{
    duration.as_millis() as u64
}

/// An approval is granted at most once: after an approval or a denial, whatever it returned,
/// the identifier is no longer pending.
pub proof fn law_approvals_are_decided_once(
    before: AuthorityModel,
    after: AuthorityModel,
    now: u128,
    later: u128,
    id: u128,
    first: Result<ApprovalGrant, ApprovalError>,
    last: AuthorityModel,
    second: Result<ApprovalGrant, ApprovalError>,
)
    requires
        approve_outcome(before, after, now, id, first),
        approve_outcome(after, last, later, id, second),
    ensures
        second is Err,
        second->Err_0 == ApprovalError::NotFound,
{
}

/// A grant authorizes the operation that was asked for, at any time before the deadline that
/// the request was given, and nothing else.
pub proof fn law_grants_authorize_what_was_requested(
    old: AuthorityModel,
    mid: AuthorityModel,
    new: AuthorityModel,
    now: u128,
    later: u128,
    used: u128,
    id: u128,
    task: u128,
    operation: u128,
    action: Seq<char>,
    ttl: nat,
    request: Result<ApprovalRequest, ApprovalError>,
    grant: Result<ApprovalGrant, ApprovalError>,
    t: u128,
    o: u128,
    a: Seq<char>,
)
    requires
        request_outcome(old, mid, now, id, task, operation, action, ttl, request),
        request is Ok,
        approve_outcome(mid, new, later, id, grant),
        grant is Ok,
    ensures
        (grant->Ok_0)@.authorized(used, t, o, a) is Ok <==> used < now + ttl && t == task && o
            == operation && a == action,
{
}

/// A restored grant leaves the authority as it was before the approval.
pub proof fn law_restore_undoes_approve(
    before: AuthorityModel,
    after: AuthorityModel,
    now: u128,
    id: u128,
    r: Result<ApprovalGrant, ApprovalError>,
)
    requires
        approve_outcome(before, after, now, id, r),
        r is Ok,
    ensures
        (AuthorityModel {
            pending: after.pending.insert((r->Ok_0)@.approval, (r->Ok_0)@.pending()),
            ..after
        }) == before,
{
    assert(after.pending.insert(id, before.pending[id]) =~= before.pending);
}

} // verus!
