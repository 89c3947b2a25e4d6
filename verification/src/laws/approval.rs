//! Laws on approvals.

use vstd::prelude::*;

use crate::approval;
use crate::approval::{
    ApprovalError, ApprovalGrant, ApprovalRequest, AuthorityModel, GrantModel,
};
use crate::text;

verus! {

/// A grant is good before its deadline, for its own task, operation and action, and gives a
/// receipt of its own approval. Once expired it stays expired, for any scope.
pub proof fn law_grants_are_good_for_their_scope_until_the_deadline(
    grant: GrantModel,
    now: u128,
    later: u128,
    task: u128,
    operation: u128,
    action: Seq<char>,
)
    requires
        now <= later,
    ensures
        now < grant.deadline ==> grant.authorized(
            now,
            grant.task,
            grant.operation,
            grant.action,
        ) is Ok && grant.authorized(
            now,
            grant.task,
            grant.operation,
            grant.action,
        )->Ok_0.approval_id.value == grant.approval,
        grant.authorized(now, task, operation, action) is Ok ==> task == grant.task && operation
            == grant.operation && action == grant.action && now < grant.deadline,
        grant.authorized(grant.deadline, task, operation, action) == Err::<
            crate::approval::ApprovalReceipt,
            ApprovalError,
        >(ApprovalError::Expired),
        grant.authorized(now, task, operation, action) == Err::<
            crate::approval::ApprovalReceipt,
            ApprovalError,
        >(ApprovalError::Expired) ==> grant.authorized(later, task, operation, action) == Err::<
            crate::approval::ApprovalReceipt,
            ApprovalError,
        >(ApprovalError::Expired),
        now < grant.deadline && (task != grant.task || operation != grant.operation || action
            != grant.action) ==> grant.authorized(now, task, operation, action) == Err::<
            crate::approval::ApprovalReceipt,
            ApprovalError,
        >(ApprovalError::ScopeMismatch),
{
}

/// A request for a named action of at most 64 bytes, for at least a millisecond and at most the
/// longest time, is taken where the operation has no live request, the identifier is unused and
/// there is room.
pub proof fn law_good_requests_are_taken(
    old: AuthorityModel,
    new: AuthorityModel,
    now: u128,
    id: u128,
    task: u128,
    operation: u128,
    action: Seq<char>,
    ttl: nat,
    r: Result<ApprovalRequest, ApprovalError>,
)
    requires
        approval::request_outcome(old, new, now, id, task, operation, action, ttl, r),
        text::is_identifier(action, 64),
        1_000_000 <= ttl <= old.max_ttl,
        now + ttl <= u128::MAX,
        forall|k: u128| #[trigger]
            old.pending.contains_key(k) && now < old.pending[k].deadline ==> k != id && !(
            old.pending[k].task == task && old.pending[k].operation == operation),
        old.pending.dom().finite(),
        old.pending.dom().len() < old.max_pending,
    ensures
        r is Ok,
{
    let live = old.purged(now);
    assert(live.pending.dom().subset_of(old.pending.dom()));
    vstd::set_lib::lemma_len_subset(live.pending.dom(), old.pending.dom());
}

/// A request that was taken had a good name and a good time, and its operation no live request;
/// it is good for exactly the time that was asked, and tells that time in whole milliseconds.
pub proof fn law_taken_requests_were_good(
    old: AuthorityModel,
    new: AuthorityModel,
    now: u128,
    id: u128,
    task: u128,
    operation: u128,
    action: Seq<char>,
    ttl: nat,
    r: Result<ApprovalRequest, ApprovalError>,
    other: u128,
)
    requires
        approval::request_outcome(old, new, now, id, task, operation, action, ttl, r),
        r is Ok,
    ensures
        text::is_identifier(action, 64),
        1_000_000 <= ttl <= old.max_ttl,
        new.pending.contains_key(id) && new.pending[id].task == task && new.pending[id].operation
            == operation && new.pending[id].action == action && new.pending[id].deadline == now
            + ttl,
        (r->Ok_0).approval_id.value == id && (r->Ok_0).task_id.value == task && (
        r->Ok_0).operation_id.value == operation && (r->Ok_0).action@ == action,
        (r->Ok_0).expires_after_ms * 1_000_000 <= ttl < ((r->Ok_0).expires_after_ms + 1)
            * 1_000_000,
        old.pending.contains_key(other) && now < old.pending[other].deadline ==> other != id && (
        old.pending[other].task != task || old.pending[other].operation != operation),
        old.pending.dom().finite() && old.pending.dom().len() <= old.max_pending
            ==> new.pending.dom().len() <= new.max_pending,
{
    let live = old.purged(now);
    if old.pending.dom().finite() {
        assert(live.pending.dom().subset_of(old.pending.dom()));
        vstd::set_lib::lemma_len_subset(live.pending.dom(), old.pending.dom());
    }
    if old.pending.contains_key(other) && now < old.pending[other].deadline {
        assert(live.pending.contains_key(other));
    }
}

/// Whatever comes of a request, the live approvals stay as they are, the expired ones are gone,
/// and the limits stay.
pub proof fn law_requests_leave_live_approvals_alone(
    old: AuthorityModel,
    new: AuthorityModel,
    now: u128,
    id: u128,
    task: u128,
    operation: u128,
    action: Seq<char>,
    ttl: nat,
    r: Result<ApprovalRequest, ApprovalError>,
    other: u128,
)
    requires
        approval::request_outcome(old, new, now, id, task, operation, action, ttl, r),
        other != id,
    ensures
        new.pending.contains_key(other) <==> old.pending.contains_key(other) && now
            < old.pending[other].deadline,
        new.pending.contains_key(other) ==> new.pending[other] == old.pending[other],
        r is Err && old.pending.contains_key(id) && now < old.pending[id].deadline
            ==> new.pending.contains_key(id) && new.pending[id] == old.pending[id],
        new.max_pending == old.max_pending && new.max_ttl == old.max_ttl,
{
}

/// Why a request is refused: a bad name or time first, then a live request for the operation,
/// then want of room.
pub proof fn law_refusals_name_the_first_reason(
    old: AuthorityModel,
    new: AuthorityModel,
    now: u128,
    id: u128,
    task: u128,
    operation: u128,
    action: Seq<char>,
    ttl: nat,
    r: Result<ApprovalRequest, ApprovalError>,
    other: u128,
)
    requires
        approval::request_outcome(old, new, now, id, task, operation, action, ttl, r),
    ensures
        !text::is_identifier(action, 64) || ttl < 1_000_000 || ttl > old.max_ttl ==> r == Err::<
            ApprovalRequest,
            ApprovalError,
        >(ApprovalError::InvalidRequest),
        text::is_identifier(action, 64) && 1_000_000 <= ttl <= old.max_ttl
            && old.pending.contains_key(other) && now < old.pending[other].deadline
            && old.pending[other].task == task && old.pending[other].operation == operation
            ==> r == Err::<ApprovalRequest, ApprovalError>(ApprovalError::DuplicateOperation),
        r == Err::<ApprovalRequest, ApprovalError>(ApprovalError::CapacityExceeded)
            && old.pending.dom().finite() ==> old.pending.dom().len() >= old.max_pending,
        r is Err ==> r->Err_0 == ApprovalError::InvalidRequest || r->Err_0
            == ApprovalError::DuplicateOperation || r->Err_0 == ApprovalError::CapacityExceeded,
{
    let live = old.purged(now);
    if old.pending.contains_key(other) && now < old.pending[other].deadline {
        assert(live.pending.contains_key(other));
    }
    if old.pending.dom().finite() {
        assert(live.pending.dom().subset_of(old.pending.dom()));
        vstd::set_lib::lemma_len_subset(live.pending.dom(), old.pending.dom());
    }
}

/// A decision takes the request away, whatever comes of it, and no other; a request is approved
/// or denied exactly before its deadline.
pub proof fn law_decisions_come_before_the_deadline(
    old: AuthorityModel,
    new: AuthorityModel,
    now: u128,
    id: u128,
    grant: Result<ApprovalGrant, ApprovalError>,
    denial: Result<(), ApprovalError>,
    other: u128,
)
    requires
        approval::approve_outcome(old, new, now, id, grant),
        approval::deny_outcome(old, new, now, id, denial),
    ensures
        grant is Ok <==> denial is Ok,
        grant is Ok <==> old.pending.contains_key(id) && now < old.pending[id].deadline,
        grant is Ok ==> (grant->Ok_0)@.approval == id && (grant->Ok_0)@.task
            == old.pending[id].task && (grant->Ok_0)@.operation == old.pending[id].operation && (
        grant->Ok_0)@.action == old.pending[id].action && (grant->Ok_0)@.deadline
            == old.pending[id].deadline,
        !old.pending.contains_key(id) ==> grant is Err && grant->Err_0 == ApprovalError::NotFound
            && denial is Err && denial->Err_0 == ApprovalError::NotFound,
        old.pending.contains_key(id) && now >= old.pending[id].deadline ==> grant is Err
            && grant->Err_0 == ApprovalError::Expired && denial is Err && denial->Err_0
            == ApprovalError::Expired,
        !new.pending.contains_key(id),
        other != id ==> (new.pending.contains_key(other) <==> old.pending.contains_key(other)),
        other != id && old.pending.contains_key(other) ==> new.pending[other]
            == old.pending[other],
{
}

/// An authority holds at most 65536 approvals, none of them for more than a day.
pub proof fn law_authorities_are_bounded(a: AuthorityModel)
    requires
        a.bounded(),
    ensures
        1 <= a.max_pending <= 65_536,
        1 <= a.max_ttl <= 86_400 * 1_000_000_000,
        a.pending.dom().len() <= a.max_pending,
{
}

} // verus!
