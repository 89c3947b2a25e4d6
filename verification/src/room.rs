//! Room in the event store for what is still to be recorded.

use vstd::prelude::*;

use crate::approval::ApprovalReceipt;
use crate::error::ErrorCode;
use crate::event;
use crate::event::EventStore;
use crate::idmap;
use crate::policy::RequestModel;
use crate::recovery::TaskSnapshot;
use crate::state::TaskState;
use crate::supervision;
use crate::supervision::SupervisorModel;
use crate::supervisor;
use crate::supervisor::{OperationAuthorization, SupervisorError, TaskSupervisor};

verus! {

/// Whether at most `count` events of a task were recorded, and none of the other tasks that
/// still wait for an approval.
pub open spec fn spends(
    old: SupervisorModel,
    new: SupervisorModel,
    task: u128,
    count: nat,
) -> bool {
    &&& event::events_of(new.log, task).len() <= event::events_of(old.log, task).len() + count
    &&& forall|id: u128| #[trigger]
        new.pending.contains_key(id) && new.pending[id].task != task ==> old.pending.contains_key(
            id,
        ) && old.pending[id].task == new.pending[id].task && event::events_of(
            new.log,
            new.pending[id].task,
        ).len() == event::events_of(old.log, new.pending[id].task).len()
}

/// The events that the end of a task takes at most.
pub open spec fn ending(m: SupervisorModel, task: u128) -> nat {
    m.revocations(task).len() + 2
}

/// Where the store keeps its promises, what was spent is what the room shrinks by.
pub proof fn lemma_room_left<S: EventStore>(
    old: TaskSupervisor<S>,
    new: TaskSupervisor<S>,
    task: u128,
    count: nat,
    spent: nat,
)
    requires
        event::carries(old.store(), new.store()),
        spends(old@, new@, task, spent),
        old.has_room(task, count),
        spent + 2 <= count,
    ensures
        new.has_room(task, (count - spent) as nat),
{
    old.law_the_log_is_that_of_the_store();
    new.law_the_log_is_that_of_the_store();
    let (a, b) = (old@.log, new@.log);
    assert forall|k: nat| k <= count - spent implies #[trigger] new.admits(task, k) by {
        assert(event::events_of(b, task).len() >= event::events_of(a, task).len());
        assert(old.admits(task, k + event::grown(a, b, task)));
        assert(new.store().admits(task, k));
    }
    assert forall|id: u128| #[trigger] new@.pending.contains_key(id) implies new.admits(
        new@.pending[id].task,
        2,
    ) by {
        let other = new@.pending[id].task;
        if other != task {
            assert(old.admits(old@.pending[id].task, 2));
            assert(event::grown(a, b, other) == 0);
            assert(new.store().admits(other, 2));
        } else {
            assert(new.admits(task, 2));
        }
    }
}

/// An expiry records two events of every task whose approval ran out, and none of any other.
proof fn lemma_expiry_spends(
    old: SupervisorModel,
    new: SupervisorModel,
    done: Set<u128>,
    task: u128,
)
    requires
        old.coherent(),
        supervision::expired_effect(old, new, done),
        done.subset_of(old.pending.dom()),
    ensures
        spends(old, new, task, 2),
        !supervision::touches(old.pending, done, task) ==> spends(old, new, task, 0)
            && new.revocations(task).len() == old.revocations(task).len(),
        supervision::touches(old.pending, done, task) && old.tasks.contains_key(task)
            ==> new.tasks[task].state is Failed,
{
    if supervision::touches(old.pending, done, task) {
        let id = choose|id: u128| #[trigger] done.contains(id) && old.pending[id].task == task;
        assert(event::events_of(new.log, task).len() == event::events_of(old.log, task).len() + 2);
    } else {
        assert(event::events_of(new.log, task) == event::events_of(old.log, task));
        assert(supervision::pending_for(new.pending, task) =~= supervision::pending_for(
            old.pending,
            task,
        ));
        lemma_revocations(old, task);
        lemma_revocations(new, task);
    }
    assert forall|id: u128| #[trigger]
        new.pending.contains_key(id) && new.pending[id].task
            != task implies old.pending.contains_key(id) && old.pending[id].task
        == new.pending[id].task && event::events_of(new.log, new.pending[id].task).len()
        == event::events_of(old.log, new.pending[id].task).len() by {
        let other = new.pending[id].task;
        if supervision::touches(old.pending, done, other) {
            let gone = choose|gone: u128| #[trigger]
                done.contains(gone) && old.pending[gone].task == other;
            assert(old.pending.contains_key(gone) && old.pending.contains_key(id));
            assert(old.pending[gone].task == old.pending[id].task);
            assert(gone == id);
        }
        assert(event::events_of(new.log, other) == event::events_of(old.log, other));
    }
}

/// How many revocations the end of a task takes.
proof fn lemma_revocations(m: SupervisorModel, task: u128)
    ensures
        m.revocations(task).len() == idmap::ascending(
            supervision::pending_for(m.pending, task),
        ).len() + idmap::ascending(supervision::approved_for(m.approved, task)).len(),
{
}

proof fn lemma_sweep_spends(
    old: SupervisorModel,
    new: SupervisorModel,
    now: u128,
    swept: Result<usize, SupervisorError>,
    task: u128,
)
    requires
        old.coherent(),
        supervisor::expire_outcome(old, new, now, swept),
    ensures
        spends(old, new, task, 2),
        exists|done: Set<u128>|
            done.subset_of(old.pending.dom()) && #[trigger] supervision::expired_effect(
                old,
                new,
                done,
            ),
{
    let due = old.due(now);
    assert(due.subset_of(old.authority.pending.dom()));
    assert(due.finite());
    idmap::lemma_ascending_lists(due);
    match swept {
        Ok(_) => {
            lemma_expiry_spends(old, new, due, task);
        },
        Err(_) => {
            let k = choose|k: int|
                0 <= k < due.len() && #[trigger] supervision::expired_effect(
                    old,
                    new,
                    idmap::ascending(due).take(k).to_set(),
                );
            let done = idmap::ascending(due).take(k).to_set();
            idmap::lemma_ascending_no_duplicates(idmap::ascending(due), due);
            assert(done.subset_of(old.pending.dom())) by {
                assert forall|id: u128| done.contains(id) implies old.pending.dom().contains(
                    id,
                ) by {
                    let list = idmap::ascending(due);
                    let i = choose|i: int| 0 <= i < k && list.take(k)[i] == id;
                    assert(list[i] == id);
                    assert(list.to_set().contains(id));
                }
            }
            lemma_expiry_spends(old, new, done, task);
        },
    }
}

/// A request takes at most two events of its task, and one where it is decided at once.
pub proof fn lemma_request_spends(
    old: SupervisorModel,
    new: SupervisorModel,
    task: u128,
    request: RequestModel,
    ttl: nat,
    r: Result<OperationAuthorization, SupervisorError>,
)
    requires
        old.coherent(),
        supervisor::requested_operation(old, new, task, request, ttl, r),
    ensures
        spends(old, new, task, 2),
        r is Ok && !(r->Ok_0 is ApprovalRequired) ==> spends(old, new, task, 1)
            && new.revocations(task).len() == old.revocations(task).len(),
{
    let (now, approval, operation, mid, swept) = choose|
        now: u128,
        approval: u128,
        operation: u128,
        mid: SupervisorModel,
        swept: Result<usize, SupervisorError>,
    |
        #[trigger] supervisor::expire_outcome(old, mid, now, swept) && supervisor::after_expiry(
            swept,
            mid,
            new,
            r,
            #[trigger] supervisor::request_outcome(
                mid,
                new,
                now,
                approval,
                operation,
                task,
                request,
                ttl,
                r,
            ),
        );
    lemma_sweep_spends(old, mid, now, swept, task);
    let done = choose|done: Set<u128>|
        done.subset_of(old.pending.dom()) && #[trigger] supervision::expired_effect(old, mid, done);
    lemma_expiry_spends(old, mid, done, task);
    if swept is Ok && new != mid {
        assert(mid.tasks.dom().contains(task));
        assert(old.tasks.contains_key(task));
        assert(!supervision::touches(old.pending, done, task));
        assert forall|id: u128| #[trigger]
            new.pending.contains_key(id) && new.pending[id].task
                != task implies old.pending.contains_key(id) && old.pending[id].task
            == new.pending[id].task && event::events_of(new.log, new.pending[id].task).len()
            == event::events_of(old.log, new.pending[id].task).len() by {
            assert(mid.pending.contains_key(id));
            assert(mid.pending[id] == new.pending[id]);
            let other = new.pending[id].task;
            assert(event::events_of(new.log, other) == event::events_of(mid.log, other));
        }
        if r is Ok && !(r->Ok_0 is ApprovalRequired) {
            assert(new.pending == mid.pending && new.approved == mid.approved);
            lemma_revocations(mid, task);
            lemma_revocations(new, task);
        }
    }
}

/// A grant takes at most two events of any task.
pub proof fn lemma_grant_spends(
    old: SupervisorModel,
    new: SupervisorModel,
    approval: u128,
    r: Result<TaskSnapshot, SupervisorError>,
    task: u128,
)
    requires
        old.coherent(),
        supervisor::approved_operation(old, new, approval, r),
    ensures
        spends(old, new, task, 2),
        new.revocations(task).len() <= old.revocations(task).len() + 1,
{
    let (now, mid, swept) = choose|
        now: u128,
        mid: SupervisorModel,
        swept: Result<usize, SupervisorError>,
    | #[trigger]
        supervisor::expire_outcome(old, mid, now, swept) && supervisor::after_expiry(
            swept,
            mid,
            new,
            r,
            supervisor::approve_outcome(mid, new, approval, r),
        );
    lemma_sweep_spends(old, mid, now, swept, task);
    let done = choose|done: Set<u128>|
        done.subset_of(old.pending.dom()) && #[trigger] supervision::expired_effect(old, mid, done);
    lemma_expiry_spends(old, mid, done, task);
    let granted = mid.pending[approval].task;
    if swept is Ok && new != mid {
        assert(old.pending.contains_key(approval));
        if supervision::touches(old.pending, done, granted) {
            let gone = choose|gone: u128| #[trigger]
                done.contains(gone) && old.pending[gone].task == granted;
            assert(old.pending.contains_key(gone));
            assert(old.pending[gone].task == old.pending[approval].task);
            assert(false);
        }
        if task != granted {
            assert(event::events_of(new.log, task) == event::events_of(mid.log, task));
        }
        assert forall|id: u128| #[trigger]
            new.pending.contains_key(id) && new.pending[id].task
                != task implies old.pending.contains_key(id) && old.pending[id].task
            == new.pending[id].task && event::events_of(new.log, new.pending[id].task).len()
            == event::events_of(old.log, new.pending[id].task).len() by {
            assert(mid.pending.contains_key(id));
            assert(mid.pending[id] == new.pending[id]);
            let other = new.pending[id].task;
            if other == granted {
                assert(old.pending[id].task == old.pending[approval].task);
                assert(false);
            }
            assert(event::events_of(new.log, other) == event::events_of(mid.log, other));
        }
    }
    let operation = mid.pending[approval].operation;
    assert(supervision::pending_for(new.pending, task).subset_of(
        supervision::pending_for(old.pending, task),
    ));
    assert(supervision::approved_for(new.approved, task).subset_of(
        supervision::approved_for(old.approved, task).insert(operation),
    ));
    lemma_fewer_revocations(old, new, task, operation);
}

/// Sets of approvals that shrink, but for one operation, leave at most one more revocation.
proof fn lemma_fewer_revocations(
    old: SupervisorModel,
    new: SupervisorModel,
    task: u128,
    operation: u128,
)
    requires
        old.coherent(),
        supervision::pending_for(new.pending, task).subset_of(
            supervision::pending_for(old.pending, task),
        ),
        supervision::approved_for(new.approved, task).subset_of(
            supervision::approved_for(old.approved, task).insert(operation),
        ),
    ensures
        new.revocations(task).len() <= old.revocations(task).len() + 1,
{
    let (p, q) = (
        supervision::pending_for(old.pending, task),
        supervision::pending_for(new.pending, task),
    );
    let (a, b) = (
        supervision::approved_for(old.approved, task),
        supervision::approved_for(new.approved, task),
    );
    assert(p.subset_of(old.pending.dom()));
    assert(a.subset_of(old.approved.dom()));
    vstd::set_lib::lemma_len_subset(p, old.pending.dom());
    vstd::set_lib::lemma_len_subset(a, old.approved.dom());
    vstd::set_lib::lemma_len_subset(q, p);
    vstd::set_lib::lemma_len_subset(b, a.insert(operation));
    idmap::lemma_ascending_lists(p);
    idmap::lemma_ascending_lists(q);
    idmap::lemma_ascending_lists(a);
    idmap::lemma_ascending_lists(b);
    idmap::lemma_ascending_no_duplicates(idmap::ascending(p), p);
    idmap::lemma_ascending_no_duplicates(idmap::ascending(q), q);
    idmap::lemma_ascending_no_duplicates(idmap::ascending(a), a);
    idmap::lemma_ascending_no_duplicates(idmap::ascending(b), b);
    lemma_revocations(old, task);
    lemma_revocations(new, task);
}

/// After a grant there is room left for all but its two events.
pub proof fn lemma_grant_leaves_room<S: EventStore>(
    old: TaskSupervisor<S>,
    new: TaskSupervisor<S>,
    task: u128,
    approval: u128,
    r: Result<TaskSnapshot, SupervisorError>,
    count: nat,
)
    requires
        old@.coherent(),
        event::carries(old.store(), new.store()),
        supervisor::approved_operation(old@, new@, approval, r),
        old.has_room(task, count),
        count >= 3,
    ensures
        new.admits(task, 1),
{
    lemma_grant_spends(old@, new@, approval, r, task);
    old.law_the_log_is_that_of_the_store();
    new.law_the_log_is_that_of_the_store();
    let (a, b) = (old@.log, new@.log);
    assert(event::events_of(b, task).len() >= event::events_of(a, task).len());
    assert(old.admits(task, 1 + event::grown(a, b, task)));
    assert(new.store().admits(task, 1));
}

/// A start takes one event of its task.
pub proof fn lemma_start_spends(old: SupervisorModel, new: SupervisorModel, task: u128)
    requires
        exists|deadline: Option<u128>| #[trigger]
            supervisor::transition_outcome(
                old,
                new,
                task,
                TaskState::Running,
                None,
                deadline,
                Ok(()),
            ),
    ensures
        spends(old, new, task, 1),
        new.revocations(task).len() == old.revocations(task).len(),
{
    let deadline = choose|deadline: Option<u128>| #[trigger]
        supervisor::transition_outcome(
            old,
            new,
            task,
            TaskState::Running,
            None,
            deadline,
            Ok(()),
        );
    assert(new.pending =~= old.pending);
    assert(new.approved =~= old.approved);
    lemma_revocations(old, task);
    lemma_revocations(new, task);
    assert(old.transition_kinds(task, TaskState::Running, None).len() == 1);
}

/// After a task ended, the store still promises the events of every approval that may run out.
pub proof fn lemma_ended_leaves_sweeps<S: EventStore>(
    old: TaskSupervisor<S>,
    new: TaskSupervisor<S>,
    task: u128,
    code: Option<ErrorCode>,
)
    requires
        event::carries(old.store(), new.store()),
        old.admits_every_sweep(),
        supervisor::transition_outcome(
            old@,
            new@,
            task,
            TaskState::Failed,
            code,
            old@.tasks[task].deadline,
            Ok(()),
        ),
    ensures
        new.admits_every_sweep(),
{
    old.law_the_log_is_that_of_the_store();
    new.law_the_log_is_that_of_the_store();
    let (a, b) = (old@.log, new@.log);
    assert forall|id: u128| #[trigger] new@.pending.contains_key(id) implies new.admits(
        new@.pending[id].task,
        2,
    ) by {
        let other = new@.pending[id].task;
        assert(old@.pending.contains_key(id));
        assert(!supervision::pending_for(old@.pending, task).contains(id));
        assert(old.admits(old@.pending[id].task, 2));
        assert(event::grown(a, b, other) == 0);
        assert(new.store().admits(other, 2));
    }
}

/// The use of an approved operation takes at most one event of its task, and none of any other.
proof fn lemma_use_spends(
    old: SupervisorModel,
    new: SupervisorModel,
    task: u128,
    held: u128,
    operation: u128,
    request: RequestModel,
    r: Result<ApprovalReceipt, SupervisorError>,
)
    requires
        old.coherent(),
        supervisor::authorized_operation(old, new, held, operation, request, r),
    ensures
        new.pending == old.pending,
        new.revocations(task).len() <= old.revocations(task).len(),
        event::events_of(new.log, held).len() <= event::events_of(old.log, held).len() + 1,
        forall|other: u128|
            other != held ==> #[trigger] event::events_of(new.log, other) == event::events_of(
                old.log,
                other,
            ),
{
    let now = choose|now: u128| #[trigger]
        supervisor::authorize_outcome(old, new, now, held, operation, request, r);
    assert(new.pending =~= old.pending);
    let (p, q) = (
        supervision::pending_for(old.pending, task),
        supervision::pending_for(new.pending, task),
    );
    let (a, b) = (
        supervision::approved_for(old.approved, task),
        supervision::approved_for(new.approved, task),
    );
    assert(p =~= q);
    assert(b.subset_of(a));
    assert(a.subset_of(old.approved.dom()));
    vstd::set_lib::lemma_len_subset(a, old.approved.dom());
    vstd::set_lib::lemma_len_subset(b, a);
    idmap::lemma_ascending_lists(a);
    idmap::lemma_ascending_lists(b);
    idmap::lemma_ascending_no_duplicates(idmap::ascending(a), a);
    idmap::lemma_ascending_no_duplicates(idmap::ascending(b), b);
    lemma_revocations(old, task);
    lemma_revocations(new, task);
}

/// A grant and the use of what it granted, which may be an operation of another task, leave room
/// for all but three events.
pub proof fn lemma_grant_and_use_leave_room<S: EventStore>(
    old: TaskSupervisor<S>,
    mid: SupervisorModel,
    new: TaskSupervisor<S>,
    task: u128,
    approval: u128,
    granted: Result<TaskSnapshot, SupervisorError>,
    held: u128,
    operation: u128,
    request: RequestModel,
    used: Result<ApprovalReceipt, SupervisorError>,
    count: nat,
)
    requires
        old@.coherent(),
        mid.coherent(),
        event::carries(old.store(), new.store()),
        supervisor::approved_operation(old@, mid, approval, granted),
        supervisor::authorized_operation(mid, new@, held, operation, request, used),
        old.has_room(task, count),
        old.has_room(held, 5),
        count >= 5,
    ensures
        new.has_room(task, (count - 3) as nat),
        ending(new@, task) <= ending(old@, task) + 1,
{
    lemma_grant_spends(old@, mid, approval, granted, task);
    lemma_grant_spends(old@, mid, approval, granted, held);
    lemma_use_spends(mid, new@, task, held, operation, request, used);
    old.law_the_log_is_that_of_the_store();
    new.law_the_log_is_that_of_the_store();
    let (a, b) = (old@.log, new@.log);
    assert(event::events_of(b, task).len() <= event::events_of(a, task).len() + 3);
    assert(event::events_of(b, held).len() <= event::events_of(a, held).len() + 3);
    assert forall|k: nat| k <= count - 3 implies #[trigger] new.admits(task, k) by {
        assert(event::events_of(b, task).len() >= event::events_of(a, task).len());
        assert(old.admits(task, k + event::grown(a, b, task)));
        assert(new.store().admits(task, k));
    }
    assert forall|id: u128| #[trigger] new@.pending.contains_key(id) implies new.admits(
        new@.pending[id].task,
        2,
    ) by {
        let other = new@.pending[id].task;
        if other == task {
            assert(new.admits(task, 2));
        } else {
            assert(mid.pending.contains_key(id));
            assert(event::events_of(b, other).len() >= event::events_of(a, other).len());
            if other == held {
                assert(old.admits(held, 2 + event::grown(a, b, held)));
            } else {
                assert(old.admits(old@.pending[id].task, 2));
                assert(event::grown(a, b, other) == 0);
            }
            assert(new.store().admits(other, 2));
        }
    }
}

} // verus!
