//! Approval requests and grants.

use aios::approval::{ApprovalAuthority, ApprovalError};
use aios::ids::{OperationId, TaskId};
use aios::time::Duration;

fn authority(max_pending: usize) -> ApprovalAuthority {
    match ApprovalAuthority::new(max_pending, Duration::from_secs(60)) {
        Ok(authority) => authority,
        Err(_) => panic!("valid authority"),
    }
}

#[test]
fn rejects_unsafe_configuration() {
    assert!(matches!(
        ApprovalAuthority::new(0, Duration::from_secs(1)),
        Err(ApprovalError::InvalidConfig)
    ));
    assert!(matches!(
        ApprovalAuthority::new(1, Duration::from_nanos(0)),
        Err(ApprovalError::InvalidConfig)
    ));
    assert!(matches!(
        ApprovalAuthority::new(1, Duration::from_secs(86_401)),
        Err(ApprovalError::InvalidConfig)
    ));
}

#[test]
fn request_is_task_operation_action_and_expiry_scoped() {
    let mut authority = authority(1);
    let task_id = TaskId::new();
    let operation_id = OperationId::new();
    let request = authority
        .request(task_id, operation_id, "git.commit", Duration::from_secs(30))
        .expect("request approval");

    assert_eq!(request.task_id, task_id);
    assert_eq!(request.operation_id, operation_id);
    assert_eq!(request.action, "git.commit");
    assert_eq!(request.expires_after_ms, 30_000);
    assert_eq!(authority.pending_count(), 1);
}

#[test]
fn rejects_invalid_action_and_ttl_without_echoing_values() {
    let mut authority = authority(1);
    let error = authority
        .request(
            TaskId::new(),
            OperationId::new(),
            "git.commit;secret-value",
            Duration::from_secs(1),
        )
        .expect_err("invalid action");

    assert_eq!(error, ApprovalError::InvalidRequest);
    assert!(!error.display().contains("secret-value"));
    assert!(matches!(
        authority.request(
            TaskId::new(),
            OperationId::new(),
            "git.commit",
            Duration::from_secs(61),
        ),
        Err(ApprovalError::InvalidRequest)
    ));
    assert!(matches!(
        authority.request(
            TaskId::new(),
            OperationId::new(),
            "git.commit",
            Duration::from_nanos(1),
        ),
        Err(ApprovalError::InvalidRequest)
    ));
}

#[test]
fn duplicate_operation_and_capacity_are_bounded() {
    let mut authority = authority(1);
    let task_id = TaskId::new();
    let operation_id = OperationId::new();
    authority
        .request(task_id, operation_id, "git.commit", Duration::from_secs(30))
        .expect("first request");

    assert!(matches!(
        authority.request(task_id, operation_id, "git.commit", Duration::from_secs(30)),
        Err(ApprovalError::DuplicateOperation)
    ));
    assert!(matches!(
        authority.request(
            TaskId::new(),
            OperationId::new(),
            "git.commit",
            Duration::from_secs(30),
        ),
        Err(ApprovalError::CapacityExceeded)
    ));
}

#[test]
fn denial_removes_pending_request_and_frees_capacity() {
    let mut authority = authority(1);
    let first = authority
        .request(
            TaskId::new(),
            OperationId::new(),
            "git.commit",
            Duration::from_secs(30),
        )
        .expect("first request");
    authority.deny(first.approval_id).expect("deny request");

    assert_eq!(authority.pending_count(), 0);
    assert!(matches!(
        authority.deny(first.approval_id),
        Err(ApprovalError::NotFound)
    ));
    authority
        .request(
            TaskId::new(),
            OperationId::new(),
            "git.commit",
            Duration::from_secs(30),
        )
        .expect("capacity was freed");
}

#[test]
fn approved_grant_authorizes_exact_scope_once() {
    let mut authority = authority(1);
    let task_id = TaskId::new();
    let operation_id = OperationId::new();
    let request = authority
        .request(task_id, operation_id, "git.commit", Duration::from_secs(30))
        .expect("request approval");
    let Ok(grant) = authority.approve(request.approval_id) else {
        panic!("approve request");
    };

    let receipt = grant
        .authorize(task_id, operation_id, "git.commit")
        .expect("authorize operation");
    assert_eq!(receipt.approval_id, request.approval_id);
    assert_eq!(authority.pending_count(), 0);
    assert!(matches!(
        authority.approve(request.approval_id),
        Err(ApprovalError::NotFound)
    ));
}

#[test]
fn scope_mismatch_consumes_linear_grant() {
    let mut authority = authority(1);
    let task_id = TaskId::new();
    let operation_id = OperationId::new();
    let request = authority
        .request(task_id, operation_id, "git.commit", Duration::from_secs(30))
        .expect("request approval");
    let Ok(grant) = authority.approve(request.approval_id) else {
        panic!("approve request");
    };

    assert_eq!(
        grant.authorize(TaskId::new(), operation_id, "git.commit"),
        Err(ApprovalError::ScopeMismatch)
    );
}

#[test]
fn expired_request_cannot_be_approved() {
    let mut authority = authority(1);
    let request = authority
        .request(
            TaskId::new(),
            OperationId::new(),
            "git.commit",
            Duration::from_secs(30),
        )
        .expect("request approval");
    let deadline = authority.clock().now() + Duration::from_secs(30).nanos;

    assert!(matches!(
        authority.approve_at(deadline, request.approval_id),
        Err(ApprovalError::Expired)
    ));
    assert_eq!(authority.pending_count(), 0);
}

#[test]
fn pending_count_purges_expired_requests() {
    let mut authority = authority(1);
    let request = authority
        .request(
            TaskId::new(),
            OperationId::new(),
            "git.commit",
            Duration::from_secs(30),
        )
        .expect("request approval");
    let deadline = authority.clock().now() + Duration::from_secs(30).nanos;

    assert_eq!(authority.pending_count_at(deadline), 0);
    assert!(matches!(
        authority.approve(request.approval_id),
        Err(ApprovalError::NotFound)
    ));
}

#[test]
fn expired_grant_cannot_authorize() {
    let mut authority = authority(1);
    let task_id = TaskId::new();
    let operation_id = OperationId::new();
    let request = authority
        .request(task_id, operation_id, "git.commit", Duration::from_secs(30))
        .expect("request approval");
    let Ok(grant) = authority.approve(request.approval_id) else {
        panic!("approve request");
    };
    let deadline = authority.clock().now() + Duration::from_secs(30).nanos;

    assert_eq!(
        grant.authorize_at(deadline, task_id, operation_id, "git.commit"),
        Err(ApprovalError::Expired)
    );
}

#[test]
fn the_same_moment_decides_requests_and_grants() {
    let mut authority = authority(2);
    let task_id = TaskId::new();
    let operation_id = OperationId::new();
    let request = authority
        .request_at(
            1_000,
            7,
            task_id,
            operation_id,
            "git.commit",
            Duration::from_nanos(2_000_000),
        )
        .expect("request approval");

    assert_eq!(request.approval_id.value, 7);
    assert_eq!(request.expires_after_ms, 2);
    assert!(authority.expired_ids_at(2_000_999).is_empty());
    assert_eq!(authority.expired_ids_at(2_001_000), vec![7]);
    assert!(authority.contains(request.approval_id));
    assert!(authority.revoke(request.approval_id));
    assert!(!authority.revoke(request.approval_id));
}

#[test]
fn restoring_a_grant_makes_it_pending_again() {
    let mut authority = authority(1);
    let task_id = TaskId::new();
    let operation_id = OperationId::new();
    let request = authority
        .request(task_id, operation_id, "git.commit", Duration::from_secs(30))
        .expect("request approval");
    let Ok(grant) = authority.approve(request.approval_id) else {
        panic!("approve request");
    };
    assert_eq!(authority.pending_count(), 0);
    grant.restore(&mut authority);

    assert_eq!(authority.pending_count(), 1);
    assert!(authority.approve(request.approval_id).is_ok());
}

#[test]
fn every_failure_has_its_own_text() {
    assert_eq!(ApprovalError::NotFound.display(), "approval request not found");
}
