//! Bounded creation of files.

use std::cell::RefCell;
use std::collections::BTreeMap;
use std::rc::Rc;
use std::time::Instant;

use aios::execution::{ExecutionError, ExecutionOutcome};
use aios::filesystem::{
    FileAction, FileCreation, FileEvent, FilesystemAdapterError, FilesystemCatalog,
    FilesystemExecutionGate, FilesystemWriteOperation, MAX_CREATE_BYTES,
    MAX_FILESYSTEM_PATH_BYTES, TrustedRoot, is_valid_root_path,
};
use aios::ids::TaskId;
use aios::supervisor::{SubmitResult, TaskSupervisor};
use aios::task::{
    ApprovalPolicy, Budget, CapabilitySet, FileAccess, FileCapability, NetworkPolicy, TaskSpec,
};
use aios::time::Duration;

#[derive(Default)]
struct Disk {
    files: BTreeMap<String, Vec<u8>>,
    fail_writes: bool,
}

struct Root(Rc<RefCell<Disk>>);

impl TrustedRoot for Root {
    fn perform(
        &mut self,
        action: FileAction,
        relative_path: &str,
        contents: &Vec<u8>,
    ) -> FileEvent {
        let mut disk = self.0.borrow_mut();
        match action {
            FileAction::Create => {
                if disk.files.contains_key(relative_path) {
                    return FileEvent::Failed;
                }
                disk.files.insert(relative_path.to_owned(), Vec::new());
                FileEvent::Done
            }
            FileAction::Write => {
                if disk.fail_writes {
                    return FileEvent::Failed;
                }
                disk.files
                    .insert(relative_path.to_owned(), contents.clone());
                FileEvent::Done
            }
        }
    }
}

fn disk() -> (Rc<RefCell<Disk>>, FilesystemExecutionGate<Root>) {
    let disk = Rc::new(RefCell::new(Disk::default()));
    let gate = FilesystemExecutionGate::new(Root(Rc::clone(&disk)));
    (disk, gate)
}

fn pause(millis: u64) {
    let start = Instant::now();
    while start.elapsed().as_millis() < u128::from(millis) {}
}

fn task(
    idempotency_key: &str,
    filesystem: Vec<FileCapability>,
    required_for: &[&str],
) -> TaskSpec {
    TaskSpec {
        idempotency_key: idempotency_key.to_owned(),
        goal: "Create one bounded output file".to_owned(),
        capabilities: CapabilitySet {
            filesystem,
            network: NetworkPolicy::Deny,
            tools: Vec::new(),
        },
        budget: Budget {
            wall_time_seconds: 60,
            memory_bytes: 64 * 1024 * 1024,
            max_parallel_agents: 1,
        },
        approval: ApprovalPolicy {
            required_for: required_for
                .iter()
                .map(|action| (*action).to_owned())
                .collect(),
        },
    }
}

fn write_capability(path: &str) -> FileCapability {
    FileCapability {
        path: path.to_owned(),
        access: FileAccess::Write,
    }
}

fn running_supervisor(
    filesystem: Vec<FileCapability>,
    required_for: &[&str],
) -> (TaskSupervisor, TaskId) {
    running_supervisor_with_wall_time(filesystem, required_for, 60)
}

fn running_supervisor_with_wall_time(
    filesystem: Vec<FileCapability>,
    required_for: &[&str],
    wall_time_seconds: u64,
) -> (TaskSupervisor, TaskId) {
    let mut supervisor = TaskSupervisor::default();
    let mut spec = task("filesystem-adapter-test", filesystem, required_for);
    spec.budget.wall_time_seconds = wall_time_seconds;
    let SubmitResult::Accepted(task) = supervisor.submit(spec).expect("submit Task") else {
        panic!("expected accepted Task");
    };
    supervisor.start(task.task_id).expect("start Task");
    (supervisor, task.task_id)
}

fn create(path: &str, contents: &[u8]) -> FilesystemWriteOperation {
    FilesystemCatalog::new()
        .prepare_create(path.to_owned(), contents.to_vec())
        .ok()
        .expect("prepare create")
}

#[test]
fn catalog_accepts_bounded_normalized_create() {
    let catalog = FilesystemCatalog::new();
    assert!(
        catalog
            .prepare_create(
                "/workspace/output/result.txt".to_owned(),
                b"result".to_vec()
            )
            .is_ok()
    );
}

#[test]
fn catalog_rejects_invalid_paths_and_oversized_contents() {
    let catalog = FilesystemCatalog::new();
    for path in [
        "",
        "/",
        "workspace/output",
        "/workspace/../secret",
        "/workspace//output",
        "/workspace/\0output",
    ] {
        assert!(matches!(
            catalog.prepare_create(path.to_owned(), Vec::new()),
            Err(FilesystemAdapterError::InvalidOperation)
        ));
    }
    assert!(matches!(
        catalog.prepare_create(
            format!("/{}", "a".repeat(MAX_FILESYSTEM_PATH_BYTES)),
            Vec::new(),
        ),
        Err(FilesystemAdapterError::InvalidOperation)
    ));
    assert!(matches!(
        catalog.prepare_create(
            "/workspace/output/result.txt".to_owned(),
            vec![0; MAX_CREATE_BYTES + 1],
        ),
        Err(FilesystemAdapterError::InvalidOperation)
    ));
}

#[test]
fn creates_a_new_file_and_never_overwrites() {
    let (disk, mut gate) = disk();
    let (mut supervisor, task_id) =
        running_supervisor(vec![write_capability("/workspace/output")], &[]);

    let Ok(ExecutionOutcome::Executed(executed)) = gate.request(
        &mut supervisor,
        task_id,
        create("/workspace/output/result.txt", b"first result"),
        Duration::from_secs(30),
    ) else {
        panic!("expected execution");
    };
    assert_eq!(executed.output.bytes_written(), 12);
    assert_eq!(
        disk.borrow().files["workspace/output/result.txt"],
        b"first result"
    );

    assert!(matches!(
        gate.request(
            &mut supervisor,
            task_id,
            create("/workspace/output/result.txt", b"replacement"),
            Duration::from_secs(30),
        ),
        Err(ExecutionError::Adapter(
            FilesystemAdapterError::CreateFailed
        ))
    ));
    assert_eq!(
        disk.borrow().files["workspace/output/result.txt"],
        b"first result"
    );
}

#[test]
fn approval_retains_exact_operation_without_writing_early() {
    let (disk, mut gate) = disk();
    let (mut supervisor, task_id) = running_supervisor(
        vec![write_capability("/workspace/output")],
        &["filesystem.write"],
    );

    let Ok(ExecutionOutcome::ApprovalRequired(request)) = gate.request(
        &mut supervisor,
        task_id,
        create("/workspace/output/approved.txt", b"approved bytes"),
        Duration::from_secs(30),
    ) else {
        panic!("expected approval request");
    };
    assert!(disk.borrow().files.is_empty());

    let executed = gate
        .approve_and_execute(&mut supervisor, request.approval_id)
        .ok()
        .expect("approve and execute");

    assert_eq!(executed.output.bytes_written(), 14);
    assert_eq!(
        disk.borrow().files["workspace/output/approved.txt"],
        b"approved bytes"
    );
    assert_eq!(gate.pending_count(), 0);
}

#[test]
fn waiting_for_approval_cannot_reset_the_wall_time_of_a_creation() {
    let (disk, mut gate) = disk();
    let (mut supervisor, task_id) = running_supervisor_with_wall_time(
        vec![write_capability("/workspace/output")],
        &["filesystem.write"],
        1,
    );
    let Ok(ExecutionOutcome::ApprovalRequired(request)) = gate.request(
        &mut supervisor,
        task_id,
        create("/workspace/output/expired.txt", b"must not be written"),
        Duration::from_secs(30),
    ) else {
        panic!("expected approval request");
    };
    pause(1_100);

    assert!(matches!(
        gate.approve_and_execute(&mut supervisor, request.approval_id),
        Err(ExecutionError::Adapter(
            FilesystemAdapterError::BudgetExceeded
        ))
    ));
    assert!(disk.borrow().files.is_empty());
    assert_eq!(gate.pending_count(), 0);
}

#[test]
fn denies_prefix_sibling_and_read_only_capabilities() {
    let (disk, mut gate) = disk();
    let (mut supervisor, task_id) =
        running_supervisor(vec![write_capability("/workspace/output")], &[]);

    assert!(matches!(
        gate.request(
            &mut supervisor,
            task_id,
            create("/workspace/output-private/result.txt", b"denied"),
            Duration::from_secs(30),
        ),
        Ok(ExecutionOutcome::Denied { .. })
    ));

    let (mut supervisor, task_id) = running_supervisor(
        vec![FileCapability {
            path: "/workspace/output".to_owned(),
            access: FileAccess::Read,
        }],
        &[],
    );
    assert!(matches!(
        gate.request(
            &mut supervisor,
            task_id,
            create("/workspace/output/read-only.txt", b"denied"),
            Duration::from_secs(30),
        ),
        Ok(ExecutionOutcome::Denied { .. })
    ));
    assert!(disk.borrow().files.is_empty());
}

#[test]
fn a_failed_write_has_its_own_category() {
    let (disk, mut gate) = disk();
    disk.borrow_mut().fail_writes = true;
    let (mut supervisor, task_id) =
        running_supervisor(vec![write_capability("/workspace/output")], &[]);

    assert!(matches!(
        gate.request(
            &mut supervisor,
            task_id,
            create("/workspace/output/result.txt", b"lost"),
            Duration::from_secs(30),
        ),
        Err(ExecutionError::Adapter(FilesystemAdapterError::WriteFailed))
    ));
}

#[test]
fn a_creation_without_a_task_does_not_begin() {
    assert_eq!(
        FileCreation::begin(create("/workspace/output/result.txt", b"x"), 0).err(),
        Some(FilesystemAdapterError::ScopeMismatch)
    );
}

#[test]
fn roots_are_absolute_and_not_the_host_root() {
    assert!(is_valid_root_path(b"/srv/root"));
    assert!(!is_valid_root_path(b"srv/root"));
    assert!(!is_valid_root_path(b"/"));
}
