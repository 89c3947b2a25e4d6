//! Handlers that run one fixed executable.

use std::cell::RefCell;
use std::rc::Rc;

use aios::execution::ExecutionOutcome;
use aios::ids::TaskId;
use aios::process::arguments::{ProcessArgumentPolicy, is_valid_environment_name};
use aios::process::bubblewrap::{BubblewrapProcessToolBuilder, SandboxReport};
use aios::process::cgroup::{
    CgroupReport, CgroupResourceBudget, CgroupRootReport, CgroupV2Manager, CleanupStep,
    TaskCgroup, cleanup_step, control_files, current_cgroup_directory, limit_writes,
    read_keyed_u64,
};
use aios::process::descriptor::{mount_order, validate_capabilities};
use aios::process::facts::{
    DirectoryIdentity, ExecutableIdentity, FileFacts, PathReport, canonical_sandbox_root,
    canonical_scratch_directory, validate_read_only_directory, validate_sandbox_mount_points,
};
use aios::process::handler::{
    CheckedRun, ProcessToolBuilder, ProcessToolHandler, RunReport, finished, redacted,
};
use aios::process::sandbox::{
    bubblewrap_arguments, canonical_sandbox_executable, validate_sandbox_absolute_path,
};
use aios::process::scratch::{TaskScratch, TaskScratchManager, validate_task_scratch_identity};
use aios::process::wait::{LimitCheck, ProcessWait, WaitAction, WaitEvent, WaitStep};
use aios::process::{HostPlatform, MAX_ARGUMENT_BYTES, MAX_ARGUMENTS, ProcessAdapterError};
use aios::supervisor::{SubmitResult, TaskSupervisor};
use aios::task::{
    ApprovalPolicy, Budget, CapabilitySet, FileAccess, FileCapability, NetworkPolicy, TaskSpec,
};
use aios::time::Duration;
use aios::tool::{ToolAdapterBuilder, ToolFailure, ToolHandler, ToolOutput};

struct Policy<F>(F);

impl<F> ProcessArgumentPolicy for Policy<F>
where
    F: Fn(&[String]) -> bool,
{
    fn allows(&self, arguments: &[String]) -> bool {
        (self.0)(arguments)
    }
}

type AnyPolicy = Policy<fn(&[String]) -> bool>;

fn everything(_: &[String]) -> bool {
    true
}

fn nothing_dynamic(arguments: &[String]) -> bool {
    arguments.is_empty()
}

fn facts(mode: u32, inode: u64) -> FileFacts {
    FileFacts {
        symlink: false,
        directory: false,
        regular: false,
        mode,
        device: 1,
        inode,
        length: 0,
        links: 1,
    }
}

fn directory(mode: u32, inode: u64) -> Option<FileFacts> {
    Some(FileFacts {
        directory: true,
        ..facts(mode, inode)
    })
}

fn file(mode: u32, inode: u64) -> Option<FileFacts> {
    Some(FileFacts {
        regular: true,
        ..facts(mode, inode)
    })
}

fn link(inode: u64) -> Option<FileFacts> {
    Some(FileFacts {
        symlink: true,
        ..facts(0o777, inode)
    })
}

fn report(path: &str, found: Option<FileFacts>) -> PathReport {
    PathReport {
        canonical: Some(path.as_bytes().to_vec()),
        entry: found,
        target: found,
    }
}

fn texts(words: &[Vec<u8>]) -> Vec<String> {
    words
        .iter()
        .map(|word| String::from_utf8(word.clone()).expect("UTF-8 word"))
        .collect()
}

fn bytes(text: &str) -> Vec<u8> {
    text.as_bytes().to_vec()
}

fn builder(policy: fn(&[String]) -> bool) -> ProcessToolBuilder<AnyPolicy> {
    ProcessToolBuilder::new(bytes("/bin/echo"), bytes("/"), Policy(policy))
}

fn echo() -> PathReport {
    report("/bin/echo", file(0o755, 10))
}

fn host_root() -> PathReport {
    report("/", directory(0o755, 2))
}

fn no_cgroup() -> CgroupReport {
    CgroupReport {
        directory: None,
        files_present: false,
        memory_max: None,
        swap_max: None,
        oom_group: None,
        cpu_stat: None,
        memory_events: None,
    }
}

fn observed() -> RunReport {
    RunReport {
        executable: file(0o755, 10),
        directory: directory(0o755, 2),
        bubblewrap: None,
        root: None,
        entries: Vec::new(),
        cgroup: no_cgroup(),
        launcher: None,
    }
}

fn handler(builder: ProcessToolBuilder<AnyPolicy>) -> ProcessToolHandler<AnyPolicy> {
    builder
        .build(&echo(), &host_root())
        .ok()
        .expect("build handler")
}

// ------------------------------------------------------------------- sandbox

#[test]
fn bubblewrap_plan_denies_network_and_exposes_only_declared_mounts() {
    let arguments = bubblewrap_arguments(
        b"/opt/aios/rootfs",
        b"/var/lib/aios/tasks/task-1",
        b"/usr/bin/tool",
    );
    let arguments = texts(&arguments);

    assert_eq!(
        arguments,
        [
            "--unshare-all",
            "--unshare-user",
            "--disable-userns",
            "--die-with-parent",
            "--new-session",
            "--cap-drop",
            "ALL",
            "--ro-bind",
            "/opt/aios/rootfs",
            "/",
            "--proc",
            "/proc",
            "--dev",
            "/dev",
            "--tmpfs",
            "/tmp",
            "--bind",
            "/var/lib/aios/tasks/task-1",
            "/workspace",
            "--chdir",
            "/workspace",
            "--",
            "/usr/bin/tool",
        ]
    );
    assert!(!arguments.iter().any(|argument| argument == "--share-net"));
    assert!(!arguments.iter().any(|argument| argument == "/run"));
}

#[test]
fn sandbox_executable_path_must_be_bounded_absolute_and_traversal_free() {
    assert!(validate_sandbox_absolute_path(b"/usr/bin/tool").is_ok());
    assert!(validate_sandbox_absolute_path(b"usr/bin/tool").is_err());
    assert!(validate_sandbox_absolute_path(b"/usr/../bin/tool").is_err());
}

#[test]
fn sandbox_paths_are_bounded_and_hold_no_nul() {
    assert!(validate_sandbox_absolute_path(&vec![b'/'; 4_096]).is_ok());
    assert!(validate_sandbox_absolute_path(&vec![b'/'; 4_097]).is_err());
    assert!(validate_sandbox_absolute_path(b"/usr/\0tool").is_err());
}

#[test]
fn sandboxes_reject_the_host_root_overlapping_scratch_and_escapes() {
    assert_eq!(
        canonical_sandbox_root(b"/", &host_root()),
        Err(ProcessAdapterError::InvalidSandbox)
    );
    let root = b"/srv/root";
    assert_eq!(
        canonical_scratch_directory(
            b"/srv/root/scratch",
            &report("/srv/root/scratch", directory(0o700, 5)),
            root
        ),
        Err(ProcessAdapterError::InvalidSandbox)
    );
    assert_eq!(
        canonical_scratch_directory(b"/srv", &report("/srv", directory(0o700, 5)), root),
        Err(ProcessAdapterError::InvalidSandbox)
    );
    assert_eq!(
        canonical_scratch_directory(
            b"/srv/scratch",
            &report("/srv/scratch", directory(0o700, 5)),
            root
        ),
        Ok(bytes("/srv/scratch"))
    );
    assert!(
        canonical_sandbox_executable(root, b"/usr/bin/tool", &report("/bin/true", file(0o755, 6)))
            .is_err()
    );
    let inside = canonical_sandbox_executable(
        root,
        b"/usr/bin/tool",
        &report("/srv/root/bin/busybox", file(0o755, 6)),
    )
    .ok()
    .expect("executable inside the root");
    assert_eq!(inside.host_path, b"/srv/root/bin/busybox");
    assert_eq!(inside.sandbox_path, b"/bin/busybox");
    assert_eq!(
        inside.identity,
        ExecutableIdentity {
            device: 1,
            inode: 6
        }
    );
}

#[test]
fn mount_points_are_directories_of_their_own() {
    let ready = directory(0o755, 3);
    assert_eq!(
        validate_sandbox_mount_points(&[ready, ready, ready, ready]),
        Ok(())
    );
    for broken in [None, link(4), file(0o644, 4)] {
        assert_eq!(
            validate_sandbox_mount_points(&[ready, ready, ready, broken]),
            Err(ProcessAdapterError::InvalidSandbox)
        );
    }
}

#[test]
fn bubblewrap_builder_fails_closed_outside_linux() {
    let result = BubblewrapProcessToolBuilder::new(
        bytes("/usr/bin/bwrap"),
        bytes("/opt/aios/rootfs"),
        bytes("/usr/bin/tool"),
        bytes("/var/lib/aios/tasks/task-1"),
        Policy(everything),
    )
    .build(HostPlatform::Other, &sandbox_report());

    assert!(matches!(
        result,
        Err(ProcessAdapterError::UnsupportedPlatform)
    ));
}

const SCRATCH: &str = "/var/lib/aios/tasks/00000000-0000-0000-0000-000000000007";

fn sandbox_report() -> SandboxReport {
    let mount = directory(0o555, 30);
    SandboxReport {
        bubblewrap: report("/usr/bin/bwrap", file(0o755, 20)),
        root: report("/opt/aios/rootfs", directory(0o555, 21)),
        mounts: [mount, mount, mount, mount],
        scratch: report(SCRATCH, directory(0o700, 22)),
        executable: report("/opt/aios/rootfs/usr/bin/tool", file(0o555, 23)),
        launcher: report("/usr/bin/launch", file(0o755, 24)),
    }
}

fn scratch() -> TaskScratch {
    let root = report("/var/lib/aios/tasks", directory(0o700, 40));
    let manager = TaskScratchManager::new(b"/var/lib/aios/tasks", &root)
        .ok()
        .expect("open scratch root");
    manager
        .create(
            TaskId { value: 7 },
            &root,
            &report(SCRATCH, directory(0o700, 22)),
        )
        .ok()
        .expect("create scratch")
}

#[test]
fn sandboxed_runs_hold_the_scratch_directory_to_its_identity() {
    let handler = BubblewrapProcessToolBuilder::new_for_task(
        bytes("/usr/bin/bwrap"),
        bytes("/opt/aios/rootfs"),
        bytes("/usr/bin/tool"),
        &scratch(),
        Policy(everything),
    )
    .fixed_arguments(vec!["--fixed".to_owned()])
    .build(HostPlatform::Linux, &sandbox_report())
    .ok()
    .expect("build sandboxed handler");
    let paths = handler.observed_paths();
    assert_eq!(paths.executable, b"/opt/aios/rootfs/usr/bin/tool");
    assert_eq!(paths.bubblewrap, Some(bytes("/usr/bin/bwrap")));
    assert_eq!(paths.cgroup, None);

    let seen = RunReport {
        executable: file(0o555, 23),
        directory: directory(0o700, 22),
        bubblewrap: file(0o755, 20),
        root: directory(0o555, 21),
        ..observed()
    };
    let run = handler
        .run_checked(vec!["dynamic".to_owned()], &seen)
        .ok()
        .expect("plan run");
    assert_eq!(run.program, b"/usr/bin/bwrap");
    assert_eq!(run.directory, b"/");
    let words = texts(&run.arguments);
    assert_eq!(
        words[words.len() - 4..],
        ["--", "/usr/bin/tool", "--fixed", "dynamic"]
    );
    for replaced in [directory(0o700, 99), directory(0o755, 22), None] {
        let changed = RunReport {
            executable: file(0o555, 23),
            directory: replaced,
            bubblewrap: file(0o755, 20),
            root: directory(0o555, 21),
            ..observed()
        };
        assert!(matches!(
            handler.run_checked(Vec::new(), &changed),
            Err(ProcessAdapterError::InvalidSandbox)
        ));
    }
    let other_bubblewrap = RunReport {
        executable: file(0o555, 23),
        directory: directory(0o700, 22),
        bubblewrap: file(0o755, 99),
        ..observed()
    };
    assert!(matches!(
        handler.run_checked(Vec::new(), &other_bubblewrap),
        Err(ProcessAdapterError::ExecutableChanged)
    ));
}

#[test]
fn scratch_directories_are_new_owner_only_and_named_after_their_task() {
    let root = report("/var/lib/aios/tasks", directory(0o700, 40));
    let manager = TaskScratchManager::new(b"/var/lib/aios/tasks", &root)
        .ok()
        .expect("open scratch root");
    let task_id = TaskId { value: 7 };
    let planned = manager.plan(task_id, &root).expect("plan scratch");
    assert_eq!(
        planned,
        b"/var/lib/aios/tasks/00000000-0000-0000-0000-000000000007"
    );
    assert_eq!(manager.root_directory(), b"/var/lib/aios/tasks");
    let path = String::from_utf8(planned.clone()).expect("UTF-8 path");
    let scratch = manager
        .create(task_id, &root, &report(&path, directory(0o700, 41)))
        .ok()
        .expect("create scratch");
    assert_eq!(scratch.task_id(), task_id);
    assert_eq!(scratch.directory(), planned);
    let elsewhere = report("/var/lib/aios/tasks/other", directory(0o700, 41));
    assert!(matches!(
        manager.create(task_id, &root, &elsewhere),
        Err(ProcessAdapterError::InvalidSandbox)
    ));
    assert_eq!(
        scratch.identity(),
        DirectoryIdentity {
            device: 1,
            inode: 41
        }
    );
    assert_eq!(
        validate_task_scratch_identity(directory(0o700, 41), scratch.identity()),
        Ok(())
    );
    assert_eq!(
        validate_task_scratch_identity(directory(0o755, 41), scratch.identity()),
        Err(ProcessAdapterError::InvalidSandbox)
    );
    assert_eq!(
        validate_task_scratch_identity(directory(0o700, 42), scratch.identity()),
        Err(ProcessAdapterError::InvalidSandbox)
    );
    assert!(
        manager
            .create(
                task_id,
                &root,
                &report("/elsewhere/scratch", directory(0o700, 41))
            )
            .is_err()
    );
}

#[test]
fn scratch_roots_are_private_and_stay_the_same() {
    for unsafe_root in [directory(0o755, 40), link(40), file(0o600, 40), None] {
        assert!(
            TaskScratchManager::new(b"/tasks", &report("/tasks", unsafe_root)).is_err()
        );
    }
    let root = report("/tasks", directory(0o700, 40));
    let manager = TaskScratchManager::new(b"/tasks", &root)
        .ok()
        .expect("open scratch root");
    let replaced = report("/tasks", directory(0o700, 99));
    assert_eq!(
        manager.plan(TaskId { value: 1 }, &replaced),
        Err(ProcessAdapterError::InvalidSandbox)
    );
    assert_eq!(
        validate_read_only_directory(directory(0o755, 1)),
        Err(ProcessAdapterError::InvalidSandbox)
    );
}

// ------------------------------------------------------------------- handler

#[test]
fn requires_absolute_existing_paths_and_bounded_configuration() {
    let relative = ProcessToolBuilder::new(bytes("bin/echo"), bytes("/"), Policy(everything))
        .build(&echo(), &host_root());
    assert!(matches!(relative, Err(ProcessAdapterError::InvalidConfig)));

    let relative_directory =
        ProcessToolBuilder::new(bytes("/bin/echo"), bytes("."), Policy(everything))
            .build(&echo(), &host_root());
    assert!(matches!(
        relative_directory,
        Err(ProcessAdapterError::InvalidConfig)
    ));

    let missing = builder(everything).build(&PathReport::missing(), &host_root());
    assert!(matches!(missing, Err(ProcessAdapterError::InvalidConfig)));

    let invalid_timeout = builder(everything)
        .timeout(Duration::from_nanos(0))
        .build(&echo(), &host_root());
    assert!(matches!(
        invalid_timeout,
        Err(ProcessAdapterError::InvalidConfig)
    ));
    assert!(
        builder(everything)
            .timeout(Duration::from_secs(3_601))
            .build(&echo(), &host_root())
            .is_err()
    );
}

#[test]
fn rejects_invalid_or_policy_denied_arguments_before_spawn() {
    let denying = handler(builder(nothing_dynamic));

    assert!(matches!(
        denying.run_checked(vec!["denied".to_owned()], &observed()),
        Err(ProcessAdapterError::ArgumentsDenied)
    ));
    assert!(matches!(
        denying.run_checked(vec![String::new(); MAX_ARGUMENTS + 1], &observed()),
        Err(ProcessAdapterError::InvalidArguments)
    ));
    assert!(matches!(
        denying.run_checked(vec!["x".repeat(MAX_ARGUMENT_BYTES + 1)], &observed()),
        Err(ProcessAdapterError::InvalidArguments)
    ));
    assert!(matches!(
        denying.run_checked(vec!["before\0after".to_owned()], &observed()),
        Err(ProcessAdapterError::InvalidArguments)
    ));

    let fixed = handler(builder(everything).fixed_arguments(vec![String::new(); MAX_ARGUMENTS]));
    assert!(matches!(
        fixed.run_checked(vec!["one-too-many".to_owned()], &observed()),
        Err(ProcessAdapterError::InvalidArguments)
    ));
}

#[test]
fn rejects_duplicate_or_invalid_environment_entries() {
    let duplicate = builder(everything)
        .environment(vec![
            ("NAME".to_owned(), "first".to_owned()),
            ("NAME".to_owned(), "second".to_owned()),
        ])
        .build(&echo(), &host_root());
    assert!(matches!(duplicate, Err(ProcessAdapterError::InvalidConfig)));

    let invalid = builder(everything)
        .environment(vec![("BAD=NAME".to_owned(), "value".to_owned())])
        .build(&echo(), &host_root());
    assert!(matches!(invalid, Err(ProcessAdapterError::InvalidConfig)));
}

#[test]
fn plans_an_explicit_program_without_a_shell() {
    let run = handler(
        builder(everything)
            .fixed_arguments(vec!["--fixed".to_owned()])
            .environment(vec![(
                "AIOS_PROCESS_TEST".to_owned(),
                "configured".to_owned(),
            )])
            .timeout(Duration::from_millis(20)),
    )
    .run_checked(vec!["literal;$PATH".to_owned()], &observed())
    .ok()
    .expect("plan run");

    assert_eq!(run.program, b"/bin/echo");
    assert_eq!(texts(&run.arguments), ["--fixed", "literal;$PATH"]);
    assert_eq!(run.directory, b"/");
    assert_eq!(
        run.environment,
        vec![("AIOS_PROCESS_TEST".to_owned(), "configured".to_owned())]
    );
    assert_eq!(run.deadline(5), Ok(20_000_005));
    assert_eq!(
        run.deadline(u128::MAX),
        Err(ProcessAdapterError::InvalidConfig)
    );
}

#[test]
fn a_replaced_executable_does_not_run() {
    let handler = handler(builder(everything));
    for replaced in [file(0o755, 11), file(0o644, 10), directory(0o755, 10), None] {
        let seen = RunReport {
            executable: replaced,
            ..observed()
        };
        assert!(matches!(
            handler.run_checked(Vec::new(), &seen),
            Err(ProcessAdapterError::ExecutableChanged)
        ));
    }
}

#[test]
fn environment_names_are_identifiers() {
    for name in ["A", "_a1", "PATH"] {
        assert!(is_valid_environment_name(name));
    }
    let long = "A".repeat(129);
    for name in ["", "1A", "A-B", "A=B", long.as_str()] {
        assert!(!is_valid_environment_name(name));
    }
}

// ---------------------------------------------------------------------- wait

fn polled(exit: Option<bool>, limit: LimitCheck) -> WaitEvent {
    WaitEvent::Polled { exit, limit }
}

#[test]
fn waits_enforce_timeout_and_nonzero_exit() {
    let wait = ProcessWait::start(20_000_000);
    assert_eq!(
        wait.next(polled(Some(true), LimitCheck::Within), 0),
        WaitStep::Done(Ok(()))
    );
    assert_eq!(
        wait.next(polled(Some(false), LimitCheck::Within), 0),
        WaitStep::Done(Err(ProcessAdapterError::ExitFailed))
    );
    let WaitStep::Continue(waiting) = wait.next(polled(None, LimitCheck::Within), 18_000_000)
    else {
        panic!("expected to go on waiting");
    };
    assert_eq!(
        waiting.action,
        WaitAction::Poll {
            pause: Duration::from_millis(2)
        }
    );
    let WaitStep::Continue(killing) = waiting.next(polled(None, LimitCheck::Within), 20_000_000)
    else {
        panic!("expected to kill");
    };
    assert_eq!(killing.action, WaitAction::Kill);
    let WaitStep::Continue(reaping) = killing.next(WaitEvent::Killed, 20_000_001) else {
        panic!("expected to reap");
    };
    assert_eq!(
        reaping.next(WaitEvent::Reaped, 20_000_002),
        WaitStep::Done(Err(ProcessAdapterError::TimedOut))
    );
    assert_eq!(
        reaping.next(WaitEvent::ReapFailed, 20_000_002),
        WaitStep::Done(Err(ProcessAdapterError::WaitFailed))
    );
    assert_eq!(
        wait.next(WaitEvent::PollFailed, 0),
        WaitStep::Done(Err(ProcessAdapterError::WaitFailed))
    );
}

#[test]
fn reached_limits_end_a_run() {
    let wait = ProcessWait::start(1_000);
    assert_eq!(
        wait.next(polled(Some(true), LimitCheck::Reached), 0),
        WaitStep::Done(Err(ProcessAdapterError::ResourceLimitExceeded))
    );
    let WaitStep::Continue(killing) = wait.next(polled(None, LimitCheck::Reached), 0) else {
        panic!("expected to kill");
    };
    assert_eq!(killing.verdict, ProcessAdapterError::ResourceLimitExceeded);
    let WaitStep::Continue(checking) = killing.next(WaitEvent::KillFailed, 0) else {
        panic!("expected to look again");
    };
    assert_eq!(
        checking.next(polled(Some(false), LimitCheck::Within), 0),
        WaitStep::Done(Err(ProcessAdapterError::ResourceLimitExceeded))
    );
    assert_eq!(
        checking.next(polled(None, LimitCheck::Within), 0),
        WaitStep::Done(Err(ProcessAdapterError::WaitFailed))
    );
}

/// A tool that runs the program of a handler, without a host.
struct Program {
    handler: ProcessToolHandler<AnyPolicy>,
    started: Rc<RefCell<Vec<CheckedRun>>>,
    exit: bool,
}

impl ToolHandler for Program {
    fn execute(&mut self, arguments: Vec<String>) -> Result<ToolOutput, ToolFailure> {
        let run = self
            .handler
            .run_checked(arguments, &observed())
            .map_err(redacted)?;
        let deadline = run.deadline(0).map_err(redacted)?;
        self.started.borrow_mut().push(run);
        let WaitStep::Done(waited) = ProcessWait::start(deadline)
            .next(polled(Some(self.exit), LimitCheck::Within), 1)
        else {
            panic!("the program exits at once");
        };
        finished(waited).map_err(redacted)
    }
}

fn run_task(exit: bool) -> (Rc<RefCell<Vec<CheckedRun>>>, Option<Vec<u8>>) {
    let started = Rc::new(RefCell::new(Vec::new()));
    let mut builder = ToolAdapterBuilder::default();
    builder
        .register(
            "run_process",
            "process_runner",
            "process.run",
            Program {
                handler: handler(super_builder()),
                started: Rc::clone(&started),
                exit,
            },
        )
        .expect("register process Tool");
    let (catalog, mut gate) = builder.build();

    let mut supervisor = TaskSupervisor::default();
    let SubmitResult::Accepted(task) = supervisor
        .submit(TaskSpec {
            idempotency_key: "process-adapter-test".to_owned(),
            goal: "Run one fixed process".to_owned(),
            capabilities: CapabilitySet {
                filesystem: Vec::new(),
                network: NetworkPolicy::Deny,
                tools: vec!["process_runner".to_owned()],
            },
            budget: Budget {
                wall_time_seconds: 60,
                memory_bytes: 64 * 1024 * 1024,
                max_parallel_agents: 1,
            },
            approval: ApprovalPolicy {
                required_for: Vec::new(),
            },
        })
        .expect("submit Task")
    else {
        panic!("expected accepted Task");
    };
    supervisor.start(task.task_id).expect("start Task");
    let operation = catalog
        .prepare("run_process", Vec::new())
        .ok()
        .expect("prepare process Tool");
    let result = gate.request(
        &mut supervisor,
        task.task_id,
        operation,
        Duration::from_secs(30),
    );
    let output = match result {
        Ok(ExecutionOutcome::Executed(executed)) => Some(executed.output.into_bytes()),
        _ => None,
    };
    (started, output)
}

fn super_builder() -> ProcessToolBuilder<AnyPolicy> {
    builder(nothing_dynamic)
}

#[test]
fn integrates_with_tool_catalog_and_execution_gate() {
    let (started, output) = run_task(true);
    assert_eq!(output, Some(Vec::new()));
    assert_eq!(started.borrow()[0].program, b"/bin/echo");

    let (started, output) = run_task(false);
    assert_eq!(output, None);
    assert_eq!(started.borrow().len(), 1);
}

#[test]
fn failures_are_redacted_but_for_used_up_budgets() {
    assert_eq!(
        redacted(ProcessAdapterError::ResourceLimitExceeded),
        ToolFailure::budget_exceeded()
    );
    assert_eq!(
        redacted(ProcessAdapterError::ExitFailed),
        ToolFailure::new()
    );
    assert_eq!(
        ProcessAdapterError::ExitFailed.display(),
        "process exited unsuccessfully"
    );
}

// ------------------------------------------------------------------- cgroups

#[test]
fn validates_resource_budget_bounds() {
    assert!(CgroupResourceBudget::new(Duration::from_secs(1), 1).is_ok());
    assert!(matches!(
        CgroupResourceBudget::new(Duration::from_nanos(0), 1),
        Err(ProcessAdapterError::InvalidConfig)
    ));
    assert!(matches!(
        CgroupResourceBudget::new(Duration::from_secs(1), 0),
        Err(ProcessAdapterError::InvalidConfig)
    ));
    assert!(matches!(
        CgroupResourceBudget::new(Duration::from_secs(3_601), 1),
        Err(ProcessAdapterError::InvalidConfig)
    ));
}

fn cgroup_root() -> CgroupRootReport {
    CgroupRootReport {
        path: report("/sys/fs/cgroup/aios", directory(0o755, 50)),
        files_present: true,
        controllers: Some("cpu memory pids\n".to_owned()),
        subtree_control: Some("memory cpu\n".to_owned()),
        processes: Some(String::new()),
        current: Some(bytes("/sys/fs/cgroup/aios/runtime")),
    }
}

fn task_cgroup(task: u128) -> TaskCgroup {
    let manager = CgroupV2Manager::new(HostPlatform::Linux, b"/sys/fs/cgroup/aios", &cgroup_root())
        .ok()
        .expect("open cgroup root");
    let task_id = TaskId { value: task };
    assert!(manager.plan(task_id, &cgroup_root()).is_ok());
    let budget = CgroupResourceBudget::new(Duration::from_millis(100), 1_048_576)
        .ok()
        .expect("resource budget");
    manager
        .create(task_id, budget, true, directory(0o755, 51))
        .ok()
        .expect("create cgroup")
}

#[test]
fn new_cgroups_are_limited_to_their_budget() {
    assert_eq!(
        control_files(),
        [
            "cgroup.procs",
            "cgroup.kill",
            "cgroup.events",
            "cpu.stat",
            "memory.current",
            "memory.events",
            "memory.max",
            "memory.swap.max",
            "memory.oom.group",
        ]
    );
    let budget = CgroupResourceBudget::new(Duration::from_secs(1), 1_048_576)
        .ok()
        .expect("resource budget");
    assert_eq!(
        limit_writes(&budget),
        [
            ("memory.max".to_owned(), "1048576".to_owned()),
            ("memory.swap.max".to_owned(), "0".to_owned()),
            ("memory.oom.group".to_owned(), "1".to_owned()),
        ]
    );
}

#[test]
fn cgroup_roots_are_delegated_directories() {
    let manager = CgroupV2Manager::new(HostPlatform::Linux, b"/sys/fs/cgroup/aios", &cgroup_root())
        .ok()
        .expect("open cgroup root");
    assert_eq!(manager.root_directory(), b"/sys/fs/cgroup/aios");
    assert!(matches!(
        CgroupV2Manager::new(HostPlatform::Other, b"/sys/fs/cgroup/aios", &cgroup_root()),
        Err(ProcessAdapterError::UnsupportedPlatform)
    ));
    for broken in [
        CgroupRootReport {
            controllers: Some("memory".to_owned()),
            ..cgroup_root()
        },
        CgroupRootReport {
            subtree_control: None,
            ..cgroup_root()
        },
        CgroupRootReport {
            processes: Some("17\n".to_owned()),
            ..cgroup_root()
        },
        CgroupRootReport {
            path: report("/elsewhere/aios", directory(0o755, 50)),
            ..cgroup_root()
        },
        CgroupRootReport {
            current: Some(bytes("/sys/fs/cgroup/aios")),
            ..cgroup_root()
        },
    ] {
        assert!(matches!(
            CgroupV2Manager::new(HostPlatform::Linux, b"/sys/fs/cgroup/aios", &broken),
            Err(ProcessAdapterError::InvalidResourceControl)
        ));
    }
}

fn limited() -> CgroupReport {
    CgroupReport {
        directory: directory(0o755, 51),
        files_present: true,
        memory_max: Some("1048576\n".to_owned()),
        swap_max: Some("0\n".to_owned()),
        oom_group: Some("1\n".to_owned()),
        cpu_stat: Some(bytes("usage_usec 0\nuser_usec 0\n")),
        memory_events: Some(bytes("low 0\nhigh 0\nmax 0\noom 0\noom_kill 0\n")),
    }
}

#[test]
fn cgroups_tell_whether_a_limit_was_reached() {
    let cgroup = task_cgroup(7);
    assert_eq!(cgroup.task_id(), TaskId { value: 7 });
    assert_eq!(cgroup.budget().memory_bytes(), 1_048_576);
    assert_eq!(cgroup.budget().cpu_time(), Duration::from_millis(100));
    assert_eq!(cgroup.validate(&limited()), Ok(()));
    assert_eq!(cgroup.limit_reached(&limited()), Ok(false));
    assert_eq!(
        cgroup.limit_reached(&CgroupReport {
            cpu_stat: Some(bytes("usage_usec 100000\n")),
            ..limited()
        }),
        Ok(true)
    );
    assert_eq!(
        cgroup.limit_reached(&CgroupReport {
            memory_events: Some(bytes("max 0\noom_kill 1\n")),
            ..limited()
        }),
        Ok(true)
    );
    assert_eq!(
        cgroup.limit_reached(&CgroupReport {
            cpu_stat: Some(bytes("usage_usec lots\n")),
            ..limited()
        }),
        Err(ProcessAdapterError::InvalidResourceControl)
    );
    assert_eq!(
        cgroup.validate(&CgroupReport {
            directory: directory(0o755, 99),
            ..limited()
        }),
        Err(ProcessAdapterError::InvalidResourceControl)
    );
}

#[test]
fn sandboxed_runs_enter_the_cgroup_of_their_task() {
    let handler = BubblewrapProcessToolBuilder::new_for_task(
        bytes("/usr/bin/bwrap"),
        bytes("/opt/aios/rootfs"),
        bytes("/usr/bin/tool"),
        &scratch(),
        Policy(everything),
    )
    .task_cgroup(&task_cgroup(7), bytes("/usr/bin/launch"))
    .build(HostPlatform::Linux, &sandbox_report())
    .ok()
    .expect("build controlled handler");
    let seen = RunReport {
        executable: file(0o555, 23),
        directory: directory(0o700, 22),
        bubblewrap: file(0o755, 20),
        cgroup: limited(),
        launcher: file(0o755, 24),
        ..observed()
    };
    let run = handler
        .run_checked(Vec::new(), &seen)
        .ok()
        .expect("plan run");
    assert_eq!(run.program, b"/usr/bin/launch");
    let words = texts(&run.arguments);
    assert!(words[0].starts_with("/sys/fs/cgroup/aios/"));
    assert!(words[0].ends_with("/cgroup.procs"));
    assert_eq!(words[1..4], ["1", "51", "/usr/bin/bwrap"]);
    assert!(matches!(
        handler.run_checked(
            Vec::new(),
            &RunReport {
                cgroup: no_cgroup(),
                executable: file(0o555, 23),
                directory: directory(0o700, 22),
                bubblewrap: file(0o755, 20),
                ..observed()
            }
        ),
        Err(ProcessAdapterError::InvalidResourceControl)
    ));

    let mismatched = BubblewrapProcessToolBuilder::new_for_task(
        bytes("/usr/bin/bwrap"),
        bytes("/opt/aios/rootfs"),
        bytes("/usr/bin/tool"),
        &scratch(),
        Policy(everything),
    )
    .task_cgroup(&task_cgroup(8), bytes("/usr/bin/launch"))
    .build(HostPlatform::Linux, &sandbox_report());
    assert!(matches!(
        mismatched,
        Err(ProcessAdapterError::InvalidResourceControl)
    ));
}

#[test]
fn control_files_are_read_by_key() {
    assert_eq!(read_keyed_u64(b"a 1\nb 2\n", b"b"), Ok(2));
    assert!(read_keyed_u64(b"a 1\n", b"b").is_err());
    assert_eq!(
        current_cgroup_directory(b"0::/user.slice\n"),
        Ok(bytes("/sys/fs/cgroup/user.slice"))
    );
    assert!(current_cgroup_directory(b"1:name=systemd:/\n").is_err());
}

#[test]
fn cleanup_waits_until_a_cgroup_is_empty() {
    assert_eq!(
        cleanup_step(true, &Some(bytes("populated 0\nfrozen 0\n")), 0, 10),
        Ok(CleanupStep::Remove)
    );
    assert_eq!(
        cleanup_step(true, &Some(bytes("populated 1\n")), 0, 10),
        Ok(CleanupStep::Wait)
    );
    assert!(cleanup_step(true, &Some(bytes("populated 1\n")), 10, 10).is_err());
    assert!(cleanup_step(false, &Some(bytes("populated 0\n")), 0, 10).is_err());
}

// --------------------------------------------------------------- descriptors

fn readable(path: &str) -> FileCapability {
    FileCapability {
        path: path.to_owned(),
        access: FileAccess::Read,
    }
}

#[test]
fn accepts_normalized_read_capabilities() {
    let capabilities = vec![
        FileCapability {
            path: "/workspace/project".to_owned(),
            access: FileAccess::Read,
        },
        FileCapability {
            path: "/opt/reference.txt".to_owned(),
            access: FileAccess::Read,
        },
    ];

    assert_eq!(validate_capabilities(&capabilities), Ok(()));
}

#[test]
fn rejects_write_and_duplicate_capabilities() {
    let write = vec![FileCapability {
        path: "/workspace/output".to_owned(),
        access: FileAccess::Write,
    }];
    assert_eq!(
        validate_capabilities(&write),
        Err(ProcessAdapterError::UnsupportedFilesystemCapability)
    );

    let duplicate = vec![
        FileCapability {
            path: "/workspace/project".to_owned(),
            access: FileAccess::Read,
        },
        FileCapability {
            path: "/workspace/project".to_owned(),
            access: FileAccess::Read,
        },
    ];
    assert_eq!(
        validate_capabilities(&duplicate),
        Err(ProcessAdapterError::InvalidSandbox)
    );
}

#[test]
fn parents_are_mounted_before_what_is_in_them() {
    let ordered = mount_order(&vec![readable("/a/b/c"), readable("/z"), readable("/a/b")]);
    let paths: Vec<&str> = ordered
        .iter()
        .map(|capability| capability.path.as_str())
        .collect();
    assert_eq!(paths, ["/z", "/a/b", "/a/b/c"]);
}
