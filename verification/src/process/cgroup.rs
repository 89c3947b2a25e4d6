//! Task cgroups: cumulative CPU-time and resident-memory ceilings.

use vstd::prelude::*;

use crate::ids;
use crate::ids::TaskId;
use crate::path;
use crate::path::{is_absolute, is_within, join};
use crate::process::facts;
use crate::process::facts::{DirectoryIdentity, FileFacts, PathReport, ReportModel};
use crate::process::{
    HostPlatform, MAX_SANDBOX_PATH_BYTES, MAX_TIMEOUT_SECONDS, ProcessAdapterError,
};
use crate::scan;
use crate::scan::{contains_word, is_trimmed, parse_u64, words_of};
use crate::text;
use crate::text::{bytes_eq, clone_bytes, decimal_string, is_blank, slice_bytes, split_bytes};
use crate::time::{Duration, NANOS_PER_SECOND};

verus! {

pub const NANOS_PER_MICRO: u128 = 1_000;

pub const CLEANUP_TIMEOUT_SECONDS: u64 = 5;

pub const CLEANUP_POLL_MILLIS: u64 = 5;

/// Where cgroups are mounted: `/sys/fs/cgroup`.
pub open spec fn cgroup_mount() -> Seq<u8> {
    seq![0x2fu8, 0x73, 0x79, 0x73, 0x2f, 0x66, 0x73, 0x2f, 0x63, 0x67, 0x72, 0x6f, 0x75, 0x70]
}

/// Where cgroups are mounted: `/sys/fs/cgroup`.
#[must_use]
pub fn mount_path() -> (r: Vec<u8>)
    ensures
        r@ == cgroup_mount(),
{
    let path: Vec<u8> = vec![
        0x2f, 0x73, 0x79, 0x73, 0x2f, 0x66, 0x73, 0x2f, 0x63, 0x67, 0x72, 0x6f, 0x75, 0x70,
    ];
    assert(path@ =~= cgroup_mount());
    path
}

// -------------------------------------------------------------------- budget

/// Cumulative CPU-time and resident-memory ceilings for one task cgroup.
#[derive(Clone, Copy, Debug, PartialEq, Eq, Structural)]
pub struct CgroupResourceBudget {
    cpu_time_micros: u64,
    memory_bytes: u64,
}

/// Whether a task may be given this budget.
pub open spec fn usable_budget(cpu_time: Duration, memory_bytes: u64) -> bool {
    NANOS_PER_MICRO <= cpu_time.nanos <= MAX_TIMEOUT_SECONDS * NANOS_PER_SECOND && memory_bytes > 0
}

/// The whole microseconds of a time.
pub open spec fn whole_micros(time: Duration) -> u128 {
    time.nanos / NANOS_PER_MICRO
}

impl CgroupResourceBudget {
    /// The CPU time, in microseconds.
    pub closed spec fn micros(self) -> u64 {
        self.cpu_time_micros
    }

    /// The resident memory, in bytes.
    pub closed spec fn memory(self) -> u64 {
        self.memory_bytes
    }

    /// Takes ceilings that are in range.
    pub fn new(cpu_time: Duration, memory_bytes: u64) -> (r: Result<
        CgroupResourceBudget,
        ProcessAdapterError,
    >)
        ensures
            r is Ok <==> usable_budget(cpu_time, memory_bytes),
            r is Ok ==> r->Ok_0.micros() == whole_micros(cpu_time) && r->Ok_0.memory()
                == memory_bytes,
            r is Err ==> r->Err_0 == ProcessAdapterError::InvalidConfig,
    {
        let longest = Duration::from_secs(MAX_TIMEOUT_SECONDS);
        if cpu_time.nanos < NANOS_PER_MICRO || cpu_time.nanos > longest.nanos || memory_bytes == 0 {
            return Err(ProcessAdapterError::InvalidConfig);
        }
        Ok(
            CgroupResourceBudget {
                cpu_time_micros: (cpu_time.nanos / NANOS_PER_MICRO) as u64,
                memory_bytes,
            },
        )
    }

    /// The CPU time.
    #[must_use]
    pub fn cpu_time(&self) -> (r: Duration)
        ensures
            r.nanos == self.micros() * NANOS_PER_MICRO,
    {
        Duration { nanos: self.cpu_time_micros as u128 * NANOS_PER_MICRO }
    }

    /// The resident memory, in bytes.
    #[must_use]
    pub fn memory_bytes(&self) -> (r: u64)
        ensures
            r == self.memory(),
    {
        self.memory_bytes
    }
}

// -------------------------------------------------------------------- values

/// Whether a line of a control file holds a key and one value.
pub open spec fn keyed_line(line: Seq<u8>, key: Seq<u8>) -> bool {
    scan::words(line).len() == 2 && scan::words(line)[0] == key
}

/// The value of a key in lines: that of the first line that holds it.
pub open spec fn keyed_value(lines: Seq<Seq<u8>>, key: Seq<u8>) -> Option<nat>
    decreases lines.len(),
{
    if lines.len() == 0 {
        None
    } else if keyed_line(lines[0], key) {
        scan::bounded_value(scan::words(lines[0])[1], u64::MAX as nat)
    } else {
        keyed_value(lines.skip(1), key)
    }
}

/// The value of a key in a control file.
pub open spec fn file_value(contents: Seq<u8>, key: Seq<u8>) -> Option<nat> {
    keyed_value(text::split(contents, 0x0a), key)
}

/// Reads the value of a key in a control file.
pub fn read_keyed_u64(contents: &[u8], key: &[u8]) -> (r: Result<u64, ProcessAdapterError>)
    ensures
        file_value(contents@, key@) == (match r {
            Ok(value) => Some(value as nat),
            Err(_) => None,
        }),
        r is Err ==> r->Err_0 == ProcessAdapterError::InvalidResourceControl,
{
    let lines = split_bytes(contents, 0x0a);
    let ghost all = text::split(contents@, 0x0a);
    let mut i: usize = 0;
    assert(all.skip(0) =~= all);
    while i < lines.len()
        invariant
            i <= lines@.len(),
            all == text::pieces(lines@),
            file_value(contents@, key@) == keyed_value(all.skip(i as int), key@),
        decreases lines@.len() - i,
    {
        let fields = words_of(lines[i].as_slice());
        let ghost rest = all.skip(i as int);
        let ghost here = scan::words(lines@[i as int]@);
        proof {
            assert(rest[0] == lines@[i as int]@);
            assert(rest.skip(1) =~= all.skip(i + 1));
            assert(here.len() == fields@.len());
            if fields@.len() == 2 {
                assert(here[0] == fields@[0]@);
                assert(here[1] == fields@[1]@);
            }
        }
        if fields.len() == 2 && bytes_eq(fields[0].as_slice(), key) {
            return match parse_u64(fields[1].as_slice()) {
                Some(value) => Ok(value),
                None => Err(ProcessAdapterError::InvalidResourceControl),
            };
        }
        i = i + 1;
    }
    assert(all.len() == lines@.len());
    Err(ProcessAdapterError::InvalidResourceControl)
}

/// The name of the counter of used CPU time: `usage_usec`.
pub open spec fn usage_key() -> Seq<u8> {
    seq![0x75u8, 0x73, 0x61, 0x67, 0x65, 0x5f, 0x75, 0x73, 0x65, 0x63]
}

/// The name of the counter of refused memory: `max`.
pub open spec fn max_key() -> Seq<u8> {
    seq![0x6du8, 0x61, 0x78]
}

/// The name of the counter of processes killed for memory: `oom_kill`.
pub open spec fn oom_kill_key() -> Seq<u8> {
    seq![0x6fu8, 0x6f, 0x6d, 0x5f, 0x6b, 0x69, 0x6c, 0x6c]
}

/// The name of the flag of cgroups that hold processes: `populated`.
pub open spec fn populated_key() -> Seq<u8> {
    seq![0x70u8, 0x6f, 0x70, 0x75, 0x6c, 0x61, 0x74, 0x65, 0x64]
}

// ---------------------------------------------------------------- membership

/// A line of a membership file that names the unified hierarchy, without its `0::` prefix.
pub open spec fn unified_line(line: Seq<u8>) -> Option<Seq<u8>> {
    if line.len() >= 3 && line[0] == 0x30 && line[1] == 0x3a && line[2] == 0x3a {
        Some(line.skip(3))
    } else {
        None
    }
}

/// A line that was ended, without the carriage return that may stand at its end.
pub open spec fn ended_line(line: Seq<u8>) -> Seq<u8> {
    if line.len() > 0 && line.last() == 0x0d {
        line.drop_last()
    } else {
        line
    }
}

/// The first line that names the unified hierarchy. All lines but the last were ended.
pub open spec fn unified_entry(lines: Seq<Seq<u8>>) -> Option<Seq<u8>>
    decreases lines.len(),
{
    if lines.len() == 0 {
        None
    } else {
        let line = if lines.len() > 1 {
            ended_line(lines[0])
        } else {
            lines[0]
        };
        if unified_line(line) is Some {
            unified_line(line)
        } else {
            unified_entry(lines.skip(1))
        }
    }
}

/// The directory of the cgroup that a membership file names.
pub open spec fn member_directory(membership: Seq<u8>) -> Option<Seq<u8>> {
    match unified_entry(text::split(membership, 0x0a)) {
        None => None,
        Some(relative) => if relative.len() > 0 && relative[0] == path::SEPARATOR {
            Some(path::joined(cgroup_mount(), relative.skip(1)))
        } else {
            None
        },
    }
}

/// Reads the directory of the cgroup that a membership file names.
pub fn current_cgroup_directory(membership: &[u8]) -> (r: Result<Vec<u8>, ProcessAdapterError>)
    ensures
        member_directory(membership@) == (match r {
            Ok(directory) => Some(directory@),
            Err(_) => None,
        }),
        r is Err ==> r->Err_0 == ProcessAdapterError::InvalidResourceControl,
{
    let lines = split_bytes(membership, 0x0a);
    let ghost all = text::split(membership@, 0x0a);
    let mut i: usize = 0;
    assert(all.skip(0) =~= all);
    while i < lines.len()
        invariant
            i <= lines@.len(),
            all == text::split(membership@, 0x0a),
            all == text::pieces(lines@),
            unified_entry(all) == unified_entry(all.skip(i as int)),
        decreases lines@.len() - i,
    {
        let whole = &lines[i];
        let ghost rest = all.skip(i as int);
        let returned = i + 1 < lines.len() && whole.len() > 0 && whole[whole.len() - 1] == 0x0d;
        let line = if returned {
            slice_bytes(whole.as_slice(), 0, whole.len() - 1)
        } else {
            clone_bytes(whole.as_slice())
        };
        proof {
            assert(rest[0] == whole@);
            assert(rest.len() == lines@.len() - i);
            assert(rest.skip(1) =~= all.skip(i + 1));
            if returned {
                assert(line@ =~= whole@.drop_last());
            }
        }
        if line.len() >= 3 && line[0] == 0x30 && line[1] == 0x3a && line[2] == 0x3a {
            let ghost relative = line@.skip(3);
            assert(unified_entry(all) == Some(relative));
            if line.len() < 4 || line[3] != 0x2f {
                return Err(ProcessAdapterError::InvalidResourceControl);
            }
            let tail = slice_bytes(line.as_slice(), 4, line.len());
            assert(tail@ =~= relative.skip(1));
            return Ok(join(mount_path().as_slice(), tail.as_slice()));
        }
        i = i + 1;
    }
    assert(all.skip(i as int) =~= Seq::<Seq<u8>>::empty());
    Err(ProcessAdapterError::InvalidResourceControl)
}

// ------------------------------------------------------------------- manager

/// What was observed of a delegated cgroup subtree. What could not be read is `None`.
pub struct CgroupRootReport {
    pub path: PathReport,
    /// Whether `cgroup.controllers`, `cgroup.procs` and `cgroup.subtree_control` are files.
    pub files_present: bool,
    pub controllers: Option<String>,
    pub subtree_control: Option<String>,
    pub processes: Option<String>,
    /// The resolved directory of the cgroup that the runtime itself is in.
    pub current: Option<Vec<u8>>,
}

/// Where a configured subtree leads, if it may be configured: a real directory below the mount.
pub open spec fn usable_cgroup_root(path: Seq<u8>, report: ReportModel) -> Option<Seq<u8>> {
    match report.canonical {
        None => None,
        Some(canonical) => if path::absolute(path) && path.len() <= MAX_SANDBOX_PATH_BYTES
            && facts::is_directory(report.entry) && path::within(canonical, cgroup_mount())
            && path::components(canonical) != path::components(cgroup_mount()) {
            Some(canonical)
        } else {
            None
        },
    }
}

/// Whether a file of controllers names the two that are needed.
pub open spec fn names_controllers(contents: Option<String>) -> bool {
    match contents {
        None => false,
        Some(contents) => {
            &&& scan::words(text::utf8(contents@)).contains(seq![0x63u8, 0x70, 0x75])
            &&& scan::words(text::utf8(contents@)).contains(
                seq![0x6du8, 0x65, 0x6d, 0x6f, 0x72, 0x79],
            )
        },
    }
}

/// Whether a subtree is ready: its controllers are there and enabled, its root is free of
/// processes, and the runtime runs below it.
pub open spec fn root_ready(root: Seq<u8>, report: CgroupRootReport) -> bool {
    &&& report.files_present
    &&& names_controllers(report.controllers)
    &&& names_controllers(report.subtree_control)
    &&& report.processes is Some && text::is_blank_text(report.processes->0@)
    &&& report.current is Some && path::within(report.current->0@, root) && path::components(
        report.current->0@,
    ) != path::components(root)
}

fn has_controllers(contents: &Option<String>) -> (r: bool)
    ensures
        r == names_controllers(*contents),
{
    match contents {
        None => false,
        Some(contents) => {
            let bytes = contents.as_str().as_bytes();
            let cpu: Vec<u8> = vec![0x63, 0x70, 0x75];
            let memory: Vec<u8> = vec![0x6d, 0x65, 0x6d, 0x6f, 0x72, 0x79];
            assert(cpu@ =~= seq![0x63u8, 0x70, 0x75]);
            assert(memory@ =~= seq![0x6du8, 0x65, 0x6d, 0x6f, 0x72, 0x79]);
            contains_word(bytes, cpu.as_slice()) && contains_word(bytes, memory.as_slice())
        },
    }
}

fn is_below(path: &[u8], base: &[u8]) -> (r: bool)
    ensures
        r == (path::within(path@, base@) && path::components(path@) != path::components(base@)),
{
    let inside = is_within(path, base);
    let around = is_within(base, path);
    proof {
        let a = path::components(path@);
        let b = path::components(base@);
        if inside && around {
            assert(a.take(b.len() as int) =~= a);
        }
        if a == b {
            assert(a.take(b.len() as int) =~= b);
        }
    }
    inside && !around
}

fn validate_cgroup_root(root: &[u8], report: &CgroupRootReport) -> (r: bool)
    ensures
        r == root_ready(root@, *report),
{
    if !report.files_present || !has_controllers(&report.controllers) || !has_controllers(
        &report.subtree_control,
    ) {
        return false;
    }
    let free = match &report.processes {
        Some(processes) => is_blank(processes.as_str()),
        None => false,
    };
    let below = match &report.current {
        Some(current) => is_below(current.as_slice(), root),
        None => false,
    };
    free && below
}

fn canonical_cgroup_root(path: &[u8], report: &PathReport) -> (r: Option<Vec<u8>>)
    ensures
        usable_cgroup_root(path@, report@) == (match r {
            Some(root) => Some(root@),
            None => None,
        }),
{
    let directory = match report.entry {
        Some(facts) => facts.directory && !facts.symlink,
        None => false,
    };
    if !is_absolute(path) || path.len() > MAX_SANDBOX_PATH_BYTES || !directory {
        return None;
    }
    match &report.canonical {
        Some(canonical) => {
            if is_below(canonical.as_slice(), mount_path().as_slice()) {
                Some(clone_bytes(canonical.as_slice()))
            } else {
                None
            }
        },
        None => None,
    }
}

/// Trusted owner of an existing delegated cgroup v2 subtree.
///
/// Host provisioning must enable the `cpu` and `memory` controllers, keep the delegated root
/// process-free, and start the runtime in a child cgroup beneath that root.
pub struct CgroupV2Manager {
    root_directory: Vec<u8>,
    root_identity: DirectoryIdentity,
}

/// The name of the directory of a task: `task-` and the task.
pub open spec fn task_directory(root: Seq<u8>, task: u128) -> Seq<u8> {
    path::joined(root, seq![0x74u8, 0x61, 0x73, 0x6b, 0x2d] + text::utf8(ids::hyphenated(task)))
}

impl CgroupV2Manager {
    /// The directory of the subtree.
    pub closed spec fn root(&self) -> Seq<u8> {
        self.root_directory@
    }

    /// The identity of the subtree when it was opened.
    pub closed spec fn identity(&self) -> DirectoryIdentity {
        self.root_identity
    }

    /// Opens a subtree.
    pub fn new(platform: HostPlatform, root_directory: &[u8], report: &CgroupRootReport) -> (r:
        Result<CgroupV2Manager, ProcessAdapterError>)
        ensures
            r is Ok <==> (platform is LinuxX86_64 || platform is Linux) && usable_cgroup_root(
                root_directory@,
                report.path@,
            ) is Some && root_ready(
                usable_cgroup_root(root_directory@, report.path@)->0,
                *report,
            ) && facts::directory_identity(report.path.target) is Some,
            r is Ok ==> Some(r->Ok_0.root()) == usable_cgroup_root(root_directory@, report.path@)
                && Some(r->Ok_0.identity()) == facts::directory_identity(report.path.target),
            r is Err ==> r->Err_0 == (if platform is Other {
                ProcessAdapterError::UnsupportedPlatform
            } else {
                ProcessAdapterError::InvalidResourceControl
            }),
    {
        if !platform.is_linux() {
            return Err(ProcessAdapterError::UnsupportedPlatform);
        }
        let root = match canonical_cgroup_root(root_directory, &report.path) {
            Some(root) => root,
            None => {
                return Err(ProcessAdapterError::InvalidResourceControl);
            },
        };
        if !validate_cgroup_root(root.as_slice(), report) {
            return Err(ProcessAdapterError::InvalidResourceControl);
        }
        match DirectoryIdentity::read(report.path.target) {
            Ok(root_identity) => Ok(CgroupV2Manager { root_directory: root, root_identity }),
            Err(_) => Err(ProcessAdapterError::InvalidResourceControl),
        }
    }

    /// The directory of the subtree.
    #[must_use]
    pub fn root_directory(&self) -> (r: &[u8])
        ensures
            r@ == self.root(),
    {
        self.root_directory.as_slice()
    }

    fn task_path(&self, task_id: TaskId) -> (r: Vec<u8>)
        ensures
            r@ == task_directory(self.root(), task_id.value),
    {
        let mut name: Vec<u8> = vec![0x74, 0x61, 0x73, 0x6b, 0x2d];
        assert(name@ =~= seq![0x74u8, 0x61, 0x73, 0x6b, 0x2d]);
        let id = task_id.display();
        let mut tail = clone_bytes(id.as_str().as_bytes());
        name.append(&mut tail);
        join(self.root_directory.as_slice(), name.as_slice())
    }

    /// The directory that is to be created for a task, if the subtree is still what it was when
    /// it was opened.
    pub fn plan(&self, task_id: TaskId, report: &CgroupRootReport) -> (r: Result<
        Vec<u8>,
        ProcessAdapterError,
    >)
        ensures
            r is Ok <==> root_ready(self.root(), *report) && facts::directory_identity(
                report.path.target,
            ) == Some(self.identity()) && task_directory(self.root(), task_id.value).len()
                <= MAX_SANDBOX_PATH_BYTES,
            r is Ok ==> (r->Ok_0)@ == task_directory(self.root(), task_id.value),
            r is Err ==> r->Err_0 == ProcessAdapterError::InvalidResourceControl,
    {
        if !validate_cgroup_root(self.root_directory.as_slice(), report) {
            return Err(ProcessAdapterError::InvalidResourceControl);
        }
        match DirectoryIdentity::read(report.path.target) {
            Ok(identity) => {
                if identity != self.root_identity {
                    return Err(ProcessAdapterError::InvalidResourceControl);
                }
            },
            Err(_) => {
                return Err(ProcessAdapterError::InvalidResourceControl);
            },
        }
        let directory = self.task_path(task_id);
        if directory.len() > MAX_SANDBOX_PATH_BYTES {
            return Err(ProcessAdapterError::InvalidResourceControl);
        }
        Ok(directory)
    }

    /// Takes the planned directory once it was created and its control files were written, and
    /// binds it to the task.
    pub fn create(
        &self,
        task_id: TaskId,
        budget: CgroupResourceBudget,
        configured: bool,
        directory: Option<FileFacts>,
    ) -> (r: Result<TaskCgroup, ProcessAdapterError>)
        ensures
            r is Ok <==> configured && facts::directory_identity(directory) is Some,
            r is Ok ==> r->Ok_0@ == (CgroupModel {
                task: task_id.value,
                directory: task_directory(self.root(), task_id.value),
                identity: facts::directory_identity(directory)->0,
                budget,
            }),
            r is Err ==> r->Err_0 == ProcessAdapterError::InvalidResourceControl,
    {
        if !configured {
            return Err(ProcessAdapterError::InvalidResourceControl);
        }
        match DirectoryIdentity::read(directory) {
            Ok(directory_identity) => Ok(
                TaskCgroup {
                    task_id,
                    directory: self.task_path(task_id),
                    directory_identity,
                    budget,
                },
            ),
            Err(_) => Err(ProcessAdapterError::InvalidResourceControl),
        }
    }
}

// --------------------------------------------------------------- task cgroup

/// What a task cgroup is bound to.
pub struct CgroupModel {
    pub task: u128,
    pub directory: Seq<u8>,
    pub identity: DirectoryIdentity,
    pub budget: CgroupResourceBudget,
}

/// Task-scoped cgroup authority.
///
/// This value intentionally does not clean up on drop. It is finished only after the task no
/// longer needs a process tool handler.
pub struct TaskCgroup {
    task_id: TaskId,
    directory: Vec<u8>,
    directory_identity: DirectoryIdentity,
    budget: CgroupResourceBudget,
}

impl View for TaskCgroup {
    type V = CgroupModel;

    closed spec fn view(&self) -> CgroupModel {
        CgroupModel {
            task: self.task_id.value,
            directory: self.directory@,
            identity: self.directory_identity,
            budget: self.budget,
        }
    }
}

/// What was observed of a task cgroup. What could not be read is `None`.
pub struct CgroupReport {
    pub directory: Option<FileFacts>,
    /// Whether all control files are files.
    pub files_present: bool,
    pub memory_max: Option<String>,
    pub swap_max: Option<String>,
    pub oom_group: Option<String>,
    pub cpu_stat: Option<Vec<u8>>,
    pub memory_events: Option<Vec<u8>>,
}

/// Whether a control file holds a value and nothing else but white space.
pub open spec fn holds(contents: Option<String>, expected: Seq<char>) -> bool {
    contents is Some && scan::trimmed(contents->0@) == expected
}

impl CgroupModel {
    /// Whether the directory is still the one that was bound, with its control files.
    pub open spec fn identified(self, report: CgroupReport) -> bool {
        facts::directory_identity(report.directory) == Some(self.identity) && report.files_present
    }

    /// Whether the limits are still those that were set.
    pub open spec fn limited(self, report: CgroupReport) -> bool {
        &&& self.identified(report)
        &&& holds(report.memory_max, text::decimal(self.budget.memory() as nat))
        &&& holds(report.swap_max, "0"@)
        &&& holds(report.oom_group, "1"@)
    }

    /// Whether a ceiling was reached; `None` where that cannot be told.
    pub open spec fn exhausted(self, report: CgroupReport) -> Option<bool> {
        if !self.limited(report) || report.cpu_stat is None || report.memory_events is None {
            None
        } else {
            let used = file_value(report.cpu_stat->0@, usage_key());
            let refused = file_value(report.memory_events->0@, max_key());
            let killed = file_value(report.memory_events->0@, oom_kill_key());
            if used is Some && refused is Some && killed is Some {
                Some(used->0 >= self.budget.micros() || refused->0 > 0 || killed->0 > 0)
            } else {
                None
            }
        }
    }
}

fn is_held(contents: &Option<String>, expected: &str) -> (r: bool)
    ensures
        r == holds(*contents, expected@),
{
    match contents {
        Some(contents) => is_trimmed(contents.as_str(), expected),
        None => false,
    }
}

impl TaskCgroup {
    /// The task.
    #[must_use]
    pub fn task_id(&self) -> (r: TaskId)
        ensures
            r.value == self@.task,
    {
        self.task_id
    }

    /// The directory of the cgroup.
    #[must_use]
    pub fn directory(&self) -> (r: &[u8])
        ensures
            r@ == self@.directory,
    {
        self.directory.as_slice()
    }

    /// The ceilings.
    #[must_use]
    pub fn budget(&self) -> (r: CgroupResourceBudget)
        ensures
            r == self@.budget,
    {
        self.budget
    }

    /// The identity of the directory.
    #[must_use]
    pub fn identity(&self) -> (r: DirectoryIdentity)
        ensures
            r == self@.identity,
    {
        self.directory_identity
    }

    /// A second value with the same authority.
    #[must_use]
    pub fn state(&self) -> (r: TaskCgroup)
        ensures
            r@ == self@,
    {
        TaskCgroup {
            task_id: self.task_id,
            directory: clone_bytes(self.directory.as_slice()),
            directory_identity: self.directory_identity,
            budget: self.budget,
        }
    }

    /// The directory is still the one that was bound.
    pub fn validate_identity(&self, report: &CgroupReport) -> (r: Result<(), ProcessAdapterError>)
        ensures
            r is Ok <==> self@.identified(*report),
            r is Err ==> r->Err_0 == ProcessAdapterError::InvalidResourceControl,
    {
        match DirectoryIdentity::read(report.directory) {
            Ok(identity) => {
                if identity == self.directory_identity && report.files_present {
                    Ok(())
                } else {
                    Err(ProcessAdapterError::InvalidResourceControl)
                }
            },
            Err(_) => Err(ProcessAdapterError::InvalidResourceControl),
        }
    }

    /// The limits are still those that were set.
    pub fn validate(&self, report: &CgroupReport) -> (r: Result<(), ProcessAdapterError>)
        ensures
            r is Ok <==> self@.limited(*report),
            r is Err ==> r->Err_0 == ProcessAdapterError::InvalidResourceControl,
    {
        if let Err(error) = self.validate_identity(report) {
            return Err(error);
        }
        let memory = decimal_string(self.budget.memory_bytes);
        if is_held(&report.memory_max, memory.as_str()) && is_held(&report.swap_max, "0")
            && is_held(&report.oom_group, "1") {
            Ok(())
        } else {
            Err(ProcessAdapterError::InvalidResourceControl)
        }
    }

    /// Whether a ceiling was reached.
    pub fn limit_reached(&self, report: &CgroupReport) -> (r: Result<bool, ProcessAdapterError>)
        ensures
            self@.exhausted(*report) == (match r {
                Ok(reached) => Some(reached),
                Err(_) => None,
            }),
            r is Err ==> r->Err_0 == ProcessAdapterError::InvalidResourceControl,
    {
        if let Err(error) = self.validate(report) {
            return Err(error);
        }
        match (&report.cpu_stat, &report.memory_events) {
            (Some(cpu_stat), Some(memory_events)) => {
                let usage: Vec<u8> = vec![
                    0x75, 0x73, 0x61, 0x67, 0x65, 0x5f, 0x75, 0x73, 0x65, 0x63,
                ];
                let max: Vec<u8> = vec![0x6d, 0x61, 0x78];
                let oom_kill: Vec<u8> = vec![0x6f, 0x6f, 0x6d, 0x5f, 0x6b, 0x69, 0x6c, 0x6c];
                assert(usage@ =~= usage_key());
                assert(max@ =~= max_key());
                assert(oom_kill@ =~= oom_kill_key());
                let used = read_keyed_u64(cpu_stat.as_slice(), usage.as_slice());
                let refused = read_keyed_u64(memory_events.as_slice(), max.as_slice());
                let killed = read_keyed_u64(memory_events.as_slice(), oom_kill.as_slice());
                match (used, refused, killed) {
                    (Ok(used), Ok(refused), Ok(killed)) => Ok(
                        used >= self.budget.cpu_time_micros || refused > 0 || killed > 0,
                    ),
                    _ => Err(ProcessAdapterError::InvalidResourceControl),
                }
            },
            _ => Err(ProcessAdapterError::InvalidResourceControl),
        }
    }
}

// ------------------------------------------------------------------- cleanup

/// What to do while a cgroup empties.
#[derive(Clone, Copy, Debug, PartialEq, Eq, Structural)]
pub enum CleanupStep {
    /// No process is left: the directory can be removed.
    Remove,
    /// Look again after the poll interval.
    Wait,
}

/// What comes next in the removal of a cgroup.
pub open spec fn cleanup_verdict(
    identified: bool,
    events: Option<Seq<u8>>,
    now: u128,
    deadline: u128,
) -> Result<CleanupStep, ProcessAdapterError> {
    if !identified || events is None || file_value(events->0, populated_key()) is None {
        Err(ProcessAdapterError::InvalidResourceControl)
    } else if file_value(events->0, populated_key())->0 == 0 {
        Ok(CleanupStep::Remove)
    } else if now >= deadline {
        Err(ProcessAdapterError::InvalidResourceControl)
    } else {
        Ok(CleanupStep::Wait)
    }
}

/// Whether a cgroup whose `cgroup.events` file reads `events` at `now` can be removed, waiting
/// no longer than until `deadline`.
pub fn cleanup_step(identified: bool, events: &Option<Vec<u8>>, now: u128, deadline: u128) -> (r:
    Result<CleanupStep, ProcessAdapterError>)
    ensures
        r == cleanup_verdict(
            identified,
            match *events {
                Some(bytes) => Some(bytes@),
                None => None,
            },
            now,
            deadline,
        ),
{
    if !identified {
        return Err(ProcessAdapterError::InvalidResourceControl);
    }
    match events {
        None => Err(ProcessAdapterError::InvalidResourceControl),
        Some(events) => {
            let key: Vec<u8> = vec![0x70, 0x6f, 0x70, 0x75, 0x6c, 0x61, 0x74, 0x65, 0x64];
            assert(key@ =~= populated_key());
            match read_keyed_u64(events.as_slice(), key.as_slice()) {
                Ok(populated) => {
                    if populated == 0 {
                        Ok(CleanupStep::Remove)
                    } else if now >= deadline {
                        Err(ProcessAdapterError::InvalidResourceControl)
                    } else {
                        Ok(CleanupStep::Wait)
                    }
                },
                Err(error) => Err(error),
            }
        },
    }
}

// --------------------------------------------------------------------- setup

/// The control files of the cgroup of a task.
pub open spec fn control_names() -> Seq<Seq<char>> {
    seq![
        "cgroup.procs"@,
        "cgroup.kill"@,
        "cgroup.events"@,
        "cpu.stat"@,
        "memory.current"@,
        "memory.events"@,
        "memory.max"@,
        "memory.swap.max"@,
        "memory.oom.group"@,
    ]
}

/// The control files of the cgroup of a task.
#[must_use]
pub fn control_files() -> (r: Vec<String>)
    ensures
        text::texts(r@) == control_names(),
{
    let mut out: Vec<String> = Vec::new();
    out.push("cgroup.procs".to_owned());
    out.push("cgroup.kill".to_owned());
    out.push("cgroup.events".to_owned());
    out.push("cpu.stat".to_owned());
    out.push("memory.current".to_owned());
    out.push("memory.events".to_owned());
    out.push("memory.max".to_owned());
    out.push("memory.swap.max".to_owned());
    out.push("memory.oom.group".to_owned());
    assert(text::texts(out@) =~= control_names());
    out
}

/// What is written to which control file to set the limits of a budget.
pub open spec fn limit_texts(memory: u64) -> Seq<(Seq<char>, Seq<char>)> {
    seq![
        ("memory.max"@, text::decimal(memory as nat)),
        ("memory.swap.max"@, "0"@),
        ("memory.oom.group"@, "1"@),
    ]
}

/// What has to be written to which control file, in order, to set the limits of a budget.
#[must_use]
pub fn limit_writes(budget: &CgroupResourceBudget) -> (r: Vec<(String, String)>)
    ensures
        r@.map_values(|write: (String, String)| (write.0@, write.1@)) == limit_texts(
            budget.memory(),
        ),
{
    let mut out: Vec<(String, String)> = Vec::new();
    out.push(("memory.max".to_owned(), decimal_string(budget.memory_bytes())));
    out.push(("memory.swap.max".to_owned(), "0".to_owned()));
    out.push(("memory.oom.group".to_owned(), "1".to_owned()));
    assert(out@.map_values(|write: (String, String)| (write.0@, write.1@)) =~= limit_texts(
        budget.memory(),
    ));
    out
}

proof fn lemma_decimal_is_trimmed(n: nat)
    ensures
        scan::trimmed(text::decimal(n)) == text::decimal(n),
{
    lemma_decimal_digits(n);
    let digits = text::decimal(n);
    assert(!text::is_white_space(digits[0]));
    assert(!text::is_white_space(digits.last()));
}

proof fn lemma_decimal_digits(n: nat)
    ensures
        text::decimal(n).len() > 0,
        forall|i: int|
            0 <= i < text::decimal(n).len() ==> '0' <= #[trigger] text::decimal(n)[i] <= '9',
    decreases n,
{
    if n >= 10 {
        lemma_decimal_digits(n / 10);
    }
}

/// A cgroup whose control files read as they were written to set its limits is valid.
pub proof fn law_set_limits_are_valid(cgroup: CgroupModel, report: CgroupReport)
    requires
        cgroup.identified(report),
        report.memory_max is Some,
        report.swap_max is Some,
        report.oom_group is Some,
        report.memory_max->0@ == limit_texts(cgroup.budget.memory())[0].1,
        report.swap_max->0@ == limit_texts(cgroup.budget.memory())[1].1,
        report.oom_group->0@ == limit_texts(cgroup.budget.memory())[2].1,
    ensures
        cgroup.limited(report),
{
    reveal_strlit("0");
    reveal_strlit("1");
    lemma_decimal_is_trimmed(cgroup.budget.memory() as nat);
    assert(scan::trimmed("0"@) == "0"@);
    assert(scan::trimmed("1"@) == "1"@);
}

} // verus!
