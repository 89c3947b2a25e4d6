//! Task-scoped scratch directories.

use vstd::prelude::*;

use crate::ids;
use crate::ids::TaskId;
use crate::path;
use crate::path::join;
use crate::process::facts;
use crate::process::facts::{
    DirectoryIdentity, FileFacts, PathReport, ReportModel, canonical_task_scratch_root,
    validate_owner_only_directory,
};
use crate::process::{MAX_SANDBOX_PATH_BYTES, ProcessAdapterError};
use crate::text;
use crate::text::{bytes_eq, clone_bytes};

verus! {

/// Whether a directory is still the owner-only directory with a given identity.
pub open spec fn still_owned(facts: Option<FileFacts>, identity: DirectoryIdentity) -> bool {
    facts::owner_only(facts) && facts::directory_identity(facts) == Some(identity)
}

/// The directory is still the owner-only directory with the expected identity.
pub fn validate_task_scratch_identity(facts: Option<FileFacts>, expected: DirectoryIdentity) -> (r:
    Result<(), ProcessAdapterError>)
    ensures
        r is Ok <==> still_owned(facts, expected),
        r is Err ==> r->Err_0 == ProcessAdapterError::InvalidSandbox,
{
    if let Err(error) = validate_owner_only_directory(facts) {
        return Err(error);
    }
    match DirectoryIdentity::read(facts) {
        Ok(identity) => {
            if identity == expected {
                Ok(())
            } else {
                Err(ProcessAdapterError::InvalidSandbox)
            }
        },
        Err(error) => Err(error),
    }
}

/// Trusted owner of the host directory used for task-scoped sandbox scratch space.
///
/// The configured root must already exist as a real, absolute, owner-only directory. Each task
/// gets one new empty child named after it. Existing task directories are rejected rather than
/// reused.
pub struct TaskScratchManager {
    root_directory: Vec<u8>,
    root_identity: DirectoryIdentity,
}

/// The scratch directory of a task.
pub open spec fn scratch_directory(root: Seq<u8>, task: u128) -> Seq<u8> {
    path::joined(root, text::utf8(ids::hyphenated(task)))
}

impl TaskScratchManager {
    /// The root of the scratch space.
    pub closed spec fn root(&self) -> Seq<u8> {
        self.root_directory@
    }

    /// The identity of the root when it was opened.
    pub closed spec fn identity(&self) -> DirectoryIdentity {
        self.root_identity
    }

    /// Whether the root is still the one that was opened.
    pub open spec fn holds(&self, root: ReportModel) -> bool {
        facts::owner_only(root.entry) && facts::directory_identity(root.target) == Some(
            self.identity(),
        )
    }

    /// Opens a root of scratch space.
    pub fn new(root_directory: &[u8], report: &PathReport) -> (r: Result<
        TaskScratchManager,
        ProcessAdapterError,
    >)
        ensures
            r is Ok <==> facts::usable_private_root(root_directory@, report@) is Some
                && facts::directory_identity(report.target) is Some,
            r is Ok ==> Some(r->Ok_0.root()) == facts::usable_private_root(
                root_directory@,
                report@,
            ) && Some(r->Ok_0.identity()) == facts::directory_identity(report.target),
            r is Err ==> r->Err_0 == ProcessAdapterError::InvalidSandbox,
    {
        let root = match canonical_task_scratch_root(root_directory, report) {
            Ok(root) => root,
            Err(error) => {
                return Err(error);
            },
        };
        match DirectoryIdentity::read(report.target) {
            Ok(root_identity) => Ok(TaskScratchManager { root_directory: root, root_identity }),
            Err(error) => Err(error),
        }
    }

    /// The root of the scratch space.
    #[must_use]
    pub fn root_directory(&self) -> (r: &[u8])
        ensures
            r@ == self.root(),
    {
        self.root_directory.as_slice()
    }

    fn validate_root(&self, root: &PathReport) -> (r: Result<(), ProcessAdapterError>)
        ensures
            r is Ok <==> self.holds(root@),
            r is Err ==> r->Err_0 == ProcessAdapterError::InvalidSandbox,
    {
        if let Err(error) = validate_owner_only_directory(root.entry) {
            return Err(error);
        }
        match DirectoryIdentity::read(root.target) {
            Ok(identity) => {
                if identity == self.root_identity {
                    Ok(())
                } else {
                    Err(ProcessAdapterError::InvalidSandbox)
                }
            },
            Err(error) => Err(error),
        }
    }

    /// The directory that is to be created for a task, if the root is still the one that was
    /// opened.
    pub fn plan(&self, task_id: TaskId, root: &PathReport) -> (r: Result<
        Vec<u8>,
        ProcessAdapterError,
    >)
        ensures
            r is Ok <==> self.holds(root@) && scratch_directory(self.root(), task_id.value).len()
                <= MAX_SANDBOX_PATH_BYTES,
            r is Ok ==> (r->Ok_0)@ == scratch_directory(self.root(), task_id.value),
            r is Err ==> r->Err_0 == ProcessAdapterError::InvalidSandbox,
    {
        if let Err(error) = self.validate_root(root) {
            return Err(error);
        }
        let name = task_id.display();
        let directory = join(self.root_directory.as_slice(), name.as_str().as_bytes());
        if directory.len() > MAX_SANDBOX_PATH_BYTES {
            return Err(ProcessAdapterError::InvalidSandbox);
        }
        Ok(directory)
    }

    /// Takes the planned directory once it was created, and binds it to the task.
    pub fn create(&self, task_id: TaskId, root: &PathReport, directory: &PathReport) -> (r: Result<
        TaskScratch,
        ProcessAdapterError,
    >)
        ensures
            r is Ok <==> self.holds(root@) && facts::owner_only(directory.entry)
                && directory@.canonical == Some(scratch_directory(self.root(), task_id.value))
                && facts::directory_identity(directory.target) is Some,
            r is Ok ==> r->Ok_0@ == (ScratchModel {
                task: task_id.value,
                directory: scratch_directory(self.root(), task_id.value),
                identity: facts::directory_identity(directory.target)->0,
            }),
            r is Err ==> r->Err_0 == ProcessAdapterError::InvalidSandbox,
    {
        if let Err(error) = self.validate_root(root) {
            return Err(error);
        }
        if let Err(error) = validate_owner_only_directory(directory.entry) {
            return Err(error);
        }
        let canonical = match &directory.canonical {
            Some(canonical) => clone_bytes(canonical.as_slice()),
            None => {
                return Err(ProcessAdapterError::InvalidSandbox);
            },
        };
        let name = task_id.display();
        let expected = join(self.root_directory.as_slice(), name.as_str().as_bytes());
        if !bytes_eq(canonical.as_slice(), expected.as_slice()) {
            return Err(ProcessAdapterError::InvalidSandbox);
        }
        match DirectoryIdentity::read(directory.target) {
            Ok(directory_identity) => Ok(
                TaskScratch { task_id, directory: canonical, directory_identity },
            ),
            Err(error) => Err(error),
        }
    }
}

/// What a scratch directory is bound to.
pub struct ScratchModel {
    pub task: u128,
    pub directory: Seq<u8>,
    pub identity: DirectoryIdentity,
}

/// Newly created, task-bound scratch directory authority.
///
/// This type intentionally does not implement `Clone` or `Debug`. Cleanup is an explicit
/// runtime lifecycle concern; dropping this value does not delete tool-created files.
pub struct TaskScratch {
    task_id: TaskId,
    directory: Vec<u8>,
    directory_identity: DirectoryIdentity,
}

impl View for TaskScratch {
    type V = ScratchModel;

    closed spec fn view(&self) -> ScratchModel {
        ScratchModel {
            task: self.task_id.value,
            directory: self.directory@,
            identity: self.directory_identity,
        }
    }
}

impl TaskScratch {
    /// The task.
    #[must_use]
    pub fn task_id(&self) -> (r: TaskId)
        ensures
            r.value == self@.task,
    {
        self.task_id
    }

    /// The directory.
    #[must_use]
    pub fn directory(&self) -> (r: &[u8])
        ensures
            r@ == self@.directory,
    {
        self.directory.as_slice()
    }

    /// The identity of the directory.
    #[must_use]
    pub fn identity(&self) -> (r: DirectoryIdentity)
        ensures
            r == self@.identity,
    {
        self.directory_identity
    }
}

} // verus!
