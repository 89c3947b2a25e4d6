//! What was observed of the host's files.
//!
//! The program around the library looks at the host; these types carry what it saw, and the
//! functions say which of it is acceptable.

use vstd::prelude::*;

use crate::path;
use crate::path::{has_components, is_absolute, is_within};
use crate::process::{MAX_SANDBOX_PATH_BYTES, ProcessAdapterError};
use crate::text::clone_bytes;

verus! {

/// What the metadata of one file says.
#[derive(Clone, Copy, Debug, PartialEq, Eq, Structural)]
pub struct FileFacts {
    pub symlink: bool,
    pub directory: bool,
    pub regular: bool,
    pub mode: u32,
    pub device: u64,
    pub inode: u64,
    pub length: u64,
    pub links: u64,
}

/// What was observed at one path: where it leads, and the metadata of the entry itself and of
/// what it leads to. What could not be observed is `None`.
pub struct PathReport {
    pub canonical: Option<Vec<u8>>,
    pub entry: Option<FileFacts>,
    pub target: Option<FileFacts>,
}

/// What was observed at one path.
pub struct ReportModel {
    pub canonical: Option<Seq<u8>>,
    pub entry: Option<FileFacts>,
    pub target: Option<FileFacts>,
}

impl View for PathReport {
    type V = ReportModel;

    open spec fn view(&self) -> ReportModel {
        ReportModel {
            canonical: match self.canonical {
                Some(bytes) => Some(bytes@),
                None => None,
            },
            entry: self.entry,
            target: self.target,
        }
    }
}

impl PathReport {
    /// A path at which nothing could be observed.
    #[must_use]
    pub fn missing() -> (r: PathReport)
        ensures
            r@ == (ReportModel { canonical: None, entry: None, target: None }),
    {
        PathReport { canonical: None, entry: None, target: None }
    }
}

// ---------------------------------------------------------------- identities

/// The identity of one directory.
#[derive(Clone, Copy, Debug, PartialEq, Eq, Structural)]
pub struct DirectoryIdentity {
    pub device: u64,
    pub inode: u64,
}

/// The identity that metadata gives a directory.
pub open spec fn directory_identity(facts: Option<FileFacts>) -> Option<DirectoryIdentity> {
    match facts {
        None => None,
        Some(facts) => if facts.directory {
            Some(DirectoryIdentity { device: facts.device, inode: facts.inode })
        } else {
            None
        },
    }
}

impl DirectoryIdentity {
    /// Reads the identity of a directory from its metadata.
    pub fn read(facts: Option<FileFacts>) -> (r: Result<DirectoryIdentity, ProcessAdapterError>)
        ensures
            directory_identity(facts) == (match r {
                Ok(identity) => Some(identity),
                Err(_) => None,
            }),
            r is Err ==> r->Err_0 == ProcessAdapterError::InvalidSandbox,
    {
        match facts {
            Some(facts) => {
                if facts.directory {
                    Ok(DirectoryIdentity { device: facts.device, inode: facts.inode })
                } else {
                    Err(ProcessAdapterError::InvalidSandbox)
                }
            },
            None => Err(ProcessAdapterError::InvalidSandbox),
        }
    }

    /// The device and the inode.
    #[must_use]
    pub fn raw(&self) -> (r: (u64, u64))
        ensures
            r == (self.device, self.inode),
    {
        (self.device, self.inode)
    }
}

/// The identity of one executable file.
#[derive(Clone, Copy, Debug, PartialEq, Eq, Structural)]
pub struct ExecutableIdentity {
    pub device: u64,
    pub inode: u64,
}

/// The identity that metadata gives an executable: a regular file that someone may execute.
pub open spec fn executable_identity(facts: Option<FileFacts>) -> Option<ExecutableIdentity> {
    match facts {
        None => None,
        Some(facts) => if facts.regular && facts.mode & 0o111 != 0 {
            Some(ExecutableIdentity { device: facts.device, inode: facts.inode })
        } else {
            None
        },
    }
}

impl ExecutableIdentity {
    /// Reads the identity of an executable from its metadata.
    pub fn read(facts: Option<FileFacts>) -> (r: Result<ExecutableIdentity, ProcessAdapterError>)
        ensures
            executable_identity(facts) == (match r {
                Ok(identity) => Some(identity),
                Err(_) => None,
            }),
            r is Err ==> r->Err_0 == ProcessAdapterError::ExecutableChanged,
    {
        match facts {
            Some(facts) => {
                if facts.regular && facts.mode & 0o111 != 0 {
                    Ok(ExecutableIdentity { device: facts.device, inode: facts.inode })
                } else {
                    Err(ProcessAdapterError::ExecutableChanged)
                }
            },
            None => Err(ProcessAdapterError::ExecutableChanged),
        }
    }
}

// --------------------------------------------------------------------- rules

/// A real directory that nobody but its owner may use.
pub open spec fn owner_only(facts: Option<FileFacts>) -> bool {
    match facts {
        None => false,
        Some(facts) => !facts.symlink && facts.directory && facts.mode & 0o077 == 0,
    }
}

/// A real directory that nobody may write to.
pub open spec fn read_only(facts: Option<FileFacts>) -> bool {
    match facts {
        None => false,
        Some(facts) => !facts.symlink && facts.directory && facts.mode & 0o222 == 0,
    }
}

/// Decides [`owner_only`].
pub fn validate_owner_only_directory(facts: Option<FileFacts>) -> (r: Result<
    (),
    ProcessAdapterError,
>)
    ensures
        r is Ok <==> owner_only(facts),
        r is Err ==> r->Err_0 == ProcessAdapterError::InvalidSandbox,
{
    match facts {
        Some(facts) => {
            if facts.symlink || !facts.directory || facts.mode & 0o077 != 0 {
                return Err(ProcessAdapterError::InvalidSandbox);
            }
            Ok(())
        },
        None => Err(ProcessAdapterError::InvalidSandbox),
    }
}

/// Decides [`read_only`].
pub fn validate_read_only_directory(facts: Option<FileFacts>) -> (r: Result<
    (),
    ProcessAdapterError,
>)
    ensures
        r is Ok <==> read_only(facts),
        r is Err ==> r->Err_0 == ProcessAdapterError::InvalidSandbox,
{
    match facts {
        Some(facts) => {
            if facts.symlink || !facts.directory || facts.mode & 0o222 != 0 {
                return Err(ProcessAdapterError::InvalidSandbox);
            }
            Ok(())
        },
        None => Err(ProcessAdapterError::InvalidSandbox),
    }
}

fn canonical_of(report: &PathReport) -> (r: Option<Vec<u8>>)
    ensures
        report@.canonical == (match r {
            Some(bytes) => Some(bytes@),
            None => None,
        }),
{
    match &report.canonical {
        Some(bytes) => Some(clone_bytes(bytes.as_slice())),
        None => None,
    }
}

/// Where a configured executable leads, if it may be configured.
pub open spec fn usable_executable(path: Seq<u8>, report: ReportModel) -> Option<Seq<u8>> {
    if path::absolute(path) && executable_identity(report.target) is Some {
        report.canonical
    } else {
        None
    }
}

/// Where a configured directory leads, if it may be configured.
pub open spec fn usable_directory(path: Seq<u8>, report: ReportModel) -> Option<Seq<u8>> {
    if path::absolute(path) && report.target is Some && report.target->0.directory {
        report.canonical
    } else {
        None
    }
}

/// Resolves a configured executable.
pub fn canonical_executable(path: &[u8], report: &PathReport) -> (r: Result<
    Vec<u8>,
    ProcessAdapterError,
>)
    ensures
        usable_executable(path@, report@) == (match r {
            Ok(bytes) => Some(bytes@),
            Err(_) => None,
        }),
        r is Err ==> r->Err_0 == ProcessAdapterError::InvalidConfig,
{
    if !is_absolute(path) || ExecutableIdentity::read(report.target).is_err() {
        return Err(ProcessAdapterError::InvalidConfig);
    }
    match canonical_of(report) {
        Some(canonical) => Ok(canonical),
        None => Err(ProcessAdapterError::InvalidConfig),
    }
}

/// Resolves a configured directory.
pub fn canonical_directory(path: &[u8], report: &PathReport) -> (r: Result<
    Vec<u8>,
    ProcessAdapterError,
>)
    ensures
        usable_directory(path@, report@) == (match r {
            Ok(bytes) => Some(bytes@),
            Err(_) => None,
        }),
        r is Err ==> r->Err_0 == ProcessAdapterError::InvalidConfig,
{
    let directory = match report.target {
        Some(facts) => facts.directory,
        None => false,
    };
    if !is_absolute(path) || !directory {
        return Err(ProcessAdapterError::InvalidConfig);
    }
    match canonical_of(report) {
        Some(canonical) => Ok(canonical),
        None => Err(ProcessAdapterError::InvalidConfig),
    }
}

/// Where a configured private root leads, if it may be configured: a real, absolute, bounded,
/// owner-only directory other than the filesystem root.
pub open spec fn usable_private_root(path: Seq<u8>, report: ReportModel) -> Option<Seq<u8>> {
    match report.canonical {
        None => None,
        Some(canonical) => if path::absolute(path) && path.len() <= MAX_SANDBOX_PATH_BYTES
            && owner_only(report.entry) && path::components(canonical).len() > 0 {
            Some(canonical)
        } else {
            None
        },
    }
}

/// Resolves the root of task scratch space.
pub fn canonical_task_scratch_root(path: &[u8], report: &PathReport) -> (r: Result<
    Vec<u8>,
    ProcessAdapterError,
>)
    ensures
        usable_private_root(path@, report@) == (match r {
            Ok(bytes) => Some(bytes@),
            Err(_) => None,
        }),
        r is Err ==> r->Err_0 == ProcessAdapterError::InvalidSandbox,
{
    if !is_absolute(path) || path.len() > MAX_SANDBOX_PATH_BYTES {
        return Err(ProcessAdapterError::InvalidSandbox);
    }
    if let Err(error) = validate_owner_only_directory(report.entry) {
        return Err(error);
    }
    match canonical_of(report) {
        Some(canonical) => {
            if has_components(canonical.as_slice()) {
                Ok(canonical)
            } else {
                Err(ProcessAdapterError::InvalidSandbox)
            }
        },
        None => Err(ProcessAdapterError::InvalidSandbox),
    }
}

/// Where a configured sandbox root leads, if it may be configured: any directory but the
/// filesystem root.
pub open spec fn usable_sandbox_root(path: Seq<u8>, report: ReportModel) -> Option<Seq<u8>> {
    match usable_directory(path, report) {
        None => None,
        Some(canonical) => if path::components(canonical).len() > 0 {
            Some(canonical)
        } else {
            None
        },
    }
}

/// Resolves the root filesystem of a sandbox.
pub fn canonical_sandbox_root(path: &[u8], report: &PathReport) -> (r: Result<
    Vec<u8>,
    ProcessAdapterError,
>)
    ensures
        usable_sandbox_root(path@, report@) == (match r {
            Ok(bytes) => Some(bytes@),
            Err(_) => None,
        }),
        r is Err ==> r->Err_0 == ProcessAdapterError::InvalidSandbox,
{
    match canonical_directory(path, report) {
        Ok(canonical) => {
            if has_components(canonical.as_slice()) {
                Ok(canonical)
            } else {
                Err(ProcessAdapterError::InvalidSandbox)
            }
        },
        Err(_) => Err(ProcessAdapterError::InvalidSandbox),
    }
}

/// Where a configured scratch directory leads, if it may be configured: a directory that
/// neither holds the root filesystem nor lies in it.
pub open spec fn usable_scratch(path: Seq<u8>, report: ReportModel, root: Seq<u8>) -> Option<
    Seq<u8>,
> {
    match usable_sandbox_root(path, report) {
        None => None,
        Some(canonical) => if path::within(canonical, root) || path::within(root, canonical) {
            None
        } else {
            Some(canonical)
        },
    }
}

/// Resolves the scratch directory of a sandbox.
pub fn canonical_scratch_directory(path: &[u8], report: &PathReport, root: &[u8]) -> (r: Result<
    Vec<u8>,
    ProcessAdapterError,
>)
    ensures
        usable_scratch(path@, report@, root@) == (match r {
            Ok(bytes) => Some(bytes@),
            Err(_) => None,
        }),
        r is Err ==> r->Err_0 == ProcessAdapterError::InvalidSandbox,
{
    match canonical_sandbox_root(path, report) {
        Ok(canonical) => {
            if is_within(canonical.as_slice(), root) || is_within(root, canonical.as_slice()) {
                Err(ProcessAdapterError::InvalidSandbox)
            } else {
                Ok(canonical)
            }
        },
        Err(error) => Err(error),
    }
}

/// The mount points of a sandbox are real directories: `proc`, `dev`, `tmp` and `workspace` of
/// the root filesystem.
pub fn validate_sandbox_mount_points(mounts: &[Option<FileFacts>; 4]) -> (r: Result<
    (),
    ProcessAdapterError,
>)
    ensures
        r is Ok <==> forall|i: int|
            0 <= i < 4 ==> is_directory(#[trigger] mounts@[i]),
        r is Err ==> r->Err_0 == ProcessAdapterError::InvalidSandbox,
{
    let mut i: usize = 0;
    while i < 4
        invariant
            i <= 4,
            mounts@.len() == 4,
            forall|k: int| 0 <= k < i ==> is_directory(#[trigger] mounts@[k]),
        decreases 4 - i,
    {
        let directory = match mounts[i] {
            Some(facts) => facts.directory && !facts.symlink,
            None => false,
        };
        if !directory {
            assert(!is_directory(mounts@[i as int]));
            return Err(ProcessAdapterError::InvalidSandbox);
        }
        i = i + 1;
    }
    Ok(())
}

/// A real directory.
pub open spec fn is_directory(facts: Option<FileFacts>) -> bool {
    facts is Some && facts->0.directory && !facts->0.symlink
}

} // verus!
