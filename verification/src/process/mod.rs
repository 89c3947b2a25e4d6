//! Bounded child-process tool handler.
//!
//! The handler executes one trusted, explicitly configured absolute executable. It never
//! invokes a shell or searches `PATH`. Dynamic arguments are accepted only after a trusted
//! policy approves them, and the child receives an empty environment except for explicitly
//! configured values.
//!
//! Linux callers may opt into a Bubblewrap launcher with an explicit read-only root filesystem,
//! a separate writable scratch directory, namespace isolation, and no network.
//!
//! The modules decide what is launched and what an observation of the host means; the host is
//! observed, and the child run, by the program around them.

use vstd::prelude::*;

pub mod arguments;
pub mod bubblewrap;
pub mod cgroup;
pub mod descriptor;
pub mod facts;
pub mod handler;
pub mod launch;
pub mod rootfs;
pub mod sandbox;
pub mod scratch;
pub mod seccomp;
pub mod wait;

verus! {

pub const DEFAULT_TIMEOUT_SECONDS: u64 = 30;

pub const MAX_TIMEOUT_SECONDS: u64 = 3_600;

pub const MAX_ARGUMENTS: usize = 64;

pub const MAX_ARGUMENT_BYTES: usize = 4_096;

pub const MAX_TOTAL_ARGUMENT_BYTES: usize = 65_536;

pub const MAX_ENVIRONMENT_VARIABLES: usize = 64;

pub const MAX_ENVIRONMENT_NAME_BYTES: usize = 128;

pub const MAX_ENVIRONMENT_VALUE_BYTES: usize = 4_096;

pub const MAX_TOTAL_ENVIRONMENT_BYTES: usize = 65_536;

pub const MAX_SANDBOX_PATH_BYTES: usize = 4_096;

/// The host that a sandbox would run on.
#[derive(Clone, Copy, Debug, PartialEq, Eq, Structural)]
pub enum HostPlatform {
    LinuxX86_64,
    /// Linux on another architecture.
    Linux,
    Other,
}

impl HostPlatform {
    /// Whether the host runs Linux.
    #[must_use]
    pub fn is_linux(self) -> (r: bool)
        ensures
            r == (self is LinuxX86_64 || self is Linux),
    {
        match self {
            HostPlatform::Other => false,
            _ => true,
        }
    }
}

/// Stable, redacted child-process failure categories.
#[derive(Clone, Copy, Debug, PartialEq, Eq, Structural)]
pub enum ProcessAdapterError {
    InvalidConfig,
    InvalidSandbox,
    InvalidResourceControl,
    UnsupportedPlatform,
    UnsupportedFilesystemCapability,
    DescriptorTransferFailed,
    SeccompUnavailable,
    InvalidArguments,
    ArgumentsDenied,
    ExecutableChanged,
    SpawnFailed,
    WaitFailed,
    TimedOut,
    ResourceLimitExceeded,
    ExitFailed,
    OutputFailed,
}

impl ProcessAdapterError {
    /// The text of the failure.
    pub open spec fn text(self) -> Seq<char> {
        match self {
            ProcessAdapterError::InvalidConfig => "invalid Process Adapter configuration"@,
            ProcessAdapterError::InvalidSandbox
            => "invalid Process Adapter sandbox configuration"@,
            ProcessAdapterError::InvalidResourceControl
            => "invalid Process Adapter resource control"@,
            ProcessAdapterError::UnsupportedPlatform
            => "Process Adapter sandbox is unsupported on this platform"@,
            ProcessAdapterError::UnsupportedFilesystemCapability
            => "filesystem capability is unsupported by the Process Adapter"@,
            ProcessAdapterError::DescriptorTransferFailed => "descriptor transfer failed"@,
            ProcessAdapterError::SeccompUnavailable => "seccomp filter is unavailable"@,
            ProcessAdapterError::InvalidArguments => "invalid process arguments"@,
            ProcessAdapterError::ArgumentsDenied => "process arguments denied"@,
            ProcessAdapterError::ExecutableChanged => "configured executable identity changed"@,
            ProcessAdapterError::SpawnFailed => "process spawn failed"@,
            ProcessAdapterError::WaitFailed => "process wait failed"@,
            ProcessAdapterError::TimedOut => "process timed out"@,
            ProcessAdapterError::ResourceLimitExceeded => "process resource limit exceeded"@,
            ProcessAdapterError::ExitFailed => "process exited unsuccessfully"@,
            ProcessAdapterError::OutputFailed => "process output construction failed"@,
        }
    }

    /// The text of the failure.
    #[must_use]
    pub fn display(&self) -> (r: &'static str)
        ensures
            r@ == self.text(),
    {
        match self {
            ProcessAdapterError::InvalidConfig => "invalid Process Adapter configuration",
            ProcessAdapterError::InvalidSandbox => "invalid Process Adapter sandbox configuration",
            ProcessAdapterError::InvalidResourceControl => {
                "invalid Process Adapter resource control"
            },
            ProcessAdapterError::UnsupportedPlatform => {
                "Process Adapter sandbox is unsupported on this platform"
            },
            ProcessAdapterError::UnsupportedFilesystemCapability => {
                "filesystem capability is unsupported by the Process Adapter"
            },
            ProcessAdapterError::DescriptorTransferFailed => "descriptor transfer failed",
            ProcessAdapterError::SeccompUnavailable => "seccomp filter is unavailable",
            ProcessAdapterError::InvalidArguments => "invalid process arguments",
            ProcessAdapterError::ArgumentsDenied => "process arguments denied",
            ProcessAdapterError::ExecutableChanged => "configured executable identity changed",
            ProcessAdapterError::SpawnFailed => "process spawn failed",
            ProcessAdapterError::WaitFailed => "process wait failed",
            ProcessAdapterError::TimedOut => "process timed out",
            ProcessAdapterError::ResourceLimitExceeded => "process resource limit exceeded",
            ProcessAdapterError::ExitFailed => "process exited unsuccessfully",
            ProcessAdapterError::OutputFailed => "process output construction failed",
        }
    }
}

} // verus!
