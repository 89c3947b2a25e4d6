//! Laws on sandboxed handlers.

use vstd::prelude::*;

use crate::path;
use crate::process::arguments;
use crate::process::bubblewrap::{SandboxModel, SandboxReport};
use crate::process::facts;
use crate::process::handler;
use crate::process::scratch;
use crate::process::{HostPlatform, ProcessAdapterError};
use crate::tool;

verus! {

/// A sandbox can be laid out where its root is a directory other than the filesystem root with
/// four real mount points, its scratch directory stands apart from that root and is still the
/// task's, and its executable stands below the root and can be executed.
pub proof fn law_sandboxes_are_laid_out(s: SandboxModel, report: SandboxReport)
    ensures
        s.layout_ready(report) <==> {
            let root = facts::usable_sandbox_root(s.root, report.root@);
            &&& root is Some
            &&& facts::is_directory(report.mounts@[0]) && facts::is_directory(report.mounts@[1])
                && facts::is_directory(report.mounts@[2]) && facts::is_directory(report.mounts@[3])
            &&& facts::usable_scratch(s.scratch, report.scratch@, root->0) is Some
            &&& s.owner is None || scratch::still_owned(report.scratch.target, (s.owner->0).1)
            &&& path::sandbox_path(s.executable) && report.executable@.canonical is Some
                && path::within(report.executable@.canonical->0, root->0)
                && facts::executable_identity(report.executable.target) is Some
        },
{
}

/// A sandboxed handler is built only on Linux, from a good timeout, good arguments, a usable
/// Bubblewrap, a sandbox that can be laid out and a good environment; one with a cgroup only for
/// the task that owns the scratch directory, with a usable launcher.
pub proof fn law_sandboxed_handlers_are_built_from_good_parts(
    s: SandboxModel,
    platform: HostPlatform,
    report: SandboxReport,
)
    ensures
        ({
            let refusal = s.refusal(platform, report);
            let timed = handler::valid_timeout(s.timeout);
            let argued = tool::valid_arguments(s.fixed);
            let wrapped = facts::usable_executable(s.bubblewrap, report.bubblewrap@) is Some;
            let laid = s.layout_ready(report);
            let set = arguments::valid_environment(s.environment);
            let owned = s.control is None || (s.owner is Some && (s.owner->0).0 == (
            s.control->0).0.task);
            let launched = s.control is None || facts::usable_executable(
                (s.control->0).1,
                report.launcher@,
            ) is Some;
            &&& refusal is None <==> !(platform is Other) && timed && argued && wrapped && laid
                && set && owned && launched
            &&& platform is Other ==> refusal == Some(ProcessAdapterError::UnsupportedPlatform)
            &&& !(platform is Other) && !timed ==> refusal == Some(
                ProcessAdapterError::InvalidConfig,
            )
            &&& !(platform is Other) && timed && !argued ==> refusal == Some(
                ProcessAdapterError::InvalidArguments,
            )
            &&& !(platform is Other) && timed && argued && !wrapped ==> refusal == Some(
                ProcessAdapterError::InvalidConfig,
            )
            &&& !(platform is Other) && timed && argued && wrapped && !laid ==> refusal == Some(
                ProcessAdapterError::InvalidSandbox,
            )
            &&& !(platform is Other) && timed && argued && wrapped && laid && !set ==> refusal
                == Some(ProcessAdapterError::InvalidConfig)
            &&& !(platform is Other) && timed && argued && wrapped && laid && set && !owned
                ==> refusal == Some(ProcessAdapterError::InvalidResourceControl)
            &&& !(platform is Other) && timed && argued && wrapped && laid && set && owned
                && !launched ==> refusal == Some(ProcessAdapterError::InvalidConfig)
        }),
{
}

/// A sandboxed handler runs what was configured, by where the paths lead, with the identities
/// that were observed.
pub proof fn law_sandboxed_handlers_hold_what_was_observed(
    s: SandboxModel,
    platform: HostPlatform,
    report: SandboxReport,
)
    requires
        s.refusal(platform, report) is None,
    ensures
        ({
            let built = s.built(report);
            &&& Some(built.executable) == report.executable@.canonical
            &&& Some(built.executable_identity) == facts::executable_identity(
                report.executable.target,
            )
            &&& Some(built.directory) == report.scratch@.canonical
            &&& s.owner is Some ==> built.directory_identity == Some((s.owner->0).1)
            &&& s.owner is None ==> built.directory_identity is None
            &&& built.fixed == s.fixed && built.environment == s.environment && built.timeout
                == s.timeout
            &&& built.launcher is Bubblewrap
            &&& Some(built.launcher->bubblewrap) == report.bubblewrap@.canonical
            &&& Some(built.launcher->Bubblewrap_identity) == facts::executable_identity(
                report.bubblewrap.target,
            )
            &&& Some(built.launcher->Bubblewrap_root) == report.root@.canonical
            &&& built.launcher->Bubblewrap_verified == s.verified
            &&& s.control is None ==> built.launcher->Bubblewrap_control is None
            &&& s.control is Some ==> built.launcher->Bubblewrap_control is Some
                && built.launcher->Bubblewrap_control->0.cgroup == (s.control->0).0 && Some(
                built.launcher->Bubblewrap_control->0.launcher,
            ) == report.launcher@.canonical && Some(
                built.launcher->Bubblewrap_control->0.launcher_identity,
            ) == facts::executable_identity(report.launcher.target)
        }),
{
}

} // verus!
