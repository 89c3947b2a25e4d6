//! The builder of handlers that run in a Bubblewrap sandbox.

use vstd::prelude::*;

use crate::ids::TaskId;
use crate::process::arguments;
use crate::process::arguments::{
    ProcessArgumentPolicy, Variable, validate_environment,
};
use crate::process::cgroup::{CgroupModel, TaskCgroup};
use crate::process::facts;
use crate::process::facts::{
    DirectoryIdentity, ExecutableIdentity, FileFacts, PathReport, canonical_executable,
    canonical_sandbox_root, canonical_scratch_directory, validate_sandbox_mount_points,
};
use crate::process::handler;
use crate::process::handler::{
    ControlModel, HandlerModel, LauncherModel, ProcessToolHandler, ResourceControl,
    fixed_arguments_are_valid, is_valid_timeout, no_texts, no_variables,
};
use crate::process::rootfs::{RootModel, VerifiedRootFilesystem};
use crate::process::sandbox;
use crate::process::sandbox::canonical_sandbox_executable;
use crate::process::scratch;
use crate::process::scratch::{TaskScratch, validate_task_scratch_identity};
use crate::process::{DEFAULT_TIMEOUT_SECONDS, HostPlatform, ProcessAdapterError};
use crate::text;
use crate::text::clone_bytes;
use crate::time::{Duration, NANOS_PER_SECOND};
use crate::tool;

verus! {

/// What was observed of the host when a sandboxed handler is built.
pub struct SandboxReport {
    /// Bubblewrap.
    pub bubblewrap: PathReport,
    /// The root of the sandbox.
    pub root: PathReport,
    /// `proc`, `dev`, `tmp` and `workspace` below the root, without following links.
    pub mounts: [Option<FileFacts>; 4],
    /// The scratch directory.
    pub scratch: PathReport,
    /// The executable, below the root.
    pub executable: PathReport,
    /// The launcher that enters the cgroup.
    pub launcher: PathReport,
}

/// What a sandboxed handler is built from.
pub struct SandboxModel {
    pub bubblewrap: Seq<u8>,
    pub root: Seq<u8>,
    pub verified: Option<RootModel>,
    pub executable: Seq<u8>,
    pub scratch: Seq<u8>,
    /// The task that owns the scratch directory, and the directory's identity.
    pub owner: Option<(u128, DirectoryIdentity)>,
    pub fixed: Seq<Seq<char>>,
    pub environment: Seq<Variable>,
    pub timeout: Duration,
    pub control: Option<(CgroupModel, Seq<u8>)>,
}

/// Whether every mount point is a directory of its own.
pub open spec fn mounts_ready(mounts: [Option<FileFacts>; 4]) -> bool {
    forall|i: int| 0 <= i < 4 ==> facts::is_directory(#[trigger] mounts@[i])
}

impl SandboxModel {
    /// The root of the sandbox.
    pub open spec fn root_path(self, report: SandboxReport) -> Option<Seq<u8>> {
        facts::usable_sandbox_root(self.root, report.root@)
    }

    /// Whether the sandbox can be laid out.
    pub open spec fn layout_ready(self, report: SandboxReport) -> bool {
        let root = self.root_path(report);
        &&& root is Some
        &&& mounts_ready(report.mounts)
        &&& facts::usable_scratch(self.scratch, report.scratch@, root->0) is Some
        &&& self.owner is Some ==> scratch::still_owned(
            report.scratch.target,
            (self.owner->0).1,
        )
        &&& sandbox::sandboxed(root->0, self.executable, report.executable@)
    }

    /// Why no handler is built, if none is.
    pub open spec fn refusal(self, platform: HostPlatform, report: SandboxReport) -> Option<
        ProcessAdapterError,
    > {
        if platform is Other {
            Some(ProcessAdapterError::UnsupportedPlatform)
        } else if !handler::valid_timeout(self.timeout) {
            Some(ProcessAdapterError::InvalidConfig)
        } else if !tool::valid_arguments(self.fixed) {
            Some(ProcessAdapterError::InvalidArguments)
        } else if facts::usable_executable(self.bubblewrap, report.bubblewrap@) is None {
            Some(ProcessAdapterError::InvalidConfig)
        } else if !self.layout_ready(report) {
            Some(ProcessAdapterError::InvalidSandbox)
        } else if !arguments::valid_environment(self.environment) {
            Some(ProcessAdapterError::InvalidConfig)
        } else {
            match self.control {
                None => None,
                Some((cgroup, launcher)) => if self.owner is None || (self.owner->0).0
                    != cgroup.task {
                    Some(ProcessAdapterError::InvalidResourceControl)
                } else if facts::usable_executable(launcher, report.launcher@) is None {
                    Some(ProcessAdapterError::InvalidConfig)
                } else {
                    None
                },
            }
        }
    }

    /// The handler that is built.
    pub open spec fn built(self, report: SandboxReport) -> HandlerModel {
        let root = self.root_path(report)->0;
        HandlerModel {
            executable: report.executable@.canonical->0,
            executable_identity: facts::executable_identity(report.executable.target)->0,
            directory: report.scratch@.canonical->0,
            directory_identity: match self.owner {
                Some((_, identity)) => Some(identity),
                None => None,
            },
            fixed: self.fixed,
            environment: self.environment,
            timeout: self.timeout,
            launcher: LauncherModel::Bubblewrap {
                bubblewrap: report.bubblewrap@.canonical->0,
                identity: facts::executable_identity(report.bubblewrap.target)->0,
                root,
                verified: self.verified,
                sandbox_executable: sandbox::inside(root, report.executable@.canonical->0),
                control: match self.control {
                    None => None,
                    Some((cgroup, _)) => Some(
                        ControlModel {
                            cgroup,
                            launcher: report.launcher@.canonical->0,
                            launcher_identity: facts::executable_identity(
                                report.launcher.target,
                            )->0,
                        },
                    ),
                },
            },
        }
    }
}

/// Trusted builder for one Linux Bubblewrap-isolated child-process tool handler.
///
/// The root filesystem is mounted read-only at `/`. The scratch directory is the only configured
/// writable host path and is mounted at `/workspace`. The sandbox always receives a new network
/// namespace; there is deliberately no network-enabled mode.
pub struct BubblewrapProcessToolBuilder<P: ProcessArgumentPolicy> {
    bubblewrap: Vec<u8>,
    root_filesystem: Vec<u8>,
    verified: Option<VerifiedRootFilesystem>,
    sandbox_executable: Vec<u8>,
    scratch_directory: Vec<u8>,
    owner: Option<(TaskId, DirectoryIdentity)>,
    fixed_arguments: Vec<String>,
    environment: Vec<(String, String)>,
    timeout: Duration,
    argument_policy: P,
    control: Option<(TaskCgroup, Vec<u8>)>,
}

impl<P: ProcessArgumentPolicy> BubblewrapProcessToolBuilder<P> {
    /// What the handler is built from.
    pub closed spec fn model(&self) -> SandboxModel {
        SandboxModel {
            bubblewrap: self.bubblewrap@,
            root: self.root_filesystem@,
            verified: match self.verified {
                Some(verified) => Some(verified@),
                None => None,
            },
            executable: self.sandbox_executable@,
            scratch: self.scratch_directory@,
            owner: match self.owner {
                Some((task, identity)) => Some((task.value, identity)),
                None => None,
            },
            fixed: text::texts(self.fixed_arguments@),
            environment: arguments::variables(self.environment@),
            timeout: self.timeout,
            control: match self.control {
                Some((cgroup, launcher)) => Some((cgroup@, launcher@)),
                None => None,
            },
        }
    }

    /// The policy on dynamic arguments.
    pub closed spec fn policy(&self) -> P {
        self.argument_policy
    }

    /// A builder for a sandbox with a scratch directory that no task owns.
    pub fn new(
        bubblewrap: Vec<u8>,
        root_filesystem: Vec<u8>,
        sandbox_executable: Vec<u8>,
        scratch_directory: Vec<u8>,
        argument_policy: P,
    ) -> (r: BubblewrapProcessToolBuilder<P>)
        ensures
            r.model() == (SandboxModel {
                bubblewrap: bubblewrap@,
                root: root_filesystem@,
                verified: None,
                executable: sandbox_executable@,
                scratch: scratch_directory@,
                owner: None,
                fixed: Seq::empty(),
                environment: Seq::empty(),
                timeout: Duration { nanos: (DEFAULT_TIMEOUT_SECONDS * NANOS_PER_SECOND) as u128 },
                control: None,
            }),
            r.policy() == argument_policy,
    {
        BubblewrapProcessToolBuilder {
            bubblewrap,
            root_filesystem,
            verified: None,
            sandbox_executable,
            scratch_directory,
            owner: None,
            fixed_arguments: no_texts(),
            environment: no_variables(),
            timeout: Duration::from_secs(DEFAULT_TIMEOUT_SECONDS),
            argument_policy,
            control: None,
        }
    }

    /// A builder that uses scratch space freshly allocated for one task.
    pub fn new_for_task(
        bubblewrap: Vec<u8>,
        root_filesystem: Vec<u8>,
        sandbox_executable: Vec<u8>,
        task_scratch: &TaskScratch,
        argument_policy: P,
    ) -> (r: BubblewrapProcessToolBuilder<P>)
        ensures
            r.model() == (SandboxModel {
                bubblewrap: bubblewrap@,
                root: root_filesystem@,
                verified: None,
                executable: sandbox_executable@,
                scratch: task_scratch@.directory,
                owner: Some((task_scratch@.task, task_scratch@.identity)),
                fixed: Seq::empty(),
                environment: Seq::empty(),
                timeout: Duration { nanos: (DEFAULT_TIMEOUT_SECONDS * NANOS_PER_SECOND) as u128 },
                control: None,
            }),
            r.policy() == argument_policy,
    {
        BubblewrapProcessToolBuilder {
            owner: Some((task_scratch.task_id(), task_scratch.identity())),
            ..BubblewrapProcessToolBuilder::new(
                bubblewrap,
                root_filesystem,
                sandbox_executable,
                clone_bytes(task_scratch.directory()),
                argument_policy,
            )
        }
    }

    /// A builder that also holds the root filesystem to its digest before every run.
    pub fn new_for_verified_task(
        bubblewrap: Vec<u8>,
        root_filesystem: &VerifiedRootFilesystem,
        sandbox_executable: Vec<u8>,
        task_scratch: &TaskScratch,
        argument_policy: P,
    ) -> (r: BubblewrapProcessToolBuilder<P>)
        ensures
            r.model() == (SandboxModel {
                bubblewrap: bubblewrap@,
                root: root_filesystem@.directory,
                verified: Some(root_filesystem@),
                executable: sandbox_executable@,
                scratch: task_scratch@.directory,
                owner: Some((task_scratch@.task, task_scratch@.identity)),
                fixed: Seq::empty(),
                environment: Seq::empty(),
                timeout: Duration { nanos: (DEFAULT_TIMEOUT_SECONDS * NANOS_PER_SECOND) as u128 },
                control: None,
            }),
            r.policy() == argument_policy,
    {
        BubblewrapProcessToolBuilder {
            verified: Some(root_filesystem.state()),
            ..BubblewrapProcessToolBuilder::new_for_task(
                bubblewrap,
                clone_bytes(root_filesystem.directory()),
                sandbox_executable,
                task_scratch,
                argument_policy,
            )
        }
    }

    /// Sets the fixed arguments.
    #[must_use]
    pub fn fixed_arguments(self, arguments: Vec<String>) -> (r: BubblewrapProcessToolBuilder<P>)
        ensures
            r.model() == (SandboxModel { fixed: text::texts(arguments@), ..self.model() }),
            r.policy() == self.policy(),
    {
        BubblewrapProcessToolBuilder { fixed_arguments: arguments, ..self }
    }

    /// Sets the environment.
    #[must_use]
    pub fn environment(self, environment: Vec<(String, String)>) -> (r:
        BubblewrapProcessToolBuilder<P>)
        ensures
            r.model() == (SandboxModel {
                environment: arguments::variables(environment@),
                ..self.model()
            }),
            r.policy() == self.policy(),
    {
        BubblewrapProcessToolBuilder { environment, ..self }
    }

    /// Sets the timeout.
    #[must_use]
    pub fn timeout(self, timeout: Duration) -> (r: BubblewrapProcessToolBuilder<P>)
        ensures
            r.model() == (SandboxModel { timeout, ..self.model() }),
            r.policy() == self.policy(),
    {
        BubblewrapProcessToolBuilder { timeout, ..self }
    }

    /// Puts every run into the cgroup of the task, through a launcher that enters it.
    #[must_use]
    pub fn task_cgroup(self, cgroup: &TaskCgroup, launcher: Vec<u8>) -> (r:
        BubblewrapProcessToolBuilder<P>)
        ensures
            r.model() == (SandboxModel { control: Some((cgroup@, launcher@)), ..self.model() }),
            r.policy() == self.policy(),
    {
        BubblewrapProcessToolBuilder { control: Some((cgroup.state(), launcher)), ..self }
    }

    /// Builds the handler from what was observed of the host.
    pub fn build(self, platform: HostPlatform, report: &SandboxReport) -> (r: Result<
        ProcessToolHandler<P>,
        ProcessAdapterError,
    >)
        ensures
            match r {
                Ok(handler) => self.model().refusal(platform, *report) is None && handler.model()
                    == self.model().built(*report) && handler.policy() == self.policy(),
                Err(error) => self.model().refusal(platform, *report) == Some(error),
            },
    {
        let ghost model = self.model();
        if !platform.is_linux() {
            return Err(ProcessAdapterError::UnsupportedPlatform);
        }
        if !is_valid_timeout(self.timeout) {
            return Err(ProcessAdapterError::InvalidConfig);
        }
        if !fixed_arguments_are_valid(&self.fixed_arguments) {
            return Err(ProcessAdapterError::InvalidArguments);
        }
        let bubblewrap = match canonical_executable(
            self.bubblewrap.as_slice(),
            &report.bubblewrap,
        ) {
            Ok(path) => path,
            Err(error) => {
                return Err(error);
            },
        };
        let bubblewrap_identity = match ExecutableIdentity::read(report.bubblewrap.target) {
            Ok(identity) => identity,
            Err(error) => {
                return Err(error);
            },
        };
        let root = match canonical_sandbox_root(self.root_filesystem.as_slice(), &report.root) {
            Ok(path) => path,
            Err(error) => {
                return Err(error);
            },
        };
        if let Err(error) = validate_sandbox_mount_points(&report.mounts) {
            return Err(error);
        }
        let scratch_directory = match canonical_scratch_directory(
            self.scratch_directory.as_slice(),
            &report.scratch,
            root.as_slice(),
        ) {
            Ok(path) => path,
            Err(error) => {
                return Err(error);
            },
        };
        let mut directory_identity: Option<DirectoryIdentity> = None;
        let mut owning_task: Option<TaskId> = None;
        if let Some((task, identity)) = self.owner {
            if let Err(error) = validate_task_scratch_identity(report.scratch.target, identity) {
                return Err(error);
            }
            directory_identity = Some(identity);
            owning_task = Some(task);
        }
        let executable = match canonical_sandbox_executable(
            root.as_slice(),
            self.sandbox_executable.as_slice(),
            &report.executable,
        ) {
            Ok(executable) => executable,
            Err(error) => {
                return Err(error);
            },
        };
        assert(model.layout_ready(*report));
        let environment = match validate_environment(self.environment) {
            Ok(environment) => environment,
            Err(error) => {
                return Err(error);
            },
        };
        let control = match self.control {
            None => None,
            Some((cgroup, launcher)) => {
                let owned = match owning_task {
                    Some(task) => task.value == cgroup.task_id().value,
                    None => false,
                };
                if !owned {
                    return Err(ProcessAdapterError::InvalidResourceControl);
                }
                let path = match canonical_executable(launcher.as_slice(), &report.launcher) {
                    Ok(path) => path,
                    Err(error) => {
                        return Err(error);
                    },
                };
                let identity = match ExecutableIdentity::read(report.launcher.target) {
                    Ok(identity) => identity,
                    Err(error) => {
                        return Err(error);
                    },
                };
                Some(ResourceControl::new(cgroup, path, identity))
            },
        };
        Ok(
            ProcessToolHandler::sandboxed(
                executable,
                (scratch_directory, directory_identity),
                (self.fixed_arguments, environment),
                self.timeout,
                self.argument_policy,
                (bubblewrap, bubblewrap_identity),
                (root, self.verified),
                control,
            ),
        )
    }
}

} // verus!
