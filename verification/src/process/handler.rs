//! Tool handlers that run one fixed executable.

use vstd::prelude::*;

use crate::path;
use crate::path::join;
use crate::process::arguments;
use crate::process::arguments::{
    ProcessArgumentPolicy, Variable, all_arguments, validate_arguments, validate_environment,
};
use crate::process::cgroup::{CgroupModel, CgroupReport, TaskCgroup};
use crate::process::facts;
use crate::process::facts::{
    DirectoryIdentity, ExecutableIdentity, FileFacts, PathReport, ReportModel,
    canonical_directory, canonical_executable,
};
use crate::process::launch::{LaunchModel, LaunchRequest, word};
use crate::process::rootfs;
use crate::process::rootfs::{RootModel, TreeEntry, VerifiedRootFilesystem};
use crate::process::sandbox;
use crate::process::sandbox::{SandboxExecutable, bubblewrap_arguments};
use crate::process::scratch;
use crate::process::scratch::validate_task_scratch_identity;
use crate::process::{
    DEFAULT_TIMEOUT_SECONDS, MAX_TIMEOUT_SECONDS, ProcessAdapterError,
};
use crate::text;
use crate::text::clone_bytes;
use crate::time::{Duration, NANOS_PER_SECOND};
use crate::tool;
use crate::tool::{ToolFailure, ToolOutput};

verus! {

/// Whether a run may be given this much time.
pub open spec fn valid_timeout(timeout: Duration) -> bool {
    0 < timeout.nanos <= MAX_TIMEOUT_SECONDS * NANOS_PER_SECOND
}

pub(crate) fn is_valid_timeout(timeout: Duration) -> (r: bool)
    ensures
        r == valid_timeout(timeout),
{
    timeout.nanos > 0 && timeout.nanos <= MAX_TIMEOUT_SECONDS as u128 * NANOS_PER_SECOND
}

// ------------------------------------------------------------------- models

/// What controls the resources of a run.
pub struct ControlModel {
    pub cgroup: CgroupModel,
    pub launcher: Seq<u8>,
    pub launcher_identity: ExecutableIdentity,
}

/// How the executable is started.
pub enum LauncherModel {
    Direct,
    Bubblewrap {
        bubblewrap: Seq<u8>,
        identity: ExecutableIdentity,
        root: Seq<u8>,
        verified: Option<RootModel>,
        sandbox_executable: Seq<u8>,
        control: Option<ControlModel>,
    },
}

/// What a handler runs.
pub struct HandlerModel {
    pub executable: Seq<u8>,
    pub executable_identity: ExecutableIdentity,
    pub directory: Seq<u8>,
    pub directory_identity: Option<DirectoryIdentity>,
    pub fixed: Seq<Seq<char>>,
    pub environment: Seq<Variable>,
    pub timeout: Duration,
    pub launcher: LauncherModel,
}

/// A child process that is to be started.
pub struct PlanModel {
    pub program: Seq<u8>,
    pub arguments: Seq<Seq<u8>>,
    pub directory: Seq<u8>,
    pub environment: Seq<Variable>,
}

/// What was observed of the host right before a run.
pub struct RunReport {
    /// The executable.
    pub executable: Option<FileFacts>,
    /// The working directory.
    pub directory: Option<FileFacts>,
    /// Bubblewrap.
    pub bubblewrap: Option<FileFacts>,
    /// The root of the sandbox.
    pub root: Option<FileFacts>,
    /// What is below the root of the sandbox.
    pub entries: Vec<TreeEntry>,
    /// The cgroup.
    pub cgroup: CgroupReport,
    /// The launcher that enters the cgroup.
    pub launcher: Option<FileFacts>,
}

/// Texts as the words of a command line.
pub open spec fn words(list: Seq<Seq<char>>) -> Seq<Seq<u8>> {
    list.map_values(|text: Seq<char>| text::utf8(text))
}

fn words_of(list: &Vec<String>) -> (r: Vec<Vec<u8>>)
    ensures
        text::pieces(r@) == words(text::texts(list@)),
{
    let mut out: Vec<Vec<u8>> = Vec::new();
    let mut i: usize = 0;
    while i < list.len()
        invariant
            i <= list@.len(),
            out@.len() == i,
            forall|k: int| 0 <= k < i ==> (#[trigger] out@[k])@ == text::utf8(list@[k]@),
        decreases list@.len() - i,
    {
        out.push(word(list[i].as_str()));
        i = i + 1;
    }
    assert(text::pieces(out@) =~= words(text::texts(list@)));
    out
}

impl LauncherModel {
    /// Why a run is refused for what starts it.
    pub open spec fn refusal(self, report: RunReport) -> Option<ProcessAdapterError> {
        match self {
            LauncherModel::Direct => None,
            LauncherModel::Bubblewrap { identity, verified, control, .. } => {
                if facts::executable_identity(report.bubblewrap) != Some(identity) {
                    Some(ProcessAdapterError::ExecutableChanged)
                } else if verified is Some && !verified->0.intact(
                    report.root,
                    rootfs::entry_models(report.entries@),
                ) {
                    Some(ProcessAdapterError::InvalidSandbox)
                } else {
                    match control {
                        None => None,
                        Some(control) => if !control.cgroup.limited(report.cgroup) {
                            Some(ProcessAdapterError::InvalidResourceControl)
                        } else if facts::executable_identity(report.launcher) != Some(
                            control.launcher_identity,
                        ) {
                            Some(ProcessAdapterError::ExecutableChanged)
                        } else {
                            None
                        },
                    }
                }
            },
        }
    }
}

impl HandlerModel {
    /// Why a run is refused, if it is, once the policy has answered.
    pub open spec fn refusal(self, dynamic: Seq<Seq<char>>, allowed: bool, report: RunReport) -> Option<
        ProcessAdapterError,
    > {
        if !tool::valid_arguments(self.fixed + dynamic) {
            Some(ProcessAdapterError::InvalidArguments)
        } else if !allowed {
            Some(ProcessAdapterError::ArgumentsDenied)
        } else if facts::executable_identity(report.executable) != Some(self.executable_identity) {
            Some(ProcessAdapterError::ExecutableChanged)
        } else if self.directory_identity is Some && !scratch::still_owned(
            report.directory,
            self.directory_identity->0,
        ) {
            Some(ProcessAdapterError::InvalidSandbox)
        } else {
            self.launcher.refusal(report)
        }
    }

    /// The child process of a run.
    pub open spec fn planned(self, dynamic: Seq<Seq<char>>) -> PlanModel {
        let own = words(self.fixed + dynamic);
        match self.launcher {
            LauncherModel::Direct => PlanModel {
                program: self.executable,
                arguments: own,
                directory: self.directory,
                environment: self.environment,
            },
            LauncherModel::Bubblewrap { bubblewrap, root, sandbox_executable, control, .. } => {
                let sandboxed = sandbox::sandbox_words(root, self.directory, sandbox_executable)
                    + own;
                PlanModel {
                    program: match control {
                        None => bubblewrap,
                        Some(control) => control.launcher,
                    },
                    arguments: match control {
                        None => sandboxed,
                        Some(control) => (LaunchModel {
                            cgroup_procs: path::joined(
                                control.cgroup.directory,
                                text::utf8("cgroup.procs"@),
                            ),
                            device: control.cgroup.identity.device,
                            inode: control.cgroup.identity.inode,
                            executable: bubblewrap,
                            mounts: None,
                            arguments: sandboxed,
                        }).command_line(),
                    },
                    directory: text::utf8("/"@),
                    environment: self.environment,
                }
            },
        }
    }
}

// ------------------------------------------------------------------- builder

/// Trusted builder for one fixed child-process tool handler.
///
/// This type intentionally does not implement `Debug` because environment values may be
/// sensitive. The executable and working directory are canonicalized during `build`.
pub struct ProcessToolBuilder<P: ProcessArgumentPolicy> {
    executable: Vec<u8>,
    working_directory: Vec<u8>,
    fixed_arguments: Vec<String>,
    environment: Vec<(String, String)>,
    timeout: Duration,
    argument_policy: P,
}

/// What a direct handler is built from.
pub struct BuilderModel {
    pub executable: Seq<u8>,
    pub directory: Seq<u8>,
    pub fixed: Seq<Seq<char>>,
    pub environment: Seq<Variable>,
    pub timeout: Duration,
}

impl BuilderModel {
    /// Why no handler is built, if none is.
    pub open spec fn refusal(self, executable: ReportModel, directory: ReportModel) -> Option<
        ProcessAdapterError,
    > {
        if !valid_timeout(self.timeout) {
            Some(ProcessAdapterError::InvalidConfig)
        } else if !tool::valid_arguments(self.fixed) {
            Some(ProcessAdapterError::InvalidArguments)
        } else if facts::usable_executable(self.executable, executable) is None
            || facts::usable_directory(self.directory, directory) is None
            || !arguments::valid_environment(self.environment) {
            Some(ProcessAdapterError::InvalidConfig)
        } else {
            None
        }
    }

    /// The handler that is built.
    pub open spec fn built(self, executable: ReportModel, directory: ReportModel) -> HandlerModel {
        HandlerModel {
            executable: executable.canonical->0,
            executable_identity: facts::executable_identity(executable.target)->0,
            directory: directory.canonical->0,
            directory_identity: None,
            fixed: self.fixed,
            environment: self.environment,
            timeout: self.timeout,
            launcher: LauncherModel::Direct,
        }
    }
}

pub(crate) fn no_texts() -> (r: Vec<String>)
    ensures
        r@.len() == 0,
        text::texts(r@) == Seq::<Seq<char>>::empty(),
{
    let r: Vec<String> = Vec::new();
    assert(text::texts(r@) =~= Seq::<Seq<char>>::empty());
    r
}

pub(crate) fn no_variables() -> (r: Vec<(String, String)>)
    ensures
        arguments::variables(r@) == Seq::<Variable>::empty(),
{
    let r: Vec<(String, String)> = Vec::new();
    assert(arguments::variables(r@) =~= Seq::<Variable>::empty());
    r
}

pub(crate) fn fixed_arguments_are_valid(fixed: &Vec<String>) -> (r: bool)
    ensures
        r == tool::valid_arguments(text::texts(fixed@)),
{
    let none = no_texts();
    proof {
        assert(text::texts(fixed@) + text::texts(none@) =~= text::texts(fixed@));
    }
    validate_arguments(fixed, &none).is_ok()
}

impl<P: ProcessArgumentPolicy> ProcessToolBuilder<P> {
    /// What the handler is built from.
    pub closed spec fn model(&self) -> BuilderModel {
        BuilderModel {
            executable: self.executable@,
            directory: self.working_directory@,
            fixed: text::texts(self.fixed_arguments@),
            environment: arguments::variables(self.environment@),
            timeout: self.timeout,
        }
    }

    /// The policy on dynamic arguments.
    pub closed spec fn policy(&self) -> P {
        self.argument_policy
    }

    /// A builder without fixed arguments and environment, and with the default timeout.
    pub fn new(
        executable: Vec<u8>,
        working_directory: Vec<u8>,
        argument_policy: P,
    ) -> (r: ProcessToolBuilder<P>)
        ensures
            r.model() == (BuilderModel {
                executable: executable@,
                directory: working_directory@,
                fixed: Seq::empty(),
                environment: Seq::empty(),
                timeout: Duration { nanos: (DEFAULT_TIMEOUT_SECONDS * NANOS_PER_SECOND) as u128 },
            }),
            r.policy() == argument_policy,
    {
        ProcessToolBuilder {
            executable,
            working_directory,
            fixed_arguments: no_texts(),
            environment: no_variables(),
            timeout: Duration::from_secs(DEFAULT_TIMEOUT_SECONDS),
            argument_policy,
        }
    }

    /// Sets the fixed arguments.
    #[must_use]
    pub fn fixed_arguments(self, arguments: Vec<String>) -> (r: ProcessToolBuilder<P>)
        ensures
            r.model() == (BuilderModel { fixed: text::texts(arguments@), ..self.model() }),
            r.policy() == self.policy(),
    {
        ProcessToolBuilder { fixed_arguments: arguments, ..self }
    }

    /// Sets the environment.
    #[must_use]
    pub fn environment(self, environment: Vec<(String, String)>) -> (r: ProcessToolBuilder<P>)
        ensures
            r.model() == (BuilderModel {
                environment: arguments::variables(environment@),
                ..self.model()
            }),
            r.policy() == self.policy(),
    {
        ProcessToolBuilder { environment, ..self }
    }

    /// Sets the timeout.
    #[must_use]
    pub fn timeout(self, timeout: Duration) -> (r: ProcessToolBuilder<P>)
        ensures
            r.model() == (BuilderModel { timeout, ..self.model() }),
            r.policy() == self.policy(),
    {
        ProcessToolBuilder { timeout, ..self }
    }

    /// Builds the handler from what was observed of the executable and the directory.
    pub fn build(self, executable: &PathReport, directory: &PathReport) -> (r: Result<
        ProcessToolHandler<P>,
        ProcessAdapterError,
    >)
        ensures
            match r {
                Ok(handler) => self.model().refusal(executable@, directory@) is None
                    && handler.model() == self.model().built(executable@, directory@)
                    && handler.policy() == self.policy(),
                Err(error) => self.model().refusal(executable@, directory@) == Some(error),
            },
    {
        if !is_valid_timeout(self.timeout) {
            return Err(ProcessAdapterError::InvalidConfig);
        }
        if !fixed_arguments_are_valid(&self.fixed_arguments) {
            return Err(ProcessAdapterError::InvalidArguments);
        }
        let path = match canonical_executable(self.executable.as_slice(), executable) {
            Ok(path) => path,
            Err(error) => {
                return Err(error);
            },
        };
        let identity = match ExecutableIdentity::read(executable.target) {
            Ok(identity) => identity,
            Err(error) => {
                return Err(error);
            },
        };
        let working_directory = match canonical_directory(
            self.working_directory.as_slice(),
            directory,
        ) {
            Ok(path) => path,
            Err(error) => {
                return Err(error);
            },
        };
        let environment = match validate_environment(self.environment) {
            Ok(environment) => environment,
            Err(error) => {
                return Err(error);
            },
        };
        Ok(
            ProcessToolHandler {
                executable: path,
                executable_identity: identity,
                working_directory,
                working_directory_identity: None,
                fixed_arguments: self.fixed_arguments,
                environment,
                timeout: self.timeout,
                argument_policy: self.argument_policy,
                launcher: ProcessLauncher::Direct,
            },
        )
    }
}

// ------------------------------------------------------------------- handler

/// What controls the resources of a run.
pub(crate) struct ResourceControl {
    cgroup: TaskCgroup,
    launcher: Vec<u8>,
    launcher_identity: ExecutableIdentity,
}

enum ProcessLauncher {
    Direct,
    Bubblewrap {
        bubblewrap: Vec<u8>,
        identity: ExecutableIdentity,
        root_filesystem: Vec<u8>,
        verified: Option<VerifiedRootFilesystem>,
        sandbox_executable: Vec<u8>,
        control: Option<ResourceControl>,
    },
}

impl ResourceControl {
    pub(crate) closed spec fn model(&self) -> ControlModel {
        ControlModel {
            cgroup: self.cgroup@,
            launcher: self.launcher@,
            launcher_identity: self.launcher_identity,
        }
    }

    pub(crate) fn new(
        cgroup: TaskCgroup,
        launcher: Vec<u8>,
        launcher_identity: ExecutableIdentity,
    ) -> (r: ResourceControl)
        ensures
            r.model() == (ControlModel { cgroup: cgroup@, launcher: launcher@, launcher_identity }),
    {
        ResourceControl { cgroup, launcher, launcher_identity }
    }
}

impl ProcessLauncher {
    closed spec fn model(&self) -> LauncherModel {
        match self {
            ProcessLauncher::Direct => LauncherModel::Direct,
            ProcessLauncher::Bubblewrap {
                bubblewrap,
                identity,
                root_filesystem,
                verified,
                sandbox_executable,
                control,
            } => LauncherModel::Bubblewrap {
                bubblewrap: bubblewrap@,
                identity: *identity,
                root: root_filesystem@,
                verified: match verified {
                    Some(verified) => Some(verified@),
                    None => None,
                },
                sandbox_executable: sandbox_executable@,
                control: match control {
                    Some(control) => Some(control.model()),
                    None => None,
                },
            },
        }
    }

    fn refuse(&self, report: &RunReport) -> (r: Result<(), ProcessAdapterError>)
        ensures
            self.model().refusal(*report) == (match r {
                Ok(_) => None,
                Err(error) => Some(error),
            }),
    {
        match self {
            ProcessLauncher::Direct => Ok(()),
            ProcessLauncher::Bubblewrap { identity, verified, control, .. } => {
                let found = ExecutableIdentity::read(report.bubblewrap);
                match found {
                    Ok(found) => {
                        if found != *identity {
                            return Err(ProcessAdapterError::ExecutableChanged);
                        }
                    },
                    Err(error) => {
                        return Err(error);
                    },
                }
                if let Some(verified) = verified {
                    if let Err(error) = verified.validate(report.root, &report.entries) {
                        return Err(error);
                    }
                }
                if let Some(control) = control {
                    if let Err(error) = control.cgroup.validate(&report.cgroup) {
                        return Err(error);
                    }
                    match ExecutableIdentity::read(report.launcher) {
                        Ok(found) => {
                            if found != control.launcher_identity {
                                return Err(ProcessAdapterError::ExecutableChanged);
                            }
                        },
                        Err(error) => {
                            return Err(error);
                        },
                    }
                }
                Ok(())
            },
        }
    }
}

/// A fixed executable that can be registered as a tool handler.
///
/// Standard input is null, standard output and standard error are discarded, and the successful
/// tool output is empty.
pub struct ProcessToolHandler<P: ProcessArgumentPolicy> {
    executable: Vec<u8>,
    executable_identity: ExecutableIdentity,
    working_directory: Vec<u8>,
    working_directory_identity: Option<DirectoryIdentity>,
    fixed_arguments: Vec<String>,
    environment: Vec<(String, String)>,
    timeout: Duration,
    argument_policy: P,
    launcher: ProcessLauncher,
}

/// The paths that a run depends on.
pub struct ObservedPaths {
    pub executable: Vec<u8>,
    pub directory: Vec<u8>,
    pub bubblewrap: Option<Vec<u8>>,
    pub root: Option<Vec<u8>>,
    pub cgroup: Option<Vec<u8>>,
    pub launcher: Option<Vec<u8>>,
}

/// A child process that passed every check and is to be started.
pub struct CheckedRun {
    pub program: Vec<u8>,
    pub arguments: Vec<Vec<u8>>,
    pub directory: Vec<u8>,
    pub environment: Vec<(String, String)>,
    pub timeout: Duration,
}

impl View for CheckedRun {
    type V = PlanModel;

    open spec fn view(&self) -> PlanModel {
        PlanModel {
            program: self.program@,
            arguments: text::pieces(self.arguments@),
            directory: self.directory@,
            environment: arguments::variables(self.environment@),
        }
    }
}

fn clone_variables(list: &Vec<(String, String)>) -> (r: Vec<(String, String)>)
    ensures
        arguments::variables(r@) == arguments::variables(list@),
{
    let mut out: Vec<(String, String)> = Vec::new();
    let mut i: usize = 0;
    while i < list.len()
        invariant
            i <= list@.len(),
            out@.len() == i,
            forall|k: int|
                0 <= k < i ==> (#[trigger] out@[k]).0@ == list@[k].0@ && out@[k].1@
                    == list@[k].1@,
        decreases list@.len() - i,
    {
        out.push((list[i].0.as_str().to_owned(), list[i].1.as_str().to_owned()));
        i = i + 1;
    }
    assert(arguments::variables(out@) =~= arguments::variables(list@));
    out
}

/// When a run that starts now is over.
pub open spec fn run_deadline(now: u128, timeout: Duration) -> Result<u128, ProcessAdapterError> {
    if now + timeout.nanos <= u128::MAX {
        Ok((now + timeout.nanos) as u128)
    } else {
        Err(ProcessAdapterError::InvalidConfig)
    }
}

impl CheckedRun {
    /// The moment at which a run that starts now is stopped.
    pub fn deadline(&self, now: u128) -> (r: Result<u128, ProcessAdapterError>)
        ensures
            r == run_deadline(now, self.timeout),
    {
        match now.checked_add(self.timeout.nanos) {
            Some(deadline) => Ok(deadline),
            None => Err(ProcessAdapterError::InvalidConfig),
        }
    }
}

/// Whether a failure of a run says that the budget of its task was used up.
pub open spec fn spends_budget(error: ProcessAdapterError) -> bool {
    error is ResourceLimitExceeded
}

/// What a tool is told of a run that was refused or failed: only whether the budget was used
/// up.
#[must_use]
pub fn redacted(error: ProcessAdapterError) -> (r: ToolFailure)
    ensures
        r.over_budget() == spends_budget(error),
{
    match error {
        ProcessAdapterError::ResourceLimitExceeded => ToolFailure::budget_exceeded(),
        _ => ToolFailure::new(),
    }
}

/// What a run gives back once the child was waited for.
pub fn finished(waited: Result<(), ProcessAdapterError>) -> (r: Result<
    ToolOutput,
    ProcessAdapterError,
>)
    ensures
        r is Ok <==> waited is Ok,
        r is Ok ==> (r->Ok_0)@ == Seq::<u8>::empty(),
        r is Err ==> r->Err_0 == waited->Err_0,
{
    match waited {
        Ok(_) => {
            let empty: Vec<u8> = Vec::new();
            assert(empty@ =~= Seq::<u8>::empty());
            match ToolOutput::from_bytes(empty) {
                Ok(output) => Ok(output),
                Err(_) => Err(ProcessAdapterError::OutputFailed),
            }
        },
        Err(error) => Err(error),
    }
}

impl<P: ProcessArgumentPolicy> ProcessToolHandler<P> {
    /// What the handler runs.
    pub closed spec fn model(&self) -> HandlerModel {
        HandlerModel {
            executable: self.executable@,
            executable_identity: self.executable_identity,
            directory: self.working_directory@,
            directory_identity: self.working_directory_identity,
            fixed: text::texts(self.fixed_arguments@),
            environment: arguments::variables(self.environment@),
            timeout: self.timeout,
            launcher: self.launcher.model(),
        }
    }

    /// The policy on dynamic arguments.
    pub closed spec fn policy(&self) -> P {
        self.argument_policy
    }

    /// A handler that runs its executable in a sandbox.
    pub(crate) fn sandboxed(
        executable: SandboxExecutable,
        directory: (Vec<u8>, Option<DirectoryIdentity>),
        settings: (Vec<String>, Vec<(String, String)>),
        timeout: Duration,
        argument_policy: P,
        bubblewrap: (Vec<u8>, ExecutableIdentity),
        root: (Vec<u8>, Option<VerifiedRootFilesystem>),
        control: Option<ResourceControl>,
    ) -> (r: ProcessToolHandler<P>)
        ensures
            r.model() == (HandlerModel {
                executable: executable.host_path@,
                executable_identity: executable.identity,
                directory: directory.0@,
                directory_identity: directory.1,
                fixed: text::texts(settings.0@),
                environment: arguments::variables(settings.1@),
                timeout,
                launcher: LauncherModel::Bubblewrap {
                    bubblewrap: bubblewrap.0@,
                    identity: bubblewrap.1,
                    root: root.0@,
                    verified: match root.1 {
                        Some(verified) => Some(verified@),
                        None => None,
                    },
                    sandbox_executable: executable.sandbox_path@,
                    control: match control {
                        Some(control) => Some(control.model()),
                        None => None,
                    },
                },
            }),
            r.policy() == argument_policy,
    {
        ProcessToolHandler {
            executable: executable.host_path,
            executable_identity: executable.identity,
            working_directory: directory.0,
            working_directory_identity: directory.1,
            fixed_arguments: settings.0,
            environment: settings.1,
            timeout,
            argument_policy,
            launcher: ProcessLauncher::Bubblewrap {
                bubblewrap: bubblewrap.0,
                identity: bubblewrap.1,
                root_filesystem: root.0,
                verified: root.1,
                sandbox_executable: executable.sandbox_path,
                control,
            },
        }
    }

    /// The paths that have to be observed before a run.
    #[must_use]
    pub fn observed_paths(&self) -> (r: ObservedPaths)
        ensures
            r.executable@ == self.model().executable,
            r.directory@ == self.model().directory,
            match self.model().launcher {
                LauncherModel::Direct => r.bubblewrap is None && r.root is None && r.cgroup is None
                    && r.launcher is None,
                LauncherModel::Bubblewrap { bubblewrap, root, control, .. } => r.bubblewrap is Some
                    && r.bubblewrap->0@ == bubblewrap && r.root is Some && r.root->0@ == root
                    && r.cgroup is Some == control is Some && r.launcher is Some == control is Some
                    && (control is Some ==> r.cgroup->0@ == control->0.cgroup.directory
                    && r.launcher->0@ == control->0.launcher),
            },
    {
        let executable = clone_bytes(self.executable.as_slice());
        let directory = clone_bytes(self.working_directory.as_slice());
        match &self.launcher {
            ProcessLauncher::Direct => ObservedPaths {
                executable,
                directory,
                bubblewrap: None,
                root: None,
                cgroup: None,
                launcher: None,
            },
            ProcessLauncher::Bubblewrap { bubblewrap, root_filesystem, control, .. } => {
                let (cgroup, launcher) = match control {
                    Some(control) => (
                        Some(clone_bytes(control.cgroup.directory())),
                        Some(clone_bytes(control.launcher.as_slice())),
                    ),
                    None => (None, None),
                };
                ObservedPaths {
                    executable,
                    directory,
                    bubblewrap: Some(clone_bytes(bubblewrap.as_slice())),
                    root: Some(clone_bytes(root_filesystem.as_slice())),
                    cgroup,
                    launcher,
                }
            },
        }
    }

    /// Checks one validated argument vector against what was observed, and plans its run.
    pub fn run_checked(&self, dynamic_arguments: Vec<String>, report: &RunReport) -> (r: Result<
        CheckedRun,
        ProcessAdapterError,
    >)
        ensures
            exists|allowed: bool|
                (tool::valid_arguments(self.model().fixed + text::texts(dynamic_arguments@))
                    ==> self.policy().answers(text::texts(dynamic_arguments@), allowed))
                    && #[trigger] run_planned(
                    self.model(),
                    text::texts(dynamic_arguments@),
                    allowed,
                    *report,
                    r,
                ),
    {
        let valid = validate_arguments(&self.fixed_arguments, &dynamic_arguments).is_ok();
        let allowed = valid && self.argument_policy.allows(dynamic_arguments.as_slice());
        let r = self.run_allowed(&dynamic_arguments, allowed, report);
        assert(run_planned(
            self.model(),
            text::texts(dynamic_arguments@),
            allowed,
            *report,
            r,
        ));
        r
    }

    /// Plans the run of an argument vector on which the policy has answered.
    pub fn run_allowed(
        &self,
        dynamic_arguments: &Vec<String>,
        allowed: bool,
        report: &RunReport,
    ) -> (r: Result<CheckedRun, ProcessAdapterError>)
        ensures
            run_planned(
                self.model(),
                text::texts(dynamic_arguments@),
                allowed,
                *report,
                r,
            ),
    {
        if let Err(error) = validate_arguments(&self.fixed_arguments, dynamic_arguments) {
            return Err(error);
        }
        if !allowed {
            return Err(ProcessAdapterError::ArgumentsDenied);
        }
        match ExecutableIdentity::read(report.executable) {
            Ok(found) => {
                if found != self.executable_identity {
                    return Err(ProcessAdapterError::ExecutableChanged);
                }
            },
            Err(error) => {
                return Err(error);
            },
        }
        if let Some(identity) = self.working_directory_identity {
            if let Err(error) = validate_task_scratch_identity(report.directory, identity) {
                return Err(error);
            }
        }
        if let Err(error) = self.launcher.refuse(report) {
            return Err(error);
        }
        Ok(self.launch(dynamic_arguments))
    }

    fn launch(&self, dynamic_arguments: &Vec<String>) -> (r: CheckedRun)
        ensures
            r@ == self.model().planned(text::texts(dynamic_arguments@)),
            r.timeout == self.model().timeout,
    {
        let all = all_arguments(&self.fixed_arguments, dynamic_arguments);
        let mut own = words_of(&all);
        let environment = clone_variables(&self.environment);
        match &self.launcher {
            ProcessLauncher::Direct => CheckedRun {
                program: clone_bytes(self.executable.as_slice()),
                arguments: own,
                directory: clone_bytes(self.working_directory.as_slice()),
                environment,
                timeout: self.timeout,
            },
            ProcessLauncher::Bubblewrap {
                bubblewrap,
                root_filesystem,
                sandbox_executable,
                control,
                ..
            } => {
                let mut sandboxed = bubblewrap_arguments(
                    root_filesystem.as_slice(),
                    self.working_directory.as_slice(),
                    sandbox_executable.as_slice(),
                );
                let ghost before = sandboxed@;
                let ghost tail = own@;
                sandboxed.append(&mut own);
                assert(text::pieces(sandboxed@) =~= text::pieces(before) + text::pieces(tail));
                match control {
                    None => CheckedRun {
                        program: clone_bytes(bubblewrap.as_slice()),
                        arguments: sandboxed,
                        directory: word("/"),
                        environment,
                        timeout: self.timeout,
                    },
                    Some(control) => {
                        let (device, inode) = control.cgroup.identity().raw();
                        let request = LaunchRequest {
                            cgroup_procs: join(
                                control.cgroup.directory(),
                                word("cgroup.procs").as_slice(),
                            ),
                            device,
                            inode,
                            executable: clone_bytes(bubblewrap.as_slice()),
                            mounts: None,
                            arguments: sandboxed,
                        };
                        CheckedRun {
                            program: clone_bytes(control.launcher.as_slice()),
                            arguments: request.command_line(),
                            directory: word("/"),
                            environment,
                            timeout: self.timeout,
                        }
                    },
                }
            },
        }
    }
}

/// What is answered to a run: the first check that it fails, or its plan.
pub open spec fn run_planned(
    handler: HandlerModel,
    dynamic: Seq<Seq<char>>,
    allowed: bool,
    report: RunReport,
    r: Result<CheckedRun, ProcessAdapterError>,
) -> bool {
    match r {
        Ok(run) => handler.refusal(dynamic, allowed, report) is None && run@ == handler.planned(
            dynamic,
        ) && run.timeout == handler.timeout,
        Err(error) => handler.refusal(dynamic, allowed, report) == Some(error),
    }
}

/// Arguments that the policy denies never run, whatever was observed of the host.
pub proof fn law_denied_arguments_never_run(
    handler: HandlerModel,
    dynamic: Seq<Seq<char>>,
    report: RunReport,
)
    ensures
        handler.refusal(dynamic, false, report) is Some,
{
}

/// A run whose executable is no longer the one that was configured, or whose root filesystem no
/// longer has its digest, is refused before anything is started.
pub proof fn law_changed_files_never_run(
    handler: HandlerModel,
    dynamic: Seq<Seq<char>>,
    allowed: bool,
    report: RunReport,
)
    ensures
        facts::executable_identity(report.executable) != Some(handler.executable_identity)
            ==> handler.refusal(dynamic, allowed, report) is Some,
        match handler.launcher {
            LauncherModel::Bubblewrap { verified: Some(root), .. } => !root.intact(
                report.root,
                rootfs::entry_models(report.entries@),
            ) ==> handler.refusal(dynamic, allowed, report) is Some,
            _ => true,
        },
{
}

/// Whatever starts the executable, the child gets the configured environment and nothing else,
/// and its command line ends with the fixed and then the dynamic arguments.
pub proof fn law_plans_hold_what_was_configured(handler: HandlerModel, dynamic: Seq<Seq<char>>)
    ensures
        handler.planned(dynamic).environment == handler.environment,
        words(handler.fixed + dynamic).is_suffix_of(handler.planned(dynamic).arguments),
{
    let own = words(handler.fixed + dynamic);
    let arguments = handler.planned(dynamic).arguments;
    assert(own =~= arguments.skip(arguments.len() - own.len()));
}

} // verus!
