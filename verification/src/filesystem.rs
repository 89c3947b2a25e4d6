//! Descriptor-relative write-only filesystem adapter.
//!
//! The adapter performs one deliberately narrow operation: create one new regular file beneath
//! a trusted root and write bounded bytes to it. It never returns file contents, opens an
//! existing destination, follows symlinks, or exposes a filesystem descriptor to model or tool
//! code.
//!
//! The creation is a state machine, [`FileCreation`]; the root directory itself stands behind
//! [`TrustedRoot`].

use vstd::prelude::*;

use crate::event;
use crate::event::EventStore;
use crate::execution;
use crate::execution::{
    Executed, ExecutionAdapter, ExecutionError, ExecutionGate, ExecutionOutcome, GateModel,
    GuardedOperation, RetainedModel,
};
use crate::ids::{ApprovalId, TaskId};
use crate::path;
use crate::path::{has_components, is_absolute};
use crate::policy::{CapabilityRequest, RequestModel};
use crate::recovery::TaskSnapshot;
use crate::state::TaskState;
use crate::supervisor;
use crate::supervisor::{TaskExecutionContext, TaskSupervisor};
use crate::task;
use crate::task::{FileAccess, is_normalized_absolute_path};
use crate::text;
use crate::time::Duration;

verus! {

pub const MAX_FILESYSTEM_PATH_BYTES: usize = 4_096;

pub const MAX_CREATE_BYTES: usize = 1_048_576;

/// Stable, redacted filesystem adapter failure categories.
#[derive(Clone, Copy, Debug, PartialEq, Eq, Structural)]
pub enum FilesystemAdapterError {
    InvalidConfig,
    InvalidOperation,
    UnsupportedPlatform,
    ScopeMismatch,
    BudgetExceeded,
    CreateFailed,
    WriteFailed,
}

impl FilesystemAdapterError {
    /// The text of the failure.
    pub open spec fn text(self) -> Seq<char> {
        match self {
            FilesystemAdapterError::InvalidConfig => "invalid Filesystem Adapter configuration"@,
            FilesystemAdapterError::InvalidOperation => "invalid filesystem operation"@,
            FilesystemAdapterError::UnsupportedPlatform
            => "Filesystem Adapter is unsupported on this platform"@,
            FilesystemAdapterError::ScopeMismatch
            => "filesystem operation scope does not match the Task"@,
            FilesystemAdapterError::BudgetExceeded
            => "filesystem operation exceeded the Task Budget"@,
            FilesystemAdapterError::CreateFailed => "filesystem create operation failed"@,
            FilesystemAdapterError::WriteFailed => "filesystem write operation failed"@,
        }
    }

    /// The text of the failure.
    #[must_use]
    pub fn display(&self) -> (r: &'static str)
        ensures
            r@ == self.text(),
    {
        match self {
            FilesystemAdapterError::InvalidConfig => "invalid Filesystem Adapter configuration",
            FilesystemAdapterError::InvalidOperation => "invalid filesystem operation",
            FilesystemAdapterError::UnsupportedPlatform => {
                "Filesystem Adapter is unsupported on this platform"
            },
            FilesystemAdapterError::ScopeMismatch => {
                "filesystem operation scope does not match the Task"
            },
            FilesystemAdapterError::BudgetExceeded => {
                "filesystem operation exceeded the Task Budget"
            },
            FilesystemAdapterError::CreateFailed => "filesystem create operation failed",
            FilesystemAdapterError::WriteFailed => "filesystem write operation failed",
        }
    }
}

// --------------------------------------------------------------------- roots

/// Whether a path may be configured as the root that files are created below.
pub open spec fn usable_root_path(path: Seq<u8>) -> bool {
    path::absolute(path) && path.len() <= MAX_FILESYSTEM_PATH_BYTES && path::components(path).len()
        > 0
}

/// Whether a path in bytes may be configured as a trusted root: absolute, bounded, and not the
/// filesystem root itself.
#[must_use]
pub fn is_valid_root_path(path: &[u8]) -> (r: bool)
    ensures
        r == usable_root_path(path@),
{
    is_absolute(path) && path.len() <= MAX_FILESYSTEM_PATH_BYTES && has_components(path)
}

// ---------------------------------------------------------------- operations

/// What one creation writes, where, and until when.
pub struct WriteRequest {
    pub path: Seq<char>,
    pub contents: Seq<u8>,
    /// When the budget of the task is used up; `None` before a gate bound the operation.
    pub deadline: Option<u128>,
}

/// Complete create-new operation retained privately while approval is pending.
///
/// This type intentionally does not implement `Clone` or `Debug` because the path and contents
/// may be sensitive.
pub struct FilesystemWriteOperation {
    path: String,
    contents: Vec<u8>,
    execution_context: Option<TaskExecutionContext>,
}

impl View for FilesystemWriteOperation {
    type V = WriteRequest;

    closed spec fn view(&self) -> WriteRequest {
        WriteRequest {
            path: self.path@,
            contents: self.contents@,
            deadline: match self.execution_context {
                Some(context) => Some(context.deadline()),
                None => None,
            },
        }
    }
}

impl GuardedOperation for FilesystemWriteOperation {
    open spec fn asks(&self) -> RequestModel {
        RequestModel::File { path: self@.path, access: FileAccess::Write }
    }

    fn capability_request(&self) -> (r: CapabilityRequest<'_>) {
        CapabilityRequest::File { path: self.path.as_str(), access: FileAccess::Write }
    }
}

/// Bounded contents for a normalized path.
pub open spec fn valid_create(path: Seq<char>, contents: Seq<u8>) -> bool {
    contents.len() <= MAX_CREATE_BYTES && task::is_normal_path(path)
}

fn validate_operation(path: &str, contents: &Vec<u8>) -> (r: Result<(), FilesystemAdapterError>)
    ensures
        r is Ok <==> valid_create(path@, contents@),
        r is Err ==> r->Err_0 == FilesystemAdapterError::InvalidOperation,
{
    if contents.len() > MAX_CREATE_BYTES || !is_normalized_absolute_path(path) {
        return Err(FilesystemAdapterError::InvalidOperation);
    }
    Ok(())
}

/// Safe operation constructor that validates all model-controlled values before authorization.
pub struct FilesystemCatalog {}

impl FilesystemCatalog {
    /// The catalog.
    #[must_use]
    pub fn new() -> FilesystemCatalog {
        FilesystemCatalog {  }
    }

    /// Prepares the creation of one file.
    pub fn prepare_create(&self, path: String, contents: Vec<u8>) -> (r: Result<
        FilesystemWriteOperation,
        FilesystemAdapterError,
    >)
        ensures
            r is Ok <==> valid_create(path@, contents@),
            r is Ok ==> (r->Ok_0)@ == (WriteRequest {
                path: path@,
                contents: contents@,
                deadline: None,
            }),
            r is Err ==> r->Err_0 == FilesystemAdapterError::InvalidOperation,
    {
        match validate_operation(path.as_str(), &contents) {
            Ok(()) => Ok(FilesystemWriteOperation { path, contents, execution_context: None }),
            Err(error) => Err(error),
        }
    }
}

impl Default for FilesystemCatalog {
    fn default() -> Self {
        FilesystemCatalog {  }
    }
}

/// Resource-free receipt for one successful create-new write.
pub struct FilesystemWriteReceipt {
    bytes_written: usize,
}

impl View for FilesystemWriteReceipt {
    type V = nat;

    closed spec fn view(&self) -> nat {
        self.bytes_written as nat
    }
}

impl FilesystemWriteReceipt {
    /// How many bytes were written.
    #[must_use]
    pub fn bytes_written(&self) -> (r: usize)
        ensures
            r == self@,
    {
        self.bytes_written
    }
}

// ------------------------------------------------------------- state machine

/// What the root is to do next.
#[derive(Clone, Copy, Debug, PartialEq, Eq, Structural)]
pub enum FileAction {
    /// Create a new regular file, private to its owner, and open it for writing.
    Create,
    /// Write the contents to the file and synchronise them.
    Write,
}

/// What came of an action.
#[derive(Clone, Copy, Debug, PartialEq, Eq, Structural)]
pub enum FileEvent {
    Done,
    Failed,
}

/// The state of one creation.
#[verifier::ext_equal]
pub struct CreationModel {
    /// The path below the root, without a leading `/`.
    pub relative_path: Seq<char>,
    pub contents: Seq<u8>,
    pub deadline: u128,
    pub action: FileAction,
}

/// A creation that goes on, or the number of bytes that it wrote.
pub enum CreationProgress {
    Going(CreationModel),
    Ended(Result<nat, FilesystemAdapterError>),
}

/// How a creation begins at `now`, or why it does not.
pub open spec fn creation_start(operation: WriteRequest, now: u128) -> Result<
    CreationModel,
    FilesystemAdapterError,
> {
    if !valid_create(operation.path, operation.contents) {
        Err(FilesystemAdapterError::InvalidOperation)
    } else {
        match operation.deadline {
            None => Err(FilesystemAdapterError::ScopeMismatch),
            Some(deadline) => if now >= deadline {
                Err(FilesystemAdapterError::BudgetExceeded)
            } else {
                Ok(
                    CreationModel {
                        relative_path: operation.path.skip(1),
                        contents: operation.contents,
                        deadline,
                        action: FileAction::Create,
                    },
                )
            },
        }
    }
}

impl CreationModel {
    /// What an event that came at `now` leads to.
    pub open spec fn step(self, event: FileEvent, now: u128) -> CreationProgress {
        match (self.action, event) {
            (FileAction::Create, FileEvent::Failed) => CreationProgress::Ended(
                Err(FilesystemAdapterError::CreateFailed),
            ),
            (FileAction::Write, FileEvent::Failed) => CreationProgress::Ended(
                Err(FilesystemAdapterError::WriteFailed),
            ),
            (FileAction::Create, FileEvent::Done) => if now >= self.deadline {
                CreationProgress::Ended(Err(FilesystemAdapterError::BudgetExceeded))
            } else {
                CreationProgress::Going(CreationModel { action: FileAction::Write, ..self })
            },
            (FileAction::Write, FileEvent::Done) => if now >= self.deadline {
                CreationProgress::Ended(Err(FilesystemAdapterError::BudgetExceeded))
            } else {
                CreationProgress::Ended(Ok(self.contents.len()))
            },
        }
    }
}

/// One creation.
pub struct FileCreation {
    relative_path: String,
    contents: Vec<u8>,
    deadline: u128,
    action: FileAction,
}

impl View for FileCreation {
    type V = CreationModel;

    closed spec fn view(&self) -> CreationModel {
        CreationModel {
            relative_path: self.relative_path@,
            contents: self.contents@,
            deadline: self.deadline,
            action: self.action,
        }
    }
}

/// How far a creation came: it goes on, or this is its result.
pub enum CreationStep {
    Continue,
    Done(Result<FilesystemWriteReceipt, FilesystemAdapterError>),
}

/// Whether a step of a creation is what the state machine says.
pub open spec fn creation_matches(
    progress: CreationProgress,
    after: CreationModel,
    r: CreationStep,
) -> bool {
    match (progress, r) {
        (CreationProgress::Going(next), CreationStep::Continue) => after == next,
        (CreationProgress::Ended(Ok(count)), CreationStep::Done(Ok(receipt))) => receipt@
            == count,
        (CreationProgress::Ended(Err(error)), CreationStep::Done(Err(given))) => given == error,
        _ => false,
    }
}

impl FileCreation {
    /// Begins a creation at a given time.
    pub fn begin(operation: FilesystemWriteOperation, now: u128) -> (r: Result<
        FileCreation,
        FilesystemAdapterError,
    >)
        ensures
            creation_start(operation@, now) == (match r {
                Ok(creation) => Ok::<CreationModel, FilesystemAdapterError>(creation@),
                Err(error) => Err(error),
            }),
    {
        if let Err(error) = validate_operation(operation.path.as_str(), &operation.contents) {
            return Err(error);
        }
        let deadline: u128 = match &operation.execution_context {
            Some(context) => context.deadline_nanos(),
            None => {
                return Err(FilesystemAdapterError::ScopeMismatch);
            },
        };
        if now >= deadline {
            return Err(FilesystemAdapterError::BudgetExceeded);
        }
        let path = operation.path.as_str();
        proof {
            lemma_path_not_empty(path@);
        }
        let length: usize = path.unicode_len();
        let relative_path = path.substring_char(1, length).to_owned();
        assert(relative_path@ =~= path@.skip(1));
        Ok(
            FileCreation {
                relative_path,
                contents: operation.contents,
                deadline,
                action: FileAction::Create,
            },
        )
    }

    /// What the root is to do next.
    #[must_use]
    pub fn action(&self) -> (r: FileAction)
        ensures
            r == self@.action,
    {
        self.action
    }

    /// The path of the file, relative to the root.
    #[must_use]
    pub fn relative_path(&self) -> (r: &str)
        ensures
            r@ == self@.relative_path,
    {
        self.relative_path.as_str()
    }

    /// The contents of the file.
    #[must_use]
    pub fn contents(&self) -> (r: &Vec<u8>)
        ensures
            r@ == self@.contents,
    {
        &self.contents
    }

    /// Takes in what came of the last action.
    pub fn next(&mut self, event: FileEvent, now: u128) -> (r: CreationStep)
        ensures
            creation_matches(old(self)@.step(event, now), final(self)@, r),
    {
        match (self.action, event) {
            (FileAction::Create, FileEvent::Failed) => CreationStep::Done(
                Err(FilesystemAdapterError::CreateFailed),
            ),
            (FileAction::Write, FileEvent::Failed) => CreationStep::Done(
                Err(FilesystemAdapterError::WriteFailed),
            ),
            (FileAction::Create, FileEvent::Done) => {
                if now >= self.deadline {
                    return CreationStep::Done(Err(FilesystemAdapterError::BudgetExceeded));
                }
                self.action = FileAction::Write;
                CreationStep::Continue
            },
            (FileAction::Write, FileEvent::Done) => {
                if now >= self.deadline {
                    return CreationStep::Done(Err(FilesystemAdapterError::BudgetExceeded));
                }
                CreationStep::Done(
                    Ok(FilesystemWriteReceipt { bytes_written: self.contents.len() }),
                )
            },
        }
    }
}

proof fn lemma_path_not_empty(path: Seq<char>)
    requires
        task::is_normal_path(path),
    ensures
        path.len() > 0,
{
    if path.len() == 0 {
        text::lemma_utf8_empty(path);
    }
}

// ------------------------------------------------------------------- adapter

/// A root directory that stays open. It performs one action at a time, without following
/// symlinks, crossing mounts, or leaving the root, and tells what came of it.
pub trait TrustedRoot: Sized {
    /// What may come of an action, and what the root is after it: anything, unless the root says
    /// more.
    open spec fn tells(
        before: Self,
        action: FileAction,
        relative_path: Seq<char>,
        contents: Seq<u8>,
        after: Self,
        event: FileEvent,
    ) -> bool {
        true
    }

    /// Performs an action for the file at `relative_path` with these contents.
    fn perform(&mut self, action: FileAction, relative_path: &str, contents: &Vec<u8>) -> (event:
        FileEvent)
        ensures
            Self::tells(
                *old(self),
                action,
                relative_path@,
                contents@,
                *final(self),
                event,
            ),
    ;
}

/// Drives creations below a root. It stands behind a gate and is reached in no other way.
pub struct FilesystemAdapter<R: TrustedRoot> {
    root: R,
}

impl<R: TrustedRoot> FilesystemAdapter<R> {
    /// The root that files are created below.
    pub closed spec fn root(&self) -> R {
        self.root
    }
}

/// Whether the root was asked for what a creation needs, and told `created` and `written`: it is
/// asked to create the file, and to write it where the creation goes on from there.
pub open spec fn root_told<R: TrustedRoot>(
    before: R,
    mid: R,
    after: R,
    operation: WriteRequest,
    now: u128,
    created: FileEvent,
    then: u128,
    written: FileEvent,
) -> bool {
    match creation_start(operation, now) {
        Err(_) => after == before,
        Ok(start) => {
            &&& R::tells(
                before,
                FileAction::Create,
                start.relative_path,
                start.contents,
                mid,
                created,
            )
            &&& match start.step(created, then) {
                CreationProgress::Ended(_) => after == mid,
                CreationProgress::Going(next) => R::tells(
                    mid,
                    FileAction::Write,
                    next.relative_path,
                    next.contents,
                    after,
                    written,
                ),
            }
        },
    }
}

/// The result of a creation that began at `now`, was told `created` at `then`, and was told
/// `written` at `last`.
pub open spec fn creation_outcome(
    operation: WriteRequest,
    now: u128,
    created: FileEvent,
    then: u128,
    written: FileEvent,
    last: u128,
) -> Result<nat, FilesystemAdapterError> {
    match creation_start(operation, now) {
        Err(error) => Err(error),
        Ok(start) => match start.step(created, then) {
            CreationProgress::Ended(r) => r,
            CreationProgress::Going(next) => match next.step(written, last) {
                CreationProgress::Ended(r) => r,
                CreationProgress::Going(_) => Err(FilesystemAdapterError::WriteFailed),
            },
        },
    }
}

/// The count of a receipt, or its failure.
pub open spec fn receipt_count(r: Result<FilesystemWriteReceipt, FilesystemAdapterError>) -> Result<
    nat,
    FilesystemAdapterError,
> {
    match r {
        Ok(receipt) => Ok(receipt@),
        Err(error) => Err(error),
    }
}

impl<R: TrustedRoot> ExecutionAdapter<FilesystemWriteOperation> for FilesystemAdapter<R> {
    type Output = FilesystemWriteReceipt;

    type Error = FilesystemAdapterError;

    /// An operation that is out of bounds or unbound never reaches the root. What comes of
    /// another is decided by the times and by what the root tells.
    open spec fn performs(
        before: Self,
        operation: FilesystemWriteOperation,
        after: Self,
        r: Result<FilesystemWriteReceipt, FilesystemAdapterError>,
    ) -> bool {
        exists|now: u128, created: FileEvent, then: u128, written: FileEvent, last: u128, mid: R|
            #[trigger] creation_outcome(operation@, now, created, then, written, last)
                == receipt_count(r) && #[trigger] root_told(
                before.root(),
                mid,
                after.root(),
                operation@,
                now,
                created,
                then,
                written,
            )
    }

    fn execute(&mut self, operation: FilesystemWriteOperation) -> (r: Result<
        FilesystemWriteReceipt,
        FilesystemAdapterError,
    >) {
        let ghost asked = operation@;
        let context = match &operation.execution_context {
            Some(context) => *context,
            None => {
                let error = match validate_operation(operation.path.as_str(), &operation.contents) {
                    Ok(()) => FilesystemAdapterError::ScopeMismatch,
                    Err(error) => error,
                };
                assert(creation_outcome(asked, 0, FileEvent::Done, 0, FileEvent::Done, 0) == Err::<
                    nat,
                    FilesystemAdapterError,
                >(error));
                assert(root_told(
                    old(self).root(),
                    self.root,
                    self.root(),
                    asked,
                    0,
                    FileEvent::Done,
                    0,
                    FileEvent::Done,
                ));
                return Err(error);
            },
        };
        let began: u128 = context.now();
        let mut creation = match FileCreation::begin(operation, began) {
            Ok(creation) => creation,
            Err(error) => {
                assert(creation_outcome(asked, began, FileEvent::Done, 0, FileEvent::Done, 0)
                    == Err::<nat, FilesystemAdapterError>(error));
                assert(root_told(
                    old(self).root(),
                    self.root,
                    self.root(),
                    asked,
                    began,
                    FileEvent::Done,
                    0,
                    FileEvent::Done,
                ));
                return Err(error);
            },
        };
        let created = self.root.perform(
            FileAction::Create,
            creation.relative_path(),
            creation.contents(),
        );
        let ghost mid = self.root;
        let then: u128 = context.now();
        if let CreationStep::Done(r) = creation.next(created, then) {
            assert(creation_outcome(asked, began, created, then, FileEvent::Done, 0)
                == receipt_count(r));
            assert(root_told(
                old(self).root(),
                mid,
                self.root(),
                asked,
                began,
                created,
                then,
                FileEvent::Done,
            ));
            return r;
        }
        let written = self.root.perform(
            FileAction::Write,
            creation.relative_path(),
            creation.contents(),
        );
        let last: u128 = context.now();
        match creation.next(written, last) {
            CreationStep::Done(r) => {
                assert(creation_outcome(asked, began, created, then, written, last)
                    == receipt_count(r));
                assert(root_told(
                    old(self).root(),
                    mid,
                    self.root(),
                    asked,
                    began,
                    created,
                    then,
                    written,
                ));
                r
            },
            CreationStep::Continue => Err(FilesystemAdapterError::WriteFailed),
        }
    }
}

/// A receipt is given only for the whole contents, before the budget of the task was used up.
pub proof fn law_receipts_count_the_whole_contents(
    operation: WriteRequest,
    now: u128,
    created: FileEvent,
    then: u128,
    written: FileEvent,
    last: u128,
)
    requires
        creation_outcome(operation, now, created, then, written, last) is Ok,
    ensures
        creation_outcome(operation, now, created, then, written, last)->Ok_0
            == operation.contents.len(),
        operation.deadline is Some,
        now < operation.deadline->0 && then < operation.deadline->0 && last
            < operation.deadline->0,
        created is Done && written is Done,
        valid_create(operation.path, operation.contents),
{
}

/// Capability- and approval-gated facade that never exposes the raw adapter.
pub struct FilesystemExecutionGate<R: TrustedRoot> {
    gate: ExecutionGate<FilesystemAdapter<R>, FilesystemWriteOperation>,
}

/// An operation bound to the budget of its task.
pub open spec fn bound_to(operation: WriteRequest, deadline: Option<u128>) -> WriteRequest {
    WriteRequest { deadline, ..operation }
}

impl<R: TrustedRoot> FilesystemExecutionGate<R> {
    /// The execution gate that every operation passes.
    pub closed spec fn gate(&self) -> ExecutionGate<
        FilesystemAdapter<R>,
        FilesystemWriteOperation,
    > {
        self.gate
    }

    /// Puts a root behind a gate.
    #[must_use]
    pub fn new(root: R) -> (r: FilesystemExecutionGate<R>)
        ensures
            r.gate().adapter().root() == root,
            r.gate()@ == (GateModel {
                pending: Map::<u128, RetainedModel<FilesystemWriteOperation>>::empty(),
                index: Map::<u128, u128>::empty(),
            }),
    {
        FilesystemExecutionGate { gate: ExecutionGate::new(FilesystemAdapter { root }) }
    }

    /// Binds an operation to the budget of its task, authorizes it, and executes it
    /// immediately only when no approval is required.
    pub fn request<S: EventStore>(
        &mut self,
        supervisor: &mut TaskSupervisor<S>,
        task_id: TaskId,
        operation: FilesystemWriteOperation,
        approval_ttl: Duration,
    ) -> (r: Result<ExecutionOutcome<FilesystemWriteReceipt>, ExecutionError<FilesystemAdapterError>>)
        requires
            old(supervisor)@.coherent(),
        ensures
            final(supervisor)@.coherent(),
            event::carries(old(supervisor).store(), final(supervisor).store()),
            match supervisor::unbindable(old(supervisor)@, task_id.value) {
                Some(error) => r is Err && r->Err_0 == ExecutionError::<
                    FilesystemAdapterError,
                >::Supervisor(error) && final(supervisor)@ == old(supervisor)@ && final(self).gate()
                    == old(self).gate(),
                None => exists|bound: FilesystemWriteOperation|
                    bound@ == bound_to(
                        operation@,
                        old(supervisor)@.tasks[task_id.value].deadline,
                    ) && bound.asks() == operation.asks() && #[trigger] execution::gate_requested(
                        old(self).gate(),
                        final(self).gate(),
                        old(supervisor)@,
                        final(supervisor)@,
                        task_id.value,
                        bound,
                        approval_ttl.nanos as nat,
                        r,
                    ),
            },
            old(supervisor).admits_every_sweep() && old(supervisor).admits(task_id.value, 1)
                && old(supervisor).admits(task_id.value, 2) ==> !execution::store_failed(r),
    {
        let mut operation = operation;
        let ghost asks = operation.asks();
        let context = match supervisor.execution_context(task_id) {
            Ok(context) => context,
            Err(error) => {
                return Err(ExecutionError::Supervisor(error));
            },
        };
        operation.execution_context = Some(context);
        let ghost bound = operation;
        assert(bound.asks() == asks);
        let r = self.gate.request(supervisor, task_id, operation, approval_ttl);
        assert(execution::gate_requested(
            old(self).gate(),
            self.gate(),
            old(supervisor)@,
            supervisor@,
            task_id.value,
            bound,
            approval_ttl.nanos as nat,
            r,
        ));
        r
    }

    /// Approves, consumes, and executes the exact operation retained by the execution gate.
    pub fn approve_and_execute<S: EventStore>(
        &mut self,
        supervisor: &mut TaskSupervisor<S>,
        approval_id: ApprovalId,
    ) -> (r: Result<Executed<FilesystemWriteReceipt>, ExecutionError<FilesystemAdapterError>>)
        requires
            old(supervisor)@.coherent(),
        ensures
            final(supervisor)@.coherent(),
            event::carries(old(supervisor).store(), final(supervisor).store()),
            execution::gate_approved(
                old(self).gate(),
                final(self).gate(),
                old(supervisor)@,
                final(supervisor)@,
                approval_id.value,
                r,
            ),
            old(supervisor).has_room(
                execution::held_task(old(self).gate()@, approval_id.value),
                3,
            ) ==> !execution::store_failed(r),
    {
        self.gate.approve_and_execute(supervisor, approval_id)
    }

    /// Denies a pending operation and drops it.
    pub fn deny<S: EventStore>(
        &mut self,
        supervisor: &mut TaskSupervisor<S>,
        approval_id: ApprovalId,
    ) -> (r: Result<TaskSnapshot, ExecutionError<FilesystemAdapterError>>)
        requires
            old(supervisor)@.coherent(),
        ensures
            final(supervisor)@.coherent(),
            event::carries(old(supervisor).store(), final(supervisor).store()),
            execution::gate_denied(
                old(self).gate(),
                final(self).gate(),
                old(supervisor)@,
                final(supervisor)@,
                approval_id.value,
                r,
            ),
            old(supervisor).admits_every_sweep() ==> !execution::store_failed(r),
    {
        self.gate.deny(supervisor, approval_id)
    }

    /// Expires approvals and drops the operations of tasks that ended.
    pub fn expire<S: EventStore>(&mut self, supervisor: &mut TaskSupervisor<S>) -> (r: Result<
        usize,
        ExecutionError<FilesystemAdapterError>,
    >)
        requires
            old(supervisor)@.coherent(),
        ensures
            final(supervisor)@.coherent(),
            event::carries(old(supervisor).store(), final(supervisor).store()),
            execution::gate_expired(
                old(self).gate(),
                final(self).gate(),
                old(supervisor)@,
                final(supervisor)@,
                r,
            ),
            old(supervisor).admits_every_sweep() ==> r is Ok,
    {
        self.gate.expire(supervisor)
    }

    /// Cancels a task and drops its operations.
    pub fn cancel<S: EventStore>(
        &mut self,
        supervisor: &mut TaskSupervisor<S>,
        task_id: TaskId,
    ) -> (r: Result<bool, ExecutionError<FilesystemAdapterError>>)
        requires
            old(supervisor)@.coherent(),
        ensures
            final(supervisor)@.coherent(),
            event::carries(old(supervisor).store(), final(supervisor).store()),
            execution::gate_cancelled(
                old(self).gate(),
                final(self).gate(),
                old(supervisor)@,
                final(supervisor)@,
                task_id.value,
                r,
            ),
            execution::store_failed(r) ==> !old(supervisor).admits(
                task_id.value,
                old(supervisor)@.transition_kinds(
                    task_id.value,
                    TaskState::Cancelled,
                    None,
                ).len(),
            ),
    {
        self.gate.cancel(supervisor, task_id)
    }

    /// How many operations wait behind the execution gate.
    #[must_use]
    pub fn pending_count(&self) -> (r: usize)
        ensures
            r == self.gate()@.pending.dom().len(),
    {
        self.gate.pending_count()
    }
}

} // verus!
