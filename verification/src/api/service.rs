//! Requests, responses, and the service that answers.

use vstd::prelude::*;

use crate::api::{
    DEFAULT_EVENT_PAGE_SIZE, LocalApiError, MAX_EVENT_PAGE_SIZE, MAX_SUPPORTED_PROTOCOL_VERSION,
    MIN_SUPPORTED_PROTOCOL_VERSION, PROTOCOL_VERSION,
};
use crate::error;
use crate::error::{Issue, ValidationErrors};
use crate::event;
use crate::event::{EventStore, TaskEvent};
use crate::ids;
use crate::ids::TaskId;
use crate::recovery::TaskSnapshot;
use crate::state::TaskState;
use crate::supervision;
use crate::supervision::SupervisorModel;
use crate::supervisor;
use crate::supervisor::{SubmitResult, SupervisorError, TaskSupervisor};
use crate::task::TaskSpec;

verus! {

// ------------------------------------------------------------------ messages

/// One request.
pub struct ApiRequest {
    pub protocol_version: u16,
    pub request: ApiMethod,
}

impl ApiRequest {
    /// A request in the version that is spoken.
    #[must_use]
    pub fn new(request: ApiMethod) -> (r: ApiRequest)
        ensures
            r == (ApiRequest { protocol_version: PROTOCOL_VERSION, request }),
    {
        ApiRequest { protocol_version: PROTOCOL_VERSION, request }
    }
}

/// What is asked for.
pub enum ApiMethod {
    Health {},
    Submit { task: Box<TaskSpec> },
    GetTask { task_id: TaskId },
    Events { task_id: TaskId, after_sequence: u64, limit: u16 },
    Start { task_id: TaskId },
    WaitForApproval { task_id: TaskId },
    Approve { task_id: TaskId },
    Succeed { task_id: TaskId },
    Fail { task_id: TaskId },
    Cancel { task_id: TaskId },
}

/// The page size of a request that names none.
#[must_use]
pub fn default_event_page_size() -> (r: u16)
    ensures
        r == DEFAULT_EVENT_PAGE_SIZE,
{
    DEFAULT_EVENT_PAGE_SIZE
}

/// One response.
#[derive(Debug)]
pub struct ApiResponse {
    pub protocol_version: u16,
    pub outcome: ApiOutcome,
}

/// Success or failure.
#[derive(Debug)]
pub enum ApiOutcome {
    Success { result: ApiResult },
    Error { error: ApiError },
}

/// The versions that are understood.
#[derive(Clone, Copy, Debug, PartialEq, Eq, Structural)]
pub struct SupportedProtocolVersions {
    pub minimum: u16,
    pub maximum: u16,
}

/// What a request led to.
#[derive(Debug)]
pub enum ApiResult {
    Healthy { supported_protocol_versions: SupportedProtocolVersions },
    Submitted {
        disposition: SubmissionDisposition,
        task: TaskView,
        validation_errors: Vec<ValidationIssue>,
    },
    Task { task: TaskView },
    Events { events: Vec<TaskEvent>, has_more: bool },
    Cancelled { task: TaskView, changed: bool },
}

/// What became of a submission.
#[derive(Clone, Copy, Debug, PartialEq, Eq, Structural)]
pub enum SubmissionDisposition {
    Accepted,
    Existing,
    Rejected,
}

/// A task as the API shows it. Its goal and its capabilities stay inside.
#[derive(Clone, Copy, Debug, PartialEq, Eq, Structural)]
pub struct TaskView {
    pub task_id: TaskId,
    pub state: TaskState,
}

impl TaskView {
    /// What the API shows of a task.
    #[must_use]
    pub fn of(task: TaskSnapshot) -> (r: TaskView)
        ensures
            r == (TaskView { task_id: task.task_id, state: task.state }),
    {
        TaskView { task_id: task.task_id, state: task.state }
    }
}

/// One field of a submission that is not valid.
#[derive(Debug)]
pub struct ValidationIssue {
    pub field: String,
    pub message: String,
}

/// A failure.
#[derive(Debug)]
pub struct ApiError {
    pub code: ApiErrorCode,
    pub message: String,
}

/// The category of a failure.
#[derive(Clone, Copy, Debug, PartialEq, Eq, Structural)]
pub enum ApiErrorCode {
    InvalidRequest,
    UnsupportedProtocolVersion,
    FrameTooLarge,
    TaskNotFound,
    IdempotencyConflict,
    CapacityExceeded,
    InvalidStateTransition,
    StorageUnavailable,
    ResponseTooLarge,
}

// -------------------------------------------------------------------- models

/// What a request led to.
pub enum ResultModel {
    Healthy { supported: SupportedProtocolVersions },
    Submitted { disposition: SubmissionDisposition, task: TaskView, issues: Seq<Issue> },
    Task { task: TaskView },
    Events { events: Seq<TaskEvent>, has_more: bool },
    Cancelled { task: TaskView, changed: bool },
}

/// One response in the version that is spoken, or in another.
pub enum ResponseModel {
    Done { version: u16, result: ResultModel },
    Failed { version: u16, code: ApiErrorCode, message: Seq<char> },
}

/// The fields and messages of a list.
pub open spec fn issue_models(list: Seq<ValidationIssue>) -> Seq<Issue> {
    list.map_values(|issue: ValidationIssue| (issue.field@, issue.message@))
}

impl View for ApiResult {
    type V = ResultModel;

    open spec fn view(&self) -> ResultModel {
        match self {
            ApiResult::Healthy { supported_protocol_versions } => ResultModel::Healthy {
                supported: *supported_protocol_versions,
            },
            ApiResult::Submitted { disposition, task, validation_errors } => {
                ResultModel::Submitted {
                    disposition: *disposition,
                    task: *task,
                    issues: issue_models(validation_errors@),
                }
            },
            ApiResult::Task { task } => ResultModel::Task { task: *task },
            ApiResult::Events { events, has_more } => ResultModel::Events {
                events: events@,
                has_more: *has_more,
            },
            ApiResult::Cancelled { task, changed } => ResultModel::Cancelled {
                task: *task,
                changed: *changed,
            },
        }
    }
}

impl View for ApiResponse {
    type V = ResponseModel;

    open spec fn view(&self) -> ResponseModel {
        match self.outcome {
            ApiOutcome::Success { result } => ResponseModel::Done {
                version: self.protocol_version,
                result: result@,
            },
            ApiOutcome::Error { error } => ResponseModel::Failed {
                version: self.protocol_version,
                code: error.code,
                message: error.message@,
            },
        }
    }
}

/// A success in the version that is spoken.
pub open spec fn done(result: ResultModel) -> ResponseModel {
    ResponseModel::Done { version: PROTOCOL_VERSION, result }
}

/// A failure in the version that is spoken.
pub open spec fn failed(code: ApiErrorCode, message: Seq<char>) -> ResponseModel {
    ResponseModel::Failed { version: PROTOCOL_VERSION, code, message }
}

/// The answer where a task is not known.
pub open spec fn not_found() -> ResponseModel {
    failed(ApiErrorCode::TaskNotFound, "task not found"@)
}

/// The answer to a failure of the supervisor.
pub open spec fn supervisor_failure(error: SupervisorError) -> ResponseModel {
    match error {
        SupervisorError::TaskNotFound => not_found(),
        SupervisorError::IdempotencyConflict => failed(
            ApiErrorCode::IdempotencyConflict,
            "idempotency key conflicts with existing input"@,
        ),
        SupervisorError::CapacityExceeded => failed(
            ApiErrorCode::CapacityExceeded,
            "task capacity exceeded"@,
        ),
        SupervisorError::InvalidStateTransition(_)
        | SupervisorError::TaskNotRunning
        | SupervisorError::Approval(_) => failed(
            ApiErrorCode::InvalidStateTransition,
            "requested task transition is not allowed"@,
        ),
        SupervisorError::EventStore(_) => failed(
            ApiErrorCode::StorageUnavailable,
            "event storage is unavailable"@,
        ),
    }
}

/// The answer to a submission.
pub open spec fn submission(r: Result<SubmitResult, SupervisorError>) -> ResponseModel {
    match r {
        Ok(SubmitResult::Accepted(task)) => done(
            ResultModel::Submitted {
                disposition: SubmissionDisposition::Accepted,
                task: TaskView { task_id: task.task_id, state: task.state },
                issues: Seq::empty(),
            },
        ),
        Ok(SubmitResult::Existing(task)) => done(
            ResultModel::Submitted {
                disposition: SubmissionDisposition::Existing,
                task: TaskView { task_id: task.task_id, state: task.state },
                issues: Seq::empty(),
            },
        ),
        Ok(SubmitResult::Rejected { task, errors }) => done(
            ResultModel::Submitted {
                disposition: SubmissionDisposition::Rejected,
                task: TaskView { task_id: task.task_id, state: task.state },
                issues: errors@,
            },
        ),
        Err(error) => supervisor_failure(error),
    }
}

/// The state of a task as the API shows it.
pub open spec fn shown(m: SupervisorModel, task_id: TaskId) -> TaskView {
    TaskView { task_id, state: m.tasks[task_id.value].state }
}

/// The answer to a transition that left the supervisor as `m`.
pub open spec fn transition(
    m: SupervisorModel,
    task_id: TaskId,
    r: Result<(), SupervisorError>,
) -> ResponseModel {
    match r {
        Err(error) => supervisor_failure(error),
        Ok(_) => if m.tasks.contains_key(task_id.value) {
            done(ResultModel::Task { task: shown(m, task_id) })
        } else {
            not_found()
        },
    }
}

/// The answer to a cancellation that left the supervisor as `m`.
pub open spec fn cancellation(
    m: SupervisorModel,
    task_id: TaskId,
    r: Result<bool, SupervisorError>,
) -> ResponseModel {
    match r {
        Err(error) => supervisor_failure(error),
        Ok(changed) => if m.tasks.contains_key(task_id.value) {
            done(ResultModel::Cancelled { task: shown(m, task_id), changed })
        } else {
            not_found()
        },
    }
}

/// A page of events: as many as the limit allows, and whether there are more.
pub open spec fn page(events: Seq<TaskEvent>, limit: u16) -> ResultModel {
    ResultModel::Events {
        events: if events.len() > limit {
            events.take(limit as int)
        } else {
            events
        },
        has_more: events.len() > limit,
    }
}

/// What a transition of a task to a state does and answers, with the deadline given.
pub open spec fn moved(
    old: SupervisorModel,
    new: SupervisorModel,
    task_id: TaskId,
    next: TaskState,
    deadline: Option<u128>,
    response: ResponseModel,
) -> bool {
    exists|r: Result<(), SupervisorError>| #[trigger]
        supervisor::transition_outcome(old, new, task_id.value, next, None, deadline, r)
            && response == transition(new, task_id, r)
}

/// What starting a task does and answers, whatever time it is.
pub open spec fn started(
    old: SupervisorModel,
    new: SupervisorModel,
    task_id: TaskId,
    response: ResponseModel,
) -> bool {
    exists|now: u128|
        moved(
            old,
            new,
            task_id,
            TaskState::Running,
            #[trigger] supervisor::deadline_after_start(old, task_id.value, now),
            response,
        )
}

/// What answering a request does to the supervisor, and what is answered.
///
/// Left open are the identifier that a submission draws, the time at which a task is started,
/// and whether the event store can be read and written; [`refused`] says of the last what a
/// failure of the store tells.
pub open spec fn handled(
    old: SupervisorModel,
    new: SupervisorModel,
    request: ApiRequest,
    response: ResponseModel,
) -> bool {
    if request.protocol_version != PROTOCOL_VERSION {
        &&& new == old
        &&& response == failed(
            ApiErrorCode::UnsupportedProtocolVersion,
            "protocol version is not supported"@,
        )
    } else {
        match request.request {
            ApiMethod::Health { .. } => {
                &&& new == old
                &&& response == done(
                    ResultModel::Healthy {
                        supported: SupportedProtocolVersions {
                            minimum: MIN_SUPPORTED_PROTOCOL_VERSION,
                            maximum: MAX_SUPPORTED_PROTOCOL_VERSION,
                        },
                    },
                )
            },
            ApiMethod::Submit { task } => exists|
                id: u128,
                r: Result<SubmitResult, SupervisorError>,
            | #[trigger]
                supervisor::submit_outcome(old, new, (*task)@, id, r) && ids::is_version_7(id)
                    && response == submission(r),
            ApiMethod::GetTask { task_id } => {
                &&& new == old
                &&& response == (if old.tasks.contains_key(task_id.value) {
                    done(ResultModel::Task { task: shown(old, task_id) })
                } else {
                    not_found()
                })
            },
            ApiMethod::Events { task_id, after_sequence, limit } => {
                &&& new == old
                &&& if limit == 0 || limit > MAX_EVENT_PAGE_SIZE {
                    response == failed(ApiErrorCode::InvalidRequest, "request is invalid"@)
                } else if !old.tasks.contains_key(task_id.value) {
                    response == not_found()
                } else {
                    ||| response == done(
                        page(
                            event::events_of(old.log, task_id.value).filter(
                                |event: TaskEvent| event.sequence > after_sequence,
                            ),
                            limit,
                        ),
                    )
                    ||| response == failed(
                        ApiErrorCode::StorageUnavailable,
                        "event storage is unavailable"@,
                    )
                }
            },
            ApiMethod::Start { task_id } => started(old, new, task_id, response),
            ApiMethod::Approve { task_id } => started(old, new, task_id, response),
            ApiMethod::WaitForApproval { task_id } => moved(
                old,
                new,
                task_id,
                TaskState::WaitingApproval,
                old.tasks[task_id.value].deadline,
                response,
            ),
            ApiMethod::Succeed { task_id } => moved(
                old,
                new,
                task_id,
                TaskState::Succeeded,
                old.tasks[task_id.value].deadline,
                response,
            ),
            ApiMethod::Fail { task_id } => moved(
                old,
                new,
                task_id,
                TaskState::Failed,
                old.tasks[task_id.value].deadline,
                response,
            ),
            ApiMethod::Cancel { task_id } => exists|r: Result<bool, SupervisorError>| #[trigger]
                supervisor::cancel_outcome(old, new, task_id.value, r) && response == cancellation(
                    new,
                    task_id,
                    r,
                ),
        }
    }
}

/// Whether a response says that the event store failed.
pub open spec fn unavailable(response: ResponseModel) -> bool {
    response matches ResponseModel::Failed { code, .. } && code is StorageUnavailable
}

/// Whether the event store did not promise the events of a transition.
pub open spec fn move_refused<S: EventStore>(
    store: S,
    m: SupervisorModel,
    task: u128,
    next: TaskState,
) -> bool {
    !store.admits(task, m.transition_kinds(task, next, None).len())
}

/// Whether the event store did not promise what a request takes: to record its events, or to
/// list those of a task. For a submission that is told of the identifier that was drawn.
pub open spec fn refused<S: EventStore>(
    store: S,
    old: SupervisorModel,
    new: SupervisorModel,
    method: ApiMethod,
    response: ResponseModel,
) -> bool {
    match method {
        ApiMethod::Health { .. } => false,
        ApiMethod::GetTask { .. } => false,
        ApiMethod::Submit { task } => exists|id: u128, r: Result<SubmitResult, SupervisorError>|
            #[trigger] supervisor::submit_outcome(old, new, (*task)@, id, r) && ids::is_version_7(
                id,
            ) && response == submission(r) && !store.admits(
                id,
                supervision::submission_kinds((*task)@).len(),
            ),
        ApiMethod::Events { task_id, .. } => !store.reads(task_id.value),
        ApiMethod::Start { task_id } => move_refused(store, old, task_id.value, TaskState::Running),
        ApiMethod::Approve { task_id } => move_refused(
            store,
            old,
            task_id.value,
            TaskState::Running,
        ),
        ApiMethod::WaitForApproval { task_id } => move_refused(
            store,
            old,
            task_id.value,
            TaskState::WaitingApproval,
        ),
        ApiMethod::Succeed { task_id } => move_refused(
            store,
            old,
            task_id.value,
            TaskState::Succeeded,
        ),
        ApiMethod::Fail { task_id } => move_refused(store, old, task_id.value, TaskState::Failed),
        ApiMethod::Cancel { task_id } => move_refused(
            store,
            old,
            task_id.value,
            TaskState::Cancelled,
        ),
    }
}

// ----------------------------------------------------------------- responses

fn ok(result: ApiResult) -> (r: ApiResponse)
    ensures
        r@ == done(result@),
{
    ApiResponse { protocol_version: PROTOCOL_VERSION, outcome: ApiOutcome::Success { result } }
}

fn api_error(code: ApiErrorCode, message: &'static str) -> (r: ApiResponse)
    ensures
        r@ == failed(code, message@),
{
    ApiResponse {
        protocol_version: PROTOCOL_VERSION,
        outcome: ApiOutcome::Error { error: ApiError { code, message: message.to_owned() } },
    }
}

/// The answer to what is not a request.
#[must_use]
pub fn invalid_request() -> (r: ApiResponse)
    ensures
        r@ == failed(ApiErrorCode::InvalidRequest, "request is invalid"@),
{
    api_error(ApiErrorCode::InvalidRequest, "request is invalid")
}

/// The answer to a frame that could not be read; where there is none, the connection fails.
pub fn frame_response(error: LocalApiError) -> (r: Result<ApiResponse, LocalApiError>)
    ensures
        match r {
            Ok(response) => error is FrameTooLarge && response@ == failed(
                ApiErrorCode::FrameTooLarge,
                "request frame is too large"@,
            ),
            Err(kept) => !(error is FrameTooLarge) && kept == error,
        },
{
    match error {
        LocalApiError::FrameTooLarge => Ok(
            api_error(ApiErrorCode::FrameTooLarge, "request frame is too large"),
        ),
        other => Err(other),
    }
}

/// Whether an encoded response does not fit its frame.
pub open spec fn is_oversize(encoded_bytes: usize, max_frame_bytes: usize) -> bool {
    encoded_bytes > max_frame_bytes
}

/// The answer that stands in for one whose encoding exceeds the limit.
#[must_use]
pub fn oversize_response(encoded_bytes: usize, max_frame_bytes: usize) -> (r: Option<ApiResponse>)
    ensures
        r is Some <==> is_oversize(encoded_bytes, max_frame_bytes),
        r is Some ==> r->0@ == failed(
            ApiErrorCode::ResponseTooLarge,
            "response exceeds configured limit"@,
        ),
{
    if encoded_bytes > max_frame_bytes {
        Some(api_error(ApiErrorCode::ResponseTooLarge, "response exceeds configured limit"))
    } else {
        None
    }
}

/// Whether a response is in a version that the client speaks.
pub open spec fn is_spoken(version: u16) -> bool {
    version == PROTOCOL_VERSION
}

/// A client takes a response only in the version that it speaks.
pub fn accept_response(response: ApiResponse) -> (r: Result<ApiResponse, LocalApiError>)
    ensures
        r == (if is_spoken(response.protocol_version) {
            Ok::<ApiResponse, LocalApiError>(response)
        } else {
            Err(LocalApiError::Protocol)
        }),
{
    if response.protocol_version != PROTOCOL_VERSION {
        return Err(LocalApiError::Protocol);
    }
    Ok(response)
}

/// The fields and messages of validation failures.
fn validation_issues(errors: &ValidationErrors) -> (r: Vec<ValidationIssue>)
    ensures
        issue_models(r@) == errors@,
{
    let list = errors.errors();
    let mut out: Vec<ValidationIssue> = Vec::new();
    let mut i: usize = 0;
    while i < list.len()
        invariant
            i <= list@.len(),
            out@.len() == i,
            error::issues(list@) == errors@,
            forall|k: int|
                0 <= k < i ==> ((#[trigger] out@[k]).field@, out@[k].message@) == errors@[k],
        decreases list@.len() - i,
    {
        assert(error::issues(list@)[i as int] == list@[i as int]@);
        out.push(
            ValidationIssue {
                field: list[i].field().to_owned(),
                message: list[i].message().to_owned(),
            },
        );
        i = i + 1;
    }
    assert(issue_models(out@) =~= errors@);
    out
}

/// The answer to a submission.
#[must_use]
pub fn submission_response(result: Result<SubmitResult, SupervisorError>) -> (r: ApiResponse)
    ensures
        r@ == submission(result),
{
    let (disposition, task, validation_errors) = match result {
        Ok(SubmitResult::Accepted(task)) => {
            (SubmissionDisposition::Accepted, task, Vec::new())
        },
        Ok(SubmitResult::Existing(task)) => {
            (SubmissionDisposition::Existing, task, Vec::new())
        },
        Ok(SubmitResult::Rejected { task, errors }) => {
            (SubmissionDisposition::Rejected, task, validation_issues(&errors))
        },
        Err(error) => {
            return supervisor_error_response(&error);
        },
    };
    proof {
        if !(disposition is Rejected) {
            assert(issue_models(validation_errors@) =~= Seq::<Issue>::empty());
        }
    }
    ok(ApiResult::Submitted { disposition, task: TaskView::of(task), validation_errors })
}

/// The answer to a failure of the supervisor. It holds nothing of the task.
#[must_use]
pub fn supervisor_error_response(error: &SupervisorError) -> (r: ApiResponse)
    ensures
        r@ == supervisor_failure(*error),
{
    match error {
        SupervisorError::TaskNotFound => api_error(ApiErrorCode::TaskNotFound, "task not found"),
        SupervisorError::IdempotencyConflict => api_error(
            ApiErrorCode::IdempotencyConflict,
            "idempotency key conflicts with existing input",
        ),
        SupervisorError::CapacityExceeded => api_error(
            ApiErrorCode::CapacityExceeded,
            "task capacity exceeded",
        ),
        SupervisorError::InvalidStateTransition(_)
        | SupervisorError::TaskNotRunning
        | SupervisorError::Approval(_) => api_error(
            ApiErrorCode::InvalidStateTransition,
            "requested task transition is not allowed",
        ),
        SupervisorError::EventStore(_) => api_error(
            ApiErrorCode::StorageUnavailable,
            "event storage is unavailable",
        ),
    }
}

/// Cuts the events that were listed to one page.
#[must_use]
pub fn event_page(events: Vec<TaskEvent>, limit: u16) -> (r: ApiResult)
    ensures
        r@ == page(events@, limit),
{
    let ghost all = events@;
    let mut events = events;
    let has_more = events.len() > limit as usize;
    if has_more {
        events.truncate(limit as usize);
        assert(events@ =~= all.take(limit as int));
    }
    ApiResult::Events { events, has_more }
}

// ------------------------------------------------------------------- service

/// Answers requests on the tasks of one supervisor.
pub struct ApiService<S> {
    supervisor: TaskSupervisor<S>,
}

impl<S: EventStore> View for ApiService<S> {
    type V = SupervisorModel;

    closed spec fn view(&self) -> SupervisorModel {
        self.supervisor@
    }
}

impl<S: EventStore> ApiService<S> {
    /// The event store.
    pub closed spec fn store(&self) -> S {
        self.supervisor.store()
    }

    /// The log of the model is that of the event store.
    pub proof fn law_the_log_is_that_of_the_store(&self)
        ensures
            self@.log == self.store().log(),
    {
        self.supervisor.law_the_log_is_that_of_the_store();
    }

    /// A service for the tasks of a supervisor.
    #[must_use]
    pub fn new(supervisor: TaskSupervisor<S>) -> (r: ApiService<S>)
        ensures
            r@ == supervisor@,
            r.store() == supervisor.store(),
    {
        ApiService { supervisor }
    }

    fn task_response(&self, task_id: TaskId, transitioned: Result<(), SupervisorError>) -> (r:
        ApiResponse)
        ensures
            r@ == transition(self@, task_id, transitioned),
    {
        match transitioned {
            Ok(_) => match self.supervisor.get(task_id) {
                Some(task) => ok(ApiResult::Task { task: TaskView::of(task) }),
                None => api_error(ApiErrorCode::TaskNotFound, "task not found"),
            },
            Err(error) => supervisor_error_response(&error),
        }
    }

    fn cancel_response(&self, task_id: TaskId, cancelled: Result<bool, SupervisorError>) -> (r:
        ApiResponse)
        ensures
            r@ == cancellation(self@, task_id, cancelled),
    {
        match cancelled {
            Ok(changed) => match self.supervisor.get(task_id) {
                Some(task) => ok(ApiResult::Cancelled { task: TaskView::of(task), changed }),
                None => api_error(ApiErrorCode::TaskNotFound, "task not found"),
            },
            Err(error) => supervisor_error_response(&error),
        }
    }

    /// Answers one request.
    pub fn handle(&mut self, request: ApiRequest) -> (r: ApiResponse)
        requires
            old(self)@.coherent(),
        ensures
            final(self)@.coherent(),
            handled(old(self)@, final(self)@, request, r@),
            event::carries(old(self).store(), final(self).store()),
            unavailable(r@) ==> refused(
                old(self).store(),
                old(self)@,
                final(self)@,
                request.request,
                r@,
            ),
    {
        if request.protocol_version != PROTOCOL_VERSION {
            return api_error(
                ApiErrorCode::UnsupportedProtocolVersion,
                "protocol version is not supported",
            );
        }
        match request.request {
            ApiMethod::Health { .. } => ok(
                ApiResult::Healthy {
                    supported_protocol_versions: SupportedProtocolVersions {
                        minimum: MIN_SUPPORTED_PROTOCOL_VERSION,
                        maximum: MAX_SUPPORTED_PROTOCOL_VERSION,
                    },
                },
            ),
            ApiMethod::Submit { task } => {
                let result = self.supervisor.submit(*task);
                submission_response(result)
            },
            ApiMethod::GetTask { task_id } => self.task_response(task_id, Ok(())),
            ApiMethod::Events { task_id, after_sequence, limit } => {
                if limit == 0 || limit > MAX_EVENT_PAGE_SIZE {
                    return invalid_request();
                }
                match self.supervisor.events(task_id, after_sequence) {
                    Ok(events) => ok(event_page(events, limit)),
                    Err(error) => supervisor_error_response(&error),
                }
            },
            ApiMethod::Start { task_id } => {
                let result = self.supervisor.start(task_id);
                self.task_response(task_id, result)
            },
            ApiMethod::WaitForApproval { task_id } => {
                let result = self.supervisor.wait_for_approval(task_id);
                self.task_response(task_id, result)
            },
            ApiMethod::Approve { task_id } => {
                let result = self.supervisor.resume_after_approval(task_id);
                self.task_response(task_id, result)
            },
            ApiMethod::Succeed { task_id } => {
                let result = self.supervisor.succeed(task_id);
                self.task_response(task_id, result)
            },
            ApiMethod::Fail { task_id } => {
                let result = self.supervisor.fail(task_id);
                self.task_response(task_id, result)
            },
            ApiMethod::Cancel { task_id } => {
                let result = self.supervisor.cancel(task_id);
                self.cancel_response(task_id, result)
            },
        }
    }
}

// ---------------------------------------------------------------------- laws

/// A request in a version that is not spoken changes nothing and is told so.
pub proof fn law_other_versions_change_nothing(
    old: SupervisorModel,
    new: SupervisorModel,
    request: ApiRequest,
    response: ResponseModel,
)
    requires
        handled(old, new, request, response),
        request.protocol_version != PROTOCOL_VERSION,
    ensures
        new == old,
        response matches ResponseModel::Failed { code, .. } && code
            is UnsupportedProtocolVersion,
{
}

/// Asking for health, for a task or for events changes nothing.
pub proof fn law_queries_change_nothing(
    old: SupervisorModel,
    new: SupervisorModel,
    request: ApiRequest,
    response: ResponseModel,
)
    requires
        handled(old, new, request, response),
        request.request is Health || request.request is GetTask || request.request is Events,
    ensures
        new == old,
{
}

/// Every response is in the version that is spoken.
pub proof fn law_responses_are_versioned(
    old: SupervisorModel,
    new: SupervisorModel,
    request: ApiRequest,
    response: ResponseModel,
)
    requires
        handled(old, new, request, response),
    ensures
        match response {
            ResponseModel::Done { version, .. } => version == PROTOCOL_VERSION,
            ResponseModel::Failed { version, .. } => version == PROTOCOL_VERSION,
        },
{
}

/// A request that is answered with a failure changed nothing.
pub proof fn law_failures_change_nothing(
    old: SupervisorModel,
    new: SupervisorModel,
    request: ApiRequest,
    response: ResponseModel,
)
    requires
        handled(old, new, request, response),
        response is Failed,
    ensures
        new == old,
{
}

/// Pages follow one another without a gap: a reader that goes on after the last event of a
/// page gets the events that the page left out.
pub proof fn law_pages_follow_one_another(
    log: event::EventLog,
    task: u128,
    after: u64,
    limit: u16,
)
    requires
        event::log_contiguous(log),
        after + limit < event::events_of(log, task).len(),
        0 < limit,
    ensures
        ({
            let rest = event::events_of(log, task).filter(
                |event: TaskEvent| event.sequence > after,
            );
            let last = rest[limit - 1].sequence;
            &&& page(rest, limit) == (ResultModel::Events {
                events: rest.take(limit as int),
                has_more: true,
            })
            &&& event::events_of(log, task).filter(|event: TaskEvent| event.sequence > last)
                == rest.skip(limit as int)
        }),
{
    let all = event::events_of(log, task);
    event::law_list_resumes_after_a_number(log, task, after);
    let rest = all.filter(|event: TaskEvent| event.sequence > after);
    assert(rest == all.skip(after as int));
    let last = rest[limit - 1].sequence;
    assert(log[task][after + limit - 1] == all[after + limit - 1]);
    assert(last == after + limit);
    event::law_list_resumes_after_a_number(log, task, last);
    assert(all.skip(last as int) =~= rest.skip(limit as int));
}

} // verus!
