//! Bounded agent execution and model adapter contracts.
//!
//! Model decisions are untrusted proposals. [`AgentRuntime`] exposes only task-granted
//! operation scopes, prepares operations through trusted catalogs, and executes them through
//! capability and approval gates.

use vstd::prelude::*;

use crate::approval::ApprovalRequest;
use crate::error::ErrorCode;
use crate::event;
use crate::event::EventStore;
use crate::execution;
use crate::execution::{Executed, ExecutionError, ExecutionOutcome, GuardedOperation};
use crate::ids::{ApprovalId, TaskId};
use crate::network;
use crate::network::{
    ExchangeRequest, MAX_NETWORK_HOST_BYTES, MAX_TCP_REQUEST_BYTES, NetworkAdapterError,
    NetworkCatalog, NetworkExecutionGate, NoTransport, TcpExchangeOperation,
    TcpExchangeResponse, TcpTransport,
};
use crate::policy::{DenialReason, RequestModel};
use crate::recovery::TaskSnapshot;
use crate::room;
use crate::state::TaskState;
use crate::supervision::SupervisorModel;
use crate::supervisor;
use crate::supervisor::{
    OperationAuthorization, SupervisorError, TaskExecutionContext, TaskExecutionInput,
    TaskSupervisor,
};
use crate::task;
use crate::task::{DestinationModel, NetworkDestination, TaskModel};
use crate::text;
use crate::text::{bytes_contain, is_valid_identifier};
use crate::time::{Duration, NANOS_PER_SECOND};
use crate::tool;
use crate::tool::{
    MAX_IDENTIFIER_BYTES, RouteModel, ToolAdapterError, ToolCatalog, ToolExecutionGate,
    ToolHandler, ToolOperation, ToolOutput, are_valid_arguments,
};

verus! {

pub const DEFAULT_MAX_MODEL_STEPS: u16 = 16;

pub const MAX_MODEL_STEPS: u16 = 64;

pub const MAX_FINAL_OUTPUT_BYTES: usize = 1_048_576;

pub const DEFAULT_APPROVAL_TTL_SECONDS: u64 = 300;

pub const MAX_APPROVAL_TTL_SECONDS: u64 = 900;

pub const MIN_APPROVAL_TTL_NANOS: u128 = 1_000_000;

// -------------------------------------------------------------------- errors

/// Resource-free agent runtime failure categories.
#[derive(Clone, Copy, Debug, PartialEq, Eq, Structural)]
pub enum AgentError {
    InvalidConfig,
    CapacityExceeded,
    InvalidState,
    InvalidDecision,
    StepLimitExceeded,
    ModelFailed,
    ToolFailed,
    NetworkFailed,
    BudgetExceeded,
    Supervisor(SupervisorError),
}

/// The category that a failure is recorded under, if it has one.
pub open spec fn failure_category(error: AgentError) -> Option<ErrorCode> {
    if error is BudgetExceeded {
        Some(ErrorCode::BudgetExceeded)
    } else {
        None
    }
}

impl AgentError {
    /// The public error code of the failure, if it has one.
    #[must_use]
    pub fn code(&self) -> (r: Option<ErrorCode>)
        ensures
            r == failure_category(*self),
    {
        match self {
            AgentError::BudgetExceeded => Some(ErrorCode::BudgetExceeded),
            _ => None,
        }
    }

    /// The text of the failure.
    pub open spec fn text(self) -> Seq<char> {
        match self {
            AgentError::InvalidConfig => "invalid Agent runtime configuration"@,
            AgentError::CapacityExceeded => "Agent runtime capacity exceeded"@,
            AgentError::InvalidState => "Agent runtime state is invalid"@,
            AgentError::InvalidDecision => "model decision is invalid"@,
            AgentError::StepLimitExceeded => "Agent step limit exceeded"@,
            AgentError::ModelFailed => "model adapter failed"@,
            AgentError::ToolFailed => "Tool execution failed"@,
            AgentError::NetworkFailed => "Network execution failed"@,
            AgentError::BudgetExceeded => "Task Budget exceeded"@,
            AgentError::Supervisor(_) => "Task supervision failed"@,
        }
    }

    /// The text of the failure.
    #[must_use]
    pub fn display(&self) -> (r: &'static str)
        ensures
            r@ == self.text(),
    {
        match self {
            AgentError::InvalidConfig => "invalid Agent runtime configuration",
            AgentError::CapacityExceeded => "Agent runtime capacity exceeded",
            AgentError::InvalidState => "Agent runtime state is invalid",
            AgentError::InvalidDecision => "model decision is invalid",
            AgentError::StepLimitExceeded => "Agent step limit exceeded",
            AgentError::ModelFailed => "model adapter failed",
            AgentError::ToolFailed => "Tool execution failed",
            AgentError::NetworkFailed => "Network execution failed",
            AgentError::BudgetExceeded => "Task Budget exceeded",
            AgentError::Supervisor(_) => "Task supervision failed",
        }
    }
}

/// Stable validation category for one untrusted model proposal.
#[derive(Clone, Copy, Debug, PartialEq, Eq, Structural)]
pub enum ModelDecisionError {
    InvalidFinalOutput,
    InvalidToolRequest,
    InvalidNetworkRequest,
}

impl ModelDecisionError {
    /// The text of the failure.
    #[must_use]
    pub fn display(&self) -> (r: &'static str)
        ensures
            r@ == match *self {
                ModelDecisionError::InvalidFinalOutput => "invalid final model output"@,
                ModelDecisionError::InvalidToolRequest => "invalid model Tool request"@,
                ModelDecisionError::InvalidNetworkRequest => "invalid model Network request"@,
            },
    {
        match self {
            ModelDecisionError::InvalidFinalOutput => "invalid final model output",
            ModelDecisionError::InvalidToolRequest => "invalid model Tool request",
            ModelDecisionError::InvalidNetworkRequest => "invalid model Network request",
        }
    }
}

/// Why a scripted model gave no decision.
#[derive(Clone, Copy, Debug, PartialEq, Eq, Structural)]
pub enum ScriptedModelError {
    InvalidScript,
    Unavailable,
    Exhausted,
}

impl ScriptedModelError {
    /// The text of the failure. It does not tell the category.
    #[must_use]
    pub fn display(&self) -> (r: &'static str)
        ensures
            r@ == "scripted model adapter failed"@,
    {
        "scripted model adapter failed"
    }
}

// -------------------------------------------------------------------- config

/// Trusted runtime limits that a model cannot change.
#[derive(Clone, Copy, Debug, PartialEq, Eq)]
pub struct AgentConfig {
    max_steps: u16,
    approval_ttl: Duration,
}

/// Whether a runtime can be made with these limits.
pub open spec fn usable_config(max_steps: u16, approval_ttl: Duration) -> bool {
    1 <= max_steps <= MAX_MODEL_STEPS && MIN_APPROVAL_TTL_NANOS <= approval_ttl.nanos
        <= MAX_APPROVAL_TTL_SECONDS * NANOS_PER_SECOND
}

impl AgentConfig {
    #[verifier::type_invariant]
    spec fn bounded(self) -> bool {
        1 <= self.max_steps <= MAX_MODEL_STEPS
    }

    /// How many decisions a model may make for one task.
    pub closed spec fn steps(self) -> u16 {
        self.max_steps
    }

    /// How long an approval may be given, in nanoseconds.
    pub closed spec fn ttl(self) -> u128 {
        self.approval_ttl.nanos
    }

    /// Takes limits that are in range.
    pub fn new(max_steps: u16, approval_ttl: Duration) -> (r: Result<AgentConfig, AgentError>)
        ensures
            r is Ok <==> usable_config(max_steps, approval_ttl),
            r is Ok ==> r->Ok_0.steps() == max_steps && r->Ok_0.ttl() == approval_ttl.nanos,
            r is Err ==> r->Err_0 == AgentError::InvalidConfig,
    {
        let longest = Duration::from_secs(MAX_APPROVAL_TTL_SECONDS);
        if max_steps == 0 || max_steps > MAX_MODEL_STEPS || approval_ttl.nanos
            < MIN_APPROVAL_TTL_NANOS || approval_ttl.nanos > longest.nanos {
            return Err(AgentError::InvalidConfig);
        }
        Ok(AgentConfig { max_steps, approval_ttl })
    }
}

impl Default for AgentConfig {
    fn default() -> (r: Self)
        ensures
            r.steps() == DEFAULT_MAX_MODEL_STEPS,
            r.ttl() == DEFAULT_APPROVAL_TTL_SECONDS * NANOS_PER_SECOND,
    {
        AgentConfig {
            max_steps: DEFAULT_MAX_MODEL_STEPS,
            approval_ttl: Duration::from_secs(DEFAULT_APPROVAL_TTL_SECONDS),
        }
    }
}

// -------------------------------------------------------------------- models

/// Sensitive input used to create one isolated model session.
///
/// This type intentionally does not implement `Debug`.
pub struct ModelStartRequest<'a> {
    goal: &'a str,
    tool_routes: &'a Vec<String>,
    network_destinations: &'a Vec<NetworkDestination>,
}

/// What a model session starts with.
pub struct StartModel {
    pub goal: Seq<char>,
    pub routes: Seq<Seq<char>>,
    pub destinations: Seq<DestinationModel>,
}

impl<'a> View for ModelStartRequest<'a> {
    type V = StartModel;

    closed spec fn view(&self) -> StartModel {
        StartModel {
            goal: self.goal@,
            routes: text::texts(self.tool_routes@),
            destinations: task::destination_models(self.network_destinations@),
        }
    }
}

impl<'a> ModelStartRequest<'a> {
    /// The goal of the task.
    #[must_use]
    pub fn goal(&self) -> (r: &str)
        ensures
            r@ == self@.goal,
    {
        self.goal
    }

    /// The routes that the task may call.
    #[must_use]
    pub fn tool_routes(&self) -> (r: &[String])
        ensures
            text::texts(r@) == self@.routes,
    {
        self.tool_routes.as_slice()
    }

    /// The destinations that the task may reach.
    #[must_use]
    pub fn network_destinations(&self) -> (r: &[NetworkDestination])
        ensures
            task::destination_models(r@) == self@.destinations,
    {
        self.network_destinations.as_slice()
    }
}

/// Sensitive input for one bounded model turn.
///
/// Only the immediately preceding operation output is exposed. This type intentionally does
/// not implement `Debug`.
pub struct ModelTurnRequest<'a> {
    step: u16,
    previous_operation_output: Option<&'a [u8]>,
}

impl<'a> ModelTurnRequest<'a> {
    /// The number of the turn, from 1.
    pub closed spec fn number(&self) -> u16 {
        self.step
    }

    /// The output of the operation before this turn.
    pub closed spec fn previous(&self) -> Option<Seq<u8>> {
        match self.previous_operation_output {
            Some(bytes) => Some(bytes@),
            None => None,
        }
    }

    /// The number of the turn, from 1.
    #[must_use]
    pub fn step(&self) -> (r: u16)
        ensures
            r == self.number(),
    {
        self.step
    }

    /// The output of the operation before this turn.
    #[must_use]
    pub fn previous_tool_output(&self) -> (r: Option<&[u8]>)
        ensures
            self.previous() == (match r {
                Some(bytes) => Some(bytes@),
                None => None,
            }),
    {
        self.previous_operation_output
    }

    /// The output of the operation before this turn.
    #[must_use]
    pub fn previous_operation_output(&self) -> (r: Option<&[u8]>)
        ensures
            self.previous() == (match r {
                Some(bytes) => Some(bytes@),
                None => None,
            }),
    {
        self.previous_operation_output
    }
}

/// Creates isolated model sessions for individual tasks.
pub trait ModelAdapter: Sized {
    type Error;

    type Session: ModelSession;

    /// What starting a session may do to the adapter and return.
    open spec fn starts(
        before: Self,
        request: StartModel,
        after: Self,
        r: Result<Self::Session, Self::Error>,
    ) -> bool {
        true
    }

    /// Starts the session of one task.
    fn start_session(&mut self, request: ModelStartRequest<'_>) -> (r: Result<
        Self::Session,
        Self::Error,
    >)
        ensures
            Self::starts(*old(self), request@, *final(self), r),
    ;
}

/// One task-scoped model conversation.
pub trait ModelSession: Sized {
    type Error;

    /// What a decision may do to the session and return.
    open spec fn decides(
        before: Self,
        step: u16,
        previous: Option<Seq<u8>>,
        after: Self,
        r: Result<ModelDecision, Self::Error>,
    ) -> bool {
        true
    }

    /// Makes one decision.
    fn decide(&mut self, request: ModelTurnRequest<'_>) -> (r: Result<ModelDecision, Self::Error>)
        ensures
            Self::decides(*old(self), request.number(), request.previous(), *final(self), r),
    ;
}

/// Bounded final user-facing output.
///
/// It intentionally does not implement `Debug` or `Clone`.
pub struct AgentOutput {
    text: String,
}

impl View for AgentOutput {
    type V = Seq<char>;

    closed spec fn view(&self) -> Seq<char> {
        self.text@
    }
}

/// A text that may be given out: not empty, bounded, without NUL.
pub open spec fn valid_output(text: Seq<char>) -> bool {
    1 <= text::utf8(text).len() <= MAX_FINAL_OUTPUT_BYTES && !text::has_nul(text)
}

impl AgentOutput {
    /// Takes a text that may be given out.
    pub fn from_text(text: String) -> (r: Result<AgentOutput, ModelDecisionError>)
        ensures
            r is Ok <==> valid_output(text@),
            r is Ok ==> (r->Ok_0)@ == text@,
            r is Err ==> r->Err_0 == ModelDecisionError::InvalidFinalOutput,
    {
        let bytes = text.as_str().as_bytes();
        if bytes.len() == 0 || bytes.len() > MAX_FINAL_OUTPUT_BYTES || bytes_contain(bytes, 0) {
            return Err(ModelDecisionError::InvalidFinalOutput);
        }
        Ok(AgentOutput { text })
    }

    /// The text.
    #[must_use]
    pub fn as_str(&self) -> (r: &str)
        ensures
            r@ == self@,
    {
        self.text.as_str()
    }

    /// The text.
    #[must_use]
    pub fn into_string(self) -> (r: String)
        ensures
            r@ == self@,
    {
        self.text
    }
}

enum ModelDecisionKind {
    Finish(AgentOutput),
    CallTool { route: String, arguments: Vec<String> },
    TcpExchange { host: String, port: u16, request: Vec<u8> },
}

/// What a model proposes.
pub enum DecisionModel {
    Finish(AgentOutput),
    CallTool { route: Seq<char>, arguments: Seq<Seq<char>> },
    TcpExchange { host: Seq<char>, port: u16, request: Seq<u8> },
}

/// Validated model proposal. Capability and approval identifiers are never model-controlled.
///
/// This type intentionally does not implement `Debug` or `Clone`.
pub struct ModelDecision {
    kind: ModelDecisionKind,
}

impl View for ModelDecision {
    type V = DecisionModel;

    closed spec fn view(&self) -> DecisionModel {
        match self.kind {
            ModelDecisionKind::Finish(output) => DecisionModel::Finish(output),
            ModelDecisionKind::CallTool { route, arguments } => DecisionModel::CallTool {
                route: route@,
                arguments: text::texts(arguments@),
            },
            ModelDecisionKind::TcpExchange { host, port, request } => DecisionModel::TcpExchange {
                host: host@,
                port,
                request: request@,
            },
        }
    }
}

/// Whether a model may decide to call a route with arguments.
pub open spec fn callable(route: Seq<char>, arguments: Seq<Seq<char>>) -> bool {
    text::is_identifier(route, MAX_IDENTIFIER_BYTES as nat) && tool::valid_arguments(arguments)
}

/// Whether a model may decide on an exchange.
pub open spec fn exchangeable(host: Seq<char>, port: u16, request_len: nat) -> bool {
    1 <= text::utf8(host).len() <= MAX_NETWORK_HOST_BYTES && port != 0 && request_len
        <= MAX_TCP_REQUEST_BYTES
}

impl ModelDecision {
    /// Proposes to finish with an output.
    pub fn finish(text: String) -> (r: Result<ModelDecision, ModelDecisionError>)
        ensures
            r is Ok <==> valid_output(text@),
            r is Ok ==> (r->Ok_0)@ is Finish && (r->Ok_0)@->Finish_0@ == text@,
            r is Err ==> r->Err_0 == ModelDecisionError::InvalidFinalOutput,
    {
        match AgentOutput::from_text(text) {
            Ok(output) => Ok(ModelDecision { kind: ModelDecisionKind::Finish(output) }),
            Err(error) => Err(error),
        }
    }

    /// Proposes to call a tool.
    pub fn call_tool(route: String, arguments: Vec<String>) -> (r: Result<
        ModelDecision,
        ModelDecisionError,
    >)
        ensures
            r is Ok <==> callable(route@, text::texts(arguments@)),
            r is Ok ==> (r->Ok_0)@ == (DecisionModel::CallTool {
                route: route@,
                arguments: text::texts(arguments@),
            }),
            r is Err ==> r->Err_0 == ModelDecisionError::InvalidToolRequest,
    {
        if !is_valid_identifier(route.as_str(), MAX_IDENTIFIER_BYTES) || !are_valid_arguments(
            &arguments,
        ) {
            return Err(ModelDecisionError::InvalidToolRequest);
        }
        Ok(ModelDecision { kind: ModelDecisionKind::CallTool { route, arguments } })
    }

    /// Proposes to exchange bytes with a destination.
    pub fn tcp_exchange(host: String, port: u16, request: Vec<u8>) -> (r: Result<
        ModelDecision,
        ModelDecisionError,
    >)
        ensures
            r is Ok <==> exchangeable(host@, port, request@.len()),
            r is Ok ==> (r->Ok_0)@ == (DecisionModel::TcpExchange {
                host: host@,
                port,
                request: request@,
            }),
            r is Err ==> r->Err_0 == ModelDecisionError::InvalidNetworkRequest,
    {
        let length: usize = host.as_str().as_bytes().len();
        if length == 0 || length > MAX_NETWORK_HOST_BYTES || port == 0 || request.len()
            > MAX_TCP_REQUEST_BYTES {
            return Err(ModelDecisionError::InvalidNetworkRequest);
        }
        Ok(ModelDecision { kind: ModelDecisionKind::TcpExchange { host, port, request } })
    }
}

/// Deterministic adapter that supplies one pre-validated task-scoped decision sequence.
///
/// It is intended for conformance tests and does not perform inference.
pub struct ScriptedModelAdapter {
    script: Option<Vec<ModelDecision>>,
}

impl View for ScriptedModelAdapter {
    type V = Option<Seq<ModelDecision>>;

    closed spec fn view(&self) -> Option<Seq<ModelDecision>> {
        match self.script {
            Some(decisions) => Some(decisions@),
            None => None,
        }
    }
}

/// Whether a script may have this many decisions.
pub open spec fn usable_script(decisions: nat) -> bool {
    1 <= decisions <= MAX_MODEL_STEPS
}

impl ScriptedModelAdapter {
    /// Takes a script.
    pub fn new(decisions: Vec<ModelDecision>) -> (r: Result<
        ScriptedModelAdapter,
        ScriptedModelError,
    >)
        ensures
            r is Ok <==> usable_script(decisions@.len()),
            r is Ok ==> (r->Ok_0)@ == Some(decisions@),
            r is Err ==> r->Err_0 == ScriptedModelError::InvalidScript,
    {
        if decisions.len() == 0 || decisions.len() > MAX_MODEL_STEPS as usize {
            return Err(ScriptedModelError::InvalidScript);
        }
        Ok(ScriptedModelAdapter { script: Some(decisions) })
    }
}

/// What is left of a script.
pub struct ScriptedModelSession {
    decisions: Vec<ModelDecision>,
}

impl View for ScriptedModelSession {
    type V = Seq<ModelDecision>;

    closed spec fn view(&self) -> Seq<ModelDecision> {
        self.decisions@
    }
}

impl ModelAdapter for ScriptedModelAdapter {
    type Error = ScriptedModelError;

    type Session = ScriptedModelSession;

    /// The script is handed out once.
    open spec fn starts(
        before: Self,
        request: StartModel,
        after: Self,
        r: Result<ScriptedModelSession, ScriptedModelError>,
    ) -> bool {
        &&& after@ is None
        &&& match before@ {
            Some(decisions) => r is Ok && (r->Ok_0)@ == decisions,
            None => r is Err && r->Err_0 == ScriptedModelError::Unavailable,
        }
    }

    fn start_session(&mut self, request: ModelStartRequest<'_>) -> (r: Result<
        ScriptedModelSession,
        ScriptedModelError,
    >) {
        match self.script.take() {
            Some(decisions) => Ok(ScriptedModelSession { decisions }),
            None => Err(ScriptedModelError::Unavailable),
        }
    }
}

impl ModelSession for ScriptedModelSession {
    type Error = ScriptedModelError;

    /// The decisions come in the order of the script.
    open spec fn decides(
        before: Self,
        step: u16,
        previous: Option<Seq<u8>>,
        after: Self,
        r: Result<ModelDecision, ScriptedModelError>,
    ) -> bool {
        if before@.len() == 0 {
            r is Err && r->Err_0 == ScriptedModelError::Exhausted && after@ == before@
        } else {
            r is Ok && r->Ok_0 == before@[0] && after@ == before@.remove(0)
        }
    }

    fn decide(&mut self, request: ModelTurnRequest<'_>) -> (r: Result<
        ModelDecision,
        ScriptedModelError,
    >) {
        if self.decisions.len() == 0 {
            return Err(ScriptedModelError::Exhausted);
        }
        Ok(self.decisions.remove(0))
    }
}

// ------------------------------------------------------------------- runtime

/// Which gate holds a pending operation.
#[derive(Clone, Copy, Debug, PartialEq, Eq, Structural)]
pub enum PendingAdapter {
    Tool,
    Network,
}

/// The session of the task that is run.
pub struct SessionModel<S> {
    pub task: u128,
    pub model: S,
    pub next_step: u16,
    pub previous: Option<Seq<u8>>,
    /// The approval that the session waits for.
    pub pending: Option<(u128, PendingAdapter)>,
}

struct ActiveSession<S> {
    task_id: TaskId,
    model: S,
    next_step: u16,
    previous_operation_output: Option<Vec<u8>>,
    pending_approval: Option<(ApprovalId, PendingAdapter)>,
}

impl<S> View for ActiveSession<S> {
    type V = SessionModel<S>;

    closed spec fn view(&self) -> SessionModel<S> {
        SessionModel {
            task: self.task_id.value,
            model: self.model,
            next_step: self.next_step,
            previous: match self.previous_operation_output {
                Some(bytes) => Some(bytes@),
                None => None,
            },
            pending: match self.pending_approval {
                Some((id, adapter)) => Some((id.value, adapter)),
                None => None,
            },
        }
    }
}

/// Result of driving a task as far as possible without an external approval decision.
pub enum AgentRunOutcome {
    Completed(AgentOutput),
    WaitingApproval(ApprovalRequest),
    Denied { reason: DenialReason },
}

/// What came of an operation behind a gate.
pub enum OperationOutcome {
    Executed(Vec<u8>),
    Denied(DenialReason),
    Waiting(ApprovalRequest),
    Unsupervised(SupervisorError),
    OverBudget,
    Failed,
}

/// What came of an operation behind a gate.
pub enum OutcomeModel {
    Executed(Seq<u8>),
    Denied(DenialReason),
    Waiting(ApprovalRequest),
    Unsupervised(SupervisorError),
    OverBudget,
    Failed,
}

impl View for OperationOutcome {
    type V = OutcomeModel;

    open spec fn view(&self) -> OutcomeModel {
        match *self {
            OperationOutcome::Executed(bytes) => OutcomeModel::Executed(bytes@),
            OperationOutcome::Denied(reason) => OutcomeModel::Denied(reason),
            OperationOutcome::Waiting(request) => OutcomeModel::Waiting(request),
            OperationOutcome::Unsupervised(error) => OutcomeModel::Unsupervised(error),
            OperationOutcome::OverBudget => OutcomeModel::OverBudget,
            OperationOutcome::Failed => OutcomeModel::Failed,
        }
    }
}

/// What the runtime reads in the answer of the tool gate.
pub open spec fn tool_answer(
    r: Result<ExecutionOutcome<ToolOutput>, ExecutionError<ToolAdapterError>>,
) -> OutcomeModel {
    match r {
        Ok(ExecutionOutcome::Executed(executed)) => OutcomeModel::Executed(executed.output@),
        Ok(ExecutionOutcome::Denied { reason }) => OutcomeModel::Denied(reason),
        Ok(ExecutionOutcome::ApprovalRequired(request)) => OutcomeModel::Waiting(request),
        Err(ExecutionError::Supervisor(error)) => OutcomeModel::Unsupervised(error),
        Err(ExecutionError::Adapter(ToolAdapterError::BudgetExceeded)) => OutcomeModel::OverBudget,
        Err(_) => OutcomeModel::Failed,
    }
}

/// What the runtime reads in the answer of the network gate.
pub open spec fn network_answer(
    r: Result<ExecutionOutcome<TcpExchangeResponse>, ExecutionError<NetworkAdapterError>>,
) -> OutcomeModel {
    match r {
        Ok(ExecutionOutcome::Executed(executed)) => OutcomeModel::Executed(executed.output@),
        Ok(ExecutionOutcome::Denied { reason }) => OutcomeModel::Denied(reason),
        Ok(ExecutionOutcome::ApprovalRequired(request)) => OutcomeModel::Waiting(request),
        Err(ExecutionError::Supervisor(error)) => OutcomeModel::Unsupervised(error),
        Err(ExecutionError::Adapter(NetworkAdapterError::BudgetExceeded)) => {
            OutcomeModel::OverBudget
        },
        Err(_) => OutcomeModel::Failed,
    }
}

/// The answer of an execution that was approved.
pub open spec fn approved_answer<T, E>(r: Result<Executed<T>, ExecutionError<E>>) -> Result<
    ExecutionOutcome<T>,
    ExecutionError<E>,
> {
    match r {
        Ok(executed) => Ok(ExecutionOutcome::Executed(executed)),
        Err(error) => Err(error),
    }
}

fn read_tool_answer(
    r: Result<ExecutionOutcome<ToolOutput>, ExecutionError<ToolAdapterError>>,
) -> (outcome: OperationOutcome)
    ensures
        outcome@ == tool_answer(r),
{
    match r {
        Ok(ExecutionOutcome::Executed(executed)) => OperationOutcome::Executed(
            executed.output.into_bytes(),
        ),
        Ok(ExecutionOutcome::Denied { reason }) => OperationOutcome::Denied(reason),
        Ok(ExecutionOutcome::ApprovalRequired(request)) => OperationOutcome::Waiting(request),
        Err(ExecutionError::Supervisor(error)) => OperationOutcome::Unsupervised(error),
        Err(ExecutionError::Adapter(error)) => {
            if error == ToolAdapterError::BudgetExceeded {
                OperationOutcome::OverBudget
            } else {
                OperationOutcome::Failed
            }
        },
        Err(ExecutionError::OperationNotFound) => OperationOutcome::Failed,
    }
}

fn read_network_answer(
    r: Result<ExecutionOutcome<TcpExchangeResponse>, ExecutionError<NetworkAdapterError>>,
) -> (outcome: OperationOutcome)
    ensures
        outcome@ == network_answer(r),
{
    match r {
        Ok(ExecutionOutcome::Executed(executed)) => OperationOutcome::Executed(
            executed.output.into_bytes(),
        ),
        Ok(ExecutionOutcome::Denied { reason }) => OperationOutcome::Denied(reason),
        Ok(ExecutionOutcome::ApprovalRequired(request)) => OperationOutcome::Waiting(request),
        Err(ExecutionError::Supervisor(error)) => OperationOutcome::Unsupervised(error),
        Err(ExecutionError::Adapter(error)) => {
            if error == NetworkAdapterError::BudgetExceeded {
                OperationOutcome::OverBudget
            } else {
                OperationOutcome::Failed
            }
        },
        Err(ExecutionError::OperationNotFound) => OperationOutcome::Failed,
    }
}

/// Synchronous single-task agent runtime with no raw tool adapter escape hatch.
pub struct AgentRuntime<
    M: ModelAdapter,
    H: ToolHandler = Box<dyn ToolHandler>,
    T: TcpTransport = NoTransport,
> {
    model_adapter: M,
    tool_catalog: ToolCatalog,
    tool_gate: ToolExecutionGate<H>,
    network: Option<NetworkExecutionGate<T>>,
    config: AgentConfig,
    active: Option<ActiveSession<M::Session>>,
}

impl<M: ModelAdapter, H: ToolHandler, T: TcpTransport> AgentRuntime<M, H, T> {
    /// The adapter that starts sessions.
    pub closed spec fn adapter(&self) -> M {
        self.model_adapter
    }

    /// The routes of the catalog.
    pub closed spec fn routes(&self) -> Seq<RouteModel> {
        self.tool_catalog@
    }

    /// The execution gate of the tools.
    pub closed spec fn tools(&self) -> ToolExecutionGate<H> {
        self.tool_gate
    }

    /// The execution gate of the network, where one was configured.
    pub closed spec fn network(&self) -> Option<NetworkExecutionGate<T>> {
        self.network
    }

    /// The limits.
    pub closed spec fn config(&self) -> AgentConfig {
        self.config
    }

    /// The session of the task that is run, if one is.
    pub closed spec fn session(&self) -> Option<SessionModel<M::Session>> {
        match self.active {
            Some(active) => Some(active@),
            None => None,
        }
    }

    /// The catalog and the handlers behind the execution gate are in order, and the step limit
    /// is within its bound.
    pub open spec fn wf(&self) -> bool {
        &&& tool::routes_ordered(self.routes())
        &&& tool::routes_named(self.routes())
        &&& self.tools().gate().adapter().wf()
        &&& self.config().steps() <= MAX_MODEL_STEPS
    }

    /// Whether everything but the session and the gates is what it was.
    pub open spec fn configured_as(&self, other: &AgentRuntime<M, H, T>) -> bool {
        &&& self.adapter() == other.adapter()
        &&& self.routes() == other.routes()
        &&& self.config() == other.config()
    }

    /// Whether both gates are what they were.
    pub open spec fn gates_as(&self, other: &AgentRuntime<M, H, T>) -> bool {
        self.tools() == other.tools() && self.network() == other.network()
    }
}

/// The failure that a failed operation is reported as.
pub open spec fn operation_failure(kind: PendingAdapter) -> AgentError {
    match kind {
        PendingAdapter::Tool => AgentError::ToolFailed,
        PendingAdapter::Network => AgentError::NetworkFailed,
    }
}

/// Whether a task was failed and the run ends with a verdict. A failure that could not be
/// recorded is reported in place of the verdict.
pub open spec fn gave_up(
    m: SupervisorModel,
    n: SupervisorModel,
    task: u128,
    code: Option<ErrorCode>,
    verdict: Result<AgentRunOutcome, AgentError>,
    r: Result<AgentRunOutcome, AgentError>,
) -> bool {
    exists|recorded: Result<(), SupervisorError>| #[trigger]
        supervisor::transition_outcome(
            m,
            n,
            task,
            TaskState::Failed,
            code,
            m.tasks[task].deadline,
            recorded,
        ) && r == match recorded {
            Ok(_) => verdict,
            Err(error) => Err(AgentError::Supervisor(error)),
        }
}

/// Whether a run went on from the outcome of one operation: `a` is the runtime after the
/// execution gate answered. `None` asks for another turn.
pub open spec fn operation_settled<M: ModelAdapter, H: ToolHandler, T: TcpTransport>(
    a: AgentRuntime<M, H, T>,
    m: SupervisorModel,
    b: AgentRuntime<M, H, T>,
    n: SupervisorModel,
    kind: PendingAdapter,
    outcome: OutcomeModel,
    step: Option<Result<AgentRunOutcome, AgentError>>,
) -> bool {
    let session = a.session()->0;
    &&& b.configured_as(&a)
    &&& b.gates_as(&a)
    &&& match outcome {
        OutcomeModel::Executed(bytes) => {
            &&& step is None
            &&& n == m
            &&& b.session() == Some((SessionModel { previous: Some(bytes), ..session }))
        },
        OutcomeModel::Waiting(request) => {
            &&& step == Some(
                Ok::<AgentRunOutcome, AgentError>(AgentRunOutcome::WaitingApproval(request)),
            )
            &&& n == m
            &&& b.session() == Some(
                (SessionModel { pending: Some((request.approval_id.value, kind)), ..session }),
            )
        },
        OutcomeModel::Unsupervised(error) => {
            &&& step == Some(Err::<AgentRunOutcome, AgentError>(AgentError::Supervisor(error)))
            &&& n == m
            &&& b.session() is None
        },
        OutcomeModel::Denied(reason) => {
            &&& b.session() is None
            &&& step is Some
            &&& gave_up(
                m,
                n,
                session.task,
                None,
                Ok((AgentRunOutcome::Denied { reason })),
                step->0,
            )
        },
        OutcomeModel::OverBudget => {
            &&& b.session() is None
            &&& step is Some
            &&& gave_up(
                m,
                n,
                session.task,
                Some(ErrorCode::BudgetExceeded),
                Err(AgentError::BudgetExceeded),
                step->0,
            )
        },
        OutcomeModel::Failed => {
            &&& b.session() is None
            &&& step is Some
            &&& gave_up(m, n, session.task, None, Err(operation_failure(kind)), step->0)
        },
    }
}

/// Whether a run passed a tool operation through the execution gate and went on from the answer.
pub open spec fn tool_called<M: ModelAdapter, H: ToolHandler, T: TcpTransport>(
    a: AgentRuntime<M, H, T>,
    m: SupervisorModel,
    b: AgentRuntime<M, H, T>,
    n: SupervisorModel,
    operation: ToolOperation,
    step: Option<Result<AgentRunOutcome, AgentError>>,
) -> bool {
    let task = a.session()->0.task;
    exists|
        c: AgentRuntime<M, H, T>,
        mid: SupervisorModel,
        r: Result<ExecutionOutcome<ToolOutput>, ExecutionError<ToolAdapterError>>,
    |
        c.configured_as(&a) && c.session() == a.session() && c.network() == a.network()
            && #[trigger] execution::gate_requested(
            a.tools().gate(),
            c.tools().gate(),
            m,
            mid,
            task,
            operation,
            a.config().ttl() as nat,
            r,
        ) && operation_settled(c, mid, b, n, PendingAdapter::Tool, tool_answer(r), step)
}

/// Whether a run passed an exchange through the execution gate, bound to the budget of its
/// task, and went on from the answer.
pub open spec fn exchange_called<M: ModelAdapter, H: ToolHandler, T: TcpTransport>(
    a: AgentRuntime<M, H, T>,
    m: SupervisorModel,
    b: AgentRuntime<M, H, T>,
    n: SupervisorModel,
    operation: ExchangeRequest,
    step: Option<Result<AgentRunOutcome, AgentError>>,
) -> bool {
    let task = a.session()->0.task;
    exists|
        c: AgentRuntime<M, H, T>,
        mid: SupervisorModel,
        bound: TcpExchangeOperation,
        r: Result<ExecutionOutcome<TcpExchangeResponse>, ExecutionError<NetworkAdapterError>>,
    |
        c.configured_as(&a) && c.session() == a.session() && c.tools() == a.tools()
            && c.network() is Some && bound@ == network::bound_to(operation, m.tasks[task].deadline)
            && #[trigger] execution::gate_requested(
            a.network()->0.gate(),
            c.network()->0.gate(),
            m,
            mid,
            task,
            bound,
            a.config().ttl() as nat,
            r,
        ) && operation_settled(c, mid, b, n, PendingAdapter::Network, network_answer(r), step)
}

/// Whether a run carried out a decision: `a` is the runtime with the step counted.
pub open spec fn decision_taken<M: ModelAdapter, H: ToolHandler, T: TcpTransport>(
    a: AgentRuntime<M, H, T>,
    m: SupervisorModel,
    b: AgentRuntime<M, H, T>,
    n: SupervisorModel,
    decision: DecisionModel,
    step: Option<Result<AgentRunOutcome, AgentError>>,
) -> bool {
    let task = a.session()->0.task;
    match decision {
        DecisionModel::Finish(output) => {
            &&& b.configured_as(&a)
            &&& b.gates_as(&a)
            &&& b.session() is None
            &&& exists|recorded: Result<(), SupervisorError>| #[trigger]
                supervisor::transition_outcome(
                    m,
                    n,
                    task,
                    TaskState::Succeeded,
                    None,
                    m.tasks[task].deadline,
                    recorded,
                ) && step == Some(
                    match recorded {
                        Ok(_) => Ok::<AgentRunOutcome, AgentError>(
                            AgentRunOutcome::Completed(output),
                        ),
                        Err(error) => Err(AgentError::Supervisor(error)),
                    },
                )
        },
        DecisionModel::CallTool { route, arguments } => match tool::prepared(
            a.routes(),
            route,
            arguments,
        ) {
            Err(_) => abandoned(a, m, b, n, None, AgentError::InvalidDecision, step),
            Ok(model) => exists|operation: ToolOperation|
                operation@ == model && #[trigger] tool_called(a, m, b, n, operation, step),
        },
        DecisionModel::TcpExchange { host, port, request } => if a.network() is None
            || network::exchange_target(host, port, request.len()) is Err {
            abandoned(a, m, b, n, None, AgentError::InvalidDecision, step)
        } else {
            exchange_called(
                a,
                m,
                b,
                n,
                (ExchangeRequest { host, port, request, deadline: None }),
                step,
            )
        },
    }
}

/// Whether a run was given up without another operation.
pub open spec fn abandoned<M: ModelAdapter, H: ToolHandler, T: TcpTransport>(
    a: AgentRuntime<M, H, T>,
    m: SupervisorModel,
    b: AgentRuntime<M, H, T>,
    n: SupervisorModel,
    code: Option<ErrorCode>,
    error: AgentError,
    step: Option<Result<AgentRunOutcome, AgentError>>,
) -> bool {
    &&& b.configured_as(&a)
    &&& b.gates_as(&a)
    &&& b.session() is None
    &&& step is Some
    &&& gave_up(m, n, a.session()->0.task, code, Err(error), step->0)
}

/// Whether one turn of a run leads from `a` and `m` to `b` and `n`, where the clock read
/// `early` before the model decided and `late` after it. The model is asked only within the
/// budget of its task and the step limit, and sees the number of the step and the output of
/// the operation before it.
pub open spec fn turn_at<M: ModelAdapter, H: ToolHandler, T: TcpTransport>(
    a: AgentRuntime<M, H, T>,
    m: SupervisorModel,
    b: AgentRuntime<M, H, T>,
    n: SupervisorModel,
    early: u128,
    late: u128,
    step: Option<Result<AgentRunOutcome, AgentError>>,
) -> bool {
    match a.session() {
        None => {
            &&& step == Some(Err::<AgentRunOutcome, AgentError>(AgentError::InvalidState))
            &&& b == a
            &&& n == m
        },
        Some(session) => match supervisor::unbindable(m, session.task) {
            Some(error) => {
                &&& step == Some(Err::<AgentRunOutcome, AgentError>(AgentError::Supervisor(error)))
                &&& b == a
                &&& n == m
            },
            None => if early >= m.tasks[session.task].deadline->0 {
                abandoned(
                    a,
                    m,
                    b,
                    n,
                    Some(ErrorCode::BudgetExceeded),
                    AgentError::BudgetExceeded,
                    step,
                )
            } else if session.next_step > a.config().steps() {
                abandoned(a, m, b, n, None, AgentError::StepLimitExceeded, step)
            } else {
                decided(a, m, b, n, late, step)
            },
        },
    }
}

/// Whether a run went on from the reply of its model, where the clock read `late` after the
/// reply: `c` is the runtime with the step counted. A decision that came after the budget of its
/// task was used up is not taken.
pub open spec fn reply_taken<M: ModelAdapter, H: ToolHandler, T: TcpTransport>(
    c: AgentRuntime<M, H, T>,
    m: SupervisorModel,
    b: AgentRuntime<M, H, T>,
    n: SupervisorModel,
    late: u128,
    reply: Result<ModelDecision, <<M as ModelAdapter>::Session as ModelSession>::Error>,
    step: Option<Result<AgentRunOutcome, AgentError>>,
) -> bool {
    match reply {
        Err(_) => abandoned(c, m, b, n, None, AgentError::ModelFailed, step),
        Ok(decision) => if late >= m.tasks[c.session()->0.task].deadline->0 {
            abandoned(
                c,
                m,
                b,
                n,
                Some(ErrorCode::BudgetExceeded),
                AgentError::BudgetExceeded,
                step,
            )
        } else {
            decision_taken(c, m, b, n, decision@, step)
        },
    }
}

/// Whether the model was asked once and the run went on from its reply.
pub open spec fn decided<M: ModelAdapter, H: ToolHandler, T: TcpTransport>(
    a: AgentRuntime<M, H, T>,
    m: SupervisorModel,
    b: AgentRuntime<M, H, T>,
    n: SupervisorModel,
    late: u128,
    step: Option<Result<AgentRunOutcome, AgentError>>,
) -> bool {
    let session = a.session()->0;
    exists|c: AgentRuntime<M, H, T>, reply: Result<
        ModelDecision,
        <<M as ModelAdapter>::Session as ModelSession>::Error,
    >|
        c.configured_as(&a) && c.gates_as(&a) && c.session() is Some
            && #[trigger] <<M as ModelAdapter>::Session as ModelSession>::decides(
            session.model,
            session.next_step,
            session.previous,
            c.session()->0.model,
            reply,
        ) && c.session()->0 == (SessionModel {
            model: c.session()->0.model,
            next_step: (session.next_step + 1) as u16,
            ..session
        }) && reply_taken(c, m, b, n, late, reply, step)
}

/// Whether a failure comes from the event store.
pub open spec fn store_failed<X>(r: Result<X, AgentError>) -> bool {
    r matches Err(AgentError::Supervisor(SupervisorError::EventStore(_)))
}

/// Whether a turn ended in a failure of the event store.
pub open spec fn step_failed(step: Option<Result<AgentRunOutcome, AgentError>>) -> bool {
    step is Some && store_failed(step->0)
}

/// Whether one step of a run takes at most the room that its task has: with room for the end of
/// the task and one event more, the event store does not fail it, and where it asks for another
/// step, all of that room but one event is left.
pub open spec fn keeps_room<S: EventStore>(
    old: TaskSupervisor<S>,
    new: TaskSupervisor<S>,
    task: u128,
    step: Option<Result<AgentRunOutcome, AgentError>>,
) -> bool {
    &&& event::carries(old.store(), new.store())
    &&& forall|count: nat| #[trigger]
        old.has_room(task, count) && count > room::ending(old@, task) ==> {
            &&& !step_failed(step)
            &&& step is None ==> new.has_room(task, (count - 1) as nat) && room::ending(new@, task)
                == room::ending(old@, task)
        }
}

/// The events of its task that a run takes at most.
pub open spec fn run_room<M: ModelAdapter, H: ToolHandler, T: TcpTransport>(
    a: AgentRuntime<M, H, T>,
    m: SupervisorModel,
) -> nat {
    room::ending(m, a.session()->0.task) + steps_left(a) as nat
}

/// The events of its task that a session takes at most.
pub open spec fn session_room<M: ModelAdapter, H: ToolHandler, T: TcpTransport>(
    a: AgentRuntime<M, H, T>,
    m: SupervisorModel,
    task: u128,
) -> nat {
    room::ending(m, task) + a.config().steps() as nat + 1
}

/// The task of the operation that an approval is for, behind the execution gate that the
/// session waits for.
pub open spec fn held_task<M: ModelAdapter, H: ToolHandler, T: TcpTransport>(
    a: AgentRuntime<M, H, T>,
    approval: u128,
) -> u128 {
    match waits_for(a, approval) {
        Some(PendingAdapter::Network) => execution::held_task(
            a.network()->0.gate()@,
            approval,
        ),
        _ => execution::held_task(a.tools().gate()@, approval),
    }
}

/// Whether one turn of a run leads from `a` and `m` to `b` and `n`, for some times.
#[verifier::opaque]
pub open spec fn turn<M: ModelAdapter, H: ToolHandler, T: TcpTransport>(
    a: AgentRuntime<M, H, T>,
    m: SupervisorModel,
    b: AgentRuntime<M, H, T>,
    n: SupervisorModel,
    step: Option<Result<AgentRunOutcome, AgentError>>,
) -> bool {
    exists|early: u128, late: u128| #[trigger] turn_at(a, m, b, n, early, late, step)
}

/// Whether `count` turns that each asked for another lead from `a` and `m` to `b` and `n`.
pub open spec fn turned<M: ModelAdapter, H: ToolHandler, T: TcpTransport>(
    count: nat,
    a: AgentRuntime<M, H, T>,
    m: SupervisorModel,
    b: AgentRuntime<M, H, T>,
    n: SupervisorModel,
) -> bool
    decreases count,
{
    if count == 0 {
        b == a && n == m
    } else {
        exists|c: AgentRuntime<M, H, T>, k: SupervisorModel|
            turned((count - 1) as nat, a, m, c, k) && #[trigger] turn(c, k, b, n, None)
    }
}

/// Whether a run leads from `a` and `m` to `b` and `n` and returns `r`.
pub open spec fn driven<M: ModelAdapter, H: ToolHandler, T: TcpTransport>(
    a: AgentRuntime<M, H, T>,
    m: SupervisorModel,
    b: AgentRuntime<M, H, T>,
    n: SupervisorModel,
    r: Result<AgentRunOutcome, AgentError>,
) -> bool {
    exists|count: nat, c: AgentRuntime<M, H, T>, k: SupervisorModel| #[trigger]
        turned(count, a, m, c, k) && turn(c, k, b, n, Some(r))
}

impl<M: ModelAdapter, H: ToolHandler> AgentRuntime<M, H> {
    /// A runtime that runs no task.
    #[must_use]
    pub fn new(
        model_adapter: M,
        tool_catalog: ToolCatalog,
        tool_gate: ToolExecutionGate<H>,
        config: AgentConfig,
    ) -> (r: AgentRuntime<M, H>)
        requires
            tool_gate.gate().adapter().wf(),
        ensures
            r.wf(),
            r.adapter() == model_adapter,
            r.routes() == tool_catalog@,
            r.tools() == tool_gate,
            r.network() is None,
            r.config() == config,
            r.session() is None,
    {
        proof {
            use_type_invariant(&tool_catalog);
            use_type_invariant(&config);
        }
        AgentRuntime { model_adapter, tool_catalog, tool_gate, network: None, config, active: None }
    }
}

impl<M: ModelAdapter, H: ToolHandler, T: TcpTransport> AgentRuntime<M, H, T> {
    /// Enables bounded direct TCP proposals through the network capability gate.
    #[must_use]
    pub fn with_network_gate<N: TcpTransport>(self, gate: NetworkExecutionGate<N>) -> (r:
        AgentRuntime<M, H, N>)
        ensures
            r.adapter() == self.adapter(),
            r.routes() == self.routes(),
            r.config() == self.config(),
            r.tools() == self.tools(),
            r.network() == Some(gate),
            r.session() == self.session(),
            self.wf() ==> r.wf(),
    {
        AgentRuntime {
            model_adapter: self.model_adapter,
            tool_catalog: self.tool_catalog,
            tool_gate: self.tool_gate,
            network: Some(gate),
            config: self.config,
            active: self.active,
        }
    }

    /// The task that is run.
    #[must_use]
    pub fn active_task(&self) -> (r: Option<TaskId>)
        ensures
            r == match self.session() {
                Some(session) => Some((TaskId { value: session.task })),
                None => None,
            },
    {
        match &self.active {
            Some(active) => Some(active.task_id),
            None => None,
        }
    }

    fn give_up<S: EventStore>(
        &mut self,
        supervisor: &mut TaskSupervisor<S>,
        task_id: TaskId,
        budget: bool,
        verdict: Result<AgentRunOutcome, AgentError>,
    ) -> (r: Result<AgentRunOutcome, AgentError>)
        requires
            old(supervisor)@.coherent(),
            old(self).wf(),
        ensures
            final(supervisor)@.coherent(),
            final(self).wf(),
            final(self).configured_as(old(self)),
            final(self).gates_as(old(self)),
            final(self).session() is None,
            gave_up(
                old(supervisor)@,
                final(supervisor)@,
                task_id.value,
                (if budget {
                    Some(ErrorCode::BudgetExceeded)
                } else {
                    None
                }),
                verdict,
                r,
            ),
            event::carries(old(supervisor).store(), final(supervisor).store()),
            store_failed(r) && !store_failed(verdict) ==> !old(supervisor).admits(
                task_id.value,
                old(supervisor)@.transition_kinds(
                    task_id.value,
                    TaskState::Failed,
                    (if budget {
                        Some(ErrorCode::BudgetExceeded)
                    } else {
                        None
                    }),
                ).len(),
            ),
    {
        self.active = None;
        let recorded = if budget {
            supervisor.fail_budget_exceeded(task_id)
        } else {
            supervisor.fail(task_id)
        };
        match recorded {
            Ok(()) => verdict,
            Err(error) => Err(AgentError::Supervisor(error)),
        }
    }

    fn settle<S: EventStore>(
        &mut self,
        supervisor: &mut TaskSupervisor<S>,
        kind: PendingAdapter,
        outcome: OperationOutcome,
    ) -> (r: Option<Result<AgentRunOutcome, AgentError>>)
        requires
            old(supervisor)@.coherent(),
            old(self).wf(),
            old(self).session() is Some,
        ensures
            final(supervisor)@.coherent(),
            final(self).wf(),
            operation_settled(
                *old(self),
                old(supervisor)@,
                *final(self),
                final(supervisor)@,
                kind,
                outcome@,
                r,
            ),
            event::carries(old(supervisor).store(), final(supervisor).store()),
            step_failed(r) ==> (outcome@ matches OutcomeModel::Unsupervised(error)
                && error is EventStore) || !old(supervisor).has_room(
                old(self).session()->0.task,
                room::ending(old(supervisor)@, old(self).session()->0.task),
            ),
            r is None ==> *final(supervisor) == *old(supervisor),
    {
        let mut active = match self.active.take() {
            Some(active) => active,
            None => {
                return Some(Err(AgentError::InvalidState));
            },
        };
        let task_id = active.task_id;
        match outcome {
            OperationOutcome::Executed(bytes) => {
                active.previous_operation_output = Some(bytes);
                self.active = Some(active);
                None
            },
            OperationOutcome::Waiting(request) => {
                active.pending_approval = Some((request.approval_id, kind));
                self.active = Some(active);
                Some(Ok(AgentRunOutcome::WaitingApproval(request)))
            },
            OperationOutcome::Unsupervised(error) => Some(Err(AgentError::Supervisor(error))),
            OperationOutcome::Denied(reason) => Some(
                self.give_up(
                    supervisor,
                    task_id,
                    false,
                    Ok(AgentRunOutcome::Denied { reason }),
                ),
            ),
            OperationOutcome::OverBudget => Some(
                self.give_up(supervisor, task_id, true, Err(AgentError::BudgetExceeded)),
            ),
            OperationOutcome::Failed => {
                let error = match kind {
                    PendingAdapter::Tool => AgentError::ToolFailed,
                    PendingAdapter::Network => AgentError::NetworkFailed,
                };
                Some(self.give_up(supervisor, task_id, false, Err(error)))
            },
        }
    }

    fn call_tool<S: EventStore>(
        &mut self,
        supervisor: &mut TaskSupervisor<S>,
        task_id: TaskId,
        operation: ToolOperation,
    ) -> (r: Option<Result<AgentRunOutcome, AgentError>>)
        requires
            old(supervisor)@.coherent(),
            old(self).wf(),
            old(self).session() is Some,
            old(self).session()->0.task == task_id.value,
        ensures
            final(supervisor)@.coherent(),
            final(self).wf(),
            tool_called(
                *old(self),
                old(supervisor)@,
                *final(self),
                final(supervisor)@,
                operation,
                r,
            ),
            keeps_room(*old(supervisor), *final(supervisor), task_id.value, r),
    {
        let answer = self.tool_gate.request(
            supervisor,
            task_id,
            operation,
            self.config.approval_ttl,
        );
        let ghost c = *self;
        let ghost mid = *supervisor;
        let ghost told = answer;
        let outcome = read_tool_answer(answer);
        let r = self.settle(supervisor, PendingAdapter::Tool, outcome);
        proof {
            assert(execution::gate_requested(
                old(self).tools().gate(),
                c.tools().gate(),
                old(supervisor)@,
                mid@,
                task_id.value,
                operation,
                old(self).config().ttl() as nat,
                told,
            ));
            let decision = choose|d: Result<OperationAuthorization, SupervisorError>| #[trigger]
                supervisor::requested_operation(
                    old(supervisor)@,
                    mid@,
                    task_id.value,
                    operation.asks(),
                    old(self).config().ttl() as nat,
                    d,
                ) && execution::gate_request(
                    old(self).tools().gate(),
                    c.tools().gate(),
                    task_id.value,
                    operation,
                    d,
                    told,
                );
            lemma_request_keeps_room(
                *old(supervisor),
                mid,
                *supervisor,
                task_id.value,
                operation.asks(),
                old(self).config().ttl() as nat,
                decision,
                outcome@,
                r,
            );
        }
        r
    }

    fn call_network<S: EventStore>(
        &mut self,
        supervisor: &mut TaskSupervisor<S>,
        task_id: TaskId,
        operation: TcpExchangeOperation,
    ) -> (r: Option<Result<AgentRunOutcome, AgentError>>)
        requires
            old(supervisor)@.coherent(),
            old(self).wf(),
            old(self).network() is Some,
            old(self).session() is Some,
            old(self).session()->0.task == task_id.value,
            supervisor::unbindable(old(supervisor)@, task_id.value) is None,
        ensures
            final(supervisor)@.coherent(),
            final(self).wf(),
            exchange_called(
                *old(self),
                old(supervisor)@,
                *final(self),
                final(supervisor)@,
                operation@,
                r,
            ),
            keeps_room(*old(supervisor), *final(supervisor), task_id.value, r),
    {
        let ghost asked = operation@;
        let mut gate = match self.network.take() {
            Some(gate) => gate,
            None => {
                return Some(Err(AgentError::InvalidState));
            },
        };
        let answer = gate.request(supervisor, task_id, operation, self.config.approval_ttl);
        self.network = Some(gate);
        let ghost c = *self;
        let ghost mid = *supervisor;
        let ghost told = answer;
        let outcome = read_network_answer(answer);
        let r = self.settle(supervisor, PendingAdapter::Network, outcome);
        proof {
            let bound = choose|b: TcpExchangeOperation|
                b@ == network::bound_to(asked, old(supervisor)@.tasks[task_id.value].deadline)
                    && b.asks() == operation.asks() && #[trigger] execution::gate_requested(
                    old(self).network()->0.gate(),
                    c.network()->0.gate(),
                    old(supervisor)@,
                    mid@,
                    task_id.value,
                    b,
                    old(self).config().ttl() as nat,
                    told,
                );
            assert(execution::gate_requested(
                old(self).network()->0.gate(),
                c.network()->0.gate(),
                old(supervisor)@,
                mid@,
                task_id.value,
                bound,
                old(self).config().ttl() as nat,
                told,
            ));
            let decision = choose|d: Result<OperationAuthorization, SupervisorError>| #[trigger]
                supervisor::requested_operation(
                    old(supervisor)@,
                    mid@,
                    task_id.value,
                    bound.asks(),
                    old(self).config().ttl() as nat,
                    d,
                ) && execution::gate_request(
                    old(self).network()->0.gate(),
                    c.network()->0.gate(),
                    task_id.value,
                    bound,
                    d,
                    told,
                );
            lemma_request_keeps_room(
                *old(supervisor),
                mid,
                *supervisor,
                task_id.value,
                operation.asks(),
                old(self).config().ttl() as nat,
                decision,
                outcome@,
                r,
            );
        }
        r
    }

    fn take_decision<S: EventStore>(
        &mut self,
        supervisor: &mut TaskSupervisor<S>,
        task_id: TaskId,
        decision: ModelDecision,
    ) -> (r: Option<Result<AgentRunOutcome, AgentError>>)
        requires
            old(supervisor)@.coherent(),
            old(self).wf(),
            old(self).session() is Some,
            old(self).session()->0.task == task_id.value,
            supervisor::unbindable(old(supervisor)@, task_id.value) is None,
        ensures
            final(supervisor)@.coherent(),
            final(self).wf(),
            decision_taken(
                *old(self),
                old(supervisor)@,
                *final(self),
                final(supervisor)@,
                decision@,
                r,
            ),
            keeps_room(*old(supervisor), *final(supervisor), task_id.value, r),
            decision@ is Finish && step_failed(r) ==> !old(supervisor).admits(
                task_id.value,
                old(supervisor)@.transition_kinds(task_id.value, TaskState::Succeeded, None).len(),
            ),
    {
        match decision.kind {
            ModelDecisionKind::Finish(output) => {
                self.active = None;
                match supervisor.succeed(task_id) {
                    Ok(()) => Some(Ok(AgentRunOutcome::Completed(output))),
                    Err(error) => Some(Err(AgentError::Supervisor(error))),
                }
            },
            ModelDecisionKind::CallTool { route, arguments } => {
                match self.tool_catalog.prepare(route.as_str(), arguments) {
                    Ok(operation) => self.call_tool(supervisor, task_id, operation),
                    Err(_) => Some(
                        self.give_up(supervisor, task_id, false, Err(AgentError::InvalidDecision)),
                    ),
                }
            },
            ModelDecisionKind::TcpExchange { host, port, request } => {
                if self.network.is_none() {
                    return Some(
                        self.give_up(supervisor, task_id, false, Err(AgentError::InvalidDecision)),
                    );
                }
                match NetworkCatalog::new().prepare_tcp_exchange(host, port, request) {
                    Ok(operation) => self.call_network(supervisor, task_id, operation),
                    Err(_) => Some(
                        self.give_up(supervisor, task_id, false, Err(AgentError::InvalidDecision)),
                    ),
                }
            },
        }
    }

    /// Goes on from the reply of the model, where the clock read `late` after the reply.
    pub(crate) fn take_reply<S: EventStore>(
        &mut self,
        supervisor: &mut TaskSupervisor<S>,
        context: TaskExecutionContext,
        late: u128,
        reply: Result<ModelDecision, <<M as ModelAdapter>::Session as ModelSession>::Error>,
    ) -> (r: Option<Result<AgentRunOutcome, AgentError>>)
        requires
            old(supervisor)@.coherent(),
            old(self).wf(),
            old(self).session() is Some,
            supervisor::unbindable(old(supervisor)@, old(self).session()->0.task) is None,
            old(supervisor)@.tasks[old(self).session()->0.task].deadline == Some(
                context.deadline(),
            ),
        ensures
            final(supervisor)@.coherent(),
            final(self).wf(),
            reply_taken(
                *old(self),
                old(supervisor)@,
                *final(self),
                final(supervisor)@,
                late,
                reply,
                r,
            ),
            keeps_room(*old(supervisor), *final(supervisor), old(self).session()->0.task, r),
    {
        let task_id = match &self.active {
            Some(active) => active.task_id,
            None => {
                return Some(Err(AgentError::InvalidState));
            },
        };
        match reply {
            Err(_) => Some(
                self.give_up(supervisor, task_id, false, Err(AgentError::ModelFailed)),
            ),
            Ok(decision) => {
                if late >= context.deadline_nanos() {
                    Some(self.give_up(supervisor, task_id, true, Err(AgentError::BudgetExceeded)))
                } else {
                    self.take_decision(supervisor, task_id, decision)
                }
            },
        }
    }

    fn ask_model<S: EventStore>(
        &mut self,
        supervisor: &mut TaskSupervisor<S>,
        context: TaskExecutionContext,
    ) -> (r: Option<Result<AgentRunOutcome, AgentError>>)
        requires
            old(supervisor)@.coherent(),
            old(self).wf(),
            old(self).session() is Some,
            old(self).session()->0.next_step <= old(self).config().steps(),
            supervisor::unbindable(old(supervisor)@, old(self).session()->0.task) is None,
            old(supervisor)@.tasks[old(self).session()->0.task].deadline == Some(
                context.deadline(),
            ),
        ensures
            final(supervisor)@.coherent(),
            final(self).wf(),
            exists|late: u128| #[trigger]
                decided(*old(self), old(supervisor)@, *final(self), final(supervisor)@, late, r),
            keeps_room(*old(supervisor), *final(supervisor), old(self).session()->0.task, r),
    {
        let mut active = match self.active.take() {
            Some(active) => active,
            None => {
                return Some(Err(AgentError::InvalidState));
            },
        };
        proof {
            use_type_invariant(&self.config);
        }
        let reply = active.model.decide(
            ModelTurnRequest {
                step: active.next_step,
                previous_operation_output: match &active.previous_operation_output {
                    Some(bytes) => Some(bytes.as_slice()),
                    None => None,
                },
            },
        );
        let late: u128 = context.now();
        active.next_step = active.next_step + 1;
        self.active = Some(active);
        let ghost c = *self;
        let ghost said = reply;
        let step = self.take_reply(supervisor, context, late, reply);
        assert(<<M as ModelAdapter>::Session as ModelSession>::decides(
            old(self).session()->0.model,
            old(self).session()->0.next_step,
            old(self).session()->0.previous,
            c.session()->0.model,
            said,
        ));
        assert(decided(*old(self), old(supervisor)@, *self, supervisor@, late, step));
        step
    }

    /// Takes one turn, where the clock read `early` before it.
    pub(crate) fn turn_at<S: EventStore>(
        &mut self,
        supervisor: &mut TaskSupervisor<S>,
        early: u128,
    ) -> (r: Option<Result<AgentRunOutcome, AgentError>>)
        requires
            old(supervisor)@.coherent(),
            old(self).wf(),
        ensures
            final(supervisor)@.coherent(),
            final(self).wf(),
            exists|late: u128| #[trigger]
                turn_at(
                    *old(self),
                    old(supervisor)@,
                    *final(self),
                    final(supervisor)@,
                    early,
                    late,
                    r,
                ),
            event::carries(old(supervisor).store(), final(supervisor).store()),
            old(self).session() is Some ==> keeps_room(
                *old(supervisor),
                *final(supervisor),
                old(self).session()->0.task,
                r,
            ),
    {
        let (task_id, next_step) = match &self.active {
            Some(active) => (active.task_id, active.next_step),
            None => {
                let r: Option<Result<AgentRunOutcome, AgentError>> = Some(
                    Err(AgentError::InvalidState),
                );
                assert(turn_at(*old(self), old(supervisor)@, *self, supervisor@, early, 0, r));
                return r;
            },
        };
        let context = match supervisor.execution_context(task_id) {
            Ok(context) => context,
            Err(error) => {
                let r: Option<Result<AgentRunOutcome, AgentError>> = Some(
                    Err(AgentError::Supervisor(error)),
                );
                assert(turn_at(*old(self), old(supervisor)@, *self, supervisor@, early, 0, r));
                return r;
            },
        };
        if early >= context.deadline_nanos() {
            let r = Some(self.give_up(supervisor, task_id, true, Err(AgentError::BudgetExceeded)));
            assert(turn_at(*old(self), old(supervisor)@, *self, supervisor@, early, 0, r));
            return r;
        }
        if next_step > self.config.max_steps {
            let r = Some(
                self.give_up(supervisor, task_id, false, Err(AgentError::StepLimitExceeded)),
            );
            assert(turn_at(*old(self), old(supervisor)@, *self, supervisor@, early, 0, r));
            return r;
        }
        let r = self.ask_model(supervisor, context);
        proof {
            let late = choose|late: u128| #[trigger]
                decided(*old(self), old(supervisor)@, *self, supervisor@, late, r);
            assert(turn_at(*old(self), old(supervisor)@, *self, supervisor@, early, late, r));
        }
        r
    }

    fn turn<S: EventStore>(&mut self, supervisor: &mut TaskSupervisor<S>) -> (r: Option<
        Result<AgentRunOutcome, AgentError>,
    >)
        requires
            old(supervisor)@.coherent(),
            old(self).wf(),
        ensures
            final(supervisor)@.coherent(),
            final(self).wf(),
            turn(*old(self), old(supervisor)@, *final(self), final(supervisor)@, r),
            event::carries(old(supervisor).store(), final(supervisor).store()),
            old(self).session() is Some ==> keeps_room(
                *old(supervisor),
                *final(supervisor),
                old(self).session()->0.task,
                r,
            ),
    {
        proof {
            reveal(turn);
        }
        let early: u128 = supervisor.now();
        self.turn_at(supervisor, early)
    }

    /// Takes turns until one ends the run or has it wait.
    pub(crate) fn drive<S: EventStore>(&mut self, supervisor: &mut TaskSupervisor<S>) -> (r: Result<
        AgentRunOutcome,
        AgentError,
    >)
        requires
            old(supervisor)@.coherent(),
            old(self).wf(),
        ensures
            final(supervisor)@.coherent(),
            final(self).wf(),
            driven(*old(self), old(supervisor)@, *final(self), final(supervisor)@, r),
            event::carries(old(supervisor).store(), final(supervisor).store()),
            old(self).session() is Some && old(supervisor).has_room(
                old(self).session()->0.task,
                run_room(*old(self), old(supervisor)@),
            ) ==> !store_failed(r),
    {
        let ghost mut count: nat = 0;
        let ghost roomy = self.session() is Some && supervisor.has_room(
            self.session()->0.task,
            run_room(*self, supervisor@),
        );
        loop
            invariant
                supervisor@.coherent(),
                self.wf(),
                turned(count, *old(self), old(supervisor)@, *self, supervisor@),
                event::carries(old(supervisor).store(), supervisor.store()),
                roomy == (old(self).session() is Some && old(supervisor).has_room(
                    old(self).session()->0.task,
                    run_room(*old(self), old(supervisor)@),
                )),
                roomy ==> self.session() is Some && supervisor.has_room(
                    self.session()->0.task,
                    run_room(*self, supervisor@),
                ),
            decreases steps_left(*self),
        {
            let ghost before = *self;
            let ghost known = *supervisor;
            let step = self.turn(supervisor);
            proof {
                event::lemma_carries_on(
                    old(supervisor).store(),
                    known.store(),
                    supervisor.store(),
                );
            }
            match step {
                None => {
                    proof {
                        use_type_invariant(&self.config);
                        lemma_turn_counts(before, known@, *self, supervisor@);
                        lemma_turned_once_more(
                            count,
                            *old(self),
                            old(supervisor)@,
                            before,
                            known@,
                            *self,
                            supervisor@,
                        );
                        count = count + 1;
                        if roomy {
                            assert(run_room(*self, supervisor@) + 1 == run_room(before, known@));
                        }
                    }
                },
                Some(r) => {
                    return r;
                },
            }
        }
    }
}

/// One step that passed the execution gate takes at most the room that its task has.
proof fn lemma_request_keeps_room<S: EventStore>(
    old: TaskSupervisor<S>,
    mid: TaskSupervisor<S>,
    new: TaskSupervisor<S>,
    task: u128,
    request: RequestModel,
    ttl: nat,
    answer: Result<OperationAuthorization, SupervisorError>,
    outcome: OutcomeModel,
    step: Option<Result<AgentRunOutcome, AgentError>>,
)
    requires
        old@.coherent(),
        supervisor::requested_operation(old@, mid@, task, request, ttl, answer),
        event::carries(old.store(), mid.store()),
        event::carries(mid.store(), new.store()),
        old.admits_every_sweep() && old.admits(task, 1) && old.admits(task, 2) ==> !(
        outcome matches OutcomeModel::Unsupervised(error) && error is EventStore),
        step_failed(step) ==> (outcome matches OutcomeModel::Unsupervised(error)
            && error is EventStore) || !mid.has_room(task, room::ending(mid@, task)),
        step is None ==> new == mid,
        step is None ==> answer is Ok && !(answer->Ok_0 is ApprovalRequired),
        step_failed(step) ==> match outcome {
            OutcomeModel::Unsupervised(error) => error is EventStore,
            _ => answer is Ok && !(answer->Ok_0 is ApprovalRequired),
        },
    ensures
        keeps_room(old, new, task, step),
{
    event::lemma_carries_on(old.store(), mid.store(), new.store());
    room::lemma_request_spends(old@, mid@, task, request, ttl, answer);
    assert forall|count: nat| #[trigger]
        old.has_room(task, count) && count > room::ending(old@, task) implies !step_failed(step)
        && (step is None ==> new.has_room(task, (count - 1) as nat) && room::ending(new@, task)
        == room::ending(old@, task)) by {
        assert(old.admits(task, 1) && old.admits(task, 2));
        if answer is Ok && !(answer->Ok_0 is ApprovalRequired) {
            room::lemma_room_left(old, mid, task, count, 1);
            assert(mid.has_room(task, room::ending(mid@, task))) by {
                assert forall|k: nat| k <= room::ending(mid@, task) implies #[trigger] mid.admits(
                    task,
                    k,
                ) by {
                    assert(k <= count - 1);
                }
            }
        }
    }
}

/// How many more turns a run may take.
pub open spec fn steps_left<M: ModelAdapter, H: ToolHandler, T: TcpTransport>(
    a: AgentRuntime<M, H, T>,
) -> int {
    match a.session() {
        None => 0,
        Some(session) => if session.next_step > a.config().steps() {
            1
        } else {
            a.config().steps() - session.next_step + 2
        },
    }
}

/// A turn that asks for another has counted a step of the same task.
proof fn lemma_turn_counts<M: ModelAdapter, H: ToolHandler, T: TcpTransport>(
    a: AgentRuntime<M, H, T>,
    m: SupervisorModel,
    b: AgentRuntime<M, H, T>,
    n: SupervisorModel,
)
    requires
        turn(a, m, b, n, None),
    ensures
        b.configured_as(&a),
        a.session() is Some,
        b.session() is Some,
        b.session()->0.task == a.session()->0.task,
        b.session()->0.pending == a.session()->0.pending,
        a.session()->0.next_step <= a.config().steps(),
        b.session()->0.next_step == (a.session()->0.next_step + 1) as u16,
        b.session()->0.previous is Some,
{
    reveal(turn);
}

proof fn lemma_turned_once_more<M: ModelAdapter, H: ToolHandler, T: TcpTransport>(
    count: nat,
    a: AgentRuntime<M, H, T>,
    m: SupervisorModel,
    c: AgentRuntime<M, H, T>,
    k: SupervisorModel,
    b: AgentRuntime<M, H, T>,
    n: SupervisorModel,
)
    requires
        turned(count, a, m, c, k),
        turn(c, k, b, n, None),
    ensures
        turned(count + 1, a, m, b, n),
{
    let next: nat = count + 1;
    assert((next - 1) as nat == count);
    assert(turned((next - 1) as nat, a, m, c, k));
}

// ------------------------------------------------------------------- control

/// Whether a destination can be reached by an exchange.
pub open spec fn reachable(destination: DestinationModel) -> bool {
    network::exchange_target(destination.host, destination.port, 0) is Ok
}

/// The destinations that a session is shown.
pub open spec fn shown_destinations(
    configured: bool,
    destinations: Seq<DestinationModel>,
) -> Seq<DestinationModel> {
    if configured {
        destinations.filter(|d: DestinationModel| reachable(d))
    } else {
        Seq::<DestinationModel>::empty()
    }
}

/// Whether a run of a task was started. The session is shown the goal, the routes whose tool
/// the task was granted, and the destinations that can be reached.
pub open spec fn run_started<M: ModelAdapter, H: ToolHandler, T: TcpTransport>(
    a: AgentRuntime<M, H, T>,
    m: SupervisorModel,
    b: AgentRuntime<M, H, T>,
    n: SupervisorModel,
    task: u128,
    r: Result<AgentRunOutcome, AgentError>,
) -> bool {
    if a.session() is Some {
        r == Err::<AgentRunOutcome, AgentError>(AgentError::CapacityExceeded) && b == a && n == m
    } else {
        exists|now: u128, mid: SupervisorModel, moved: Result<(), SupervisorError>| #[trigger]
            supervisor::transition_outcome(
                m,
                mid,
                task,
                TaskState::Running,
                None,
                #[trigger] supervisor::deadline_after_start(m, task, now),
                moved,
            ) && match moved {
                Err(error) => {
                    &&& r == Err::<AgentRunOutcome, AgentError>(AgentError::Supervisor(error))
                    &&& b == a
                    &&& n == mid
                },
                Ok(_) => session_started(a, mid, b, n, task, m.tasks[task].spec->0, r),
            }
    }
}

/// A session before its first step.
pub open spec fn opened_session<X>(task: u128, model: X) -> SessionModel<X> {
    SessionModel { task, model, next_step: 1, previous: None, pending: None }
}

/// Whether the session of a started task was created and driven.
pub open spec fn session_started<M: ModelAdapter, H: ToolHandler, T: TcpTransport>(
    a: AgentRuntime<M, H, T>,
    m: SupervisorModel,
    b: AgentRuntime<M, H, T>,
    n: SupervisorModel,
    task: u128,
    spec: TaskModel,
    r: Result<AgentRunOutcome, AgentError>,
) -> bool {
    exists|c: AgentRuntime<M, H, T>, reply: Result<
        <M as ModelAdapter>::Session,
        <M as ModelAdapter>::Error,
    >|
        c.routes() == a.routes() && c.config() == a.config() && c.gates_as(&a)
            && #[trigger] <M as ModelAdapter>::starts(
            a.adapter(),
            (StartModel {
                goal: spec.goal,
                routes: tool::granted_routes(a.routes(), spec.tools),
                destinations: shown_destinations(
                    a.network() is Some,
                    supervisor::allowed_destinations(spec),
                ),
            }),
            c.adapter(),
            reply,
        ) && match reply {
            Err(_) => {
                &&& b == c
                &&& b.session() is None
                &&& gave_up(m, n, task, None, Err(AgentError::ModelFailed), r)
            },
            Ok(model) => {
                &&& c.session() == Some(opened_session(task, model))
                &&& driven(c, m, b, n, r)
            },
        }
}

/// The operation that an approval is for, if the session waits for that approval.
pub open spec fn waits_for<M: ModelAdapter, H: ToolHandler, T: TcpTransport>(
    a: AgentRuntime<M, H, T>,
    approval: u128,
) -> Option<PendingAdapter> {
    match a.session() {
        None => None,
        Some(session) => match session.pending {
            None => None,
            Some((id, kind)) => if id == approval {
                Some(kind)
            } else {
                None
            },
        },
    }
}

/// Whether a run went on from the outcome of its approved operation: `a` is the runtime after
/// the execution gate answered.
pub open spec fn resumed<M: ModelAdapter, H: ToolHandler, T: TcpTransport>(
    a: AgentRuntime<M, H, T>,
    m: SupervisorModel,
    b: AgentRuntime<M, H, T>,
    n: SupervisorModel,
    kind: PendingAdapter,
    outcome: OutcomeModel,
    r: Result<AgentRunOutcome, AgentError>,
) -> bool {
    let session = a.session()->0;
    match outcome {
        OutcomeModel::Executed(bytes) => exists|c: AgentRuntime<M, H, T>|
            c.configured_as(&a) && c.gates_as(&a) && c.session() == Some(
                (SessionModel { previous: Some(bytes), pending: None, ..session }),
            ) && #[trigger] driven(c, m, b, n, r),
        OutcomeModel::Unsupervised(error) => {
            &&& r == Err::<AgentRunOutcome, AgentError>(AgentError::Supervisor(error))
            &&& b == a
            &&& n == m
        },
        OutcomeModel::OverBudget => abandoned(
            a,
            m,
            b,
            n,
            Some(ErrorCode::BudgetExceeded),
            AgentError::BudgetExceeded,
            Some(r),
        ),
        OutcomeModel::Failed => abandoned(a, m, b, n, None, operation_failure(kind), Some(r)),
        _ => false,
    }
}

/// Whether an approval was given to the waiting session.
pub open spec fn approval_resumed<M: ModelAdapter, H: ToolHandler, T: TcpTransport>(
    a: AgentRuntime<M, H, T>,
    m: SupervisorModel,
    b: AgentRuntime<M, H, T>,
    n: SupervisorModel,
    approval: u128,
    r: Result<AgentRunOutcome, AgentError>,
) -> bool {
    match waits_for(a, approval) {
        None => {
            r == Err::<AgentRunOutcome, AgentError>(AgentError::InvalidState) && b == a && n == m
        },
        Some(PendingAdapter::Tool) => exists|
            c: AgentRuntime<M, H, T>,
            k: SupervisorModel,
            x: Result<Executed<ToolOutput>, ExecutionError<ToolAdapterError>>,
        |
            c.configured_as(&a) && c.session() == a.session() && c.network() == a.network()
                && #[trigger] execution::gate_approved(
                a.tools().gate(),
                c.tools().gate(),
                m,
                k,
                approval,
                x,
            ) && resumed(
                c,
                k,
                b,
                n,
                PendingAdapter::Tool,
                tool_answer(approved_answer(x)),
                r,
            ),
        Some(PendingAdapter::Network) => if a.network() is None {
            r == Err::<AgentRunOutcome, AgentError>(AgentError::InvalidState) && b == a && n == m
        } else {
            exists|
                c: AgentRuntime<M, H, T>,
                k: SupervisorModel,
                x: Result<Executed<TcpExchangeResponse>, ExecutionError<NetworkAdapterError>>,
            |
                c.configured_as(&a) && c.session() == a.session() && c.tools() == a.tools()
                    && c.network() is Some && #[trigger] execution::gate_approved(
                    a.network()->0.gate(),
                    c.network()->0.gate(),
                    m,
                    k,
                    approval,
                    x,
                ) && resumed(
                    c,
                    k,
                    b,
                    n,
                    PendingAdapter::Network,
                    network_answer(approved_answer(x)),
                    r,
                )
        },
    }
}

/// The failure that a failed call of a gate is reported as.
pub open spec fn gate_failure(kind: PendingAdapter, outcome: OutcomeModel) -> AgentError {
    match outcome {
        OutcomeModel::Unsupervised(error) => AgentError::Supervisor(error),
        OutcomeModel::OverBudget => AgentError::BudgetExceeded,
        _ => operation_failure(kind),
    }
}

/// The answer of the tool gate to something other than an operation.
pub open spec fn tool_verdict<T>(r: Result<T, ExecutionError<ToolAdapterError>>) -> Result<
    T,
    AgentError,
> {
    match r {
        Ok(value) => Ok(value),
        Err(error) => Err(gate_failure(PendingAdapter::Tool, tool_answer(Err(error)))),
    }
}

/// The answer of the network gate to something other than an operation.
pub open spec fn network_verdict<T>(r: Result<T, ExecutionError<NetworkAdapterError>>) -> Result<
    T,
    AgentError,
> {
    match r {
        Ok(value) => Ok(value),
        Err(error) => Err(gate_failure(PendingAdapter::Network, network_answer(Err(error)))),
    }
}

fn map_tool_error(error: ExecutionError<ToolAdapterError>) -> (r: AgentError)
    ensures
        r == gate_failure(PendingAdapter::Tool, tool_answer(Err(error))),
{
    match error {
        ExecutionError::Supervisor(error) => AgentError::Supervisor(error),
        ExecutionError::Adapter(error) => {
            if error == ToolAdapterError::BudgetExceeded {
                AgentError::BudgetExceeded
            } else {
                AgentError::ToolFailed
            }
        },
        ExecutionError::OperationNotFound => AgentError::ToolFailed,
    }
}

fn map_network_error(error: ExecutionError<NetworkAdapterError>) -> (r: AgentError)
    ensures
        r == gate_failure(PendingAdapter::Network, network_answer(Err(error))),
{
    match error {
        ExecutionError::Supervisor(error) => AgentError::Supervisor(error),
        ExecutionError::Adapter(error) => {
            if error == NetworkAdapterError::BudgetExceeded {
                AgentError::BudgetExceeded
            } else {
                AgentError::NetworkFailed
            }
        },
        ExecutionError::OperationNotFound => AgentError::NetworkFailed,
    }
}

/// Whether the execution gate of an adapter denied an approval. The session is left alone.
pub open spec fn gate_denied<M: ModelAdapter, H: ToolHandler, T: TcpTransport>(
    a: AgentRuntime<M, H, T>,
    m: SupervisorModel,
    b: AgentRuntime<M, H, T>,
    n: SupervisorModel,
    kind: PendingAdapter,
    approval: u128,
    r: Result<TaskSnapshot, AgentError>,
) -> bool {
    &&& b.configured_as(&a)
    &&& match kind {
        PendingAdapter::Tool => b.network() == a.network() && exists|
            x: Result<TaskSnapshot, ExecutionError<ToolAdapterError>>,
        |
            #[trigger] execution::gate_denied(
                a.tools().gate(),
                b.tools().gate(),
                m,
                n,
                approval,
                x,
            ) && r == tool_verdict(x),
        PendingAdapter::Network => b.tools() == a.tools() && if a.network() is None {
            r == Err::<TaskSnapshot, AgentError>(AgentError::InvalidState) && b.network() is None
                && n == m
        } else {
            b.network() is Some && exists|
                x: Result<TaskSnapshot, ExecutionError<NetworkAdapterError>>,
            |
                #[trigger] execution::gate_denied(
                    a.network()->0.gate(),
                    b.network()->0.gate(),
                    m,
                    n,
                    approval,
                    x,
                ) && r == network_verdict(x)
        },
    }
}

/// Whether the execution gate of an adapter expired approvals. The session is left alone.
pub open spec fn gate_expired<M: ModelAdapter, H: ToolHandler, T: TcpTransport>(
    a: AgentRuntime<M, H, T>,
    m: SupervisorModel,
    b: AgentRuntime<M, H, T>,
    n: SupervisorModel,
    kind: PendingAdapter,
    r: Result<usize, AgentError>,
) -> bool {
    &&& b.configured_as(&a)
    &&& match kind {
        PendingAdapter::Tool => b.network() == a.network() && exists|
            x: Result<usize, ExecutionError<ToolAdapterError>>,
        |
            #[trigger] execution::gate_expired(
                a.tools().gate(),
                b.tools().gate(),
                m,
                n,
                x,
            ) && r == tool_verdict(x),
        PendingAdapter::Network => b.tools() == a.tools() && if a.network() is None {
            r == Err::<usize, AgentError>(AgentError::InvalidState) && b.network() is None && n
                == m
        } else {
            b.network() is Some && exists|
                x: Result<usize, ExecutionError<NetworkAdapterError>>,
            |
                #[trigger] execution::gate_expired(
                    a.network()->0.gate(),
                    b.network()->0.gate(),
                    m,
                    n,
                    x,
                ) && r == network_verdict(x)
        },
    }
}

/// Whether the execution gate of an adapter cancelled a task. The session is left alone.
pub open spec fn gate_cancelled<M: ModelAdapter, H: ToolHandler, T: TcpTransport>(
    a: AgentRuntime<M, H, T>,
    m: SupervisorModel,
    b: AgentRuntime<M, H, T>,
    n: SupervisorModel,
    kind: PendingAdapter,
    task: u128,
    r: Result<bool, AgentError>,
) -> bool {
    &&& b.configured_as(&a)
    &&& match kind {
        PendingAdapter::Tool => b.network() == a.network() && exists|
            x: Result<bool, ExecutionError<ToolAdapterError>>,
        |
            #[trigger] execution::gate_cancelled(
                a.tools().gate(),
                b.tools().gate(),
                m,
                n,
                task,
                x,
            ) && r == tool_verdict(x),
        PendingAdapter::Network => b.tools() == a.tools() && if a.network() is None {
            r == Err::<bool, AgentError>(AgentError::InvalidState) && b.network() is None && n == m
        } else {
            b.network() is Some && exists|
                x: Result<bool, ExecutionError<NetworkAdapterError>>,
            |
                #[trigger] execution::gate_cancelled(
                    a.network()->0.gate(),
                    b.network()->0.gate(),
                    m,
                    n,
                    task,
                    x,
                ) && r == network_verdict(x)
        },
    }
}

/// The adapter whose gate is asked: that of the pending operation, or that of the tools.
pub open spec fn gate_asked<M: ModelAdapter, H: ToolHandler, T: TcpTransport>(
    a: AgentRuntime<M, H, T>,
) -> PendingAdapter {
    match a.session() {
        None => PendingAdapter::Tool,
        Some(session) => match session.pending {
            None => PendingAdapter::Tool,
            Some((_, kind)) => kind,
        },
    }
}

fn show_destinations(list: &Vec<NetworkDestination>) -> (r: Vec<NetworkDestination>)
    ensures
        task::destination_models(r@) == shown_destinations(true, task::destination_models(list@)),
{
    let ghost models = task::destination_models(list@);
    let ghost keep = |d: DestinationModel| reachable(d);
    let mut out: Vec<NetworkDestination> = Vec::new();
    let mut i: usize = 0;
    proof {
        reveal(Seq::filter);
        assert(models.take(0).filter(keep) =~= Seq::<DestinationModel>::empty());
        assert(task::destination_models(out@) =~= models.take(0).filter(keep));
    }
    while i < list.len()
        invariant
            i <= list@.len(),
            models == task::destination_models(list@),
            keep == |d: DestinationModel| reachable(d),
            task::destination_models(out@) == models.take(i as int).filter(keep),
        decreases list@.len() - i,
    {
        let none: Vec<u8> = Vec::new();
        let ghost before = task::destination_models(out@);
        let ghost next = models.take(i + 1);
        proof {
            reveal(Seq::filter);
            assert(models[i as int] == list@[i as int]@);
            assert(next.drop_last() =~= models.take(i as int));
            assert(next.last() == models[i as int]);
        }
        match NetworkCatalog::new().prepare_tcp_exchange(list[i].host.clone(), list[i].port, none) {
            Ok(_) => {
                out.push(list[i].clone());
                assert(task::destination_models(out@) =~= before.push(models[i as int]));
            },
            Err(_) => {},
        }
        i = i + 1;
    }
    assert(models.take(i as int) =~= models);
    out
}

impl<M: ModelAdapter, H: ToolHandler, T: TcpTransport> AgentRuntime<M, H, T> {
    /// Starts one queued task and drives it until completion, denial, or approval wait.
    pub fn start<S: EventStore>(
        &mut self,
        supervisor: &mut TaskSupervisor<S>,
        task_id: TaskId,
    ) -> (r: Result<AgentRunOutcome, AgentError>)
        requires
            old(supervisor)@.coherent(),
            old(self).wf(),
        ensures
            final(supervisor)@.coherent(),
            final(self).wf(),
            run_started(
                *old(self),
                old(supervisor)@,
                *final(self),
                final(supervisor)@,
                task_id.value,
                r,
            ),
            event::carries(old(supervisor).store(), final(supervisor).store()),
            old(supervisor).has_room(
                task_id.value,
                session_room(*old(self), old(supervisor)@, task_id.value) + 1,
            ) ==> !store_failed(r),
    {
        if self.active.is_some() {
            return Err(AgentError::CapacityExceeded);
        }
        let ghost m = supervisor@;
        match supervisor.start_execution(task_id) {
            Ok(input) => {
                let ghost mid = *supervisor;
                let r = self.open_session(supervisor, task_id, &input);
                proof {
                    assert(session_started(
                        *old(self),
                        mid@,
                        *self,
                        supervisor@,
                        task_id.value,
                        m.tasks[task_id.value].spec->0,
                        r,
                    ));
                    event::lemma_carries_on(
                        old(supervisor).store(),
                        mid.store(),
                        supervisor.store(),
                    );
                    let count = session_room(*old(self), m, task_id.value) + 1;
                    if old(supervisor).has_room(task_id.value, count) {
                        room::lemma_start_spends(m, mid@, task_id.value);
                        room::lemma_room_left(*old(supervisor), mid, task_id.value, count, 1);
                    }
                }
                r
            },
            Err(error) => Err(AgentError::Supervisor(error)),
        }
    }

    /// Asks the model for a session of a started task, and drives it.
    pub(crate) fn open_session<S: EventStore>(
        &mut self,
        supervisor: &mut TaskSupervisor<S>,
        task_id: TaskId,
        input: &TaskExecutionInput,
    ) -> (r: Result<AgentRunOutcome, AgentError>)
        requires
            old(supervisor)@.coherent(),
            old(self).wf(),
            old(self).session() is None,
            input.of(old(supervisor)@.tasks[task_id.value].spec->0),
        ensures
            final(supervisor)@.coherent(),
            final(self).wf(),
            session_started(
                *old(self),
                old(supervisor)@,
                *final(self),
                final(supervisor)@,
                task_id.value,
                old(supervisor)@.tasks[task_id.value].spec->0,
                r,
            ),
            event::carries(old(supervisor).store(), final(supervisor).store()),
            old(supervisor).has_room(
                task_id.value,
                session_room(*old(self), old(supervisor)@, task_id.value),
            ) ==> !store_failed(r),
    {
        let routes = self.tool_catalog.route_names_for_tools(input.capability_tools());
        let destinations = match &self.network {
            Some(_) => show_destinations(input.network_destinations()),
            None => {
                let none: Vec<NetworkDestination> = Vec::new();
                assert(task::destination_models(none@) =~= Seq::<DestinationModel>::empty());
                none
            },
        };
        let request = ModelStartRequest {
            goal: input.goal(),
            tool_routes: &routes,
            network_destinations: &destinations,
        };
        let ghost asked = request@;
        let reply = self.model_adapter.start_session(request);
        let ghost said = reply;
        let ghost c = *self;
        let r = self.take_session(supervisor, task_id, reply);
        proof {
            if said is Ok {
                let d = choose|d: AgentRuntime<M, H, T>|
                    d.configured_as(&c) && d.gates_as(&c) && d.session() == Some(
                        opened_session(task_id.value, said->Ok_0),
                    ) && #[trigger] driven(d, old(supervisor)@, *self, supervisor@, r);
                assert(<M as ModelAdapter>::starts(old(self).adapter(), asked, d.adapter(), said));
            } else {
                assert(<M as ModelAdapter>::starts(old(self).adapter(), asked, c.adapter(), said));
            }
        }
        r
    }

    /// Drives the session that a model answered with; where it answered with none, the task
    /// fails.
    pub(crate) fn take_session<S: EventStore>(
        &mut self,
        supervisor: &mut TaskSupervisor<S>,
        task_id: TaskId,
        reply: Result<<M as ModelAdapter>::Session, <M as ModelAdapter>::Error>,
    ) -> (r: Result<AgentRunOutcome, AgentError>)
        requires
            old(supervisor)@.coherent(),
            old(self).wf(),
        ensures
            final(supervisor)@.coherent(),
            final(self).wf(),
            match reply {
                Err(_) => *final(self) == *old(self) && gave_up(
                    old(supervisor)@,
                    final(supervisor)@,
                    task_id.value,
                    None,
                    Err(AgentError::ModelFailed),
                    r,
                ),
                Ok(model) => exists|c: AgentRuntime<M, H, T>|
                    c.configured_as(old(self)) && c.gates_as(old(self)) && c.session() == Some(
                        opened_session(task_id.value, model),
                    ) && #[trigger] driven(
                        c,
                        old(supervisor)@,
                        *final(self),
                        final(supervisor)@,
                        r,
                    ),
            },
            event::carries(old(supervisor).store(), final(supervisor).store()),
            old(supervisor).has_room(
                task_id.value,
                session_room(*old(self), old(supervisor)@, task_id.value),
            ) ==> !store_failed(r),
    {
        match reply {
            Ok(model) => {
                self.active = Some(
                    ActiveSession {
                        task_id,
                        model,
                        next_step: 1,
                        previous_operation_output: None,
                        pending_approval: None,
                    },
                );
                let ghost c = *self;
                let r = self.drive(supervisor);
                assert(driven(c, old(supervisor)@, *self, supervisor@, r));
                r
            },
            Err(_) => match supervisor.fail(task_id) {
                Ok(()) => Err(AgentError::ModelFailed),
                Err(error) => Err(AgentError::Supervisor(error)),
            },
        }
    }

    fn require_pending(&self, approval_id: ApprovalId) -> (r: Option<(TaskId, PendingAdapter)>)
        ensures
            waits_for(*self, approval_id.value) == (match r {
                Some((_, kind)) => Some(kind),
                None => None,
            }),
            r is Some ==> self.session() is Some && match r {
                Some((task_id, _)) => self.session()->0.task == task_id.value,
                None => true,
            },
    {
        match &self.active {
            Some(active) => match active.pending_approval {
                Some((id, kind)) => {
                    if id == approval_id {
                        Some((active.task_id, kind))
                    } else {
                        None
                    }
                },
                None => None,
            },
            None => None,
        }
    }

    /// Goes on from the outcome of the approved operation.
    pub(crate) fn resume<S: EventStore>(
        &mut self,
        supervisor: &mut TaskSupervisor<S>,
        kind: PendingAdapter,
        outcome: OperationOutcome,
    ) -> (r: Result<AgentRunOutcome, AgentError>)
        requires
            old(supervisor)@.coherent(),
            old(self).wf(),
            old(self).session() is Some,
            !(outcome is Denied) && !(outcome is Waiting),
        ensures
            final(supervisor)@.coherent(),
            final(self).wf(),
            resumed(
                *old(self),
                old(supervisor)@,
                *final(self),
                final(supervisor)@,
                kind,
                outcome@,
                r,
            ),
            event::carries(old(supervisor).store(), final(supervisor).store()),
            old(supervisor).has_room(
                old(self).session()->0.task,
                run_room(*old(self), old(supervisor)@),
            ) && !(outcome@ matches OutcomeModel::Unsupervised(error) && error is EventStore)
                ==> !store_failed(r),
    {
        match outcome {
            OperationOutcome::Executed(bytes) => {
                let mut active = match self.active.take() {
                    Some(active) => active,
                    None => {
                        return Err(AgentError::InvalidState);
                    },
                };
                active.pending_approval = None;
                active.previous_operation_output = Some(bytes);
                self.active = Some(active);
                let ghost c = *self;
                let r = self.drive(supervisor);
                assert(driven(c, old(supervisor)@, *self, supervisor@, r));
                r
            },
            OperationOutcome::Unsupervised(error) => Err(AgentError::Supervisor(error)),
            OperationOutcome::OverBudget => {
                let task_id = match &self.active {
                    Some(active) => active.task_id,
                    None => {
                        return Err(AgentError::InvalidState);
                    },
                };
                self.give_up(supervisor, task_id, true, Err(AgentError::BudgetExceeded))
            },
            _ => {
                let task_id = match &self.active {
                    Some(active) => active.task_id,
                    None => {
                        return Err(AgentError::InvalidState);
                    },
                };
                let error = match kind {
                    PendingAdapter::Tool => AgentError::ToolFailed,
                    PendingAdapter::Network => AgentError::NetworkFailed,
                };
                self.give_up(supervisor, task_id, false, Err(error))
            },
        }
    }

    /// Consumes one exact approval and resumes the retained model session.
    pub fn approve_and_resume<S: EventStore>(
        &mut self,
        supervisor: &mut TaskSupervisor<S>,
        approval_id: ApprovalId,
    ) -> (r: Result<AgentRunOutcome, AgentError>)
        requires
            old(supervisor)@.coherent(),
            old(self).wf(),
        ensures
            final(supervisor)@.coherent(),
            final(self).wf(),
            approval_resumed(
                *old(self),
                old(supervisor)@,
                *final(self),
                final(supervisor)@,
                approval_id.value,
                r,
            ),
            event::carries(old(supervisor).store(), final(supervisor).store()),
            old(supervisor).has_room(
                old(self).session()->0.task,
                run_room(*old(self), old(supervisor)@) + 4,
            ) && old(supervisor).has_room(held_task(*old(self), approval_id.value), 5)
                ==> !store_failed(r),
    {
        let kind = match self.require_pending(approval_id) {
            Some((_, kind)) => kind,
            None => {
                return Err(AgentError::InvalidState);
            },
        };
        match kind {
            PendingAdapter::Tool => {
                let answer = self.tool_gate.approve_and_execute(supervisor, approval_id);
                let ghost c = *self;
                let ghost k = *supervisor;
                let ghost x = answer;
                let outcome = read_tool_answer(
                    match answer {
                        Ok(executed) => Ok(ExecutionOutcome::Executed(executed)),
                        Err(error) => Err(error),
                    },
                );
                let r = self.resume(supervisor, PendingAdapter::Tool, outcome);
                proof {
                    assert(execution::gate_approved(
                        old(self).tools().gate(),
                        c.tools().gate(),
                        old(supervisor)@,
                        k@,
                        approval_id.value,
                        x,
                    ));
                    event::lemma_carries_on(old(supervisor).store(), k.store(), supervisor.store());
                    let task = old(self).session()->0.task;
                    let count = run_room(*old(self), old(supervisor)@) + 4;
                    let held = held_task(*old(self), approval_id.value);
                    assert(old(supervisor).has_room(held, 5) ==> old(supervisor).has_room(held, 3));
                    if old(supervisor).has_room(task, count) && old(supervisor).has_room(held, 5)
                        && !(x matches Err(ExecutionError::Supervisor(_))) {
                        execution::lemma_approval_leaves_room(
                            old(self).tools().gate(),
                            c.tools().gate(),
                            *old(supervisor),
                            k,
                            approval_id.value,
                            x,
                            task,
                            count,
                        );
                    }
                }
                r
            },
            PendingAdapter::Network => {
                let mut gate = match self.network.take() {
                    Some(gate) => gate,
                    None => {
                        return Err(AgentError::InvalidState);
                    },
                };
                let answer = gate.approve_and_execute(supervisor, approval_id);
                self.network = Some(gate);
                let ghost c = *self;
                let ghost k = *supervisor;
                let ghost x = answer;
                let outcome = read_network_answer(
                    match answer {
                        Ok(executed) => Ok(ExecutionOutcome::Executed(executed)),
                        Err(error) => Err(error),
                    },
                );
                let r = self.resume(supervisor, PendingAdapter::Network, outcome);
                proof {
                    assert(execution::gate_approved(
                        old(self).network()->0.gate(),
                        c.network()->0.gate(),
                        old(supervisor)@,
                        k@,
                        approval_id.value,
                        x,
                    ));
                    event::lemma_carries_on(old(supervisor).store(), k.store(), supervisor.store());
                    let task = old(self).session()->0.task;
                    let count = run_room(*old(self), old(supervisor)@) + 4;
                    let held = held_task(*old(self), approval_id.value);
                    assert(old(supervisor).has_room(held, 5) ==> old(supervisor).has_room(held, 3));
                    if old(supervisor).has_room(task, count) && old(supervisor).has_room(held, 5)
                        && !(x matches Err(ExecutionError::Supervisor(_))) {
                        execution::lemma_approval_leaves_room(
                            old(self).network()->0.gate(),
                            c.network()->0.gate(),
                            *old(supervisor),
                            k,
                            approval_id.value,
                            x,
                            task,
                            count,
                        );
                    }
                }
                r
            },
        }
    }

    fn deny_through<S: EventStore>(
        &mut self,
        supervisor: &mut TaskSupervisor<S>,
        kind: PendingAdapter,
        approval_id: ApprovalId,
    ) -> (r: Result<TaskSnapshot, AgentError>)
        requires
            old(supervisor)@.coherent(),
            old(self).wf(),
        ensures
            final(supervisor)@.coherent(),
            final(self).wf(),
            final(self).session() == old(self).session(),
            gate_denied(
                *old(self),
                old(supervisor)@,
                *final(self),
                final(supervisor)@,
                kind,
                approval_id.value,
                r,
            ),
            event::carries(old(supervisor).store(), final(supervisor).store()),
            old(supervisor).admits_every_sweep() ==> !store_failed(r),
    {
        match kind {
            PendingAdapter::Tool => {
                let answer = self.tool_gate.deny(supervisor, approval_id);
                assert(execution::gate_denied(
                    old(self).tools().gate(),
                    self.tools().gate(),
                    old(supervisor)@,
                    supervisor@,
                    approval_id.value,
                    answer,
                ));
                match answer {
                    Ok(value) => Ok(value),
                    Err(error) => Err(map_tool_error(error)),
                }
            },
            PendingAdapter::Network => {
                let mut gate = match self.network.take() {
                    Some(gate) => gate,
                    None => {
                        return Err(AgentError::InvalidState);
                    },
                };
                let answer = gate.deny(supervisor, approval_id);
                self.network = Some(gate);
                assert(execution::gate_denied(
                    old(self).network()->0.gate(),
                    self.network()->0.gate(),
                    old(supervisor)@,
                    supervisor@,
                    approval_id.value,
                    answer,
                ));
                match answer {
                    Ok(value) => Ok(value),
                    Err(error) => Err(map_network_error(error)),
                }
            },
        }
    }

    fn expire_through<S: EventStore>(
        &mut self,
        supervisor: &mut TaskSupervisor<S>,
        kind: PendingAdapter,
    ) -> (r: Result<usize, AgentError>)
        requires
            old(supervisor)@.coherent(),
            old(self).wf(),
        ensures
            final(supervisor)@.coherent(),
            final(self).wf(),
            final(self).session() == old(self).session(),
            gate_expired(
                *old(self),
                old(supervisor)@,
                *final(self),
                final(supervisor)@,
                kind,
                r,
            ),
            event::carries(old(supervisor).store(), final(supervisor).store()),
            old(supervisor).admits_every_sweep() ==> !store_failed(r),
    {
        match kind {
            PendingAdapter::Tool => {
                let answer = self.tool_gate.expire(supervisor);
                assert(execution::gate_expired(
                    old(self).tools().gate(),
                    self.tools().gate(),
                    old(supervisor)@,
                    supervisor@,
                    answer,
                ));
                match answer {
                    Ok(value) => Ok(value),
                    Err(error) => Err(map_tool_error(error)),
                }
            },
            PendingAdapter::Network => {
                let mut gate = match self.network.take() {
                    Some(gate) => gate,
                    None => {
                        return Err(AgentError::InvalidState);
                    },
                };
                let answer = gate.expire(supervisor);
                self.network = Some(gate);
                assert(execution::gate_expired(
                    old(self).network()->0.gate(),
                    self.network()->0.gate(),
                    old(supervisor)@,
                    supervisor@,
                    answer,
                ));
                match answer {
                    Ok(value) => Ok(value),
                    Err(error) => Err(map_network_error(error)),
                }
            },
        }
    }

    fn cancel_through<S: EventStore>(
        &mut self,
        supervisor: &mut TaskSupervisor<S>,
        kind: PendingAdapter,
        task_id: TaskId,
    ) -> (r: Result<bool, AgentError>)
        requires
            old(supervisor)@.coherent(),
            old(self).wf(),
        ensures
            final(supervisor)@.coherent(),
            final(self).wf(),
            final(self).session() == old(self).session(),
            gate_cancelled(
                *old(self),
                old(supervisor)@,
                *final(self),
                final(supervisor)@,
                kind,
                task_id.value,
                r,
            ),
            event::carries(old(supervisor).store(), final(supervisor).store()),
            store_failed(r) ==> !old(supervisor).admits(
                task_id.value,
                old(supervisor)@.transition_kinds(
                    task_id.value,
                    TaskState::Cancelled,
                    None,
                ).len(),
            ),
    {
        match kind {
            PendingAdapter::Tool => {
                let answer = self.tool_gate.cancel(supervisor, task_id);
                assert(execution::gate_cancelled(
                    old(self).tools().gate(),
                    self.tools().gate(),
                    old(supervisor)@,
                    supervisor@,
                    task_id.value,
                    answer,
                ));
                match answer {
                    Ok(value) => Ok(value),
                    Err(error) => Err(map_tool_error(error)),
                }
            },
            PendingAdapter::Network => {
                let mut gate = match self.network.take() {
                    Some(gate) => gate,
                    None => {
                        return Err(AgentError::InvalidState);
                    },
                };
                let answer = gate.cancel(supervisor, task_id);
                self.network = Some(gate);
                assert(execution::gate_cancelled(
                    old(self).network()->0.gate(),
                    self.network()->0.gate(),
                    old(supervisor)@,
                    supervisor@,
                    task_id.value,
                    answer,
                ));
                match answer {
                    Ok(value) => Ok(value),
                    Err(error) => Err(map_network_error(error)),
                }
            },
        }
    }

    fn pending_adapter(&self) -> (r: PendingAdapter)
        ensures
            r == gate_asked(*self),
    {
        match &self.active {
            Some(active) => match active.pending_approval {
                Some((_, kind)) => kind,
                None => PendingAdapter::Tool,
            },
            None => PendingAdapter::Tool,
        }
    }

    /// Denies one exact pending operation and drops the associated model session.
    pub fn deny<S: EventStore>(
        &mut self,
        supervisor: &mut TaskSupervisor<S>,
        approval_id: ApprovalId,
    ) -> (r: Result<(), AgentError>)
        requires
            old(supervisor)@.coherent(),
            old(self).wf(),
        ensures
            final(supervisor)@.coherent(),
            final(self).wf(),
            approval_denied(
                *old(self),
                old(supervisor)@,
                *final(self),
                final(supervisor)@,
                approval_id.value,
                r,
            ),
            event::carries(old(supervisor).store(), final(supervisor).store()),
            old(supervisor).admits_every_sweep() ==> !store_failed(r),
    {
        let kind = match self.require_pending(approval_id) {
            Some((_, kind)) => kind,
            None => {
                return Err(AgentError::InvalidState);
            },
        };
        let answer = self.deny_through(supervisor, kind, approval_id);
        let ghost c = *self;
        assert(gate_denied(
            *old(self),
            old(supervisor)@,
            c,
            supervisor@,
            kind,
            approval_id.value,
            answer,
        ));
        match answer {
            Ok(_) => {
                self.active = None;
                Ok(())
            },
            Err(error) => Err(error),
        }
    }

    /// Expires pending approvals and drops a model session whose task became terminal.
    pub fn expire<S: EventStore>(&mut self, supervisor: &mut TaskSupervisor<S>) -> (r: Result<
        usize,
        AgentError,
    >)
        requires
            old(supervisor)@.coherent(),
            old(self).wf(),
        ensures
            final(supervisor)@.coherent(),
            final(self).wf(),
            approvals_expired(
                *old(self),
                old(supervisor)@,
                *final(self),
                final(supervisor)@,
                r,
            ),
            event::carries(old(supervisor).store(), final(supervisor).store()),
            old(supervisor).admits_every_sweep() && (old(self).session() is Some ==> old(
                supervisor,
            ).admits(
                old(self).session()->0.task,
                old(supervisor)@.transition_kinds(
                    old(self).session()->0.task,
                    TaskState::Failed,
                    Some(ErrorCode::BudgetExceeded),
                ).len(),
            )) ==> !store_failed(r),
    {
        let kind = self.pending_adapter();
        let task_id = match &self.active {
            Some(active) => active.task_id,
            None => {
                return self.expire_through(supervisor, kind);
            },
        };
        let exceeded = supervisor.wall_time_exceeded(task_id);
        self.take_overrun(supervisor, exceeded)
    }

    /// Expires approvals while a session is run, once it is known whether the budget of its task
    /// is used up.
    pub(crate) fn take_overrun<S: EventStore>(
        &mut self,
        supervisor: &mut TaskSupervisor<S>,
        exceeded: Result<bool, SupervisorError>,
    ) -> (r: Result<usize, AgentError>)
        requires
            old(supervisor)@.coherent(),
            old(self).wf(),
            old(self).session() is Some,
        ensures
            final(supervisor)@.coherent(),
            final(self).wf(),
            session_expired(
                *old(self),
                old(supervisor)@,
                *final(self),
                final(supervisor)@,
                exceeded,
                r,
            ),
            event::carries(old(supervisor).store(), final(supervisor).store()),
            old(supervisor).admits_every_sweep() && old(supervisor).admits(
                old(self).session()->0.task,
                old(supervisor)@.transition_kinds(
                    old(self).session()->0.task,
                    TaskState::Failed,
                    Some(ErrorCode::BudgetExceeded),
                ).len(),
            ) && !(exceeded matches Err(SupervisorError::EventStore(_))) ==> !store_failed(r),
    {
        let kind = self.pending_adapter();
        let task_id = match &self.active {
            Some(active) => active.task_id,
            None => {
                return Err(AgentError::InvalidState);
            },
        };
        let exceeded = match exceeded {
            Ok(exceeded) => exceeded,
            Err(error) => {
                return Err(AgentError::Supervisor(error));
            },
        };
        if exceeded {
            self.active = None;
            let ghost c = *self;
            assert(without_session(*old(self), c));
            if let Err(error) = supervisor.fail_budget_exceeded(task_id) {
                assert(budget_expired(
                    *old(self),
                    old(supervisor)@,
                    *self,
                    supervisor@,
                    Err(AgentError::Supervisor(error)),
                ));
                return Err(AgentError::Supervisor(error));
            }
            let ghost mid = *supervisor;
            proof {
                if old(supervisor).admits_every_sweep() {
                    room::lemma_ended_leaves_sweeps(
                        *old(supervisor),
                        mid,
                        task_id.value,
                        Some(ErrorCode::BudgetExceeded),
                    );
                }
            }
            let answer = self.expire_through(supervisor, kind);
            proof {
                event::lemma_carries_on(old(supervisor).store(), mid.store(), supervisor.store());
            }
            assert(gate_expired(c, mid@, *self, supervisor@, kind, answer));
            let r = match answer {
                Ok(_) => Err(AgentError::BudgetExceeded),
                Err(error) => Err(error),
            };
            assert(budget_expired(*old(self), old(supervisor)@, *self, supervisor@, r));
            return r;
        }
        let answer = self.expire_through(supervisor, kind);
        let ghost c = *self;
        assert(gate_expired(*old(self), old(supervisor)@, c, supervisor@, kind, answer));
        match answer {
            Ok(expired) => {
                if let Some(task) = supervisor.get(task_id) {
                    if task.state.is_terminal() {
                        self.active = None;
                    }
                }
                Ok(expired)
            },
            Err(error) => Err(error),
        }
    }

    /// Cancels one task through its active operation gate and drops its model session.
    pub fn cancel<S: EventStore>(
        &mut self,
        supervisor: &mut TaskSupervisor<S>,
        task_id: TaskId,
    ) -> (r: Result<bool, AgentError>)
        requires
            old(supervisor)@.coherent(),
            old(self).wf(),
        ensures
            final(supervisor)@.coherent(),
            final(self).wf(),
            run_cancelled(
                *old(self),
                old(supervisor)@,
                *final(self),
                final(supervisor)@,
                task_id.value,
                r,
            ),
            event::carries(old(supervisor).store(), final(supervisor).store()),
            store_failed(r) ==> !old(supervisor).admits(
                task_id.value,
                old(supervisor)@.transition_kinds(
                    task_id.value,
                    TaskState::Cancelled,
                    None,
                ).len(),
            ),
    {
        if let Some(active) = &self.active {
            if active.task_id != task_id {
                return Err(AgentError::InvalidState);
            }
        }
        let kind = self.pending_adapter();
        let answer = self.cancel_through(supervisor, kind, task_id);
        let ghost c = *self;
        assert(gate_cancelled(
            *old(self),
            old(supervisor)@,
            c,
            supervisor@,
            kind,
            task_id.value,
            answer,
        ));
        if answer.is_ok() {
            self.active = None;
        }
        answer
    }
}

/// Whether `b` is `a` without its session.
pub open spec fn without_session<M: ModelAdapter, H: ToolHandler, T: TcpTransport>(
    a: AgentRuntime<M, H, T>,
    b: AgentRuntime<M, H, T>,
) -> bool {
    b.configured_as(&a) && b.gates_as(&a) && b.session() is None
}

/// Whether the waiting session was denied its approval.
pub open spec fn approval_denied<M: ModelAdapter, H: ToolHandler, T: TcpTransport>(
    a: AgentRuntime<M, H, T>,
    m: SupervisorModel,
    b: AgentRuntime<M, H, T>,
    n: SupervisorModel,
    approval: u128,
    r: Result<(), AgentError>,
) -> bool {
    match waits_for(a, approval) {
        None => r == Err::<(), AgentError>(AgentError::InvalidState) && b == a && n == m,
        Some(kind) => exists|c: AgentRuntime<M, H, T>, x: Result<TaskSnapshot, AgentError>| #[trigger]
            gate_denied(a, m, c, n, kind, approval, x) && c.session() == a.session() && match x {
                Ok(_) => r == Ok::<(), AgentError>(()) && without_session(c, b),
                Err(error) => r == Err::<(), AgentError>(error) && b == c,
            },
    }
}

/// Whether approvals were expired. A task whose budget is used up is failed first; a session
/// whose task ended is dropped.
pub open spec fn approvals_expired<M: ModelAdapter, H: ToolHandler, T: TcpTransport>(
    a: AgentRuntime<M, H, T>,
    m: SupervisorModel,
    b: AgentRuntime<M, H, T>,
    n: SupervisorModel,
    r: Result<usize, AgentError>,
) -> bool {
    match a.session() {
        None => gate_expired(a, m, b, n, gate_asked(a), r) && b.session() is None,
        Some(session) => exists|now: u128|
            session_expired(
                a,
                m,
                b,
                n,
                #[trigger] supervisor::wall_time_verdict(m, session.task, now),
                r,
            ),
    }
}

/// Whether approvals were expired while a session is run, where `exceeded` tells whether the
/// budget of its task is used up.
pub open spec fn session_expired<M: ModelAdapter, H: ToolHandler, T: TcpTransport>(
    a: AgentRuntime<M, H, T>,
    m: SupervisorModel,
    b: AgentRuntime<M, H, T>,
    n: SupervisorModel,
    exceeded: Result<bool, SupervisorError>,
    r: Result<usize, AgentError>,
) -> bool {
    let task = a.session()->0.task;
    match exceeded {
        Err(error) => {
            &&& r == Err::<usize, AgentError>(AgentError::Supervisor(error))
            &&& b == a
            &&& n == m
        },
        Ok(true) => budget_expired(a, m, b, n, r),
        Ok(false) => exists|c: AgentRuntime<M, H, T>, x: Result<usize, AgentError>| #[trigger]
            gate_expired(a, m, c, n, gate_asked(a), x) && c.session() == a.session() && r == x
                && if x is Ok && n.tasks.contains_key(task) && n.tasks[task].state.terminal() {
                without_session(c, b)
            } else {
                b == c
            },
    }
}

/// Whether a session whose budget is used up was failed, and approvals were expired then.
pub open spec fn budget_expired<M: ModelAdapter, H: ToolHandler, T: TcpTransport>(
    a: AgentRuntime<M, H, T>,
    m: SupervisorModel,
    b: AgentRuntime<M, H, T>,
    n: SupervisorModel,
    r: Result<usize, AgentError>,
) -> bool {
    let task = a.session()->0.task;
    exists|c: AgentRuntime<M, H, T>, mid: SupervisorModel, recorded: Result<(), SupervisorError>|
        #[trigger] without_session(a, c) && #[trigger] supervisor::transition_outcome(
            m,
            mid,
            task,
            TaskState::Failed,
            Some(ErrorCode::BudgetExceeded),
            m.tasks[task].deadline,
            recorded,
        ) && match recorded {
            Err(error) => {
                &&& r == Err::<usize, AgentError>(AgentError::Supervisor(error))
                &&& b == c
                &&& n == mid
            },
            Ok(_) => exists|x: Result<usize, AgentError>| #[trigger]
                gate_expired(c, mid, b, n, gate_asked(a), x) && b.session() is None && r
                    == match x {
                    Ok(_) => Err::<usize, AgentError>(AgentError::BudgetExceeded),
                    Err(error) => Err(error),
                },
        }
}

/// Whether a task was cancelled and its session dropped. While another task is run, nothing
/// is.
pub open spec fn run_cancelled<M: ModelAdapter, H: ToolHandler, T: TcpTransport>(
    a: AgentRuntime<M, H, T>,
    m: SupervisorModel,
    b: AgentRuntime<M, H, T>,
    n: SupervisorModel,
    task: u128,
    r: Result<bool, AgentError>,
) -> bool {
    if a.session() is Some && a.session()->0.task != task {
        r == Err::<bool, AgentError>(AgentError::InvalidState) && b == a && n == m
    } else {
        exists|c: AgentRuntime<M, H, T>| #[trigger]
            gate_cancelled(a, m, c, n, gate_asked(a), task, r) && c.session() == a.session()
                && if r is Ok {
                without_session(c, b)
            } else {
                b == c
            }
    }
}

// ---------------------------------------------------------------------- laws

/// The step limit holds: every turn that asks for another counts one step of the same task, and
/// none follows the step that the limit allows last.
pub proof fn law_steps_are_bounded<M: ModelAdapter, H: ToolHandler, T: TcpTransport>(
    count: nat,
    a: AgentRuntime<M, H, T>,
    m: SupervisorModel,
    b: AgentRuntime<M, H, T>,
    n: SupervisorModel,
)
    requires
        turned(count, a, m, b, n),
        a.session() is Some,
        a.config().steps() <= MAX_MODEL_STEPS,
    ensures
        b.configured_as(&a),
        b.session() is Some,
        b.session()->0.task == a.session()->0.task,
        b.session()->0.pending == a.session()->0.pending,
        b.session()->0.next_step == a.session()->0.next_step + count,
        count > 0 ==> a.session()->0.next_step + count <= a.config().steps() + 1,
    decreases count,
{
    if count > 0 {
        let (c, k) = choose|c: AgentRuntime<M, H, T>, k: SupervisorModel|
            turned((count - 1) as nat, a, m, c, k) && #[trigger] turn(c, k, b, n, None);
        law_steps_are_bounded((count - 1) as nat, a, m, c, k);
        lemma_turn_counts(c, k, b, n);
    }
}

/// A run that returned keeps its session only to wait for the approval that it reports, or
/// because supervision failed before anything was done.
pub proof fn law_a_run_ends_or_waits<M: ModelAdapter, H: ToolHandler, T: TcpTransport>(
    a: AgentRuntime<M, H, T>,
    m: SupervisorModel,
    b: AgentRuntime<M, H, T>,
    n: SupervisorModel,
    r: Result<AgentRunOutcome, AgentError>,
)
    requires
        driven(a, m, b, n, r),
        a.session() is Some,
        a.config().steps() <= MAX_MODEL_STEPS,
        b.session() is Some,
    ensures
        b.session()->0.task == a.session()->0.task,
        match r {
            Ok(AgentRunOutcome::WaitingApproval(request)) => {
                &&& b.session()->0.pending is Some
                &&& (b.session()->0.pending->0).0 == request.approval_id.value
            },
            Err(AgentError::Supervisor(_)) => true,
            _ => false,
        },
{
    let (count, c, k) = choose|count: nat, c: AgentRuntime<M, H, T>, k: SupervisorModel| #[trigger]
        turned(count, a, m, c, k) && turn(c, k, b, n, Some(r));
    law_steps_are_bounded(count, a, m, c, k);
    reveal(turn);
}

/// What a run returns is what the supervisor knows of its task: it succeeded where the run
/// completed, waits where the run waits, and failed where the run was denied or gave up. Only a
/// failure of the supervision itself leaves that open.
#[verifier::rlimit(40)]
#[verifier::spinoff_prover]
pub proof fn law_verdicts_match_task_states<M: ModelAdapter, H: ToolHandler, T: TcpTransport>(
    a: AgentRuntime<M, H, T>,
    m: SupervisorModel,
    b: AgentRuntime<M, H, T>,
    n: SupervisorModel,
    r: Result<AgentRunOutcome, AgentError>,
)
    requires
        driven(a, m, b, n, r),
        a.session() is Some,
        a.config().steps() <= MAX_MODEL_STEPS,
    ensures
        match r {
            Ok(AgentRunOutcome::Completed(_)) => n.tasks[a.session()->0.task].state is Succeeded,
            Ok(AgentRunOutcome::WaitingApproval(_)) => n.tasks[a.session()->0.task].state
                is WaitingApproval,
            Ok(AgentRunOutcome::Denied { .. }) => n.tasks[a.session()->0.task].state is Failed,
            Err(AgentError::Supervisor(_)) => true,
            Err(_) => n.tasks[a.session()->0.task].state is Failed,
        },
{
    let (count, c, k) = choose|count: nat, c: AgentRuntime<M, H, T>, k: SupervisorModel| #[trigger]
        turned(count, a, m, c, k) && turn(c, k, b, n, Some(r));
    law_steps_are_bounded(count, a, m, c, k);
    reveal(turn);
}

/// Whether what a run reports, the state of its task and the session that is left agree. A
/// failure of the supervisor says nothing of them.
pub open spec fn run_settled<M: ModelAdapter, H: ToolHandler, T: TcpTransport>(
    b: AgentRuntime<M, H, T>,
    n: SupervisorModel,
    task: u128,
    r: Result<AgentRunOutcome, AgentError>,
) -> bool {
    match r {
        Ok(AgentRunOutcome::Completed(_)) => n.tasks[task].state is Succeeded && b.session()
            is None,
        Ok(AgentRunOutcome::Denied { .. }) => n.tasks[task].state is Failed && b.session() is None,
        Ok(AgentRunOutcome::WaitingApproval(request)) => {
            &&& n.tasks[task].state is WaitingApproval
            &&& b.session() is Some && b.session()->0.task == task
            &&& b.session()->0.pending is Some && (b.session()->0.pending->0).0
                == request.approval_id.value
        },
        Err(AgentError::Supervisor(_)) => true,
        Err(_) => n.tasks[task].state is Failed && b.session() is None,
    }
}

/// What a run reports, the state of its task and the session that is left agree.
pub proof fn law_runs_settle<M: ModelAdapter, H: ToolHandler, T: TcpTransport>(
    a: AgentRuntime<M, H, T>,
    m: SupervisorModel,
    b: AgentRuntime<M, H, T>,
    n: SupervisorModel,
    r: Result<AgentRunOutcome, AgentError>,
)
    requires
        driven(a, m, b, n, r),
        a.session() is Some,
        a.config().steps() <= MAX_MODEL_STEPS,
    ensures
        run_settled(b, n, a.session()->0.task, r),
{
    law_verdicts_match_task_states(a, m, b, n, r);
    if b.session() is Some {
        law_a_run_ends_or_waits(a, m, b, n, r);
    } else if r matches Ok(AgentRunOutcome::WaitingApproval(_)) {
        let (count, c, k) = choose|count: nat, c: AgentRuntime<M, H, T>, k: SupervisorModel|
            #[trigger] turned(count, a, m, c, k) && turn(c, k, b, n, Some(r));
        law_steps_are_bounded(count, a, m, c, k);
        reveal(turn);
    }
}

/// What the start of a task reports, the state of the task and the session that is left agree.
pub proof fn law_started_runs_settle<M: ModelAdapter, H: ToolHandler, T: TcpTransport>(
    a: AgentRuntime<M, H, T>,
    m: SupervisorModel,
    b: AgentRuntime<M, H, T>,
    n: SupervisorModel,
    task: u128,
    r: Result<AgentRunOutcome, AgentError>,
)
    requires
        run_started(a, m, b, n, task, r),
        a.session() is None,
        a.config().steps() <= MAX_MODEL_STEPS,
    ensures
        run_settled(b, n, task, r),
{
    let (now, mid, moved) = choose|
        now: u128,
        mid: SupervisorModel,
        moved: Result<(), SupervisorError>,
    | #[trigger]
        supervisor::transition_outcome(
            m,
            mid,
            task,
            TaskState::Running,
            None,
            #[trigger] supervisor::deadline_after_start(m, task, now),
            moved,
        ) && match moved {
            Err(error) => {
                &&& r == Err::<AgentRunOutcome, AgentError>(AgentError::Supervisor(error))
                &&& b == a
                &&& n == mid
            },
            Ok(_) => session_started(a, mid, b, n, task, m.tasks[task].spec->0, r),
        };
    if moved is Ok {
        lemma_session_settles(a, mid, b, n, task, m.tasks[task].spec->0, r);
    }
}

proof fn lemma_session_settles<M: ModelAdapter, H: ToolHandler, T: TcpTransport>(
    a: AgentRuntime<M, H, T>,
    m: SupervisorModel,
    b: AgentRuntime<M, H, T>,
    n: SupervisorModel,
    task: u128,
    spec: TaskModel,
    r: Result<AgentRunOutcome, AgentError>,
)
    requires
        session_started(a, m, b, n, task, spec, r),
        a.config().steps() <= MAX_MODEL_STEPS,
    ensures
        run_settled(b, n, task, r),
{
    assert forall|c: AgentRuntime<M, H, T>|
        c.config() == a.config() && c.session() is Some && c.session()->0.task == task
            && #[trigger] driven(c, m, b, n, r) implies run_settled(b, n, task, r) by {
        law_runs_settle(c, m, b, n, r);
    }
}

/// What an approval of the waiting operation reports, the state of the task and the session that
/// is left agree.
pub proof fn law_resumed_runs_settle<M: ModelAdapter, H: ToolHandler, T: TcpTransport>(
    a: AgentRuntime<M, H, T>,
    m: SupervisorModel,
    b: AgentRuntime<M, H, T>,
    n: SupervisorModel,
    approval: u128,
    r: Result<AgentRunOutcome, AgentError>,
)
    requires
        approval_resumed(a, m, b, n, approval, r),
        waits_for(a, approval) is Some,
        waits_for(a, approval) == Some(PendingAdapter::Network) ==> a.network() is Some,
        a.config().steps() <= MAX_MODEL_STEPS,
    ensures
        run_settled(b, n, a.session()->0.task, r),
{
    let task = a.session()->0.task;
    assert forall|
        c: AgentRuntime<M, H, T>,
        k: SupervisorModel,
        kind: PendingAdapter,
        outcome: OutcomeModel,
    |
        c.config() == a.config() && c.session() == a.session() && #[trigger] resumed(
            c,
            k,
            b,
            n,
            kind,
            outcome,
            r,
        ) implies run_settled(b, n, task, r) by {
        assert forall|d: AgentRuntime<M, H, T>|
            d.config() == a.config() && d.session() is Some && d.session()->0.task == task
                && #[trigger] driven(d, k, b, n, r) implies run_settled(b, n, task, r) by {
            law_runs_settle(d, k, b, n, r);
        }
    }
}

/// The turns of a session are numbered from one without a gap, within the limit, and each but
/// the first is shown the output of one operation, the last one.
pub proof fn law_sessions_number_their_steps<M: ModelAdapter, H: ToolHandler, T: TcpTransport>(
    count: nat,
    a: AgentRuntime<M, H, T>,
    m: SupervisorModel,
    b: AgentRuntime<M, H, T>,
    n: SupervisorModel,
)
    requires
        turned(count, a, m, b, n),
        a.session() is Some,
        a.session()->0.next_step == 1 && a.session()->0.previous is None,
        a.config().steps() <= MAX_MODEL_STEPS,
    ensures
        b.session() is Some,
        b.session()->0.next_step == count + 1,
        b.session()->0.previous is Some <==> count > 0,
        count <= a.config().steps(),
{
    law_steps_are_bounded(count, a, m, b, n);
    if count > 0 {
        let (c, k) = choose|c: AgentRuntime<M, H, T>, k: SupervisorModel|
            turned((count - 1) as nat, a, m, c, k) && #[trigger] turn(c, k, b, n, None);
        lemma_turn_counts(c, k, b, n);
    }
}

} // verus!
