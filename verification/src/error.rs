//! Errors of the task contract.

use vstd::prelude::*;
use vstd::string::StringExecFns;

use crate::state::TaskState;
use crate::text;
use crate::text::{concat3, decimal_string};

verus! {

/// Stable error categories exposed by the runtime API.
#[derive(Clone, Copy, Debug, PartialEq, Eq, Structural)]
pub enum ErrorCode {
    InvalidTask,
    IdempotencyConflict,
    CapabilityDenied,
    ApprovalExpired,
    BudgetExceeded,
    RuntimeUnavailable,
    RuntimeRestarted,
    InternalError,
}

/// One violated rule: the field and what it must be.
pub type Issue = (Seq<char>, Seq<char>);

/// A validation failure associated with one input field.
#[derive(Clone, Debug, PartialEq, Eq)]
pub struct ValidationError {
    field: &'static str,
    message: String,
}

impl View for ValidationError {
    type V = Issue;

    closed spec fn view(&self) -> Issue {
        (self.field@, self.message@)
    }
}

/// The issues that a list of errors reports.
pub open spec fn issues(errors: Seq<ValidationError>) -> Seq<Issue> {
    errors.map_values(|e: ValidationError| e@)
}

impl ValidationError {
    pub(crate) fn new(field: &'static str, message: String) -> (r: ValidationError)
        ensures
            r@ == (field@, message@),
    {
        ValidationError { field, message }
    }

    /// Returns the stable API error code.
    #[must_use]
    pub fn code(&self) -> (r: ErrorCode)
        ensures
            r == ErrorCode::InvalidTask,
    {
        ErrorCode::InvalidTask
    }

    /// Returns the field that failed validation.
    #[must_use]
    pub fn field(&self) -> (r: &'static str)
        ensures
            r@ == self@.0,
    {
        self.field
    }

    /// Returns a human-readable explanation without including input values.
    #[must_use]
    pub fn message(&self) -> (r: &str)
        ensures
            r@ == self@.1,
    {
        self.message.as_str()
    }

    /// The text `field: message`.
    #[must_use]
    pub fn display(&self) -> (r: String)
        ensures
            r@ == self@.0 + ": "@ + self@.1,
    {
        concat3(self.field, ": ", self.message.as_str())
    }
}

/// All validation failures found in a task specification.
#[derive(Clone, Debug, PartialEq, Eq)]
pub struct ValidationErrors {
    errors: Vec<ValidationError>,
}

impl View for ValidationErrors {
    type V = Seq<Issue>;

    closed spec fn view(&self) -> Seq<Issue> {
        issues(self.errors@)
    }
}

impl ValidationErrors {
    pub(crate) fn new(errors: Vec<ValidationError>) -> (r: Option<ValidationErrors>)
        ensures
            r is None <==> errors@.len() == 0,
            r is Some ==> (r->0)@ == issues(errors@),
    {
        if errors.len() == 0 {
            None
        } else {
            Some(ValidationErrors { errors })
        }
    }

    /// Returns validation failures in deterministic field order.
    #[must_use]
    pub fn errors(&self) -> (r: &[ValidationError])
        ensures
            issues(r@) == self@,
    {
        self.errors.as_slice()
    }

    /// The text that reports how many failures were found.
    #[must_use]
    pub fn display(&self) -> (r: String)
        ensures
            r@ == "task validation failed with "@ + text::decimal(self@.len()) + " error(s)"@,
    {
        let count = decimal_string(self.errors.len() as u64);
        concat3("task validation failed with ", count.as_str(), " error(s)")
    }
}

/// An attempted state transition that is not part of the task lifecycle.
#[derive(Clone, Copy, Debug, PartialEq, Eq, Structural)]
pub struct StateTransitionError {
    from: TaskState,
    to: TaskState,
}

impl View for StateTransitionError {
    type V = (TaskState, TaskState);

    closed spec fn view(&self) -> (TaskState, TaskState) {
        (self.from, self.to)
    }
}

impl StateTransitionError {
    pub(crate) fn new(from: TaskState, to: TaskState) -> (r: StateTransitionError)
        ensures
            r@ == (from, to),
    {
        StateTransitionError { from, to }
    }

    /// The state that the task was in.
    #[must_use]
    pub fn from(&self) -> (r: TaskState)
        ensures
            r == self@.0,
    {
        self.from
    }

    /// The state that was asked for.
    #[must_use]
    pub fn to(&self) -> (r: TaskState)
        ensures
            r == self@.1,
    {
        self.to
    }

    /// The text that names both states.
    #[must_use]
    pub fn display(&self) -> (r: String)
        ensures
            r@ == "invalid task state transition: "@ + state_name(self@.0) + " -> "@ + state_name(
                self@.1,
            ),
    {
        let mut out = concat3("invalid task state transition: ", name_of(self.from), " -> ");
        out.append(name_of(self.to));
        out
    }
}

/// The name of a state as its variant is written.
pub open spec fn state_name(state: TaskState) -> Seq<char> {
    match state {
        TaskState::Submitted => "Submitted"@,
        TaskState::Validating => "Validating"@,
        TaskState::Rejected => "Rejected"@,
        TaskState::Queued => "Queued"@,
        TaskState::Running => "Running"@,
        TaskState::WaitingApproval => "WaitingApproval"@,
        TaskState::Succeeded => "Succeeded"@,
        TaskState::Failed => "Failed"@,
        TaskState::Cancelled => "Cancelled"@,
    }
}

fn name_of(state: TaskState) -> (r: &'static str)
    ensures
        r@ == state_name(state),
{
    match state {
        TaskState::Submitted => "Submitted",
        TaskState::Validating => "Validating",
        TaskState::Rejected => "Rejected",
        TaskState::Queued => "Queued",
        TaskState::Running => "Running",
        TaskState::WaitingApproval => "WaitingApproval",
        TaskState::Succeeded => "Succeeded",
        TaskState::Failed => "Failed",
        TaskState::Cancelled => "Cancelled",
    }
}

} // verus!
