//! Laws on runs of an agent.

use vstd::prelude::*;

use crate::agent;
use crate::agent::{
    AgentError, AgentRunOutcome, AgentRuntime, DecisionModel, ModelAdapter, ModelDecision,
    ModelSession, OutcomeModel, PendingAdapter, ScriptedModelAdapter, ScriptedModelError,
    ScriptedModelSession, SessionModel, StartModel,
};
use crate::error::ErrorCode;
use crate::execution::{Executed, ExecutionError, ExecutionOutcome};
use crate::network;
use crate::network::{NetworkAdapterError, TcpExchangeResponse, TcpTransport};
use crate::policy::DenialReason;
use crate::state::TaskState;
use crate::supervision::SupervisorModel;
use crate::supervisor;
use crate::supervisor::SupervisorError;
use crate::task::{DestinationModel, TaskModel};
use crate::text;
use crate::tool;
use crate::tool::{ToolAdapterError, ToolHandler, ToolOutput};

verus! {

/// A final text is of 1 byte to a mebibyte, without NUL.
pub proof fn law_final_texts_are_bounded(words: Seq<char>)
    ensures
        agent::valid_output(words) <==> 1 <= text::utf8(words).len() <= 1_048_576
            && !text::utf8(words).contains(0u8),
{
}

/// A session is shown the allowed destinations that an exchange can go to, and no others; without
/// a network it is shown none.
pub proof fn law_reachable_destinations_are_shown(
    destinations: Seq<DestinationModel>,
    d: DestinationModel,
)
    ensures
        agent::shown_destinations(true, destinations).contains(d) <==> destinations.contains(d)
            && network::exchange_target(d.host, d.port, 0) is Ok,
        agent::shown_destinations(false, destinations).len() == 0,
{
    let keep = |x: DestinationModel| agent::reachable(x);
    let shown = destinations.filter(keep);
    if destinations.contains(d) && agent::reachable(d) {
        let i = choose|i: int| 0 <= i < destinations.len() && destinations[i] == d;
        destinations.lemma_filter_contains(keep, i);
    }
    if shown.contains(d) {
        destinations.lemma_filter_contains_rev(keep, d);
        let i = choose|i: int| 0 <= i < shown.len() && shown[i] == d;
        destinations.lemma_filter_pred(keep, i);
    }
}

/// What a run reads in the answer of a gate: the output of what ran, the reason of a denial, the
/// approval that is waited for, a failure of the supervisor as it is, a budget that is used up as
/// such, and any other failure as a failure, with nothing of what the adapter said.
pub proof fn law_answers_are_read_alike(
    executed: Executed<ToolOutput>,
    exchanged: Executed<TcpExchangeResponse>,
    reason: DenialReason,
    error: SupervisorError,
    tool_error: ToolAdapterError,
    network_error: NetworkAdapterError,
)
    ensures
        agent::tool_answer(Ok(ExecutionOutcome::Executed(executed))) == OutcomeModel::Executed(
            executed.output@,
        ),
        agent::network_answer(Ok(ExecutionOutcome::Executed(exchanged)))
            == OutcomeModel::Executed(exchanged.output@),
        agent::tool_answer(Ok(ExecutionOutcome::Denied { reason })) == OutcomeModel::Denied(
            reason,
        ) && agent::network_answer(Ok(ExecutionOutcome::Denied { reason }))
            == OutcomeModel::Denied(reason),
        agent::tool_answer(Err(ExecutionError::Supervisor(error)))
            == OutcomeModel::Unsupervised(error) && agent::network_answer(
            Err(ExecutionError::Supervisor(error)),
        ) == OutcomeModel::Unsupervised(error),
        agent::tool_answer(Err(ExecutionError::Adapter(tool_error))) == (if tool_error
            == ToolAdapterError::BudgetExceeded {
            OutcomeModel::OverBudget
        } else {
            OutcomeModel::Failed
        }),
        agent::network_answer(Err(ExecutionError::Adapter(network_error))) == (if network_error
            == NetworkAdapterError::BudgetExceeded {
            OutcomeModel::OverBudget
        } else {
            OutcomeModel::Failed
        }),
{
}

/// A run that is given up fails its task, with the category of the failure recorded, and reports
/// the verdict; where that cannot be recorded it reports so.
pub proof fn law_given_up_runs_fail_their_task(
    m: SupervisorModel,
    n: SupervisorModel,
    task: u128,
    code: Option<ErrorCode>,
    verdict: Result<AgentRunOutcome, AgentError>,
    r: Result<AgentRunOutcome, AgentError>,
)
    requires
        agent::gave_up(m, n, task, code, verdict, r),
    ensures
        (r == verdict && n.tasks[task].state == TaskState::Failed && n.tasks[task].deadline
            == m.tasks[task].deadline && m.tasks[task].state.may_become(TaskState::Failed)) || (
        n == m && r is Err && r->Err_0 is Supervisor),
{
}

/// What follows an operation: its output is what the next turn sees, an approval is waited for
/// under the adapter that asked for it, and anything else ends the run. A denial fails the task
/// and reports its reason; a budget that is used up is reported and recorded as such.
pub proof fn law_outcomes_lead_on_or_end_the_run<M: ModelAdapter, H: ToolHandler, T: TcpTransport>(
    a: AgentRuntime<M, H, T>,
    m: SupervisorModel,
    b: AgentRuntime<M, H, T>,
    n: SupervisorModel,
    kind: PendingAdapter,
    outcome: OutcomeModel,
    step: Option<Result<AgentRunOutcome, AgentError>>,
)
    requires
        agent::operation_settled(a, m, b, n, kind, outcome, step),
        a.session() is Some,
    ensures
        ({
            let session = a.session()->0;
            let recorded = n.tasks[session.task].state == TaskState::Failed;
            let unrecorded = n == m && step is Some && step->0 is Err && step->0->Err_0
                is Supervisor;
            &&& step is None <==> outcome is Executed
            &&& outcome is Executed ==> n == m && b.session() is Some && b.session()->0.previous
                == Some(outcome->Executed_0) && b.session()->0.next_step == session.next_step
                && b.session()->0.task == session.task && b.session()->0.model == session.model
                && b.session()->0.pending == session.pending
            &&& outcome is Waiting ==> n == m && b.session() is Some && b.session()->0.pending
                == Some((outcome->Waiting_0.approval_id.value, kind)) && b.session()->0.previous
                == session.previous && b.session()->0.next_step == session.next_step && step
                == Some(
                Ok::<AgentRunOutcome, AgentError>(
                    AgentRunOutcome::WaitingApproval(outcome->Waiting_0),
                ),
            )
            &&& !(outcome is Executed) && !(outcome is Waiting) ==> b.session() is None
            &&& outcome is Unsupervised ==> n == m && step == Some(
                Err::<AgentRunOutcome, AgentError>(
                    AgentError::Supervisor(outcome->Unsupervised_0),
                ),
            )
            &&& outcome is Denied ==> unrecorded || (recorded && step == Some(
                Ok::<AgentRunOutcome, AgentError>(
                    (AgentRunOutcome::Denied { reason: outcome->Denied_0 }),
                ),
            ))
            &&& outcome is OverBudget ==> unrecorded || (recorded && step == Some(
                Err::<AgentRunOutcome, AgentError>(AgentError::BudgetExceeded),
            ))
            &&& outcome is Failed ==> unrecorded || (recorded && step == Some(
                Err::<AgentRunOutcome, AgentError>(
                    match kind {
                        PendingAdapter::Tool => AgentError::ToolFailed,
                        PendingAdapter::Network => AgentError::NetworkFailed,
                    },
                ),
            ))
        }),
{
}

/// A turn that asks for another took place within the budget and the step limit, counted one
/// step, and kept the task.
pub proof fn law_turns_stay_within_budget_and_limit<
    M: ModelAdapter,
    H: ToolHandler,
    T: TcpTransport,
>(
    a: AgentRuntime<M, H, T>,
    m: SupervisorModel,
    b: AgentRuntime<M, H, T>,
    n: SupervisorModel,
    early: u128,
    late: u128,
)
    requires
        agent::turn_at(a, m, b, n, early, late, None),
        a.config().steps() <= 64,
    ensures
        a.session() is Some && b.session() is Some,
        ({
            let session = a.session()->0;
            &&& m.tasks.contains_key(session.task)
            &&& m.tasks[session.task].state is Running || m.tasks[session.task].state
                is WaitingApproval
            &&& early < m.tasks[session.task].deadline->0
            &&& late < m.tasks[session.task].deadline->0
            &&& session.next_step <= a.config().steps()
            &&& b.session()->0.next_step == session.next_step + 1
            &&& b.session()->0.task == session.task
            &&& b.session()->0.previous is Some
        }),
{
}

/// When a turn does not take place: there is no session, the task does not run, the budget is
/// used up, or the steps are. In this order, and told so.
pub proof fn law_turns_end_in_order<M: ModelAdapter, H: ToolHandler, T: TcpTransport>(
    a: AgentRuntime<M, H, T>,
    m: SupervisorModel,
    b: AgentRuntime<M, H, T>,
    n: SupervisorModel,
    early: u128,
    late: u128,
    step: Option<Result<AgentRunOutcome, AgentError>>,
)
    requires
        agent::turn_at(a, m, b, n, early, late, step),
    ensures
        a.session() is None ==> b == a && n == m && step == Some(
            Err::<AgentRunOutcome, AgentError>(AgentError::InvalidState),
        ),
        a.session() is Some ==> {
            let session = a.session()->0;
            let known = m.tasks.contains_key(session.task);
            let live = known && (m.tasks[session.task].state is Running
                || m.tasks[session.task].state is WaitingApproval);
            let failed = n.tasks[session.task].state == TaskState::Failed && b.session() is None;
            let unrecorded = n == m && step is Some && step->0 is Err && step->0->Err_0
                is Supervisor;
            &&& !known ==> b == a && n == m && step == Some(
                Err::<AgentRunOutcome, AgentError>(
                    AgentError::Supervisor(SupervisorError::TaskNotFound),
                ),
            )
            &&& known && !live ==> b == a && n == m && step == Some(
                Err::<AgentRunOutcome, AgentError>(
                    AgentError::Supervisor(SupervisorError::TaskNotRunning),
                ),
            )
            &&& live && early >= m.tasks[session.task].deadline->0 ==> unrecorded || (failed && step
                == Some(Err::<AgentRunOutcome, AgentError>(AgentError::BudgetExceeded)))
            &&& live && early < m.tasks[session.task].deadline->0 && session.next_step
                > a.config().steps() ==> unrecorded || (failed && step == Some(
                Err::<AgentRunOutcome, AgentError>(AgentError::StepLimitExceeded),
            ))
        },
{
}

/// What a decision leads to. A final text completes the task; a call of a route that is not there
/// or with bad arguments, and an exchange that can go nowhere, are not tried, and fail it.
pub proof fn law_decisions_are_carried_out_or_refused<
    M: ModelAdapter,
    H: ToolHandler,
    T: TcpTransport,
>(
    a: AgentRuntime<M, H, T>,
    m: SupervisorModel,
    b: AgentRuntime<M, H, T>,
    n: SupervisorModel,
    decision: DecisionModel,
    step: Option<Result<AgentRunOutcome, AgentError>>,
)
    requires
        agent::decision_taken(a, m, b, n, decision, step),
        a.session() is Some,
    ensures
        ({
            let task = a.session()->0.task;
            let unrecorded = n == m && step is Some && step->0 is Err && step->0->Err_0
                is Supervisor;
            let refused = b.gates_as(&a) && b.session() is None && (unrecorded || (
            n.tasks[task].state == TaskState::Failed && step == Some(
                Err::<AgentRunOutcome, AgentError>(AgentError::InvalidDecision),
            )));
            match decision {
                DecisionModel::Finish(output) => b.gates_as(&a) && b.session() is None && (
                unrecorded || (n.tasks[task].state == TaskState::Succeeded && step == Some(
                    Ok::<AgentRunOutcome, AgentError>(AgentRunOutcome::Completed(output)),
                ))),
                DecisionModel::CallTool { route, arguments } => tool::prepared(
                    a.routes(),
                    route,
                    arguments,
                ) is Err ==> refused,
                DecisionModel::TcpExchange { host, port, request } => a.network() is None
                    || network::exchange_target(host, port, request.len()) is Err ==> refused,
            }
        }),
{
}

/// A model that fails ends the run; a decision that comes after the budget was used up is not
/// carried out.
pub proof fn law_late_decisions_are_not_carried_out<
    M: ModelAdapter,
    H: ToolHandler,
    T: TcpTransport,
>(
    c: AgentRuntime<M, H, T>,
    m: SupervisorModel,
    b: AgentRuntime<M, H, T>,
    n: SupervisorModel,
    late: u128,
    reply: Result<ModelDecision, <<M as ModelAdapter>::Session as ModelSession>::Error>,
    step: Option<Result<AgentRunOutcome, AgentError>>,
)
    requires
        agent::reply_taken(c, m, b, n, late, reply, step),
        c.session() is Some,
    ensures
        ({
            let task = c.session()->0.task;
            let unrecorded = n == m && step is Some && step->0 is Err && step->0->Err_0
                is Supervisor;
            let ended = b.gates_as(&c) && b.session() is None && n.tasks[task].state
                == TaskState::Failed;
            &&& reply is Err ==> unrecorded || (ended && step == Some(
                Err::<AgentRunOutcome, AgentError>(AgentError::ModelFailed),
            ))
            &&& reply is Ok && late >= m.tasks[task].deadline->0 ==> unrecorded || (ended && step
                == Some(Err::<AgentRunOutcome, AgentError>(AgentError::BudgetExceeded)))
            &&& reply is Ok && late < m.tasks[task].deadline->0 ==> agent::decision_taken(
                c,
                m,
                b,
                n,
                reply->Ok_0@,
                step,
            )
        }),
{
}

/// One run at a time: while a session is there, no other is started, and nothing changes.
pub proof fn law_one_run_at_a_time<M: ModelAdapter, H: ToolHandler, T: TcpTransport>(
    a: AgentRuntime<M, H, T>,
    m: SupervisorModel,
    b: AgentRuntime<M, H, T>,
    n: SupervisorModel,
    task: u128,
    r: Result<AgentRunOutcome, AgentError>,
)
    requires
        agent::run_started(a, m, b, n, task, r),
    ensures
        a.session() is Some ==> b == a && n == m && r == Err::<AgentRunOutcome, AgentError>(
            AgentError::CapacityExceeded,
        ),
        a.session() is None && !m.tasks.contains_key(task) ==> b == a && n == m && r == Err::<
            AgentRunOutcome,
            AgentError,
        >(AgentError::Supervisor(SupervisorError::TaskNotFound)),
        a.session() is None && m.tasks.contains_key(task) && !m.tasks[task].state.may_become(
            TaskState::Running,
        ) ==> b == a && n == m && r is Err && r->Err_0 is Supervisor && r->Err_0->Supervisor_0
            is InvalidStateTransition,
{
}

/// A session begins with step 1, before any operation, and is shown the goal of its task, the
/// routes of its tools and the destinations that can be reached.
pub proof fn law_sessions_begin_with_the_task<M: ModelAdapter, H: ToolHandler, T: TcpTransport>(
    a: AgentRuntime<M, H, T>,
    m: SupervisorModel,
    b: AgentRuntime<M, H, T>,
    n: SupervisorModel,
    task: u128,
    spec: TaskModel,
    r: Result<AgentRunOutcome, AgentError>,
)
    requires
        agent::session_started(a, m, b, n, task, spec, r),
    ensures
        exists|c: AgentRuntime<M, H, T>, start: StartModel, reply: Result<
            <M as ModelAdapter>::Session,
            <M as ModelAdapter>::Error,
        >|
            #[trigger] <M as ModelAdapter>::starts(a.adapter(), start, c.adapter(), reply)
                && start.goal == spec.goal && start.routes == tool::granted_routes(
                a.routes(),
                spec.tools,
            ) && start.destinations == agent::shown_destinations(
                a.network() is Some,
                match spec.network {
                    Some(list) => list,
                    None => Seq::<DestinationModel>::empty(),
                },
            ) && (reply is Ok ==> c.session() is Some && c.session()->0.task == task
                && c.session()->0.next_step == 1 && c.session()->0.previous is None
                && c.session()->0.pending is None && c.session()->0.model == reply->Ok_0),
{
    let (c, reply) = choose|c: AgentRuntime<M, H, T>, reply: Result<
        <M as ModelAdapter>::Session,
        <M as ModelAdapter>::Error,
    >|
        c.routes() == a.routes() && c.config() == a.config() && c.gates_as(&a)
            && #[trigger] <M as ModelAdapter>::starts(
            a.adapter(),
            (StartModel {
                goal: spec.goal,
                routes: tool::granted_routes(a.routes(), spec.tools),
                destinations: agent::shown_destinations(
                    a.network() is Some,
                    supervisor::allowed_destinations(spec),
                ),
            }),
            c.adapter(),
            reply,
        ) && match reply {
            Err(_) => {
                &&& b == c
                &&& b.session() is None
                &&& agent::gave_up(m, n, task, None, Err(AgentError::ModelFailed), r)
            },
            Ok(model) => {
                &&& c.session() == Some(agent::opened_session(task, model))
                &&& agent::driven(c, m, b, n, r)
            },
        };
    let start = StartModel {
        goal: spec.goal,
        routes: tool::granted_routes(a.routes(), spec.tools),
        destinations: agent::shown_destinations(
            a.network() is Some,
            supervisor::allowed_destinations(spec),
        ),
    };
    assert(<M as ModelAdapter>::starts(a.adapter(), start, c.adapter(), reply));
}

/// Only the approval that a session waits for resumes it or is denied to it; any other is
/// refused, and nothing changes.
pub proof fn law_other_approvals_do_not_resume<M: ModelAdapter, H: ToolHandler, T: TcpTransport>(
    a: AgentRuntime<M, H, T>,
    m: SupervisorModel,
    b: AgentRuntime<M, H, T>,
    n: SupervisorModel,
    approval: u128,
    r: Result<AgentRunOutcome, AgentError>,
    denied: Result<(), AgentError>,
)
    requires
        a.session() is None || a.session()->0.pending is None || (
        a.session()->0.pending->0).0 != approval,
    ensures
        agent::approval_resumed(a, m, b, n, approval, r) ==> b == a && n == m && r == Err::<
            AgentRunOutcome,
            AgentError,
        >(AgentError::InvalidState),
        agent::approval_denied(a, m, b, n, approval, denied) ==> b == a && n == m && denied == Err::<
            (),
            AgentError,
        >(AgentError::InvalidState),
{
}

/// While one task is run, no other is cancelled through the runtime.
pub proof fn law_other_tasks_are_not_cancelled<M: ModelAdapter, H: ToolHandler, T: TcpTransport>(
    a: AgentRuntime<M, H, T>,
    m: SupervisorModel,
    b: AgentRuntime<M, H, T>,
    n: SupervisorModel,
    task: u128,
    r: Result<bool, AgentError>,
)
    requires
        agent::run_cancelled(a, m, b, n, task, r),
    ensures
        a.session() is Some && a.session()->0.task != task ==> b == a && n == m && r == Err::<
            bool,
            AgentError,
        >(AgentError::InvalidState),
        r is Ok ==> b.session() is None,
{
}

/// A session whose budget is used up is failed as such, and is over.
pub proof fn law_expired_budgets_end_the_session<M: ModelAdapter, H: ToolHandler, T: TcpTransport>(
    a: AgentRuntime<M, H, T>,
    m: SupervisorModel,
    b: AgentRuntime<M, H, T>,
    n: SupervisorModel,
    exceeded: Result<bool, SupervisorError>,
    r: Result<usize, AgentError>,
)
    requires
        agent::session_expired(a, m, b, n, exceeded, r),
        a.session() is Some,
    ensures
        exceeded == Ok::<bool, SupervisorError>(true) ==> b.session() is None && r is Err,
        exceeded == Ok::<bool, SupervisorError>(false) && r is Ok && n.tasks.contains_key(
            a.session()->0.task,
        ) && n.tasks[a.session()->0.task].state.terminal() ==> b.session() is None,
        exceeded == Ok::<bool, SupervisorError>(false) && !(r is Ok && n.tasks.contains_key(
            a.session()->0.task,
        ) && n.tasks[a.session()->0.task].state.terminal()) ==> b.session() == a.session(),
        exceeded is Err ==> b == a && n == m && r == Err::<usize, AgentError>(
            AgentError::Supervisor(exceeded->Err_0),
        ),
{
}

/// The failure of a task that was recorded under a category, as far as it could be.
pub open spec fn failed_as(
    m: SupervisorModel,
    n: SupervisorModel,
    task: u128,
    code: Option<ErrorCode>,
) -> bool {
    exists|recorded: Result<(), SupervisorError>| #[trigger]
        supervisor::transition_outcome(
            m,
            n,
            task,
            TaskState::Failed,
            code,
            m.tasks[task].deadline,
            recorded,
        )
}

/// A budget that is used up is recorded as such, whether an operation, the clock or the model used
/// it up; another failure is recorded without a category.
pub proof fn law_used_up_budgets_are_recorded_as_such<
    M: ModelAdapter,
    H: ToolHandler,
    T: TcpTransport,
>(
    a: AgentRuntime<M, H, T>,
    m: SupervisorModel,
    b: AgentRuntime<M, H, T>,
    n: SupervisorModel,
    kind: PendingAdapter,
    outcome: OutcomeModel,
    early: u128,
    late: u128,
    reply: Result<ModelDecision, <<M as ModelAdapter>::Session as ModelSession>::Error>,
    step: Option<Result<AgentRunOutcome, AgentError>>,
    r: Result<AgentRunOutcome, AgentError>,
)
    requires
        a.session() is Some,
    ensures
        ({
            let task = a.session()->0.task;
            let budget = Some(ErrorCode::BudgetExceeded);
            let live = m.tasks.contains_key(task) && (m.tasks[task].state is Running
                || m.tasks[task].state is WaitingApproval);
            let over = early >= m.tasks[task].deadline->0;
            &&& agent::operation_settled(a, m, b, n, kind, outcome, step) && outcome is OverBudget
                ==> failed_as(m, n, task, budget)
            &&& agent::operation_settled(a, m, b, n, kind, outcome, step) && (outcome is Failed
                || outcome is Denied) ==> failed_as(m, n, task, None)
            &&& agent::turn_at(a, m, b, n, early, late, step) && live && over ==> failed_as(
                m,
                n,
                task,
                budget,
            )
            &&& agent::turn_at(a, m, b, n, early, late, step) && live && !over
                && a.session()->0.next_step > a.config().steps() ==> failed_as(m, n, task, None)
            &&& agent::reply_taken(a, m, b, n, late, reply, step) && reply is Ok && late
                >= m.tasks[task].deadline->0 ==> failed_as(m, n, task, budget)
            &&& agent::reply_taken(a, m, b, n, late, reply, step) && reply is Err ==> failed_as(
                m,
                n,
                task,
                None,
            )
            &&& agent::resumed(a, m, b, n, kind, outcome, r) && outcome is OverBudget ==> failed_as(
                m,
                n,
                task,
                budget,
            )
            &&& agent::resumed(a, m, b, n, kind, outcome, r) && outcome is Failed ==> failed_as(
                m,
                n,
                task,
                None,
            )
        }),
{
}

/// Within the budget and the limit the model is asked: with the number of its step, and with the
/// output of the operation before it.
pub proof fn law_models_are_asked_within_budget_and_limit<
    M: ModelAdapter,
    H: ToolHandler,
    T: TcpTransport,
>(
    a: AgentRuntime<M, H, T>,
    m: SupervisorModel,
    b: AgentRuntime<M, H, T>,
    n: SupervisorModel,
    early: u128,
    late: u128,
    step: Option<Result<AgentRunOutcome, AgentError>>,
)
    requires
        agent::turn_at(a, m, b, n, early, late, step),
        a.session() is Some,
        m.tasks.contains_key(a.session()->0.task),
        m.tasks[a.session()->0.task].state is Running,
        early < m.tasks[a.session()->0.task].deadline->0,
        a.session()->0.next_step <= a.config().steps(),
    ensures
        exists|c: AgentRuntime<M, H, T>, reply: Result<
            ModelDecision,
            <<M as ModelAdapter>::Session as ModelSession>::Error,
        >|
            #[trigger] <<M as ModelAdapter>::Session as ModelSession>::decides(
                a.session()->0.model,
                a.session()->0.next_step,
                a.session()->0.previous,
                c.session()->0.model,
                reply,
            ) && c.session() is Some && c.session()->0.task == a.session()->0.task
                && agent::reply_taken(c, m, b, n, late, reply, step),
{
    let session = a.session()->0;
    let (c, reply) = choose|c: AgentRuntime<M, H, T>, reply: Result<
        ModelDecision,
        <<M as ModelAdapter>::Session as ModelSession>::Error,
    >|
        c.configured_as(&a) && c.gates_as(&a) && c.session() is Some
            && #[trigger] <<M as ModelAdapter>::Session as ModelSession>::decides(
            session.model,
            session.next_step,
            session.previous,
            c.session()->0.model,
            reply,
        ) && c.session()->0 == (SessionModel {
            model: c.session()->0.model,
            next_step: (session.next_step + 1) as u16,
            ..session
        }) && agent::reply_taken(c, m, b, n, late, reply, step);
    assert(<<M as ModelAdapter>::Session as ModelSession>::decides(
        session.model,
        session.next_step,
        session.previous,
        c.session()->0.model,
        reply,
    ));
}

/// A resumed run goes on where it stopped: with the output of the approved operation, no approval
/// to wait for, and the next step of the same session.
pub proof fn law_resumed_runs_go_on_where_they_stopped<
    M: ModelAdapter,
    H: ToolHandler,
    T: TcpTransport,
>(
    a: AgentRuntime<M, H, T>,
    m: SupervisorModel,
    b: AgentRuntime<M, H, T>,
    n: SupervisorModel,
    kind: PendingAdapter,
    outcome: OutcomeModel,
    r: Result<AgentRunOutcome, AgentError>,
)
    requires
        agent::resumed(a, m, b, n, kind, outcome, r),
        a.session() is Some,
    ensures
        outcome is Executed ==> exists|c: AgentRuntime<M, H, T>|
            #[trigger] agent::driven(c, m, b, n, r) && c.session() is Some
                && c.session()->0.previous == Some(outcome->Executed_0) && c.session()->0.pending
                is None && c.session()->0.next_step == a.session()->0.next_step
                && c.session()->0.task == a.session()->0.task && c.session()->0.model
                == a.session()->0.model && c.gates_as(&a) && c.configured_as(&a),
        outcome is Unsupervised ==> b == a && n == m && r == Err::<AgentRunOutcome, AgentError>(
            AgentError::Supervisor(outcome->Unsupervised_0),
        ),
        outcome is OverBudget || outcome is Failed ==> b.session() is None,
        !(outcome is Denied) && !(outcome is Waiting),
{
}

/// What a gate answers to something other than an operation is passed on: a failure of the
/// supervisor as it is, a budget that is used up as such, and any other failure as that of the
/// tools or of the network.
pub proof fn law_gate_failures_are_passed_on<X>(
    value: X,
    error: SupervisorError,
    tool_error: ToolAdapterError,
    network_error: NetworkAdapterError,
)
    ensures
        agent::tool_verdict(Ok(value)) == Ok::<X, AgentError>(value),
        agent::network_verdict(Ok(value)) == Ok::<X, AgentError>(value),
        agent::tool_verdict::<X>(Err(ExecutionError::Supervisor(error))) == Err::<X, AgentError>(
            AgentError::Supervisor(error),
        ),
        agent::network_verdict::<X>(Err(ExecutionError::Supervisor(error))) == Err::<
            X,
            AgentError,
        >(AgentError::Supervisor(error)),
        agent::tool_verdict::<X>(Err(ExecutionError::Adapter(tool_error))) == Err::<X, AgentError>(
            if tool_error == ToolAdapterError::BudgetExceeded {
                AgentError::BudgetExceeded
            } else {
                AgentError::ToolFailed
            },
        ),
        agent::network_verdict::<X>(Err(ExecutionError::Adapter(network_error))) == Err::<
            X,
            AgentError,
        >(
            if network_error == NetworkAdapterError::BudgetExceeded {
                AgentError::BudgetExceeded
            } else {
                AgentError::NetworkFailed
            },
        ),
        agent::tool_verdict::<X>(Err(ExecutionError::OperationNotFound)) == Err::<X, AgentError>(
            AgentError::ToolFailed,
        ),
        agent::network_verdict::<X>(Err(ExecutionError::OperationNotFound)) == Err::<
            X,
            AgentError,
        >(AgentError::NetworkFailed),
{
}

/// The execution gate that is asked is that of the operation that the session waits for, and that
/// of the tools where it waits for none.
pub proof fn law_the_waiting_gate_is_asked<M: ModelAdapter, H: ToolHandler, T: TcpTransport>(
    a: AgentRuntime<M, H, T>,
    approval: u128,
)
    ensures
        agent::gate_asked(a) is Network <==> a.session() is Some && a.session()->0.pending is Some
            && (a.session()->0.pending->0).1 is Network,
        agent::waits_for(a, approval) is Some <==> a.session() is Some && a.session()->0.pending
            is Some && (a.session()->0.pending->0).0 == approval,
        agent::waits_for(a, approval) is Some ==> agent::waits_for(a, approval) == Some(
            (a.session()->0.pending->0).1,
        ),
{
}

/// A session whose budget is used up fails its task as such before approvals are expired, and the
/// caller is told of the budget.
pub proof fn law_used_up_sessions_fail_first<M: ModelAdapter, H: ToolHandler, T: TcpTransport>(
    a: AgentRuntime<M, H, T>,
    m: SupervisorModel,
    b: AgentRuntime<M, H, T>,
    n: SupervisorModel,
    r: Result<usize, AgentError>,
)
    requires
        agent::budget_expired(a, m, b, n, r),
        a.session() is Some,
    ensures
        b.session() is None && r is Err,
        exists|mid: SupervisorModel| #[trigger]
            failed_as(m, mid, a.session()->0.task, Some(ErrorCode::BudgetExceeded)),
{
    let task = a.session()->0.task;
    let (c, mid, recorded) = choose|
        c: AgentRuntime<M, H, T>,
        mid: SupervisorModel,
        recorded: Result<(), SupervisorError>,
    |
        #[trigger] agent::without_session(a, c) && #[trigger] supervisor::transition_outcome(
            m,
            mid,
            task,
            TaskState::Failed,
            Some(ErrorCode::BudgetExceeded),
            m.tasks[task].deadline,
            recorded,
        ) && match recorded {
            Err(error) => {
                &&& r == Err::<usize, AgentError>(AgentError::Supervisor(error))
                &&& b == c
                &&& n == mid
            },
            Ok(_) => exists|x: Result<usize, AgentError>| #[trigger]
                agent::gate_expired(c, mid, b, n, agent::gate_asked(a), x) && b.session() is None
                    && r == match x {
                    Ok(_) => Err::<usize, AgentError>(AgentError::BudgetExceeded),
                    Err(error) => Err(error),
                },
        };
    assert(failed_as(m, mid, task, Some(ErrorCode::BudgetExceeded)));
}

/// A script is played once, from its first decision to its last, whatever the task and the turns.
pub proof fn law_scripts_are_played_in_order(
    adapter: ScriptedModelAdapter,
    request: StartModel,
    left: ScriptedModelAdapter,
    started: Result<ScriptedModelSession, ScriptedModelError>,
    session: ScriptedModelSession,
    step: u16,
    previous: Option<Seq<u8>>,
    rest: ScriptedModelSession,
    reply: Result<ModelDecision, ScriptedModelError>,
)
    requires
        <ScriptedModelAdapter as ModelAdapter>::starts(adapter, request, left, started),
        <ScriptedModelSession as ModelSession>::decides(session, step, previous, rest, reply),
    ensures
        left@ is None,
        adapter@ is Some ==> started is Ok && started->Ok_0@ == adapter@->0,
        adapter@ is None ==> started is Err,
        session@.len() > 0 ==> reply is Ok && session@ == seq![reply->Ok_0] + rest@,
        session@.len() == 0 ==> reply is Err && reply->Err_0 == ScriptedModelError::Exhausted
            && rest@.len() == 0,
{
    if session@.len() > 0 {
        assert(session@ =~= seq![reply->Ok_0] + rest@);
    }
}

} // verus!
