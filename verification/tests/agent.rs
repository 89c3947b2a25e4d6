//! Agents that run one task at a time.

use std::cell::{Cell, RefCell};
use std::rc::Rc;
use std::time::Instant;

use aios::agent::{
    AgentConfig, AgentError, AgentOutput, AgentRunOutcome, AgentRuntime, MAX_FINAL_OUTPUT_BYTES,
    MAX_MODEL_STEPS, ModelAdapter, ModelDecision, ModelDecisionError, ModelSession,
    ModelStartRequest, ModelTurnRequest, ScriptedModelAdapter,
};
use aios::error::ErrorCode;
use aios::event::{InMemoryEventStore, TaskEventKind};
use aios::ids::{ApprovalId, TaskId};
use aios::network::{
    ExchangeAction, ExchangeEvent, MAX_TCP_REQUEST_BYTES, NetworkExecutionGate, TcpTransport,
};
use aios::state::TaskState;
use aios::supervisor::{SubmitResult, TaskSupervisor};
use aios::task::{
    ApprovalPolicy, Budget, CapabilitySet, NetworkDestination, NetworkPolicy, NetworkTransport,
    TaskSpec,
};
use aios::time::Duration;
use aios::tool::{
    MAX_ARGUMENT_BYTES, ToolAdapterBuilder, ToolCatalog, ToolExecutionGate, ToolFailure,
    ToolHandler, ToolOutput,
};

struct Handler<F>(F);

impl<F> ToolHandler for Handler<F>
where
    F: FnMut(Vec<String>) -> Result<ToolOutput, ToolFailure>,
{
    fn execute(&mut self, arguments: Vec<String>) -> Result<ToolOutput, ToolFailure> {
        (self.0)(arguments)
    }
}

#[derive(Default)]
struct Server {
    connections: usize,
    port: u16,
    request: Vec<u8>,
    response: Vec<u8>,
    sent: usize,
    closed: bool,
    stall_millis: u64,
    steps: usize,
    fail_at: Option<usize>,
    other_peer: bool,
}

struct Transport(Rc<RefCell<Server>>);

impl TcpTransport for Transport {
    fn perform(&mut self, action: ExchangeAction, request: &Vec<u8>) -> ExchangeEvent {
        let mut server = self.0.borrow_mut();
        server.steps += 1;
        if server.fail_at == Some(server.steps) {
            return ExchangeEvent::Failed;
        }
        match action {
            ExchangeAction::Connect { address, port, .. } => {
                if port != server.port {
                    return ExchangeEvent::Failed;
                }
                server.connections += 1;
                ExchangeEvent::Connected {
                    peer: Some((address, if server.other_peer { port + 1 } else { port })),
                }
            }
            ExchangeAction::SetWriteTimeout { .. } | ExchangeAction::SetReadTimeout { .. } => {
                ExchangeEvent::TimeoutSet
            }
            ExchangeAction::Write { offset } => {
                let end = request.len().min(offset + 5);
                server.request.extend_from_slice(&request[offset..end]);
                ExchangeEvent::Written {
                    count: end - offset,
                }
            }
            ExchangeAction::ShutdownWrite => {
                server.closed = true;
                ExchangeEvent::WriteShutDown
            }
            ExchangeAction::Read { limit } => {
                pause(server.stall_millis);
                let end = server.response.len().min(server.sent + limit);
                let bytes = server.response[server.sent..end].to_vec();
                server.sent = end;
                ExchangeEvent::Received { bytes }
            }
        }
    }
}

fn server(response: &[u8]) -> Rc<RefCell<Server>> {
    Rc::new(RefCell::new(Server {
        port: 40_001,
        response: response.to_vec(),
        ..Server::default()
    }))
}

fn pause(millis: u64) {
    let start = Instant::now();
    while start.elapsed().as_millis() < u128::from(millis) {}
}

fn task(idempotency_key: &str, required_for: &[&str], tools: &[&str]) -> TaskSpec {
    TaskSpec {
        idempotency_key: idempotency_key.to_owned(),
        goal: "Run a bounded model-directed Task".to_owned(),
        capabilities: CapabilitySet {
            filesystem: Vec::new(),
            network: NetworkPolicy::Deny,
            tools: tools.iter().map(|tool| (*tool).to_owned()).collect(),
        },
        budget: Budget {
            wall_time_seconds: 60,
            memory_bytes: 64 * 1024 * 1024,
            max_parallel_agents: 1,
        },
        approval: ApprovalPolicy {
            required_for: required_for
                .iter()
                .map(|action| (*action).to_owned())
                .collect(),
        },
    }
}

fn network_task(
    idempotency_key: &str,
    host: &str,
    port: u16,
    required_for: &[&str],
) -> TaskSpec {
    let mut spec = task(idempotency_key, required_for, &[]);
    spec.capabilities.network = NetworkPolicy::Allow {
        destinations: vec![NetworkDestination {
            host: host.to_owned(),
            transport: NetworkTransport::Tcp,
            port,
        }],
    };
    spec
}

fn submit(
    supervisor: &mut TaskSupervisor,
    idempotency_key: &str,
    required_for: &[&str],
    tools: &[&str],
) -> TaskId {
    submit_spec(supervisor, task(idempotency_key, required_for, tools))
}

fn submit_spec(supervisor: &mut TaskSupervisor, spec: TaskSpec) -> TaskId {
    let SubmitResult::Accepted(task) = supervisor.submit(spec).expect("submit Task") else {
        panic!("expected accepted Task");
    };
    task.task_id
}

fn tools(
    seen: Rc<RefCell<Vec<Vec<String>>>>,
) -> (
    ToolCatalog,
    ToolExecutionGate<impl ToolHandler>,
) {
    let mut builder = ToolAdapterBuilder::default();
    builder
        .register(
            "run_tests",
            "test_runner",
            "test.run",
            Handler(move |arguments: Vec<String>| {
                seen.borrow_mut().push(arguments);
                ToolOutput::from_text("tool-ok".to_owned()).map_err(|_| ToolFailure::new())
            }),
        )
        .expect("register Tool");
    builder.build()
}

#[test]
fn validates_model_decision_bounds_before_catalog_lookup() {
    assert!(matches!(
        ModelDecision::finish(String::new()),
        Err(ModelDecisionError::InvalidFinalOutput)
    ));
    assert!(matches!(
        ModelDecision::finish("x".repeat(MAX_FINAL_OUTPUT_BYTES + 1)),
        Err(ModelDecisionError::InvalidFinalOutput)
    ));
    assert!(matches!(
        ModelDecision::call_tool("bad route".to_owned(), Vec::new()),
        Err(ModelDecisionError::InvalidToolRequest)
    ));
    assert!(matches!(
        ModelDecision::call_tool(
            "run_tests".to_owned(),
            vec!["x".repeat(MAX_ARGUMENT_BYTES + 1)]
        ),
        Err(ModelDecisionError::InvalidToolRequest)
    ));
    assert!(matches!(
        ModelDecision::tcp_exchange("127.0.0.1".to_owned(), 0, Vec::new()),
        Err(ModelDecisionError::InvalidNetworkRequest)
    ));
    assert!(matches!(
        ModelDecision::tcp_exchange(
            "127.0.0.1".to_owned(),
            443,
            vec![0; MAX_TCP_REQUEST_BYTES + 1]
        ),
        Err(ModelDecisionError::InvalidNetworkRequest)
    ));
}

#[test]
fn completes_task_from_bounded_scripted_model_output() {
    let model = ScriptedModelAdapter::new(vec![
        ModelDecision::finish("completed safely".to_owned()).expect("valid decision"),
    ])
    .expect("valid script");
    let (catalog, gate) = tools(Rc::new(RefCell::new(Vec::new())));
    let mut runtime = AgentRuntime::new(model, catalog, gate, AgentConfig::default());
    let mut supervisor = TaskSupervisor::default();
    let task_id = submit(&mut supervisor, "agent-finish", &[], &[]);

    let outcome = runtime.start(&mut supervisor, task_id).expect("run Agent");

    let AgentRunOutcome::Completed(output) = outcome else {
        panic!("expected completion");
    };
    assert_eq!(output.as_str(), "completed safely");
    assert_eq!(
        supervisor.get(task_id).expect("Task exists").state,
        TaskState::Succeeded
    );
    assert_eq!(runtime.active_task(), None);
}

struct StartRecordingAdapter {
    started: Rc<Cell<bool>>,
}

impl ModelAdapter for StartRecordingAdapter {
    type Error = &'static str;
    type Session = ObservingSession;

    fn start_session(
        &mut self,
        _request: ModelStartRequest<'_>,
    ) -> Result<Self::Session, Self::Error> {
        self.started.set(true);
        Ok(ObservingSession { turn: 0 })
    }
}

#[test]
fn audit_failure_prevents_goal_release_and_model_session_start() {
    let started = Rc::new(Cell::new(false));
    let model = StartRecordingAdapter {
        started: Rc::clone(&started),
    };
    let (catalog, gate) = tools(Rc::new(RefCell::new(Vec::new())));
    let mut runtime = AgentRuntime::new(model, catalog, gate, AgentConfig::default());
    let store = InMemoryEventStore::new(3).expect("submission-only capacity");
    let mut supervisor = TaskSupervisor::new(store);
    let task_id = submit(&mut supervisor, "agent-audit-failure", &[], &[]);

    assert!(matches!(
        runtime.start(&mut supervisor, task_id),
        Err(AgentError::Supervisor(_))
    ));
    assert!(!started.get());
    assert_eq!(
        supervisor.get(task_id).expect("Task exists").state,
        TaskState::Queued
    );
    assert_eq!(runtime.active_task(), None);
}

struct RouteRecordingAdapter {
    routes: Rc<RefCell<Vec<String>>>,
}

struct FinishingSession;

impl ModelAdapter for RouteRecordingAdapter {
    type Error = &'static str;
    type Session = FinishingSession;

    fn start_session(
        &mut self,
        request: ModelStartRequest<'_>,
    ) -> Result<Self::Session, Self::Error> {
        self.routes.borrow_mut().extend(
            request
                .tool_routes()
                .iter()
                .map(|route| (*route).to_owned()),
        );
        Ok(FinishingSession)
    }
}

impl ModelSession for FinishingSession {
    type Error = &'static str;

    fn decide(&mut self, _request: ModelTurnRequest<'_>) -> Result<ModelDecision, Self::Error> {
        ModelDecision::finish("no granted routes".to_owned())
            .map_err(|_| "invalid test decision")
    }
}

#[test]
fn exposes_only_routes_backed_by_task_tool_capabilities() {
    let routes = Rc::new(RefCell::new(Vec::new()));
    let model = RouteRecordingAdapter {
        routes: Rc::clone(&routes),
    };
    let (catalog, gate) = tools(Rc::new(RefCell::new(Vec::new())));
    let mut runtime = AgentRuntime::new(model, catalog, gate, AgentConfig::default());
    let mut supervisor = TaskSupervisor::default();
    let task_id = submit(
        &mut supervisor,
        "agent-route-filter",
        &[],
        &["different_tool"],
    );

    assert!(matches!(
        runtime.start(&mut supervisor, task_id),
        Ok(AgentRunOutcome::Completed(_))
    ));
    assert!(routes.borrow().is_empty());
}

struct NetworkScopeRecordingAdapter {
    count: Rc<Cell<usize>>,
}

impl ModelAdapter for NetworkScopeRecordingAdapter {
    type Error = &'static str;
    type Session = FinishingSession;

    fn start_session(
        &mut self,
        request: ModelStartRequest<'_>,
    ) -> Result<Self::Session, Self::Error> {
        self.count.set(request.network_destinations().len());
        Ok(FinishingSession)
    }
}

#[test]
fn exposes_only_destinations_supported_by_the_configured_network_gate() {
    let (catalog, gate) = tools(Rc::new(RefCell::new(Vec::new())));
    let unavailable_count = Rc::new(Cell::new(usize::MAX));
    let mut runtime = AgentRuntime::new(
        NetworkScopeRecordingAdapter {
            count: Rc::clone(&unavailable_count),
        },
        catalog,
        gate,
        AgentConfig::default(),
    );
    let mut supervisor = TaskSupervisor::default();
    let task_id = submit_spec(
        &mut supervisor,
        network_task("agent-network-hidden", "127.0.0.1", 443, &[]),
    );
    assert!(matches!(
        runtime.start(&mut supervisor, task_id),
        Ok(AgentRunOutcome::Completed(_))
    ));
    assert_eq!(unavailable_count.get(), 0);

    let (catalog, gate) = tools(Rc::new(RefCell::new(Vec::new())));
    let unsupported_count = Rc::new(Cell::new(usize::MAX));
    let network_gate =
        network_gate(2, &server(b""));
    let mut runtime = AgentRuntime::new(
        NetworkScopeRecordingAdapter {
            count: Rc::clone(&unsupported_count),
        },
        catalog,
        gate,
        AgentConfig::default(),
    )
    .with_network_gate(network_gate);
    let mut supervisor = TaskSupervisor::default();
    let task_id = submit_spec(
        &mut supervisor,
        network_task("agent-hostname-hidden", "api.example.com", 443, &[]),
    );
    assert!(matches!(
        runtime.start(&mut supervisor, task_id),
        Ok(AgentRunOutcome::Completed(_))
    ));
    assert_eq!(unsupported_count.get(), 0);
}

struct NetworkObservingAdapter {
    port: u16,
}

struct NetworkObservingSession {
    port: u16,
    turn: u8,
}

impl ModelAdapter for NetworkObservingAdapter {
    type Error = &'static str;
    type Session = NetworkObservingSession;

    fn start_session(
        &mut self,
        request: ModelStartRequest<'_>,
    ) -> Result<Self::Session, Self::Error> {
        let [destination] = request.network_destinations() else {
            return Err("expected one Network destination");
        };
        if destination.host != "127.0.0.1"
            || destination.transport != NetworkTransport::Tcp
            || destination.port != self.port
        {
            return Err("unexpected Network destination");
        }
        Ok(NetworkObservingSession {
            port: self.port,
            turn: 0,
        })
    }
}

impl ModelSession for NetworkObservingSession {
    type Error = &'static str;

    fn decide(&mut self, request: ModelTurnRequest<'_>) -> Result<ModelDecision, Self::Error> {
        let decision = match self.turn {
            0 if request.previous_operation_output().is_none() => ModelDecision::tcp_exchange(
                "127.0.0.1".to_owned(),
                self.port,
                b"agent request".to_vec(),
            )
            .map_err(|_| "invalid Network decision")?,
            1 if request.previous_operation_output() == Some(b"agent response".as_slice()) => {
                ModelDecision::finish("network completed".to_owned())
                    .map_err(|_| "invalid final decision")?
            }
            _ => return Err("unexpected Network observation"),
        };
        self.turn += 1;
        Ok(decision)
    }
}

struct ObservingAdapter;

struct ObservingSession {
    turn: u8,
}

impl ModelAdapter for ObservingAdapter {
    type Error = &'static str;
    type Session = ObservingSession;

    fn start_session(
        &mut self,
        request: ModelStartRequest<'_>,
    ) -> Result<Self::Session, Self::Error> {
        if request.goal() != "Run a bounded model-directed Task"
            || request.tool_routes() != ["run_tests"]
        {
            return Err("sensitive start detail");
        }
        Ok(ObservingSession { turn: 0 })
    }
}

impl ModelSession for ObservingSession {
    type Error = &'static str;

    fn decide(&mut self, request: ModelTurnRequest<'_>) -> Result<ModelDecision, Self::Error> {
        let decision = match self.turn {
            0 if request.step() == 1 && request.previous_tool_output().is_none() => {
                ModelDecision::call_tool("run_tests".to_owned(), vec!["--safe".to_owned()])
                    .map_err(|_| "invalid test decision")?
            }
            1 if request.step() == 2
                && request.previous_tool_output() == Some(b"tool-ok".as_slice()) =>
            {
                ModelDecision::finish("observed bounded output".to_owned())
                    .map_err(|_| "invalid test decision")?
            }
            _ => return Err("sensitive turn detail"),
        };
        self.turn += 1;
        Ok(decision)
    }
}

#[test]
fn routes_model_tool_request_through_catalog_and_returns_bounded_output() {
    let seen = Rc::new(RefCell::new(Vec::new()));
    let (catalog, gate) = tools(Rc::clone(&seen));
    let mut runtime =
        AgentRuntime::new(ObservingAdapter, catalog, gate, AgentConfig::default());
    let mut supervisor = TaskSupervisor::default();
    let task_id = submit(&mut supervisor, "agent-tool", &[], &["test_runner"]);

    let outcome = runtime.start(&mut supervisor, task_id).expect("run Agent");

    assert!(matches!(outcome, AgentRunOutcome::Completed(_)));
    assert_eq!(seen.borrow().as_slice(), &[vec!["--safe".to_owned()]]);
    assert_eq!(
        supervisor.get(task_id).expect("Task exists").state,
        TaskState::Succeeded
    );
}

type Turns = Rc<RefCell<Vec<(u16, Option<Vec<u8>>)>>>;

struct TurnRecordingAdapter {
    turns: Turns,
}

struct TurnRecordingSession {
    turns: Turns,
}

impl ModelAdapter for TurnRecordingAdapter {
    type Error = &'static str;
    type Session = TurnRecordingSession;

    fn start_session(
        &mut self,
        _request: ModelStartRequest<'_>,
    ) -> Result<Self::Session, Self::Error> {
        Ok(TurnRecordingSession {
            turns: Rc::clone(&self.turns),
        })
    }
}

impl ModelSession for TurnRecordingSession {
    type Error = &'static str;

    fn decide(&mut self, request: ModelTurnRequest<'_>) -> Result<ModelDecision, Self::Error> {
        let previous = request.previous_operation_output().map(|output| output.to_vec());
        self.turns.borrow_mut().push((request.step(), previous));
        ModelDecision::call_tool("run_tests".to_owned(), Vec::new())
            .map_err(|_| "invalid test decision")
    }
}

#[test]
fn steps_are_numbered_and_see_only_the_last_output() {
    let turns = Turns::default();
    let model = TurnRecordingAdapter {
        turns: Rc::clone(&turns),
    };
    let (catalog, gate) = tools(Rc::new(RefCell::new(Vec::new())));
    let config = AgentConfig::new(3, Duration::from_secs(30)).expect("valid configuration");
    let mut runtime = AgentRuntime::new(model, catalog, gate, config);
    let mut supervisor = TaskSupervisor::default();
    let task_id = submit(&mut supervisor, "agent-steps", &[], &["test_runner"]);

    assert!(matches!(
        runtime.start(&mut supervisor, task_id),
        Err(AgentError::StepLimitExceeded)
    ));
    let output = Some(b"tool-ok".to_vec());
    assert_eq!(
        turns.borrow().as_slice(),
        &[(1, None), (2, output.clone()), (3, output)]
    );
    assert_eq!(
        supervisor.get(task_id).expect("Task exists").state,
        TaskState::Failed
    );
    assert_eq!(runtime.active_task(), None);
}

#[test]
fn budget_exhaustion_stops_the_agent_and_records_the_stable_failure() {
    let model = ScriptedModelAdapter::new(vec![
        ModelDecision::call_tool("run_tests".to_owned(), Vec::new())
            .expect("valid Tool decision"),
    ])
    .expect("valid script");
    let mut builder = ToolAdapterBuilder::default();
    builder
        .register("run_tests", "test_runner", "test.run", Handler(|_| {
            Err(ToolFailure::budget_exceeded())
        }))
        .expect("register Tool");
    let (catalog, gate) = builder.build();
    let mut runtime = AgentRuntime::new(model, catalog, gate, AgentConfig::default());
    let mut supervisor = TaskSupervisor::default();
    let task_id = submit(&mut supervisor, "agent-budget", &[], &["test_runner"]);

    let error = match runtime.start(&mut supervisor, task_id) {
        Err(error) => error,
        Ok(_) => panic!("Task Budget must stop execution"),
    };

    assert!(matches!(&error, AgentError::BudgetExceeded));
    assert_eq!(error.code(), Some(ErrorCode::BudgetExceeded));
    assert_eq!(
        supervisor.get(task_id).expect("Task exists").state,
        TaskState::Failed
    );
    let events = supervisor.events(task_id, 0).expect("list events");
    assert!(events.iter().any(|event| {
        event.kind
            == TaskEventKind::TaskFailed {
                code: ErrorCode::BudgetExceeded,
            }
    }));
    assert_eq!(runtime.active_task(), None);
}

#[test]
fn approved_operation_cannot_continue_after_budget_exhaustion() {
    let model = ScriptedModelAdapter::new(vec![
        ModelDecision::call_tool("run_tests".to_owned(), Vec::new())
            .expect("valid Tool decision"),
    ])
    .expect("valid script");
    let mut builder = ToolAdapterBuilder::default();
    builder
        .register("run_tests", "test_runner", "test.run", Handler(|_| {
            Err(ToolFailure::budget_exceeded())
        }))
        .expect("register Tool");
    let (catalog, gate) = builder.build();
    let mut runtime = AgentRuntime::new(model, catalog, gate, AgentConfig::default());
    let mut supervisor = TaskSupervisor::default();
    let task_id = submit(
        &mut supervisor,
        "agent-approved-budget",
        &["test.run"],
        &["test_runner"],
    );
    let AgentRunOutcome::WaitingApproval(request) = runtime
        .start(&mut supervisor, task_id)
        .expect("wait for approval")
    else {
        panic!("expected approval wait");
    };

    assert!(matches!(
        runtime.approve_and_resume(&mut supervisor, request.approval_id),
        Err(AgentError::BudgetExceeded)
    ));
    assert_eq!(
        supervisor.get(task_id).expect("Task exists").state,
        TaskState::Failed
    );
    assert_eq!(runtime.active_task(), None);
}

#[test]
fn deadline_monitor_fails_a_task_while_approval_is_waiting() {
    let seen = Rc::new(RefCell::new(Vec::new()));
    let (catalog, gate) = tools(Rc::clone(&seen));
    let model = ScriptedModelAdapter::new(vec![
        ModelDecision::call_tool("run_tests".to_owned(), Vec::new())
            .expect("valid Tool decision"),
    ])
    .expect("valid script");
    let mut runtime = AgentRuntime::new(model, catalog, gate, AgentConfig::default());
    let mut supervisor = TaskSupervisor::default();
    let mut spec = task("agent-waiting-budget", &["test.run"], &["test_runner"]);
    spec.budget.wall_time_seconds = 1;
    let SubmitResult::Accepted(task) = supervisor.submit(spec).expect("submit Task") else {
        panic!("expected accepted Task");
    };
    assert!(matches!(
        runtime.start(&mut supervisor, task.task_id),
        Ok(AgentRunOutcome::WaitingApproval(_))
    ));
    pause(1_100);

    assert!(matches!(
        runtime.expire(&mut supervisor),
        Err(AgentError::BudgetExceeded)
    ));
    assert!(seen.borrow().is_empty());
    assert_eq!(
        supervisor.get(task.task_id).expect("Task exists").state,
        TaskState::Failed
    );
    assert_eq!(runtime.active_task(), None);
}

#[test]
fn slow_tool_cannot_reset_wall_time_between_model_turns() {
    let model = ScriptedModelAdapter::new(vec![
        ModelDecision::call_tool("run_tests".to_owned(), Vec::new())
            .expect("valid Tool decision"),
        ModelDecision::finish("must not complete".to_owned()).expect("valid final decision"),
    ])
    .expect("valid script");
    let mut builder = ToolAdapterBuilder::default();
    builder
        .register("run_tests", "test_runner", "test.run", Handler(|_| {
            pause(1_100);
            ToolOutput::from_text("late".to_owned()).map_err(|_| ToolFailure::new())
        }))
        .expect("register Tool");
    let (catalog, gate) = builder.build();
    let mut runtime = AgentRuntime::new(model, catalog, gate, AgentConfig::default());
    let mut supervisor = TaskSupervisor::default();
    let mut spec = task("agent-wall-time", &[], &["test_runner"]);
    spec.budget.wall_time_seconds = 1;
    let SubmitResult::Accepted(task) = supervisor.submit(spec).expect("submit Task") else {
        panic!("expected accepted Task");
    };

    assert!(matches!(
        runtime.start(&mut supervisor, task.task_id),
        Err(AgentError::BudgetExceeded)
    ));
    assert_eq!(
        supervisor.get(task.task_id).expect("Task exists").state,
        TaskState::Failed
    );
    assert_eq!(runtime.active_task(), None);
}

#[test]
fn denied_capability_fails_task_without_calling_handler() {
    let seen = Rc::new(RefCell::new(Vec::new()));
    let (catalog, gate) = tools(Rc::clone(&seen));
    let model = ScriptedModelAdapter::new(vec![
        ModelDecision::call_tool("run_tests".to_owned(), Vec::new()).expect("valid decision"),
    ])
    .expect("valid script");
    let mut runtime = AgentRuntime::new(model, catalog, gate, AgentConfig::default());
    let mut supervisor = TaskSupervisor::default();
    let task_id = submit(&mut supervisor, "agent-denied", &[], &["different_tool"]);

    let outcome = runtime
        .start(&mut supervisor, task_id)
        .expect("policy denial is an Agent outcome");

    assert!(matches!(outcome, AgentRunOutcome::Denied { .. }));
    assert!(seen.borrow().is_empty());
    assert_eq!(
        supervisor.get(task_id).expect("Task exists").state,
        TaskState::Failed
    );
}

#[test]
fn approval_resumes_exact_retained_operation_and_model_session() {
    let seen = Rc::new(RefCell::new(Vec::new()));
    let (catalog, gate) = tools(Rc::clone(&seen));
    let model = ScriptedModelAdapter::new(vec![
        ModelDecision::call_tool("run_tests".to_owned(), vec!["approved".to_owned()])
            .expect("valid Tool decision"),
        ModelDecision::finish("approved completion".to_owned()).expect("valid final decision"),
    ])
    .expect("valid script");
    let mut runtime = AgentRuntime::new(model, catalog, gate, AgentConfig::default());
    let mut supervisor = TaskSupervisor::default();
    let task_id = submit(
        &mut supervisor,
        "agent-approval",
        &["test.run"],
        &["test_runner"],
    );

    let AgentRunOutcome::WaitingApproval(request) = runtime
        .start(&mut supervisor, task_id)
        .expect("request approval")
    else {
        panic!("expected approval wait");
    };
    assert!(seen.borrow().is_empty());
    assert_eq!(runtime.active_task(), Some(task_id));
    assert_eq!(
        supervisor.get(task_id).expect("Task exists").state,
        TaskState::WaitingApproval
    );

    let mismatched: ApprovalId =
        ApprovalId::parse("00000000-0000-0000-0000-000000000000").expect("valid UUID");
    assert!(matches!(
        runtime.approve_and_resume(&mut supervisor, mismatched),
        Err(AgentError::InvalidState)
    ));
    assert!(seen.borrow().is_empty());

    let outcome = runtime
        .approve_and_resume(&mut supervisor, request.approval_id)
        .expect("approve and resume");
    assert!(matches!(outcome, AgentRunOutcome::Completed(_)));
    assert_eq!(seen.borrow().as_slice(), &[vec!["approved".to_owned()]]);
    assert_eq!(
        supervisor.get(task_id).expect("Task exists").state,
        TaskState::Succeeded
    );
}

#[test]
fn approval_expiration_fails_task_and_drops_model_session() {
    let (catalog, gate) = tools(Rc::new(RefCell::new(Vec::new())));
    let model = ScriptedModelAdapter::new(vec![
        ModelDecision::call_tool("run_tests".to_owned(), Vec::new()).expect("valid decision"),
    ])
    .expect("valid script");
    let config = AgentConfig::new(4, Duration::from_millis(1)).expect("valid config");
    let mut runtime = AgentRuntime::new(model, catalog, gate, config);
    let mut supervisor = TaskSupervisor::default();
    let task_id = submit(
        &mut supervisor,
        "agent-expiration",
        &["test.run"],
        &["test_runner"],
    );

    assert!(matches!(
        runtime.start(&mut supervisor, task_id),
        Ok(AgentRunOutcome::WaitingApproval(_))
    ));
    pause(5);

    assert_eq!(runtime.expire(&mut supervisor).expect("expire approval"), 1);
    assert_eq!(runtime.active_task(), None);
    assert_eq!(
        supervisor.get(task_id).expect("Task exists").state,
        TaskState::Failed
    );
}

#[test]
fn step_limit_fails_task_after_bounded_number_of_model_turns() {
    let seen = Rc::new(RefCell::new(Vec::new()));
    let (catalog, gate) = tools(Rc::clone(&seen));
    let model = ScriptedModelAdapter::new(vec![
        ModelDecision::call_tool("run_tests".to_owned(), Vec::new()).expect("first decision"),
        ModelDecision::finish("must not be reached".to_owned()).expect("second decision"),
    ])
    .expect("valid script");
    let config = AgentConfig::new(1, Duration::from_secs(30)).expect("valid config");
    let mut runtime = AgentRuntime::new(model, catalog, gate, config);
    let mut supervisor = TaskSupervisor::default();
    let task_id = submit(&mut supervisor, "agent-step-limit", &[], &["test_runner"]);

    let error = match runtime.start(&mut supervisor, task_id) {
        Err(error) => error,
        Ok(_) => panic!("step limit must fail"),
    };

    assert!(matches!(error, AgentError::StepLimitExceeded));
    assert_eq!(seen.borrow().len(), 1);
    assert_eq!(
        supervisor.get(task_id).expect("Task exists").state,
        TaskState::Failed
    );
}

/// The outcome of a run of one step with room for so many events of its task.
fn one_step_with_room_for(events: usize) -> (Result<AgentRunOutcome, AgentError>, TaskState) {
    let (catalog, gate) = tools(Rc::new(RefCell::new(Vec::new())));
    let model = ScriptedModelAdapter::new(vec![
        ModelDecision::call_tool("run_tests".to_owned(), Vec::new()).expect("decision"),
    ])
    .expect("valid script");
    let config = AgentConfig::new(1, Duration::from_secs(30)).expect("valid config");
    let mut runtime = AgentRuntime::new(model, catalog, gate, config);
    let store = InMemoryEventStore::new(events).expect("positive capacity");
    let mut supervisor = TaskSupervisor::new(store);
    let task_id = submit(&mut supervisor, "agent-room", &[], &["test_runner"]);
    let outcome = runtime.start(&mut supervisor, task_id);
    let state = supervisor.get(task_id).expect("Task exists").state;
    (outcome, state)
}

#[test]
fn runs_with_room_in_the_store_are_not_failed_by_it() {
    // Three events of the submission, one of the start, one of the step, two of the end, and
    // one to spare.
    let (outcome, state) = one_step_with_room_for(8);
    assert!(matches!(outcome, Err(AgentError::StepLimitExceeded)));
    assert_eq!(state, TaskState::Failed);

    let (outcome, state) = one_step_with_room_for(5);
    assert!(matches!(outcome, Err(AgentError::Supervisor(_))));
    assert_eq!(state, TaskState::Running);

    let (outcome, state) = one_step_with_room_for(3);
    assert!(matches!(outcome, Err(AgentError::Supervisor(_))));
    assert_eq!(state, TaskState::Queued);
}

#[test]
fn unknown_route_and_model_failure_are_redacted_and_fail_closed() {
    let (catalog, gate) = tools(Rc::new(RefCell::new(Vec::new())));
    let model = ScriptedModelAdapter::new(vec![
        ModelDecision::call_tool("unknown_route".to_owned(), Vec::new())
            .expect("syntactically valid decision"),
    ])
    .expect("valid script");
    let mut runtime = AgentRuntime::new(model, catalog, gate, AgentConfig::default());
    let mut supervisor = TaskSupervisor::default();
    let task_id = submit(&mut supervisor, "agent-unknown", &[], &["test_runner"]);

    let error = match runtime.start(&mut supervisor, task_id) {
        Err(error) => error,
        Ok(_) => panic!("unknown route must fail"),
    };
    assert!(matches!(error, AgentError::InvalidDecision));
    assert!(!error.display().contains("unknown_route"));

    let (catalog, gate) = tools(Rc::new(RefCell::new(Vec::new())));
    let model = ScriptedModelAdapter::new(vec![
        ModelDecision::call_tool("run_tests".to_owned(), Vec::new()).expect("only decision"),
    ])
    .expect("valid script");
    let mut runtime = AgentRuntime::new(model, catalog, gate, AgentConfig::default());
    let task_id = submit(&mut supervisor, "agent-model-error", &[], &["test_runner"]);
    let error = match runtime.start(&mut supervisor, task_id) {
        Err(error) => error,
        Ok(_) => panic!("exhausted model must fail"),
    };
    assert!(matches!(error, AgentError::ModelFailed));
    assert_eq!(error.display(), "model adapter failed");
    assert_eq!(
        supervisor.get(task_id).expect("Task exists").state,
        TaskState::Failed
    );
}

#[test]
fn one_active_approval_wait_bounds_concurrent_agent_sessions() {
    let (catalog, gate) = tools(Rc::new(RefCell::new(Vec::new())));
    let model = ScriptedModelAdapter::new(vec![
        ModelDecision::call_tool("run_tests".to_owned(), Vec::new()).expect("valid decision"),
    ])
    .expect("valid script");
    let mut runtime = AgentRuntime::new(model, catalog, gate, AgentConfig::default());
    let mut supervisor = TaskSupervisor::default();
    let first = submit(
        &mut supervisor,
        "agent-first",
        &["test.run"],
        &["test_runner"],
    );
    let second = submit(&mut supervisor, "agent-second", &[], &["test_runner"]);

    assert!(matches!(
        runtime.start(&mut supervisor, first),
        Ok(AgentRunOutcome::WaitingApproval(_))
    ));
    assert!(matches!(
        runtime.start(&mut supervisor, second),
        Err(AgentError::CapacityExceeded)
    ));
    assert_eq!(
        supervisor.get(second).expect("Task exists").state,
        TaskState::Queued
    );
    assert!(
        runtime
            .cancel(&mut supervisor, first)
            .expect("cancel first Task")
    );
    assert_eq!(runtime.active_task(), None);
}

fn network_gate(seconds: u64, server: &Rc<RefCell<Server>>) -> NetworkExecutionGate<Transport> {
    NetworkExecutionGate::new(
        Duration::from_secs(seconds),
        Transport(Rc::clone(server)),
    )
    .ok()
    .expect("create Network gate")
}

#[test]
fn routes_task_scoped_network_exchange_and_returns_bounded_response() {
    let server = server(b"agent response");
    let (catalog, gate) = tools(Rc::new(RefCell::new(Vec::new())));
    let mut runtime = AgentRuntime::new(
        NetworkObservingAdapter { port: 40_001 },
        catalog,
        gate,
        AgentConfig::default(),
    )
    .with_network_gate(network_gate(2, &server));
    let mut supervisor = TaskSupervisor::default();
    let task_id = submit_spec(
        &mut supervisor,
        network_task("agent-network", "127.0.0.1", 40_001, &[]),
    );

    let outcome = runtime
        .start(&mut supervisor, task_id)
        .expect("run Network Agent");

    let AgentRunOutcome::Completed(output) = outcome else {
        panic!("expected completion");
    };
    assert_eq!(output.as_str(), "network completed");
    assert_eq!(server.borrow().request, b"agent request");
    assert_eq!(
        supervisor.get(task_id).expect("Task exists").state,
        TaskState::Succeeded
    );
}

#[test]
fn network_approval_connects_only_after_exact_resume() {
    let server = server(b"agent response");
    let (catalog, gate) = tools(Rc::new(RefCell::new(Vec::new())));
    let mut runtime = AgentRuntime::new(
        NetworkObservingAdapter { port: 40_001 },
        catalog,
        gate,
        AgentConfig::default(),
    )
    .with_network_gate(network_gate(2, &server));
    let mut supervisor = TaskSupervisor::default();
    let task_id = submit_spec(
        &mut supervisor,
        network_task(
            "agent-network-approval",
            "127.0.0.1",
            40_001,
            &["network.egress"],
        ),
    );

    let AgentRunOutcome::WaitingApproval(request) = runtime
        .start(&mut supervisor, task_id)
        .expect("request Network approval")
    else {
        panic!("expected approval wait");
    };
    assert_eq!(server.borrow().connections, 0);

    let outcome = runtime
        .approve_and_resume(&mut supervisor, request.approval_id)
        .expect("approve Network operation");

    assert!(matches!(outcome, AgentRunOutcome::Completed(_)));
    assert_eq!(server.borrow().connections, 1);
    assert_eq!(
        supervisor.get(task_id).expect("Task exists").state,
        TaskState::Succeeded
    );
}

#[test]
fn network_proposal_without_configured_gate_fails_without_connecting() {
    let model = ScriptedModelAdapter::new(vec![
        ModelDecision::tcp_exchange(
            "127.0.0.1".to_owned(),
            40_001,
            b"must not connect".to_vec(),
        )
        .expect("valid Network decision"),
    ])
    .expect("valid script");
    let (catalog, gate) = tools(Rc::new(RefCell::new(Vec::new())));
    let mut runtime = AgentRuntime::new(model, catalog, gate, AgentConfig::default());
    let mut supervisor = TaskSupervisor::default();
    let task_id = submit_spec(
        &mut supervisor,
        network_task("agent-network-unavailable", "127.0.0.1", 40_001, &[]),
    );

    assert!(matches!(
        runtime.start(&mut supervisor, task_id),
        Err(AgentError::InvalidDecision)
    ));
    assert_eq!(
        supervisor.get(task_id).expect("Task exists").state,
        TaskState::Failed
    );
}

#[test]
fn denied_network_destination_never_connects() {
    let server = server(b"");
    let model = ScriptedModelAdapter::new(vec![
        ModelDecision::tcp_exchange("127.0.0.1".to_owned(), 40_001, b"denied".to_vec())
            .expect("valid Network decision"),
    ])
    .expect("valid script");
    let (catalog, gate) = tools(Rc::new(RefCell::new(Vec::new())));
    let mut runtime = AgentRuntime::new(model, catalog, gate, AgentConfig::default())
        .with_network_gate(network_gate(2, &server));
    let mut supervisor = TaskSupervisor::default();
    let task_id = submit_spec(
        &mut supervisor,
        network_task("agent-network-denied", "127.0.0.1", 40_002, &[]),
    );

    let outcome = runtime
        .start(&mut supervisor, task_id)
        .expect("policy denial is an Agent outcome");

    assert!(matches!(outcome, AgentRunOutcome::Denied { .. }));
    assert_eq!(server.borrow().connections, 0);
}

#[test]
fn network_budget_failure_records_terminal_budget_event() {
    let server = server(b"");
    server.borrow_mut().stall_millis = 1_500;
    let model = ScriptedModelAdapter::new(vec![
        ModelDecision::tcp_exchange(
            "127.0.0.1".to_owned(),
            40_001,
            b"bounded request".to_vec(),
        )
        .expect("valid Network decision"),
    ])
    .expect("valid script");
    let (catalog, gate) = tools(Rc::new(RefCell::new(Vec::new())));
    let mut runtime = AgentRuntime::new(model, catalog, gate, AgentConfig::default())
        .with_network_gate(network_gate(5, &server));
    let mut supervisor = TaskSupervisor::default();
    let mut spec = network_task("agent-network-budget", "127.0.0.1", 40_001, &[]);
    spec.budget.wall_time_seconds = 1;
    let task_id = submit_spec(&mut supervisor, spec);

    assert!(matches!(
        runtime.start(&mut supervisor, task_id),
        Err(AgentError::BudgetExceeded)
    ));
    assert_eq!(
        supervisor.get(task_id).expect("Task exists").state,
        TaskState::Failed
    );
    assert!(
        supervisor
            .events(task_id, 0)
            .expect("list Events")
            .iter()
            .any(|event| event.kind
                == TaskEventKind::TaskFailed {
                    code: ErrorCode::BudgetExceeded,
                })
    );
}

#[test]
fn configurations_are_bounded() {
    assert!(matches!(
        AgentConfig::new(0, Duration::from_secs(30)),
        Err(AgentError::InvalidConfig)
    ));
    assert!(matches!(
        AgentConfig::new(MAX_MODEL_STEPS + 1, Duration::from_secs(30)),
        Err(AgentError::InvalidConfig)
    ));
    assert!(matches!(
        AgentConfig::new(1, Duration::from_nanos(999_999)),
        Err(AgentError::InvalidConfig)
    ));
    assert!(AgentConfig::new(MAX_MODEL_STEPS, Duration::from_millis(1)).is_ok());
}

#[test]
fn denial_and_cancellation_end_the_session() {
    for cancel in [false, true] {
        let seen = Rc::new(RefCell::new(Vec::new()));
        let (catalog, gate) = tools(Rc::clone(&seen));
        let model = ScriptedModelAdapter::new(vec![
            ModelDecision::call_tool("run_tests".to_owned(), Vec::new())
                .expect("valid decision"),
        ])
        .expect("valid script");
        let mut runtime = AgentRuntime::new(model, catalog, gate, AgentConfig::default());
        let mut supervisor = TaskSupervisor::default();
        let task_id = submit(
            &mut supervisor,
            "agent-ended",
            &["test.run"],
            &["test_runner"],
        );
        let AgentRunOutcome::WaitingApproval(request) = runtime
            .start(&mut supervisor, task_id)
            .expect("wait for approval")
        else {
            panic!("expected approval wait");
        };

        if cancel {
            assert_eq!(runtime.cancel(&mut supervisor, task_id), Ok(true));
        } else {
            assert_eq!(runtime.deny(&mut supervisor, request.approval_id), Ok(()));
        }
        assert_eq!(runtime.active_task(), None);
        assert!(supervisor.get(task_id).expect("Task exists").state.is_terminal());
        assert!(seen.borrow().is_empty());
    }
}

#[test]
fn outputs_are_bounded_texts() {
    let output = AgentOutput::from_text("done".to_owned()).ok().expect("short text");
    assert_eq!(output.as_str(), "done");
    assert_eq!(output.into_string(), "done");
    assert!(AgentOutput::from_text("a\0b".to_owned()).is_err());
    assert!(ScriptedModelAdapter::new(Vec::new()).is_err());
}
