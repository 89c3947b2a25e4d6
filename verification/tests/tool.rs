//! Registered tools.

use std::cell::RefCell;
use std::rc::Rc;

use aios::execution::{ExecutionError, ExecutionOutcome};
use aios::ids::TaskId;
use aios::state::TaskState;
use aios::supervisor::{SubmitResult, TaskSupervisor};
use aios::task::{ApprovalPolicy, Budget, CapabilitySet, NetworkPolicy, TaskSpec};
use aios::time::Duration;
use aios::tool::{
    MAX_ARGUMENT_BYTES, MAX_ARGUMENTS, MAX_OUTPUT_BYTES, ToolAdapterBuilder, ToolAdapterError,
    ToolCatalog, ToolExecutionGate, ToolFailure, ToolHandler, ToolOutput,
};

struct Handler<F>(F);

impl<F> ToolHandler for Handler<F>
where
    F: FnMut(Vec<String>) -> Result<ToolOutput, ToolFailure>,
{
    fn execute(&mut self, arguments: Vec<String>) -> Result<ToolOutput, ToolFailure> {
        (self.0)(arguments)
    }
}

fn quiet(_: Vec<String>) -> Result<ToolOutput, ToolFailure> {
    ToolOutput::from_text(String::new()).map_err(|_| ToolFailure::new())
}

fn task(required_for: &[&str], tools: &[&str]) -> TaskSpec {
    TaskSpec {
        idempotency_key: "tool-adapter-test".to_owned(),
        goal: "Run one registered Tool handler".to_owned(),
        capabilities: CapabilitySet {
            filesystem: Vec::new(),
            network: NetworkPolicy::Deny,
            tools: tools.iter().map(|tool| (*tool).to_owned()).collect(),
        },
        budget: Budget {
            wall_time_seconds: 60,
            memory_bytes: 64 * 1024 * 1024,
            max_parallel_agents: 1,
        },
        approval: ApprovalPolicy {
            required_for: required_for
                .iter()
                .map(|action| (*action).to_owned())
                .collect(),
        },
    }
}

fn running_supervisor(
    required_for: &[&str],
    tools: &[&str],
) -> (TaskSupervisor, TaskId) {
    let mut supervisor = TaskSupervisor::default();
    let SubmitResult::Accepted(task) = supervisor
        .submit(task(required_for, tools))
        .expect("submit Task")
    else {
        panic!("expected accepted Task");
    };
    supervisor.start(task.task_id).expect("start Task");
    (supervisor, task.task_id)
}

fn configured_adapter(
    seen: Rc<RefCell<Vec<Vec<String>>>>,
) -> (ToolCatalog, ToolExecutionGate<impl ToolHandler>) {
    let mut builder = ToolAdapterBuilder::default();
    builder
        .register(
            "run_tests",
            "test_runner",
            "test.run",
            Handler(move |arguments: Vec<String>| {
                seen.borrow_mut().push(arguments);
                ToolOutput::from_text("passed".to_owned()).map_err(|_| ToolFailure::new())
            }),
        )
        .expect("register Tool");
    builder.build()
}

#[test]
fn executes_registered_route_without_interpreting_arguments() {
    let seen = Rc::new(RefCell::new(Vec::new()));
    let (catalog, mut gate) = configured_adapter(Rc::clone(&seen));
    let (mut supervisor, task_id) = running_supervisor(&[], &["test_runner"]);
    let operation = catalog
        .prepare(
            "run_tests",
            vec!["--filter=a b".to_owned(), "literal;$value".to_owned()],
        )
        .ok().expect("prepare Tool");

    let result = gate
        .request(&mut supervisor, task_id, operation, Duration::from_secs(30))
        .ok().expect("execute Tool");

    let ExecutionOutcome::Executed(executed) = result else {
        panic!("expected execution");
    };
    assert_eq!(executed.output.as_bytes(), b"passed");
    assert_eq!(
        seen.borrow().as_slice(),
        &[vec!["--filter=a b".to_owned(), "literal;$value".to_owned()]]
    );
}

#[test]
fn approval_executes_only_the_catalog_prepared_operation() {
    let seen = Rc::new(RefCell::new(Vec::new()));
    let (catalog, mut gate) = configured_adapter(Rc::clone(&seen));
    let (mut supervisor, task_id) = running_supervisor(&["test.run"], &["test_runner"]);
    let operation = catalog
        .prepare("run_tests", vec!["original".to_owned()])
        .ok().expect("prepare Tool");
    let ExecutionOutcome::ApprovalRequired(request) = gate
        .request(&mut supervisor, task_id, operation, Duration::from_secs(30))
        .ok().expect("request approval")
    else {
        panic!("expected approval request");
    };

    let executed = gate
        .approve_and_execute(&mut supervisor, request.approval_id)
        .ok().expect("approve and execute");

    assert_eq!(executed.output.as_bytes(), b"passed");
    assert_eq!(seen.borrow().as_slice(), &[vec!["original".to_owned()]]);
    assert_eq!(gate.pending_count(), 0);
}

#[test]
fn capability_denial_never_calls_handler() {
    let seen = Rc::new(RefCell::new(Vec::new()));
    let (catalog, mut gate) = configured_adapter(Rc::clone(&seen));
    let (mut supervisor, task_id) = running_supervisor(&[], &["different_tool"]);
    let operation = catalog
        .prepare("run_tests", Vec::new())
        .ok().expect("prepare Tool");

    let result = gate
        .request(&mut supervisor, task_id, operation, Duration::from_secs(30))
        .ok().expect("deny Tool");

    assert!(matches!(result, ExecutionOutcome::Denied { .. }));
    assert!(seen.borrow().is_empty());
}

#[test]
fn rejects_unknown_duplicate_and_excess_routes_without_echoing_values() {
    let builder: ToolAdapterBuilder = ToolAdapterBuilder::new(1).ok().expect("valid limit");
    let (catalog, _) = builder.build();
    let Err(error) = catalog.prepare("secret-route", Vec::new()) else {
        panic!("unknown route must fail");
    };
    assert_eq!(error, ToolAdapterError::RouteNotFound);
    assert!(!error.display().contains("secret-route"));

    let mut builder = ToolAdapterBuilder::new(1).ok().expect("valid limit");
    builder
        .register("route", "tool", "action", Handler(quiet))
        .expect("register route");
    assert_eq!(
        builder.register("route", "tool", "action", Handler(quiet)),
        Err(ToolAdapterError::DuplicateRoute)
    );
    assert_eq!(
        builder.register("second", "tool", "action", Handler(quiet)),
        Err(ToolAdapterError::CapacityExceeded)
    );
}

#[test]
fn rejects_unbounded_or_nul_arguments() {
    let (catalog, _) = configured_adapter(Rc::new(RefCell::new(Vec::new())));

    assert!(matches!(
        catalog.prepare("run_tests", vec![String::new(); MAX_ARGUMENTS + 1]),
        Err(ToolAdapterError::InvalidArguments)
    ));
    assert!(matches!(
        catalog.prepare("run_tests", vec!["x".repeat(MAX_ARGUMENT_BYTES + 1)]),
        Err(ToolAdapterError::InvalidArguments)
    ));
    assert!(matches!(
        catalog.prepare("run_tests", vec!["before\0after".to_owned()]),
        Err(ToolAdapterError::InvalidArguments)
    ));
}

#[test]
fn rejects_oversized_output_and_redacts_handler_failure() {
    assert_eq!(
        ToolOutput::from_bytes(vec![0; MAX_OUTPUT_BYTES + 1]).err(),
        Some(ToolAdapterError::OutputTooLarge)
    );

    let mut builder = ToolAdapterBuilder::default();
    builder
        .register("fail", "test_runner", "test.run", Handler(|_| {
            Err(ToolFailure::new())
        }))
        .expect("register Tool");
    let (catalog, mut gate) = builder.build();
    let (mut supervisor, task_id) = running_supervisor(&[], &["test_runner"]);
    let operation = catalog.prepare("fail", Vec::new()).ok().expect("prepare Tool");

    let error = match gate.request(&mut supervisor, task_id, operation, Duration::from_secs(30))
    {
        Err(error) => error,
        Ok(_) => panic!("handler must fail"),
    };

    assert_eq!(error.display(), "adapter execution failed");
}

#[test]
fn rejects_invalid_builder_configuration_and_registration() {
    assert!(matches!(
        ToolAdapterBuilder::<Box<dyn ToolHandler>>::new(0),
        Err(ToolAdapterError::InvalidConfig)
    ));
    let mut builder = ToolAdapterBuilder::default();
    assert_eq!(
        builder.register("bad route", "tool", "action", Handler(quiet)),
        Err(ToolAdapterError::InvalidRegistration)
    );
}

#[test]
fn adapter_rejects_operation_from_a_different_catalog_scope() {
    let mut first = ToolAdapterBuilder::default();
    first
        .register("route", "test_runner", "test.run", Handler(|_| {
            ToolOutput::from_text("first".to_owned()).map_err(|_| ToolFailure::new())
        }))
        .expect("register first Tool");
    let (catalog, _) = first.build();

    let called = Rc::new(RefCell::new(false));
    let called_by_handler = Rc::clone(&called);
    let mut second = ToolAdapterBuilder::default();
    second
        .register("route", "test_runner", "test.write", Handler(move |_| {
            *called_by_handler.borrow_mut() = true;
            ToolOutput::from_text("second".to_owned()).map_err(|_| ToolFailure::new())
        }))
        .expect("register second Tool");
    let (_, mut gate) = second.build();
    let (mut supervisor, task_id) = running_supervisor(&[], &["test_runner"]);
    let operation = catalog.prepare("route", Vec::new()).ok().expect("prepare Tool");

    let result = gate.request(&mut supervisor, task_id, operation, Duration::from_secs(30));

    assert!(matches!(
        result,
        Err(ExecutionError::Adapter(ToolAdapterError::ScopeMismatch))
    ));
    assert!(!*called.borrow());
}

#[test]
fn only_routes_of_granted_tools_are_named() {
    let mut builder = ToolAdapterBuilder::default();
    for (route, tool) in [("b_route", "git"), ("a_route", "git"), ("c_route", "shell")] {
        builder
            .register(
                route,
                tool,
                "action",
                Handler(|_: Vec<String>| Err(ToolFailure::new())),
            )
            .expect("register Tool");
    }
    let (catalog, gate) = builder.build();

    assert_eq!(catalog.route_count(), 3);
    assert_eq!(gate.pending_count(), 0);
    assert_eq!(
        catalog.route_names_for_tools(&vec!["git".to_owned()]),
        vec!["a_route".to_owned(), "b_route".to_owned()]
    );
    assert!(catalog.route_names_for_tools(&Vec::new()).is_empty());
}

#[test]
fn outputs_give_their_bytes_back() {
    let output = ToolOutput::from_text("caf\u{00e9}".to_owned())
        .ok()
        .expect("short output");
    assert_eq!(output.as_bytes(), "caf\u{00e9}".as_bytes());
    assert_eq!(output.into_bytes(), vec![99, 97, 102, 0xc3, 0xa9]);
    assert_eq!(ToolFailure::new().display(), "tool handler failed");
}

#[test]
fn denial_expiry_and_cancellation_drop_prepared_operations() {
    let seen = Rc::new(RefCell::new(Vec::new()));
    let (catalog, mut gate) = configured_adapter(Rc::clone(&seen));
    let (mut supervisor, task_id) = running_supervisor(&["test.run"], &["test_runner"]);
    let operation = catalog.prepare("run_tests", Vec::new()).ok().expect("prepare Tool");
    let ExecutionOutcome::ApprovalRequired(request) = gate
        .request(&mut supervisor, task_id, operation, Duration::from_secs(30))
        .ok()
        .expect("request approval")
    else {
        panic!("expected approval request");
    };
    assert_eq!(gate.pending_count(), 1);
    assert_eq!(gate.expire(&mut supervisor).ok(), Some(0));
    let task = gate
        .deny(&mut supervisor, request.approval_id)
        .ok()
        .expect("deny Tool");
    assert_eq!(task.state, TaskState::Failed);
    assert_eq!(gate.pending_count(), 0);
    assert_eq!(gate.cancel(&mut supervisor, task_id).ok(), Some(false));
    assert!(seen.borrow().is_empty());
}

fn saying(text: &'static str, calls: &Rc<RefCell<Vec<&'static str>>>) -> Box<dyn ToolHandler> {
    let calls = Rc::clone(calls);
    Box::new(Handler(move |_: Vec<String>| {
        calls.borrow_mut().push(text);
        ToolOutput::from_text(text.to_owned()).map_err(|_| ToolFailure::new())
    }))
}

#[test]
fn each_route_runs_the_handler_that_was_registered_for_it() {
    let calls = Rc::new(RefCell::new(Vec::new()));
    let mut builder = ToolAdapterBuilder::default();
    for (route, text) in [("middle", "m"), ("first", "f"), ("last", "l")] {
        builder
            .register(route, "test_runner", "test.run", saying(text, &calls))
            .expect("register Tool");
    }
    assert_eq!(
        builder.register("first", "test_runner", "test.run", saying("x", &calls)),
        Err(ToolAdapterError::DuplicateRoute)
    );
    let (catalog, mut gate) = builder.build();
    let (mut supervisor, task_id) = running_supervisor(&[], &["test_runner"]);

    for (route, text) in [("last", "l"), ("first", "f"), ("middle", "m"), ("first", "f")] {
        let operation = catalog.prepare(route, Vec::new()).ok().expect("prepare Tool");
        let ExecutionOutcome::Executed(executed) = gate
            .request(&mut supervisor, task_id, operation, Duration::from_secs(30))
            .ok()
            .expect("execute Tool")
        else {
            panic!("expected execution");
        };
        assert_eq!(executed.output.as_bytes(), text.as_bytes());
    }
    assert_eq!(calls.borrow().as_slice(), ["l", "f", "m", "f"]);
}
