//! Bounded TCP exchanges.

use std::cell::RefCell;
use std::rc::Rc;
use std::time::Instant;

use aios::execution::{ExecutionError, ExecutionOutcome};
use aios::ids::TaskId;
use aios::network::{
    ExchangeAction, ExchangeEvent, MAX_NETWORK_HOST_BYTES,
    MAX_NETWORK_TIMEOUT_SECONDS, MAX_TCP_REQUEST_BYTES, MAX_TCP_RESPONSE_BYTES,
    NetworkAdapterError, NetworkCatalog, NetworkExecutionGate, TcpExchange, TcpExchangeOperation,
    TcpTransport,
};
use aios::supervisor::{SubmitResult, TaskSupervisor};
use aios::task::{
    ApprovalPolicy, Budget, CapabilitySet, NetworkDestination, NetworkPolicy, NetworkTransport,
    TaskSpec,
};
use aios::time::Duration;

#[derive(Default)]
struct Server {
    connections: usize,
    port: u16,
    request: Vec<u8>,
    response: Vec<u8>,
    sent: usize,
    closed: bool,
    stall_millis: u64,
    steps: usize,
    fail_at: Option<usize>,
    other_peer: bool,
}

struct Transport(Rc<RefCell<Server>>);

impl TcpTransport for Transport {
    fn perform(&mut self, action: ExchangeAction, request: &Vec<u8>) -> ExchangeEvent {
        let mut server = self.0.borrow_mut();
        server.steps += 1;
        if server.fail_at == Some(server.steps) {
            return ExchangeEvent::Failed;
        }
        match action {
            ExchangeAction::Connect { address, port, .. } => {
                if port != server.port {
                    return ExchangeEvent::Failed;
                }
                server.connections += 1;
                ExchangeEvent::Connected {
                    peer: Some((address, if server.other_peer { port + 1 } else { port })),
                }
            }
            ExchangeAction::SetWriteTimeout { .. } | ExchangeAction::SetReadTimeout { .. } => {
                ExchangeEvent::TimeoutSet
            }
            ExchangeAction::Write { offset } => {
                let end = request.len().min(offset + 5);
                server.request.extend_from_slice(&request[offset..end]);
                ExchangeEvent::Written {
                    count: end - offset,
                }
            }
            ExchangeAction::ShutdownWrite => {
                server.closed = true;
                ExchangeEvent::WriteShutDown
            }
            ExchangeAction::Read { limit } => {
                pause(server.stall_millis);
                let end = server.response.len().min(server.sent + limit);
                let bytes = server.response[server.sent..end].to_vec();
                server.sent = end;
                ExchangeEvent::Received { bytes }
            }
        }
    }
}

fn server(response: &[u8]) -> Rc<RefCell<Server>> {
    Rc::new(RefCell::new(Server {
        port: 40_001,
        response: response.to_vec(),
        ..Server::default()
    }))
}

fn pause(millis: u64) {
    let start = Instant::now();
    while start.elapsed().as_millis() < u128::from(millis) {}
}

fn task(host: &str, port: u16, required_for: &[&str]) -> TaskSpec {
    TaskSpec {
        idempotency_key: format!("network-adapter-{}", TaskId::new().display()),
        goal: "Perform one bounded TCP exchange".to_owned(),
        capabilities: CapabilitySet {
            filesystem: Vec::new(),
            network: NetworkPolicy::Allow {
                destinations: vec![NetworkDestination {
                    host: host.to_owned(),
                    transport: NetworkTransport::Tcp,
                    port,
                }],
            },
            tools: Vec::new(),
        },
        budget: Budget {
            wall_time_seconds: 60,
            memory_bytes: 64 * 1_024 * 1_024,
            max_parallel_agents: 1,
        },
        approval: ApprovalPolicy {
            required_for: required_for
                .iter()
                .map(|action| (*action).to_owned())
                .collect(),
        },
    }
}

fn running_supervisor(
    host: &str,
    port: u16,
    required_for: &[&str],
) -> (TaskSupervisor, TaskId) {
    running_supervisor_with_wall_time(host, port, required_for, 60)
}

fn running_supervisor_with_wall_time(
    host: &str,
    port: u16,
    required_for: &[&str],
    wall_time_seconds: u64,
) -> (TaskSupervisor, TaskId) {
    let mut supervisor = TaskSupervisor::default();
    let mut spec = task(host, port, required_for);
    spec.budget.wall_time_seconds = wall_time_seconds;
    let SubmitResult::Accepted(task) = supervisor.submit(spec).expect("submit Task") else {
        panic!("expected accepted Task");
    };
    supervisor.start(task.task_id).expect("start Task");
    (supervisor, task.task_id)
}

fn alternate_port(port: u16) -> u16 {
    if port == u16::MAX { port - 1 } else { port + 1 }
}

#[test]
fn catalog_accepts_ip_destinations_and_bounded_requests() {
    let catalog = NetworkCatalog::new();
    for host in ["127.0.0.1", "::1"] {
        assert!(
            catalog
                .prepare_tcp_exchange(host.to_owned(), 443, b"request".to_vec())
                .is_ok()
        );
    }
}

#[test]
fn catalog_rejects_hostnames_unsafe_addresses_and_invalid_bounds() {
    let catalog = NetworkCatalog::new();
    for host in [
        "api.example.com",
        "0.0.0.0",
        "::",
        "224.0.0.1",
        "ff02::1",
        "255.255.255.255",
    ] {
        assert!(matches!(
            catalog.prepare_tcp_exchange(host.to_owned(), 443, Vec::new()),
            Err(NetworkAdapterError::UnsupportedDestination)
        ));
    }
    assert!(matches!(
        catalog.prepare_tcp_exchange(String::new(), 443, Vec::new()),
        Err(NetworkAdapterError::InvalidOperation)
    ));
    assert!(matches!(
        catalog.prepare_tcp_exchange("1".repeat(MAX_NETWORK_HOST_BYTES + 1), 443, Vec::new(),),
        Err(NetworkAdapterError::InvalidOperation)
    ));
    assert!(matches!(
        catalog.prepare_tcp_exchange("127.0.0.1".to_owned(), 0, Vec::new()),
        Err(NetworkAdapterError::InvalidOperation)
    ));
    assert!(matches!(
        catalog.prepare_tcp_exchange(
            "127.0.0.1".to_owned(),
            443,
            vec![0; MAX_TCP_REQUEST_BYTES + 1],
        ),
        Err(NetworkAdapterError::InvalidOperation)
    ));
}

#[test]
fn gate_rejects_zero_and_excessive_timeouts() {
    assert!(matches!(
        NetworkExecutionGate::new(Duration::from_nanos(0), Transport(server(b""))),
        Err(NetworkAdapterError::InvalidConfig)
    ));
    assert!(matches!(
        NetworkExecutionGate::new(
            Duration::from_nanos(Duration::from_secs(MAX_NETWORK_TIMEOUT_SECONDS).nanos + 1),
            Transport(server(b"")),
        ),
        Err(NetworkAdapterError::InvalidConfig)
    ));
}

fn exchange_gate(seconds: u64, server: &Rc<RefCell<Server>>) -> NetworkExecutionGate<Transport> {
    NetworkExecutionGate::new(
        Duration::from_secs(seconds),
        Transport(Rc::clone(server)),
    )
    .ok()
    .expect("create network gate")
}

fn exchange(port: u16, request: &[u8]) -> TcpExchangeOperation {
    NetworkCatalog::new()
        .prepare_tcp_exchange("127.0.0.1".to_owned(), port, request.to_vec())
        .ok()
        .expect("prepare exchange")
}

#[test]
fn executes_exact_ip_and_port_without_exposing_socket() {
    let server = server(b"bounded response");
    let mut gate = exchange_gate(2, &server);
    let (mut supervisor, task_id) = running_supervisor("127.0.0.1", 40_001, &[]);

    let result = gate
        .request(
            &mut supervisor,
            task_id,
            exchange(40_001, b"exact request"),
            Duration::from_secs(30),
        )
        .ok()
        .expect("execute exchange");
    let ExecutionOutcome::Executed(executed) = result else {
        panic!("expected execution");
    };

    assert_eq!(executed.output.as_bytes(), b"bounded response");
    assert_eq!(server.borrow().request, b"exact request");
    assert!(server.borrow().closed);
    assert_eq!(server.borrow().connections, 1);
}

#[test]
fn approval_retains_exchange_without_connecting_early() {
    let server = server(b"approved response");
    let mut gate = exchange_gate(2, &server);
    let (mut supervisor, task_id) = running_supervisor("127.0.0.1", 40_001, &["network.egress"]);

    let result = gate
        .request(
            &mut supervisor,
            task_id,
            exchange(40_001, b"approved request"),
            Duration::from_secs(30),
        )
        .ok()
        .expect("request approval");
    let ExecutionOutcome::ApprovalRequired(request) = result else {
        panic!("expected approval request");
    };
    assert_eq!(server.borrow().connections, 0);

    let executed = gate
        .approve_and_execute(&mut supervisor, request.approval_id)
        .ok()
        .expect("approve and execute");

    assert_eq!(executed.output.as_bytes(), b"approved response");
    assert_eq!(server.borrow().request, b"approved request");
    assert_eq!(gate.pending_count(), 0);
}

#[test]
fn waiting_for_approval_cannot_reset_the_wall_time_of_an_exchange() {
    let server = server(b"");
    let mut gate = exchange_gate(5, &server);
    let (mut supervisor, task_id) =
        running_supervisor_with_wall_time("127.0.0.1", 40_001, &["network.egress"], 1);
    let result = gate
        .request(
            &mut supervisor,
            task_id,
            exchange(40_001, b"must not be sent"),
            Duration::from_secs(30),
        )
        .ok()
        .expect("request approval");
    let ExecutionOutcome::ApprovalRequired(request) = result else {
        panic!("expected approval request");
    };
    pause(1_100);

    let result = gate.approve_and_execute(&mut supervisor, request.approval_id);

    assert!(matches!(
        result,
        Err(ExecutionError::Adapter(NetworkAdapterError::BudgetExceeded))
    ));
    assert_eq!(server.borrow().connections, 0);
    assert_eq!(gate.pending_count(), 0);
}

#[test]
fn task_wall_time_bounds_an_in_flight_read() {
    let server = server(b"");
    server.borrow_mut().stall_millis = 1_500;
    let mut gate = exchange_gate(5, &server);
    let (mut supervisor, task_id) =
        running_supervisor_with_wall_time("127.0.0.1", 40_001, &[], 1);

    let result = gate.request(
        &mut supervisor,
        task_id,
        exchange(40_001, b"request"),
        Duration::from_secs(30),
    );

    assert!(matches!(
        result,
        Err(ExecutionError::Adapter(NetworkAdapterError::BudgetExceeded))
    ));
}

#[test]
fn denied_port_never_connects() {
    let server = server(b"");
    let mut gate = exchange_gate(2, &server);
    let (mut supervisor, task_id) =
        running_supervisor("127.0.0.1", alternate_port(40_001), &[]);

    let result = gate
        .request(
            &mut supervisor,
            task_id,
            exchange(40_001, b""),
            Duration::from_secs(30),
        )
        .ok()
        .expect("evaluate exchange");

    assert!(matches!(result, ExecutionOutcome::Denied { .. }));
    assert_eq!(server.borrow().connections, 0);
}

#[test]
fn rejects_response_above_the_bounded_limit() {
    let server = server(&vec![b'x'; MAX_TCP_RESPONSE_BYTES + 1]);
    let mut gate = exchange_gate(2, &server);
    let (mut supervisor, task_id) = running_supervisor("127.0.0.1", 40_001, &[]);

    let result = gate.request(
        &mut supervisor,
        task_id,
        exchange(40_001, b""),
        Duration::from_secs(30),
    );

    assert!(matches!(
        result,
        Err(ExecutionError::Adapter(
            NetworkAdapterError::ResponseTooLarge
        ))
    ));
}

#[test]
fn accepts_a_response_at_the_bounded_limit() {
    let server = server(&vec![b'x'; MAX_TCP_RESPONSE_BYTES]);
    let mut gate = exchange_gate(2, &server);
    let (mut supervisor, task_id) = running_supervisor("127.0.0.1", 40_001, &[]);

    let Ok(ExecutionOutcome::Executed(executed)) = gate.request(
        &mut supervisor,
        task_id,
        exchange(40_001, b""),
        Duration::from_secs(30),
    ) else {
        panic!("expected execution");
    };
    assert_eq!(executed.output.into_bytes().len(), MAX_TCP_RESPONSE_BYTES);
}

#[test]
fn every_failure_of_the_transport_has_its_category() {
    for (step, expected) in [
        (1, NetworkAdapterError::ConnectFailed),
        (2, NetworkAdapterError::SocketConfigurationFailed),
        (3, NetworkAdapterError::WriteFailed),
        (4, NetworkAdapterError::WriteFailed),
        (5, NetworkAdapterError::SocketConfigurationFailed),
        (6, NetworkAdapterError::ReadFailed),
    ] {
        let server = server(b"answer");
        server.borrow_mut().fail_at = Some(step);
        let mut gate = exchange_gate(2, &server);
        let (mut supervisor, task_id) = running_supervisor("127.0.0.1", 40_001, &[]);
        let Err(ExecutionError::Adapter(error)) = gate.request(
            &mut supervisor,
            task_id,
            exchange(40_001, b"ask"),
            Duration::from_secs(30),
        ) else {
            panic!("expected a failure of the adapter");
        };
        assert_eq!(error, expected);
        assert_eq!(server.borrow().steps, step);
    }
}

#[test]
fn another_peer_is_not_talked_to() {
    let server = server(b"answer");
    server.borrow_mut().other_peer = true;
    let mut gate = exchange_gate(2, &server);
    let (mut supervisor, task_id) = running_supervisor("127.0.0.1", 40_001, &[]);

    assert!(matches!(
        gate.request(
            &mut supervisor,
            task_id,
            exchange(40_001, b"ask"),
            Duration::from_secs(30),
        ),
        Err(ExecutionError::Adapter(NetworkAdapterError::PeerMismatch))
    ));
    assert!(server.borrow().request.is_empty());
}

#[test]
fn an_exchange_without_a_task_does_not_begin() {
    assert_eq!(
        TcpExchange::begin(exchange(40_001, b"ask"), Duration::from_secs(2), 0).err(),
        Some(NetworkAdapterError::ScopeMismatch)
    );
}
