//! IP-bound bounded TCP network adapter.
//!
//! The adapter performs one deliberately narrow operation: connect directly to one explicit
//! IP address and TCP port, write bounded bytes, close the write half, read a bounded
//! response, and close the socket. It does not resolve names, interpret application
//! protocols, follow redirects, use proxies, negotiate TLS, expose a socket, or accept
//! inbound connections.
//!
//! The exchange is a state machine, [`TcpExchange`]; the sockets themselves stand behind
//! [`TcpTransport`].

use vstd::prelude::*;

use crate::event;
use crate::event::EventStore;
use crate::execution;
use crate::execution::{
    Executed, ExecutionAdapter, ExecutionError, ExecutionGate, ExecutionOutcome, GateModel,
    GuardedOperation, RetainedModel,
};
use crate::ids::{ApprovalId, TaskId};
use crate::ip;
use crate::ip::{IpAddress, IpModel, parse_ip};
use crate::policy::{CapabilityRequest, RequestModel};
use crate::recovery::TaskSnapshot;
use crate::state::TaskState;
use crate::supervisor;
use crate::supervisor::{TaskExecutionContext, TaskSupervisor};
use crate::task::NetworkTransport;
use crate::text;
use crate::time::{Duration, NANOS_PER_SECOND};

verus! {

pub const MAX_NETWORK_HOST_BYTES: usize = 253;

pub const MAX_TCP_REQUEST_BYTES: usize = 65_536;

pub const MAX_TCP_RESPONSE_BYTES: usize = 1_048_576;

pub const MAX_NETWORK_TIMEOUT_SECONDS: u64 = 30;

pub const READ_BUFFER_BYTES: usize = 8_192;

/// Stable, redacted network adapter failure categories.
#[derive(Clone, Copy, Debug, PartialEq, Eq, Structural)]
pub enum NetworkAdapterError {
    InvalidConfig,
    InvalidOperation,
    UnsupportedDestination,
    ScopeMismatch,
    BudgetExceeded,
    ConnectFailed,
    SocketConfigurationFailed,
    PeerMismatch,
    WriteFailed,
    ReadFailed,
    ResponseTooLarge,
}

impl NetworkAdapterError {
    /// The text of the failure.
    pub open spec fn text(self) -> Seq<char> {
        match self {
            NetworkAdapterError::InvalidConfig => "invalid Network Adapter configuration"@,
            NetworkAdapterError::InvalidOperation => "invalid network operation"@,
            NetworkAdapterError::UnsupportedDestination => "network destination is unsupported"@,
            NetworkAdapterError::ScopeMismatch
            => "network operation scope does not match the Task"@,
            NetworkAdapterError::BudgetExceeded => "network operation exceeded the Task Budget"@,
            NetworkAdapterError::ConnectFailed => "network connection failed"@,
            NetworkAdapterError::SocketConfigurationFailed
            => "network socket configuration failed"@,
            NetworkAdapterError::PeerMismatch => "network peer verification failed"@,
            NetworkAdapterError::WriteFailed => "network write failed"@,
            NetworkAdapterError::ReadFailed => "network read failed"@,
            NetworkAdapterError::ResponseTooLarge => "network response exceeded its limit"@,
        }
    }

    /// The text of the failure.
    #[must_use]
    pub fn display(&self) -> (r: &'static str)
        ensures
            r@ == self.text(),
    {
        match self {
            NetworkAdapterError::InvalidConfig => "invalid Network Adapter configuration",
            NetworkAdapterError::InvalidOperation => "invalid network operation",
            NetworkAdapterError::UnsupportedDestination => "network destination is unsupported",
            NetworkAdapterError::ScopeMismatch => {
                "network operation scope does not match the Task"
            },
            NetworkAdapterError::BudgetExceeded => "network operation exceeded the Task Budget",
            NetworkAdapterError::ConnectFailed => "network connection failed",
            NetworkAdapterError::SocketConfigurationFailed => {
                "network socket configuration failed"
            },
            NetworkAdapterError::PeerMismatch => "network peer verification failed",
            NetworkAdapterError::WriteFailed => "network write failed",
            NetworkAdapterError::ReadFailed => "network read failed",
            NetworkAdapterError::ResponseTooLarge => "network response exceeded its limit",
        }
    }
}

// ---------------------------------------------------------------- operations

/// What one exchange sends, where, and until when.
pub struct ExchangeRequest {
    pub host: Seq<char>,
    pub port: u16,
    pub request: Seq<u8>,
    /// When the budget of the task is used up; `None` before a gate bound the operation.
    pub deadline: Option<u128>,
}

/// Complete one-shot TCP exchange retained privately while approval is pending.
///
/// This type intentionally does not implement `Clone` or `Debug` because the destination and
/// request bytes may be sensitive.
pub struct TcpExchangeOperation {
    host: String,
    port: u16,
    request: Vec<u8>,
    execution_context: Option<TaskExecutionContext>,
}

impl View for TcpExchangeOperation {
    type V = ExchangeRequest;

    closed spec fn view(&self) -> ExchangeRequest {
        ExchangeRequest {
            host: self.host@,
            port: self.port,
            request: self.request@,
            deadline: match self.execution_context {
                Some(context) => Some(context.deadline()),
                None => None,
            },
        }
    }
}

impl GuardedOperation for TcpExchangeOperation {
    open spec fn asks(&self) -> RequestModel {
        RequestModel::Network {
            host: self@.host,
            transport: NetworkTransport::Tcp,
            port: self@.port,
        }
    }

    fn capability_request(&self) -> (r: CapabilityRequest<'_>) {
        CapabilityRequest::Network {
            host: self.host.as_str(),
            transport: NetworkTransport::Tcp,
            port: self.port,
        }
    }
}

/// Where an exchange goes, or why it goes nowhere.
pub open spec fn exchange_target(host: Seq<char>, port: u16, request_len: nat) -> Result<
    IpModel,
    NetworkAdapterError,
> {
    let bytes = text::utf8(host);
    if bytes.len() == 0 || bytes.len() > MAX_NETWORK_HOST_BYTES || port == 0 || request_len
        > MAX_TCP_REQUEST_BYTES {
        Err(NetworkAdapterError::InvalidOperation)
    } else {
        match ip::ip_value(bytes) {
            None => Err(NetworkAdapterError::UnsupportedDestination),
            Some(address) => if address.unspecified() || address.multicast()
                || address.broadcast_v4() {
                Err(NetworkAdapterError::UnsupportedDestination)
            } else {
                Ok(address)
            },
        }
    }
}

fn validate_operation(host: &str, port: u16, request_len: usize) -> (r: Result<
    IpAddress,
    NetworkAdapterError,
>)
    ensures
        exchange_target(host@, port, request_len as nat) == (match r {
            Ok(address) => Ok::<IpModel, NetworkAdapterError>(address@),
            Err(error) => Err(error),
        }),
{
    let bytes = host.as_bytes();
    if bytes.len() == 0 || bytes.len() > MAX_NETWORK_HOST_BYTES || port == 0 || request_len
        > MAX_TCP_REQUEST_BYTES {
        return Err(NetworkAdapterError::InvalidOperation);
    }
    match parse_ip(bytes) {
        None => Err(NetworkAdapterError::UnsupportedDestination),
        Some(address) => {
            if address.is_unspecified() || address.is_multicast() || address.is_broadcast() {
                Err(NetworkAdapterError::UnsupportedDestination)
            } else {
                Ok(address)
            }
        },
    }
}

/// Safe operation constructor that validates all model-controlled values before authorization.
pub struct NetworkCatalog {}

impl NetworkCatalog {
    /// The catalog.
    #[must_use]
    pub fn new() -> NetworkCatalog {
        NetworkCatalog {  }
    }

    /// Prepares one exchange.
    pub fn prepare_tcp_exchange(&self, host: String, port: u16, request: Vec<u8>) -> (r: Result<
        TcpExchangeOperation,
        NetworkAdapterError,
    >)
        ensures
            r is Ok <==> exchange_target(host@, port, request@.len()) is Ok,
            r is Ok ==> (r->Ok_0)@ == (ExchangeRequest {
                host: host@,
                port,
                request: request@,
                deadline: None,
            }),
            r is Err ==> exchange_target(host@, port, request@.len()) == Err::<
                IpModel,
                NetworkAdapterError,
            >(r->Err_0),
    {
        match validate_operation(host.as_str(), port, request.len()) {
            Ok(_) => Ok(TcpExchangeOperation { host, port, request, execution_context: None }),
            Err(error) => Err(error),
        }
    }
}

impl Default for NetworkCatalog {
    fn default() -> Self {
        NetworkCatalog {  }
    }
}

/// Bounded untrusted bytes returned by one completed exchange.
///
/// The response intentionally omits `Clone` and `Debug`.
pub struct TcpExchangeResponse {
    bytes: Vec<u8>,
}

impl View for TcpExchangeResponse {
    type V = Seq<u8>;

    closed spec fn view(&self) -> Seq<u8> {
        self.bytes@
    }
}

impl TcpExchangeResponse {
    /// The bytes of the response.
    #[must_use]
    pub fn as_bytes(&self) -> (r: &[u8])
        ensures
            r@ == self@,
    {
        self.bytes.as_slice()
    }

    /// The bytes of the response.
    #[must_use]
    pub fn into_bytes(self) -> (r: Vec<u8>)
        ensures
            r@ == self@,
    {
        self.bytes
    }
}

// ------------------------------------------------------------- state machine

/// Where an exchange stands.
#[derive(Clone, Copy, PartialEq, Eq, Structural)]
pub enum ExchangePhase {
    Connecting { timeout: u128 },
    SettingWrite { timeout: u128 },
    Writing,
    ShuttingDown,
    SettingRead { timeout: u128 },
    Reading,
}

/// What the transport is to do next.
pub enum ExchangeAction {
    Connect { address: IpAddress, port: u16, timeout: Duration },
    SetWriteTimeout { timeout: Duration },
    /// Write the request from this offset on.
    Write { offset: usize },
    ShutdownWrite,
    SetReadTimeout { timeout: Duration },
    /// Read at most this many bytes.
    Read { limit: usize },
}

/// What an action asks for.
pub enum ActionModel {
    Connect { address: IpModel, port: u16, timeout: u128 },
    SetWriteTimeout { timeout: u128 },
    Write { offset: nat },
    ShutdownWrite,
    SetReadTimeout { timeout: u128 },
    Read { limit: nat },
}

impl View for ExchangeAction {
    type V = ActionModel;

    open spec fn view(&self) -> ActionModel {
        match *self {
            ExchangeAction::Connect { address, port, timeout } => ActionModel::Connect {
                address: address@,
                port,
                timeout: timeout.nanos,
            },
            ExchangeAction::SetWriteTimeout { timeout } => ActionModel::SetWriteTimeout {
                timeout: timeout.nanos,
            },
            ExchangeAction::Write { offset } => ActionModel::Write { offset: offset as nat },
            ExchangeAction::ShutdownWrite => ActionModel::ShutdownWrite,
            ExchangeAction::SetReadTimeout { timeout } => ActionModel::SetReadTimeout {
                timeout: timeout.nanos,
            },
            ExchangeAction::Read { limit } => ActionModel::Read { limit: limit as nat },
        }
    }
}

/// What came of an action.
pub enum ExchangeEvent {
    /// Connected; the address and port of the peer, where they could be told.
    Connected { peer: Option<(IpAddress, u16)> },
    TimeoutSet,
    Written { count: usize },
    WriteShutDown,
    /// The bytes that were read; none at the end of the response.
    Received { bytes: Vec<u8> },
    Failed,
}

/// What an event says.
pub enum EventModel {
    Connected { peer: Option<(IpModel, u16)> },
    TimeoutSet,
    Written { count: nat },
    WriteShutDown,
    Received { bytes: Seq<u8> },
    Failed,
}

impl View for ExchangeEvent {
    type V = EventModel;

    open spec fn view(&self) -> EventModel {
        match *self {
            ExchangeEvent::Connected { peer } => EventModel::Connected {
                peer: match peer {
                    Some((address, port)) => Some((address@, port)),
                    None => None,
                },
            },
            ExchangeEvent::TimeoutSet => EventModel::TimeoutSet,
            ExchangeEvent::Written { count } => EventModel::Written { count: count as nat },
            ExchangeEvent::WriteShutDown => EventModel::WriteShutDown,
            ExchangeEvent::Received { bytes } => EventModel::Received { bytes: bytes@ },
            ExchangeEvent::Failed => EventModel::Failed,
        }
    }
}

/// The state of one exchange.
#[verifier::ext_equal]
pub struct ExchangeModel {
    pub address: IpModel,
    pub port: u16,
    pub request: Seq<u8>,
    /// The configured timeout.
    pub timeout: u128,
    /// When the budget of the task is used up.
    pub deadline: u128,
    pub phase: ExchangePhase,
    /// How much of the request was written.
    pub offset: nat,
    /// The timeout that the socket was given for the current direction.
    pub installed: Option<u128>,
    pub received: Seq<u8>,
}

/// An exchange that goes on, or its result.
pub enum ExchangeProgress {
    Going(ExchangeModel),
    Ended(Result<Seq<u8>, NetworkAdapterError>),
}

/// The time that one step may take: what is left of the budget, at most the configured
/// timeout, and never nothing.
pub open spec fn step_timeout(deadline: u128, timeout: u128, now: u128) -> Option<u128> {
    if now >= deadline {
        None
    } else if deadline - now < timeout {
        Some((deadline - now) as u128)
    } else {
        Some(timeout)
    }
}

impl ExchangeModel {
    /// The failure that a failed action of the current phase is reported as.
    pub open spec fn failure(self, now: u128) -> NetworkAdapterError {
        if now >= self.deadline {
            NetworkAdapterError::BudgetExceeded
        } else {
            match self.phase {
                ExchangePhase::Connecting { .. } => NetworkAdapterError::ConnectFailed,
                ExchangePhase::SettingWrite { .. } => {
                    NetworkAdapterError::SocketConfigurationFailed
                },
                ExchangePhase::SettingRead { .. } => {
                    NetworkAdapterError::SocketConfigurationFailed
                },
                ExchangePhase::Writing => NetworkAdapterError::WriteFailed,
                ExchangePhase::ShuttingDown => NetworkAdapterError::WriteFailed,
                ExchangePhase::Reading => NetworkAdapterError::ReadFailed,
            }
        }
    }

    /// On to the next write, or to the end of the request.
    pub open spec fn to_write(self, now: u128) -> ExchangeProgress {
        match step_timeout(self.deadline, self.timeout, now) {
            None => ExchangeProgress::Ended(Err(NetworkAdapterError::BudgetExceeded)),
            Some(timeout) => ExchangeProgress::Going(
                ExchangeModel {
                    phase: if self.offset >= self.request.len() {
                        ExchangePhase::ShuttingDown
                    } else if self.installed == Some(timeout) {
                        ExchangePhase::Writing
                    } else {
                        ExchangePhase::SettingWrite { timeout }
                    },
                    ..self
                },
            ),
        }
    }

    /// On to the next read.
    pub open spec fn to_read(self, now: u128) -> ExchangeProgress {
        match step_timeout(self.deadline, self.timeout, now) {
            None => ExchangeProgress::Ended(Err(NetworkAdapterError::BudgetExceeded)),
            Some(timeout) => ExchangeProgress::Going(
                ExchangeModel {
                    phase: if self.installed == Some(timeout) {
                        ExchangePhase::Reading
                    } else {
                        ExchangePhase::SettingRead { timeout }
                    },
                    ..self
                },
            ),
        }
    }

    /// What the transport is to do next.
    pub open spec fn action(self) -> ActionModel {
        match self.phase {
            ExchangePhase::Connecting { timeout } => ActionModel::Connect {
                address: self.address,
                port: self.port,
                timeout,
            },
            ExchangePhase::SettingWrite { timeout } => ActionModel::SetWriteTimeout { timeout },
            ExchangePhase::Writing => ActionModel::Write { offset: self.offset },
            ExchangePhase::ShuttingDown => ActionModel::ShutdownWrite,
            ExchangePhase::SettingRead { timeout } => ActionModel::SetReadTimeout { timeout },
            ExchangePhase::Reading => ActionModel::Read {
                limit: if MAX_TCP_RESPONSE_BYTES + 1 - self.received.len() < READ_BUFFER_BYTES {
                    (MAX_TCP_RESPONSE_BYTES + 1 - self.received.len()) as nat
                } else {
                    READ_BUFFER_BYTES as nat
                },
            },
        }
    }

    /// What an event that came at `now` leads to.
    pub open spec fn step(self, event: EventModel, now: u128) -> ExchangeProgress {
        match (self.phase, event) {
            (ExchangePhase::Connecting { .. }, EventModel::Connected { peer }) => if now
                >= self.deadline {
                ExchangeProgress::Ended(Err(NetworkAdapterError::BudgetExceeded))
            } else if peer == Some((self.address, self.port)) {
                self.to_write(now)
            } else {
                ExchangeProgress::Ended(Err(NetworkAdapterError::PeerMismatch))
            },
            (ExchangePhase::SettingWrite { timeout }, EventModel::TimeoutSet) => {
                ExchangeProgress::Going(
                    ExchangeModel {
                        phase: ExchangePhase::Writing,
                        installed: Some(timeout),
                        ..self
                    },
                )
            },
            (ExchangePhase::Writing, EventModel::Written { count }) => if count == 0 || count
                > self.request.len() - self.offset {
                ExchangeProgress::Ended(Err(NetworkAdapterError::WriteFailed))
            } else {
                (ExchangeModel { offset: self.offset + count, ..self }).to_write(now)
            },
            (ExchangePhase::ShuttingDown, EventModel::WriteShutDown) => {
                (ExchangeModel { installed: None, ..self }).to_read(now)
            },
            (ExchangePhase::SettingRead { timeout }, EventModel::TimeoutSet) => {
                ExchangeProgress::Going(
                    ExchangeModel {
                        phase: ExchangePhase::Reading,
                        installed: Some(timeout),
                        ..self
                    },
                )
            },
            (ExchangePhase::Reading, EventModel::Received { bytes }) => if bytes.len() == 0 {
                if now >= self.deadline {
                    ExchangeProgress::Ended(Err(NetworkAdapterError::BudgetExceeded))
                } else {
                    ExchangeProgress::Ended(Ok(self.received))
                }
            } else if self.received.len() + bytes.len() > MAX_TCP_RESPONSE_BYTES {
                ExchangeProgress::Ended(Err(NetworkAdapterError::ResponseTooLarge))
            } else {
                (ExchangeModel { received: self.received + bytes, ..self }).to_read(now)
            },
            _ => ExchangeProgress::Ended(Err(self.failure(now))),
        }
    }

    /// What holds of every exchange.
    pub open spec fn bounded(self) -> bool {
        &&& self.offset <= self.request.len() <= MAX_TCP_REQUEST_BYTES
        &&& self.received.len() <= MAX_TCP_RESPONSE_BYTES
        &&& self.phase is Writing || self.phase is SettingWrite ==> self.offset
            < self.request.len()
        &&& self.phase is ShuttingDown || self.phase is SettingRead || self.phase is Reading
            ==> self.offset == self.request.len()
    }

    /// An upper bound of the steps that are left.
    pub open spec fn steps_left(self) -> int {
        let writes = self.request.len() - self.offset;
        let reads = MAX_TCP_RESPONSE_BYTES + 1 - self.received.len();
        match self.phase {
            ExchangePhase::Connecting { .. } => 10 + 2 * writes + 2 * reads,
            ExchangePhase::SettingWrite { .. } => 7 + 2 * writes + 2 * reads,
            ExchangePhase::Writing => 6 + 2 * writes + 2 * reads,
            ExchangePhase::ShuttingDown => 4 + 2 * reads,
            ExchangePhase::SettingRead { .. } => 3 + 2 * reads,
            ExchangePhase::Reading => 2 + 2 * reads,
        }
    }
}

/// What a trace of events, each with the time it came at, leads to.
pub open spec fn exchange_after(
    start: ExchangeModel,
    trace: Seq<(EventModel, u128)>,
) -> ExchangeProgress
    decreases trace.len(),
{
    if trace.len() == 0 {
        ExchangeProgress::Going(start)
    } else {
        match exchange_after(start, trace.drop_last()) {
            ExchangeProgress::Ended(r) => ExchangeProgress::Ended(r),
            ExchangeProgress::Going(m) => m.step(trace.last().0, trace.last().1),
        }
    }
}

/// How an exchange begins at `now`, or why it does not.
pub open spec fn exchange_start(operation: ExchangeRequest, timeout: u128, now: u128) -> Result<
    ExchangeModel,
    NetworkAdapterError,
> {
    match exchange_target(operation.host, operation.port, operation.request.len()) {
        Err(error) => Err(error),
        Ok(address) => match operation.deadline {
            None => Err(NetworkAdapterError::ScopeMismatch),
            Some(deadline) => match step_timeout(deadline, timeout, now) {
                None => Err(NetworkAdapterError::BudgetExceeded),
                Some(first) => Ok(
                    ExchangeModel {
                        address,
                        port: operation.port,
                        request: operation.request,
                        timeout,
                        deadline,
                        phase: ExchangePhase::Connecting { timeout: first },
                        offset: 0,
                        installed: None,
                        received: Seq::<u8>::empty(),
                    },
                ),
            },
        },
    }
}

/// Every step keeps the bounds, and there are not more steps than `steps_left` says.
pub proof fn law_exchange_is_bounded(m: ExchangeModel, event: EventModel, now: u128)
    requires
        m.bounded(),
    ensures
        match m.step(event, now) {
            ExchangeProgress::Going(next) => next.bounded() && 0 <= next.steps_left()
                < m.steps_left(),
            ExchangeProgress::Ended(Ok(bytes)) => bytes.len() <= MAX_TCP_RESPONSE_BYTES,
            ExchangeProgress::Ended(Err(_)) => true,
        },
{
}

/// An exchange that completes has written its whole request, and read its response before the
/// budget of its task was used up.
pub proof fn law_completed_exchange_wrote_everything(
    m: ExchangeModel,
    event: EventModel,
    now: u128,
)
    requires
        m.bounded(),
        m.step(event, now) is Ended,
        m.step(event, now)->Ended_0 is Ok,
    ensures
        m.offset == m.request.len(),
        now < m.deadline,
        m.step(event, now)->Ended_0->Ok_0 == m.received,
{
}

/// Where an exchange goes never changes, and a step never takes longer than what is left.
pub proof fn law_exchange_keeps_its_destination(m: ExchangeModel, event: EventModel, now: u128)
    ensures
        match m.step(event, now) {
            ExchangeProgress::Going(next) => {
                &&& next.address == m.address
                &&& next.port == m.port
                &&& next.request == m.request
                &&& next.deadline == m.deadline
                &&& match next.phase {
                    ExchangePhase::SettingWrite { timeout } => 0 < timeout && now + timeout
                        <= m.deadline || m.timeout == 0,
                    ExchangePhase::SettingRead { timeout } => 0 < timeout && now + timeout
                        <= m.deadline || m.timeout == 0,
                    _ => true,
                }
            },
            ExchangeProgress::Ended(_) => true,
        },
{
}

/// One exchange.
pub struct TcpExchange {
    address: IpAddress,
    port: u16,
    request: Vec<u8>,
    timeout: u128,
    deadline: u128,
    phase: ExchangePhase,
    offset: usize,
    installed: Option<u128>,
    received: Vec<u8>,
}

impl View for TcpExchange {
    type V = ExchangeModel;

    closed spec fn view(&self) -> ExchangeModel {
        ExchangeModel {
            address: self.address@,
            port: self.port,
            request: self.request@,
            timeout: self.timeout,
            deadline: self.deadline,
            phase: self.phase,
            offset: self.offset as nat,
            installed: self.installed,
            received: self.received@,
        }
    }
}

/// How far an exchange came: it goes on, or this is its result.
pub enum ExchangeStep {
    Continue,
    Done(Result<TcpExchangeResponse, NetworkAdapterError>),
}

/// Whether a step of an exchange is what the state machine says.
pub open spec fn step_matches(
    progress: ExchangeProgress,
    after: ExchangeModel,
    r: ExchangeStep,
) -> bool {
    match (progress, r) {
        (ExchangeProgress::Going(next), ExchangeStep::Continue) => after == next,
        (ExchangeProgress::Ended(Ok(bytes)), ExchangeStep::Done(Ok(response))) => response@
            == bytes,
        (ExchangeProgress::Ended(Err(error)), ExchangeStep::Done(Err(given))) => given == error,
        _ => false,
    }
}

fn effective_timeout(deadline: u128, timeout: u128, now: u128) -> (r: Option<u128>)
    ensures
        r == step_timeout(deadline, timeout, now),
{
    if now >= deadline {
        None
    } else if deadline - now < timeout {
        Some(deadline - now)
    } else {
        Some(timeout)
    }
}

impl TcpExchange {
    /// Begins an exchange at a given time.
    pub fn begin(operation: TcpExchangeOperation, timeout: Duration, now: u128) -> (r: Result<
        TcpExchange,
        NetworkAdapterError,
    >)
        ensures
            exchange_start(operation@, timeout.nanos, now) == (match r {
                Ok(exchange) => Ok::<ExchangeModel, NetworkAdapterError>(exchange@),
                Err(error) => Err(error),
            }),
            r is Ok ==> (r->Ok_0)@.bounded(),
    {
        let address = match validate_operation(
            operation.host.as_str(),
            operation.port,
            operation.request.len(),
        ) {
            Ok(address) => address,
            Err(error) => {
                return Err(error);
            },
        };
        let deadline: u128 = match &operation.execution_context {
            Some(context) => context.deadline_nanos(),
            None => {
                return Err(NetworkAdapterError::ScopeMismatch);
            },
        };
        match effective_timeout(deadline, timeout.nanos, now) {
            None => Err(NetworkAdapterError::BudgetExceeded),
            Some(first) => {
                let exchange = TcpExchange {
                    address,
                    port: operation.port,
                    request: operation.request,
                    timeout: timeout.nanos,
                    deadline,
                    phase: ExchangePhase::Connecting { timeout: first },
                    offset: 0,
                    installed: None,
                    received: Vec::new(),
                };
                assert(exchange@ =~= exchange_start(operation@, timeout.nanos, now)->Ok_0);
                Ok(exchange)
            },
        }
    }

    /// The bytes to be written.
    #[must_use]
    pub fn request(&self) -> (r: &Vec<u8>)
        ensures
            r@ == self@.request,
    {
        &self.request
    }

    /// What the transport is to do next.
    #[must_use]
    pub fn action(&self) -> (r: ExchangeAction)
        requires
            self@.bounded(),
        ensures
            r@ == self@.action(),
    {
        match self.phase {
            ExchangePhase::Connecting { timeout } => ExchangeAction::Connect {
                address: self.address,
                port: self.port,
                timeout: Duration { nanos: timeout },
            },
            ExchangePhase::SettingWrite { timeout } => ExchangeAction::SetWriteTimeout {
                timeout: Duration { nanos: timeout },
            },
            ExchangePhase::Writing => ExchangeAction::Write { offset: self.offset },
            ExchangePhase::ShuttingDown => ExchangeAction::ShutdownWrite,
            ExchangePhase::SettingRead { timeout } => ExchangeAction::SetReadTimeout {
                timeout: Duration { nanos: timeout },
            },
            ExchangePhase::Reading => {
                let room: usize = MAX_TCP_RESPONSE_BYTES + 1 - self.received.len();
                ExchangeAction::Read {
                    limit: if room < READ_BUFFER_BYTES {
                        room
                    } else {
                        READ_BUFFER_BYTES
                    },
                }
            },
        }
    }

    fn io_failure(&self, now: u128) -> (r: NetworkAdapterError)
        ensures
            r == self@.failure(now),
    {
        if now >= self.deadline {
            return NetworkAdapterError::BudgetExceeded;
        }
        match self.phase {
            ExchangePhase::Connecting { .. } => NetworkAdapterError::ConnectFailed,
            ExchangePhase::SettingWrite { .. } => NetworkAdapterError::SocketConfigurationFailed,
            ExchangePhase::SettingRead { .. } => NetworkAdapterError::SocketConfigurationFailed,
            ExchangePhase::Writing => NetworkAdapterError::WriteFailed,
            ExchangePhase::ShuttingDown => NetworkAdapterError::WriteFailed,
            ExchangePhase::Reading => NetworkAdapterError::ReadFailed,
        }
    }

    fn to_write(&mut self, now: u128) -> (r: ExchangeStep)
        ensures
            step_matches(old(self)@.to_write(now), final(self)@, r),
    {
        match effective_timeout(self.deadline, self.timeout, now) {
            None => ExchangeStep::Done(Err(NetworkAdapterError::BudgetExceeded)),
            Some(timeout) => {
                let ready = match self.installed {
                    Some(installed) => installed == timeout,
                    None => false,
                };
                if self.offset >= self.request.len() {
                    self.phase = ExchangePhase::ShuttingDown;
                } else if ready {
                    self.phase = ExchangePhase::Writing;
                } else {
                    self.phase = ExchangePhase::SettingWrite { timeout };
                }
                ExchangeStep::Continue
            },
        }
    }

    fn to_read(&mut self, now: u128) -> (r: ExchangeStep)
        ensures
            step_matches(old(self)@.to_read(now), final(self)@, r),
    {
        match effective_timeout(self.deadline, self.timeout, now) {
            None => ExchangeStep::Done(Err(NetworkAdapterError::BudgetExceeded)),
            Some(timeout) => {
                let ready = match self.installed {
                    Some(installed) => installed == timeout,
                    None => false,
                };
                if ready {
                    self.phase = ExchangePhase::Reading;
                } else {
                    self.phase = ExchangePhase::SettingRead { timeout };
                }
                ExchangeStep::Continue
            },
        }
    }

    /// Takes in what came of the last action.
    pub fn next(&mut self, event: ExchangeEvent, now: u128) -> (r: ExchangeStep)
        requires
            old(self)@.bounded(),
        ensures
            step_matches(old(self)@.step(event@, now), final(self)@, r),
            r is Continue ==> final(self)@.bounded(),
    {
        proof {
            law_exchange_is_bounded(self@, event@, now);
        }
        match (self.phase, event) {
            (ExchangePhase::Connecting { .. }, ExchangeEvent::Connected { peer }) => {
                if now >= self.deadline {
                    return ExchangeStep::Done(Err(NetworkAdapterError::BudgetExceeded));
                }
                let expected = match &peer {
                    Some((address, port)) => *port == self.port && self.address.same_as(address),
                    None => false,
                };
                if !expected {
                    return ExchangeStep::Done(Err(NetworkAdapterError::PeerMismatch));
                }
                self.to_write(now)
            },
            (ExchangePhase::SettingWrite { timeout }, ExchangeEvent::TimeoutSet) => {
                self.phase = ExchangePhase::Writing;
                self.installed = Some(timeout);
                ExchangeStep::Continue
            },
            (ExchangePhase::Writing, ExchangeEvent::Written { count }) => {
                if count == 0 || count > self.request.len() - self.offset {
                    return ExchangeStep::Done(Err(NetworkAdapterError::WriteFailed));
                }
                self.offset = self.offset + count;
                self.to_write(now)
            },
            (ExchangePhase::ShuttingDown, ExchangeEvent::WriteShutDown) => {
                self.installed = None;
                self.to_read(now)
            },
            (ExchangePhase::SettingRead { timeout }, ExchangeEvent::TimeoutSet) => {
                self.phase = ExchangePhase::Reading;
                self.installed = Some(timeout);
                ExchangeStep::Continue
            },
            (ExchangePhase::Reading, ExchangeEvent::Received { bytes }) => {
                if bytes.len() == 0 {
                    if now >= self.deadline {
                        return ExchangeStep::Done(Err(NetworkAdapterError::BudgetExceeded));
                    }
                    let mut response: Vec<u8> = Vec::new();
                    response.append(&mut self.received);
                    assert(response@ =~= old(self)@.received);
                    return ExchangeStep::Done(Ok(TcpExchangeResponse { bytes: response }));
                }
                if bytes.len() > MAX_TCP_RESPONSE_BYTES - self.received.len() {
                    return ExchangeStep::Done(Err(NetworkAdapterError::ResponseTooLarge));
                }
                let mut bytes = bytes;
                let ghost arrived = bytes@;
                self.received.append(&mut bytes);
                assert(self.received@ =~= old(self)@.received + arrived);
                self.to_read(now)
            },
            _ => ExchangeStep::Done(Err(self.io_failure(now))),
        }
    }
}

// ------------------------------------------------------------------- adapter

/// Sockets. A transport performs one action at a time and tells what came of it.
pub trait TcpTransport: Sized {
    /// What may come of an action, and what the transport is after it: anything, unless the
    /// transport says more.
    open spec fn tells(
        before: Self,
        action: ActionModel,
        request: Seq<u8>,
        after: Self,
        event: EventModel,
    ) -> bool {
        true
    }

    /// Performs an action; `request` is what is to be written.
    fn perform(&mut self, action: ExchangeAction, request: &Vec<u8>) -> (event: ExchangeEvent)
        ensures
            Self::tells(*old(self), action@, request@, *final(self), event@),
    ;
}

/// A transport that reaches nothing.
pub struct NoTransport {}

impl TcpTransport for NoTransport {
    open spec fn tells(
        before: Self,
        action: ActionModel,
        request: Seq<u8>,
        after: Self,
        event: EventModel,
    ) -> bool {
        after == before && event is Failed
    }

    fn perform(&mut self, action: ExchangeAction, request: &Vec<u8>) -> (event: ExchangeEvent) {
        ExchangeEvent::Failed
    }
}

/// Drives exchanges over a transport. It stands behind a gate and is reached in no other way.
pub struct NetworkAdapter<T: TcpTransport> {
    timeout: Duration,
    transport: T,
}

impl<T: TcpTransport> NetworkAdapter<T> {
    /// The transport that exchanges go over.
    pub closed spec fn transport(&self) -> T {
        self.transport
    }

    /// The configured timeout.
    pub closed spec fn timeout(&self) -> u128 {
        self.timeout.nanos
    }

    fn new(timeout: Duration, transport: T) -> (r: Result<NetworkAdapter<T>, NetworkAdapterError>)
        ensures
            r is Ok <==> usable_timeout(timeout),
            r is Ok ==> r->Ok_0.timeout() == timeout.nanos && r->Ok_0.transport() == transport,
            r is Err ==> r->Err_0 == NetworkAdapterError::InvalidConfig,
    {
        let limit = Duration::from_secs(MAX_NETWORK_TIMEOUT_SECONDS);
        if timeout.is_zero() || timeout.nanos > limit.nanos {
            return Err(NetworkAdapterError::InvalidConfig);
        }
        Ok(NetworkAdapter { timeout, transport })
    }
}

/// Whether `event` is what the transport told when it was asked for the action of the state that
/// a trace leads to.
pub open spec fn told_next<T: TcpTransport>(
    start: ExchangeModel,
    trace: Seq<(EventModel, u128)>,
    before: T,
    after: T,
    event: EventModel,
) -> bool {
    match exchange_after(start, trace) {
        ExchangeProgress::Ended(_) => false,
        ExchangeProgress::Going(m) => T::tells(before, m.action(), m.request, after, event),
    }
}

/// Whether the events of a trace are what the transport told: it was asked for the action of
/// each state that the exchange went through, and for nothing else.
pub open spec fn transported<T: TcpTransport>(
    start: ExchangeModel,
    before: T,
    trace: Seq<(EventModel, u128)>,
    after: T,
) -> bool
    decreases trace.len(),
{
    if trace.len() == 0 {
        after == before
    } else {
        exists|mid: T|
            transported(start, before, trace.drop_last(), mid) && #[trigger] told_next(
                start,
                trace.drop_last(),
                mid,
                after,
                trace.last().0,
            )
    }
}

proof fn lemma_transported_on<T: TcpTransport>(
    start: ExchangeModel,
    before: T,
    trace: Seq<(EventModel, u128)>,
    mid: T,
    after: T,
    last: (EventModel, u128),
)
    requires
        transported(start, before, trace, mid),
        told_next(start, trace, mid, after, last.0),
    ensures
        transported(start, before, trace.push(last), after),
{
    let longer = trace.push(last);
    assert(longer.drop_last() =~= trace);
    assert(longer.last() == last);
    assert(told_next(start, longer.drop_last(), mid, after, longer.last().0));
    reveal_with_fuel(transported, 2);
}

/// Whether `r` is the result of an exchange over a transport, for some times and for what the
/// transport told.
pub open spec fn exchange_result<T: TcpTransport>(
    before: T,
    operation: ExchangeRequest,
    timeout: u128,
    after: T,
    r: Result<TcpExchangeResponse, NetworkAdapterError>,
) -> bool {
    exists|now: u128, trace: Seq<(EventModel, u128)>| #[trigger]
        exchange_outcome(operation, timeout, now, trace) == result_bytes(r)
            && match exchange_start(operation, timeout, now) {
            Err(_) => after == before,
            Ok(start) => transported(start, before, trace, after),
        }
}

/// The result of an exchange that began at `now` and met a trace of events; `None` where it
/// has not ended.
pub open spec fn exchange_outcome(
    operation: ExchangeRequest,
    timeout: u128,
    now: u128,
    trace: Seq<(EventModel, u128)>,
) -> Option<Result<Seq<u8>, NetworkAdapterError>> {
    match exchange_start(operation, timeout, now) {
        Err(error) => Some(Err(error)),
        Ok(start) => match exchange_after(start, trace) {
            ExchangeProgress::Going(_) => None,
            ExchangeProgress::Ended(r) => Some(r),
        },
    }
}

/// The bytes of a response, or its failure.
pub open spec fn result_bytes(r: Result<TcpExchangeResponse, NetworkAdapterError>) -> Option<
    Result<Seq<u8>, NetworkAdapterError>,
> {
    match r {
        Ok(response) => Some(Ok(response@)),
        Err(error) => Some(Err(error)),
    }
}

impl<T: TcpTransport> ExecutionAdapter<TcpExchangeOperation> for NetworkAdapter<T> {
    type Output = TcpExchangeResponse;

    type Error = NetworkAdapterError;

    /// An operation that is out of bounds or unbound never reaches the transport. What comes
    /// of another is decided by the events that the transport tells.
    open spec fn performs(
        before: Self,
        operation: TcpExchangeOperation,
        after: Self,
        r: Result<TcpExchangeResponse, NetworkAdapterError>,
    ) -> bool {
        &&& after.timeout() == before.timeout()
        &&& exchange_result(
            before.transport(),
            operation@,
            before.timeout(),
            after.transport(),
            r,
        )
        &&& exchange_target(
            operation@.host,
            operation@.port,
            operation@.request.len(),
        ) is Err || operation@.deadline is None ==> after == before
        &&& r is Ok ==> (r->Ok_0)@.len() <= MAX_TCP_RESPONSE_BYTES
    }

    fn execute(&mut self, operation: TcpExchangeOperation) -> (r: Result<
        TcpExchangeResponse,
        NetworkAdapterError,
    >) {
        let ghost asked = operation@;
        let ghost none = Seq::<(EventModel, u128)>::empty();
        let context = match &operation.execution_context {
            Some(context) => *context,
            None => {
                let error = match validate_operation(
                    operation.host.as_str(),
                    operation.port,
                    operation.request.len(),
                ) {
                    Ok(_) => NetworkAdapterError::ScopeMismatch,
                    Err(error) => error,
                };
                assert(exchange_outcome(asked, self.timeout(), 0, none) == Some(
                    Err::<Seq<u8>, NetworkAdapterError>(error),
                ));
                return Err(error);
            },
        };
        let began: u128 = context.now();
        let mut exchange = match TcpExchange::begin(operation, self.timeout, began) {
            Ok(exchange) => exchange,
            Err(error) => {
                assert(exchange_outcome(asked, self.timeout(), began, none) == Some(
                    Err::<Seq<u8>, NetworkAdapterError>(error),
                ));
                return Err(error);
            },
        };
        let ghost start = exchange@;
        let ghost mut trace = none;
        assert(transported(start, old(self).transport(), trace, self.transport()));
        #[verifier::loop_isolation(false)]
        loop
            invariant
                exchange@.bounded(),
                exchange_start(asked, self.timeout(), began) == Ok::<
                    ExchangeModel,
                    NetworkAdapterError,
                >(start),
                self.timeout() == old(self).timeout(),
                exchange_after(start, trace) == ExchangeProgress::Going(exchange@),
                transported(start, old(self).transport(), trace, self.transport()),
            decreases exchange@.steps_left(),
        {
            let action = exchange.action();
            let ghost mid = self.transport();
            let event = self.transport.perform(action, exchange.request());
            let now: u128 = context.now();
            let ghost before = exchange@;
            let ghost said = event@;
            proof {
                assert(T::tells(mid, before.action(), before.request, self.transport(), said));
                law_exchange_is_bounded(before, said, now);
            }
            let step = exchange.next(event, now);
            proof {
                let longer = trace.push((said, now));
                assert(longer.drop_last() =~= trace);
                assert(longer.last() == (said, now));
                lemma_transported_on(
                    start,
                    old(self).transport(),
                    trace,
                    mid,
                    self.transport(),
                    (said, now),
                );
                trace = longer;
            }
            match step {
                ExchangeStep::Continue => {},
                ExchangeStep::Done(r) => {
                    assert(exchange_outcome(asked, self.timeout(), began, trace) == result_bytes(
                        r,
                    ));
                    return r;
                },
            }
        }
    }
}

/// Capability- and approval-gated facade that never exposes the raw adapter or socket.
pub struct NetworkExecutionGate<T: TcpTransport> {
    gate: ExecutionGate<NetworkAdapter<T>, TcpExchangeOperation>,
}

/// An operation bound to the budget of its task.
pub open spec fn bound_to(operation: ExchangeRequest, deadline: Option<u128>) -> ExchangeRequest {
    ExchangeRequest { deadline, ..operation }
}

/// Whether exchanges may be given this much time.
pub open spec fn usable_timeout(timeout: Duration) -> bool {
    1 <= timeout.nanos <= MAX_NETWORK_TIMEOUT_SECONDS * NANOS_PER_SECOND
}

impl<T: TcpTransport> NetworkExecutionGate<T> {
    /// The execution gate that every operation passes.
    pub closed spec fn gate(&self) -> ExecutionGate<NetworkAdapter<T>, TcpExchangeOperation> {
        self.gate
    }

    /// Puts a transport behind a gate, with a timeout for each step.
    pub fn new(timeout: Duration, transport: T) -> (r: Result<
        NetworkExecutionGate<T>,
        NetworkAdapterError,
    >)
        ensures
            r is Ok <==> usable_timeout(timeout),
            r is Ok ==> r->Ok_0.gate().adapter().timeout() == timeout.nanos
                && r->Ok_0.gate().adapter().transport() == transport && r->Ok_0.gate()@ == (
            GateModel {
                pending: Map::<u128, RetainedModel<TcpExchangeOperation>>::empty(),
                index: Map::<u128, u128>::empty(),
            }),
            r is Err ==> r->Err_0 == NetworkAdapterError::InvalidConfig,
    {
        match NetworkAdapter::new(timeout, transport) {
            Ok(adapter) => Ok(NetworkExecutionGate { gate: ExecutionGate::new(adapter) }),
            Err(error) => Err(error),
        }
    }

    /// Binds an operation to the budget of its task, authorizes it, and executes it
    /// immediately only when no approval is required.
    pub fn request<S: EventStore>(
        &mut self,
        supervisor: &mut TaskSupervisor<S>,
        task_id: TaskId,
        operation: TcpExchangeOperation,
        approval_ttl: Duration,
    ) -> (r: Result<ExecutionOutcome<TcpExchangeResponse>, ExecutionError<NetworkAdapterError>>)
        requires
            old(supervisor)@.coherent(),
        ensures
            final(supervisor)@.coherent(),
            event::carries(old(supervisor).store(), final(supervisor).store()),
            match supervisor::unbindable(old(supervisor)@, task_id.value) {
                Some(error) => r is Err && r->Err_0 == ExecutionError::<
                    NetworkAdapterError,
                >::Supervisor(error) && final(supervisor)@ == old(supervisor)@ && final(self).gate()
                    == old(self).gate(),
                None => exists|bound: TcpExchangeOperation|
                    bound@ == bound_to(
                        operation@,
                        old(supervisor)@.tasks[task_id.value].deadline,
                    ) && bound.asks() == operation.asks() && #[trigger] execution::gate_requested(
                        old(self).gate(),
                        final(self).gate(),
                        old(supervisor)@,
                        final(supervisor)@,
                        task_id.value,
                        bound,
                        approval_ttl.nanos as nat,
                        r,
                    ),
            },
            old(supervisor).admits_every_sweep() && old(supervisor).admits(task_id.value, 1)
                && old(supervisor).admits(task_id.value, 2) ==> !execution::store_failed(r),
    {
        let mut operation = operation;
        let ghost asks = operation.asks();
        let context = match supervisor.execution_context(task_id) {
            Ok(context) => context,
            Err(error) => {
                return Err(ExecutionError::Supervisor(error));
            },
        };
        operation.execution_context = Some(context);
        let ghost bound = operation;
        assert(bound.asks() == asks);
        let r = self.gate.request(supervisor, task_id, operation, approval_ttl);
        assert(execution::gate_requested(
            old(self).gate(),
            self.gate(),
            old(supervisor)@,
            supervisor@,
            task_id.value,
            bound,
            approval_ttl.nanos as nat,
            r,
        ));
        r
    }

    /// Approves, consumes, and executes the exact operation retained by the execution gate.
    pub fn approve_and_execute<S: EventStore>(
        &mut self,
        supervisor: &mut TaskSupervisor<S>,
        approval_id: ApprovalId,
    ) -> (r: Result<Executed<TcpExchangeResponse>, ExecutionError<NetworkAdapterError>>)
        requires
            old(supervisor)@.coherent(),
        ensures
            final(supervisor)@.coherent(),
            event::carries(old(supervisor).store(), final(supervisor).store()),
            execution::gate_approved(
                old(self).gate(),
                final(self).gate(),
                old(supervisor)@,
                final(supervisor)@,
                approval_id.value,
                r,
            ),
            old(supervisor).has_room(
                execution::held_task(old(self).gate()@, approval_id.value),
                3,
            ) ==> !execution::store_failed(r),
    {
        self.gate.approve_and_execute(supervisor, approval_id)
    }

    /// Denies a pending operation and drops it.
    pub fn deny<S: EventStore>(
        &mut self,
        supervisor: &mut TaskSupervisor<S>,
        approval_id: ApprovalId,
    ) -> (r: Result<TaskSnapshot, ExecutionError<NetworkAdapterError>>)
        requires
            old(supervisor)@.coherent(),
        ensures
            final(supervisor)@.coherent(),
            event::carries(old(supervisor).store(), final(supervisor).store()),
            execution::gate_denied(
                old(self).gate(),
                final(self).gate(),
                old(supervisor)@,
                final(supervisor)@,
                approval_id.value,
                r,
            ),
            old(supervisor).admits_every_sweep() ==> !execution::store_failed(r),
    {
        self.gate.deny(supervisor, approval_id)
    }

    /// Expires approvals and drops the operations of tasks that ended.
    pub fn expire<S: EventStore>(&mut self, supervisor: &mut TaskSupervisor<S>) -> (r: Result<
        usize,
        ExecutionError<NetworkAdapterError>,
    >)
        requires
            old(supervisor)@.coherent(),
        ensures
            final(supervisor)@.coherent(),
            event::carries(old(supervisor).store(), final(supervisor).store()),
            execution::gate_expired(
                old(self).gate(),
                final(self).gate(),
                old(supervisor)@,
                final(supervisor)@,
                r,
            ),
            old(supervisor).admits_every_sweep() ==> r is Ok,
    {
        self.gate.expire(supervisor)
    }

    /// Cancels a task and drops its operations.
    pub fn cancel<S: EventStore>(
        &mut self,
        supervisor: &mut TaskSupervisor<S>,
        task_id: TaskId,
    ) -> (r: Result<bool, ExecutionError<NetworkAdapterError>>)
        requires
            old(supervisor)@.coherent(),
        ensures
            final(supervisor)@.coherent(),
            event::carries(old(supervisor).store(), final(supervisor).store()),
            execution::gate_cancelled(
                old(self).gate(),
                final(self).gate(),
                old(supervisor)@,
                final(supervisor)@,
                task_id.value,
                r,
            ),
            execution::store_failed(r) ==> !old(supervisor).admits(
                task_id.value,
                old(supervisor)@.transition_kinds(
                    task_id.value,
                    TaskState::Cancelled,
                    None,
                ).len(),
            ),
    {
        self.gate.cancel(supervisor, task_id)
    }

    /// How many operations wait behind the execution gate.
    #[must_use]
    pub fn pending_count(&self) -> (r: usize)
        ensures
            r == self.gate()@.pending.dom().len(),
    {
        self.gate.pending_count()
    }
}

} // verus!
