//! The deterministic capability policy of one validated task.

use vstd::prelude::*;

use crate::error::ValidationErrors;
use crate::task;
use crate::task::{
    FileAccess, NetworkPolicy, NetworkTransport, TaskModel, TaskSpec, is_normalized_absolute_path,
    is_valid_network_host,
};
use crate::text;
use crate::text::{bytes_eq, contains_text, is_valid_identifier, text_eq};

verus! {

pub const MAX_ACTION_BYTES: usize = 64;

pub const MAX_TOOL_NAME_BYTES: usize = 64;

/// A resource operation presented to the deterministic capability policy.
///
/// This type intentionally does not implement `Debug` because resource values
/// may contain sensitive paths or destinations.
pub enum CapabilityRequest<'a> {
    File { path: &'a str, access: FileAccess },
    Network { host: &'a str, transport: NetworkTransport, port: u16 },
    Tool { tool: &'a str, action: &'a str },
}

/// What a request asks for.
pub enum RequestModel {
    File { path: Seq<char>, access: FileAccess },
    Network { host: Seq<char>, transport: NetworkTransport, port: u16 },
    Tool { tool: Seq<char>, action: Seq<char> },
}

impl<'a> View for CapabilityRequest<'a> {
    type V = RequestModel;

    open spec fn view(&self) -> RequestModel {
        match *self {
            CapabilityRequest::File { path, access } => RequestModel::File { path: path@, access },
            CapabilityRequest::Network { host, transport, port } => RequestModel::Network {
                host: host@,
                transport,
                port,
            },
            CapabilityRequest::Tool { tool, action } => RequestModel::Tool {
                tool: tool@,
                action: action@,
            },
        }
    }
}

/// A resource-free authorization result safe for API responses and audit events.
#[must_use]
#[derive(Clone, Copy, Debug, PartialEq, Eq, Structural)]
pub enum PolicyDecision {
    Allow,
    Deny { reason: DenialReason },
    ApprovalRequired,
}

/// Stable, non-sensitive reason for a denied operation.
#[derive(Clone, Copy, Debug, PartialEq, Eq, Structural)]
pub enum DenialReason {
    InvalidRequest,
    CapabilityNotGranted,
}

/// Whether `path` is `root` or lies below it.
pub open spec fn path_within(path: Seq<char>, root: Seq<char>) -> bool {
    let p = text::utf8(path);
    let r = text::utf8(root);
    p == r || (r.len() < p.len() && p.take(r.len() as int) == r && p[r.len() as int] == 0x2f)
}

impl RequestModel {
    /// The action under which an approval policy may list the request.
    pub open spec fn action(self) -> Seq<char> {
        match self {
            RequestModel::File { access, .. } => match access {
                FileAccess::Read => "filesystem.read"@,
                FileAccess::Write => "filesystem.write"@,
            },
            RequestModel::Network { .. } => "network.egress"@,
            RequestModel::Tool { action, .. } => action,
        }
    }

    /// Whether the request names its resource in the required form.
    pub open spec fn well_formed(self) -> bool {
        match self {
            RequestModel::File { path, .. } => task::is_normal_path(path),
            RequestModel::Network { host, port, .. } => task::is_network_host(host) && port != 0,
            RequestModel::Tool { tool, action } => text::is_identifier(
                tool,
                MAX_TOOL_NAME_BYTES as nat,
            ) && text::is_identifier(action, MAX_ACTION_BYTES as nat),
        }
    }
}

impl TaskModel {
    /// Whether a capability of the task covers the request.
    pub open spec fn grants(self, request: RequestModel) -> bool {
        match request {
            RequestModel::File { path, access } => exists|i: int|
                0 <= i < self.files.len() && (#[trigger] self.files[i]).access == access
                    && path_within(path, self.files[i].path),
            RequestModel::Network { host, transport, port } => match self.network {
                None => false,
                Some(list) => exists|i: int|
                    0 <= i < list.len() && (#[trigger] list[i]).host == host && list[i].transport
                        == transport && list[i].port == port,
            },
            RequestModel::Tool { tool, .. } => self.tools.contains(tool),
        }
    }

    /// The decision on a request: a function of the task and the request alone.
    pub open spec fn decide(self, request: RequestModel) -> PolicyDecision {
        if !request.well_formed() {
            PolicyDecision::Deny { reason: DenialReason::InvalidRequest }
        } else if !self.grants(request) {
            PolicyDecision::Deny { reason: DenialReason::CapabilityNotGranted }
        } else if self.required_for.contains(request.action()) {
            PolicyDecision::ApprovalRequired
        } else {
            PolicyDecision::Allow
        }
    }
}

/// Evaluates pre-execution operations against one validated task boundary.
pub struct CapabilityPolicy<'a> {
    task: &'a TaskSpec,
}

impl<'a> View for CapabilityPolicy<'a> {
    type V = TaskModel;

    closed spec fn view(&self) -> TaskModel {
        self.task@
    }
}

impl<'a> CapabilityPolicy<'a> {
    /// Creates a policy only when the complete task contract is valid.
    pub fn from_task(task: &'a TaskSpec) -> (r: Result<CapabilityPolicy<'a>, ValidationErrors>)
        ensures
            r is Ok <==> task@.valid(),
            r is Ok ==> (r->Ok_0)@ == task@,
            r is Err ==> (r->Err_0)@ == task@.issues() && (r->Err_0)@.len() > 0,
    {
        match task.validate() {
            Ok(()) => Ok(CapabilityPolicy { task }),
            Err(errors) => Err(errors),
        }
    }

    /// Returns a deterministic decision without including resource values.
    pub fn evaluate(&self, request: CapabilityRequest<'_>) -> (r: PolicyDecision)
        ensures
            r == self@.decide(request@),
    {
        match request {
            CapabilityRequest::File { path, access } => self.evaluate_file(path, access),
            CapabilityRequest::Network { host, transport, port } => self.evaluate_network(
                host,
                transport,
                port,
            ),
            CapabilityRequest::Tool { tool, action } => self.evaluate_tool(tool, action),
        }
    }

    fn evaluate_file(&self, path: &str, access: FileAccess) -> (r: PolicyDecision)
        ensures
            r == self@.decide(RequestModel::File { path: path@, access }),
    {
        if !is_normalized_absolute_path(path) {
            return invalid_request();
        }
        let files = &self.task.capabilities.filesystem;
        let ghost models = self@.files;
        let mut granted = false;
        let mut i: usize = 0;
        while i < files.len() && !granted
            invariant
                i <= files@.len(),
                models == task::file_models(files@),
                granted ==> exists|k: int|
                    0 <= k < models.len() && (#[trigger] models[k]).access == access
                        && path_within(path@, models[k].path),
                !granted ==> forall|k: int|
                    0 <= k < i ==> !((#[trigger] models[k]).access == access && path_within(
                        path@,
                        models[k].path,
                    )),
            decreases files@.len() - i,
        {
            assert(models[i as int] == files@[i as int]@);
            if files[i].access == access && path_is_within(path, files[i].path.as_str()) {
                granted = true;
            }
            i = i + 1;
        }
        let action = match access {
            FileAccess::Read => "filesystem.read",
            FileAccess::Write => "filesystem.write",
        };
        self.finish(granted, action)
    }

    fn evaluate_network(&self, host: &str, transport: NetworkTransport, port: u16) -> (r:
        PolicyDecision)
        ensures
            r == self@.decide(RequestModel::Network { host: host@, transport, port }),
    {
        if !is_valid_network_host(host) || port == 0 {
            return invalid_request();
        }
        let mut granted = false;
        match &self.task.capabilities.network {
            NetworkPolicy::Deny => {},
            NetworkPolicy::Allow { destinations } => {
                let ghost models = task::destination_models(destinations@);
                let mut i: usize = 0;
                while i < destinations.len() && !granted
                    invariant
                        i <= destinations@.len(),
                        models == task::destination_models(destinations@),
                        granted ==> exists|k: int|
                            0 <= k < models.len() && (#[trigger] models[k]).host == host@
                                && models[k].transport == transport && models[k].port == port,
                        !granted ==> forall|k: int|
                            0 <= k < i ==> !((#[trigger] models[k]).host == host@
                                && models[k].transport == transport && models[k].port == port),
                    decreases destinations@.len() - i,
                {
                    assert(models[i as int] == destinations@[i as int]@);
                    if destinations[i].transport == transport && destinations[i].port == port
                        && text_eq(destinations[i].host.as_str(), host) {
                        granted = true;
                    }
                    i = i + 1;
                }
            },
        }
        self.finish(granted, "network.egress")
    }

    fn evaluate_tool(&self, tool: &str, action: &str) -> (r: PolicyDecision)
        ensures
            r == self@.decide(RequestModel::Tool { tool: tool@, action: action@ }),
    {
        if !is_valid_identifier(tool, MAX_TOOL_NAME_BYTES) || !is_valid_identifier(
            action,
            MAX_ACTION_BYTES,
        ) {
            return invalid_request();
        }
        let granted = contains_text(&self.task.capabilities.tools, tool);
        self.finish(granted, action)
    }

    fn finish(&self, granted: bool, action: &str) -> (r: PolicyDecision)
        ensures
            r == if !granted {
                (PolicyDecision::Deny { reason: DenialReason::CapabilityNotGranted })
            } else if self@.required_for.contains(action@) {
                PolicyDecision::ApprovalRequired
            } else {
                PolicyDecision::Allow
            },
    {
        if !granted {
            return PolicyDecision::Deny { reason: DenialReason::CapabilityNotGranted };
        }
        if contains_text(&self.task.approval.required_for, action) {
            return PolicyDecision::ApprovalRequired;
        }
        PolicyDecision::Allow
    }
}

fn invalid_request() -> (r: PolicyDecision)
    ensures
        r == (PolicyDecision::Deny { reason: DenialReason::InvalidRequest }),
{
    PolicyDecision::Deny { reason: DenialReason::InvalidRequest }
}

/// Decides [`path_within`].
pub fn path_is_within(path: &str, capability_path: &str) -> (r: bool)
    ensures
        r == path_within(path@, capability_path@),
{
    let p = path.as_bytes();
    let root = capability_path.as_bytes();
    if p.len() <= root.len() {
        return bytes_eq(p, root);
    }
    let mut i: usize = 0;
    while i < root.len()
        invariant
            i <= root@.len() < p@.len(),
            forall|k: int| 0 <= k < i ==> p@[k] == root@[k],
            p@ == text::utf8(path@),
            root@ == text::utf8(capability_path@),
        decreases root@.len() - i,
    {
        if p[i] != root[i] {
            assert(p@.take(root@.len() as int)[i as int] != root@[i as int]);
            return false;
        }
        i = i + 1;
    }
    assert(p@.take(root@.len() as int) =~= root@);
    p[root.len()] == 0x2f
}

/// Nothing is allowed, and no approval is asked for, unless a capability covers the request.
pub proof fn law_nothing_without_a_grant(task: TaskModel, request: RequestModel)
    requires
        !task.grants(request),
    ensures
        task.decide(request) is Deny,
{
}

/// A listed action is never allowed without an approval.
pub proof fn law_listed_actions_need_approval(task: TaskModel, request: RequestModel)
    requires
        task.required_for.contains(request.action()),
    ensures
        !(task.decide(request) is Allow),
{
}

/// A deny policy denies every network request.
pub proof fn law_deny_policy_is_fail_closed(
    task: TaskModel,
    host: Seq<char>,
    transport: NetworkTransport,
    port: u16,
)
    requires
        task.network is None,
    ensures
        task.decide(RequestModel::Network { host, transport, port }) is Deny,
{
}

/// A request in the wrong form is denied whatever the task grants.
pub proof fn law_malformed_requests_are_denied(task: TaskModel, request: RequestModel)
    requires
        !request.well_formed(),
    ensures
        task.decide(request) == (PolicyDecision::Deny { reason: DenialReason::InvalidRequest }),
{
}

/// Containment of paths is transitive.
pub proof fn law_path_containment_is_transitive(a: Seq<char>, b: Seq<char>, c: Seq<char>)
    requires
        path_within(a, b),
        path_within(b, c),
    ensures
        path_within(a, c),
{
    let (x, y, z) = (text::utf8(a), text::utf8(b), text::utf8(c));
    if x != y && y != z {
        assert(x.take(z.len() as int) =~= y.take(z.len() as int)) by {
            assert(x.take(y.len() as int) == y);
            assert forall|k: int| 0 <= k < z.len() implies x[k] == y[k] by {
                assert(x.take(y.len() as int)[k] == x[k]);
            }
        }
        assert(x[z.len() as int] == x.take(y.len() as int)[z.len() as int]);
    }
}

/// A capability covers its own path and, with it, every path below a covered path.
pub proof fn law_grants_extend_to_descendants(
    task: TaskModel,
    path: Seq<char>,
    below: Seq<char>,
    access: FileAccess,
)
    requires
        task.grants(RequestModel::File { path, access }),
        path_within(below, path),
    ensures
        task.grants(RequestModel::File { path: below, access }),
{
    let i = choose|i: int|
        0 <= i < task.files.len() && (#[trigger] task.files[i]).access == access && path_within(
            path,
            task.files[i].path,
        );
    law_path_containment_is_transitive(below, path, task.files[i].path);
}

} // verus!
