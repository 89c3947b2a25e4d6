//! Laws on capability decisions.

use vstd::prelude::*;

use crate::execution::GuardedOperation;
use crate::filesystem;
use crate::filesystem::{FilesystemWriteOperation, WriteRequest};
use crate::laws::text as texts;
use crate::network;
use crate::network::{ExchangeRequest, TcpExchangeOperation};
use crate::policy;
use crate::policy::{DenialReason, PolicyDecision, RequestModel};
use crate::task::{FileAccess, NetworkTransport, TaskModel};
use crate::text;
use crate::tool::ToolOperation;

verus! {

/// A task that lists `filesystem.read`, `filesystem.write` or `network.egress` gets no file read,
/// no file write and no exchange without an approval.
pub proof fn law_listed_resources_need_approval(
    t: TaskModel,
    path: Seq<char>,
    host: Seq<char>,
    transport: NetworkTransport,
    port: u16,
)
    ensures
        t.required_for.contains("filesystem.read"@) ==> !(t.decide(
            RequestModel::File { path, access: FileAccess::Read },
        ) is Allow),
        t.required_for.contains("filesystem.write"@) ==> !(t.decide(
            RequestModel::File { path, access: FileAccess::Write },
        ) is Allow),
        t.required_for.contains("network.egress"@) ==> !(t.decide(
            RequestModel::Network { host, transport, port },
        ) is Allow),
{
}

/// A file read, a file write or an exchange needs an approval only where the task lists it under
/// its own name.
pub proof fn law_unlisted_resources_need_no_approval(
    t: TaskModel,
    path: Seq<char>,
    host: Seq<char>,
    transport: NetworkTransport,
    port: u16,
)
    ensures
        t.decide(RequestModel::File { path, access: FileAccess::Read }) is ApprovalRequired
            ==> t.required_for.contains("filesystem.read"@),
        t.decide(RequestModel::File { path, access: FileAccess::Write }) is ApprovalRequired
            ==> t.required_for.contains("filesystem.write"@),
        t.decide(RequestModel::Network { host, transport, port }) is ApprovalRequired
            ==> t.required_for.contains("network.egress"@),
{
}

/// A tool call needs an approval exactly where the task grants the tool and lists the action.
pub proof fn law_tool_calls_go_by_tool_and_action(
    t: TaskModel,
    name: Seq<char>,
    action: Seq<char>,
)
    requires
        text::is_identifier(name, 64),
        text::is_identifier(action, 64),
    ensures
        t.decide(RequestModel::Tool { tool: name, action }) == (if !t.tools.contains(name) {
            PolicyDecision::Deny { reason: DenialReason::CapabilityNotGranted }
        } else if t.required_for.contains(action) {
            PolicyDecision::ApprovalRequired
        } else {
            PolicyDecision::Allow
        }),
{
}

/// A path lies within itself and within what stands before any of its slashes, and within
/// nothing else.
pub proof fn law_paths_lie_within_their_prefixes(path: Seq<char>, rest: Seq<char>)
    ensures
        policy::path_within(path, path),
        policy::path_within(path + seq!['/'] + rest, path),
{
    texts::lemma_joined_by(path, '/', rest);
    let (a, b) = (text::utf8(path), text::utf8(rest));
    assert((a + seq![0x2fu8] + b).take(a.len() as int) =~= a);
}

/// What lies within a path is the path, or goes on from it with a slash.
pub proof fn law_what_lies_within_goes_on_with_a_slash(path: Seq<char>, root: Seq<char>)
    requires
        policy::path_within(path, root),
        path != root,
    ensures
        exists|rest: Seq<u8>|
            #![trigger text::utf8(root) + seq!['/' as u8] + rest]
            text::utf8(path) == text::utf8(root) + seq!['/' as u8] + rest,
{
    let (p, r) = (text::utf8(path), text::utf8(root));
    if p == r {
        text::lemma_utf8_injective(path, root);
    }
    let rest = p.skip(r.len() as int + 1);
    assert forall|i: int| 0 <= i < r.len() implies p[i] == r[i] by {
        assert(p.take(r.len() as int)[i] == r[i]);
    }
    assert(p =~= r + seq!['/' as u8] + rest);
}

/// A file capability covers its path and what lies below it, for its own access: such a request,
/// well formed and not listed, is allowed.
pub proof fn law_file_capabilities_cover_what_lies_below(
    t: TaskModel,
    i: int,
    path: Seq<char>,
    access: FileAccess,
)
    requires
        0 <= i < t.files.len(),
        t.files[i].access == access,
        policy::path_within(path, t.files[i].path),
        crate::task::is_normal_path(path),
        !t.required_for.contains("filesystem.read"@),
        !t.required_for.contains("filesystem.write"@),
    ensures
        t.decide(RequestModel::File { path, access }) is Allow,
{
}

/// A file request that is not denied is covered by a capability of the same access.
pub proof fn law_file_requests_need_their_own_access(
    t: TaskModel,
    path: Seq<char>,
    access: FileAccess,
)
    requires
        !(t.decide(RequestModel::File { path, access }) is Deny),
    ensures
        exists|i: int|
            0 <= i < t.files.len() && (#[trigger] t.files[i]).access == access
                && policy::path_within(path, t.files[i].path),
        crate::task::is_normal_path(path),
{
}

/// An exchange is allowed, or asks for an approval, exactly where the task names its host,
/// transport and port.
pub proof fn law_exchanges_need_their_own_destination(
    t: TaskModel,
    host: Seq<char>,
    transport: NetworkTransport,
    port: u16,
)
    requires
        crate::task::is_network_host(host),
        port != 0,
    ensures
        !(t.decide(RequestModel::Network { host, transport, port }) is Deny) <==> t.network is Some
            && exists|i: int|
            0 <= i < t.network->0.len() && (#[trigger] t.network->0[i]).host == host
                && t.network->0[i].transport == transport && t.network->0[i].port == port,
        t.decide(RequestModel::Network { host, transport, port }) is Deny ==> t.decide(
            RequestModel::Network { host, transport, port },
        ) == (PolicyDecision::Deny { reason: DenialReason::CapabilityNotGranted }),
{
    if t.network is Some {
        let list = t.network->0;
        if exists|i: int|
            0 <= i < list.len() && (#[trigger] list[i]).host == host && list[i].transport
                == transport && list[i].port == port {
            let i = choose|i: int|
                0 <= i < list.len() && (#[trigger] list[i]).host == host && list[i].transport
                    == transport && list[i].port == port;
            assert(t.network->0[i].host == host);
        }
    }
}

/// A request for port 0, for what is no host, for what is no normal path, or for a tool or an
/// action that is no identifier of at most 64 bytes, is answered as invalid.
pub proof fn law_requests_are_checked_before_grants(
    t: TaskModel,
    path: Seq<char>,
    access: FileAccess,
    host: Seq<char>,
    transport: NetworkTransport,
    port: u16,
    name: Seq<char>,
    action: Seq<char>,
)
    ensures
        ({
            let invalid = PolicyDecision::Deny { reason: DenialReason::InvalidRequest };
            &&& !crate::task::is_normal_path(path) <==> t.decide(RequestModel::File { path, access })
                == invalid
            &&& (!crate::task::is_network_host(host) || port == 0) <==> t.decide(
                RequestModel::Network { host, transport, port },
            ) == invalid
            &&& (!text::is_identifier(name, 64) || !text::is_identifier(action, 64)) <==> t.decide(
                RequestModel::Tool { tool: name, action },
            ) == invalid
        }),
{
}

/// What an operation asks for is what it does: the creation of a file is allowed only by a
/// capability to write at its path, an exchange only by a TCP destination with its host and port,
/// and a call only by its tool.
pub proof fn law_operations_ask_for_what_they_do(
    t: TaskModel,
    write: FilesystemWriteOperation,
    exchange: TcpExchangeOperation,
    call: ToolOperation,
)
    ensures
        !(t.decide(write.asks()) is Deny) ==> exists|i: int|
            0 <= i < t.files.len() && (#[trigger] t.files[i]).access is Write
                && policy::path_within(write@.path, t.files[i].path),
        !(t.decide(exchange.asks()) is Deny) ==> t.network is Some && exists|i: int|
            0 <= i < t.network->0.len() && (#[trigger] t.network->0[i]).host == exchange@.host
                && t.network->0[i].transport is Tcp && t.network->0[i].port == exchange@.port,
        !(t.decide(call.asks()) is Deny) ==> t.tools.contains(call@.tool),
        t.required_for.contains("filesystem.write"@) ==> !(t.decide(write.asks()) is Allow),
        t.required_for.contains("network.egress"@) ==> !(t.decide(exchange.asks()) is Allow),
        t.required_for.contains(call@.action) ==> !(t.decide(call.asks()) is Allow),
{
    if !(t.decide(exchange.asks()) is Deny) {
        law_exchanges_need_their_own_destination(
            t,
            exchange@.host,
            NetworkTransport::Tcp,
            exchange@.port,
        );
    }
}

/// An operation that is bound to the budget of its task is the same operation with that deadline.
pub proof fn law_bound_operations_stay_the_same(
    write: WriteRequest,
    exchange: ExchangeRequest,
    deadline: Option<u128>,
)
    ensures
        ({
            let bound = filesystem::bound_to(write, deadline);
            bound.path == write.path && bound.contents == write.contents && bound.deadline
                == deadline
        }),
        ({
            let bound = network::bound_to(exchange, deadline);
            bound.host == exchange.host && bound.port == exchange.port && bound.request
                == exchange.request && bound.deadline == deadline
        }),
{
}

} // verus!
