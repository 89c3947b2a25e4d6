//! Capability decisions.

use aios::policy::{
    CapabilityPolicy, CapabilityRequest, DenialReason, PolicyDecision, path_is_within,
};
use aios::task::{
    ApprovalPolicy, Budget, CapabilitySet, FileAccess, FileCapability, NetworkDestination,
    NetworkPolicy, NetworkTransport, TaskSpec,
};

fn task() -> TaskSpec {
    TaskSpec {
        idempotency_key: "policy-test-001".to_owned(),
        goal: "Evaluate a capability request".to_owned(),
        capabilities: CapabilitySet {
            filesystem: vec![
                FileCapability {
                    path: "/workspace/project".to_owned(),
                    access: FileAccess::Read,
                },
                FileCapability {
                    path: "/workspace-output".to_owned(),
                    access: FileAccess::Write,
                },
            ],
            network: NetworkPolicy::Allow {
                destinations: vec![
                    NetworkDestination {
                        host: "api.example.com".to_owned(),
                        transport: NetworkTransport::Tcp,
                        port: 443,
                    },
                    NetworkDestination {
                        host: "127.0.0.1".to_owned(),
                        transport: NetworkTransport::Tcp,
                        port: 8080,
                    },
                ],
            },
            tools: vec!["git".to_owned(), "test_runner".to_owned()],
        },
        budget: Budget {
            wall_time_seconds: 60,
            memory_bytes: 1_048_576,
            max_parallel_agents: 1,
        },
        approval: ApprovalPolicy {
            required_for: vec![
                "filesystem.write".to_owned(),
                "git.commit".to_owned(),
                "network.egress".to_owned(),
            ],
        },
    }
}

#[test]
fn allows_exact_and_descendant_read_paths() {
    let task = task();
    let policy = CapabilityPolicy::from_task(&task).expect("valid policy");

    for path in ["/workspace/project", "/workspace/project/src/lib.rs"] {
        assert_eq!(
            policy.evaluate(CapabilityRequest::File {
                path,
                access: FileAccess::Read,
            }),
            PolicyDecision::Allow
        );
    }
}

#[test]
fn denies_sibling_prefix_and_ungranted_access_mode() {
    let task = task();
    let policy = CapabilityPolicy::from_task(&task).expect("valid policy");

    for request in [
        CapabilityRequest::File {
            path: "/workspace/project-private/secret",
            access: FileAccess::Read,
        },
        CapabilityRequest::File {
            path: "/workspace/project/src/lib.rs",
            access: FileAccess::Write,
        },
        CapabilityRequest::File {
            path: "/workspace-output/result.txt",
            access: FileAccess::Read,
        },
    ] {
        assert_eq!(
            policy.evaluate(request),
            PolicyDecision::Deny {
                reason: DenialReason::CapabilityNotGranted,
            }
        );
    }
}

#[test]
fn rejects_invalid_paths_before_capability_matching() {
    let task = task();
    let policy = CapabilityPolicy::from_task(&task).expect("valid policy");

    for path in [
        "workspace/project",
        "/workspace/project/../secret",
        "/workspace//project",
        "/",
    ] {
        assert_eq!(
            policy.evaluate(CapabilityRequest::File {
                path,
                access: FileAccess::Read,
            }),
            PolicyDecision::Deny {
                reason: DenialReason::InvalidRequest,
            }
        );
    }
}

#[test]
fn requires_approval_only_after_capability_is_granted() {
    let task = task();
    let policy = CapabilityPolicy::from_task(&task).expect("valid policy");

    assert_eq!(
        policy.evaluate(CapabilityRequest::File {
            path: "/workspace-output/result.txt",
            access: FileAccess::Write,
        }),
        PolicyDecision::ApprovalRequired
    );
    assert_eq!(
        policy.evaluate(CapabilityRequest::File {
            path: "/private/result.txt",
            access: FileAccess::Write,
        }),
        PolicyDecision::Deny {
            reason: DenialReason::CapabilityNotGranted,
        }
    );
}

#[test]
fn network_policy_uses_exact_validated_destinations() {
    let task = task();
    let policy = CapabilityPolicy::from_task(&task).expect("valid policy");

    for (host, port) in [("api.example.com", 443), ("127.0.0.1", 8080)] {
        assert_eq!(
            policy.evaluate(CapabilityRequest::Network {
                host,
                transport: NetworkTransport::Tcp,
                port,
            }),
            PolicyDecision::ApprovalRequired
        );
    }
    assert_eq!(
        policy.evaluate(CapabilityRequest::Network {
            host: "sub.api.example.com",
            transport: NetworkTransport::Tcp,
            port: 443,
        }),
        PolicyDecision::Deny {
            reason: DenialReason::CapabilityNotGranted,
        }
    );
    assert_eq!(
        policy.evaluate(CapabilityRequest::Network {
            host: "api.example.com",
            transport: NetworkTransport::Tcp,
            port: 80,
        }),
        PolicyDecision::Deny {
            reason: DenialReason::CapabilityNotGranted,
        }
    );
    for host in [
        "API.EXAMPLE.COM",
        "https://api.example.com",
        "api.example.com:443",
    ] {
        assert_eq!(
            policy.evaluate(CapabilityRequest::Network {
                host,
                transport: NetworkTransport::Tcp,
                port: 443,
            }),
            PolicyDecision::Deny {
                reason: DenialReason::InvalidRequest,
            }
        );
    }
    assert_eq!(
        policy.evaluate(CapabilityRequest::Network {
            host: "api.example.com",
            transport: NetworkTransport::Tcp,
            port: 0,
        }),
        PolicyDecision::Deny {
            reason: DenialReason::InvalidRequest,
        }
    );
}

#[test]
fn deny_network_policy_is_fail_closed() {
    let mut task = task();
    task.capabilities.network = NetworkPolicy::Deny;
    let policy = CapabilityPolicy::from_task(&task).expect("valid policy");

    assert_eq!(
        policy.evaluate(CapabilityRequest::Network {
            host: "api.example.com",
            transport: NetworkTransport::Tcp,
            port: 443,
        }),
        PolicyDecision::Deny {
            reason: DenialReason::CapabilityNotGranted,
        }
    );
}

#[test]
fn tool_capability_and_action_approval_are_independent() {
    let task = task();
    let policy = CapabilityPolicy::from_task(&task).expect("valid policy");

    assert_eq!(
        policy.evaluate(CapabilityRequest::Tool {
            tool: "git",
            action: "git.status",
        }),
        PolicyDecision::Allow
    );
    assert_eq!(
        policy.evaluate(CapabilityRequest::Tool {
            tool: "git",
            action: "git.commit",
        }),
        PolicyDecision::ApprovalRequired
    );
    assert_eq!(
        policy.evaluate(CapabilityRequest::Tool {
            tool: "shell",
            action: "git.commit",
        }),
        PolicyDecision::Deny {
            reason: DenialReason::CapabilityNotGranted,
        }
    );
}

#[test]
fn refuses_to_build_policy_from_invalid_task() {
    let mut task = task();
    task.capabilities.filesystem[0].path = "/workspace/../secret".to_owned();

    assert!(CapabilityPolicy::from_task(&task).is_err());
}

#[test]
fn invalid_tool_request_is_denied_without_echoing_values() {
    let task = task();
    let policy = CapabilityPolicy::from_task(&task).expect("valid policy");
    let decision = policy.evaluate(CapabilityRequest::Tool {
        tool: "git;secret-value",
        action: "git.commit",
    });

    assert_eq!(
        decision,
        PolicyDecision::Deny {
            reason: DenialReason::InvalidRequest,
        }
    );
    assert!(!format!("{decision:?}").contains("secret-value"));
}

#[test]
fn containment_is_by_component() {
    assert!(path_is_within("/workspace/project", "/workspace/project"));
    assert!(path_is_within("/workspace/project/a", "/workspace/project"));
    assert!(!path_is_within("/workspace/project-a", "/workspace/project"));
    assert!(!path_is_within("/workspace", "/workspace/project"));
}
