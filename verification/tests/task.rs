//! Validation of submitted tasks.

use aios::task::{
    ApprovalPolicy, Budget, CapabilitySet, FileAccess, FileCapability, NetworkDestination,
    NetworkPolicy, NetworkTransport, TaskSpec,
};

fn destination(host: &str, port: u16) -> NetworkDestination {
    NetworkDestination {
        host: host.to_owned(),
        transport: NetworkTransport::Tcp,
        port,
    }
}

fn valid_task() -> TaskSpec {
    TaskSpec {
        idempotency_key: "repo-analysis-001".to_owned(),
        goal: "Analyze the repository and report test failures".to_owned(),
        capabilities: CapabilitySet {
            filesystem: vec![FileCapability {
                path: "/workspace/project".to_owned(),
                access: FileAccess::Read,
            }],
            network: NetworkPolicy::Deny,
            tools: vec!["test_runner".to_owned()],
        },
        budget: Budget {
            wall_time_seconds: 1_800,
            memory_bytes: 8_589_934_592,
            max_parallel_agents: 2,
        },
        approval: ApprovalPolicy {
            required_for: vec!["filesystem.write".to_owned(), "git.commit".to_owned()],
        },
    }
}

#[test]
fn accepts_valid_local_only_task() {
    assert_eq!(valid_task().validate(), Ok(()));
}

#[test]
fn rejects_blank_and_oversized_goals() {
    let mut blank = valid_task();
    blank.goal = " \n\t".to_owned();
    assert!(blank.validate().is_err());

    let mut oversized = valid_task();
    oversized.goal = "a".repeat(8_193);
    assert!(oversized.validate().is_err());
}

#[test]
fn rejects_path_traversal_root_and_relative_paths() {
    for path in [
        "/workspace/../secret",
        "/",
        "workspace/project",
        "/workspace//project",
    ] {
        let mut task = valid_task();
        task.capabilities.filesystem[0].path = path.to_owned();

        let errors = task.validate().expect_err("unsafe path must be rejected");
        assert!(
            errors
                .errors()
                .iter()
                .any(|error| error.field() == "capabilities.filesystem.path")
        );
    }
}

#[test]
fn rejects_zero_and_excessive_parallel_budgets() {
    let mut task = valid_task();
    task.budget.wall_time_seconds = 0;
    task.budget.memory_bytes = 0;
    task.budget.max_parallel_agents = 9;

    let errors = task
        .validate()
        .expect_err("invalid budgets must be rejected");
    assert_eq!(errors.errors().len(), 3);
}

#[test]
fn rejects_network_allow_without_destinations() {
    let mut task = valid_task();
    task.capabilities.network = NetworkPolicy::Allow {
        destinations: Vec::new(),
    };

    assert!(task.validate().is_err());
}

#[test]
fn accepts_exact_tcp_destinations_and_ip_addresses() {
    let mut task = valid_task();
    task.capabilities.network = NetworkPolicy::Allow {
        destinations: vec![
            destination("api.example.com", 443),
            destination("127.0.0.1", 8080),
            destination("2001:db8::1", 8443),
        ],
    };

    assert_eq!(task.validate(), Ok(()));
}

#[test]
fn rejects_schemes_paths_embedded_ports_and_invalid_host_names() {
    for host in [
        "https://example.com",
        "example.com/path",
        "example.com:443",
        "Example.com",
        "-invalid.example",
        "invalid..example",
    ] {
        let mut task = valid_task();
        task.capabilities.network = NetworkPolicy::Allow {
            destinations: vec![destination(host, 443)],
        };

        assert!(task.validate().is_err(), "host should be rejected: {host}");
    }
}

#[test]
fn rejects_duplicate_capability_entries() {
    let mut task = valid_task();
    task.capabilities.tools = vec!["test_runner".to_owned(), "test_runner".to_owned()];
    task.approval.required_for = vec!["git.commit".to_owned(), "git.commit".to_owned()];
    task.capabilities.network = NetworkPolicy::Allow {
        destinations: vec![
            destination("example.com", 443),
            destination("example.com", 443),
        ],
    };

    let errors = task
        .validate()
        .expect_err("duplicate entries must be rejected");
    assert_eq!(
        errors
            .errors()
            .iter()
            .filter(|error| error.message().contains("duplicate"))
            .count(),
        3
    );
}

#[test]
fn allows_same_host_on_distinct_ports() {
    let mut task = valid_task();
    task.capabilities.network = NetworkPolicy::Allow {
        destinations: vec![
            destination("api.example.com", 443),
            destination("api.example.com", 8443),
        ],
    };

    assert_eq!(task.validate(), Ok(()));
}

#[test]
fn errors_do_not_echo_sensitive_input() {
    let mut task = valid_task();
    task.goal = "".to_owned();
    task.idempotency_key = "secret value".to_owned();

    let errors = task.validate().expect_err("task must be invalid");
    let message = errors
        .errors()
        .iter()
        .map(|error| error.display())
        .collect::<Vec<_>>()
        .join(" ");

    assert!(!message.contains("secret value"));
}

#[test]
fn rejects_zero_ports() {
    let mut task = valid_task();
    task.capabilities.network = NetworkPolicy::Allow {
        destinations: vec![destination("api.example.com", 0)],
    };
    let errors = task.validate().expect_err("port zero must be rejected");
    assert!(
        errors
            .errors()
            .iter()
            .any(|error| error.field() == "capabilities.network.destinations.port")
    );
}

#[test]
fn network_is_denied_by_default() {
    assert!(matches!(NetworkPolicy::default(), NetworkPolicy::Deny));
}

#[test]
fn counts_the_failures_in_its_text() {
    let mut task = valid_task();
    task.goal = String::new();
    task.budget.memory_bytes = 0;

    let errors = task.validate().expect_err("two fields are invalid");
    assert_eq!(errors.display(), "task validation failed with 2 error(s)");
}

#[test]
fn goals_are_measured_in_characters() {
    let mut task = valid_task();
    task.goal = "\u{00e9}".repeat(8_192);
    assert_eq!(task.validate(), Ok(()));
    task.goal = "\u{00e9}".repeat(8_193);
    assert!(task.validate().is_err());
}

#[test]
fn copies_are_the_same_task() {
    let task = valid_task();
    let copy = task.clone();
    assert!(task.same_as(&copy));

    let mut other = task.clone();
    other.budget.memory_bytes += 1;
    assert!(!task.same_as(&other));
}
