//! The local API and its command lines.

use aios::api::client;
use aios::api::client::{CliError, Command, check_task_file};
use aios::api::daemon;
use aios::api::frame::{frame_length, read_frame, write_frame};
use aios::api::service::{
    ApiErrorCode, ApiMethod, ApiOutcome, ApiRequest, ApiResponse, ApiResult, ApiService,
    SubmissionDisposition, SupportedProtocolVersions, accept_response, frame_response,
    invalid_request, oversize_response,
};
use aios::api::socket::{Observed, check_socket_path, owns_socket, prepare_socket_parent};
use aios::api::{
    LocalApiError, MAX_SUPPORTED_PROTOCOL_VERSION, MIN_SUPPORTED_PROTOCOL_VERSION,
    PROTOCOL_VERSION, ServerConfig,
};
use aios::event::InMemoryEventStore;
use aios::ids::TaskId;
use aios::process::facts::FileFacts;
use aios::state::TaskState;
use aios::supervisor::TaskSupervisor;
use aios::task::{
    ApprovalPolicy, Budget, CapabilitySet, FileAccess, FileCapability, NetworkPolicy, TaskSpec,
};
use aios::time::Duration;

fn example_task() -> TaskSpec {
    TaskSpec {
        idempotency_key: "repo-analysis-001".to_owned(),
        goal: "Analyze the repository and report test failures".to_owned(),
        capabilities: CapabilitySet {
            filesystem: vec![FileCapability {
                path: "/workspace/project".to_owned(),
                access: FileAccess::Read,
            }],
            network: NetworkPolicy::Deny,
            tools: vec!["test_runner".to_owned()],
        },
        budget: Budget {
            wall_time_seconds: 1_800,
            memory_bytes: 8_589_934_592,
            max_parallel_agents: 2,
        },
        approval: ApprovalPolicy {
            required_for: vec!["git.commit".to_owned()],
        },
    }
}

fn service() -> ApiService<InMemoryEventStore> {
    ApiService::new(TaskSupervisor::new(InMemoryEventStore::default()))
}

fn submitted(service: &mut ApiService<InMemoryEventStore>, task: TaskSpec) -> ApiResult {
    match service
        .handle(ApiRequest::new(ApiMethod::Submit {
            task: Box::new(task),
        }))
        .outcome
    {
        ApiOutcome::Success { result } => result,
        ApiOutcome::Error { .. } => panic!("task should be submitted"),
    }
}

fn error_code(response: ApiResponse) -> Option<ApiErrorCode> {
    match response.outcome {
        ApiOutcome::Error { error } => Some(error.code),
        ApiOutcome::Success { .. } => None,
    }
}

fn words(list: &[&str]) -> Vec<String> {
    list.iter().map(|word| (*word).to_owned()).collect()
}

// ------------------------------------------------------------------- framing

#[test]
fn framing_round_trip_preserves_payload() {
    let payload = br#"{"method":"health"}"#;
    let bytes = write_frame(payload, 1024).expect("write frame");

    assert_eq!(
        read_frame(&bytes, 1024).expect("read frame"),
        Some(payload.to_vec())
    );
}

#[test]
fn framing_rejects_oversized_payload_before_allocation() {
    assert!(matches!(
        read_frame(&2048_u32.to_be_bytes(), 1024),
        Err(LocalApiError::FrameTooLarge)
    ));
}

#[test]
fn framing_is_exact_about_lengths() {
    assert_eq!(
        write_frame(b"ab", 1024).expect("write frame"),
        vec![0, 0, 0, 2, b'a', b'b']
    );
    assert_eq!(read_frame(b"", 1024), Ok(None));
    assert_eq!(read_frame(&[0, 0, 0], 1024), Err(LocalApiError::Protocol));
    assert_eq!(
        read_frame(&[0, 0, 0, 0], 1024),
        Err(LocalApiError::Protocol)
    );
    assert_eq!(
        read_frame(&[0, 0, 0, 2, b'a'], 1024),
        Err(LocalApiError::Protocol)
    );
    assert_eq!(
        read_frame(&[0, 0, 0, 1, b'a', b'z'], 1024),
        Ok(Some(vec![b'a']))
    );
    assert_eq!(frame_length(&[0, 1, 0, 0], 65_536), Ok(65_536));
    assert_eq!(write_frame(b"", 1024), Err(LocalApiError::FrameTooLarge));
    assert_eq!(write_frame(b"abc", 2), Err(LocalApiError::FrameTooLarge));
}

// ------------------------------------------------------------------- service

#[test]
fn service_reports_health_without_task_access() {
    let mut service = service();
    let response = service.handle(ApiRequest::new(ApiMethod::Health {}));
    let shown = format!("{response:?}");

    assert_eq!(response.protocol_version, PROTOCOL_VERSION);
    assert!(shown.contains("Healthy"));
    assert!(!shown.contains("goal"));
    assert!(matches!(
        response.outcome,
        ApiOutcome::Success {
            result: ApiResult::Healthy {
                supported_protocol_versions: SupportedProtocolVersions {
                    minimum: 4,
                    maximum: 4,
                },
            }
        }
    ));
}

#[test]
fn service_rejects_unsupported_protocol_version() {
    let mut service = service();
    let response = service.handle(ApiRequest {
        protocol_version: PROTOCOL_VERSION + 1,
        request: ApiMethod::Health {},
    });

    assert_eq!(
        error_code(response),
        Some(ApiErrorCode::UnsupportedProtocolVersion)
    );
}

#[test]
fn service_runs_task_lifecycle_and_pages_events() {
    let mut service = service();
    let task_id = match submitted(&mut service, example_task()) {
        ApiResult::Submitted { task, .. } => task.task_id,
        _ => panic!("task should be accepted"),
    };

    for request in [
        ApiMethod::Start { task_id },
        ApiMethod::WaitForApproval { task_id },
        ApiMethod::Approve { task_id },
        ApiMethod::Succeed { task_id },
    ] {
        assert!(matches!(
            service.handle(ApiRequest::new(request)).outcome,
            ApiOutcome::Success { .. }
        ));
    }

    assert!(matches!(
        service
            .handle(ApiRequest::new(ApiMethod::GetTask { task_id }))
            .outcome,
        ApiOutcome::Success {
            result: ApiResult::Task { task }
        } if task.state == TaskState::Succeeded
    ));
    assert!(matches!(
        service.handle(ApiRequest::new(ApiMethod::Events {
            task_id,
            after_sequence: 0,
            limit: 2,
        })).outcome,
        ApiOutcome::Success {
            result: ApiResult::Events {
                events,
                has_more: true,
            }
        } if events.len() == 2
    ));
}

#[test]
fn published_supported_window_is_exactly_version_four() {
    assert_eq!(MIN_SUPPORTED_PROTOCOL_VERSION, 4);
    assert_eq!(MAX_SUPPORTED_PROTOCOL_VERSION, 4);
    assert_eq!(PROTOCOL_VERSION, 4);
}

#[test]
fn submissions_are_told_apart() {
    let mut service = service();
    assert!(matches!(
        submitted(&mut service, example_task()),
        ApiResult::Submitted {
            disposition: SubmissionDisposition::Accepted,
            ..
        }
    ));
    assert!(matches!(
        submitted(&mut service, example_task()),
        ApiResult::Submitted {
            disposition: SubmissionDisposition::Existing,
            ..
        }
    ));
    let mut invalid = example_task();
    invalid.idempotency_key = "other".to_owned();
    invalid.goal = String::new();
    let ApiResult::Submitted {
        disposition: SubmissionDisposition::Rejected,
        task,
        validation_errors,
    } = submitted(&mut service, invalid)
    else {
        panic!("task should be rejected");
    };
    assert_eq!(task.state, TaskState::Rejected);
    assert_eq!(validation_errors.len(), 1);
    assert_eq!(validation_errors[0].field, "goal");

    let mut conflicting = example_task();
    conflicting.goal = "Something else".to_owned();
    assert_eq!(
        error_code(service.handle(ApiRequest::new(ApiMethod::Submit {
            task: Box::new(conflicting),
        }))),
        Some(ApiErrorCode::IdempotencyConflict)
    );
}

#[test]
fn failures_have_their_codes() {
    let mut service = service();
    let unknown = TaskId { value: 1 };
    for request in [
        ApiMethod::GetTask { task_id: unknown },
        ApiMethod::Start { task_id: unknown },
        ApiMethod::Cancel { task_id: unknown },
        ApiMethod::Events {
            task_id: unknown,
            after_sequence: 0,
            limit: 1,
        },
    ] {
        assert_eq!(
            error_code(service.handle(ApiRequest::new(request))),
            Some(ApiErrorCode::TaskNotFound)
        );
    }
    for limit in [0, 257] {
        assert_eq!(
            error_code(service.handle(ApiRequest::new(ApiMethod::Events {
                task_id: unknown,
                after_sequence: 0,
                limit,
            }))),
            Some(ApiErrorCode::InvalidRequest)
        );
    }
    let ApiResult::Submitted { task, .. } = submitted(&mut service, example_task()) else {
        panic!("task should be accepted");
    };
    assert_eq!(
        error_code(service.handle(ApiRequest::new(ApiMethod::Succeed {
            task_id: task.task_id
        }))),
        Some(ApiErrorCode::InvalidStateTransition)
    );

    let mut full = ApiService::new(
        TaskSupervisor::with_max_tasks(InMemoryEventStore::default(), 1)
            .ok()
            .expect("positive capacity"),
    );
    submitted(&mut full, example_task());
    let mut second = example_task();
    second.idempotency_key = "second".to_owned();
    assert_eq!(
        error_code(full.handle(ApiRequest::new(ApiMethod::Submit {
            task: Box::new(second),
        }))),
        Some(ApiErrorCode::CapacityExceeded)
    );

    let mut unwritable = ApiService::new(TaskSupervisor::new(
        InMemoryEventStore::new(2).ok().expect("positive capacity"),
    ));
    assert_eq!(
        error_code(unwritable.handle(ApiRequest::new(ApiMethod::Submit {
            task: Box::new(example_task()),
        }))),
        Some(ApiErrorCode::StorageUnavailable)
    );
}

#[test]
fn cancellation_reports_whether_it_changed_anything() {
    let mut service = service();
    let ApiResult::Submitted { task, .. } = submitted(&mut service, example_task()) else {
        panic!("task should be accepted");
    };
    for expected in [true, false] {
        assert!(matches!(
            service
                .handle(ApiRequest::new(ApiMethod::Cancel {
                    task_id: task.task_id
                }))
                .outcome,
            ApiOutcome::Success {
                result: ApiResult::Cancelled { task, changed }
            } if changed == expected && task.state == TaskState::Cancelled
        ));
    }
}

#[test]
fn pages_follow_one_another() {
    let mut service = service();
    let ApiResult::Submitted { task, .. } = submitted(&mut service, example_task()) else {
        panic!("task should be accepted");
    };
    let mut seen = Vec::new();
    let mut after_sequence = 0;
    loop {
        let ApiOutcome::Success {
            result: ApiResult::Events { events, has_more },
        } = service
            .handle(ApiRequest::new(ApiMethod::Events {
                task_id: task.task_id,
                after_sequence,
                limit: 1,
            }))
            .outcome
        else {
            panic!("events should be listed");
        };
        after_sequence = events[0].sequence;
        seen.push(after_sequence);
        if !has_more {
            break;
        }
    }
    assert_eq!(seen, vec![1, 2, 3]);
}

#[test]
fn transport_failures_are_answered_or_kept() {
    assert_eq!(
        error_code(invalid_request()),
        Some(ApiErrorCode::InvalidRequest)
    );
    assert_eq!(
        frame_response(LocalApiError::FrameTooLarge)
            .ok()
            .and_then(error_code),
        Some(ApiErrorCode::FrameTooLarge)
    );
    assert_eq!(
        frame_response(LocalApiError::Protocol).err(),
        Some(LocalApiError::Protocol)
    );
    assert!(oversize_response(1_024, 1_024).is_none());
    assert_eq!(
        oversize_response(1_025, 1_024).and_then(error_code),
        Some(ApiErrorCode::ResponseTooLarge)
    );
    let mut other = invalid_request();
    assert!(accept_response(invalid_request()).is_ok());
    other.protocol_version = 3;
    assert_eq!(accept_response(other).err(), Some(LocalApiError::Protocol));
}

#[test]
fn server_limits_are_bounded() {
    assert!(ServerConfig::default().validate().is_ok());
    for max_frame_bytes in [1_023, 1_048_577] {
        assert_eq!(
            ServerConfig {
                max_frame_bytes,
                ..ServerConfig::default()
            }
            .validate(),
            Err(LocalApiError::InvalidConfig)
        );
    }
    assert_eq!(
        ServerConfig {
            connection_timeout: Duration::from_nanos(0),
            ..ServerConfig::default()
        }
        .validate(),
        Err(LocalApiError::InvalidConfig)
    );
}

// -------------------------------------------------------------------- socket

fn found(directory: bool, mode: u32) -> Observed {
    Observed::Found(FileFacts {
        symlink: false,
        directory,
        regular: !directory,
        mode,
        device: 1,
        inode: 2,
        length: 0,
        links: 1,
    })
}

#[test]
fn sockets_stand_in_private_directories() {
    let path = b"/run/aios/aiosd.sock";
    assert_eq!(prepare_socket_parent(path, Observed::Missing), Ok(true));
    assert_eq!(prepare_socket_parent(path, found(true, 0o700)), Ok(false));
    for unsafe_parent in [found(true, 0o755), found(false, 0o700)] {
        assert_eq!(
            prepare_socket_parent(path, unsafe_parent),
            Err(LocalApiError::UnsafeSocketDirectory)
        );
    }
    assert_eq!(
        prepare_socket_parent(path, Observed::Unreadable),
        Err(LocalApiError::Io)
    );
    for orphan in [b"aiosd.sock".as_slice(), b"/", b"", b"."] {
        assert_eq!(
            prepare_socket_parent(orphan, Observed::Missing),
            Err(LocalApiError::InvalidConfig)
        );
    }
    assert_eq!(prepare_socket_parent(b"./a", found(true, 0o700)), Ok(false));
}

#[test]
fn existing_paths_are_left_alone() {
    assert_eq!(check_socket_path(Observed::Missing), Ok(()));
    assert_eq!(
        check_socket_path(found(false, 0o600)),
        Err(LocalApiError::SocketAlreadyExists)
    );
    assert_eq!(
        check_socket_path(Observed::Unreadable),
        Err(LocalApiError::Io)
    );
    assert!(owns_socket(found(false, 0o600), true, 1, 2));
    assert!(!owns_socket(found(false, 0o600), false, 1, 2));
    assert!(!owns_socket(found(false, 0o600), true, 1, 3));
    assert!(!owns_socket(Observed::Missing, true, 1, 2));
}

// ------------------------------------------------------------- command lines

#[test]
fn parses_required_paths() {
    let options = daemon::Options::parse(&words(&[
        "--socket",
        "/tmp/aios/aiosd.sock",
        "--database",
        "/tmp/aios/events.sqlite",
    ]))
    .expect("valid options");

    assert_eq!(options.socket, "/tmp/aios/aiosd.sock");
    assert_eq!(options.database, "/tmp/aios/events.sqlite");
}

#[test]
fn parses_the_paths_in_either_order() {
    let options = daemon::Options::parse(&words(&["--database", "/b", "--socket", "/a"]))
        .expect("valid options");
    assert_eq!(options.socket, "/a");
    assert_eq!(options.database, "/b");
}

#[test]
fn rejects_missing_values() {
    assert!(daemon::Options::parse(&words(&["--socket"])).is_err());
}

#[test]
fn rejects_unknown_or_duplicate_options() {
    assert!(
        daemon::Options::parse(&words(&["--socket", "/tmp/a", "--socket", "/tmp/b"])).is_err()
    );
}

#[test]
fn parses_health_command() {
    let options = client::Options::parse(&words(&["--socket", "/tmp/aios.sock", "health"]))
        .ok()
        .expect("valid command");

    assert!(matches!(options.command, Command::Health));
    assert_eq!(options.socket, "/tmp/aios.sock");
}

#[test]
fn parses_events_defaults() {
    let options = client::Options::parse(&words(&[
        "--socket",
        "/tmp/aios.sock",
        "events",
        "00000000-0000-4000-8000-000000000001",
    ]))
    .ok()
    .expect("valid command");

    assert!(matches!(
        options.command,
        Command::Events {
            after_sequence: 0,
            limit: 100,
            ..
        }
    ));
}

#[test]
fn rejects_unknown_or_incomplete_commands() {
    assert!(matches!(
        client::Options::parse(&words(&["--socket", "/tmp/aios.sock", "unknown"])),
        Err(CliError::Usage)
    ));
}

#[test]
fn parses_every_command() {
    let task = "00000000-0000-4000-8000-000000000001";
    let task_id = TaskId::parse(task).expect("valid UUID");
    for name in ["get", "start", "succeed", "fail", "cancel"] {
        let command = Command::parse(name, &words(&[task])).ok().expect("command");
        let method = command.into_method(None).ok().expect("method");
        assert!(match method {
            ApiMethod::GetTask { task_id: id } => name == "get" && id == task_id,
            ApiMethod::Start { task_id: id } => name == "start" && id == task_id,
            ApiMethod::Succeed { task_id: id } => name == "succeed" && id == task_id,
            ApiMethod::Fail { task_id: id } => name == "fail" && id == task_id,
            ApiMethod::Cancel { task_id: id } => name == "cancel" && id == task_id,
            _ => false,
        });
    }
    assert!(matches!(
        Command::parse("events", &words(&[task, "7", "+9"])),
        Ok(Command::Events {
            after_sequence: 7,
            limit: 9,
            ..
        })
    ));
    assert!(matches!(
        Command::parse("events", &words(&[task, "7", "65536"])),
        Err(CliError::InvalidNumber)
    ));
    assert!(matches!(
        Command::parse("get", &words(&["nonsense"])),
        Err(CliError::InvalidTaskId)
    ));
    let submit = Command::parse("submit", &words(&["task.json"]))
        .ok()
        .expect("command");
    assert_eq!(submit.task_file(), Some("task.json"));
    assert!(matches!(
        submit.into_method(Some(example_task())),
        Ok(ApiMethod::Submit { .. })
    ));
    assert_eq!(CliError::Transport.exit_code(), 1);
    assert_eq!(CliError::Usage.exit_code(), 2);
}

#[test]
fn rejects_oversized_task_before_json_parsing() {
    assert!(matches!(
        check_task_file(&vec![b' '; 65_537]),
        Err(CliError::TaskFileTooLarge)
    ));
    assert!(check_task_file(&vec![b' '; 65_536]).is_ok());
}
