//! Laws on the local API.

use vstd::prelude::*;

use crate::api::client;
use crate::api::client::{CliError, CommandModel};
use crate::api::daemon;
use crate::api::frame;
use crate::api::service;
use crate::api::service::{
    ApiMethod, ApiRequest, ResponseModel, SubmissionDisposition,
};
use crate::api::socket;
use crate::api::socket::Observed;
use crate::api::{ServerConfig, LocalApiError};
use crate::event;
use crate::ids::TaskId;
use crate::path;
use crate::scan;
use crate::state::TaskState;
use crate::supervision::SupervisorModel;
use crate::supervisor::{SubmitResult, SupervisorError};
use crate::text;

verus! {

// -------------------------------------------------------------------- frames

/// The length of a payload stands in four bytes before it, most significant first.
pub proof fn law_headers_are_big_endian(a: u8, b: u8, c: u8, d: u8, length: nat)
    requires
        length <= u32::MAX,
    ensures
        frame::header_value(seq![a, b, c, d]) == ((a * 256 + b) * 256 + c) * 256 + d,
        frame::header_of(length).len() == 4,
        frame::header_value(frame::header_of(length)) == length,
        frame::framed(Seq::<u8>::empty().push(a)) == seq![0u8, 0u8, 0u8, 1u8, a],
{
    assert(Seq::<u8>::empty().push(a).len() == 1);
    assert(frame::framed(Seq::<u8>::empty().push(a)) =~= seq![0u8, 0u8, 0u8, 1u8, a]);
}

/// A frame holds 1 byte at least and at most the limit; what a limit lets be sent it lets be
/// read, and no more.
pub proof fn law_frames_keep_the_limit(length: nat, limit: usize)
    requires
        length <= u32::MAX,
    ensures
        frame::sendable(length, limit) <==> 1 <= length <= limit,
        frame::announced(frame::header_of(length), limit) is Ok <==> 1 <= length <= limit,
        length == 0 ==> frame::announced(frame::header_of(length), limit) == Err::<
            nat,
            LocalApiError,
        >(LocalApiError::Protocol),
        length > limit && length > 0 ==> frame::announced(frame::header_of(length), limit) == Err::<
            nat,
            LocalApiError,
        >(LocalApiError::FrameTooLarge),
{
}

/// A connection that was closed at once brought nothing; one that was closed within a frame
/// brought a broken one.
pub proof fn law_broken_frames_are_refused(payload: Seq<u8>, n: int, limit: usize)
    requires
        1 <= payload.len() <= limit,
        payload.len() <= u32::MAX,
        0 <= n < payload.len() + 4,
    ensures
        n == 0 ==> frame::read(frame::framed(payload).take(n), limit) == Ok::<
            Option<Seq<u8>>,
            LocalApiError,
        >(None),
        n > 0 ==> frame::read(frame::framed(payload).take(n), limit) == Err::<
            Option<Seq<u8>>,
            LocalApiError,
        >(LocalApiError::Protocol),
{
    let whole = frame::framed(payload);
    let part = whole.take(n);
    if n >= 4 {
        assert(part.take(4) =~= frame::header_of(payload.len()));
        law_headers_are_big_endian(0, 0, 0, 0, payload.len());
    }
}

/// Limits can be used where frames are of 1 KiB to 1 MiB and connections have some time.
pub proof fn law_usable_limits(config: ServerConfig)
    ensures
        config.usable() <==> 1_024 <= config.max_frame_bytes <= 1_048_576
            && config.connection_timeout.nanos >= 1,
{
}

// ------------------------------------------------------------------- service

/// Version 4 is spoken, and no other; a request in another is refused and changes nothing.
pub proof fn law_version_four_is_spoken(
    old: SupervisorModel,
    new: SupervisorModel,
    request: ApiRequest,
    response: ResponseModel,
)
    requires
        service::handled(old, new, request, response),
    ensures
        response is Done ==> request.protocol_version == 4 && response->Done_version == 4,
        response is Failed ==> response->Failed_version == 4,
        request.protocol_version != 4 <==> response is Failed && response->Failed_code
            is UnsupportedProtocolVersion,
        request.protocol_version != 4 ==> new == old,
        request.protocol_version == 4 && request.request is Health ==> response is Done
            && response->Done_result is Healthy && response->Done_result->supported.minimum == 4
            && response->Done_result->supported.maximum == 4,
{
    if request.protocol_version == 4 && response is Failed {
        lemma_codes(old, new, request, response);
    }
}

proof fn lemma_codes(
    old: SupervisorModel,
    new: SupervisorModel,
    request: ApiRequest,
    response: ResponseModel,
)
    requires
        service::handled(old, new, request, response),
        request.protocol_version == 4,
        response is Failed,
    ensures
        !(response->Failed_code is UnsupportedProtocolVersion),
        response->Failed_version == 4,
{
}

/// A known task is shown as it is; an unknown one is not found.
pub proof fn law_tasks_are_shown_as_they_are(
    old: SupervisorModel,
    new: SupervisorModel,
    request: ApiRequest,
    response: ResponseModel,
)
    requires
        service::handled(old, new, request, response),
        request.protocol_version == 4,
        request.request is GetTask,
    ensures
        new == old,
        ({
            let task_id = request.request->GetTask_task_id;
            &&& old.tasks.contains_key(task_id.value) ==> response is Done && response->Done_result
                is Task && response->Done_result->Task_task.task_id == task_id
                && response->Done_result->Task_task.state == old.tasks[task_id.value].state
            &&& !old.tasks.contains_key(task_id.value) ==> response is Failed
                && response->Failed_code is TaskNotFound
        }),
{
}

/// The state that a method moves a task to.
pub open spec fn asked_state(method: ApiMethod) -> TaskState {
    match method {
        ApiMethod::WaitForApproval { .. } => TaskState::WaitingApproval,
        ApiMethod::Succeed { .. } => TaskState::Succeeded,
        ApiMethod::Fail { .. } => TaskState::Failed,
        _ => TaskState::Running,
    }
}

/// A method that moves a task, where it is done, has moved that task to its state and shows it
/// there: start and approve to running, wait to waiting, succeed to succeeded, fail to failed.
/// Where it is not done, nothing changed.
pub proof fn law_methods_move_tasks_to_their_states(
    old: SupervisorModel,
    new: SupervisorModel,
    request: ApiRequest,
    response: ResponseModel,
    task_id: TaskId,
    other: u128,
)
    requires
        service::handled(old, new, request, response),
        request.protocol_version == 4,
        request.request == (ApiMethod::Start { task_id }) || request.request
            == (ApiMethod::Approve { task_id }) || request.request == (
        ApiMethod::WaitForApproval { task_id }) || request.request == (
        ApiMethod::Succeed { task_id }) || request.request == (ApiMethod::Fail { task_id }),
        other != task_id.value,
    ensures
        response is Done ==> {
            &&& old.tasks.contains_key(task_id.value)
                && old.tasks[task_id.value].state.may_become(asked_state(request.request))
            &&& new.tasks[task_id.value].state == asked_state(request.request)
            &&& response->Done_result is Task
            &&& response->Done_result->Task_task.task_id == task_id
            &&& response->Done_result->Task_task.state == asked_state(request.request)
        },
        response is Failed ==> new == old,
        old.tasks.contains_key(other) ==> new.tasks.contains_key(other) && new.tasks[other]
            == old.tasks[other],
        !old.tasks.contains_key(task_id.value) ==> response is Failed && response->Failed_code
            is TaskNotFound,
        old.tasks.contains_key(task_id.value) && !old.tasks[task_id.value].state.may_become(
            asked_state(request.request),
        ) ==> response is Failed && response->Failed_code is InvalidStateTransition,
        !(request.request is Start) && !(request.request is Approve) && response is Done
            ==> new.tasks[task_id.value].deadline == old.tasks[task_id.value].deadline,
        (request.request is Start || request.request is Approve) && response is Done
            && old.tasks[task_id.value].state is WaitingApproval
            ==> new.tasks[task_id.value].deadline == old.tasks[task_id.value].deadline,
{
}

/// A cancelled task is shown cancelled; one that was over is shown as it is, unchanged.
pub proof fn law_cancellations_are_shown(
    old: SupervisorModel,
    new: SupervisorModel,
    request: ApiRequest,
    response: ResponseModel,
    task_id: TaskId,
)
    requires
        service::handled(old, new, request, response),
        request.protocol_version == 4,
        request.request == (ApiMethod::Cancel { task_id }),
    ensures
        !old.tasks.contains_key(task_id.value) ==> response is Failed && response->Failed_code
            is TaskNotFound && new == old,
        response is Done ==> response->Done_result is Cancelled
            && response->Done_result->Cancelled_task.task_id == task_id
            && response->Done_result->Cancelled_task.state == new.tasks[task_id.value].state
            && response->Done_result->changed == !old.tasks[task_id.value].state.terminal()
            && new.tasks[task_id.value].state == (if old.tasks[task_id.value].state.terminal() {
            old.tasks[task_id.value].state
        } else {
            TaskState::Cancelled
        }),
        response is Failed ==> new == old,
{
}

/// A page holds at most what was asked, 1 to 256 events, from the first number after the given
/// one on, and tells whether there are more.
pub proof fn law_pages_hold_the_next_events(
    old: SupervisorModel,
    new: SupervisorModel,
    request: ApiRequest,
    response: ResponseModel,
    task_id: TaskId,
    after: u64,
    limit: u16,
    i: int,
)
    requires
        service::handled(old, new, request, response),
        request.protocol_version == 4,
        request.request == (ApiMethod::Events { task_id, after_sequence: after, limit }),
        event::log_contiguous(old.log),
        after <= event::events_of(old.log, task_id.value).len(),
    ensures
        new == old,
        limit == 0 || limit > 256 ==> response is Failed && response->Failed_code is InvalidRequest,
        1 <= limit <= 256 && !old.tasks.contains_key(task_id.value) ==> response is Failed
            && response->Failed_code is TaskNotFound,
        1 <= limit <= 256 && old.tasks.contains_key(task_id.value) && response is Failed
            ==> response->Failed_code is StorageUnavailable,
        response is Done ==> {
            let all = event::events_of(old.log, task_id.value);
            &&& response->Done_result is Events
            &&& response->Done_result->Events_events.len() == (if all.len() - after > limit {
                limit as int
            } else {
                all.len() - after
            })
            &&& response->Done_result->has_more <==> all.len() > after + limit
            &&& 0 <= i < response->Done_result->Events_events.len()
                ==> response->Done_result->Events_events[i] == all[after + i]
        },
{
    let all = event::events_of(old.log, task_id.value);
    event::law_list_resumes_after_a_number(old.log, task_id.value, after);
}

/// What a submission is answered: the state of its task, and its issues where it was rejected.
pub proof fn law_submissions_are_answered(r: Result<SubmitResult, SupervisorError>)
    ensures
        r is Ok ==> service::submission(r) is Done && service::submission(r)->Done_result
            is Submitted,
        r is Ok ==> ({
            let answer = service::submission(r)->Done_result;
            match r->Ok_0 {
                SubmitResult::Accepted(task) => answer->Submitted_disposition
                    == SubmissionDisposition::Accepted && answer->Submitted_task.task_id
                    == task.task_id && answer->Submitted_task.state == task.state
                    && answer->issues.len() == 0,
                SubmitResult::Existing(task) => answer->Submitted_disposition
                    == SubmissionDisposition::Existing && answer->Submitted_task.task_id
                    == task.task_id && answer->Submitted_task.state == task.state
                    && answer->issues.len() == 0,
                SubmitResult::Rejected { task, errors } => answer->Submitted_disposition
                    == SubmissionDisposition::Rejected && answer->Submitted_task.task_id
                    == task.task_id && answer->Submitted_task.state == task.state
                    && answer->issues == errors@,
            }
        }),
        r is Err ==> service::submission(r) is Failed,
{
}

/// What a failure of the supervisor is answered: a code and a text that tell nothing of what the
/// request held.
pub proof fn law_failures_have_their_codes(error: SupervisorError)
    ensures
        service::supervisor_failure(error) is Failed,
        ({
            let code = service::supervisor_failure(error)->Failed_code;
            &&& code is TaskNotFound <==> error is TaskNotFound
            &&& code is IdempotencyConflict <==> error is IdempotencyConflict
            &&& code is CapacityExceeded <==> error is CapacityExceeded
            &&& code is StorageUnavailable <==> error is EventStore
            &&& code is InvalidStateTransition <==> error is InvalidStateTransition || error
                is TaskNotRunning || error is Approval
        }),
        service::supervisor_failure(error)->Failed_version == 4,
        service::supervisor_failure(error)->Failed_message == (match error {
            SupervisorError::TaskNotFound => "task not found"@,
            SupervisorError::IdempotencyConflict => {
                "idempotency key conflicts with existing input"@
            },
            SupervisorError::CapacityExceeded => "task capacity exceeded"@,
            SupervisorError::EventStore(_) => "event storage is unavailable"@,
            _ => "requested task transition is not allowed"@,
        }),
{
}

// -------------------------------------------------------------------- client

proof fn lemma_command_names()
    ensures
        "health"@ != "submit"@ && "health"@ != "events"@ && "health"@ != "get"@ && "health"@
            != "start"@ && "health"@ != "succeed"@ && "health"@ != "fail"@ && "health"@
            != "cancel"@,
        "submit"@ != "events"@ && "submit"@ != "get"@ && "submit"@ != "start"@ && "submit"@
            != "succeed"@ && "submit"@ != "fail"@ && "submit"@ != "cancel"@,
        "events"@ != "get"@ && "events"@ != "start"@ && "events"@ != "succeed"@ && "events"@
            != "fail"@ && "events"@ != "cancel"@,
        "get"@ != "start"@ && "get"@ != "succeed"@ && "get"@ != "fail"@ && "get"@ != "cancel"@,
        "start"@ != "succeed"@ && "start"@ != "fail"@ && "start"@ != "cancel"@,
        "succeed"@ != "fail"@ && "succeed"@ != "cancel"@ && "fail"@ != "cancel"@,
{
    reveal_strlit("health");
    reveal_strlit("submit");
    reveal_strlit("events");
    reveal_strlit("get");
    reveal_strlit("start");
    reveal_strlit("succeed");
    reveal_strlit("fail");
    reveal_strlit("cancel");
    assert("health"@.len() == 6 && "submit"@.len() == 6 && "events"@.len() == 6);
    assert("cancel"@.len() == 6 && "get"@.len() == 3 && "start"@.len() == 5);
    assert("succeed"@.len() == 7 && "fail"@.len() == 4);
    assert("health"@[0] != "submit"@[0]);
    assert("health"@[0] != "events"@[0]);
    assert("health"@[0] != "cancel"@[0]);
    assert("submit"@[0] != "events"@[0]);
    assert("submit"@[0] != "cancel"@[0]);
    assert("events"@[0] != "cancel"@[0]);
}

/// What a command line says: the socket, the command, and the task that it is for.
pub proof fn law_commands_are_read(socket: Seq<char>, value: Seq<char>, task: u128)
    requires
        socket.len() > 0,
    ensures
        client::read_options(seq!["--socket"@, socket, "health"@], None) == Ok::<
            (Seq<char>, CommandModel),
            CliError,
        >((socket, CommandModel::Health)),
        client::read_options(seq!["--socket"@, socket, "submit"@, value], Some(task)) == Ok::<
            (Seq<char>, CommandModel),
            CliError,
        >((socket, CommandModel::Submit(value))),
        client::read_options(seq!["--socket"@, socket, "get"@, value], Some(task)) == Ok::<
            (Seq<char>, CommandModel),
            CliError,
        >((socket, CommandModel::Get(task))),
        client::read_options(seq!["--socket"@, socket, "start"@, value], Some(task)) == Ok::<
            (Seq<char>, CommandModel),
            CliError,
        >((socket, CommandModel::Start(task))),
        client::read_options(seq!["--socket"@, socket, "succeed"@, value], Some(task)) == Ok::<
            (Seq<char>, CommandModel),
            CliError,
        >((socket, CommandModel::Succeed(task))),
        client::read_options(seq!["--socket"@, socket, "fail"@, value], Some(task)) == Ok::<
            (Seq<char>, CommandModel),
            CliError,
        >((socket, CommandModel::Fail(task))),
        client::read_options(seq!["--socket"@, socket, "cancel"@, value], Some(task)) == Ok::<
            (Seq<char>, CommandModel),
            CliError,
        >((socket, CommandModel::Cancel(task))),
        client::read_options(seq!["--socket"@, socket, "events"@, value], Some(task)) == Ok::<
            (Seq<char>, CommandModel),
            CliError,
        >((socket, CommandModel::Events { task, after_sequence: 0, limit: 100 })),
{
    lemma_command_names();
    let one = seq![value];
    assert(seq!["--socket"@, socket, "health"@].skip(3) =~= Seq::<Seq<char>>::empty());
    assert(seq!["--socket"@, socket, "submit"@, value].skip(3) =~= one);
    assert(seq!["--socket"@, socket, "get"@, value].skip(3) =~= one);
    assert(seq!["--socket"@, socket, "start"@, value].skip(3) =~= one);
    assert(seq!["--socket"@, socket, "succeed"@, value].skip(3) =~= one);
    assert(seq!["--socket"@, socket, "fail"@, value].skip(3) =~= one);
    assert(seq!["--socket"@, socket, "cancel"@, value].skip(3) =~= one);
    assert(seq!["--socket"@, socket, "events"@, value].skip(3) =~= one);
    assert(one.skip(1) =~= Seq::<Seq<char>>::empty());
}

/// The events after a number, and how many of them, can be asked for in decimal numerals; what is
/// no numeral, or too large, is refused.
pub proof fn law_event_ranges_are_read(
    value: Seq<char>,
    after: Seq<char>,
    limit: Seq<char>,
    task: u128,
)
    ensures
        ({
            let a = scan::bounded_value(text::utf8(after), u64::MAX as nat);
            let b = scan::bounded_value(text::utf8(limit), u16::MAX as nat);
            &&& a is Some && b is Some ==> client::read_command(
                "events"@,
                Some(task),
                seq![value, after, limit],
            ) == Ok::<CommandModel, CliError>(
                (CommandModel::Events { task, after_sequence: a->0 as u64, limit: b->0 as u16 }),
            )
            &&& a is Some ==> client::read_command("events"@, Some(task), seq![value, after])
                == Ok::<CommandModel, CliError>(
                (CommandModel::Events { task, after_sequence: a->0 as u64, limit: 100 }),
            )
            &&& a is None ==> client::read_command("events"@, Some(task), seq![value, after])
                == Err::<CommandModel, CliError>(CliError::InvalidNumber)
            &&& a is None || b is None ==> client::read_command(
                "events"@,
                Some(task),
                seq![value, after, limit],
            ) == Err::<CommandModel, CliError>(CliError::InvalidNumber)
        }),
{
    lemma_command_names();
    assert(seq![value, after, limit].skip(1) =~= seq![after, limit]);
    assert(seq![value, after].skip(1) =~= seq![after]);
}

/// A command line without a socket, with a name that is not known or with too many values is
/// refused with the usage; a command on a task without an identifier is refused as such.
pub proof fn law_bad_command_lines_are_refused(
    arguments: Seq<Seq<char>>,
    task: Option<u128>,
    values: Seq<Seq<char>>,
    name: Seq<char>,
)
    ensures
        arguments.len() < 3 || arguments[0] != "--socket"@ || arguments[1].len() == 0
            ==> client::read_options(arguments, task) == Err::<(Seq<char>, CommandModel), CliError>(
            CliError::Usage,
        ),
        name != "health"@ && name != "submit"@ && name != "events"@ && name != "get"@ && name
            != "start"@ && name != "succeed"@ && name != "fail"@ && name != "cancel"@
            ==> client::read_command(name, task, values) == Err::<CommandModel, CliError>(
            CliError::Usage,
        ),
        values.len() > 0 ==> client::read_command("health"@, task, values) == Err::<
            CommandModel,
            CliError,
        >(CliError::Usage),
        values.len() != 1 ==> client::read_command("submit"@, task, values) == Err::<
            CommandModel,
            CliError,
        >(CliError::Usage) && client::read_command("get"@, task, values) == Err::<
            CommandModel,
            CliError,
        >(CliError::Usage) && client::read_command("cancel"@, task, values) == Err::<
            CommandModel,
            CliError,
        >(CliError::Usage) && client::read_command("start"@, task, values) == Err::<
            CommandModel,
            CliError,
        >(CliError::Usage) && client::read_command("succeed"@, task, values) == Err::<
            CommandModel,
            CliError,
        >(CliError::Usage) && client::read_command("fail"@, task, values) == Err::<
            CommandModel,
            CliError,
        >(CliError::Usage),
        values.len() == 0 || values.len() > 3 ==> client::read_command("events"@, task, values)
            == Err::<CommandModel, CliError>(CliError::Usage),
        values.len() == 1 && (name == "get"@ || name == "start"@ || name == "succeed"@ || name
            == "fail"@ || name == "cancel"@ || name == "events"@) ==> client::read_command(
            name,
            None,
            values,
        ) == Err::<CommandModel, CliError>(CliError::InvalidTaskId),
{
    lemma_command_names();
}

// -------------------------------------------------------------------- daemon

/// A daemon is given its socket and its database, in either order, and nothing else.
pub proof fn law_daemons_are_given_two_paths(a: Seq<char>, b: Seq<char>, arguments: Seq<Seq<char>>)
    ensures
        daemon::read(seq!["--socket"@, a, "--database"@, b]) == Some((a, b)),
        daemon::read(seq!["--database"@, b, "--socket"@, a]) == Some((a, b)),
        daemon::read(arguments) == Some((a, b)) ==> arguments =~= seq![
            "--socket"@,
            a,
            "--database"@,
            b,
        ] || arguments =~= seq!["--database"@, b, "--socket"@, a],
{
    reveal_strlit("--socket");
    reveal_strlit("--database");
    assert("--socket"@.len() != "--database"@.len());
}

// -------------------------------------------------------------------- socket

/// The directory of a socket is created where it is missing, and used where it is a real
/// directory that nobody but its owner may use; anything else is refused.
pub proof fn law_socket_directories_are_private(socket_path: Seq<u8>, parent: Observed)
    ensures
        !socket::has_parent(socket_path) ==> socket::parent_verdict(socket_path, parent) == Err::<
            bool,
            LocalApiError,
        >(LocalApiError::InvalidConfig),
        socket::has_parent(socket_path) ==> match parent {
            Observed::Missing => socket::parent_verdict(socket_path, parent) == Ok::<
                bool,
                LocalApiError,
            >(true),
            Observed::Unreadable => socket::parent_verdict(socket_path, parent) == Err::<
                bool,
                LocalApiError,
            >(LocalApiError::Io),
            Observed::Found(facts) => socket::parent_verdict(socket_path, parent) == (
            if !facts.symlink && facts.directory && facts.mode % 64 == 0 {
                Ok::<bool, LocalApiError>(false)
            } else {
                Err(LocalApiError::UnsafeSocketDirectory)
            }),
        },
{
    if let Observed::Found(facts) = parent {
        let mode = facts.mode;
        assert(mode & 0o077 == mode % 64) by (bit_vector);
    }
}

/// A socket path names its directory: an absolute path below the root does, and so do a path
/// from the current directory and one with a slash between two names; a name alone does not.
pub proof fn law_sockets_stand_in_a_named_directory(a: Seq<u8>, b: Seq<u8>)
    requires
        a.len() > 0 && !a.contains('/' as u8) && a[0] != '.' as u8,
        b.len() > 0 && !b.contains('/' as u8) && b[0] != '.' as u8,
    ensures
        socket::has_parent(seq!['/' as u8] + a),
        socket::has_parent(a + seq!['/' as u8] + b),
        !socket::has_parent(a),
        !socket::has_parent(Seq::<u8>::empty()),
        !socket::has_parent(seq!['/' as u8]),
        socket::has_parent(seq!['.' as u8] + seq!['/' as u8] + a),
{
    lemma_name(a);
    lemma_name(b);
    lemma_absolute_name(a);
    lemma_joined_names(a, b);
    lemma_dotted_name(a);
    lemma_no_name();
}

proof fn lemma_name(a: Seq<u8>)
    requires
        a.len() > 0 && !a.contains(0x2fu8) && a[0] != 0x2e,
    ensures
        path::components(a) == seq![a],
        a[0] != 0x2f,
        !socket::has_parent(a),
{
    crate::laws::path::law_names_are_components(a);
    assert(a.contains(a[0]));
}

proof fn lemma_no_name()
    ensures
        path::components(Seq::<u8>::empty()).len() == 0,
        path::components(seq![0x2fu8]).len() == 0,
        !socket::has_parent(Seq::<u8>::empty()),
        !socket::has_parent(seq![0x2fu8]),
{
    let none = Seq::<u8>::empty();
    crate::laws::path::law_names_are_components(none);
    crate::laws::path::law_components_join(none, none);
    assert(none + seq![0x2fu8] + none =~= seq![0x2fu8]);
}

proof fn lemma_absolute_name(a: Seq<u8>)
    requires
        path::components(a) == seq![a],
    ensures
        socket::has_parent(seq![0x2fu8] + a),
{
    let none = Seq::<u8>::empty();
    crate::laws::path::law_names_are_components(none);
    crate::laws::path::law_components_join(none, a);
    assert(none + seq![0x2fu8] + a =~= seq![0x2fu8] + a);
    assert((seq![0x2fu8] + a)[0] == 0x2f);
    assert(path::components(seq![0x2fu8] + a).len() == 1);
}

proof fn lemma_joined_names(a: Seq<u8>, b: Seq<u8>)
    requires
        a.len() > 0,
        path::components(a) == seq![a],
        path::components(b) == seq![b],
        a[0] != 0x2e && a[0] != 0x2f,
    ensures
        socket::has_parent(a + seq![0x2fu8] + b),
{
    crate::laws::path::law_components_join(a, b);
    assert((a + seq![0x2fu8] + b)[0] == a[0]);
    assert(path::components(a + seq![0x2fu8] + b).len() == 2);
}

proof fn lemma_dotted_name(a: Seq<u8>)
    requires
        path::components(a) == seq![a],
    ensures
        socket::has_parent(seq![0x2eu8] + seq![0x2fu8] + a),
{
    let dot = seq![0x2eu8];
    assert(!dot.contains(0x2fu8));
    crate::laws::path::law_names_are_components(dot);
    crate::laws::path::law_components_join(dot, a);
    let whole = dot + seq![0x2fu8] + a;
    assert(whole[0] == 0x2e && whole[1] == 0x2f);
    assert(path::components(whole).len() == 1);
}

} // verus!
