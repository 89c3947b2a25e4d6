//! Laws on configured limits.

use vstd::prelude::*;

use crate::agent;
use crate::agent::AgentError;
use crate::api;
use crate::api::client;
use crate::api::client::{CliError, Command};
use crate::api::service;
use crate::api::service::ApiMethod;
use crate::api::socket;
use crate::api::socket::Observed;
use crate::api::LocalApiError;
use crate::approval;
use crate::error::ErrorCode;
use crate::event::{EventStoreError, TaskEvent};
use crate::filesystem;
use crate::network;
use crate::path;
use crate::process;
use crate::process::cgroup;
use crate::process::cgroup::CleanupStep;
use crate::process::facts::FileFacts;
use crate::process::handler;
use crate::process::launch;
use crate::process::rootfs;
use crate::process::ProcessAdapterError;
use crate::state;
use crate::state::TaskState;
use crate::storage;
use crate::storage::SchemaAction;
use crate::supervisor;
use crate::task::TaskSpec;
use crate::text;
use crate::time;
use crate::time::Duration;
use crate::tool;
use crate::tool::{RouteModel, ToolAdapterError};

verus! {

/// An authority holds 1 to 65536 approvals, for some time and at most a day.
pub proof fn law_authority_limits(max_pending: usize, max_ttl: Duration)
    ensures
        approval::usable_limits(max_pending, max_ttl) <==> 1 <= max_pending <= 65_536 && 1
            <= max_ttl.nanos <= 86_400 * 1_000_000_000,
        approval::DEFAULT_MAX_PENDING_APPROVALS == 1_024,
        approval::DEFAULT_MAX_TTL_SECONDS == 900,
{
}

/// A runtime asks its model 1 to 64 times for a task and for approvals of a millisecond to a
/// quarter of an hour; unless told otherwise 16 times, for five minutes.
pub proof fn law_runtime_limits(max_steps: u16, approval_ttl: Duration, decisions: nat)
    ensures
        agent::usable_config(max_steps, approval_ttl) <==> 1 <= max_steps <= 64 && 1_000_000
            <= approval_ttl.nanos <= 900 * 1_000_000_000,
        agent::usable_script(decisions) <==> 1 <= decisions <= 64,
        agent::DEFAULT_MAX_MODEL_STEPS == 16,
        agent::DEFAULT_APPROVAL_TTL_SECONDS == 300,
{
}

/// A model may call what is named by an identifier of at most 64 bytes with good arguments, and
/// exchange at most 65536 bytes with a port of a host of at most 253 bytes.
pub proof fn law_decision_limits(
    route: Seq<char>,
    arguments: Seq<Seq<char>>,
    host: Seq<char>,
    port: u16,
    request_len: nat,
)
    ensures
        agent::callable(route, arguments) <==> text::is_identifier(route, 64)
            && tool::valid_arguments(arguments),
        agent::exchangeable(host, port, request_len) <==> 1 <= text::utf8(host).len() <= 253 && port
            >= 1 && request_len <= 65_536,
{
}

/// Only a budget that is used up has a category of its own.
pub proof fn law_failure_categories(error: AgentError)
    ensures
        agent::failure_category(error) == (if error == AgentError::BudgetExceeded {
            Some(ErrorCode::BudgetExceeded)
        } else {
            None
        }),
{
}

/// An adapter has 1 to 4096 routes, 256 unless told otherwise, and a tool gives out at most a
/// mebibyte.
pub proof fn law_adapter_limits(max_routes: usize, length: nat)
    ensures
        tool::usable_route_limit(max_routes) <==> 1 <= max_routes <= 4_096,
        tool::fits_output(length) <==> length <= 1_048_576,
        tool::DEFAULT_MAX_ROUTES == 256,
{
}

/// A registration is taken exactly where its route, tool and action are identifiers of at most 64
/// bytes, the route is new and there is room. A bad name is told before a known route, and that
/// before want of room.
pub proof fn law_registrations_are_answered(
    routes: Seq<RouteModel>,
    limit: nat,
    added: RouteModel,
    i: int,
)
    ensures
        ({
            let named = text::is_identifier(added.route, 64) && text::is_identifier(added.tool, 64)
                && text::is_identifier(added.action, 64);
            let answer = tool::registration(routes, limit, added);
            &&& answer is Ok <==> named && !tool::has_route(routes, added.route) && routes.len()
                < limit
            &&& !named ==> answer == Err::<(), ToolAdapterError>(
                ToolAdapterError::InvalidRegistration,
            )
            &&& named && 0 <= i < routes.len() && routes[i].route == added.route ==> answer == Err::<
                (),
                ToolAdapterError,
            >(ToolAdapterError::DuplicateRoute)
            &&& answer == Err::<(), ToolAdapterError>(ToolAdapterError::CapacityExceeded)
                ==> routes.len() >= limit && !tool::has_route(routes, added.route)
        }),
{
}

/// An exchange has some time and at most half a minute for each step.
pub proof fn law_exchange_limits(timeout: Duration)
    ensures
        network::usable_timeout(timeout) <==> 1 <= timeout.nanos <= 30 * 1_000_000_000,
{
}

/// Files are created below an absolute path of at most 4096 bytes that is not the filesystem root.
pub proof fn law_root_paths(root: Seq<u8>)
    ensures
        filesystem::usable_root_path(root) <==> 1 <= root.len() <= 4_096 && root[0] == '/' as u8
            && path::components(root).len() >= 1,
{
}

/// A database without a version is set up, one of version 1 is used, and any other is refused.
pub proof fn law_schema_versions(version: i64)
    ensures
        storage::schema_step(version) is Ok <==> version == 0 || version == 1,
        version == 0 ==> storage::schema_step(version) == Ok::<SchemaAction, EventStoreError>(
            SchemaAction::Create,
        ),
        version == 1 ==> storage::schema_step(version) == Ok::<SchemaAction, EventStoreError>(
            SchemaAction::Keep,
        ),
        storage::schema_step(version) is Err ==> storage::schema_step(version)->Err_0
            == EventStoreError::Corrupt,
{
}

/// A database is a real file that nobody but its owner may use.
pub proof fn law_database_files(symlink: bool, regular: bool, mode: u32)
    ensures
        storage::private_file(symlink, regular, mode) <==> !symlink && regular && mode % 64 == 0,
{
    assert(mode & 0o077 == mode % 64) by (bit_vector);
}

/// An event is written where its numbers fit a signed column, and then with its own numbers and
/// its own kind.
pub proof fn law_written_rows(event: TaskEvent)
    ensures
        storage::written_row(event) is Ok <==> event.sequence <= i64::MAX
            && event.occurred_at_unix_ms <= i64::MAX,
        storage::written_row(event) is Ok ==> {
            let row = storage::written_row(event)->Ok_0;
            row.sequence == event.sequence && row.occurred_at_unix_ms == event.occurred_at_unix_ms
                && row.kind == Some(event.kind)
        },
        storage::written_row(event) is Err ==> storage::written_row(event)->Err_0
            == EventStoreError::SequenceExhausted,
        storage::fits_column(event.sequence) <==> event.sequence <= i64::MAX,
{
}

/// What the client asks for, by its command; a submission needs the task that its file holds.
pub proof fn law_commands_ask_for_their_method(command: Command, task: Option<TaskSpec>)
    ensures
        match command {
            Command::Health => client::asked_method(command, task) is Ok && client::asked_method(
                command,
                task,
            )->Ok_0 is Health,
            Command::Submit(_) => (task is None ==> client::asked_method(command, task) == Err::<
                ApiMethod,
                CliError,
            >(CliError::InvalidTaskFile)) && (task is Some ==> client::asked_method(command, task)
                is Ok && client::asked_method(command, task)->Ok_0 is Submit
                && *client::asked_method(command, task)->Ok_0->task == task->0),
            Command::Get(task_id) => client::asked_method(command, task) == Ok::<
                ApiMethod,
                CliError,
            >(ApiMethod::GetTask { task_id }),
            Command::Events { task_id, after_sequence, limit } => client::asked_method(command, task)
                == Ok::<ApiMethod, CliError>(
                ApiMethod::Events { task_id, after_sequence, limit },
            ),
            Command::Start(task_id) => client::asked_method(command, task) == Ok::<
                ApiMethod,
                CliError,
            >(ApiMethod::Start { task_id }),
            Command::Succeed(task_id) => client::asked_method(command, task) == Ok::<
                ApiMethod,
                CliError,
            >(ApiMethod::Succeed { task_id }),
            Command::Fail(task_id) => client::asked_method(command, task) == Ok::<
                ApiMethod,
                CliError,
            >(ApiMethod::Fail { task_id }),
            Command::Cancel(task_id) => client::asked_method(command, task) == Ok::<
                ApiMethod,
                CliError,
            >(ApiMethod::Cancel { task_id }),
        },
{
}

/// The client exits with 1 where the request failed, and with 2 where it was not made. It reads
/// task files of at most 64 KiB.
pub proof fn law_client_limits(error: CliError, length: nat)
    ensures
        client::exit_status(error) == 1 <==> error is Transport,
        client::exit_status(error) == 2 <==> !(error is Transport),
        client::fits_task_file(length) <==> length <= 65_536,
{
}

/// Frames are of at most 64 KiB and pages of 100 events unless told otherwise, and a page is of at
/// most 256. A response beyond its frame is replaced, and one in another version than 4 refused.
pub proof fn law_api_limits(encoded: usize, limit: usize, version: u16)
    ensures
        service::is_oversize(encoded, limit) <==> encoded > limit,
        service::is_spoken(version) <==> version == 4,
        api::DEFAULT_MAX_FRAME_BYTES == 65_536,
        api::DEFAULT_EVENT_PAGE_SIZE == 100,
        api::MAX_EVENT_PAGE_SIZE == 256,
        api::DEFAULT_CONNECTION_TIMEOUT_SECONDS == 5,
{
}

/// A socket is made only where nothing is, and is removed only where it is the one that was made.
pub proof fn law_sockets_are_made_and_removed_by_their_owner(
    entry: Observed,
    is_socket: bool,
    device: u64,
    inode: u64,
)
    ensures
        socket::socket_verdict(entry) is Ok <==> entry is Missing,
        entry is Found ==> socket::socket_verdict(entry) == Err::<(), LocalApiError>(
            LocalApiError::SocketAlreadyExists,
        ),
        entry is Unreadable ==> socket::socket_verdict(entry) == Err::<(), LocalApiError>(
            LocalApiError::Io,
        ),
        socket::is_own_socket(entry, is_socket, device, inode) <==> entry is Found && is_socket
            && entry->Found_0.device == device && entry->Found_0.inode == inode,
{
}

/// A task is given a microsecond to an hour of CPU time and some memory; what is counted is the
/// whole microseconds.
pub proof fn law_budget_limits(cpu_time: Duration, memory_bytes: u64)
    ensures
        cgroup::usable_budget(cpu_time, memory_bytes) <==> 1_000 <= cpu_time.nanos <= 3_600
            * 1_000_000_000 && memory_bytes >= 1,
        cgroup::whole_micros(cpu_time) * 1_000 <= cpu_time.nanos < (cgroup::whole_micros(cpu_time)
            + 1) * 1_000,
{
}

/// The name of the flag of a cgroup that holds processes.
pub open spec fn populated() -> Seq<u8> {
    text::utf8("populated"@)
}

/// A cgroup is removed once it holds no process, waited for until its deadline, and given up then,
/// or where it is not the one that was bound, or where its state cannot be read.
pub proof fn law_empty_cgroups_are_removed(
    identified: bool,
    events: Option<Seq<u8>>,
    now: u128,
    deadline: u128,
)
    ensures
        ({
            let verdict = cgroup::cleanup_verdict(identified, events, now, deadline);
            let held = cgroup::file_value(events->0, populated());
            &&& verdict == Ok::<CleanupStep, ProcessAdapterError>(CleanupStep::Remove)
                <==> identified && events is Some && held == Some(0nat)
            &&& verdict == Ok::<CleanupStep, ProcessAdapterError>(CleanupStep::Wait)
                <==> identified && events is Some && held is Some && held->0 >= 1 && now < deadline
            &&& verdict is Err ==> verdict->Err_0 == ProcessAdapterError::InvalidResourceControl
        }),
        cgroup::CLEANUP_TIMEOUT_SECONDS == 5 && cgroup::CLEANUP_POLL_MILLIS == 5,
{
    reveal_strlit("populated");
    vstd::utf8::is_ascii_chars_encode_utf8("populated"@);
    assert(populated() =~= cgroup::populated_key());
}

/// A launcher enters a cgroup through its real file `cgroup.procs`, where the directory is the one
/// that was bound, and launches a regular file by an absolute path.
pub proof fn law_launchers_check_what_they_use(
    list: Seq<u8>,
    entry: Option<FileFacts>,
    parent: Option<FileFacts>,
    device: u64,
    inode: u64,
    target: Option<FileFacts>,
)
    ensures
        launch::is_process_list(list, entry, parent, device, inode) ==> {
            &&& 1 <= list.len() <= 4_096 && list[0] == '/' as u8
            &&& path::components(list).last() == text::utf8("cgroup.procs"@)
            &&& entry is Some && entry->0.regular && !entry->0.symlink
            &&& parent is Some && parent->0.directory && parent->0.device == device
                && parent->0.inode == inode
        },
        1 <= list.len() <= 4_096 && list[0] == '/' as u8 && path::components(list).len() > 0
            && path::components(list).last() == text::utf8("cgroup.procs"@) && entry is Some
            && entry->0.regular && !entry->0.symlink && parent is Some && parent->0.directory
            && parent->0.device == device && parent->0.inode == inode ==> launch::is_process_list(
            list,
            entry,
            parent,
            device,
            inode,
        ),
        launch::is_launch_target(list, target) <==> 1 <= list.len() <= 4_096 && list[0] == '/' as u8
            && target is Some && target->0.regular,
        launch::FAILURE_EXIT_CODE == 125,
{
}

/// A tree takes in directories and regular files by paths of at most 4096 bytes, no links, and at
/// most 4096 of them. A copy is whole where it was made of all of the file that was looked at.
pub proof fn law_tree_limits(
    name: Seq<u8>,
    found: Option<FileFacts>,
    taken: nat,
    original: FileFacts,
    opened: Option<FileFacts>,
    copied: u64,
)
    ensures
        rootfs::may_be_taken_in(name, found, taken) <==> name.len() <= 4_096 && taken < 4_096
            && found is Some && !found->0.symlink && (found->0.directory || found->0.regular),
        rootfs::copied_whole(original, opened, copied) <==> opened is Some && copied
            == original.length && opened->0.length == copied && opened->0.device == original.device
            && opened->0.inode == original.inode,
{
}

/// A run is over when its time has passed, counted from its start.
pub proof fn law_run_deadlines(now: u128, timeout: Duration)
    ensures
        handler::run_deadline(now, timeout) is Ok <==> now + timeout.nanos <= u128::MAX,
        handler::run_deadline(now, timeout) is Ok ==> handler::run_deadline(now, timeout)->Ok_0
            - now == timeout.nanos,
        handler::run_deadline(now, timeout) is Err ==> handler::run_deadline(now, timeout)->Err_0
            == ProcessAdapterError::InvalidConfig,
        process::DEFAULT_TIMEOUT_SECONDS == 30,
{
}

/// A cancellation ends what was not over, and leaves the rest.
pub proof fn law_cancellations(s: TaskState)
    ensures
        state::cancelled(s).terminal(),
        s is Submitted || s is Validating || s is Queued || s is Running || s is WaitingApproval
            ==> state::cancelled(s) == TaskState::Cancelled,
        s is Rejected || s is Succeeded || s is Failed || s is Cancelled ==> state::cancelled(s)
            == s,
        state::cancelled(s) != s ==> s.may_become(state::cancelled(s)),
{
}

/// Time is counted in nanoseconds: a thousand million in a second, a million in a millisecond.
pub proof fn law_time_is_counted_in_nanoseconds(deadline: u128, now: u128, reading: Option<u128>)
    ensures
        time::NANOS_PER_SECOND == 1_000_000_000,
        time::NANOS_PER_MILLI == 1_000_000,
        now <= deadline ==> now + time::remaining(deadline, now) == deadline,
        now >= deadline ==> time::remaining(deadline, now) == 0,
        reading is Some && reading->0 <= u64::MAX ==> time::recorded(reading) == reading->0,
        reading is Some && reading->0 > u64::MAX ==> time::recorded(reading) == u64::MAX,
        reading is None ==> time::recorded(reading) == 0,
        supervisor::DEFAULT_MAX_TASKS == 10_000,
        crate::event::DEFAULT_MAX_EVENTS_PER_TASK == 10_000,
{
}

} // verus!
