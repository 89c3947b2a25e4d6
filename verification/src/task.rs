//! Task specifications and the rules that a valid one satisfies.

use vstd::prelude::*;
use vstd::string::StrSliceExecFns;

use crate::error::{ValidationError, ValidationErrors};
use crate::error;
use crate::error::Issue;
use crate::ip;
use crate::ip::parse_ip;
use crate::text;
use crate::text::{
    bytes_contain, clone_texts, concat3, decimal_string, is_ascii_alphanumeric, is_blank,
    is_valid_identifier, split_bytes, text_eq, texts_eq,
};

verus! {

pub const MAX_GOAL_CHARS: usize = 8_192;

pub const MAX_IDEMPOTENCY_KEY_BYTES: usize = 128;

pub const MAX_FILESYSTEM_CAPABILITIES: usize = 128;

pub const MAX_TOOLS: usize = 64;

pub const MAX_APPROVAL_ACTIONS: usize = 64;

pub const MAX_NETWORK_DESTINATIONS: usize = 64;

pub const MAX_PATH_BYTES: usize = 4_096;

pub const MAX_IDENTIFIER_BYTES: usize = 64;

pub const MAX_HOST_BYTES: usize = 253;

pub const MAX_LABEL_BYTES: usize = 63;

/// A user request and the constraints under which it may execute.
#[derive(PartialEq, Eq)]
pub struct TaskSpec {
    pub idempotency_key: String,
    pub goal: String,
    pub capabilities: CapabilitySet,
    pub budget: Budget,
    pub approval: ApprovalPolicy,
}

/// Explicit resources that an agent may request.
#[derive(PartialEq, Eq)]
pub struct CapabilitySet {
    pub filesystem: Vec<FileCapability>,
    pub network: NetworkPolicy,
    pub tools: Vec<String>,
}

/// Filesystem access to one normalized absolute path.
#[derive(PartialEq, Eq)]
pub struct FileCapability {
    pub path: String,
    pub access: FileAccess,
}

/// Operations allowed for a filesystem capability.
#[derive(Clone, Copy, Debug, PartialEq, Eq, Structural, PartialOrd, Ord)]
pub enum FileAccess {
    Read,
    Write,
}

/// Outbound network policy. Deny is the safe default.
#[derive(PartialEq, Eq)]
pub enum NetworkPolicy {
    Deny,
    Allow { destinations: Vec<NetworkDestination> },
}

/// One exact outbound network destination.
#[derive(PartialEq, Eq)]
pub struct NetworkDestination {
    pub host: String,
    pub transport: NetworkTransport,
    pub port: u16,
}

/// Transport supported by the network capability contract.
#[derive(Clone, Copy, Debug, PartialEq, Eq, Structural, PartialOrd, Ord)]
pub enum NetworkTransport {
    Tcp,
}

/// Resource limits enforced for one task.
#[derive(Clone, Copy, PartialEq, Eq, Structural)]
pub struct Budget {
    pub wall_time_seconds: u64,
    pub memory_bytes: u64,
    pub max_parallel_agents: u8,
}

/// Operations that require a fresh, task-scoped user approval.
#[derive(Debug, PartialEq, Eq)]
pub struct ApprovalPolicy {
    pub required_for: Vec<String>,
}

/// What a file capability grants.
pub struct FileModel {
    pub path: Seq<char>,
    pub access: FileAccess,
}

/// What a network destination names.
pub struct DestinationModel {
    pub host: Seq<char>,
    pub transport: NetworkTransport,
    pub port: u16,
}

/// What a task specification says.
#[verifier::ext_equal]
pub struct TaskModel {
    pub idempotency_key: Seq<char>,
    pub goal: Seq<char>,
    pub files: Seq<FileModel>,
    /// `None` where the policy denies all egress.
    pub network: Option<Seq<DestinationModel>>,
    pub tools: Seq<Seq<char>>,
    pub budget: Budget,
    pub required_for: Seq<Seq<char>>,
}

impl View for FileCapability {
    type V = FileModel;

    open spec fn view(&self) -> FileModel {
        FileModel { path: self.path@, access: self.access }
    }
}

impl View for NetworkDestination {
    type V = DestinationModel;

    open spec fn view(&self) -> DestinationModel {
        DestinationModel { host: self.host@, transport: self.transport, port: self.port }
    }
}

/// What a list of file capabilities grants.
pub open spec fn file_models(files: Seq<FileCapability>) -> Seq<FileModel> {
    files.map_values(|f: FileCapability| f@)
}

/// What a list of destinations names.
pub open spec fn destination_models(list: Seq<NetworkDestination>) -> Seq<DestinationModel> {
    list.map_values(|d: NetworkDestination| d@)
}

impl View for NetworkPolicy {
    type V = Option<Seq<DestinationModel>>;

    open spec fn view(&self) -> Option<Seq<DestinationModel>> {
        match *self {
            NetworkPolicy::Deny => None,
            NetworkPolicy::Allow { destinations } => Some(destination_models(destinations@)),
        }
    }
}

impl View for TaskSpec {
    type V = TaskModel;

    open spec fn view(&self) -> TaskModel {
        TaskModel {
            idempotency_key: self.idempotency_key@,
            goal: self.goal@,
            files: file_models(self.capabilities.filesystem@),
            network: self.capabilities.network@,
            tools: text::texts(self.capabilities.tools@),
            budget: self.budget,
            required_for: text::texts(self.approval.required_for@),
        }
    }
}

/// One issue where `bad` holds, none where it does not.
pub open spec fn issue_if(bad: bool, field: Seq<char>, message: Seq<char>) -> Seq<Issue> {
    if bad {
        seq![(field, message)]
    } else {
        Seq::<Issue>::empty()
    }
}

/// The message about a text that is no identifier.
pub open spec fn identifier_message(max_bytes: nat) -> Seq<char> {
    "must be 1 to "@ + text::decimal(max_bytes)
        + " ASCII letters, digits, '.', '_', ':', or '-'"@
}

/// A component of a normalized path: not empty, not `.`, not `..`.
pub open spec fn is_plain_component(component: Seq<u8>) -> bool {
    &&& component.len() > 0
    &&& component != seq![0x2eu8]
    &&& component != seq![0x2eu8, 0x2eu8]
}

/// A normalized absolute path below the filesystem root.
pub open spec fn is_normal_path(path: Seq<char>) -> bool {
    let bytes = text::utf8(path);
    let parts = text::split(bytes, 0x2f);
    &&& 2 <= bytes.len() <= MAX_PATH_BYTES
    &&& bytes[0] == 0x2f
    &&& !bytes.contains(0u8)
    &&& forall|i: int| 1 <= i < parts.len() ==> is_plain_component(#[trigger] parts[i])
}

/// One label of a host name.
pub open spec fn is_host_label(label: Seq<u8>) -> bool {
    &&& 1 <= label.len() <= MAX_LABEL_BYTES
    &&& text::is_alphanumeric(label[0])
    &&& text::is_alphanumeric(label.last())
    &&& forall|i: int|
        0 <= i < label.len() ==> text::is_alphanumeric(#[trigger] label[i]) || label[i] == 0x2d
}

/// A lowercase host name or IP address.
pub open spec fn is_network_host(host: Seq<char>) -> bool {
    let bytes = text::utf8(host);
    let labels = text::split(bytes, 0x2e);
    &&& 1 <= bytes.len() <= MAX_HOST_BYTES
    &&& forall|i: int| 0 <= i < bytes.len() ==> !(0x41 <= #[trigger] bytes[i] <= 0x5a)
    &&& (ip::ip_value(bytes) is Some || (forall|i: int|
        0 <= i < labels.len() ==> is_host_label(#[trigger] labels[i])))
}

/// Whether entry `i` of a list repeats an earlier entry.
pub open spec fn repeats<T>(list: Seq<T>, i: int) -> bool {
    exists|j: int| 0 <= j < i && #[trigger] list[j] == list[i]
}

/// The issues of the first `n` file capabilities.
pub open spec fn file_issues(files: Seq<FileModel>, n: nat) -> Seq<Issue>
    decreases n,
{
    if n == 0 {
        Seq::<Issue>::empty()
    } else {
        file_issues(files, (n - 1) as nat) + issue_if(
            !is_normal_path(files[n - 1].path),
            "capabilities.filesystem.path"@,
            "must be a normalized absolute path below the filesystem root"@,
        ) + issue_if(
            repeats(files, n - 1),
            "capabilities.filesystem"@,
            "must not contain duplicate path and access entries"@,
        )
    }
}

/// The issues of the first `n` destinations.
pub open spec fn destination_issues(list: Seq<DestinationModel>, n: nat) -> Seq<Issue>
    decreases n,
{
    if n == 0 {
        Seq::<Issue>::empty()
    } else {
        destination_issues(list, (n - 1) as nat) + issue_if(
            !is_network_host(list[n - 1].host),
            "capabilities.network.destinations.host"@,
            "must contain lowercase host names or IP addresses without schemes or paths"@,
        ) + issue_if(
            list[n - 1].port == 0,
            "capabilities.network.destinations.port"@,
            "must be between 1 and 65535"@,
        ) + issue_if(
            repeats(list, n - 1),
            "capabilities.network.destinations"@,
            "must not contain duplicate entries"@,
        )
    }
}

/// The issues of the first `n` identifiers of a list.
pub open spec fn identifier_list_issues(
    field: Seq<char>,
    list: Seq<Seq<char>>,
    n: nat,
) -> Seq<Issue>
    decreases n,
{
    if n == 0 {
        Seq::<Issue>::empty()
    } else {
        identifier_list_issues(field, list, (n - 1) as nat) + issue_if(
            !text::is_identifier(list[n - 1], MAX_IDENTIFIER_BYTES as nat),
            field,
            identifier_message(MAX_IDENTIFIER_BYTES as nat),
        ) + issue_if(repeats(list, n - 1), field, "must not contain duplicate entries"@)
    }
}

/// The issues of a goal.
pub open spec fn goal_issues(goal: Seq<char>) -> Seq<Issue> {
    issue_if(
        text::is_blank_text(goal) || goal.len() > MAX_GOAL_CHARS,
        "goal"@,
        "must contain between 1 and 8192 non-blank characters"@,
    )
}

/// The issues of a network policy.
pub open spec fn network_issues(network: Option<Seq<DestinationModel>>) -> Seq<Issue> {
    match network {
        None => Seq::<Issue>::empty(),
        Some(list) => issue_if(
            list.len() == 0 || list.len() > MAX_NETWORK_DESTINATIONS,
            "capabilities.network.destinations"@,
            "must contain between 1 and 64 entries"@,
        ) + destination_issues(list, list.len()),
    }
}

/// The issues of a capability set.
pub open spec fn capability_issues(
    files: Seq<FileModel>,
    network: Option<Seq<DestinationModel>>,
    tools: Seq<Seq<char>>,
) -> Seq<Issue> {
    issue_if(
        files.len() > MAX_FILESYSTEM_CAPABILITIES,
        "capabilities.filesystem"@,
        "must contain at most 128 entries"@,
    ) + file_issues(files, files.len()) + network_issues(network) + issue_if(
        tools.len() > MAX_TOOLS,
        "capabilities.tools"@,
        "must contain at most 64 entries"@,
    ) + identifier_list_issues("capabilities.tools"@, tools, tools.len())
}

/// The issues of a budget.
pub open spec fn budget_issues(budget: Budget) -> Seq<Issue> {
    issue_if(
        budget.wall_time_seconds == 0,
        "budget.wall_time_seconds"@,
        "must be greater than zero"@,
    ) + issue_if(
        budget.memory_bytes == 0,
        "budget.memory_bytes"@,
        "must be greater than zero"@,
    ) + issue_if(
        !(1 <= budget.max_parallel_agents <= 8),
        "budget.max_parallel_agents"@,
        "must be between 1 and 8"@,
    )
}

/// The issues of an approval policy.
pub open spec fn approval_issues(required_for: Seq<Seq<char>>) -> Seq<Issue> {
    issue_if(
        required_for.len() > MAX_APPROVAL_ACTIONS,
        "approval.required_for"@,
        "must contain at most 64 entries"@,
    ) + identifier_list_issues("approval.required_for"@, required_for, required_for.len())
}

impl TaskModel {
    /// Every violated rule, in the order in which they are reported.
    pub open spec fn issues(self) -> Seq<Issue> {
        goal_issues(self.goal) + issue_if(
            !text::is_identifier(self.idempotency_key, MAX_IDEMPOTENCY_KEY_BYTES as nat),
            "idempotency_key"@,
            identifier_message(MAX_IDEMPOTENCY_KEY_BYTES as nat),
        ) + capability_issues(self.files, self.network, self.tools) + budget_issues(self.budget)
            + approval_issues(self.required_for)
    }

    /// The complete task contract, as one predicate.
    pub open spec fn valid(self) -> bool {
        &&& !text::is_blank_text(self.goal)
        &&& self.goal.len() <= MAX_GOAL_CHARS
        &&& text::is_identifier(self.idempotency_key, MAX_IDEMPOTENCY_KEY_BYTES as nat)
        &&& self.files.len() <= MAX_FILESYSTEM_CAPABILITIES
        &&& self.files.no_duplicates()
        &&& forall|i: int| 0 <= i < self.files.len() ==> is_normal_path(#[trigger] self.files[i].path)
        &&& match self.network {
            None => true,
            Some(list) => valid_destinations(list),
        }
        &&& valid_identifier_list(self.tools, MAX_TOOLS as nat)
        &&& self.budget.wall_time_seconds > 0
        &&& self.budget.memory_bytes > 0
        &&& 1 <= self.budget.max_parallel_agents <= 8
        &&& valid_identifier_list(self.required_for, MAX_APPROVAL_ACTIONS as nat)
    }
}

/// Between 1 and 64 distinct destinations with valid hosts and ports.
pub open spec fn valid_destinations(list: Seq<DestinationModel>) -> bool {
    &&& 1 <= list.len() <= MAX_NETWORK_DESTINATIONS
    &&& list.no_duplicates()
    &&& forall|i: int|
        0 <= i < list.len() ==> is_network_host((#[trigger] list[i]).host) && list[i].port > 0
}

/// At most `max` distinct identifiers.
pub open spec fn valid_identifier_list(list: Seq<Seq<char>>, max: nat) -> bool {
    &&& list.len() <= max
    &&& list.no_duplicates()
    &&& forall|i: int|
        0 <= i < list.len() ==> text::is_identifier(
            #[trigger] list[i],
            MAX_IDENTIFIER_BYTES as nat,
        )
}

proof fn lemma_file_issues(files: Seq<FileModel>, n: nat)
    requires
        n <= files.len(),
    ensures
        file_issues(files, n).len() == 0 <==> (forall|i: int|
            0 <= i < n ==> is_normal_path(#[trigger] files[i].path)) && (forall|i: int|
            #![trigger files[i]]
            0 <= i < n ==> !repeats(files, i)),
    decreases n,
{
    if n > 0 {
        lemma_file_issues(files, (n - 1) as nat);
        if file_issues(files, n).len() == 0 {
            assert(is_normal_path(files[n - 1].path));
            assert(!repeats(files, n - 1));
        } else if file_issues(files, (n - 1) as nat).len() == 0 {
            assert(!is_normal_path(files[n - 1].path) || repeats(files, n - 1));
        }
    }
}

proof fn lemma_destination_issues(list: Seq<DestinationModel>, n: nat)
    requires
        n <= list.len(),
    ensures
        destination_issues(list, n).len() == 0 <==> (forall|i: int|
            0 <= i < n ==> is_network_host((#[trigger] list[i]).host) && list[i].port > 0
                && !repeats(list, i)),
    decreases n,
{
    if n > 0 {
        lemma_destination_issues(list, (n - 1) as nat);
        if destination_issues(list, n).len() == 0 {
            assert(is_network_host(list[n - 1].host));
            assert(!repeats(list, n - 1));
        } else if destination_issues(list, (n - 1) as nat).len() == 0 {
            assert(!is_network_host(list[n - 1].host) || list[n - 1].port == 0 || repeats(
                list,
                n - 1,
            ));
        }
    }
}

proof fn lemma_identifier_list_issues(field: Seq<char>, list: Seq<Seq<char>>, n: nat)
    requires
        n <= list.len(),
    ensures
        identifier_list_issues(field, list, n).len() == 0 <==> (forall|i: int|
            0 <= i < n ==> text::is_identifier(#[trigger] list[i], MAX_IDENTIFIER_BYTES as nat)
                && !repeats(list, i)),
    decreases n,
{
    if n > 0 {
        lemma_identifier_list_issues(field, list, (n - 1) as nat);
        if identifier_list_issues(field, list, n).len() == 0 {
            assert(text::is_identifier(list[n - 1], MAX_IDENTIFIER_BYTES as nat));
            assert(!repeats(list, n - 1));
        } else if identifier_list_issues(field, list, (n - 1) as nat).len() == 0 {
            assert(!text::is_identifier(list[n - 1], MAX_IDENTIFIER_BYTES as nat) || repeats(
                list,
                n - 1,
            ));
        }
    }
}

proof fn lemma_no_repeats<T>(list: Seq<T>)
    ensures
        list.no_duplicates() <==> (forall|i: int|
            #![trigger list[i]]
            0 <= i < list.len() ==> !repeats(list, i)),
{
    if forall|i: int| #![trigger list[i]] 0 <= i < list.len() ==> !repeats(list, i) {
        assert forall|i: int, j: int|
            0 <= i < list.len() && 0 <= j < list.len() && i != j implies list[i] != list[j] by {
            if list[i] == list[j] {
                if i < j {
                    assert(!repeats(list, j));
                } else {
                    assert(!repeats(list, i));
                }
            }
        }
    }
}

/// A task has no issues exactly when it satisfies the complete task contract.
pub proof fn law_no_issues_means_valid(task: TaskModel)
    ensures
        task.issues().len() == 0 <==> task.valid(),
{
    lemma_file_issues(task.files, task.files.len());
    lemma_no_repeats(task.files);
    lemma_identifier_list_issues("capabilities.tools"@, task.tools, task.tools.len());
    lemma_no_repeats(task.tools);
    lemma_identifier_list_issues(
        "approval.required_for"@,
        task.required_for,
        task.required_for.len(),
    );
    lemma_no_repeats(task.required_for);
    if let Some(list) = task.network {
        lemma_destination_issues(list, list.len());
        lemma_no_repeats(list);
    }
}

/// The complete catalogue of issues; no entry of it depends on a task.
pub open spec fn is_known_issue(issue: Issue) -> bool {
    ||| issue == ("goal"@, "must contain between 1 and 8192 non-blank characters"@)
    ||| issue == ("idempotency_key"@, identifier_message(MAX_IDEMPOTENCY_KEY_BYTES as nat))
    ||| issue == ("capabilities.filesystem"@, "must contain at most 128 entries"@)
    ||| issue == (
        "capabilities.filesystem.path"@,
        "must be a normalized absolute path below the filesystem root"@,
    )
    ||| issue == (
        "capabilities.filesystem"@,
        "must not contain duplicate path and access entries"@,
    )
    ||| issue == ("capabilities.network.destinations"@, "must contain between 1 and 64 entries"@)
    ||| issue == (
        "capabilities.network.destinations.host"@,
        "must contain lowercase host names or IP addresses without schemes or paths"@,
    )
    ||| issue == ("capabilities.network.destinations.port"@, "must be between 1 and 65535"@)
    ||| issue == ("capabilities.network.destinations"@, "must not contain duplicate entries"@)
    ||| issue == ("capabilities.tools"@, "must contain at most 64 entries"@)
    ||| issue == ("capabilities.tools"@, identifier_message(MAX_IDENTIFIER_BYTES as nat))
    ||| issue == ("capabilities.tools"@, "must not contain duplicate entries"@)
    ||| issue == ("budget.wall_time_seconds"@, "must be greater than zero"@)
    ||| issue == ("budget.memory_bytes"@, "must be greater than zero"@)
    ||| issue == ("budget.max_parallel_agents"@, "must be between 1 and 8"@)
    ||| issue == ("approval.required_for"@, "must contain at most 64 entries"@)
    ||| issue == ("approval.required_for"@, identifier_message(MAX_IDENTIFIER_BYTES as nat))
    ||| issue == ("approval.required_for"@, "must not contain duplicate entries"@)
}

/// Whether every issue of a list is in the catalogue.
pub open spec fn all_known(list: Seq<Issue>) -> bool {
    forall|i: int| 0 <= i < list.len() ==> is_known_issue(#[trigger] list[i])
}

proof fn lemma_file_issues_known(files: Seq<FileModel>, n: nat)
    ensures
        all_known(file_issues(files, n)),
    decreases n,
{
    if n > 0 {
        lemma_file_issues_known(files, (n - 1) as nat);
    }
}

proof fn lemma_destination_issues_known(list: Seq<DestinationModel>, n: nat)
    ensures
        all_known(destination_issues(list, n)),
    decreases n,
{
    if n > 0 {
        lemma_destination_issues_known(list, (n - 1) as nat);
    }
}

proof fn lemma_identifier_issues_known(field: Seq<char>, list: Seq<Seq<char>>, n: nat)
    requires
        field == "capabilities.tools"@ || field == "approval.required_for"@,
    ensures
        all_known(identifier_list_issues(field, list, n)),
    decreases n,
{
    if n > 0 {
        lemma_identifier_issues_known(field, list, (n - 1) as nat);
    }
}

/// Validation errors never echo input: whatever the task, each issue that it is
/// answered with is one of a fixed catalogue of texts.
pub proof fn law_issues_do_not_echo_input(task: TaskModel)
    ensures
        all_known(task.issues()),
{
    lemma_file_issues_known(task.files, task.files.len());
    lemma_identifier_issues_known("capabilities.tools"@, task.tools, task.tools.len());
    lemma_identifier_issues_known(
        "approval.required_for"@,
        task.required_for,
        task.required_for.len(),
    );
    if let Some(list) = task.network {
        lemma_destination_issues_known(list, list.len());
    }
    assert(all_known(goal_issues(task.goal)));
    assert(all_known(network_issues(task.network)));
    assert(all_known(capability_issues(task.files, task.network, task.tools)));
    assert(all_known(budget_issues(task.budget)));
    assert(all_known(approval_issues(task.required_for)));
}

fn push_issue(
    errors: &mut Vec<ValidationError>,
    bad: bool,
    field: &'static str,
    message: &'static str,
)
    ensures
        error::issues(final(errors)@) == error::issues(old(errors)@) + issue_if(
            bad,
            field@,
            message@,
        ),
{
    if bad {
        errors.push(ValidationError::new(field, message.to_owned()));
    }
    assert(error::issues(errors@) =~= error::issues(old(errors)@) + issue_if(
        bad,
        field@,
        message@,
    ));
}

fn validate_goal(goal: &str, errors: &mut Vec<ValidationError>)
    ensures
        error::issues(final(errors)@) == error::issues(old(errors)@) + goal_issues(goal@),
{
    let length: usize = goal.unicode_len();
    push_issue(
        errors,
        is_blank(goal) || length > MAX_GOAL_CHARS,
        "goal",
        "must contain between 1 and 8192 non-blank characters",
    );
}

fn validate_identifier(
    field: &'static str,
    value: &str,
    max_bytes: usize,
    errors: &mut Vec<ValidationError>,
)
    ensures
        error::issues(final(errors)@) == error::issues(old(errors)@) + issue_if(
            !text::is_identifier(value@, max_bytes as nat),
            field@,
            identifier_message(max_bytes as nat),
        ),
{
    let bad = !is_valid_identifier(value, max_bytes);
    if bad {
        let limit = decimal_string(max_bytes as u64);
        let message = concat3(
            "must be 1 to ",
            limit.as_str(),
            " ASCII letters, digits, '.', '_', ':', or '-'",
        );
        errors.push(ValidationError::new(field, message));
    }
    assert(error::issues(errors@) =~= error::issues(old(errors)@) + issue_if(
        bad,
        field@,
        identifier_message(max_bytes as nat),
    ));
}

fn validate_absolute_normalized_path(path: &str, errors: &mut Vec<ValidationError>)
    ensures
        error::issues(final(errors)@) == error::issues(old(errors)@) + issue_if(
            !is_normal_path(path@),
            "capabilities.filesystem.path"@,
            "must be a normalized absolute path below the filesystem root"@,
        ),
{
    push_issue(
        errors,
        !is_normalized_absolute_path(path),
        "capabilities.filesystem.path",
        "must be a normalized absolute path below the filesystem root",
    );
}

fn is_plain(component: &Vec<u8>) -> (r: bool)
    ensures
        r == is_plain_component(component@),
{
    let dot = component.len() == 1 && component[0] == 0x2e;
    let dots = component.len() == 2 && component[0] == 0x2e && component[1] == 0x2e;
    proof {
        if dot {
            assert(component@ =~= seq![0x2eu8]);
        }
        if dots {
            assert(component@ =~= seq![0x2eu8, 0x2eu8]);
        }
        if component@ == seq![0x2eu8] {
            assert(component@[0] == 0x2e);
        }
        if component@ == seq![0x2eu8, 0x2eu8] {
            assert(component@[0] == 0x2e && component@[1] == 0x2e);
        }
    }
    component.len() > 0 && !dot && !dots
}

/// Decides [`is_normal_path`].
pub fn is_normalized_absolute_path(path: &str) -> (r: bool)
    ensures
        r == is_normal_path(path@),
{
    let bytes = path.as_bytes();
    if bytes.len() < 2 || bytes.len() > MAX_PATH_BYTES || bytes[0] != 0x2f || bytes_contain(
        bytes,
        0,
    ) {
        return false;
    }
    let parts = split_bytes(bytes, 0x2f);
    let ghost split = text::split(bytes@, 0x2f);
    let mut i: usize = 1;
    while i < parts.len()
        invariant
            1 <= i <= parts@.len(),
            text::pieces(parts@) == split,
            split == text::split(text::utf8(path@), 0x2f),
            forall|k: int| 1 <= k < i ==> is_plain_component(#[trigger] split[k]),
        decreases parts@.len() - i,
    {
        assert(split[i as int] == parts@[i as int]@);
        if !is_plain(&parts[i]) {
            return false;
        }
        i = i + 1;
    }
    true
}

fn is_label(label: &Vec<u8>) -> (r: bool)
    ensures
        r == is_host_label(label@),
{
    if label.len() == 0 || label.len() > MAX_LABEL_BYTES {
        return false;
    }
    if !is_ascii_alphanumeric(label[0]) || !is_ascii_alphanumeric(label[label.len() - 1]) {
        return false;
    }
    let mut i: usize = 0;
    while i < label.len()
        invariant
            i <= label@.len(),
            forall|k: int|
                0 <= k < i ==> text::is_alphanumeric(#[trigger] label@[k]) || label@[k] == 0x2d,
        decreases label@.len() - i,
    {
        if !is_ascii_alphanumeric(label[i]) && label[i] != 0x2d {
            assert(!text::is_alphanumeric(label@[i as int]));
            return false;
        }
        i = i + 1;
    }
    true
}

/// Decides [`is_network_host`].
pub fn is_valid_network_host(host: &str) -> (r: bool)
    ensures
        r == is_network_host(host@),
{
    let bytes = host.as_bytes();
    if bytes.len() == 0 || bytes.len() > MAX_HOST_BYTES {
        return false;
    }
    let mut i: usize = 0;
    while i < bytes.len()
        invariant
            i <= bytes@.len(),
            bytes@ == text::utf8(host@),
            forall|k: int| 0 <= k < i ==> !(0x41 <= #[trigger] bytes@[k] <= 0x5a),
        decreases bytes@.len() - i,
    {
        if 0x41 <= bytes[i] && bytes[i] <= 0x5a {
            return false;
        }
        i = i + 1;
    }
    if parse_ip(bytes).is_some() {
        return true;
    }
    let labels = split_bytes(bytes, 0x2e);
    let ghost split = text::split(bytes@, 0x2e);
    let mut j: usize = 0;
    while j < labels.len()
        invariant
            j <= labels@.len(),
            text::pieces(labels@) == split,
            split == text::split(text::utf8(host@), 0x2e),
            ip::ip_value(text::utf8(host@)) is None,
            forall|k: int| 0 <= k < j ==> is_host_label(#[trigger] split[k]),
        decreases labels@.len() - j,
    {
        assert(split[j as int] == labels@[j as int]@);
        if !is_label(&labels[j]) {
            return false;
        }
        j = j + 1;
    }
    true
}

impl FileCapability {
    /// Whether two capabilities are the same.
    pub fn same_as(&self, other: &FileCapability) -> (r: bool)
        ensures
            r == (self@ == other@),
    {
        self.access == other.access && text_eq(self.path.as_str(), other.path.as_str())
    }
}

impl NetworkDestination {
    fn same_as(&self, other: &NetworkDestination) -> (r: bool)
        ensures
            r == (self@ == other@),
    {
        self.transport == other.transport && self.port == other.port && text_eq(
            self.host.as_str(),
            other.host.as_str(),
        )
    }
}

fn file_repeats(files: &Vec<FileCapability>, at: usize) -> (r: bool)
    requires
        at < files@.len(),
    ensures
        r == repeats(file_models(files@), at as int),
{
    let ghost models = file_models(files@);
    let mut j: usize = 0;
    while j < at
        invariant
            j <= at < files@.len(),
            models == file_models(files@),
            forall|k: int| 0 <= k < j ==> #[trigger] models[k] != models[at as int],
        decreases at - j,
    {
        assert(models[j as int] == files@[j as int]@ && models[at as int] == files@[at as int]@);
        if files[j].same_as(&files[at]) {
            return true;
        }
        j = j + 1;
    }
    false
}

fn destination_repeats(list: &Vec<NetworkDestination>, at: usize) -> (r: bool)
    requires
        at < list@.len(),
    ensures
        r == repeats(destination_models(list@), at as int),
{
    let ghost models = destination_models(list@);
    let mut j: usize = 0;
    while j < at
        invariant
            j <= at < list@.len(),
            models == destination_models(list@),
            forall|k: int| 0 <= k < j ==> #[trigger] models[k] != models[at as int],
        decreases at - j,
    {
        assert(models[j as int] == list@[j as int]@ && models[at as int] == list@[at as int]@);
        if list[j].same_as(&list[at]) {
            return true;
        }
        j = j + 1;
    }
    false
}

fn text_repeats(list: &Vec<String>, at: usize) -> (r: bool)
    requires
        at < list@.len(),
    ensures
        r == repeats(text::texts(list@), at as int),
{
    let ghost models = text::texts(list@);
    let mut j: usize = 0;
    while j < at
        invariant
            j <= at < list@.len(),
            models == text::texts(list@),
            forall|k: int| 0 <= k < j ==> #[trigger] models[k] != models[at as int],
        decreases at - j,
    {
        assert(models[j as int] == list@[j as int]@ && models[at as int] == list@[at as int]@);
        if text_eq(list[j].as_str(), list[at].as_str()) {
            return true;
        }
        j = j + 1;
    }
    false
}

fn validate_identifier_list(
    field: &'static str,
    list: &Vec<String>,
    errors: &mut Vec<ValidationError>,
)
    ensures
        error::issues(final(errors)@) == error::issues(old(errors)@) + identifier_list_issues(
            field@,
            text::texts(list@),
            list@.len(),
        ),
{
    let ghost models = text::texts(list@);
    let ghost before = error::issues(errors@);
    let mut i: usize = 0;
    assert(before + identifier_list_issues(field@, models, 0) =~= before);
    while i < list.len()
        invariant
            i <= list@.len(),
            models == text::texts(list@),
            error::issues(errors@) == before + identifier_list_issues(field@, models, i as nat),
        decreases list@.len() - i,
    {
        assert(models[i as int] == list@[i as int]@);
        validate_identifier(field, list[i].as_str(), MAX_IDENTIFIER_BYTES, errors);
        let again = text_repeats(list, i);
        push_issue(errors, again, field, "must not contain duplicate entries");
        i = i + 1;
        assert(error::issues(errors@) =~= before + identifier_list_issues(
            field@,
            models,
            i as nat,
        ));
    }
}

impl CapabilitySet {
    /// Reports every violated rule of the capability set.
    fn validate(&self, errors: &mut Vec<ValidationError>)
        ensures
            error::issues(final(errors)@) == error::issues(old(errors)@) + capability_issues(
                file_models(self.filesystem@),
                self.network@,
                text::texts(self.tools@),
            ),
    {
        let ghost start = error::issues(errors@);
        let ghost files = file_models(self.filesystem@);
        push_issue(
            errors,
            self.filesystem.len() > MAX_FILESYSTEM_CAPABILITIES,
            "capabilities.filesystem",
            "must contain at most 128 entries",
        );
        let ghost before = error::issues(errors@);
        let mut i: usize = 0;
        assert(before + file_issues(files, 0) =~= before);
        while i < self.filesystem.len()
            invariant
                i <= self.filesystem@.len(),
                files == file_models(self.filesystem@),
                error::issues(errors@) == before + file_issues(files, i as nat),
            decreases self.filesystem@.len() - i,
        {
            assert(files[i as int] == self.filesystem@[i as int]@);
            validate_absolute_normalized_path(self.filesystem[i].path.as_str(), errors);
            let again = file_repeats(&self.filesystem, i);
            push_issue(
                errors,
                again,
                "capabilities.filesystem",
                "must not contain duplicate path and access entries",
            );
            i = i + 1;
            assert(error::issues(errors@) =~= before + file_issues(files, i as nat));
        }
        self.network.validate(errors);
        push_issue(
            errors,
            self.tools.len() > MAX_TOOLS,
            "capabilities.tools",
            "must contain at most 64 entries",
        );
        validate_identifier_list("capabilities.tools", &self.tools, errors);
        assert(error::issues(errors@) =~= start + capability_issues(
            files,
            self.network@,
            text::texts(self.tools@),
        ));
    }
}

impl NetworkPolicy {
    /// Reports every violated rule of the network policy.
    fn validate(&self, errors: &mut Vec<ValidationError>)
        ensures
            error::issues(final(errors)@) == error::issues(old(errors)@) + network_issues(self@),
    {
        let ghost start = error::issues(errors@);
        match self {
            NetworkPolicy::Deny => {
                assert(start + network_issues(self@) =~= start);
            },
            NetworkPolicy::Allow { destinations } => {
                let ghost models = destination_models(destinations@);
                push_issue(
                    errors,
                    destinations.len() == 0 || destinations.len() > MAX_NETWORK_DESTINATIONS,
                    "capabilities.network.destinations",
                    "must contain between 1 and 64 entries",
                );
                let ghost before = error::issues(errors@);
                let mut i: usize = 0;
                assert(before + destination_issues(models, 0) =~= before);
                while i < destinations.len()
                    invariant
                        i <= destinations@.len(),
                        models == destination_models(destinations@),
                        error::issues(errors@) == before + destination_issues(models, i as nat),
                    decreases destinations@.len() - i,
                {
                    assert(models[i as int] == destinations@[i as int]@);
                    push_issue(
                        errors,
                        !is_valid_network_host(destinations[i].host.as_str()),
                        "capabilities.network.destinations.host",
                        "must contain lowercase host names or IP addresses without schemes or paths",
                    );
                    push_issue(
                        errors,
                        destinations[i].port == 0,
                        "capabilities.network.destinations.port",
                        "must be between 1 and 65535",
                    );
                    let again = destination_repeats(destinations, i);
                    push_issue(
                        errors,
                        again,
                        "capabilities.network.destinations",
                        "must not contain duplicate entries",
                    );
                    i = i + 1;
                    assert(error::issues(errors@) =~= before + destination_issues(
                        models,
                        i as nat,
                    ));
                }
                assert(error::issues(errors@) =~= start + network_issues(self@));
            },
        }
    }
}

impl Budget {
    /// Reports every violated rule of the budget.
    fn validate(&self, errors: &mut Vec<ValidationError>)
        ensures
            error::issues(final(errors)@) == error::issues(old(errors)@) + budget_issues(*self),
    {
        let ghost start = error::issues(errors@);
        push_issue(
            errors,
            self.wall_time_seconds == 0,
            "budget.wall_time_seconds",
            "must be greater than zero",
        );
        push_issue(
            errors,
            self.memory_bytes == 0,
            "budget.memory_bytes",
            "must be greater than zero",
        );
        push_issue(
            errors,
            !(1 <= self.max_parallel_agents && self.max_parallel_agents <= 8),
            "budget.max_parallel_agents",
            "must be between 1 and 8",
        );
        assert(error::issues(errors@) =~= start + budget_issues(*self));
    }
}

impl ApprovalPolicy {
    /// Reports every violated rule of the approval policy.
    fn validate(&self, errors: &mut Vec<ValidationError>)
        ensures
            error::issues(final(errors)@) == error::issues(old(errors)@) + approval_issues(
                text::texts(self.required_for@),
            ),
    {
        let ghost start = error::issues(errors@);
        push_issue(
            errors,
            self.required_for.len() > MAX_APPROVAL_ACTIONS,
            "approval.required_for",
            "must contain at most 64 entries",
        );
        validate_identifier_list("approval.required_for", &self.required_for, errors);
        assert(error::issues(errors@) =~= start + approval_issues(
            text::texts(self.required_for@),
        ));
    }
}

impl TaskSpec {
    /// Validates all fields without returning sensitive input values in errors.
    pub fn validate(&self) -> (r: Result<(), ValidationErrors>)
        ensures
            r is Ok <==> self@.valid(),
            r is Err ==> (r->Err_0)@ == self@.issues() && (r->Err_0)@.len() > 0,
    {
        let mut errors: Vec<ValidationError> = Vec::new();
        validate_goal(self.goal.as_str(), &mut errors);
        validate_identifier(
            "idempotency_key",
            self.idempotency_key.as_str(),
            MAX_IDEMPOTENCY_KEY_BYTES,
            &mut errors,
        );
        self.capabilities.validate(&mut errors);
        self.budget.validate(&mut errors);
        self.approval.validate(&mut errors);
        proof {
            assert(error::issues(errors@) =~= self@.issues());
            law_no_issues_means_valid(self@);
        }
        match ValidationErrors::new(errors) {
            Some(errors) => Err(errors),
            None => Ok(()),
        }
    }

    /// Whether two specifications say the same.
    pub fn same_as(&self, other: &TaskSpec) -> (r: bool)
        ensures
            r == (self@ == other@),
    {
        let same = text_eq(self.idempotency_key.as_str(), other.idempotency_key.as_str())
            && text_eq(self.goal.as_str(), other.goal.as_str()) && files_eq(
            &self.capabilities.filesystem,
            &other.capabilities.filesystem,
        ) && self.capabilities.network.same_as(&other.capabilities.network) && texts_eq(
            &self.capabilities.tools,
            &other.capabilities.tools,
        ) && self.budget.wall_time_seconds == other.budget.wall_time_seconds
            && self.budget.memory_bytes == other.budget.memory_bytes
            && self.budget.max_parallel_agents == other.budget.max_parallel_agents && texts_eq(
            &self.approval.required_for,
            &other.approval.required_for,
        );
        same
    }
}

fn files_eq(a: &Vec<FileCapability>, b: &Vec<FileCapability>) -> (r: bool)
    ensures
        r == (file_models(a@) == file_models(b@)),
{
    if a.len() != b.len() {
        assert(file_models(a@).len() != file_models(b@).len());
        return false;
    }
    let mut i: usize = 0;
    while i < a.len()
        invariant
            a@.len() == b@.len(),
            i <= a@.len(),
            forall|k: int| 0 <= k < i ==> a@[k]@ == b@[k]@,
        decreases a@.len() - i,
    {
        if !a[i].same_as(&b[i]) {
            assert(file_models(a@)[i as int] != file_models(b@)[i as int]);
            return false;
        }
        i = i + 1;
    }
    assert(file_models(a@) =~= file_models(b@));
    true
}

impl NetworkPolicy {
    fn same_as(&self, other: &NetworkPolicy) -> (r: bool)
        ensures
            r == (self@ == other@),
    {
        match (self, other) {
            (NetworkPolicy::Deny, NetworkPolicy::Deny) => true,
            (
                NetworkPolicy::Allow { destinations: a },
                NetworkPolicy::Allow { destinations: b },
            ) => {
                let ghost left = destination_models(a@);
                let ghost right = destination_models(b@);
                if a.len() != b.len() {
                    assert(left.len() != right.len());
                    return false;
                }
                let mut i: usize = 0;
                while i < a.len()
                    invariant
                        a@.len() == b@.len(),
                        i <= a@.len(),
                        left == destination_models(a@),
                        right == destination_models(b@),
                        self@ == Some(left),
                        other@ == Some(right),
                        forall|k: int| 0 <= k < i ==> a@[k]@ == b@[k]@,
                    decreases a@.len() - i,
                {
                    if !a[i].same_as(&b[i]) {
                        assert(left[i as int] != right[i as int]);
                        return false;
                    }
                    i = i + 1;
                }
                assert(left =~= right);
                true
            },
            _ => false,
        }
    }
}

impl Clone for FileCapability {
    fn clone(&self) -> (r: Self)
        ensures
            r@ == self@,
    {
        FileCapability { path: self.path.clone(), access: self.access }
    }
}

impl Clone for NetworkDestination {
    fn clone(&self) -> (r: Self)
        ensures
            r@ == self@,
    {
        NetworkDestination {
            host: self.host.clone(),
            transport: self.transport,
            port: self.port,
        }
    }
}

/// Copies a list of destinations.
pub fn clone_destinations(list: &Vec<NetworkDestination>) -> (r: Vec<NetworkDestination>)
    ensures
        destination_models(r@) == destination_models(list@),
{
    let mut out: Vec<NetworkDestination> = Vec::new();
    let mut i: usize = 0;
    while i < list.len()
        invariant
            i <= list@.len(),
            out@.len() == i,
            forall|k: int| 0 <= k < i ==> out@[k]@ == list@[k]@,
        decreases list@.len() - i,
    {
        out.push(list[i].clone());
        i = i + 1;
    }
    assert(destination_models(out@) =~= destination_models(list@));
    out
}

impl Clone for NetworkPolicy {
    fn clone(&self) -> (r: Self)
        ensures
            r@ == self@,
    {
        match self {
            NetworkPolicy::Deny => NetworkPolicy::Deny,
            NetworkPolicy::Allow { destinations } => NetworkPolicy::Allow {
                destinations: clone_destinations(destinations),
            },
        }
    }
}

impl Default for NetworkPolicy {
    fn default() -> (r: Self)
        ensures
            r is Deny,
    {
        NetworkPolicy::Deny
    }
}

impl Clone for CapabilitySet {
    fn clone(&self) -> (r: Self)
        ensures
            file_models(r.filesystem@) == file_models(self.filesystem@),
            r.network@ == self.network@,
            text::texts(r.tools@) == text::texts(self.tools@),
    {
        let mut files: Vec<FileCapability> = Vec::new();
        let mut i: usize = 0;
        while i < self.filesystem.len()
            invariant
                i <= self.filesystem@.len(),
                files@.len() == i,
                forall|k: int| 0 <= k < i ==> files@[k]@ == self.filesystem@[k]@,
            decreases self.filesystem@.len() - i,
        {
            files.push(self.filesystem[i].clone());
            i = i + 1;
        }
        assert(file_models(files@) =~= file_models(self.filesystem@));
        CapabilitySet {
            filesystem: files,
            network: self.network.clone(),
            tools: clone_texts(&self.tools),
        }
    }
}

impl Clone for ApprovalPolicy {
    fn clone(&self) -> (r: Self)
        ensures
            text::texts(r.required_for@) == text::texts(self.required_for@),
    {
        ApprovalPolicy { required_for: clone_texts(&self.required_for) }
    }
}

impl Clone for TaskSpec {
    fn clone(&self) -> (r: Self)
        ensures
            r@ == self@,
    {
        TaskSpec {
            idempotency_key: self.idempotency_key.clone(),
            goal: self.goal.clone(),
            capabilities: self.capabilities.clone(),
            budget: self.budget,
            approval: self.approval.clone(),
        }
    }
}

} // verus!
