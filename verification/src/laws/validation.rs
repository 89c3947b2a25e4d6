//! Laws on what a validation reports.

use vstd::prelude::*;

use crate::error::Issue;
use crate::task;
use crate::task::{DestinationModel, FileModel, TaskModel};
use crate::text;

verus! {

/// One where something holds, and none where it does not.
pub open spec fn tally(holds: bool) -> nat {
    if holds {
        1
    } else {
        0
    }
}

/// How often file capabilities break a rule: one time for each bad path, one for each entry that
/// was there before.
pub open spec fn broken_files(files: Seq<FileModel>) -> nat
    decreases files.len(),
{
    if files.len() == 0 {
        0
    } else {
        broken_files(files.drop_last()) + tally(!task::is_normal_path(files.last().path)) + tally(
            files.drop_last().contains(files.last()),
        )
    }
}

/// How often destinations break a rule: one time for each bad host, each port 0, and each entry
/// that was there before.
pub open spec fn broken_destinations(list: Seq<DestinationModel>) -> nat
    decreases list.len(),
{
    if list.len() == 0 {
        0
    } else {
        broken_destinations(list.drop_last()) + tally(!task::is_network_host(list.last().host))
            + tally(list.last().port == 0) + tally(list.drop_last().contains(list.last()))
    }
}

/// How often names break a rule: one time for each that is no identifier of at most 64 bytes, and
/// each that was there before.
pub open spec fn broken_names(list: Seq<Seq<char>>) -> nat
    decreases list.len(),
{
    if list.len() == 0 {
        0
    } else {
        broken_names(list.drop_last()) + tally(!text::is_identifier(list.last(), 64)) + tally(
            list.drop_last().contains(list.last()),
        )
    }
}

/// How often a task breaks a rule.
pub open spec fn broken_rules(t: TaskModel) -> nat {
    tally(text::is_blank_text(t.goal) || t.goal.len() > 8192) + tally(
        !text::is_identifier(t.idempotency_key, 128),
    ) + tally(t.files.len() > 128) + broken_files(t.files) + (match t.network {
        None => 0,
        Some(list) => tally(list.len() == 0 || list.len() > 64) + broken_destinations(list),
    }) + tally(t.tools.len() > 64) + broken_names(t.tools) + tally(t.budget.wall_time_seconds == 0)
        + tally(t.budget.memory_bytes == 0) + tally(
        t.budget.max_parallel_agents == 0 || t.budget.max_parallel_agents > 8,
    ) + tally(t.required_for.len() > 64) + broken_names(t.required_for)
}

/// Every broken rule is reported, each time that it is broken, and nothing else is.
pub proof fn law_every_broken_rule_is_reported_once(t: TaskModel)
    ensures
        t.issues().len() == broken_rules(t),
{
    lemma_capability_count(t);
    lemma_budget_count(t);
    lemma_approval_count(t);
    let key = task::issue_if(
        !text::is_identifier(t.idempotency_key, task::MAX_IDEMPOTENCY_KEY_BYTES as nat),
        "idempotency_key"@,
        task::identifier_message(task::MAX_IDEMPOTENCY_KEY_BYTES as nat),
    );
    assert(key.len() == tally(!text::is_identifier(t.idempotency_key, 128)));
    assert(task::goal_issues(t.goal).len() == tally(
        text::is_blank_text(t.goal) || t.goal.len() > 8192,
    ));
    assert(t.issues().len() == task::goal_issues(t.goal).len() + key.len()
        + task::capability_issues(t.files, t.network, t.tools).len() + task::budget_issues(
        t.budget,
    ).len() + task::approval_issues(t.required_for).len());
}

proof fn lemma_capability_count(t: TaskModel)
    ensures
        task::capability_issues(t.files, t.network, t.tools).len() == tally(t.files.len() > 128)
            + broken_files(t.files) + (match t.network {
            None => 0,
            Some(list) => tally(list.len() == 0 || list.len() > 64) + broken_destinations(list),
        }) + tally(t.tools.len() > 64) + broken_names(t.tools),
{
    lemma_files(t.files, t.files.len());
    assert(t.files.take(t.files.len() as int) =~= t.files);
    lemma_names("capabilities.tools"@, t.tools, t.tools.len());
    assert(t.tools.take(t.tools.len() as int) =~= t.tools);
    if let Some(list) = t.network {
        lemma_destinations(list, list.len());
        assert(list.take(list.len() as int) =~= list);
    }
}

proof fn lemma_budget_count(t: TaskModel)
    ensures
        task::budget_issues(t.budget).len() == tally(t.budget.wall_time_seconds == 0) + tally(
            t.budget.memory_bytes == 0,
        ) + tally(t.budget.max_parallel_agents == 0 || t.budget.max_parallel_agents > 8),
{
}

proof fn lemma_approval_count(t: TaskModel)
    ensures
        task::approval_issues(t.required_for).len() == tally(t.required_for.len() > 64)
            + broken_names(t.required_for),
{
    lemma_names("approval.required_for"@, t.required_for, t.required_for.len());
    assert(t.required_for.take(t.required_for.len() as int) =~= t.required_for);
}

proof fn lemma_repeats<T>(list: Seq<T>, n: int)
    requires
        0 < n <= list.len(),
    ensures
        task::repeats(list, n - 1) <==> list.take(n - 1).contains(list[n - 1]),
        list.take(n).drop_last() == list.take(n - 1),
        list.take(n).last() == list[n - 1],
{
    assert(list.take(n).drop_last() =~= list.take(n - 1));
    let before = list.take(n - 1);
    if task::repeats(list, n - 1) {
        let j = choose|j: int| 0 <= j < n - 1 && #[trigger] list[j] == list[n - 1];
        assert(before[j] == list[n - 1]);
    }
    if before.contains(list[n - 1]) {
        let j = choose|j: int| 0 <= j < before.len() && before[j] == list[n - 1];
        assert(list[j] == list[n - 1]);
    }
}

proof fn lemma_files(files: Seq<FileModel>, n: nat)
    requires
        n <= files.len(),
    ensures
        task::file_issues(files, n).len() == broken_files(files.take(n as int)),
    decreases n,
{
    if n > 0 {
        lemma_files(files, (n - 1) as nat);
        lemma_repeats(files, n as int);
    }
}

proof fn lemma_destinations(list: Seq<DestinationModel>, n: nat)
    requires
        n <= list.len(),
    ensures
        task::destination_issues(list, n).len() == broken_destinations(list.take(n as int)),
    decreases n,
{
    if n > 0 {
        lemma_destinations(list, (n - 1) as nat);
        lemma_repeats(list, n as int);
    }
}

proof fn lemma_names(field: Seq<char>, list: Seq<Seq<char>>, n: nat)
    requires
        n <= list.len(),
    ensures
        task::identifier_list_issues(field, list, n).len() == broken_names(list.take(n as int)),
    decreases n,
{
    if n > 0 {
        lemma_names(field, list, (n - 1) as nat);
        lemma_repeats(list, n as int);
    }
}

proof fn lemma_kept(a: Seq<Issue>, b: Seq<Issue>, x: Issue)
    requires
        a.contains(x) || b.contains(x),
    ensures
        (a + b).contains(x),
{
    if a.contains(x) {
        let i = choose|i: int| 0 <= i < a.len() && a[i] == x;
        assert((a + b)[i] == x);
    } else {
        let i = choose|i: int| 0 <= i < b.len() && b[i] == x;
        assert((a + b)[a.len() + i] == x);
    }
}

proof fn lemma_part(t: TaskModel, x: Issue)
    ensures
        task::file_issues(t.files, t.files.len()).contains(x) || (t.network is Some
            && task::destination_issues(t.network->0, t.network->0.len()).contains(x))
            || task::identifier_list_issues(
            "capabilities.tools"@,
            t.tools,
            t.tools.len(),
        ).contains(x) || task::identifier_list_issues(
            "approval.required_for"@,
            t.required_for,
            t.required_for.len(),
        ).contains(x) ==> t.issues().contains(x),
{
    let goal = task::goal_issues(t.goal);
    let key = task::issue_if(
        !text::is_identifier(t.idempotency_key, task::MAX_IDEMPOTENCY_KEY_BYTES as nat),
        "idempotency_key"@,
        task::identifier_message(task::MAX_IDEMPOTENCY_KEY_BYTES as nat),
    );
    let capabilities = task::capability_issues(t.files, t.network, t.tools);
    let budget = task::budget_issues(t.budget);
    let approval = task::approval_issues(t.required_for);
    let many = task::issue_if(
        t.files.len() > task::MAX_FILESYSTEM_CAPABILITIES,
        "capabilities.filesystem"@,
        "must contain at most 128 entries"@,
    );
    let files = task::file_issues(t.files, t.files.len());
    let network = task::network_issues(t.network);
    let tools = task::issue_if(
        t.tools.len() > task::MAX_TOOLS,
        "capabilities.tools"@,
        "must contain at most 64 entries"@,
    );
    let named = task::identifier_list_issues("capabilities.tools"@, t.tools, t.tools.len());
    if let Some(list) = t.network {
        if task::destination_issues(list, list.len()).contains(x) {
            lemma_kept(
                task::issue_if(
                    list.len() == 0 || list.len() > task::MAX_NETWORK_DESTINATIONS,
                    "capabilities.network.destinations"@,
                    "must contain between 1 and 64 entries"@,
                ),
                task::destination_issues(list, list.len()),
                x,
            );
        }
    }
    if files.contains(x) || network.contains(x) || named.contains(x) {
        if files.contains(x) {
            lemma_kept(many, files, x);
        }
        if !named.contains(x) {
            lemma_kept(many + files, network, x);
            lemma_kept(many + files + network, tools, x);
        }
        lemma_kept(many + files + network + tools, named, x);
        lemma_kept(goal + key, capabilities, x);
        lemma_kept(goal + key + capabilities, budget, x);
        lemma_kept(goal + key + capabilities + budget, approval, x);
    }
    let asked = task::identifier_list_issues(
        "approval.required_for"@,
        t.required_for,
        t.required_for.len(),
    );
    if asked.contains(x) {
        lemma_kept(
            task::issue_if(
                t.required_for.len() > task::MAX_APPROVAL_ACTIONS,
                "approval.required_for"@,
                "must contain at most 64 entries"@,
            ),
            asked,
            x,
        );
        lemma_kept(goal + key + capabilities + budget, approval, x);
    }
}

/// A bad entry is reported under its field: a path that is not normal, a host or a port that is
/// not good, a name that is no identifier, and an entry that was there before.
pub proof fn law_bad_entries_are_reported(t: TaskModel, i: int, j: int)
    ensures
        0 <= i < t.files.len() && !task::is_normal_path(t.files[i].path) ==> t.issues().contains(
            (
                "capabilities.filesystem.path"@,
                "must be a normalized absolute path below the filesystem root"@,
            ),
        ),
        0 <= j < i < t.files.len() && t.files[j] == t.files[i] ==> t.issues().contains(
            (
                "capabilities.filesystem"@,
                "must not contain duplicate path and access entries"@,
            ),
        ),
        t.network is Some && 0 <= i < t.network->0.len() && !task::is_network_host(
            t.network->0[i].host,
        ) ==> t.issues().contains(
            (
                "capabilities.network.destinations.host"@,
                "must contain lowercase host names or IP addresses without schemes or paths"@,
            ),
        ),
        t.network is Some && 0 <= i < t.network->0.len() && t.network->0[i].port == 0
            ==> t.issues().contains(
            ("capabilities.network.destinations.port"@, "must be between 1 and 65535"@),
        ),
        t.network is Some && 0 <= j < i < t.network->0.len() && t.network->0[j] == t.network->0[i]
            ==> t.issues().contains(
            ("capabilities.network.destinations"@, "must not contain duplicate entries"@),
        ),
        0 <= i < t.tools.len() && !text::is_identifier(t.tools[i], 64) ==> t.issues().contains(
            (
                "capabilities.tools"@,
                "must be 1 to "@ + text::decimal(64)
                    + " ASCII letters, digits, '.', '_', ':', or '-'"@,
            ),
        ),
        0 <= j < i < t.tools.len() && t.tools[j] == t.tools[i] ==> t.issues().contains(
            ("capabilities.tools"@, "must not contain duplicate entries"@),
        ),
        0 <= i < t.required_for.len() && !text::is_identifier(t.required_for[i], 64)
            ==> t.issues().contains(
            (
                "approval.required_for"@,
                "must be 1 to "@ + text::decimal(64)
                    + " ASCII letters, digits, '.', '_', ':', or '-'"@,
            ),
        ),
        0 <= j < i < t.required_for.len() && t.required_for[j] == t.required_for[i]
            ==> t.issues().contains(
            ("approval.required_for"@, "must not contain duplicate entries"@),
        ),
{
    if 0 <= i < t.files.len() {
        lemma_file_entry(t.files, t.files.len(), i);
        lemma_part(
            t,
            (
                "capabilities.filesystem.path"@,
                "must be a normalized absolute path below the filesystem root"@,
            ),
        );
        lemma_part(
            t,
            (
                "capabilities.filesystem"@,
                "must not contain duplicate path and access entries"@,
            ),
        );
        if 0 <= j < i && t.files[j] == t.files[i] {
            assert(task::repeats(t.files, i));
        }
    }
    if t.network is Some && 0 <= i < t.network->0.len() {
        let list = t.network->0;
        lemma_destination_entry(list, list.len(), i);
        lemma_part(
            t,
            (
                "capabilities.network.destinations.host"@,
                "must contain lowercase host names or IP addresses without schemes or paths"@,
            ),
        );
        lemma_part(
            t,
            ("capabilities.network.destinations.port"@, "must be between 1 and 65535"@),
        );
        lemma_part(
            t,
            ("capabilities.network.destinations"@, "must not contain duplicate entries"@),
        );
        if 0 <= j < i && list[j] == list[i] {
            assert(task::repeats(list, i));
        }
    }
    if 0 <= i < t.tools.len() {
        lemma_name_entry("capabilities.tools"@, t.tools, t.tools.len(), i);
        lemma_part(t, ("capabilities.tools"@, task::identifier_message(64)));
        lemma_part(t, ("capabilities.tools"@, "must not contain duplicate entries"@));
        if 0 <= j < i && t.tools[j] == t.tools[i] {
            assert(task::repeats(t.tools, i));
        }
    }
    if 0 <= i < t.required_for.len() {
        lemma_name_entry("approval.required_for"@, t.required_for, t.required_for.len(), i);
        lemma_part(t, ("approval.required_for"@, task::identifier_message(64)));
        lemma_part(t, ("approval.required_for"@, "must not contain duplicate entries"@));
        if 0 <= j < i && t.required_for[j] == t.required_for[i] {
            assert(task::repeats(t.required_for, i));
        }
    }
}

proof fn lemma_stated(bad: bool, field: Seq<char>, message: Seq<char>)
    ensures
        bad ==> task::issue_if(bad, field, message).contains((field, message)),
{
    if bad {
        assert(task::issue_if(bad, field, message)[0] == (field, message));
    }
}

proof fn lemma_file_entry(files: Seq<FileModel>, n: nat, i: int)
    requires
        0 <= i < n <= files.len(),
    ensures
        !task::is_normal_path(files[i].path) ==> task::file_issues(files, n).contains(
            (
                "capabilities.filesystem.path"@,
                "must be a normalized absolute path below the filesystem root"@,
            ),
        ),
        task::repeats(files, i) ==> task::file_issues(files, n).contains(
            (
                "capabilities.filesystem"@,
                "must not contain duplicate path and access entries"@,
            ),
        ),
    decreases n,
{
    let x = (
        "capabilities.filesystem.path"@,
        "must be a normalized absolute path below the filesystem root"@,
    );
    let y = (
        "capabilities.filesystem"@,
        "must not contain duplicate path and access entries"@,
    );
    let rest = task::file_issues(files, (n - 1) as nat);
    let a = task::issue_if(!task::is_normal_path(files[n - 1].path), x.0, x.1);
    let b = task::issue_if(task::repeats(files, n - 1), y.0, y.1);
    if i < n - 1 {
        lemma_file_entry(files, (n - 1) as nat, i);
    } else {
        lemma_stated(!task::is_normal_path(files[n - 1].path), x.0, x.1);
        lemma_stated(task::repeats(files, n - 1), y.0, y.1);
    }
    if !task::is_normal_path(files[i].path) {
        lemma_kept(rest, a, x);
        lemma_kept(rest + a, b, x);
    }
    if task::repeats(files, i) {
        if rest.contains(y) {
            lemma_kept(rest, a, y);
        }
        lemma_kept(rest + a, b, y);
    }
}

proof fn lemma_destination_entry(list: Seq<DestinationModel>, n: nat, i: int)
    requires
        0 <= i < n <= list.len(),
    ensures
        !task::is_network_host(list[i].host) ==> task::destination_issues(list, n).contains(
            (
                "capabilities.network.destinations.host"@,
                "must contain lowercase host names or IP addresses without schemes or paths"@,
            ),
        ),
        list[i].port == 0 ==> task::destination_issues(list, n).contains(
            ("capabilities.network.destinations.port"@, "must be between 1 and 65535"@),
        ),
        task::repeats(list, i) ==> task::destination_issues(list, n).contains(
            ("capabilities.network.destinations"@, "must not contain duplicate entries"@),
        ),
    decreases n,
{
    let x = (
        "capabilities.network.destinations.host"@,
        "must contain lowercase host names or IP addresses without schemes or paths"@,
    );
    let y = ("capabilities.network.destinations.port"@, "must be between 1 and 65535"@);
    let z = ("capabilities.network.destinations"@, "must not contain duplicate entries"@);
    let rest = task::destination_issues(list, (n - 1) as nat);
    let a = task::issue_if(!task::is_network_host(list[n - 1].host), x.0, x.1);
    let b = task::issue_if(list[n - 1].port == 0, y.0, y.1);
    let c = task::issue_if(task::repeats(list, n - 1), z.0, z.1);
    if i < n - 1 {
        lemma_destination_entry(list, (n - 1) as nat, i);
    } else {
        lemma_stated(!task::is_network_host(list[n - 1].host), x.0, x.1);
        lemma_stated(list[n - 1].port == 0, y.0, y.1);
        lemma_stated(task::repeats(list, n - 1), z.0, z.1);
    }
    if !task::is_network_host(list[i].host) {
        lemma_kept(rest, a, x);
        lemma_kept(rest + a, b, x);
        lemma_kept(rest + a + b, c, x);
    }
    if list[i].port == 0 {
        if rest.contains(y) {
            lemma_kept(rest, a, y);
        }
        lemma_kept(rest + a, b, y);
        lemma_kept(rest + a + b, c, y);
    }
    if task::repeats(list, i) {
        if rest.contains(z) {
            lemma_kept(rest, a, z);
            lemma_kept(rest + a, b, z);
        }
        lemma_kept(rest + a + b, c, z);
    }
}

proof fn lemma_name_entry(field: Seq<char>, list: Seq<Seq<char>>, n: nat, i: int)
    requires
        0 <= i < n <= list.len(),
    ensures
        !text::is_identifier(list[i], 64) ==> task::identifier_list_issues(field, list, n).contains(
            (field, task::identifier_message(64)),
        ),
        task::repeats(list, i) ==> task::identifier_list_issues(field, list, n).contains(
            (field, "must not contain duplicate entries"@),
        ),
    decreases n,
{
    let x = (field, task::identifier_message(64));
    let y = (field, "must not contain duplicate entries"@);
    let rest = task::identifier_list_issues(field, list, (n - 1) as nat);
    let a = task::issue_if(!text::is_identifier(list[n - 1], 64), x.0, x.1);
    let b = task::issue_if(task::repeats(list, n - 1), y.0, y.1);
    if i < n - 1 {
        lemma_name_entry(field, list, (n - 1) as nat, i);
    } else {
        lemma_stated(!text::is_identifier(list[n - 1], 64), x.0, x.1);
        lemma_stated(task::repeats(list, n - 1), y.0, y.1);
    }
    if !text::is_identifier(list[i], 64) {
        lemma_kept(rest, a, x);
        lemma_kept(rest + a, b, x);
    }
    if task::repeats(list, i) {
        if rest.contains(y) {
            lemma_kept(rest, a, y);
        }
        lemma_kept(rest + a, b, y);
    }
}

/// A bad goal is reported first, and a bad key next.
pub proof fn law_goal_and_key_are_reported_first(t: TaskModel)
    ensures
        text::is_blank_text(t.goal) || t.goal.len() > 8192 ==> t.issues()[0] == (
            "goal"@,
            "must contain between 1 and 8192 non-blank characters"@,
        ),
        !text::is_identifier(t.idempotency_key, 128) ==> t.issues()[tally(
            text::is_blank_text(t.goal) || t.goal.len() > 8192,
        ) as int] == (
            "idempotency_key"@,
            "must be 1 to "@ + text::decimal(128)
                + " ASCII letters, digits, '.', '_', ':', or '-'"@,
        ),
{
}

} // verus!
