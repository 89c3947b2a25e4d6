//! Laws on resource ceilings.

use vstd::prelude::*;

use crate::ids;
use crate::laws::ids as identifiers;
use crate::laws::path as paths;
use crate::laws::scan as scans;
use crate::laws::text as texts;
use crate::path;
use crate::process::cgroup;
use crate::process::cgroup::{CgroupModel, CgroupReport, CgroupRootReport};
use crate::process::facts;
use crate::process::facts::ReportModel;
use crate::scan;
use crate::text;

verus! {

/// The used CPU time that a report shows, in microseconds: the value of `usage_usec`.
pub open spec fn used_micros(report: CgroupReport) -> Option<nat> {
    if report.cpu_stat is Some {
        cgroup::file_value(
            report.cpu_stat->0@,
            seq![
                'u' as u8,
                's' as u8,
                'a' as u8,
                'g' as u8,
                'e' as u8,
                '_' as u8,
                'u' as u8,
                's' as u8,
                'e' as u8,
                'c' as u8,
            ],
        )
    } else {
        None
    }
}

/// How often memory was refused: the value of `max`.
pub open spec fn refusals(report: CgroupReport) -> Option<nat> {
    if report.memory_events is Some {
        cgroup::file_value(report.memory_events->0@, seq!['m' as u8, 'a' as u8, 'x' as u8])
    } else {
        None
    }
}

/// How many processes were killed for memory: the value of `oom_kill`.
pub open spec fn kills(report: CgroupReport) -> Option<nat> {
    if report.memory_events is Some {
        cgroup::file_value(
            report.memory_events->0@,
            seq![
                'o' as u8,
                'o' as u8,
                'm' as u8,
                '_' as u8,
                'k' as u8,
                'i' as u8,
                'l' as u8,
                'l' as u8,
            ],
        )
    } else {
        None
    }
}

proof fn lemma_keys(report: CgroupReport)
    ensures
        report.cpu_stat is Some ==> used_micros(report) == cgroup::file_value(
            report.cpu_stat->0@,
            cgroup::usage_key(),
        ),
        report.memory_events is Some ==> refusals(report) == cgroup::file_value(
            report.memory_events->0@,
            cgroup::max_key(),
        ) && kills(report) == cgroup::file_value(
            report.memory_events->0@,
            cgroup::oom_kill_key(),
        ),
{
    assert(seq![
        'u' as u8,
        's' as u8,
        'a' as u8,
        'g' as u8,
        'e' as u8,
        '_' as u8,
        'u' as u8,
        's' as u8,
        'e' as u8,
        'c' as u8,
    ] =~= cgroup::usage_key());
    assert(seq!['m' as u8, 'a' as u8, 'x' as u8] =~= cgroup::max_key());
    assert(seq![
        'o' as u8,
        'o' as u8,
        'm' as u8,
        '_' as u8,
        'k' as u8,
        'i' as u8,
        'l' as u8,
        'l' as u8,
    ] =~= cgroup::oom_kill_key());
}

/// A cgroup that has used its CPU time, or more, has reached its ceiling, and so has one that was
/// refused memory or had a process killed for it. One that has done none of these has not.
pub proof fn law_ceilings_are_reached(c: CgroupModel, report: CgroupReport)
    requires
        c.exhausted(report) is Some,
    ensures
        used_micros(report) is Some && refusals(report) is Some && kills(report) is Some,
        used_micros(report)->0 >= c.budget.micros() ==> c.exhausted(report) == Some(true),
        refusals(report)->0 >= 1 ==> c.exhausted(report) == Some(true),
        kills(report)->0 >= 1 ==> c.exhausted(report) == Some(true),
        used_micros(report)->0 < c.budget.micros() && refusals(report)->0 == 0 && kills(report)->0
            == 0 ==> c.exhausted(report) == Some(false),
{
    lemma_keys(report);
}

/// A ceiling that was reached stays reached: no counter that grows ends it.
pub proof fn law_reached_ceilings_stay_reached(
    c: CgroupModel,
    before: CgroupReport,
    after: CgroupReport,
)
    requires
        c.exhausted(before) == Some(true),
        c.exhausted(after) is Some,
        used_micros(after)->0 >= used_micros(before)->0,
        refusals(after)->0 >= refusals(before)->0,
        kills(after)->0 >= kills(before)->0,
    ensures
        c.exhausted(after) == Some(true),
{
    lemma_keys(before);
    lemma_keys(after);
}

/// Whether a ceiling was reached can be told wherever the limits stand and the counters can be
/// read.
pub proof fn law_readable_ceilings_are_told(c: CgroupModel, report: CgroupReport)
    ensures
        c.exhausted(report) is Some <==> c.limited(report) && used_micros(report) is Some
            && refusals(report) is Some && kills(report) is Some,
{
    lemma_keys(report);
}

/// Whether bytes are a word of a control file.
pub open spec fn is_word(bytes: Seq<u8>) -> bool {
    bytes.len() > 0 && forall|i: int| 0 <= i < bytes.len() ==> !scans::separates(#[trigger] bytes[i])
}

/// The value of a key is the number on the first line that holds the key and that number; lines
/// that hold other keys are passed over.
pub proof fn law_counters_are_read_by_their_key(
    key: Seq<u8>,
    other: Seq<u8>,
    n: nat,
    value: Seq<u8>,
    rest: Seq<u8>,
)
    requires
        is_word(key),
        is_word(other),
        is_word(value),
        other != key,
        n <= u64::MAX,
    ensures
        cgroup::file_value(
            key + seq![' ' as u8] + scan::number_digits(n) + seq!['\n' as u8] + rest,
            key,
        ) == Some(n),
        cgroup::file_value(
            other + seq![' ' as u8] + value + seq!['\n' as u8] + rest,
            key,
        ) == cgroup::file_value(rest, key),
{
    let digits = scan::number_digits(n);
    lemma_digits_are_a_word(n);
    lemma_two_words(key, digits);
    lemma_two_words(other, value);
    let line = key + seq![0x20u8] + digits;
    let passed = other + seq![0x20u8] + value;
    lemma_first_line(line, rest, key);
    lemma_first_line(passed, rest, key);
    scan::law_numbers_read_back(n);
}

/// A line that does not hold exactly a key and a value is passed over.
pub proof fn law_other_lines_are_passed_over(line: Seq<u8>, rest: Seq<u8>, key: Seq<u8>)
    requires
        !line.contains('\n' as u8),
        scan::words(line).len() != 2,
    ensures
        cgroup::file_value(line + seq!['\n' as u8] + rest, key) == cgroup::file_value(rest, key),
        cgroup::file_value(line, key) is None,
{
    lemma_first_line(line, rest, key);
    texts::law_one_piece(line, 0x0a);
    assert(seq![line].skip(1) =~= Seq::<Seq<u8>>::empty());
    reveal_with_fuel(cgroup::keyed_value, 2);
}

proof fn lemma_digits_are_a_word(n: nat)
    ensures
        is_word(scan::number_digits(n)),
    decreases n,
{
    if n >= 10 {
        lemma_digits_are_a_word(n / 10);
    }
    let digits = scan::number_digits(n);
    assert forall|i: int| 0 <= i < digits.len() implies !scans::separates(#[trigger] digits[i]) by {
        if n >= 10 && i < digits.len() - 1 {
            assert(digits[i] == scan::number_digits(n / 10)[i]);
        }
    }
}

proof fn lemma_two_words(a: Seq<u8>, b: Seq<u8>)
    requires
        is_word(a),
        is_word(b),
    ensures
        scan::words(a + seq![0x20u8] + b) == seq![a, b],
        !(a + seq![0x20u8] + b).contains(0x0au8),
{
    scans::law_one_word(a);
    scans::law_one_word(b);
    scans::law_words_join(a, 0x20, b);
    assert(seq![a] + seq![b] =~= seq![a, b]);
    let line = a + seq![0x20u8] + b;
    if line.contains(0x0au8) {
        let i = choose|i: int| 0 <= i < line.len() && line[i] == 0x0a;
        if i < a.len() {
            assert(scans::separates(a[i]));
        } else if i > a.len() {
            assert(line[i] == b[i - a.len() - 1]);
            assert(scans::separates(b[i - a.len() - 1]));
        }
    }
}

proof fn lemma_first_line(line: Seq<u8>, rest: Seq<u8>, key: Seq<u8>)
    requires
        !line.contains(0x0au8),
    ensures
        cgroup::file_value(line + seq![0x0au8] + rest, key) == (if cgroup::keyed_line(line, key) {
            scan::bounded_value(scan::words(line)[1], u64::MAX as nat)
        } else {
            cgroup::file_value(rest, key)
        }),
{
    texts::law_one_piece(line, 0x0a);
    texts::law_pieces_join(line, rest, 0x0a);
    let lines = text::split(line + seq![0x0au8] + rest, 0x0a);
    assert(lines[0] == line);
    assert(lines.skip(1) =~= text::split(rest, 0x0a));
}

/// Limits stand where the directory is the one that was bound and its files hold the memory of
/// the budget, no swap, and the end of the whole group on a kill, whatever white space is around
/// them.
pub proof fn law_limits_stand_as_they_were_set(c: CgroupModel, report: CgroupReport)
    ensures
        c.limited(report) <==> {
            &&& report.directory is Some && report.directory->0.directory
                && report.directory->0.device == c.identity.device && report.directory->0.inode
                == c.identity.inode
            &&& report.files_present
            &&& report.memory_max is Some && scan::trimmed(report.memory_max->0@)
                == text::decimal(c.budget.memory() as nat)
            &&& report.swap_max is Some && scan::trimmed(report.swap_max->0@) == "0"@
            &&& report.oom_group is Some && scan::trimmed(report.oom_group->0@) == "1"@
        },
{
}

/// What is written to limit a cgroup: the memory of the budget in decimal, no swap, and that the
/// whole group ends on a kill.
pub proof fn law_limits_are_written(memory: u64)
    ensures
        ({
            let writes = cgroup::limit_texts(memory);
            &&& writes.contains(("memory.max"@, text::decimal(memory as nat)))
            &&& writes.contains(("memory.swap.max"@, "0"@))
            &&& writes.contains(("memory.oom.group"@, "1"@))
            &&& writes.len() == 3
        }),
{
    let writes = cgroup::limit_texts(memory);
    assert(writes[0] == ("memory.max"@, text::decimal(memory as nat)));
    assert(writes[1] == ("memory.swap.max"@, "0"@));
    assert(writes[2] == ("memory.oom.group"@, "1"@));
}

/// The cgroup of a task stands in the subtree under `task-` and the identifier of the task, and
/// different tasks have different ones.
pub proof fn law_cgroups_are_named_after_tasks(root: Seq<u8>, task: u128, other: u128)
    ensures
        cgroup::task_directory(root, task) == root + seq!['/' as u8] + (text::utf8("task-"@)
            + text::utf8(ids::hyphenated(task))),
        path::within(cgroup::task_directory(root, task), root),
        task != other ==> cgroup::task_directory(root, task) != cgroup::task_directory(root, other),
{
    reveal_strlit("task-");
    vstd::utf8::is_ascii_chars_encode_utf8("task-"@);
    let prefix = seq![0x74u8, 0x61, 0x73, 0x6b, 0x2d];
    assert(text::utf8("task-"@) =~= prefix);
    let (a, b) = (text::utf8(ids::hyphenated(task)), text::utf8(ids::hyphenated(other)));
    paths::law_joined_paths_lie_within(root, prefix + a, root);
    if task != other && cgroup::task_directory(root, task) == cgroup::task_directory(root, other) {
        let n = root.len() as int + 6;
        assert(cgroup::task_directory(root, task).skip(n) =~= a);
        assert(cgroup::task_directory(root, other).skip(n) =~= b);
        text::lemma_utf8_injective(ids::hyphenated(task), ids::hyphenated(other));
        identifiers::law_identifiers_are_told_apart(task, other);
    }
}

/// A membership file names the cgroup of its process on the line that begins with `0::`, as a
/// path below `/sys/fs/cgroup`; lines of other hierarchies are passed over.
pub proof fn law_members_are_found_below_the_mount(name: Seq<u8>, line: Seq<u8>, rest: Seq<u8>)
    requires
        !name.contains('\n' as u8),
        name.len() > 0 ==> name[name.len() - 1] != '\r' as u8,
        !line.contains('\n' as u8),
        line.len() < 3 || line[0] != '0' as u8 || line[1] != ':' as u8 || line[2] != ':' as u8,
    ensures
        cgroup::member_directory(text::utf8("0::/"@) + name) == Some(
            text::utf8("/sys/fs/cgroup"@) + seq!['/' as u8] + name,
        ),
        cgroup::member_directory(text::utf8("0::/"@) + name + seq!['\n' as u8] + rest) == Some(
            text::utf8("/sys/fs/cgroup"@) + seq!['/' as u8] + name,
        ),
        cgroup::member_directory(line + seq!['\n' as u8] + rest) == cgroup::member_directory(rest),
{
    reveal_strlit("0::/");
    vstd::utf8::is_ascii_chars_encode_utf8("0::/"@);
    reveal_strlit("/sys/fs/cgroup");
    vstd::utf8::is_ascii_chars_encode_utf8("/sys/fs/cgroup"@);
    let mount = text::utf8("/sys/fs/cgroup"@);
    assert(mount =~= cgroup::cgroup_mount());
    let front = text::utf8("0::/"@);
    assert(front =~= seq![0x30u8, 0x3a, 0x3a, 0x2f]);
    let member = front + name;
    if member.contains(0x0au8) {
        let i = choose|i: int| 0 <= i < member.len() && member[i] == 0x0a;
        assert(i >= 4);
        assert(name[i - 4] == 0x0a);
        assert(name.contains(name[i - 4]));
    }
    texts::law_one_piece(member, 0x0a);
    texts::law_pieces_join(member, rest, 0x0a);
    texts::law_one_piece(line, 0x0a);
    texts::law_pieces_join(line, rest, 0x0a);
    texts::law_pieces_hold_no_separator(rest, 0x0a);
    assert(member.skip(3) =~= seq![0x2fu8] + name);
    assert((seq![0x2fu8] + name).skip(1) =~= name);
    assert(member.last() != 0x0d) by {
        if name.len() > 0 {
            assert(member.last() == name[name.len() - 1]);
        } else {
            assert(member.last() == front[3]);
        }
    }
    assert(cgroup::unified_line(member) == Some(seq![0x2fu8] + name));
    let two = text::split(member + seq![0x0au8] + rest, 0x0a);
    assert(two[0] == member && two.len() > 1);
    let passed = text::split(line + seq![0x0au8] + rest, 0x0a);
    assert(passed[0] == line && passed.len() > 1);
    assert(passed.skip(1) =~= text::split(rest, 0x0a));
    assert(cgroup::unified_line(cgroup::ended_line(line)) is None);
}

/// A subtree can be configured where it is a real directory below `/sys/fs/cgroup`, by an absolute
/// path of at most 4096 bytes; it is ready where both controllers are there and enabled, no process
/// is in its root, and the runtime is below it.
pub proof fn law_subtrees_are_ready_with_both_controllers(
    configured: Seq<u8>,
    found: ReportModel,
    root: Seq<u8>,
    report: CgroupRootReport,
)
    ensures
        cgroup::usable_cgroup_root(configured, found) is Some <==> 1 <= configured.len() <= 4_096
            && configured[0] == '/' as u8 && facts::is_directory(found.entry) && found.canonical
            is Some && path::within(found.canonical->0, text::utf8("/sys/fs/cgroup"@))
            && path::components(found.canonical->0) != path::components(
            text::utf8("/sys/fs/cgroup"@),
        ),
        cgroup::usable_cgroup_root(configured, found) is Some ==> cgroup::usable_cgroup_root(
            configured,
            found,
        ) == found.canonical,
        cgroup::root_ready(root, report) <==> {
            &&& report.files_present
            &&& report.controllers is Some && report.subtree_control is Some
            &&& scan::words(text::utf8(report.controllers->0@)).contains(text::utf8("cpu"@))
            &&& scan::words(text::utf8(report.controllers->0@)).contains(text::utf8("memory"@))
            &&& scan::words(text::utf8(report.subtree_control->0@)).contains(text::utf8("cpu"@))
            &&& scan::words(text::utf8(report.subtree_control->0@)).contains(text::utf8("memory"@))
            &&& report.processes is Some && text::is_blank_text(report.processes->0@)
            &&& report.current is Some && path::within(report.current->0@, root)
                && path::components(report.current->0@) != path::components(root)
        },
{
    reveal_strlit("/sys/fs/cgroup");
    vstd::utf8::is_ascii_chars_encode_utf8("/sys/fs/cgroup"@);
    assert(text::utf8("/sys/fs/cgroup"@) =~= cgroup::cgroup_mount());
    reveal_strlit("cpu");
    vstd::utf8::is_ascii_chars_encode_utf8("cpu"@);
    assert(text::utf8("cpu"@) =~= seq![0x63u8, 0x70, 0x75]);
    reveal_strlit("memory");
    vstd::utf8::is_ascii_chars_encode_utf8("memory"@);
    assert(text::utf8("memory"@) =~= seq![0x6du8, 0x65, 0x6d, 0x6f, 0x72, 0x79]);
}

} // verus!
