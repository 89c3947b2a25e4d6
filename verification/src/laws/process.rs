//! Laws on processes.

use vstd::prelude::*;

use crate::ids;
use crate::laws::path as paths;
use crate::path;
use crate::process::arguments;
use crate::process::arguments::Variable;
use crate::process::descriptor;
use crate::process::facts;
use crate::process::facts::{DirectoryIdentity, ExecutableIdentity, FileFacts, ReportModel};
use crate::process::handler;
use crate::process::handler::{BuilderModel, HandlerModel, LauncherModel, RunReport};
use crate::process::launch;
use crate::process::launch::LaunchModel;
use crate::process::sandbox;
use crate::process::scratch;
use crate::process::scratch::TaskScratchManager;
use crate::process::wait::{LimitCheck, ProcessWait, WaitAction, WaitEvent, WaitStep};
use crate::process::ProcessAdapterError;
use crate::scan;
use crate::task::FileModel;
use crate::text;
use crate::time::Duration;
use crate::tool;

verus! {

// ----------------------------------------------------------------- variables

/// Whether a byte may stand in the name of a variable, at its front or behind it.
pub open spec fn names_a_variable(byte: u8, front: bool) -> bool {
    ||| 'a' as u8 <= byte <= 'z' as u8
    ||| 'A' as u8 <= byte <= 'Z' as u8
    ||| byte == '_' as u8
    ||| !front && '0' as u8 <= byte <= '9' as u8
}

/// The name of a variable is of 1 to 128 letters, digits and underscores, and does not start with
/// a digit; every such text is one.
pub proof fn law_variable_names_are_plain(name: Seq<char>)
    ensures
        arguments::is_environment_name(name) <==> 1 <= text::utf8(name).len() <= 128 && (forall|
            i: int,
        |
            0 <= i < text::utf8(name).len() ==> names_a_variable(
                #[trigger] text::utf8(name)[i],
                i == 0,
            )),
{
    let bytes = text::utf8(name);
    if 1 <= bytes.len() <= 128 && (forall|i: int|
        0 <= i < bytes.len() ==> names_a_variable(#[trigger] bytes[i], i == 0)) {
        assert(names_a_variable(bytes[0], true));
        assert forall|i: int| 0 <= i < bytes.len() implies arguments::is_name_start(
            #[trigger] bytes[i],
        ) || 0x30 <= bytes[i] <= 0x39 by {
            assert(names_a_variable(bytes[i], i == 0));
        }
    }
    if arguments::is_environment_name(name) {
        assert forall|i: int| 0 <= i < bytes.len() implies names_a_variable(
            #[trigger] bytes[i],
            i == 0,
        ) by {
            assert(arguments::is_name_start(bytes[i]) || 0x30 <= bytes[i] <= 0x39);
        }
    }
}

/// Variables count their names and their values, together as apart.
pub proof fn law_variable_bytes_add_up(a: Seq<Variable>, b: Seq<Variable>, one: Variable)
    ensures
        arguments::environment_bytes(a + b) == arguments::environment_bytes(a)
            + arguments::environment_bytes(b),
        arguments::environment_bytes(seq![one]) == text::utf8(one.0).len() + text::utf8(
            one.1,
        ).len(),
    decreases b.len(),
{
    reveal_with_fuel(arguments::environment_bytes, 2);
    assert(seq![one].drop_last() =~= Seq::<Variable>::empty());
    if b.len() == 0 {
        assert(a + b =~= a);
    } else {
        assert((a + b).drop_last() =~= a + b.drop_last());
        law_variable_bytes_add_up(a, b.drop_last(), one);
    }
}

/// An environment is of at most 64 variables with good names, no name twice, each value of at
/// most 4096 bytes without NUL, and of at most 65536 bytes together; every such list is one.
pub proof fn law_environments_are_bounded(list: Seq<Variable>)
    ensures
        arguments::valid_environment(list) <==> {
            &&& list.len() <= 64
            &&& arguments::environment_bytes(list) <= 65_536
            &&& forall|i: int|
                0 <= i < list.len() ==> arguments::is_environment_name((#[trigger] list[i]).0)
                    && text::utf8(list[i].1).len() <= 4_096 && !text::utf8(list[i].1).contains(0u8)
            &&& forall|i: int, j: int|
                0 <= i < j < list.len() ==> (#[trigger] list[i]).0 != (#[trigger] list[j]).0
        },
{
}

// --------------------------------------------------------------------- facts

/// A directory is the owner's own where it is real and no one else has a permission on it; it is
/// sealed where it is real and no one may write to it.
pub proof fn law_permissions_are_read_by_bit(f: FileFacts)
    ensures
        facts::owner_only(Some(f)) <==> !f.symlink && f.directory && f.mode % 64 == 0,
        facts::read_only(Some(f)) <==> !f.symlink && f.directory && f.mode / 2 % 2 == 0 && f.mode
            / 16 % 2 == 0 && f.mode / 128 % 2 == 0,
        !facts::owner_only(None) && !facts::read_only(None) && !facts::is_directory(None),
        facts::is_directory(Some(f)) <==> f.directory && !f.symlink,
        facts::executable_identity(Some(f)) is Some <==> f.regular && (f.mode % 2 == 1 || f.mode
            / 8 % 2 == 1 || f.mode / 64 % 2 == 1),
        facts::executable_identity(Some(f)) is Some ==> facts::executable_identity(Some(f))
            == Some(ExecutableIdentity { device: f.device, inode: f.inode }),
        facts::directory_identity(Some(f)) == (if f.directory {
            Some(DirectoryIdentity { device: f.device, inode: f.inode })
        } else {
            None
        }),
        facts::executable_identity(None) is None && facts::directory_identity(None) is None,
{
    let mode = f.mode;
    assert(mode & 0o077 == mode % 64) by (bit_vector);
    assert(mode & 0o222 == 0 <==> mode / 2 % 2 == 0 && mode / 16 % 2 == 0 && mode / 128 % 2 == 0)
        by (bit_vector);
    assert(mode & 0o111 != 0 <==> mode % 2 == 1 || mode / 8 % 2 == 1 || mode / 64 % 2 == 1)
        by (bit_vector);
}

/// What may be configured: an executable and a directory by an absolute path; a private root that
/// is real, the owner's own and not the filesystem root; a sandbox root that is not the
/// filesystem root; a scratch directory apart from the root. What is used is where the path leads.
pub proof fn law_configured_paths_lead_somewhere(
    configured: Seq<u8>,
    report: ReportModel,
    root: Seq<u8>,
)
    ensures
        facts::usable_executable(configured, report) is Some <==> configured.len() > 0
            && configured[0] == '/' as u8 && facts::executable_identity(report.target) is Some
            && report.canonical is Some,
        facts::usable_executable(configured, report) is Some ==> facts::usable_executable(
            configured,
            report,
        ) == report.canonical,
        facts::usable_directory(configured, report) is Some <==> configured.len() > 0
            && configured[0] == '/' as u8 && report.target is Some && report.target->0.directory
            && report.canonical is Some,
        facts::usable_directory(configured, report) is Some ==> facts::usable_directory(
            configured,
            report,
        ) == report.canonical,
        facts::usable_private_root(configured, report) is Some <==> 1 <= configured.len() <= 4_096
            && configured[0] == '/' as u8 && facts::owner_only(report.entry) && report.canonical
            is Some && path::components(report.canonical->0).len() > 0,
        facts::usable_private_root(configured, report) is Some ==> facts::usable_private_root(
            configured,
            report,
        ) == report.canonical,
        facts::usable_sandbox_root(configured, report) is Some <==> facts::usable_directory(
            configured,
            report,
        ) is Some && path::components(report.canonical->0).len() > 0,
        facts::usable_sandbox_root(configured, report) is Some ==> facts::usable_sandbox_root(
            configured,
            report,
        ) == report.canonical,
        facts::usable_scratch(configured, report, root) is Some <==> facts::usable_sandbox_root(
            configured,
            report,
        ) is Some && !path::within(report.canonical->0, root) && !path::within(
            root,
            report.canonical->0,
        ),
        facts::usable_scratch(configured, report, root) is Some ==> facts::usable_scratch(
            configured,
            report,
            root,
        ) == report.canonical,
{
}

/// The scratch directory of a task stands in the scratch root under the identifier of the task,
/// and is the task's as long as it is the same directory, its owner's own.
pub proof fn law_scratch_directories_are_named_after_tasks(
    root: Seq<u8>,
    task: u128,
    found: Option<FileFacts>,
    identity: DirectoryIdentity,
)
    ensures
        scratch::scratch_directory(root, task) == root + seq!['/' as u8] + text::utf8(
            ids::hyphenated(task),
        ),
        path::within(scratch::scratch_directory(root, task), root),
        scratch::still_owned(found, identity) <==> found is Some && found->0.directory
            && !found->0.symlink && found->0.mode % 64 == 0 && found->0.device == identity.device
            && found->0.inode == identity.inode,
{
    paths::law_joined_paths_lie_within(root, text::utf8(ids::hyphenated(task)), root);
    if let Some(f) = found {
        law_permissions_are_read_by_bit(f);
    }
}

/// A scratch root is still the one that was opened where it is its owner's own and the same
/// directory.
pub proof fn law_scratch_roots_stay_the_same(manager: TaskScratchManager, root: ReportModel)
    ensures
        manager.holds(root) <==> facts::owner_only(root.entry) && root.target is Some
            && root.target->0.directory && root.target->0.device == manager.identity().device
            && root.target->0.inode == manager.identity().inode,
{
}

// ------------------------------------------------------------------- sandbox

/// What a sandbox is told: everything unshared, no further user namespaces, no capabilities, an
/// end with its parent and a session of its own; the root mounted read-only at `/`, the scratch
/// directory at `/workspace`, where the command starts, and the command at the end.
pub proof fn law_sandboxes_are_closed(root: Seq<u8>, scratch: Seq<u8>, executable: Seq<u8>)
    ensures
        ({
            let words = sandbox::sandbox_words(root, scratch, executable);
            let n = words.len() as int;
            &&& words.contains(text::utf8("--unshare-all"@))
            &&& words.contains(text::utf8("--unshare-user"@))
            &&& words.contains(text::utf8("--disable-userns"@))
            &&& words.contains(text::utf8("--die-with-parent"@))
            &&& words.contains(text::utf8("--new-session"@))
            &&& follow(words, seq![text::utf8("--cap-drop"@), text::utf8("ALL"@)])
            &&& follow(words, seq![text::utf8("--ro-bind"@), root, text::utf8("/"@)])
            &&& follow(words, seq![text::utf8("--bind"@), scratch, text::utf8("/workspace"@)])
            &&& follow(words, seq![text::utf8("--proc"@), text::utf8("/proc"@)])
            &&& follow(words, seq![text::utf8("--dev"@), text::utf8("/dev"@)])
            &&& follow(words, seq![text::utf8("--tmpfs"@), text::utf8("/tmp"@)])
            &&& follow(words, seq![text::utf8("--chdir"@), text::utf8("/workspace"@)])
            &&& n >= 2 && words[n - 2] == text::utf8("--"@) && words[n - 1] == executable
        }),
{
    let words = sandbox::sandbox_words(root, scratch, executable);
    assert(words[0] == text::utf8("--unshare-all"@));
    assert(words[1] == text::utf8("--unshare-user"@));
    assert(words[2] == text::utf8("--disable-userns"@));
    assert(words[3] == text::utf8("--die-with-parent"@));
    assert(words[4] == text::utf8("--new-session"@));
    lemma_follow(words, 5, seq![text::utf8("--cap-drop"@), text::utf8("ALL"@)]);
    lemma_follow(words, 7, seq![text::utf8("--ro-bind"@), root, text::utf8("/"@)]);
    lemma_follow(words, 10, seq![text::utf8("--proc"@), text::utf8("/proc"@)]);
    lemma_follow(words, 12, seq![text::utf8("--dev"@), text::utf8("/dev"@)]);
    lemma_follow(words, 14, seq![text::utf8("--tmpfs"@), text::utf8("/tmp"@)]);
    lemma_follow(words, 16, seq![text::utf8("--bind"@), scratch, text::utf8("/workspace"@)]);
    lemma_follow(words, 19, seq![text::utf8("--chdir"@), text::utf8("/workspace"@)]);
}

proof fn lemma_follow(list: Seq<Seq<u8>>, i: int, words: Seq<Seq<u8>>)
    requires
        0 <= i && i + words.len() <= list.len(),
        forall|k: int| 0 <= k < words.len() ==> #[trigger] words[k] == list[i + k],
    ensures
        follow(list, words),
{
    assert(list.subrange(i, i + words.len()) =~= words);
}

/// Whether words stand one after another in a list.
pub open spec fn follow(list: Seq<Seq<u8>>, words: Seq<Seq<u8>>) -> bool {
    exists|i: int|
        0 <= i && i + words.len() <= list.len() && #[trigger] list.subrange(i, i + words.len())
            == words
}

/// The scratch directory is the only path of the host that is mounted to be written to.
pub proof fn law_one_path_is_mounted_to_be_written(
    root: Seq<u8>,
    scratch: Seq<u8>,
    executable: Seq<u8>,
    i: int,
)
    requires
        path::absolute(root),
        path::absolute(scratch),
        path::absolute(executable),
        0 <= i < sandbox::sandbox_words(root, scratch, executable).len(),
        sandbox::sandbox_words(root, scratch, executable)[i] == text::utf8("--bind"@),
    ensures
        i + 2 < sandbox::sandbox_words(root, scratch, executable).len(),
        sandbox::sandbox_words(root, scratch, executable)[i + 1] == scratch,
        sandbox::sandbox_words(root, scratch, executable)[i + 2] == text::utf8("/workspace"@),
{
    let words = sandbox::sandbox_words(root, scratch, executable);
    let word = text::utf8("--bind"@);
    lemma_word_lengths();
    assert(word.len() == 6 && word[0] == 0x2d && word[2] == 0x62);
    assert(text::utf8("--proc"@)[2] == 0x70);
    if i != 16 {
        assert(words[i].len() != 6 || words[i][0] != 0x2d || words[i][2] != 0x62);
    }
}

proof fn lemma_word_lengths()
    ensures
        text::utf8("--unshare-all"@).len() == 13,
        text::utf8("--unshare-user"@).len() == 14,
        text::utf8("--disable-userns"@).len() == 16,
        text::utf8("--die-with-parent"@).len() == 17,
        text::utf8("--new-session"@).len() == 13,
        text::utf8("--cap-drop"@).len() == 10,
        text::utf8("ALL"@).len() == 3,
        text::utf8("--ro-bind"@).len() == 9,
        text::utf8("/"@).len() == 1,
        text::utf8("--proc"@).len() == 6 && text::utf8("--proc"@)[2] == 0x70,
        text::utf8("/proc"@).len() == 5,
        text::utf8("--dev"@).len() == 5,
        text::utf8("/dev"@).len() == 4,
        text::utf8("--tmpfs"@).len() == 7,
        text::utf8("/tmp"@).len() == 4,
        text::utf8("--bind"@).len() == 6 && text::utf8("--bind"@)[0] == 0x2d && text::utf8(
            "--bind"@,
        )[2] == 0x62,
        text::utf8("/workspace"@).len() == 10,
        text::utf8("--chdir"@).len() == 7,
        text::utf8("--"@).len() == 2,
{
    reveal_strlit("--unshare-all");
    reveal_strlit("--unshare-user");
    reveal_strlit("--disable-userns");
    reveal_strlit("--die-with-parent");
    reveal_strlit("--new-session");
    reveal_strlit("--cap-drop");
    reveal_strlit("ALL");
    reveal_strlit("--ro-bind");
    reveal_strlit("/");
    reveal_strlit("--proc");
    reveal_strlit("/proc");
    reveal_strlit("--dev");
    reveal_strlit("/dev");
    reveal_strlit("--tmpfs");
    reveal_strlit("/tmp");
    reveal_strlit("--bind");
    reveal_strlit("/workspace");
    reveal_strlit("--chdir");
    reveal_strlit("--");
    vstd::utf8::is_ascii_chars_encode_utf8("--unshare-all"@);
    vstd::utf8::is_ascii_chars_encode_utf8("--unshare-user"@);
    vstd::utf8::is_ascii_chars_encode_utf8("--disable-userns"@);
    vstd::utf8::is_ascii_chars_encode_utf8("--die-with-parent"@);
    vstd::utf8::is_ascii_chars_encode_utf8("--new-session"@);
    vstd::utf8::is_ascii_chars_encode_utf8("--cap-drop"@);
    vstd::utf8::is_ascii_chars_encode_utf8("ALL"@);
    vstd::utf8::is_ascii_chars_encode_utf8("--ro-bind"@);
    vstd::utf8::is_ascii_chars_encode_utf8("/"@);
    vstd::utf8::is_ascii_chars_encode_utf8("--proc"@);
    vstd::utf8::is_ascii_chars_encode_utf8("/proc"@);
    vstd::utf8::is_ascii_chars_encode_utf8("--dev"@);
    vstd::utf8::is_ascii_chars_encode_utf8("/dev"@);
    vstd::utf8::is_ascii_chars_encode_utf8("--tmpfs"@);
    vstd::utf8::is_ascii_chars_encode_utf8("/tmp"@);
    vstd::utf8::is_ascii_chars_encode_utf8("--bind"@);
    vstd::utf8::is_ascii_chars_encode_utf8("/workspace"@);
    vstd::utf8::is_ascii_chars_encode_utf8("--chdir"@);
    vstd::utf8::is_ascii_chars_encode_utf8("--"@);
}

/// A file below the root is run under its path from the root: what the path of the file has
/// beyond that of the root.
pub proof fn law_files_are_run_under_their_path_from_the_root(
    base: Seq<u8>,
    a: Seq<u8>,
    b: Seq<u8>,
)
    requires
        a.len() > 0 && !a.contains('/' as u8) && a[0] != '.' as u8,
        b.len() > 0 && !b.contains('/' as u8) && b[0] != '.' as u8,
    ensures
        sandbox::inside(base, base + seq!['/' as u8] + a) == seq!['/' as u8] + a,
        sandbox::inside(base, base + seq!['/' as u8] + (a + seq!['/' as u8] + b)) == seq!['/' as u8]
            + a + seq!['/' as u8] + b,
{
    paths::law_names_are_components(a);
    paths::law_names_are_components(b);
    paths::law_components_join(a, b);
    let ab = a + seq![0x2fu8] + b;
    paths::law_components_join(base, a);
    paths::law_components_join(base, ab);
    let n = path::components(base).len() as int;
    assert((path::components(base) + seq![a]).skip(n) =~= seq![a]);
    assert(seq![a] + seq![b] =~= seq![a, b]);
    assert((path::components(base) + seq![a, b]).skip(n) =~= seq![a, b]);
    assert(seq![a, b].drop_last() =~= seq![a]);
    reveal_with_fuel(sandbox::rooted, 3);
}

/// What is run in a sandbox stands below its root, by its real path, and can be executed.
pub proof fn law_sandboxed_files_stand_below_the_root(
    root: Seq<u8>,
    executable: Seq<u8>,
    report: ReportModel,
)
    ensures
        sandbox::sandboxed(root, executable, report) <==> path::sandbox_path(executable)
            && report.canonical is Some && path::within(report.canonical->0, root) && report.target
            is Some && facts::executable_identity(report.target) is Some,
{
}

// -------------------------------------------------------------------- mounts

/// File capabilities can be mounted exactly where there are at most 128 of them, all to be read,
/// none at the filesystem root or with a way upwards, and none twice.
pub proof fn law_mountable_capabilities(list: Seq<FileModel>, r: Result<(), ProcessAdapterError>)
    requires
        descriptor::mounts_verdict(list, r),
    ensures
        r is Ok <==> list.len() <= 128 && (forall|i: int|
            0 <= i < list.len() ==> (#[trigger] list[i]).access is Read && path::sandbox_path(
                text::utf8(list[i].path),
            ) && list[i].path != "/"@) && (forall|i: int, j: int|
            0 <= i < j < list.len() ==> #[trigger] list[i] != #[trigger] list[j]),
        r is Err ==> r->Err_0 == ProcessAdapterError::InvalidSandbox || r->Err_0
            == ProcessAdapterError::UnsupportedFilesystemCapability,
        r is Err && r->Err_0 == ProcessAdapterError::UnsupportedFilesystemCapability ==> exists|
            i: int,
        |
            0 <= i < list.len() && (#[trigger] list[i]).access is Write,
        list.len() > 128 ==> r is Err && r->Err_0 == ProcessAdapterError::InvalidSandbox,
{
    if r is Ok && list.len() <= 128 {
        assert forall|i: int| 0 <= i < list.len() implies (#[trigger] list[i]).access is Read
            && path::sandbox_path(text::utf8(list[i].path)) && list[i].path != "/"@ by {
            assert(descriptor::mount_failure(list, i) is None);
        }
        assert forall|i: int, j: int| 0 <= i < j < list.len() implies #[trigger] list[i]
            != #[trigger] list[j] by {
            assert(descriptor::mount_failure(list, i) is None);
            assert(!descriptor::duplicated(list, i));
            assert(list[j] == list[j]);
        }
    }
    if r is Err && list.len() <= 128 {
        let error = r->Err_0;
        let i = choose|i: int|
            0 <= i < list.len() && #[trigger] descriptor::mount_failure(list, i) == Some(error)
                && descriptor::first_failure(list, i);
        assert(descriptor::mount_failure(list, i) == Some(error));
        if (forall|k: int|
            0 <= k < list.len() ==> (#[trigger] list[k]).access is Read && path::sandbox_path(
                text::utf8(list[k].path),
            ) && list[k].path != "/"@) && (forall|a: int, b: int|
            0 <= a < b < list.len() ==> #[trigger] list[a] != #[trigger] list[b]) {
            assert(list[i].access is Read);
            assert(descriptor::duplicated(list, i));
            let j = choose|j: int|
                0 <= j < list.len() && j != i && #[trigger] list[j] == list[i];
            if i < j {
                assert(list[i] != list[j]);
            } else {
                assert(list[j] != list[i]);
            }
        }
        if error == ProcessAdapterError::UnsupportedFilesystemCapability {
            assert(list[i].access is Write);
        }
    }
}

/// The failure that is told is that of the first capability, by path, that cannot be mounted.
pub proof fn law_the_first_bad_capability_is_told(
    list: Seq<FileModel>,
    r: Result<(), ProcessAdapterError>,
)
    requires
        descriptor::mounts_verdict(list, r),
        list.len() <= 128,
        r is Err,
    ensures
        exists|i: int|
            0 <= i < list.len() && #[trigger] descriptor::mount_failure(list, i) == Some(r->Err_0)
                && forall|j: int|
                0 <= j < list.len() && (#[trigger] descriptor::mount_failure(list, j)) is Some
                    ==> !text::bytes_before(text::utf8(list[j].path), text::utf8(list[i].path))
                    && !(list[j].path == list[i].path && list[j].access is Read && list[i].access
                    is Write),
{
    let error = r->Err_0;
    let i = choose|i: int|
        0 <= i < list.len() && #[trigger] descriptor::mount_failure(list, i) == Some(error)
            && descriptor::first_failure(list, i);
    assert(descriptor::mount_failure(list, i) == Some(error));
}

/// Capabilities are mounted from the shallow to the deep, and those of one depth by their path.
pub proof fn law_mounts_go_from_shallow_to_deep(a: FileModel, b: FileModel)
    ensures
        path::components(text::utf8(a.path)).len() < path::components(text::utf8(b.path)).len()
            ==> descriptor::mounted_before(a, b) && !descriptor::mounted_before(b, a),
        path::components(text::utf8(a.path)).len() == path::components(text::utf8(b.path)).len()
            ==> (descriptor::mounted_before(a, b) <==> text::bytes_before(
            text::utf8(a.path),
            text::utf8(b.path),
        )),
{
}

// -------------------------------------------------------------------- launch

/// A launch is accepted with at most 512 arguments and, where it asks for descriptors, at most
/// 128 mounts with plain destinations, each counting three arguments and the filter two.
pub proof fn law_launches_are_bounded(request: LaunchModel)
    ensures
        request.mounts is Some ==> (request.acceptable() <==> request.mounts->0.len() <= 128
            && request.arguments.len() + 3 * request.mounts->0.len() + 2 <= 512 && (forall|i: int|
            0 <= i < request.mounts->0.len() ==> launch::is_destination(
                #[trigger] request.mounts->0[i],
            ))),
        request.mounts is None ==> (request.acceptable() <==> request.arguments.len() <= 512
            && request.cgroup_procs != text::utf8("--descriptor-broker"@)),
{
    if request.mounts is Some {
        let mounts = request.mounts->0;
        assert(request.mounts == Some(mounts));
    }
}

/// A destination is absolute, of at most 4096 bytes, and leads nowhere upwards.
pub proof fn law_destinations_are_plain(destination: Seq<u8>)
    ensures
        launch::is_destination(destination) <==> 1 <= destination.len() <= 4_096 && destination[0]
            == '/' as u8 && path::traversal_free(destination),
{
}

/// What a launcher is asked on its command line: the process list of the cgroup, the device and
/// the inode of its directory in decimal, the executable and its arguments.
pub proof fn law_launch_lines_hold_the_request(request: LaunchModel, i: int)
    requires
        request.mounts is None,
    ensures
        ({
            let line = request.command_line();
            &&& line.len() == 4 + request.arguments.len()
            &&& line[0] == request.cgroup_procs
            &&& scan::decimal_value(line[1]) == Some(request.device as nat)
            &&& scan::decimal_value(line[2]) == Some(request.inode as nat)
            &&& line[3] == request.executable
            &&& 0 <= i < request.arguments.len() ==> line[4 + i] == request.arguments[i]
        }),
{
    scan::law_numbers_read_back(request.device as nat);
    scan::law_numbers_read_back(request.inode as nat);
}

/// With mounts the command line says so first, and names each destination behind the executable
/// and their number, before the arguments.
pub proof fn law_launch_lines_name_the_mounts(request: LaunchModel, k: int, i: int)
    requires
        request.mounts is Some,
    ensures
        ({
            let line = request.command_line();
            let mounts = request.mounts->0;
            let n = mounts.len();
            &&& line.len() == 6 + 2 * n + request.arguments.len()
            &&& line[0] == text::utf8("--descriptor-broker"@)
            &&& line[1] == request.cgroup_procs
            &&& scan::decimal_value(line[2]) == Some(request.device as nat)
            &&& scan::decimal_value(line[3]) == Some(request.inode as nat)
            &&& line[4] == request.executable
            &&& scan::decimal_value(line[5]) == Some(n)
            &&& 0 <= k < n ==> line[6 + 2 * k] == text::utf8("read"@) && line[7 + 2 * k]
                == mounts[k]
            &&& 0 <= i < request.arguments.len() ==> line[6 + 2 * n + i] == request.arguments[i]
        }),
{
    let mounts = request.mounts->0;
    assert(request.mounts == Some(mounts));
    scan::law_numbers_read_back(request.device as nat);
    scan::law_numbers_read_back(request.inode as nat);
    scan::law_numbers_read_back(mounts.len());
    lemma_mount_words(mounts, k);
    let named = launch::mount_words(mounts);
    if 0 <= k < mounts.len() {
        assert(request.command_line()[6 + 2 * k] == named[2 * k]);
        assert(request.command_line()[7 + 2 * k] == named[2 * k + 1]);
    }
}

proof fn lemma_mount_words(mounts: Seq<Seq<u8>>, k: int)
    ensures
        launch::mount_words(mounts).len() == 2 * mounts.len(),
        0 <= k < mounts.len() ==> launch::mount_words(mounts)[2 * k] == text::utf8("read"@)
            && launch::mount_words(mounts)[2 * k + 1] == mounts[k],
    decreases mounts.len(),
{
    if mounts.len() > 0 {
        let rest = mounts.skip(1);
        lemma_mount_words(rest, k - 1);
        let all = launch::mount_words(mounts);
        let others = launch::mount_words(rest);
        if 1 <= k < mounts.len() {
            assert(rest[k - 1] == mounts[k]);
            assert(all[2 * k] == others[2 * (k - 1)]);
            assert(all[2 * k + 1] == others[2 * (k - 1) + 1]);
        }
    }
}

/// A command line of too few words, or with words for numbers that are none, or with too many
/// arguments, asks for nothing.
pub proof fn law_bad_launch_lines_ask_for_nothing(words: Seq<Seq<u8>>)
    requires
        words.len() == 0 || words[0] != text::utf8("--descriptor-broker"@),
    ensures
        launch::read_request(words) is Some <==> 4 <= words.len() <= 516 && scan::bounded_value(
            words[1],
            u64::MAX as nat,
        ) is Some && scan::bounded_value(words[2], u64::MAX as nat) is Some,
        launch::read_request(words) is Some ==> {
            let request = launch::read_request(words)->0;
            &&& request.mounts is None
            &&& request.cgroup_procs == words[0] && request.executable == words[3]
            &&& Some(request.device as nat) == scan::bounded_value(words[1], u64::MAX as nat)
            &&& Some(request.inode as nat) == scan::bounded_value(words[2], u64::MAX as nat)
            &&& request.arguments == words.skip(4)
        },
{
}

/// Whatever is read from a command line is a launch that is accepted.
pub proof fn law_read_launches_are_acceptable(words: Seq<Seq<u8>>)
    requires
        launch::read_request(words) is Some,
    ensures
        launch::read_request(words)->0.acceptable(),
        launch::read_request(words)->0.mounts is Some <==> words[0] == text::utf8(
            "--descriptor-broker"@,
        ),
{
    if words[0] == launch::broker_word() {
        let rest = words.skip(1);
        let count = launch::word_number(rest[4])->0;
        lemma_read_mounts(rest.skip(5), count);
    }
}

proof fn lemma_read_mounts(words: Seq<Seq<u8>>, count: nat)
    requires
        launch::read_mounts(words, count) is Some,
    ensures
        launch::read_mounts(words, count)->0.len() == count,
        words.len() >= 2 * count,
        forall|i: int|
            0 <= i < count ==> launch::is_destination(
                #[trigger] launch::read_mounts(words, count)->0[i],
            ),
    decreases count,
{
    if count > 0 {
        let rest = words.skip(2);
        lemma_read_mounts(rest, (count - 1) as nat);
        let all = launch::read_mounts(words, count)->0;
        let others = launch::read_mounts(rest, (count - 1) as nat)->0;
        assert forall|i: int| 0 <= i < count implies launch::is_destination(#[trigger] all[i]) by {
            if i > 0 {
                assert(all[i] == others[i - 1]);
            }
        }
    }
}

/// The sandbox gets the filter and then a read-only mount for each destination, in their order,
/// each with its own descriptor; none of these is a standard stream.
pub proof fn law_descriptors_are_handed_in_order(
    mounts: Seq<Seq<u8>>,
    descriptors: Seq<u64>,
    k: int,
)
    requires
        launch::usable_descriptors(mounts, descriptors),
    ensures
        descriptors.len() == mounts.len() + 1,
        0 <= k < descriptors.len() ==> descriptors[k] >= 3,
        ({
            let words = launch::descriptor_words(mounts, descriptors);
            &&& words.len() == 2 + 3 * mounts.len()
            &&& words[0] == text::utf8("--seccomp"@)
            &&& scan::decimal_value(words[1]) == Some(descriptors[0] as nat)
            &&& 0 <= k < mounts.len() ==> words[2 + 3 * k] == text::utf8("--ro-bind-fd"@)
                && scan::decimal_value(words[3 + 3 * k]) == Some(descriptors[k + 1] as nat)
                && words[4 + 3 * k] == mounts[k]
        }),
{
    lemma_descriptor_words(mounts, descriptors, k);
}

proof fn lemma_descriptor_words(mounts: Seq<Seq<u8>>, descriptors: Seq<u64>, k: int)
    requires
        descriptors.len() >= mounts.len() + 1,
    ensures
        ({
            let words = launch::descriptor_words(mounts, descriptors);
            &&& words.len() == 2 + 3 * mounts.len()
            &&& words[0] == text::utf8("--seccomp"@)
            &&& scan::decimal_value(words[1]) == Some(descriptors[0] as nat)
            &&& 0 <= k < mounts.len() ==> words[2 + 3 * k] == text::utf8("--ro-bind-fd"@)
                && scan::decimal_value(words[3 + 3 * k]) == Some(descriptors[k + 1] as nat)
                && words[4 + 3 * k] == mounts[k]
        }),
    decreases mounts.len(),
{
    scan::law_numbers_read_back(descriptors[0] as nat);
    if mounts.len() > 0 {
        let n = mounts.len() - 1;
        lemma_descriptor_words(mounts.drop_last(), descriptors, k);
        scan::law_numbers_read_back(descriptors[n + 1] as nat);
        if 0 <= k < n {
            assert(mounts.drop_last()[k] == mounts[k]);
        }
    }
}

/// The words go before the first `--`, and nothing else changes.
pub proof fn law_descriptors_go_before_the_command(
    options: Seq<Seq<u8>>,
    command: Seq<Seq<u8>>,
    mounts: Seq<Seq<u8>>,
    descriptors: Seq<u64>,
)
    requires
        !options.contains(text::utf8("--"@)),
        launch::usable_descriptors(mounts, descriptors),
    ensures
        launch::brokered(options + seq![text::utf8("--"@)] + command, mounts, descriptors) == Some(
            options + launch::descriptor_words(mounts, descriptors) + (seq![text::utf8("--"@)]
                + command),
        ),
        launch::brokered(options, mounts, descriptors) is None,
{
    let end = text::utf8("--"@);
    let whole = options + seq![end] + command;
    lemma_delimiter(options, seq![end] + command);
    lemma_no_delimiter(options);
    assert(whole =~= options + (seq![end] + command));
    let at = options.len() as int;
    assert(whole.take(at) =~= options);
    assert(whole.skip(at) =~= seq![end] + command);
}

proof fn lemma_delimiter(options: Seq<Seq<u8>>, rest: Seq<Seq<u8>>)
    requires
        !options.contains(text::utf8("--"@)),
        rest.len() > 0 && rest[0] == text::utf8("--"@),
    ensures
        launch::delimiter(options + rest) == Some(options.len() as int),
    decreases options.len(),
{
    let whole = options + rest;
    if options.len() > 0 {
        assert(whole[0] == options[0]);
        assert(options.contains(options[0]));
        assert(whole.skip(1) =~= options.skip(1) + rest);
        assert forall|w: Seq<u8>| options.skip(1).contains(w) implies options.contains(w) by {
            let i = choose|i: int| 0 <= i < options.skip(1).len() && options.skip(1)[i] == w;
            assert(options[i + 1] == w);
        }
        lemma_delimiter(options.skip(1), rest);
    } else {
        assert(whole =~= rest);
    }
}

proof fn lemma_no_delimiter(options: Seq<Seq<u8>>)
    requires
        !options.contains(text::utf8("--"@)),
    ensures
        launch::delimiter(options) is None,
    decreases options.len(),
{
    if options.len() > 0 {
        assert(options.contains(options[0]));
        assert forall|w: Seq<u8>| options.skip(1).contains(w) implies options.contains(w) by {
            let i = choose|i: int| 0 <= i < options.skip(1).len() && options.skip(1)[i] == w;
            assert(options[i + 1] == w);
        }
        lemma_no_delimiter(options.skip(1));
    }
}

// ------------------------------------------------------------------- handler

/// A run has some time and at most an hour.
pub proof fn law_runs_have_at_most_an_hour(timeout: Duration)
    ensures
        handler::valid_timeout(timeout) <==> 1 <= timeout.nanos <= 3_600 * 1_000_000_000,
{
}

/// Only a run that reached a limit of its resources used up the budget of its task.
pub proof fn law_reached_limits_use_up_the_budget(error: ProcessAdapterError)
    ensures
        handler::spends_budget(error) <==> error == ProcessAdapterError::ResourceLimitExceeded,
{
}

/// A run goes ahead exactly where all of its arguments are good, the policy allowed those that
/// were given, the executable is the one that was configured, the working directory is still the
/// task's, and what starts it has nothing against it; otherwise the first of these is told.
pub proof fn law_runs_are_checked_in_order(
    model: HandlerModel,
    dynamic: Seq<Seq<char>>,
    allowed: bool,
    report: RunReport,
)
    ensures
        ({
            let good = tool::valid_arguments(model.fixed + dynamic);
            let same = facts::executable_identity(report.executable) == Some(
                model.executable_identity,
            );
            let owned = model.directory_identity is None || scratch::still_owned(
                report.directory,
                model.directory_identity->0,
            );
            let refusal = model.refusal(dynamic, allowed, report);
            &&& !good ==> refusal == Some(ProcessAdapterError::InvalidArguments)
            &&& good && !allowed ==> refusal == Some(ProcessAdapterError::ArgumentsDenied)
            &&& good && allowed && !same ==> refusal == Some(ProcessAdapterError::ExecutableChanged)
            &&& good && allowed && same && !owned ==> refusal == Some(
                ProcessAdapterError::InvalidSandbox,
            )
            &&& good && allowed && same && owned && model.launcher is Direct ==> refusal is None
            &&& refusal is None ==> good && allowed && same && owned
        }),
{
}

/// What starts a sandbox is refused where it changed, where the verified root is not what it was,
/// and where the limits of the cgroup are not those that were set.
pub proof fn law_sandbox_starts_are_checked(launcher: LauncherModel, report: RunReport)
    requires
        launcher is Bubblewrap,
    ensures
        ({
            let same = facts::executable_identity(report.bubblewrap) == Some(
                launcher->Bubblewrap_identity,
            );
            let verified = launcher->Bubblewrap_verified;
            let intact = verified is None || verified->0.intact(
                report.root,
                crate::process::rootfs::entry_models(report.entries@),
            );
            let control = launcher->Bubblewrap_control;
            let limited = control is None || control->0.cgroup.limited(report.cgroup);
            let launches = control is None || facts::executable_identity(report.launcher) == Some(
                control->0.launcher_identity,
            );
            let refusal = launcher.refusal(report);
            &&& refusal is None <==> same && intact && limited && launches
            &&& !same ==> refusal == Some(ProcessAdapterError::ExecutableChanged)
            &&& same && !intact ==> refusal == Some(ProcessAdapterError::InvalidSandbox)
            &&& same && intact && !limited ==> refusal == Some(
                ProcessAdapterError::InvalidResourceControl,
            )
            &&& same && intact && limited && !launches ==> refusal == Some(
                ProcessAdapterError::ExecutableChanged,
            )
        }),
{
}

/// What a run passes to its executable: the configured arguments and then the given ones, each as
/// it is, in their order, at the end of the line; the environment is the configured one.
pub proof fn law_arguments_are_passed_in_order(
    model: HandlerModel,
    dynamic: Seq<Seq<char>>,
    i: int,
)
    ensures
        ({
            let plan = model.planned(dynamic);
            let all = model.fixed + dynamic;
            let start = plan.arguments.len() - all.len();
            &&& start >= 0
            &&& 0 <= i < model.fixed.len() ==> plan.arguments[start + i] == text::utf8(
                model.fixed[i],
            )
            &&& 0 <= i < dynamic.len() ==> plan.arguments[start + model.fixed.len() + i]
                == text::utf8(dynamic[i])
            &&& plan.environment == model.environment
            &&& model.launcher is Direct ==> start == 0 && plan.program == model.executable
                && plan.directory == model.directory
            &&& model.launcher is Bubblewrap ==> plan.directory == text::utf8("/"@)
            &&& model.launcher is Bubblewrap && model.launcher->Bubblewrap_control is None
                ==> plan.program == model.launcher->bubblewrap
            &&& model.launcher is Bubblewrap && model.launcher->Bubblewrap_control is Some
                ==> plan.program == model.launcher->Bubblewrap_control->0.launcher
                && plan.arguments[3] == model.launcher->bubblewrap
        }),
{
    let all = model.fixed + dynamic;
    let own = handler::words(all);
    let plan = model.planned(dynamic);
    let start = plan.arguments.len() - all.len();
    assert(plan.arguments.skip(start) =~= own);
    if 0 <= i < model.fixed.len() {
        assert(plan.arguments.skip(start)[i] == own[i]);
        assert(all[i] == model.fixed[i]);
    }
    if 0 <= i < dynamic.len() {
        assert(plan.arguments.skip(start)[model.fixed.len() + i] == own[model.fixed.len() + i]);
        assert(all[model.fixed.len() + i] == dynamic[i]);
    }
}

/// A sandboxed run gives Bubblewrap the words of the sandbox before its own arguments; with a
/// cgroup the launcher gets the process list of the cgroup and its identity before them.
pub proof fn law_sandboxed_runs_start_in_their_sandbox(
    model: HandlerModel,
    dynamic: Seq<Seq<char>>,
    i: int,
)
    requires
        model.launcher is Bubblewrap,
    ensures
        ({
            let plan = model.planned(dynamic);
            let words = sandbox::sandbox_words(
                model.launcher->Bubblewrap_root,
                model.directory,
                model.launcher->sandbox_executable,
            );
            let control = model.launcher->Bubblewrap_control;
            &&& control is None && 0 <= i < words.len() ==> plan.arguments[i] == words[i]
            &&& control is Some ==> {
                let group = control->0.cgroup;
                &&& plan.arguments[0] == group.directory + seq!['/' as u8] + text::utf8(
                    "cgroup.procs"@,
                )
                &&& scan::decimal_value(plan.arguments[1]) == Some(group.identity.device as nat)
                &&& scan::decimal_value(plan.arguments[2]) == Some(group.identity.inode as nat)
                &&& 0 <= i < words.len() ==> plan.arguments[4 + i] == words[i]
            }
        }),
{
    let control = model.launcher->Bubblewrap_control;
    if control is Some {
        scan::law_numbers_read_back(control->0.cgroup.identity.device as nat);
        scan::law_numbers_read_back(control->0.cgroup.identity.inode as nat);
    }
}

/// A handler is built exactly from a good timeout, good arguments, an executable, a directory and
/// a good environment; bad arguments are told as such, anything else as a bad configuration.
pub proof fn law_handlers_are_built_from_good_parts(
    parts: BuilderModel,
    executable: ReportModel,
    directory: ReportModel,
)
    ensures
        ({
            let refusal = parts.refusal(executable, directory);
            let rest = facts::usable_executable(parts.executable, executable) is Some
                && facts::usable_directory(parts.directory, directory) is Some
                && arguments::valid_environment(parts.environment);
            &&& refusal is None <==> handler::valid_timeout(parts.timeout)
                && tool::valid_arguments(parts.fixed) && rest
            &&& refusal == Some(ProcessAdapterError::InvalidArguments) <==> handler::valid_timeout(
                parts.timeout,
            ) && !tool::valid_arguments(parts.fixed)
            &&& refusal is Some ==> refusal->0 == ProcessAdapterError::InvalidArguments
                || refusal->0 == ProcessAdapterError::InvalidConfig
            &&& refusal is None ==> {
                let built = parts.built(executable, directory);
                &&& Some(built.executable) == executable.canonical
                &&& Some(built.directory) == directory.canonical
                &&& Some(built.executable_identity) == facts::executable_identity(
                    executable.target,
                )
                &&& built.fixed == parts.fixed && built.environment == parts.environment
                    && built.timeout == parts.timeout
                &&& built.launcher is Direct && built.directory_identity is None
            }
        }),
{
}

// ---------------------------------------------------------------------- wait

/// A child that exits within its limits is reported by how it exited. One that reached a limit,
/// or whose limits cannot be told, is reported as that, and killed where it still runs. One that
/// still runs at its deadline is killed and reported as timed out, and one before it is polled
/// again after at most 5 milliseconds and no later than the deadline.
pub proof fn law_children_are_watched(
    watch: ProcessWait,
    exit: Option<bool>,
    limit: LimitCheck,
    now: u128,
)
    requires
        watch.action is Poll,
    ensures
        ({
            let step = watch.stepped(WaitEvent::Polled { exit, limit }, now);
            &&& limit is Within && exit == Some(true) ==> step == WaitStep::Done(Ok(()))
            &&& limit is Within && exit == Some(false) ==> step == WaitStep::Done(
                Err(ProcessAdapterError::ExitFailed),
            )
            &&& limit is Reached && exit is Some ==> step == WaitStep::Done(
                Err(ProcessAdapterError::ResourceLimitExceeded),
            )
            &&& limit is Unknown && exit is Some ==> step == WaitStep::Done(
                Err(ProcessAdapterError::InvalidResourceControl),
            )
            &&& exit is None ==> step is Continue && step->Continue_0.deadline == watch.deadline
            &&& exit is None && limit is Reached ==> step->Continue_0.action is Kill
                && step->Continue_0.verdict == ProcessAdapterError::ResourceLimitExceeded
            &&& exit is None && limit is Unknown ==> step->Continue_0.action is Kill
                && step->Continue_0.verdict == ProcessAdapterError::InvalidResourceControl
            &&& exit is None && limit is Within && now >= watch.deadline ==> step->Continue_0.action
                is Kill && step->Continue_0.verdict == ProcessAdapterError::TimedOut
            &&& exit is None && limit is Within && now < watch.deadline ==> step->Continue_0.action
                is Poll && 0 < step->Continue_0.action->pause.nanos <= 5_000_000 && now
                + step->Continue_0.action->pause.nanos <= watch.deadline && (
            step->Continue_0.action->pause.nanos == 5_000_000 || now
                + step->Continue_0.action->pause.nanos == watch.deadline)
        }),
{
}

/// A killed child is waited for and then reported as what it was killed for; where it could not be
/// killed it is looked at once more, and anything else is a failed wait.
pub proof fn law_killed_children_are_reported(watch: ProcessWait, event: WaitEvent, now: u128)
    requires
        !(watch.action is Poll),
    ensures
        watch.action is Kill && event is Killed ==> watch.stepped(event, now) == WaitStep::Continue(
            ProcessWait { action: WaitAction::Reap, ..watch },
        ),
        watch.action is Kill && event is KillFailed ==> watch.stepped(event, now)
            == WaitStep::Continue(ProcessWait { action: WaitAction::Check, ..watch }),
        watch.action is Reap && event is Reaped ==> watch.stepped(event, now) == WaitStep::Done(
            Err(watch.verdict),
        ),
        watch.action is Check && event is Polled && event->exit is Some ==> watch.stepped(event, now)
            == WaitStep::Done(Err(watch.verdict)),
        watch.action is Check && event is Polled && event->exit is None ==> watch.stepped(event, now)
            == WaitStep::Done(Err(ProcessAdapterError::WaitFailed)),
        event is PollFailed || event is ReapFailed ==> watch.stepped(event, now) == WaitStep::Done(
            Err(ProcessAdapterError::WaitFailed),
        ),
{
}

} // verus!
