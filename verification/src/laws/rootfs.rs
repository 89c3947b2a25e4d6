//! Laws on root filesystems.

use vstd::prelude::*;

use crate::path;
use crate::process::facts;
use crate::process::facts::{FileFacts, ReportModel};
use crate::process::rootfs;
use crate::process::rootfs::{EntryModel, PlacedModel, RootModel, StepModel};
use crate::text;

verus! {

/// Numbers stand in a measurement most significant byte first.
pub proof fn law_measured_numbers_are_big_endian(n: u32, m: u64)
    ensures
        ({
            let b = rootfs::be_u32(n);
            b.len() == 4 && ((b[0] * 256 + b[1]) * 256 + b[2]) * 256 + b[3] == n
        }),
        rootfs::be_u64(m).len() == 8,
        rootfs::be_u64(m) == rootfs::be_u32((m / 0x1_0000_0000) as u32) + rootfs::be_u32(
            (m % 0x1_0000_0000) as u32,
        ),
{
}

/// A measurement starts with `AIOS_ROOTFS_TREE_SHA256_V1`, a NUL byte, an `R` and the permission
/// bits of the root; then come the entries in the order of their paths.
pub proof fn law_measurements_start_with_their_domain(root: FileFacts, entries: Seq<EntryModel>)
    ensures
        rootfs::measured_tree(root, entries) == text::utf8("AIOS_ROOTFS_TREE_SHA256_V1"@)
            + seq![0u8, 'R' as u8] + rootfs::be_u32((root.mode % 512) as u32)
            + rootfs::measured_entries(rootfs::ordered(entries)),
{
    reveal_strlit("AIOS_ROOTFS_TREE_SHA256_V1");
    let name = "AIOS_ROOTFS_TREE_SHA256_V1"@;
    assert(vstd::utf8::is_ascii_chars(name));
    vstd::utf8::is_ascii_chars_encode_utf8(name);
    let mode = root.mode;
    assert(mode & 0o777 == mode % 512) by (bit_vector);
    assert(rootfs::digest_domain() + seq![0x52u8] =~= text::utf8(name) + seq![0u8, 'R' as u8]);
    assert(rootfs::measured_tree(root, entries) =~= text::utf8(name) + seq![0u8, 'R' as u8]
        + rootfs::be_u32((mode % 512) as u32) + rootfs::measured_entries(
        rootfs::ordered(entries),
    ));
}

/// An entry is measured by the length of its path, its path and its permission bits; behind them
/// stands a `D` for a directory, and an `F`, the length and the bytes for a file.
pub proof fn law_entries_are_measured_whole(entry: EntryModel)
    requires
        entry.facts is Some,
    ensures
        entry.facts->0.directory ==> entry.measured() == rootfs::be_u32(entry.path.len() as u32)
            + entry.path + rootfs::be_u32((entry.facts->0.mode % 512) as u32) + seq!['D' as u8],
        !entry.facts->0.directory ==> entry.measured() == rootfs::be_u32(entry.path.len() as u32)
            + entry.path + rootfs::be_u32((entry.facts->0.mode % 512) as u32) + (seq!['F' as u8]
            + rootfs::be_u64(entry.facts->0.length) + entry.contents->0),
{
    let mode = entry.facts->0.mode;
    assert(mode & 0o777 == mode % 512) by (bit_vector);
}

/// Entries are measured one after another.
pub proof fn law_measured_entries_join(a: Seq<EntryModel>, b: Seq<EntryModel>, one: EntryModel)
    ensures
        rootfs::measured_entries(a + b) == rootfs::measured_entries(a) + rootfs::measured_entries(
            b,
        ),
        rootfs::measured_entries(seq![one]) == one.measured(),
    decreases b.len(),
{
    reveal_with_fuel(rootfs::measured_entries, 2);
    assert(seq![one].drop_last() =~= Seq::<EntryModel>::empty());
    assert(rootfs::measured_entries(seq![one]) =~= one.measured());
    if b.len() == 0 {
        assert(a + b =~= a);
        assert(rootfs::measured_entries(a) + rootfs::measured_entries(b)
            =~= rootfs::measured_entries(a));
    } else {
        assert((a + b).drop_last() =~= a + b.drop_last());
        law_measured_entries_join(a, b.drop_last(), one);
        assert(rootfs::measured_entries(a + b) =~= rootfs::measured_entries(a)
            + rootfs::measured_entries(b));
    }
}

/// An entry is sealed where nobody may write to it, it is no link, and its path is of at most 4096
/// bytes; a file also has one name and at most 256 MiB, was the same file when it was opened, and
/// was read whole.
pub proof fn law_sealed_entries_cannot_be_written(entry: EntryModel)
    ensures
        entry.sealed() ==> {
            let f = entry.facts->0;
            &&& entry.facts is Some && entry.path.len() <= 4_096 && !f.symlink
            &&& f.mode / 2 % 2 == 0 && f.mode / 16 % 2 == 0 && f.mode / 128 % 2 == 0
            &&& !f.directory ==> f.regular && f.links == 1 && f.length <= 268_435_456
                && entry.opened is Some && entry.opened->0.device == f.device
                && entry.opened->0.inode == f.inode && entry.opened->0.length == f.length
                && entry.opened->0.links == 1 && entry.opened->0.mode / 2 % 2 == 0
                && entry.opened->0.mode / 16 % 2 == 0 && entry.opened->0.mode / 128 % 2 == 0
                && entry.contents is Some && entry.contents->0.len() == f.length
        },
        entry.facts is Some && entry.path.len() <= 4_096 && !entry.facts->0.symlink
            && entry.facts->0.mode / 2 % 2 == 0 && entry.facts->0.mode / 16 % 2 == 0
            && entry.facts->0.mode / 128 % 2 == 0 && entry.facts->0.directory ==> entry.sealed(),
        entry.facts is Some && entry.path.len() <= 4_096 && !entry.facts->0.symlink
            && entry.facts->0.mode / 2 % 2 == 0 && entry.facts->0.mode / 16 % 2 == 0
            && entry.facts->0.mode / 128 % 2 == 0 && entry.facts->0.regular && entry.facts->0.links
            == 1 && entry.facts->0.length <= 268_435_456 && entry.opened == entry.facts
            && entry.contents is Some && entry.contents->0.len() == entry.facts->0.length
            ==> entry.sealed(),
{
    let mode = entry.facts->0.mode;
    assert(mode & 0o222 == 0 <==> mode / 2 % 2 == 0 && mode / 16 % 2 == 0 && mode / 128 % 2 == 0)
        by (bit_vector);
    let opened = entry.opened->0.mode;
    assert(opened & 0o222 == 0 <==> opened / 2 % 2 == 0 && opened / 16 % 2 == 0 && opened / 128 % 2
        == 0) by (bit_vector);
}

/// A tree is measured where its root is sealed, it is of at most 4096 sealed entries, and its
/// files are of at most 512 MiB together.
pub proof fn law_measured_trees_are_bounded(root: Option<FileFacts>, entries: Seq<EntryModel>)
    ensures
        rootfs::measurable(root, entries) <==> facts::read_only(root) && entries.len() <= 4_096
            && rootfs::total_weight(entries) <= 536_870_912 && (forall|i: int|
            0 <= i < entries.len() ==> (#[trigger] entries[i]).sealed()),
{
}

/// The files of a tree weigh together what they weigh apart, each its length; directories weigh
/// nothing.
pub proof fn law_weights_add_up(a: Seq<EntryModel>, b: Seq<EntryModel>, one: EntryModel)
    ensures
        rootfs::total_weight(a + b) == rootfs::total_weight(a) + rootfs::total_weight(b),
        one.facts is Some && one.facts->0.directory ==> rootfs::total_weight(seq![one]) == 0,
        one.facts is Some && !one.facts->0.directory ==> rootfs::total_weight(seq![one])
            == one.facts->0.length,
    decreases b.len(),
{
    reveal_with_fuel(rootfs::total_weight, 2);
    assert(seq![one].drop_last() =~= Seq::<EntryModel>::empty());
    if b.len() == 0 {
        assert(a + b =~= a);
    } else {
        assert((a + b).drop_last() =~= a + b.drop_last());
        law_weights_add_up(a, b.drop_last(), one);
    }
}

/// A tree is intact where it is the same sealed directory as before and measures to the same
/// digest; it is verified where it can be a root, its four mount points are real directories, and
/// it measures to the digest that was expected.
pub proof fn law_verified_trees_measure_to_their_digest(
    verified: RootModel,
    now: Option<FileFacts>,
    entries: Seq<EntryModel>,
    directory: Seq<u8>,
    digest: Seq<u8>,
    report: ReportModel,
    mounts: Seq<Option<FileFacts>>,
)
    ensures
        verified.intact(now, entries) <==> rootfs::measurable(now, entries) && now is Some
            && now->0.device == verified.identity.device && now->0.inode
            == verified.identity.inode && rootfs::sha256(rootfs::measured_tree(now->0, entries))
            == verified.digest,
        rootfs::verifies(directory, digest, report, mounts, entries) <==> {
            &&& 1 <= directory.len() <= 4_096 && directory[0] == '/' as u8
            &&& report.canonical is Some && path::components(report.canonical->0).len() > 0
            &&& facts::read_only(report.entry)
            &&& facts::is_directory(mounts[0]) && facts::is_directory(mounts[1])
                && facts::is_directory(mounts[2]) && facts::is_directory(mounts[3])
            &&& rootfs::measurable(report.target, entries)
            &&& rootfs::sha256(rootfs::measured_tree(report.target->0, entries)) == digest
        },
{
}

/// What is used of a configured read-only root is where its path leads.
pub proof fn law_read_only_roots_lead_somewhere(directory: Seq<u8>, report: ReportModel)
    ensures
        rootfs::usable_read_only_root(directory, report) is Some ==> rootfs::usable_read_only_root(
            directory,
            report,
        ) == report.canonical,
{
}

/// A digest is written in 64 lowercase hexadecimal digits, two for each byte, the higher first.
pub proof fn law_digests_are_written_in_hexadecimal(digest: Seq<u8>, i: int)
    requires
        0 <= i < digest.len(),
    ensures
        rootfs::hex(digest).len() == 2 * digest.len(),
        rootfs::hex(digest)[2 * i] == digit(digest[i] as int / 16),
        rootfs::hex(digest)[2 * i + 1] == digit(digest[i] as int % 16),
    decreases digest.len(),
{
    lemma_hex_length(digest.drop_last());
    if i < digest.len() - 1 {
        law_digests_are_written_in_hexadecimal(digest.drop_last(), i);
    }
}

/// The lowercase hexadecimal digit of a number.
pub open spec fn digit(n: int) -> char {
    if n < 10 {
        ('0' as int + n) as char
    } else {
        ('a' as int + n - 10) as char
    }
}

proof fn lemma_hex_length(bytes: Seq<u8>)
    ensures
        rootfs::hex(bytes).len() == 2 * bytes.len(),
    decreases bytes.len(),
{
    if bytes.len() > 0 {
        lemma_hex_length(bytes.drop_last());
    }
}

/// A text that writes a digest has the digits of its bytes, the higher first.
pub proof fn law_digests_are_read_digit_by_digit(words: Seq<u8>, digest: Seq<u8>, i: int)
    requires
        rootfs::writes_digest(words, digest),
        0 <= i < 32,
    ensures
        words.len() == 64 && digest.len() == 32,
        words[2 * i] == digit(digest[i] as int / 16) as u8,
        words[2 * i + 1] == digit(digest[i] as int % 16) as u8,
{
    let (x, y) = (words[2 * i], words[2 * i + 1]);
    assert(digest[i] == 16 * rootfs::hex_number(x)->0 + rootfs::hex_number(y)->0);
}

/// A text is a digest exactly where it is of 64 digits `0` to `9` and `a` to `f`.
pub proof fn law_digest_texts_are_plain(words: Seq<u8>)
    ensures
        rootfs::is_digest_text(words) <==> words.len() == 64 && (forall|i: int|
            0 <= i < 64 ==> ('0' as u8 <= #[trigger] words[i] <= '9' as u8) || ('a' as u8 <= words[i]
                <= 'f' as u8)),
{
    if words.len() == 64 && (forall|i: int|
        0 <= i < 64 ==> ('0' as u8 <= #[trigger] words[i] <= '9' as u8) || ('a' as u8 <= words[i]
            <= 'f' as u8)) {
        assert forall|i: int| 0 <= i < words.len() implies (#[trigger] rootfs::hex_number(
            words[i],
        )) is Some by {
            assert(('0' as u8 <= words[i] <= '9' as u8) || ('a' as u8 <= words[i] <= 'f' as u8));
        }
    }
    if rootfs::is_digest_text(words) {
        assert forall|i: int| 0 <= i < 64 implies ('0' as u8 <= #[trigger] words[i] <= '9' as u8)
            || ('a' as u8 <= words[i] <= 'f' as u8) by {
            assert(rootfs::hex_number(words[i]) is Some);
        }
    }
}

/// A minimal root has `bin`, `proc`, `dev`, `tmp` and `workspace`, and the executable
/// `bin/busybox`. It is built from the top down and sealed from the bottom up: the root itself is
/// made first and sealed last.
pub proof fn law_minimal_roots_are_sealed_last(source: Seq<u8>, output: Seq<u8>)
    ensures
        ({
            let steps = rootfs::minimal_steps(source, output);
            let last = steps.len() - 1;
            let executable = output + seq!['/' as u8] + text::utf8("bin/busybox"@);
            &&& steps[0] == (StepModel::CreateDirectory { path: output })
            &&& steps[last] == (StepModel::Seal { path: output })
            &&& steps.contains(StepModel::CopyExecutable { source, destination: executable })
            &&& steps.contains(StepModel::Seal { path: executable })
            &&& makes(steps, output, text::utf8("bin"@))
            &&& makes(steps, output, text::utf8("proc"@))
            &&& makes(steps, output, text::utf8("dev"@))
            &&& makes(steps, output, text::utf8("tmp"@))
            &&& makes(steps, output, text::utf8("workspace"@))
        }),
{
    reveal_strlit("bin/busybox");
    reveal_strlit("bin");
    reveal_strlit("proc");
    reveal_strlit("dev");
    reveal_strlit("tmp");
    reveal_strlit("workspace");
    vstd::utf8::is_ascii_chars_encode_utf8("bin/busybox"@);
    vstd::utf8::is_ascii_chars_encode_utf8("bin"@);
    vstd::utf8::is_ascii_chars_encode_utf8("proc"@);
    vstd::utf8::is_ascii_chars_encode_utf8("dev"@);
    vstd::utf8::is_ascii_chars_encode_utf8("tmp"@);
    vstd::utf8::is_ascii_chars_encode_utf8("workspace"@);
    let names = rootfs::minimal_directories();
    assert(text::utf8("bin"@) =~= names[0]);
    assert(text::utf8("proc"@) =~= names[1]);
    assert(text::utf8("dev"@) =~= names[2]);
    assert(text::utf8("tmp"@) =~= names[3]);
    assert(text::utf8("workspace"@) =~= names[4]);
    assert(text::utf8("bin/busybox"@) =~= rootfs::minimal_executable());
    let steps = rootfs::minimal_steps(source, output);
    let executable = path::joined(output, rootfs::minimal_executable());
    assert(steps[1] == (StepModel::CreateDirectory { path: path::joined(output, names[0]) }));
    assert(steps[2] == (StepModel::CreateDirectory { path: path::joined(output, names[1]) }));
    assert(steps[3] == (StepModel::CreateDirectory { path: path::joined(output, names[2]) }));
    assert(steps[4] == (StepModel::CreateDirectory { path: path::joined(output, names[3]) }));
    assert(steps[5] == (StepModel::CreateDirectory { path: path::joined(output, names[4]) }));
    assert(steps[6] == (StepModel::CopyExecutable { source, destination: executable }));
    assert(steps[7] == (StepModel::Seal { path: executable }));
    assert(steps[8] == (StepModel::Seal { path: path::joined(output, names[0]) }));
    assert(steps[9] == (StepModel::Seal { path: path::joined(output, names[1]) }));
    assert(steps[10] == (StepModel::Seal { path: path::joined(output, names[2]) }));
    assert(steps[11] == (StepModel::Seal { path: path::joined(output, names[3]) }));
    assert(steps[12] == (StepModel::Seal { path: path::joined(output, names[4]) }));
}

/// Whether steps make and seal a directory below a root.
pub open spec fn makes(steps: Seq<StepModel>, root: Seq<u8>, name: Seq<u8>) -> bool {
    let at = root + seq!['/' as u8] + name;
    steps.contains(StepModel::CreateDirectory { path: at }) && steps.contains(
        StepModel::Seal { path: at },
    )
}

/// What a step does: a new directory is its owner's own, a copy can be read and executed by its
/// owner, and what is sealed can be read and executed by all and written by none. Nothing is
/// made where something is, nothing sealed where nothing is, and no other file is touched.
pub proof fn law_steps_make_and_seal_files(
    files: Map<Seq<u8>, PlacedModel>,
    at: Seq<u8>,
    source: Seq<u8>,
    copied: Seq<u8>,
    other: Seq<u8>,
)
    requires
        other != at,
    ensures
        ({
            let made = rootfs::performed(files, StepModel::CreateDirectory { path: at }, copied);
            &&& made is Some <==> !files.contains_key(at)
            &&& made is Some ==> made->0.contains_key(at) && made->0[at].directory
                && made->0[at].mode == 7 * 64 && made->0[at].contents.len() == 0
            &&& made is Some ==> made->0[other] == files[other] && (made->0.contains_key(other)
                <==> files.contains_key(other))
        }),
        ({
            let made = rootfs::performed(
                files,
                StepModel::CopyExecutable { source, destination: at },
                copied,
            );
            &&& made is Some <==> !files.contains_key(at)
            &&& made is Some ==> made->0.contains_key(at) && !made->0[at].directory
                && made->0[at].mode == 5 * 64 && made->0[at].contents == copied
            &&& made is Some ==> made->0[other] == files[other] && (made->0.contains_key(other)
                <==> files.contains_key(other))
        }),
        ({
            let made = rootfs::performed(files, StepModel::Seal { path: at }, copied);
            &&& made is Some <==> files.contains_key(at)
            &&& made is Some ==> made->0[at].mode == 5 * 64 + 5 * 8 + 5 && made->0[at].directory
                == files[at].directory && made->0[at].contents == files[at].contents
            &&& made is Some ==> made->0[other] == files[other] && (made->0.contains_key(other)
                <==> files.contains_key(other))
        }),
{
}

/// A minimal root is built from a real executable file of at most 256 MiB, by an absolute path, at
/// a path that is good inside a sandbox and not the filesystem root.
pub proof fn law_minimal_roots_are_built_from_an_executable(
    busybox: Seq<u8>,
    output: Seq<u8>,
    source: ReportModel,
)
    ensures
        rootfs::buildable(busybox, output, source) <==> {
            &&& busybox.len() > 0 && busybox[0] == '/' as u8
            &&& path::sandbox_path(output) && path::components(output).len() > 0
            &&& source.entry is Some && !source.entry->0.symlink && source.entry->0.regular
            &&& source.canonical is Some
            &&& facts::executable_identity(source.target) is Some && source.target->0.length
                <= 268_435_456
        },
{
}

} // verus!
