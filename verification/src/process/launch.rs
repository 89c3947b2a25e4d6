//! The command line of the launcher that moves a child into its cgroup.
//!
//! The launcher joins a task cgroup, receives the seccomp filter and the descriptors of the
//! mounts, and becomes the sandbox.

use vstd::prelude::*;

use crate::path;
use crate::path::{components_of, is_absolute, is_traversal_free};
use crate::process::facts::FileFacts;
use crate::scan;
use crate::scan::{parse_u64, write_u64};
use crate::text;
use crate::text::{bytes_eq, clone_bytes};

verus! {

pub const FAILURE_EXIT_CODE: u8 = 125;

pub const MAX_LAUNCH_ARGUMENTS: usize = 512;

pub const MAX_DESCRIPTOR_MOUNTS: usize = 128;

pub const MAX_LAUNCH_PATH_BYTES: usize = 4_096;

/// The bytes of a word of a command line.
#[must_use]
pub fn word(text: &str) -> (r: Vec<u8>)
    ensures
        r@ == text::utf8(text@),
{
    clone_bytes(text.as_bytes())
}

fn is_word(bytes: &Vec<u8>, text: &str) -> (r: bool)
    ensures
        r == (bytes@ == text::utf8(text@)),
{
    bytes_eq(bytes.as_slice(), text.as_bytes())
}

/// Copies a list of words.
#[must_use]
pub fn clone_words(list: &[Vec<u8>]) -> (r: Vec<Vec<u8>>)
    ensures
        text::pieces(r@) == text::pieces(list@),
{
    let mut out: Vec<Vec<u8>> = Vec::new();
    let mut i: usize = 0;
    while i < list.len()
        invariant
            i <= list@.len(),
            out@.len() == i,
            forall|k: int| 0 <= k < i ==> (#[trigger] out@[k])@ == list@[k]@,
        decreases list@.len() - i,
    {
        out.push(clone_bytes(list[i].as_slice()));
        i = i + 1;
    }
    assert(text::pieces(out@) =~= text::pieces(list@));
    out
}

// ------------------------------------------------------------------- request

/// What the launcher is asked for.
pub struct LaunchRequest {
    pub cgroup_procs: Vec<u8>,
    pub device: u64,
    pub inode: u64,
    pub executable: Vec<u8>,
    /// The destinations of read-only mounts whose descriptors are received; `None` where no
    /// descriptors are received at all.
    pub mounts: Option<Vec<Vec<u8>>>,
    pub arguments: Vec<Vec<u8>>,
}

/// What the launcher is asked for.
pub struct LaunchModel {
    pub cgroup_procs: Seq<u8>,
    pub device: u64,
    pub inode: u64,
    pub executable: Seq<u8>,
    pub mounts: Option<Seq<Seq<u8>>>,
    pub arguments: Seq<Seq<u8>>,
}

impl View for LaunchRequest {
    type V = LaunchModel;

    open spec fn view(&self) -> LaunchModel {
        LaunchModel {
            cgroup_procs: self.cgroup_procs@,
            device: self.device,
            inode: self.inode,
            executable: self.executable@,
            mounts: match self.mounts {
                Some(mounts) => Some(text::pieces(mounts@)),
                None => None,
            },
            arguments: text::pieces(self.arguments@),
        }
    }
}

/// The word that asks for descriptors.
pub open spec fn broker_word() -> Seq<u8> {
    text::utf8("--descriptor-broker"@)
}

/// The words that name mounts.
pub open spec fn mount_words(mounts: Seq<Seq<u8>>) -> Seq<Seq<u8>>
    decreases mounts.len(),
{
    if mounts.len() == 0 {
        Seq::<Seq<u8>>::empty()
    } else {
        seq![text::utf8("read"@), mounts[0]] + mount_words(mounts.skip(1))
    }
}

impl LaunchModel {
    /// The command line that asks for this.
    pub open spec fn command_line(self) -> Seq<Seq<u8>> {
        let target = seq![
            self.cgroup_procs,
            scan::number_digits(self.device as nat),
            scan::number_digits(self.inode as nat),
            self.executable,
        ];
        match self.mounts {
            None => target + self.arguments,
            Some(mounts) => seq![broker_word()] + target + seq![
                scan::number_digits(mounts.len()),
            ] + mount_words(mounts) + self.arguments,
        }
    }

    /// Whether the launcher accepts this: bounded, with plain destinations.
    pub open spec fn acceptable(self) -> bool {
        match self.mounts {
            None => self.arguments.len() <= MAX_LAUNCH_ARGUMENTS && self.cgroup_procs
                != broker_word(),
            Some(mounts) => {
                &&& mounts.len() <= MAX_DESCRIPTOR_MOUNTS
                &&& forall|i: int| 0 <= i < mounts.len() ==> is_destination(#[trigger] mounts[i])
                &&& self.arguments.len() + 3 * mounts.len() + 2 <= MAX_LAUNCH_ARGUMENTS
            },
        }
    }
}

/// A destination of a mount: absolute, bounded, and without a way upwards.
pub open spec fn is_destination(path: Seq<u8>) -> bool {
    path::absolute(path) && path.len() <= MAX_LAUNCH_PATH_BYTES && path::traversal_free(path)
}

// ------------------------------------------------------------------- reading

/// The number that a word writes.
pub open spec fn word_number(word: Seq<u8>) -> Option<nat> {
    scan::bounded_value(word, u64::MAX as nat)
}

/// The destinations that the first words of a command line name.
pub open spec fn read_mounts(words: Seq<Seq<u8>>, count: nat) -> Option<Seq<Seq<u8>>>
    decreases count,
{
    if count == 0 {
        Some(Seq::<Seq<u8>>::empty())
    } else if words.len() < 2 || words[0] != text::utf8("read"@) || !is_destination(words[1]) {
        None
    } else {
        match read_mounts(words.skip(2), (count - 1) as nat) {
            Some(rest) => Some(seq![words[1]] + rest),
            None => None,
        }
    }
}

/// What a command line asks for.
pub open spec fn read_request(words: Seq<Seq<u8>>) -> Option<LaunchModel> {
    if words.len() == 0 {
        None
    } else if words[0] == broker_word() {
        read_broker(words.skip(1))
    } else {
        read_plain(words)
    }
}

/// What a command line without descriptors asks for.
pub open spec fn read_plain(words: Seq<Seq<u8>>) -> Option<LaunchModel> {
    if words.len() < 4 || word_number(words[1]) is None || word_number(words[2]) is None
        || words.len() - 4 > MAX_LAUNCH_ARGUMENTS {
        None
    } else {
        Some(
            LaunchModel {
                cgroup_procs: words[0],
                device: word_number(words[1])->0 as u64,
                inode: word_number(words[2])->0 as u64,
                executable: words[3],
                mounts: None,
                arguments: words.skip(4),
            },
        )
    }
}

/// What a command line with descriptors asks for.
pub open spec fn read_broker(words: Seq<Seq<u8>>) -> Option<LaunchModel> {
    if words.len() < 5 || word_number(words[1]) is None || word_number(words[2]) is None
        || word_number(words[4]) is None || word_number(words[4])->0 > MAX_DESCRIPTOR_MOUNTS {
        None
    } else {
        let count = word_number(words[4])->0;
        match read_mounts(words.skip(5), count) {
            None => None,
            Some(mounts) => if words.len() - 5 - 2 * count + 3 * count + 2
                > MAX_LAUNCH_ARGUMENTS {
                None
            } else {
                Some(
                    LaunchModel {
                        cgroup_procs: words[0],
                        device: word_number(words[1])->0 as u64,
                        inode: word_number(words[2])->0 as u64,
                        executable: words[3],
                        mounts: Some(mounts),
                        arguments: words.skip((5 + 2 * count) as int),
                    },
                )
            },
        }
    }
}

fn is_valid_destination(path: &[u8]) -> (r: bool)
    ensures
        r == is_destination(path@),
{
    is_absolute(path) && path.len() <= MAX_LAUNCH_PATH_BYTES && is_traversal_free(path)
}

proof fn lemma_read_mounts_length(words: Seq<Seq<u8>>, count: nat)
    requires
        read_mounts(words, count) is Some,
    ensures
        words.len() >= 2 * count,
        read_mounts(words, count)->0.len() == count,
    decreases count,
{
    if count > 0 {
        lemma_read_mounts_length(words.skip(2), (count - 1) as nat);
    }
}

fn parse_mounts(words: &Vec<Vec<u8>>, start: usize, count: usize) -> (r: Option<Vec<Vec<u8>>>)
    requires
        start <= words@.len(),
        count <= MAX_DESCRIPTOR_MOUNTS,
    ensures
        read_mounts(text::pieces(words@).skip(start as int), count as nat) == (match r {
            Some(mounts) => Some(text::pieces(mounts@)),
            None => None,
        }),
{
    let ghost all = text::pieces(words@);
    let ghost given = all.skip(start as int);
    let mut mounts: Vec<Vec<u8>> = Vec::new();
    let mut i: usize = 0;
    let mut at: usize = start;
    while i < count
        invariant
            i <= count <= MAX_DESCRIPTOR_MOUNTS,
            start <= at <= words@.len(),
            all == text::pieces(words@),
            given == all.skip(start as int),
            read_mounts(given, count as nat) == (match read_mounts(
                all.skip(at as int),
                (count - i) as nat,
            ) {
                Some(rest) => Some(text::pieces(mounts@) + rest),
                None => None,
            }),
        decreases count - i,
    {
        let ghost rest = all.skip(at as int);
        if words.len() - at < 2 {
            return None;
        }
        proof {
            assert(rest[0] == words@[at as int]@);
            assert(rest[1] == words@[at + 1]@);
            assert(rest.skip(2) =~= all.skip(at + 2));
        }
        if !is_word(&words[at], "read") || !is_valid_destination(words[at + 1].as_slice()) {
            return None;
        }
        let ghost before = text::pieces(mounts@);
        mounts.push(clone_bytes(words[at + 1].as_slice()));
        proof {
            assert(text::pieces(mounts@) =~= before + seq![rest[1]]);
            match read_mounts(rest.skip(2), (count - i - 1) as nat) {
                Some(tail) => {
                    assert(before + (seq![rest[1]] + tail) =~= text::pieces(mounts@) + tail);
                },
                None => {},
            }
        }
        i = i + 1;
        at = at + 2;
    }
    assert(text::pieces(mounts@) + Seq::<Seq<u8>>::empty() =~= text::pieces(mounts@));
    Some(mounts)
}

fn tail_words(words: &Vec<Vec<u8>>, from: usize) -> (r: Vec<Vec<u8>>)
    requires
        from <= words@.len(),
    ensures
        text::pieces(r@) == text::pieces(words@).skip(from as int),
{
    let mut out: Vec<Vec<u8>> = Vec::new();
    let mut i: usize = from;
    while i < words.len()
        invariant
            from <= i <= words@.len(),
            out@.len() == i - from,
            forall|k: int| 0 <= k < out@.len() ==> (#[trigger] out@[k])@ == words@[from + k]@,
        decreases words@.len() - i,
    {
        out.push(clone_bytes(words[i].as_slice()));
        i = i + 1;
    }
    assert(text::pieces(out@) =~= text::pieces(words@).skip(from as int));
    out
}

/// Reads a command line, without the name of the program.
pub fn parse_launch(words: &Vec<Vec<u8>>) -> (r: Option<LaunchRequest>)
    ensures
        read_request(text::pieces(words@)) == (match r {
            Some(request) => Some(request@),
            None => None,
        }),
{
    let ghost all = text::pieces(words@);
    assert(all.len() == words@.len());
    if words.len() == 0 {
        return None;
    }
    assert(all[0] == words@[0]@);
    if is_word(&words[0], "--descriptor-broker") {
        let ghost rest = all.skip(1);
        if words.len() < 6 {
            return None;
        }
        proof {
            assert(rest[0] == words@[1]@);
            assert(rest[1] == words@[2]@);
            assert(rest[2] == words@[3]@);
            assert(rest[3] == words@[4]@);
            assert(rest[4] == words@[5]@);
            assert(rest.skip(5) =~= all.skip(6));
        }
        let device = match parse_u64(words[2].as_slice()) {
            Some(device) => device,
            None => {
                return None;
            },
        };
        let inode = match parse_u64(words[3].as_slice()) {
            Some(inode) => inode,
            None => {
                return None;
            },
        };
        let count: usize = match parse_u64(words[5].as_slice()) {
            Some(count) => {
                if count > MAX_DESCRIPTOR_MOUNTS as u64 {
                    return None;
                }
                count as usize
            },
            None => {
                return None;
            },
        };
        let mounts = match parse_mounts(words, 6, count) {
            Some(mounts) => mounts,
            None => {
                return None;
            },
        };
        proof {
            lemma_read_mounts_length(all.skip(6), count as nat);
        }
        let from: usize = 6 + 2 * count;
        if words.len() - from > MAX_LAUNCH_ARGUMENTS - (3 * count + 2) {
            return None;
        }
        let arguments = tail_words(words, from);
        assert(rest.skip(5 + 2 * count) =~= all.skip(from as int));
        Some(
            LaunchRequest {
                cgroup_procs: clone_bytes(words[1].as_slice()),
                device,
                inode,
                executable: clone_bytes(words[4].as_slice()),
                mounts: Some(mounts),
                arguments,
            },
        )
    } else {
        if words.len() < 4 {
            return None;
        }
        proof {
            assert(all[1] == words@[1]@);
            assert(all[2] == words@[2]@);
            assert(all[3] == words@[3]@);
        }
        let device = match parse_u64(words[1].as_slice()) {
            Some(device) => device,
            None => {
                return None;
            },
        };
        let inode = match parse_u64(words[2].as_slice()) {
            Some(inode) => inode,
            None => {
                return None;
            },
        };
        if words.len() - 4 > MAX_LAUNCH_ARGUMENTS {
            return None;
        }
        Some(
            LaunchRequest {
                cgroup_procs: clone_bytes(words[0].as_slice()),
                device,
                inode,
                executable: clone_bytes(words[3].as_slice()),
                mounts: None,
                arguments: tail_words(words, 4),
            },
        )
    }
}

// ------------------------------------------------------------------- writing

fn push_words(out: &mut Vec<Vec<u8>>, list: &Vec<Vec<u8>>)
    ensures
        text::pieces(final(out)@) == text::pieces(old(out)@) + text::pieces(list@),
{
    let mut copy = clone_words(list.as_slice());
    let ghost tail = copy@;
    out.append(&mut copy);
    assert(text::pieces(out@) =~= text::pieces(old(out)@) + text::pieces(tail));
}

proof fn lemma_mount_words_push(mounts: Seq<Seq<u8>>, added: Seq<u8>)
    ensures
        mount_words(mounts.push(added)) == mount_words(mounts) + seq![text::utf8("read"@), added],
    decreases mounts.len(),
{
    let pair = seq![text::utf8("read"@), added];
    if mounts.len() == 0 {
        assert(mounts.push(added).skip(1) =~= Seq::<Seq<u8>>::empty());
        assert(mount_words(mounts.push(added).skip(1)) =~= Seq::<Seq<u8>>::empty());
        assert(mount_words(mounts.push(added)) =~= pair);
        assert(mount_words(mounts) + pair =~= pair);
    } else {
        let head = seq![text::utf8("read"@), mounts[0]];
        lemma_mount_words_push(mounts.skip(1), added);
        assert(mounts.push(added).skip(1) =~= mounts.skip(1).push(added));
        assert(head + (mount_words(mounts.skip(1)) + pair) =~= (head + mount_words(mounts.skip(1)))
            + pair);
    }
}

impl LaunchRequest {
    /// The command line that asks for this.
    #[must_use]
    pub fn command_line(&self) -> (r: Vec<Vec<u8>>)
        ensures
            text::pieces(r@) == self@.command_line(),
    {
        let mut out: Vec<Vec<u8>> = Vec::new();
        if self.mounts.is_some() {
            out.push(word("--descriptor-broker"));
        }
        out.push(clone_bytes(self.cgroup_procs.as_slice()));
        out.push(write_u64(self.device));
        out.push(write_u64(self.inode));
        out.push(clone_bytes(self.executable.as_slice()));
        if let Some(mounts) = &self.mounts {
            out.push(write_u64(mounts.len() as u64));
            let ghost head = text::pieces(out@);
            let ghost all = text::pieces(mounts@);
            let mut i: usize = 0;
            assert(text::pieces(out@) =~= head + mount_words(all.take(0)));
            while i < mounts.len()
                invariant
                    i <= mounts@.len(),
                    all == text::pieces(mounts@),
                    text::pieces(out@) == head + mount_words(all.take(i as int)),
                decreases mounts@.len() - i,
            {
                let ghost before = text::pieces(out@);
                proof {
                    assert(all[i as int] == mounts@[i as int]@);
                    assert(all.take(i + 1) =~= all.take(i as int).push(all[i as int]));
                    lemma_mount_words_push(all.take(i as int), all[i as int]);
                }
                out.push(word("read"));
                out.push(clone_bytes(mounts[i].as_slice()));
                proof {
                    let pair = seq![text::utf8("read"@), all[i as int]];
                    assert(text::pieces(out@) =~= before + pair);
                    assert((head + mount_words(all.take(i as int))) + pair =~= head + (mount_words(
                        all.take(i as int),
                    ) + pair));
                }
                i = i + 1;
            }
            assert(all.take(i as int) =~= all);
            assert(head =~= seq![broker_word()] + seq![
                self@.cgroup_procs,
                scan::number_digits(self.device as nat),
                scan::number_digits(self.inode as nat),
                self@.executable,
            ] + seq![scan::number_digits(all.len())]);
        } else {
            assert(text::pieces(out@) =~= seq![
                self@.cgroup_procs,
                scan::number_digits(self.device as nat),
                scan::number_digits(self.inode as nat),
                self@.executable,
            ]);
        }
        push_words(&mut out, &self.arguments);
        out
    }
}

proof fn lemma_mounts_read_back(mounts: Seq<Seq<u8>>, tail: Seq<Seq<u8>>)
    requires
        forall|i: int| 0 <= i < mounts.len() ==> is_destination(#[trigger] mounts[i]),
    ensures
        read_mounts(mount_words(mounts) + tail, mounts.len()) == Some(mounts),
        mount_words(mounts).len() == 2 * mounts.len(),
    decreases mounts.len(),
{
    if mounts.len() > 0 {
        let rest = mounts.skip(1);
        lemma_mounts_read_back(rest, tail);
        let words = mount_words(mounts) + tail;
        assert(words[0] == text::utf8("read"@));
        assert(words[1] == mounts[0]);
        assert(words.skip(2) =~= mount_words(rest) + tail);
        assert(seq![mounts[0]] + rest =~= mounts);
    } else {
        assert(mounts =~= Seq::<Seq<u8>>::empty());
    }
}

/// What is written for the launcher is what the launcher reads.
pub proof fn law_requests_read_back(request: LaunchModel)
    requires
        request.acceptable(),
    ensures
        read_request(request.command_line()) == Some(request),
{
    let words = request.command_line();
    scan::law_numbers_read_back(request.device as nat);
    scan::law_numbers_read_back(request.inode as nat);
    match request.mounts {
        None => {
            assert(words.skip(4) =~= request.arguments);
        },
        Some(mounts) => {
            scan::law_numbers_read_back(mounts.len());
            lemma_mounts_read_back(mounts, request.arguments);
            let rest = words.skip(1);
            assert(words[0] == broker_word());
            assert(rest[0] == request.cgroup_procs);
            assert(rest[1] == scan::number_digits(request.device as nat));
            assert(rest[2] == scan::number_digits(request.inode as nat));
            assert(rest[3] == request.executable);
            assert(rest[4] == scan::number_digits(mounts.len()));
            assert(rest.skip(5) =~= mount_words(mounts) + request.arguments);
            assert(rest.skip((5 + 2 * mounts.len()) as int) =~= request.arguments);
        },
    }
}

// ----------------------------------------------------------------- execution

/// Whether a path is the process list of the cgroup with a given identity.
pub open spec fn is_process_list(
    path: Seq<u8>,
    entry: Option<FileFacts>,
    parent: Option<FileFacts>,
    device: u64,
    inode: u64,
) -> bool {
    &&& path::absolute(path) && path.len() <= MAX_LAUNCH_PATH_BYTES
    &&& path::components(path).len() > 0 && path::components(path).last() == text::utf8(
        "cgroup.procs"@,
    )
    &&& entry is Some && !entry->0.symlink && entry->0.regular
    &&& parent is Some && parent->0.directory && parent->0.device == device && parent->0.inode
        == inode
}

/// Whether a path leads to a file that can be launched.
pub open spec fn is_launch_target(path: Seq<u8>, target: Option<FileFacts>) -> bool {
    path::absolute(path) && path.len() <= MAX_LAUNCH_PATH_BYTES && target is Some
        && target->0.regular
}

/// Whether a file may be written to join the cgroup: the membership file of the directory with
/// the expected identity.
pub fn is_cgroup_procs(
    path: &[u8],
    entry: Option<FileFacts>,
    parent: Option<FileFacts>,
    device: u64,
    inode: u64,
) -> (r: bool)
    ensures
        r == is_process_list(path@, entry, parent, device, inode),
{
    if !is_absolute(path) || path.len() > MAX_LAUNCH_PATH_BYTES {
        return false;
    }
    let parts = components_of(path);
    let ghost models = path::components(path@);
    assert(models.len() == parts@.len());
    if parts.len() == 0 {
        return false;
    }
    assert(models.last() == parts@[parts@.len() - 1]@);
    if !is_word(&parts[parts.len() - 1], "cgroup.procs") {
        return false;
    }
    match (entry, parent) {
        (Some(entry), Some(parent)) => !entry.symlink && entry.regular && parent.directory
            && parent.device == device && parent.inode == inode,
        _ => false,
    }
}

/// Whether the launcher may become an executable.
pub fn is_launchable(path: &[u8], target: Option<FileFacts>) -> (r: bool)
    ensures
        r == is_launch_target(path@, target),
{
    match target {
        Some(target) => is_absolute(path) && path.len() <= MAX_LAUNCH_PATH_BYTES
            && target.regular,
        None => false,
    }
}

/// The words that hand descriptors to the sandbox: the filter, then each mount.
pub open spec fn descriptor_words(mounts: Seq<Seq<u8>>, descriptors: Seq<u64>) -> Seq<Seq<u8>>
    decreases mounts.len(),
{
    if mounts.len() == 0 {
        seq![text::utf8("--seccomp"@), scan::number_digits(descriptors[0] as nat)]
    } else {
        let n = mounts.len() - 1;
        descriptor_words(mounts.drop_last(), descriptors) + seq![
            text::utf8("--ro-bind-fd"@),
            scan::number_digits(descriptors[n + 1] as nat),
            mounts[n],
        ]
    }
}

/// Whether the received descriptors are those that were asked for, none of them a standard
/// stream.
pub open spec fn usable_descriptors(mounts: Seq<Seq<u8>>, descriptors: Seq<u64>) -> bool {
    descriptors.len() == mounts.len() + 1 && forall|i: int|
        0 <= i < descriptors.len() ==> #[trigger] descriptors[i] > 2
}

/// Where the command of the sandbox starts: at the first `--`.
pub open spec fn delimiter(arguments: Seq<Seq<u8>>) -> Option<int>
    decreases arguments.len(),
{
    if arguments.len() == 0 {
        None
    } else if arguments[0] == text::utf8("--"@) {
        Some(0)
    } else {
        match delimiter(arguments.skip(1)) {
            Some(at) => Some(at + 1),
            None => None,
        }
    }
}

/// The arguments of the sandbox with the descriptors before its command.
pub open spec fn brokered(
    arguments: Seq<Seq<u8>>,
    mounts: Seq<Seq<u8>>,
    descriptors: Seq<u64>,
) -> Option<Seq<Seq<u8>>> {
    if !usable_descriptors(mounts, descriptors) {
        None
    } else {
        match delimiter(arguments) {
            None => None,
            Some(at) => Some(
                arguments.take(at) + descriptor_words(mounts, descriptors) + arguments.skip(at),
            ),
        }
    }
}

fn find_delimiter(arguments: &Vec<Vec<u8>>) -> (r: Option<usize>)
    ensures
        delimiter(text::pieces(arguments@)) == (match r {
            Some(at) => Some(at as int),
            None => None,
        }),
        r is Some ==> r->0 < arguments@.len(),
{
    let ghost all = text::pieces(arguments@);
    let mut i: usize = 0;
    assert(all.skip(0) =~= all);
    while i < arguments.len()
        invariant
            i <= arguments@.len(),
            all == text::pieces(arguments@),
            delimiter(all) == (match delimiter(all.skip(i as int)) {
                Some(at) => Some(at + i),
                None => None,
            }),
        decreases arguments@.len() - i,
    {
        let ghost rest = all.skip(i as int);
        proof {
            assert(rest[0] == arguments@[i as int]@);
            assert(rest.skip(1) =~= all.skip(i + 1));
        }
        if is_word(&arguments[i], "--") {
            return Some(i);
        }
        i = i + 1;
    }
    None
}

fn push_descriptors(out: &mut Vec<Vec<u8>>, mounts: &Vec<Vec<u8>>, descriptors: &Vec<u64>)
    requires
        descriptors@.len() == mounts@.len() + 1,
    ensures
        text::pieces(final(out)@) == text::pieces(old(out)@) + descriptor_words(
            text::pieces(mounts@),
            descriptors@,
        ),
{
    let ghost start = text::pieces(out@);
    let ghost all = text::pieces(mounts@);
    out.push(word("--seccomp"));
    out.push(write_u64(descriptors[0]));
    let mut i: usize = 0;
    proof {
        assert(all.take(0).len() == 0);
        assert(text::pieces(out@) =~= start + descriptor_words(all.take(0), descriptors@));
    }
    while i < mounts.len()
        invariant
            i <= mounts@.len(),
            descriptors@.len() == mounts@.len() + 1,
            all == text::pieces(mounts@),
            text::pieces(out@) == start + descriptor_words(all.take(i as int), descriptors@),
        decreases mounts@.len() - i,
    {
        let ghost before = text::pieces(out@);
        let ghost next = all.take(i + 1);
        proof {
            assert(all[i as int] == mounts@[i as int]@);
            assert(next.drop_last() =~= all.take(i as int));
        }
        out.push(word("--ro-bind-fd"));
        out.push(write_u64(descriptors[i + 1]));
        out.push(clone_bytes(mounts[i].as_slice()));
        proof {
            let three = seq![
                text::utf8("--ro-bind-fd"@),
                scan::number_digits(descriptors@[i + 1] as nat),
                all[i as int],
            ];
            assert(text::pieces(out@) =~= before + three);
            assert((start + descriptor_words(all.take(i as int), descriptors@)) + three =~= start
                + (descriptor_words(all.take(i as int), descriptors@) + three));
        }
        i = i + 1;
    }
    assert(all.take(i as int) =~= all);
}

/// The arguments of the sandbox with the received descriptors before its command.
pub fn broker_arguments(
    arguments: &Vec<Vec<u8>>,
    mounts: &Vec<Vec<u8>>,
    descriptors: &Vec<u64>,
) -> (r: Option<Vec<Vec<u8>>>)
    ensures
        brokered(text::pieces(arguments@), text::pieces(mounts@), descriptors@) == (match r {
            Some(words) => Some(text::pieces(words@)),
            None => None,
        }),
{
    assert(text::pieces(mounts@).len() == mounts@.len());
    if descriptors.len() == 0 || descriptors.len() - 1 != mounts.len() {
        return None;
    }
    let mut i: usize = 0;
    while i < descriptors.len()
        invariant
            i <= descriptors@.len(),
            forall|k: int| 0 <= k < i ==> #[trigger] descriptors@[k] > 2,
        decreases descriptors@.len() - i,
    {
        if descriptors[i] <= 2 {
            return None;
        }
        i = i + 1;
    }
    let at = match find_delimiter(arguments) {
        Some(at) => at,
        None => {
            return None;
        },
    };
    let ghost all = text::pieces(arguments@);
    let mut out: Vec<Vec<u8>> = Vec::new();
    let mut k: usize = 0;
    while k < at
        invariant
            k <= at < arguments@.len(),
            out@.len() == k,
            forall|j: int| 0 <= j < k ==> (#[trigger] out@[j])@ == arguments@[j]@,
        decreases at - k,
    {
        out.push(clone_bytes(arguments[k].as_slice()));
        k = k + 1;
    }
    assert(text::pieces(out@) =~= all.take(at as int));
    push_descriptors(&mut out, mounts, descriptors);
    let tail = tail_words(arguments, at);
    push_words(&mut out, &tail);
    Some(out)
}

/// What is handed to the sandbox stands before its command, and the rest is kept: the command
/// and its arguments are those that were asked for.
pub proof fn law_brokering_keeps_the_command(
    arguments: Seq<Seq<u8>>,
    mounts: Seq<Seq<u8>>,
    descriptors: Seq<u64>,
)
    requires
        brokered(arguments, mounts, descriptors) is Some,
    ensures
        ({
            let words = brokered(arguments, mounts, descriptors)->0;
            let at = delimiter(arguments)->0;
            let added = descriptor_words(mounts, descriptors).len();
            &&& 0 <= at < arguments.len()
            &&& arguments[at] == text::utf8("--"@)
            &&& words.take(at) == arguments.take(at)
            &&& words.skip((at + added) as int) == arguments.skip(at)
        }),
{
    lemma_delimiter(arguments);
    let at = delimiter(arguments)->0;
    let words = brokered(arguments, mounts, descriptors)->0;
    let added = descriptor_words(mounts, descriptors);
    assert(words.take(at) =~= arguments.take(at));
    assert(words.skip((at + added.len()) as int) =~= arguments.skip(at));
}

proof fn lemma_delimiter(arguments: Seq<Seq<u8>>)
    requires
        delimiter(arguments) is Some,
    ensures
        0 <= delimiter(arguments)->0 < arguments.len(),
        arguments[delimiter(arguments)->0] == text::utf8("--"@),
    decreases arguments.len(),
{
    if arguments[0] != text::utf8("--"@) {
        lemma_delimiter(arguments.skip(1));
    }
}

} // verus!
