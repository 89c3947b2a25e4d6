//! Sealed root filesystems, identified by a digest of their whole tree.

use sha2::{Digest, Sha256};
use vstd::prelude::*;
use vstd::string::StringExecFns;

use crate::path;
use crate::path::{has_components, is_absolute, is_sandbox_path, join};
use crate::process::facts;
use crate::process::facts::{
    DirectoryIdentity, FileFacts, PathReport, ReportModel, validate_read_only_directory,
    validate_sandbox_mount_points,
};
use crate::process::{MAX_SANDBOX_PATH_BYTES, ProcessAdapterError};
use crate::text;
use crate::text::{clone_bytes, is_bytes_before};

verus! {

pub const MAX_ROOT_FILESYSTEM_ENTRIES: usize = 4_096;

pub const MAX_ROOT_FILESYSTEM_FILE_BYTES: u64 = 268_435_456;

pub const MAX_ROOT_FILESYSTEM_TOTAL_BYTES: u64 = 536_870_912;

pub const DIGEST_BYTES: usize = 32;

pub const DIGEST_HEX_BYTES: usize = 64;

// -------------------------------------------------------------------- digest

/// The SHA-256 digest of bytes.
pub uninterp spec fn sha256(bytes: Seq<u8>) -> Seq<u8>;

/// `sha2::Sha256::digest`: the digest of the bytes, all at once.
#[verifier::external_body]
fn sha256_digest(bytes: &[u8]) -> (r: [u8; 32])
    ensures
        r@ == sha256(bytes@),
{
    Sha256::digest(bytes).into()
}

/// SHA-256 identity of one canonical read-only root filesystem tree.
#[derive(Clone, Copy, PartialEq, Eq)]
pub struct RootFilesystemDigest {
    bytes: [u8; 32],
}

impl View for RootFilesystemDigest {
    type V = Seq<u8>;

    closed spec fn view(&self) -> Seq<u8> {
        self.bytes@
    }
}

/// The lowercase hexadecimal digit of a number below sixteen.
pub open spec fn hex_char(n: int) -> char {
    if n < 10 {
        (0x30 + n) as char
    } else {
        (0x57 + n) as char
    }
}

/// The lowercase hexadecimal form of bytes.
pub open spec fn hex(bytes: Seq<u8>) -> Seq<char>
    decreases bytes.len(),
{
    if bytes.len() == 0 {
        Seq::<char>::empty()
    } else {
        hex(bytes.drop_last()).push(hex_char(bytes.last() as int / 16)).push(
            hex_char(bytes.last() as int % 16),
        )
    }
}

/// The number of a lowercase hexadecimal digit.
pub open spec fn hex_number(byte: u8) -> Option<u8> {
    if 0x30 <= byte <= 0x39 {
        Some((byte - 0x30) as u8)
    } else if 0x61 <= byte <= 0x66 {
        Some((byte - 0x57) as u8)
    } else {
        None
    }
}

/// Whether a text writes a digest: 64 lowercase hexadecimal digits.
pub open spec fn writes_digest(text: Seq<u8>, digest: Seq<u8>) -> bool {
    &&& text.len() == DIGEST_HEX_BYTES
    &&& digest.len() == DIGEST_BYTES
    &&& forall|i: int|
        0 <= i < DIGEST_BYTES ==> hex_number(text[2 * i]) is Some && hex_number(
            text[2 * i + 1],
        ) is Some && #[trigger] digest[i] == 16 * hex_number(text[2 * i])->0 + hex_number(
            text[2 * i + 1],
        )->0
}

/// Whether a text is 64 lowercase hexadecimal digits.
pub open spec fn is_digest_text(text: Seq<u8>) -> bool {
    text.len() == DIGEST_HEX_BYTES && forall|i: int|
        0 <= i < text.len() ==> (#[trigger] hex_number(text[i])) is Some
}

fn hex_digit(n: u8) -> (r: &'static str)
    requires
        n < 16,
    ensures
        r@ == seq![hex_char(n as int)],
{
    let r = match n {
        0 => "0",
        1 => "1",
        2 => "2",
        3 => "3",
        4 => "4",
        5 => "5",
        6 => "6",
        7 => "7",
        8 => "8",
        9 => "9",
        10 => "a",
        11 => "b",
        12 => "c",
        13 => "d",
        14 => "e",
        _ => "f",
    };
    proof {
        reveal_strlit("0");
        reveal_strlit("1");
        reveal_strlit("2");
        reveal_strlit("3");
        reveal_strlit("4");
        reveal_strlit("5");
        reveal_strlit("6");
        reveal_strlit("7");
        reveal_strlit("8");
        reveal_strlit("9");
        reveal_strlit("a");
        reveal_strlit("b");
        reveal_strlit("c");
        reveal_strlit("d");
        reveal_strlit("e");
        reveal_strlit("f");
        assert(r@.len() == 1);
        assert(r@[0] == hex_char(n as int));
        assert(r@ =~= seq![hex_char(n as int)]);
    }
    r
}

fn decode_hex(byte: u8) -> (r: Result<u8, ProcessAdapterError>)
    ensures
        hex_number(byte) == (match r {
            Ok(value) => Some(value),
            Err(_) => None,
        }),
        r is Ok ==> r->Ok_0 < 16,
        r is Err ==> r->Err_0 == ProcessAdapterError::InvalidSandbox,
{
    if 0x30 <= byte && byte <= 0x39 {
        Ok(byte - 0x30)
    } else if 0x61 <= byte && byte <= 0x66 {
        Ok(byte - 0x57)
    } else {
        Err(ProcessAdapterError::InvalidSandbox)
    }
}

impl RootFilesystemDigest {
    /// A digest of given bytes.
    #[must_use]
    pub fn from_bytes(bytes: [u8; 32]) -> (r: RootFilesystemDigest)
        ensures
            r@ == bytes@,
    {
        RootFilesystemDigest { bytes }
    }

    /// The bytes of the digest.
    #[must_use]
    pub fn as_bytes(&self) -> (r: &[u8; 32])
        ensures
            r@ == self@,
    {
        &self.bytes
    }

    /// Whether two digests are the same.
    #[must_use]
    pub fn same_as(&self, other: &RootFilesystemDigest) -> (r: bool)
        ensures
            r == (self@ == other@),
    {
        let mut i: usize = 0;
        while i < 32
            invariant
                i <= 32,
                self.bytes@.len() == 32,
                other.bytes@.len() == 32,
                forall|k: int| 0 <= k < i ==> self.bytes@[k] == other.bytes@[k],
            decreases 32 - i,
        {
            if self.bytes[i] != other.bytes[i] {
                assert(self@[i as int] != other@[i as int]);
                return false;
            }
            i = i + 1;
        }
        assert(self@ =~= other@);
        true
    }

    /// The lowercase hexadecimal form.
    #[must_use]
    pub fn display(&self) -> (r: String)
        ensures
            r@ == hex(self@),
    {
        let mut out = "".to_owned();
        let mut i: usize = 0;
        proof {
            reveal_strlit("");
            assert(out@ =~= hex(self@.take(0)));
        }
        while i < 32
            invariant
                i <= 32,
                self.bytes@.len() == 32,
                self@ == self.bytes@,
                out@ == hex(self@.take(i as int)),
            decreases 32 - i,
        {
            let ghost next = self@.take(i + 1);
            assert(next.drop_last() =~= self@.take(i as int));
            assert(next.last() == self.bytes@[i as int]);
            let ghost before = out@;
            out.append(hex_digit(self.bytes[i] / 16));
            out.append(hex_digit(self.bytes[i] % 16));
            assert(out@ =~= hex(next));
            i = i + 1;
        }
        assert(self@.take(i as int) =~= self@);
        out
    }

    /// Reads the lowercase hexadecimal form.
    pub fn parse(value: &str) -> (r: Result<RootFilesystemDigest, ProcessAdapterError>)
        ensures
            r is Ok <==> is_digest_text(text::utf8(value@)),
            r is Ok ==> writes_digest(text::utf8(value@), (r->Ok_0)@),
            r is Err ==> r->Err_0 == ProcessAdapterError::InvalidSandbox,
    {
        let digits = value.as_bytes();
        if digits.len() != DIGEST_HEX_BYTES {
            return Err(ProcessAdapterError::InvalidSandbox);
        }
        let mut bytes: [u8; 32] = [0;32];
        let mut i: usize = 0;
        while i < 32
            invariant
                i <= 32,
                digits@ == text::utf8(value@),
                digits@.len() == 64,
                bytes@.len() == 32,
                forall|k: int| 0 <= k < 2 * i ==> (#[trigger] hex_number(digits@[k])) is Some,
                forall|k: int|
                    0 <= k < i ==> hex_number(digits@[2 * k]) is Some && hex_number(
                        digits@[2 * k + 1],
                    ) is Some && #[trigger] bytes@[k] == 16 * hex_number(digits@[2 * k])->0
                        + hex_number(digits@[2 * k + 1])->0,
            decreases 32 - i,
        {
            let high = match decode_hex(digits[2 * i]) {
                Ok(high) => high,
                Err(error) => {
                    assert(hex_number(digits@[2 * i as int]) is None);
                    return Err(error);
                },
            };
            let low = match decode_hex(digits[2 * i + 1]) {
                Ok(low) => low,
                Err(error) => {
                    assert(hex_number(digits@[2 * i + 1]) is None);
                    return Err(error);
                },
            };
            let ghost before = bytes@;
            bytes[i] = high * 16 + low;
            assert(bytes@ =~= before.update(i as int, (high * 16 + low) as u8));
            i = i + 1;
        }
        Ok(RootFilesystemDigest { bytes })
    }
}

proof fn lemma_hex(bytes: Seq<u8>)
    ensures
        hex(bytes).len() == 2 * bytes.len(),
        forall|i: int|
            0 <= i < bytes.len() ==> hex(bytes)[2 * i] == hex_char(#[trigger] bytes[i] as int / 16)
                && hex(bytes)[2 * i + 1] == hex_char(bytes[i] as int % 16),
        vstd::utf8::is_ascii_chars(hex(bytes)),
    decreases bytes.len(),
{
    if bytes.len() > 0 {
        let shorter = bytes.drop_last();
        lemma_hex(shorter);
        let all = hex(bytes);
        assert forall|i: int| 0 <= i < bytes.len() implies all[2 * i] == hex_char(
            #[trigger] bytes[i] as int / 16,
        ) && all[2 * i + 1] == hex_char(bytes[i] as int % 16) by {
            if i < shorter.len() {
                assert(shorter[i] == bytes[i]);
                assert(all[2 * i] == hex(shorter)[2 * i]);
                assert(all[2 * i + 1] == hex(shorter)[2 * i + 1]);
            }
        }
    }
}

/// The written form of a digest reads back: any digest that the text of another is read as is
/// that other.
pub proof fn law_digests_read_back(digest: Seq<u8>, read: Seq<u8>)
    requires
        digest.len() == DIGEST_BYTES,
    ensures
        is_digest_text(text::utf8(hex(digest))),
        writes_digest(text::utf8(hex(digest)), read) <==> read == digest,
{
    lemma_hex(digest);
    vstd::utf8::is_ascii_chars_encode_utf8(hex(digest));
    let bytes = text::utf8(hex(digest));
    assert forall|i: int| 0 <= i < DIGEST_BYTES implies hex_number(bytes[2 * i]) == Some(
        (#[trigger] digest[i] / 16) as u8,
    ) && hex_number(bytes[2 * i + 1]) == Some((digest[i] % 16) as u8) by {
        assert(bytes[2 * i] == hex(digest)[2 * i] as u8);
        assert(bytes[2 * i + 1] == hex(digest)[2 * i + 1] as u8);
    }
    assert forall|k: int| 0 <= k < bytes.len() implies (#[trigger] hex_number(bytes[k])) is Some by {
        let i = k / 2;
        assert(digest[i] / 16 <= 15);
        assert(k == 2 * i || k == 2 * i + 1);
    }
    if writes_digest(bytes, read) {
        assert forall|i: int| 0 <= i < DIGEST_BYTES implies read[i] == digest[i] by {
            assert(digest[i] / 16 <= 15);
        }
        assert(read =~= digest);
    } else if read == digest {
        assert forall|i: int| 0 <= i < DIGEST_BYTES implies hex_number(bytes[2 * i]) is Some
            && hex_number(bytes[2 * i + 1]) is Some && #[trigger] digest[i] == 16 * hex_number(
            bytes[2 * i],
        )->0 + hex_number(bytes[2 * i + 1])->0 by {
            assert(digest[i] / 16 <= 15);
        }
    }
}

// ---------------------------------------------------------------------- tree

/// What was observed of one entry of a tree.
pub struct TreeEntry {
    /// The path below the root, without a leading `/`.
    pub path: Vec<u8>,
    pub facts: Option<FileFacts>,
    /// The metadata of a file after it was opened.
    pub opened: Option<FileFacts>,
    /// What was read from a file.
    pub contents: Option<Vec<u8>>,
}

/// What was observed of one entry of a tree.
pub struct EntryModel {
    pub path: Seq<u8>,
    pub facts: Option<FileFacts>,
    pub opened: Option<FileFacts>,
    pub contents: Option<Seq<u8>>,
}

impl View for TreeEntry {
    type V = EntryModel;

    open spec fn view(&self) -> EntryModel {
        EntryModel {
            path: self.path@,
            facts: self.facts,
            opened: self.opened,
            contents: match self.contents {
                Some(contents) => Some(contents@),
                None => None,
            },
        }
    }
}

/// What was observed of a list of entries.
pub open spec fn entry_models(entries: Seq<TreeEntry>) -> Seq<EntryModel> {
    entries.map_values(|entry: TreeEntry| entry@)
}

/// Four bytes, most significant first.
pub open spec fn be_u32(n: u32) -> Seq<u8> {
    let v = n as int;
    seq![
        (v / 16777216) as u8,
        (v / 65536 % 256) as u8,
        (v / 256 % 256) as u8,
        (v % 256) as u8,
    ]
}

/// Eight bytes, most significant first.
pub open spec fn be_u64(n: u64) -> Seq<u8> {
    be_u32((n as int / 4294967296) as u32) + be_u32((n as int % 4294967296) as u32)
}

impl EntryModel {
    /// Whether the entry is a directory.
    pub open spec fn is_directory(self) -> bool {
        self.facts is Some && self.facts->0.directory
    }

    /// Whether the entry may stand in a sealed tree: a directory that nobody may write to, or a
    /// file that nobody may write to, that has one name and a bounded length, that was the same
    /// file when it was opened, and that was read whole.
    pub open spec fn sealed(self) -> bool {
        &&& self.path.len() <= MAX_SANDBOX_PATH_BYTES
        &&& self.facts is Some
        &&& !self.facts->0.symlink
        &&& self.facts->0.mode & 0o222 == 0
        &&& self.is_directory() || {
            &&& self.facts->0.regular
            &&& self.facts->0.links == 1
            &&& self.facts->0.length <= MAX_ROOT_FILESYSTEM_FILE_BYTES
            &&& self.opened is Some
            &&& self.opened->0.device == self.facts->0.device
            &&& self.opened->0.inode == self.facts->0.inode
            &&& self.opened->0.length == self.facts->0.length
            &&& self.opened->0.links == 1
            &&& self.opened->0.mode & 0o222 == 0
            &&& self.contents is Some
            &&& self.contents->0.len() == self.facts->0.length
        }
    }

    /// The bytes that a file adds to the tree.
    pub open spec fn weight(self) -> nat {
        if self.facts is Some && !self.is_directory() {
            self.facts->0.length as nat
        } else {
            0
        }
    }

    /// What the entry adds to the measured bytes.
    pub open spec fn measured(self) -> Seq<u8> {
        be_u32(self.path.len() as u32) + self.path + be_u32(self.facts->0.mode & 0o777) + if
            self.is_directory() {
            seq![0x44u8]
        } else {
            seq![0x46u8] + be_u64(self.facts->0.length) + self.contents->0
        }
    }
}

/// The bytes of all files together.
pub open spec fn total_weight(entries: Seq<EntryModel>) -> nat
    decreases entries.len(),
{
    if entries.len() == 0 {
        0
    } else {
        total_weight(entries.drop_last()) + entries.last().weight()
    }
}

/// How many entries come before a path.
pub open spec fn entry_rank(entries: Seq<EntryModel>, path: Seq<u8>) -> int
    decreases entries.len(),
{
    if entries.len() == 0 || !text::bytes_before(entries[0].path, path) {
        0
    } else {
        1 + entry_rank(entries.drop_first(), path)
    }
}

/// The entries in the order of their paths.
pub open spec fn ordered(entries: Seq<EntryModel>) -> Seq<EntryModel>
    decreases entries.len(),
{
    if entries.len() == 0 {
        Seq::<EntryModel>::empty()
    } else {
        let rest = ordered(entries.drop_last());
        rest.insert(entry_rank(rest, entries.last().path), entries.last())
    }
}

/// What entries add to the measured bytes, one after the other.
pub open spec fn measured_entries(entries: Seq<EntryModel>) -> Seq<u8>
    decreases entries.len(),
{
    if entries.len() == 0 {
        Seq::<u8>::empty()
    } else {
        measured_entries(entries.drop_last()) + entries.last().measured()
    }
}

/// What every measurement starts with: `AIOS_ROOTFS_TREE_SHA256_V1` and a NUL byte.
pub open spec fn digest_domain() -> Seq<u8> {
    seq![
        0x41u8, 0x49, 0x4f, 0x53, 0x5f, 0x52, 0x4f, 0x4f, 0x54, 0x46, 0x53, 0x5f, 0x54, 0x52, 0x45,
        0x45, 0x5f, 0x53, 0x48, 0x41, 0x32, 0x35, 0x36, 0x5f, 0x56, 0x31, 0x00,
    ]
}

/// The measured bytes of a tree.
pub open spec fn measured_tree(root: FileFacts, entries: Seq<EntryModel>) -> Seq<u8> {
    digest_domain() + seq![0x52u8] + be_u32(root.mode & 0o777) + measured_entries(ordered(entries))
}

/// Whether a tree can be measured: a sealed root with sealed, bounded contents.
pub open spec fn measurable(root: Option<FileFacts>, entries: Seq<EntryModel>) -> bool {
    &&& facts::read_only(root)
    &&& entries.len() <= MAX_ROOT_FILESYSTEM_ENTRIES
    &&& forall|i: int| 0 <= i < entries.len() ==> (#[trigger] entries[i]).sealed()
    &&& total_weight(entries) <= MAX_ROOT_FILESYSTEM_TOTAL_BYTES
}

fn push_be_u32(out: &mut Vec<u8>, n: u32)
    ensures
        final(out)@ == old(out)@ + be_u32(n),
{
    out.push((n / 16777216) as u8);
    out.push((n / 65536 % 256) as u8);
    out.push((n / 256 % 256) as u8);
    out.push((n % 256) as u8);
    assert(out@ =~= old(out)@ + be_u32(n));
}

fn push_be_u64(out: &mut Vec<u8>, n: u64)
    ensures
        final(out)@ == old(out)@ + be_u64(n),
{
    push_be_u32(out, (n / 4294967296) as u32);
    push_be_u32(out, (n % 4294967296) as u32);
    assert(out@ =~= old(out)@ + be_u64(n));
}

fn push_bytes(out: &mut Vec<u8>, bytes: &Vec<u8>)
    ensures
        final(out)@ == old(out)@ + bytes@,
{
    let mut copy = clone_bytes(bytes.as_slice());
    out.append(&mut copy);
}

impl TreeEntry {
    fn is_sealed(&self) -> (r: bool)
        ensures
            r == self@.sealed(),
    {
        if self.path.len() > MAX_SANDBOX_PATH_BYTES {
            return false;
        }
        let facts = match self.facts {
            Some(facts) => facts,
            None => {
                return false;
            },
        };
        if facts.symlink || facts.mode & 0o222 != 0 {
            return false;
        }
        if facts.directory {
            return true;
        }
        if !facts.regular || facts.links != 1 || facts.length > MAX_ROOT_FILESYSTEM_FILE_BYTES {
            return false;
        }
        match (self.opened, &self.contents) {
            (Some(opened), Some(contents)) => opened.device == facts.device && opened.inode
                == facts.inode && opened.length == facts.length && opened.links == 1 && opened.mode
                & 0o222 == 0 && contents.len() as u64 == facts.length,
            _ => false,
        }
    }

    fn push_measured(&self, out: &mut Vec<u8>)
        requires
            self@.sealed(),
        ensures
            final(out)@ == old(out)@ + self@.measured(),
    {
        let ghost start = out@;
        push_be_u32(out, self.path.len() as u32);
        push_bytes(out, &self.path);
        if let Some(facts) = self.facts {
            push_be_u32(out, facts.mode & 0o777);
            if facts.directory {
                out.push(0x44);
            } else {
                out.push(0x46);
                push_be_u64(out, facts.length);
                if let Some(contents) = &self.contents {
                    push_bytes(out, contents);
                }
            }
        }
        assert(out@ =~= start + self@.measured());
    }
}

proof fn lemma_entry_rank(entries: Seq<EntryModel>, path: Seq<u8>, at: int)
    requires
        0 <= at <= entries.len(),
        forall|k: int| 0 <= k < at ==> text::bytes_before((#[trigger] entries[k]).path, path),
        at < entries.len() ==> !text::bytes_before(entries[at].path, path),
    ensures
        entry_rank(entries, path) == at,
    decreases at,
{
    if at > 0 {
        assert(text::bytes_before(entries[0].path, path));
        let rest = entries.drop_first();
        assert forall|k: int| 0 <= k < at - 1 implies text::bytes_before(
            (#[trigger] rest[k]).path,
            path,
        ) by {
            assert(rest[k] == entries[k + 1]);
        }
        lemma_entry_rank(rest, path, at - 1);
    }
}

proof fn lemma_rank_bounds(entries: Seq<EntryModel>, path: Seq<u8>)
    ensures
        0 <= entry_rank(entries, path) <= entries.len(),
        forall|k: int|
            0 <= k < entry_rank(entries, path) ==> text::bytes_before(
                (#[trigger] entries[k]).path,
                path,
            ),
        entry_rank(entries, path) < entries.len() ==> !text::bytes_before(
            entries[entry_rank(entries, path)].path,
            path,
        ),
    decreases entries.len(),
{
    if entries.len() > 0 && text::bytes_before(entries[0].path, path) {
        let rest = entries.drop_first();
        lemma_rank_bounds(rest, path);
        assert forall|k: int| 0 <= k < entry_rank(entries, path) implies text::bytes_before(
            (#[trigger] entries[k]).path,
            path,
        ) by {
            if k > 0 {
                assert(rest[k - 1] == entries[k]);
            }
        }
    }
}

/// The positions of entries in the order of their paths.
fn order_entries(entries: &Vec<TreeEntry>) -> (r: Vec<usize>)
    ensures
        r@.len() == entries@.len(),
        forall|k: int|
            0 <= k < r@.len() ==> 0 <= #[trigger] r@[k] < entries@.len(),
        positions(entry_models(entries@), r@) == ordered(entry_models(entries@)),
{
    let ghost all = entry_models(entries@);
    let mut order: Vec<usize> = Vec::new();
    let mut i: usize = 0;
    assert(positions(all, order@) =~= ordered(all.take(0)));
    while i < entries.len()
        invariant
            i <= entries@.len(),
            all == entry_models(entries@),
            order@.len() == i,
            forall|k: int| 0 <= k < order@.len() ==> 0 <= #[trigger] order@[k] < entries@.len(),
            positions(all, order@) == ordered(all.take(i as int)),
        decreases entries@.len() - i,
    {
        let ghost rest = positions(all, order@);
        let ghost added = all[i as int];
        assert(added == entries@[i as int]@);
        let mut at: usize = 0;
        while at < order.len() && is_bytes_before(
            entries[order[at]].path.as_slice(),
            entries[i].path.as_slice(),
        )
            invariant
                i < entries@.len(),
                at <= order@.len(),
                all == entry_models(entries@),
                added == entries@[i as int]@,
                forall|k: int| 0 <= k < order@.len() ==> 0 <= #[trigger] order@[k] < entries@.len(),
                rest == positions(all, order@),
                forall|k: int|
                    0 <= k < at ==> text::bytes_before((#[trigger] rest[k]).path, added.path),
            decreases order@.len() - at,
        {
            assert(rest[at as int] == entries@[order@[at as int] as int]@);
            at = at + 1;
        }
        proof {
            if at < rest.len() {
                assert(rest[at as int] == entries@[order@[at as int] as int]@);
            }
            lemma_entry_rank(rest, added.path, at as int);
            let next = all.take(i + 1);
            assert(next.drop_last() =~= all.take(i as int));
            assert(next.last() == added);
        }
        let ghost before = order@;
        proof {
            before.insert_ensures(at as int, i);
            rest.insert_ensures(at as int, added);
        }
        order.insert(at, i);
        proof {
            assert(positions(all, order@) =~= rest.insert(at as int, added)) by {
                assert forall|k: int| 0 <= k < order@.len() implies positions(all, order@)[k]
                    == rest.insert(at as int, added)[k] by {
                    if k < at {
                        assert(order@[k] == before[k]);
                    } else if k > at {
                        assert(order@[k] == before[k - 1]);
                    }
                }
            }
            assert forall|k: int| 0 <= k < order@.len() implies 0 <= #[trigger] order@[k]
                < entries@.len() by {
                if k < at {
                    assert(order@[k] == before[k]);
                } else if k > at {
                    assert(order@[k] == before[k - 1]);
                }
            }
        }
        i = i + 1;
    }
    assert(all.take(i as int) =~= all);
    order
}

/// The entries at some positions.
pub open spec fn positions(entries: Seq<EntryModel>, order: Seq<usize>) -> Seq<EntryModel> {
    order.map_values(|k: usize| entries[k as int])
}

/// Measures a tree from what was observed of it.
pub fn measure_tree(root: Option<FileFacts>, entries: &Vec<TreeEntry>) -> (r: Result<
    RootFilesystemDigest,
    ProcessAdapterError,
>)
    ensures
        r is Ok <==> measurable(root, entry_models(entries@)),
        r is Ok ==> (r->Ok_0)@ == sha256(measured_tree(root->0, entry_models(entries@))),
        r is Err ==> r->Err_0 == ProcessAdapterError::InvalidSandbox,
{
    let ghost all = entry_models(entries@);
    if let Err(error) = validate_read_only_directory(root) {
        return Err(error);
    }
    if entries.len() > MAX_ROOT_FILESYSTEM_ENTRIES {
        return Err(ProcessAdapterError::InvalidSandbox);
    }
    let mut total: u64 = 0;
    let mut i: usize = 0;
    assert(all.take(0) =~= Seq::<EntryModel>::empty());
    while i < entries.len()
        invariant
            i <= entries@.len(),
            all == entry_models(entries@),
            total == total_weight(all.take(i as int)),
            total <= MAX_ROOT_FILESYSTEM_TOTAL_BYTES,
            forall|k: int| 0 <= k < i ==> (#[trigger] all[k]).sealed(),
        decreases entries@.len() - i,
    {
        let ghost next = all.take(i + 1);
        proof {
            assert(all[i as int] == entries@[i as int]@);
            assert(next.drop_last() =~= all.take(i as int));
            assert(next.last() == all[i as int]);
        }
        if !entries[i].is_sealed() {
            return Err(ProcessAdapterError::InvalidSandbox);
        }
        if let Some(facts) = entries[i].facts {
            if !facts.directory {
                total = total + facts.length;
            }
        }
        if total > MAX_ROOT_FILESYSTEM_TOTAL_BYTES {
            proof {
                lemma_weight_prefix(all, i + 1);
            }
            return Err(ProcessAdapterError::InvalidSandbox);
        }
        i = i + 1;
    }
    assert(all.take(i as int) =~= all);
    let mut bytes: Vec<u8> = vec![
        0x41, 0x49, 0x4f, 0x53, 0x5f, 0x52, 0x4f, 0x4f, 0x54, 0x46, 0x53, 0x5f, 0x54, 0x52, 0x45,
        0x45, 0x5f, 0x53, 0x48, 0x41, 0x32, 0x35, 0x36, 0x5f, 0x56, 0x31, 0x00,
    ];
    assert(bytes@ =~= digest_domain());
    bytes.push(0x52);
    if let Some(facts) = root {
        push_be_u32(&mut bytes, facts.mode & 0o777);
    }
    let ghost head = digest_domain() + seq![0x52u8] + be_u32(root->0.mode & 0o777);
    assert(bytes@ =~= head);
    let order = order_entries(entries);
    let ghost sorted = ordered(all);
    let mut k: usize = 0;
    assert(bytes@ =~= head + measured_entries(sorted.take(0)));
    while k < order.len()
        invariant
            k <= order@.len(),
            order@.len() == entries@.len(),
            all == entry_models(entries@),
            sorted == positions(all, order@),
            forall|j: int| 0 <= j < order@.len() ==> 0 <= #[trigger] order@[j] < entries@.len(),
            forall|j: int| 0 <= j < all.len() ==> (#[trigger] all[j]).sealed(),
            bytes@ == head + measured_entries(sorted.take(k as int)),
        decreases order@.len() - k,
    {
        let ghost next = sorted.take(k + 1);
        let ghost before = bytes@;
        proof {
            assert(all[order@[k as int] as int] == entries@[order@[k as int] as int]@);
            assert(next.drop_last() =~= sorted.take(k as int));
            assert(next.last() == all[order@[k as int] as int]);
        }
        entries[order[k]].push_measured(&mut bytes);
        assert(bytes@ =~= head + measured_entries(next));
        k = k + 1;
    }
    assert(sorted.take(k as int) =~= sorted);
    assert(bytes@ == measured_tree(root->0, all));
    Ok(RootFilesystemDigest { bytes: sha256_digest(bytes.as_slice()) })
}

proof fn lemma_weight_prefix(entries: Seq<EntryModel>, n: int)
    requires
        0 <= n <= entries.len(),
    ensures
        total_weight(entries.take(n)) <= total_weight(entries),
    decreases entries.len(),
{
    if n == entries.len() {
        assert(entries.take(n) =~= entries);
    } else {
        lemma_weight_prefix(entries.drop_last(), n);
        assert(entries.drop_last().take(n) =~= entries.take(n));
    }
}

/// Whether no two entries have the same path.
pub open spec fn distinct_paths(entries: Seq<EntryModel>) -> bool {
    forall|i: int, j: int|
        0 <= i < j < entries.len() ==> (#[trigger] entries[i]).path != (#[trigger] entries[j]).path
}

/// Whether entries stand in the order of their paths.
pub open spec fn in_path_order(entries: Seq<EntryModel>) -> bool {
    forall|i: int, j: int|
        0 <= i < j < entries.len() ==> text::bytes_before(
            (#[trigger] entries[i]).path,
            (#[trigger] entries[j]).path,
        )
}

proof fn lemma_ordered(entries: Seq<EntryModel>)
    requires
        distinct_paths(entries),
    ensures
        ordered(entries).to_multiset() == entries.to_multiset(),
        in_path_order(ordered(entries)),
    decreases entries.len(),
{
    broadcast use vstd::seq_lib::group_to_multiset_ensures;

    if entries.len() == 0 {
        assert(entries =~= Seq::<EntryModel>::empty());
    } else {
        let shorter = entries.drop_last();
        let added = entries.last();
        assert(distinct_paths(shorter)) by {
            assert forall|i: int, j: int| 0 <= i < j < shorter.len() implies (
            #[trigger] shorter[i]).path != (#[trigger] shorter[j]).path by {
                assert(entries[i].path != entries[j].path);
            }
        }
        lemma_ordered(shorter);
        let rest = ordered(shorter);
        lemma_rank_bounds(rest, added.path);
        let at = entry_rank(rest, added.path);
        let all = rest.insert(at, added);
        rest.insert_ensures(at, added);
        assert(all.remove(at) =~= rest);
        assert(all[at] == added);
        assert(all.contains(added));
        assert(all.to_multiset().remove(added) == rest.to_multiset());
        assert(all.to_multiset() =~= rest.to_multiset().insert(added));
        assert(shorter.push(added) =~= entries);
        assert forall|k: int| at <= k < rest.len() implies text::bytes_before(
            added.path,
            (#[trigger] rest[k]).path,
        ) by {
            assert(rest.contains(rest[at]));
            assert(shorter.to_multiset().count(rest[at]) > 0);
            assert(shorter.contains(rest[at]));
            let j = choose|j: int| 0 <= j < shorter.len() && shorter[j] == rest[at];
            assert(entries[j] == rest[at]);
            assert(entries[j].path != entries[entries.len() - 1].path);
            text::lemma_bytes_before_total(rest[at].path, added.path);
            if k > at {
                text::lemma_bytes_before_transitive(added.path, rest[at].path, rest[k].path);
            }
        }
        assert forall|i: int, j: int| 0 <= i < j < all.len() implies text::bytes_before(
            (#[trigger] all[i]).path,
            (#[trigger] all[j]).path,
        ) by {
            if j < at {
                assert(all[i] == rest[i] && all[j] == rest[j]);
            } else if j == at {
                assert(all[i] == rest[i]);
            } else if i < at {
                assert(all[i] == rest[i] && all[j] == rest[j - 1]);
            } else if i == at {
                assert(all[j] == rest[j - 1]);
            } else {
                assert(all[i] == rest[i - 1] && all[j] == rest[j - 1]);
            }
        }
    }
}

proof fn lemma_order_unique(x: Seq<EntryModel>, y: Seq<EntryModel>)
    requires
        in_path_order(x),
        in_path_order(y),
        x.to_multiset() == y.to_multiset(),
    ensures
        x == y,
    decreases x.len(),
{
    broadcast use vstd::seq_lib::group_to_multiset_ensures;

    assert(x.to_multiset().len() == x.len());
    assert(y.to_multiset().len() == y.len());
    assert(x.len() == y.len());
    if x.len() > 0 {
        let n = x.len() - 1;
        let a = x[n];
        let b = y[n];
        assert(x.contains(a) && y.contains(b));
        assert(x.to_multiset().count(b) > 0);
        assert(y.to_multiset().count(a) > 0);
        let i = choose|i: int| 0 <= i < x.len() && x[i] == b;
        let j = choose|j: int| 0 <= j < y.len() && y[j] == a;
        if a != b {
            assert(i < n && j < n);
            assert(text::bytes_before(x[i].path, x[n].path));
            assert(text::bytes_before(y[j].path, y[n].path));
            text::lemma_bytes_before_transitive(a.path, b.path, a.path);
            text::lemma_bytes_before_irreflexive(a.path);
        }
        assert(x.remove(n) =~= x.drop_last());
        assert(y.remove(n) =~= y.drop_last());
        assert(x.drop_last().to_multiset() == x.to_multiset().remove(a));
        assert(y.drop_last().to_multiset() == y.to_multiset().remove(b));
        lemma_order_unique(x.drop_last(), y.drop_last());
        assert(x =~= x.drop_last().push(a));
        assert(y =~= y.drop_last().push(b));
    } else {
        assert(x =~= y);
    }
}

/// A measurement is canonical: it does not depend on the order in which a tree was walked.
pub proof fn law_measurements_are_canonical(
    root: FileFacts,
    a: Seq<EntryModel>,
    b: Seq<EntryModel>,
)
    requires
        distinct_paths(a),
        distinct_paths(b),
        a.to_multiset() == b.to_multiset(),
    ensures
        measured_tree(root, a) == measured_tree(root, b),
{
    lemma_ordered(a);
    lemma_ordered(b);
    lemma_order_unique(ordered(a), ordered(b));
}

/// What a measurement sees of an entry.
#[verifier::ext_equal]
pub struct NodeModel {
    /// The path below the root.
    pub path: Seq<u8>,
    pub directory: bool,
    /// The permission bits.
    pub mode: u32,
    /// The bytes of a file; none for a directory.
    pub contents: Seq<u8>,
}

impl NodeModel {
    /// Whether the node is within the bounds of a sealed tree.
    pub open spec fn bounded(self) -> bool {
        &&& self.path.len() <= MAX_SANDBOX_PATH_BYTES
        &&& self.contents.len() <= MAX_ROOT_FILESYSTEM_FILE_BYTES
        &&& self.directory ==> self.contents.len() == 0
    }

    /// What the node adds to the measured bytes.
    pub open spec fn measured(self) -> Seq<u8> {
        be_u32(self.path.len() as u32) + self.path + be_u32(self.mode) + if self.directory {
            seq![0x44u8]
        } else {
            seq![0x46u8] + be_u64(self.contents.len() as u64) + self.contents
        }
    }
}

impl EntryModel {
    /// What a measurement sees of the entry.
    pub open spec fn node(self) -> NodeModel {
        NodeModel {
            path: self.path,
            directory: self.is_directory(),
            mode: self.facts->0.mode & 0o777,
            contents: if self.is_directory() {
                Seq::<u8>::empty()
            } else {
                self.contents->0
            },
        }
    }
}

/// What a measurement sees of entries, one after the other.
pub open spec fn nodes(entries: Seq<EntryModel>) -> Seq<NodeModel> {
    entries.map_values(|entry: EntryModel| entry.node())
}

/// What a measurement sees of a tree, whatever the order of its entries.
pub open spec fn tree_of(entries: Seq<EntryModel>) -> Set<NodeModel> {
    nodes(entries).to_set()
}

/// What nodes add to the measured bytes, one after the other.
pub open spec fn measured_nodes(list: Seq<NodeModel>) -> Seq<u8>
    decreases list.len(),
{
    if list.len() == 0 {
        Seq::<u8>::empty()
    } else {
        list[0].measured() + measured_nodes(list.drop_first())
    }
}

proof fn lemma_be_u32_injective(a: u32, b: u32)
    requires
        be_u32(a) == be_u32(b),
    ensures
        a == b,
{
    assert(be_u32(a)[0] == be_u32(b)[0]);
    assert(be_u32(a)[1] == be_u32(b)[1]);
    assert(be_u32(a)[2] == be_u32(b)[2]);
    assert(be_u32(a)[3] == be_u32(b)[3]);
}

proof fn lemma_be_u64_injective(a: u64, b: u64)
    requires
        be_u64(a) == be_u64(b),
    ensures
        a == b,
{
    assert(be_u64(a).take(4) =~= be_u32((a as int / 4294967296) as u32));
    assert(be_u64(b).take(4) =~= be_u32((b as int / 4294967296) as u32));
    assert(be_u64(a).skip(4) =~= be_u32((a as int % 4294967296) as u32));
    assert(be_u64(b).skip(4) =~= be_u32((b as int % 4294967296) as u32));
    lemma_be_u32_injective((a as int / 4294967296) as u32, (b as int / 4294967296) as u32);
    lemma_be_u32_injective((a as int % 4294967296) as u32, (b as int % 4294967296) as u32);
}

/// What a node adds to the measured bytes tells the node, and where the bytes of the next begin.
proof fn lemma_node_reads_back(s: NodeModel, x: Seq<u8>, t: NodeModel, y: Seq<u8>)
    requires
        s.bounded(),
        t.bounded(),
        s.measured() + x == t.measured() + y,
    ensures
        s == t,
        x == y,
{
    let a = s.measured() + x;
    let b = t.measured() + y;
    assert(a.take(4) =~= be_u32(s.path.len() as u32));
    assert(b.take(4) =~= be_u32(t.path.len() as u32));
    lemma_be_u32_injective(s.path.len() as u32, t.path.len() as u32);
    let l = s.path.len() as int;
    assert(t.path.len() == l);
    assert(a.subrange(4, 4 + l) =~= s.path);
    assert(b.subrange(4, 4 + l) =~= t.path);
    assert(a.subrange(4 + l, 8 + l) =~= be_u32(s.mode));
    assert(b.subrange(4 + l, 8 + l) =~= be_u32(t.mode));
    lemma_be_u32_injective(s.mode, t.mode);
    assert(a[8 + l] == (if s.directory {
        0x44u8
    } else {
        0x46u8
    }));
    assert(b[8 + l] == (if t.directory {
        0x44u8
    } else {
        0x46u8
    }));
    assert(s.directory == t.directory);
    if s.directory {
        assert(a.skip(9 + l) =~= x);
        assert(b.skip(9 + l) =~= y);
        assert(s.contents =~= t.contents);
    } else {
        assert(a.subrange(9 + l, 17 + l) =~= be_u64(s.contents.len() as u64));
        assert(b.subrange(9 + l, 17 + l) =~= be_u64(t.contents.len() as u64));
        lemma_be_u64_injective(s.contents.len() as u64, t.contents.len() as u64);
        let n = s.contents.len() as int;
        assert(t.contents.len() == n);
        assert(a.subrange(17 + l, 17 + l + n) =~= s.contents);
        assert(b.subrange(17 + l, 17 + l + n) =~= t.contents);
        assert(a.skip(17 + l + n) =~= x);
        assert(b.skip(17 + l + n) =~= y);
    }
    assert(s =~= t);
}

proof fn lemma_nodes_read_back(a: Seq<NodeModel>, b: Seq<NodeModel>)
    requires
        forall|i: int| 0 <= i < a.len() ==> (#[trigger] a[i]).bounded(),
        forall|i: int| 0 <= i < b.len() ==> (#[trigger] b[i]).bounded(),
        measured_nodes(a) == measured_nodes(b),
    ensures
        a == b,
    decreases a.len(),
{
    if a.len() == 0 || b.len() == 0 {
        if a.len() > 0 {
            assert(measured_nodes(a).len() > 0);
        }
        if b.len() > 0 {
            assert(measured_nodes(b).len() > 0);
        }
        assert(a =~= b);
    } else {
        lemma_node_reads_back(
            a[0],
            measured_nodes(a.drop_first()),
            b[0],
            measured_nodes(b.drop_first()),
        );
        lemma_nodes_read_back(a.drop_first(), b.drop_first());
        assert(a =~= seq![a[0]] + a.drop_first());
        assert(b =~= seq![b[0]] + b.drop_first());
    }
}

proof fn lemma_measured_nodes_push(list: Seq<NodeModel>, last: NodeModel)
    ensures
        measured_nodes(list.push(last)) == measured_nodes(list) + last.measured(),
    decreases list.len(),
{
    let longer = list.push(last);
    if list.len() == 0 {
        assert(longer.drop_first() =~= Seq::<NodeModel>::empty());
        assert(measured_nodes(longer.drop_first()) =~= Seq::<u8>::empty());
        assert(measured_nodes(longer) =~= measured_nodes(list) + last.measured());
    } else {
        lemma_measured_nodes_push(list.drop_first(), last);
        assert(longer.drop_first() =~= list.drop_first().push(last));
        assert(measured_nodes(longer) =~= measured_nodes(list) + last.measured());
    }
}

/// The measured bytes of sealed entries are those of what a measurement sees of them.
proof fn lemma_measured_as_nodes(entries: Seq<EntryModel>)
    requires
        forall|i: int| 0 <= i < entries.len() ==> (#[trigger] entries[i]).sealed(),
    ensures
        measured_entries(entries) == measured_nodes(nodes(entries)),
        forall|i: int| 0 <= i < nodes(entries).len() ==> (#[trigger] nodes(entries)[i]).bounded(),
    decreases entries.len(),
{
    if entries.len() == 0 {
        assert(nodes(entries) =~= Seq::<NodeModel>::empty());
    } else {
        let rest = entries.drop_last();
        let last = entries.last();
        assert(last.sealed());
        assert forall|i: int| 0 <= i < rest.len() implies (#[trigger] rest[i]).sealed() by {
            assert(entries[i].sealed());
        }
        lemma_measured_as_nodes(rest);
        assert(nodes(entries) =~= nodes(rest).push(last.node()));
        lemma_measured_nodes_push(nodes(rest), last.node());
        assert(last.measured() =~= last.node().measured());
    }
    assert forall|i: int| 0 <= i < nodes(entries).len() implies (
    #[trigger] nodes(entries)[i]).bounded() by {
        assert(entries[i].sealed());
    }
}

/// Whether nodes stand in the order of their paths.
pub open spec fn nodes_in_order(list: Seq<NodeModel>) -> bool {
    forall|i: int, j: int|
        0 <= i < j < list.len() ==> text::bytes_before(
            (#[trigger] list[i]).path,
            (#[trigger] list[j]).path,
        )
}

proof fn lemma_nodes_unique(x: Seq<NodeModel>, y: Seq<NodeModel>)
    requires
        nodes_in_order(x),
        nodes_in_order(y),
        x.to_set() == y.to_set(),
    ensures
        x == y,
    decreases x.len(),
{
    if x.len() == 0 || y.len() == 0 {
        if x.len() > 0 {
            assert(x.to_set().contains(x[0]));
            assert(y.to_set().contains(x[0]));
        }
        if y.len() > 0 {
            assert(y.to_set().contains(y[0]));
            assert(x.to_set().contains(y[0]));
        }
        assert(x =~= y);
    } else {
        let a = x.last();
        let b = y.last();
        assert(x.to_set().contains(x[x.len() - 1]));
        assert(y.to_set().contains(y[y.len() - 1]));
        assert(y.to_set().contains(a) && x.to_set().contains(b));
        let i = choose|i: int| 0 <= i < x.len() && x[i] == b;
        let j = choose|j: int| 0 <= j < y.len() && y[j] == a;
        if a != b {
            assert(text::bytes_before(x[i].path, x[x.len() - 1].path));
            assert(text::bytes_before(y[j].path, y[y.len() - 1].path));
            text::lemma_bytes_before_transitive(a.path, b.path, a.path);
            text::lemma_bytes_before_irreflexive(a.path);
        }
        lemma_shorter_set(x);
        lemma_shorter_set(y);
        assert(nodes_in_order(x.drop_last()));
        assert(nodes_in_order(y.drop_last()));
        lemma_nodes_unique(x.drop_last(), y.drop_last());
        assert(x =~= x.drop_last().push(a));
        assert(y =~= y.drop_last().push(b));
    }
}

proof fn lemma_shorter_set(x: Seq<NodeModel>)
    requires
        nodes_in_order(x),
        x.len() > 0,
    ensures
        x.drop_last().to_set() == x.to_set().remove(x.last()),
{
    let rest = x.drop_last();
    assert forall|s: NodeModel| x.to_set().remove(x.last()).contains(s) implies rest.to_set().contains(
        s,
    ) by {
        assert(x.to_set().contains(s));
        let i = choose|i: int| 0 <= i < x.len() && x[i] == s;
        assert(rest[i] == s);
    }
    assert forall|s: NodeModel| rest.to_set().contains(s) implies x.to_set().remove(
        x.last(),
    ).contains(s) by {
        let i = choose|i: int| 0 <= i < rest.len() && rest[i] == s;
        assert(x[i] == s);
        assert(text::bytes_before(x[i].path, x[x.len() - 1].path));
        text::lemma_bytes_before_irreflexive(s.path);
    }
    assert(rest.to_set() =~= x.to_set().remove(x.last()));
}

/// Ordering a tree keeps what a measurement sees of it.
proof fn lemma_ordered_nodes(entries: Seq<EntryModel>)
    requires
        distinct_paths(entries),
        forall|i: int| 0 <= i < entries.len() ==> (#[trigger] entries[i]).sealed(),
    ensures
        nodes(ordered(entries)).to_set() == tree_of(entries),
        nodes_in_order(nodes(ordered(entries))),
        forall|i: int|
            0 <= i < ordered(entries).len() ==> (#[trigger] ordered(entries)[i]).sealed(),
{
    broadcast use vstd::seq_lib::group_to_multiset_ensures;

    lemma_ordered(entries);
    let sorted = ordered(entries);
    assert forall|i: int| 0 <= i < sorted.len() implies (#[trigger] sorted[i]).sealed()
        && entries.contains(sorted[i]) by {
        assert(sorted.contains(sorted[i]));
        assert(entries.to_multiset().count(sorted[i]) > 0);
        assert(entries.contains(sorted[i]));
    }
    assert forall|s: NodeModel| nodes(sorted).to_set().contains(s) implies tree_of(
        entries,
    ).contains(s) by {
        let i = choose|i: int| 0 <= i < nodes(sorted).len() && nodes(sorted)[i] == s;
        assert(entries.contains(sorted[i]));
        let j = choose|j: int| 0 <= j < entries.len() && entries[j] == sorted[i];
        assert(nodes(entries)[j] == s);
    }
    assert forall|s: NodeModel| tree_of(entries).contains(s) implies nodes(
        sorted,
    ).to_set().contains(s) by {
        let i = choose|i: int| 0 <= i < nodes(entries).len() && nodes(entries)[i] == s;
        assert(entries.contains(entries[i]));
        assert(sorted.to_multiset().count(entries[i]) > 0);
        assert(sorted.contains(entries[i]));
        let j = choose|j: int| 0 <= j < sorted.len() && sorted[j] == entries[i];
        assert(nodes(sorted)[j] == s);
    }
    assert(nodes(sorted).to_set() =~= tree_of(entries));
    assert forall|i: int, j: int| 0 <= i < j < nodes(sorted).len() implies text::bytes_before(
        (#[trigger] nodes(sorted)[i]).path,
        (#[trigger] nodes(sorted)[j]).path,
    ) by {
        assert(text::bytes_before(sorted[i].path, sorted[j].path));
    }
}

/// What stands before the entries tells the permission bits of the root.
proof fn lemma_root_reads_back(start: Seq<u8>, m: u32, x: Seq<u8>, n: u32, y: Seq<u8>)
    requires
        start + be_u32(m) + x == start + be_u32(n) + y,
    ensures
        m == n,
        x == y,
{
    let a = start + be_u32(m) + x;
    let b = start + be_u32(n) + y;
    let l = start.len() as int;
    assert(a.subrange(l, l + 4) =~= be_u32(m));
    assert(b.subrange(l, l + 4) =~= be_u32(n));
    assert(a.skip(l + 4) =~= x);
    assert(b.skip(l + 4) =~= y);
    lemma_be_u32_injective(m, n);
}

/// A measurement tells trees apart: two trees that can be measured have the same measured bytes
/// exactly where the permission bits of their roots are the same and they hold the same paths,
/// each with the same kind, permission bits and contents. So neither the place of the root nor
/// the order of a walk nor any other fact of a file matters.
pub proof fn law_measurements_tell_trees_apart(
    r1: FileFacts,
    a: Seq<EntryModel>,
    r2: FileFacts,
    b: Seq<EntryModel>,
)
    requires
        measurable(Some(r1), a),
        measurable(Some(r2), b),
        distinct_paths(a),
        distinct_paths(b),
    ensures
        measured_tree(r1, a) == measured_tree(r2, b) <==> r1.mode & 0o777 == r2.mode & 0o777
            && tree_of(a) == tree_of(b),
{
    lemma_ordered_nodes(a);
    lemma_ordered_nodes(b);
    lemma_measured_as_nodes(ordered(a));
    lemma_measured_as_nodes(ordered(b));
    if measured_tree(r1, a) == measured_tree(r2, b) {
        lemma_root_reads_back(
            digest_domain() + seq![0x52u8],
            r1.mode & 0o777,
            measured_entries(ordered(a)),
            r2.mode & 0o777,
            measured_entries(ordered(b)),
        );
        lemma_nodes_read_back(nodes(ordered(a)), nodes(ordered(b)));
    }
    if tree_of(a) == tree_of(b) {
        lemma_nodes_unique(nodes(ordered(a)), nodes(ordered(b)));
    }
}

/// A digest tells trees apart wherever SHA-256 tells their measured bytes apart.
pub proof fn law_digests_tell_trees_apart(
    r1: FileFacts,
    a: Seq<EntryModel>,
    r2: FileFacts,
    b: Seq<EntryModel>,
)
    requires
        measurable(Some(r1), a),
        measurable(Some(r2), b),
        distinct_paths(a),
        distinct_paths(b),
        sha256(measured_tree(r1, a)) == sha256(measured_tree(r2, b)) ==> measured_tree(r1, a)
            == measured_tree(r2, b),
    ensures
        sha256(measured_tree(r1, a)) == sha256(measured_tree(r2, b)) <==> r1.mode & 0o777
            == r2.mode & 0o777 && tree_of(a) == tree_of(b),
{
    law_measurements_tell_trees_apart(r1, a, r2, b);
}

// ---------------------------------------------------------------------- walk

/// Counts the entries that a walk of a tree came by.
pub struct TreeWalk {
    count: usize,
}

/// Whether one more entry may stand in a tree that has some already.
pub open spec fn may_be_taken_in(path: Seq<u8>, facts: Option<FileFacts>, taken: nat) -> bool {
    path.len() <= MAX_SANDBOX_PATH_BYTES && facts is Some && !facts->0.symlink && (
    facts->0.directory || facts->0.regular) && taken < MAX_ROOT_FILESYSTEM_ENTRIES
}

impl TreeWalk {
    /// How many entries were taken in.
    pub closed spec fn taken(&self) -> nat {
        self.count as nat
    }

    /// A walk that came by nothing yet.
    #[must_use]
    pub fn new() -> (r: TreeWalk)
        ensures
            r.taken() == 0,
    {
        TreeWalk { count: 0 }
    }

    /// Takes in an entry, and says whether to descend into it.
    pub fn take_in(&mut self, path: &[u8], facts: Option<FileFacts>) -> (r: Result<
        bool,
        ProcessAdapterError,
    >)
        ensures
            r is Ok <==> may_be_taken_in(path@, facts, old(self).taken()),
            r is Ok ==> r->Ok_0 == facts->0.directory && final(self).taken() == old(
                self,
            ).taken() + 1,
            r is Err ==> r->Err_0 == ProcessAdapterError::InvalidSandbox && final(self).taken()
                == old(self).taken(),
    {
        if path.len() > MAX_SANDBOX_PATH_BYTES || self.count >= MAX_ROOT_FILESYSTEM_ENTRIES {
            return Err(ProcessAdapterError::InvalidSandbox);
        }
        match facts {
            Some(facts) => {
                if facts.symlink || (!facts.directory && !facts.regular) {
                    return Err(ProcessAdapterError::InvalidSandbox);
                }
                self.count = self.count + 1;
                Ok(facts.directory)
            },
            None => Err(ProcessAdapterError::InvalidSandbox),
        }
    }
}

// ------------------------------------------------------------------ verified

/// Where a configured read-only root leads, if it may be measured: a real, absolute, bounded,
/// read-only directory other than the filesystem root.
pub open spec fn usable_read_only_root(path: Seq<u8>, report: ReportModel) -> Option<Seq<u8>> {
    match report.canonical {
        None => None,
        Some(canonical) => if path::absolute(path) && path.len() <= MAX_SANDBOX_PATH_BYTES
            && facts::read_only(report.entry) && path::components(canonical).len() > 0 {
            Some(canonical)
        } else {
            None
        },
    }
}

fn canonical_read_only_root(path: &[u8], report: &PathReport) -> (r: Result<
    Vec<u8>,
    ProcessAdapterError,
>)
    ensures
        usable_read_only_root(path@, report@) == (match r {
            Ok(root) => Some(root@),
            Err(_) => None,
        }),
        r is Err ==> r->Err_0 == ProcessAdapterError::InvalidSandbox,
{
    if !is_absolute(path) || path.len() > MAX_SANDBOX_PATH_BYTES {
        return Err(ProcessAdapterError::InvalidSandbox);
    }
    if let Err(error) = validate_read_only_directory(report.entry) {
        return Err(error);
    }
    match &report.canonical {
        Some(canonical) => {
            if has_components(canonical.as_slice()) {
                Ok(clone_bytes(canonical.as_slice()))
            } else {
                Err(ProcessAdapterError::InvalidSandbox)
            }
        },
        None => Err(ProcessAdapterError::InvalidSandbox),
    }
}

impl RootFilesystemDigest {
    /// Measures a sealed tree. The returned value must be pinned outside that tree before it is
    /// later used as a trust anchor for [`VerifiedRootFilesystem::open`].
    pub fn measure(directory: &[u8], report: &PathReport, entries: &Vec<TreeEntry>) -> (r: Result<
        RootFilesystemDigest,
        ProcessAdapterError,
    >)
        ensures
            r is Ok <==> usable_read_only_root(directory@, report@) is Some && measurable(
                report.target,
                entry_models(entries@),
            ),
            r is Ok ==> (r->Ok_0)@ == sha256(
                measured_tree(report.target->0, entry_models(entries@)),
            ),
            r is Err ==> r->Err_0 == ProcessAdapterError::InvalidSandbox,
    {
        match canonical_read_only_root(directory, report) {
            Ok(_) => measure_tree(report.target, entries),
            Err(error) => Err(error),
        }
    }
}

/// What a verified root filesystem is.
pub struct RootModel {
    pub directory: Seq<u8>,
    pub digest: Seq<u8>,
    pub identity: DirectoryIdentity,
}

impl RootModel {
    /// Whether the tree is still the one that was verified: the same read-only directory, with
    /// the same digest.
    pub open spec fn intact(self, now: Option<FileFacts>, entries: Seq<EntryModel>) -> bool {
        &&& facts::read_only(now)
        &&& facts::directory_identity(now) == Some(self.identity)
        &&& measurable(now, entries)
        &&& sha256(measured_tree(now->0, entries)) == self.digest
    }
}

/// Root filesystem tree verified against a digest pinned by trusted configuration.
///
/// The tree must contain only real read-only directories and regular files. This value does not
/// eliminate the host-side check-to-use race; callers should move to an immutable backing store
/// when one is available.
pub struct VerifiedRootFilesystem {
    directory: Vec<u8>,
    digest: RootFilesystemDigest,
    identity: DirectoryIdentity,
}

impl View for VerifiedRootFilesystem {
    type V = RootModel;

    closed spec fn view(&self) -> RootModel {
        RootModel {
            directory: self.directory@,
            digest: self.digest@,
            identity: self.identity,
        }
    }
}

/// Whether a tree is verified: the directory can be a read-only root, the mount points are
/// directories, and the tree measures to the expected digest.
pub open spec fn verifies(
    directory: Seq<u8>,
    digest: Seq<u8>,
    report: ReportModel,
    mounts: Seq<Option<FileFacts>>,
    entries: Seq<EntryModel>,
) -> bool {
    &&& usable_read_only_root(directory, report) is Some
    &&& forall|i: int| 0 <= i < 4 ==> facts::is_directory(#[trigger] mounts[i])
    &&& measurable(report.target, entries)
    &&& sha256(measured_tree(report.target->0, entries)) == digest
}

impl VerifiedRootFilesystem {
    /// Verifies a tree against an expected digest.
    pub fn open(
        directory: &[u8],
        expected_digest: RootFilesystemDigest,
        report: &PathReport,
        mounts: &[Option<FileFacts>; 4],
        entries: &Vec<TreeEntry>,
    ) -> (r: Result<VerifiedRootFilesystem, ProcessAdapterError>)
        ensures
            r is Ok <==> verifies(
                directory@,
                expected_digest@,
                report@,
                mounts@,
                entry_models(entries@),
            ),
            r is Ok ==> Some((r->Ok_0)@.directory) == usable_read_only_root(directory@, report@)
                && (r->Ok_0)@.digest == expected_digest@ && Some((r->Ok_0)@.identity)
                == facts::directory_identity(report.target),
            r is Err ==> r->Err_0 == ProcessAdapterError::InvalidSandbox,
    {
        let root = match canonical_read_only_root(directory, report) {
            Ok(root) => root,
            Err(error) => {
                return Err(error);
            },
        };
        if let Err(error) = validate_sandbox_mount_points(mounts) {
            return Err(error);
        }
        let identity = match DirectoryIdentity::read(report.target) {
            Ok(identity) => identity,
            Err(error) => {
                return Err(error);
            },
        };
        let verified = VerifiedRootFilesystem {
            directory: root,
            digest: expected_digest,
            identity,
        };
        match verified.validate(report.target, entries) {
            Ok(()) => Ok(verified),
            Err(error) => Err(error),
        }
    }

    /// Whether the tree is still the one that was verified.
    pub fn validate(&self, now: Option<FileFacts>, entries: &Vec<TreeEntry>) -> (r: Result<
        (),
        ProcessAdapterError,
    >)
        ensures
            r is Ok <==> self@.intact(now, entry_models(entries@)),
            r is Err ==> r->Err_0 == ProcessAdapterError::InvalidSandbox,
    {
        if let Err(error) = validate_read_only_directory(now) {
            return Err(error);
        }
        match DirectoryIdentity::read(now) {
            Ok(identity) => {
                if identity != self.identity {
                    return Err(ProcessAdapterError::InvalidSandbox);
                }
            },
            Err(error) => {
                return Err(error);
            },
        }
        match measure_tree(now, entries) {
            Ok(digest) => {
                if digest.same_as(&self.digest) {
                    Ok(())
                } else {
                    Err(ProcessAdapterError::InvalidSandbox)
                }
            },
            Err(error) => Err(error),
        }
    }

    /// The directory of the tree.
    #[must_use]
    pub fn directory(&self) -> (r: &[u8])
        ensures
            r@ == self@.directory,
    {
        self.directory.as_slice()
    }

    /// The digest of the tree.
    #[must_use]
    pub fn digest(&self) -> (r: RootFilesystemDigest)
        ensures
            r@ == self@.digest,
    {
        self.digest
    }

    /// A second value for the same tree.
    #[must_use]
    pub fn state(&self) -> (r: VerifiedRootFilesystem)
        ensures
            r@ == self@,
    {
        VerifiedRootFilesystem {
            directory: clone_bytes(self.directory.as_slice()),
            digest: self.digest,
            identity: self.identity,
        }
    }
}

// ------------------------------------------------------------------- builder

/// One step of building a root filesystem.
pub enum BuildStep {
    /// Create a new directory for its owner alone.
    CreateDirectory { path: Vec<u8> },
    /// Copy a file into a new executable.
    CopyExecutable { source: Vec<u8>, destination: Vec<u8> },
    /// Make a path readable and executable for all, and writable for none.
    Seal { path: Vec<u8> },
}

/// One step of building a root filesystem.
pub enum StepModel {
    CreateDirectory { path: Seq<u8> },
    CopyExecutable { source: Seq<u8>, destination: Seq<u8> },
    Seal { path: Seq<u8> },
}

impl View for BuildStep {
    type V = StepModel;

    open spec fn view(&self) -> StepModel {
        match *self {
            BuildStep::CreateDirectory { path } => StepModel::CreateDirectory { path: path@ },
            BuildStep::CopyExecutable { source, destination } => StepModel::CopyExecutable {
                source: source@,
                destination: destination@,
            },
            BuildStep::Seal { path } => StepModel::Seal { path: path@ },
        }
    }
}

/// The directories of a minimal root filesystem: `bin`, `proc`, `dev`, `tmp` and `workspace`.
pub open spec fn minimal_directories() -> Seq<Seq<u8>> {
    seq![
        seq![0x62u8, 0x69, 0x6e],
        seq![0x70u8, 0x72, 0x6f, 0x63],
        seq![0x64u8, 0x65, 0x76],
        seq![0x74u8, 0x6d, 0x70],
        seq![0x77u8, 0x6f, 0x72, 0x6b, 0x73, 0x70, 0x61, 0x63, 0x65],
    ]
}

/// The executable of a minimal root filesystem: `bin/busybox`.
pub open spec fn minimal_executable() -> Seq<u8> {
    seq![0x62u8, 0x69, 0x6e, 0x2f, 0x62, 0x75, 0x73, 0x79, 0x62, 0x6f, 0x78]
}

/// The steps that build a minimal root filesystem at `output` from the executable at `source`.
pub open spec fn minimal_steps(source: Seq<u8>, output: Seq<u8>) -> Seq<StepModel> {
    let names = minimal_directories();
    let executable = path::joined(output, minimal_executable());
    seq![
        StepModel::CreateDirectory { path: output },
        StepModel::CreateDirectory { path: path::joined(output, names[0]) },
        StepModel::CreateDirectory { path: path::joined(output, names[1]) },
        StepModel::CreateDirectory { path: path::joined(output, names[2]) },
        StepModel::CreateDirectory { path: path::joined(output, names[3]) },
        StepModel::CreateDirectory { path: path::joined(output, names[4]) },
        StepModel::CopyExecutable { source, destination: executable },
        StepModel::Seal { path: executable },
        StepModel::Seal { path: path::joined(output, names[0]) },
        StepModel::Seal { path: path::joined(output, names[1]) },
        StepModel::Seal { path: path::joined(output, names[2]) },
        StepModel::Seal { path: path::joined(output, names[3]) },
        StepModel::Seal { path: path::joined(output, names[4]) },
        StepModel::Seal { path: output },
    ]
}

/// A file or a directory at some path.
#[verifier::ext_equal]
pub struct PlacedModel {
    pub directory: bool,
    /// The permission bits.
    pub mode: u32,
    /// The bytes of a file; none for a directory.
    pub contents: Seq<u8>,
}

/// A directory with some permission bits.
pub open spec fn placed_directory(mode: u32) -> PlacedModel {
    PlacedModel { directory: true, mode, contents: Seq::<u8>::empty() }
}

/// A file with some permission bits.
pub open spec fn placed_file(mode: u32, contents: Seq<u8>) -> PlacedModel {
    PlacedModel { directory: false, mode, contents }
}

/// What a step makes of the files that were there, where `copied` are the bytes that a copy
/// reads; `None` where the step fails, which leaves the files as they were.
pub open spec fn performed(
    files: Map<Seq<u8>, PlacedModel>,
    step: StepModel,
    copied: Seq<u8>,
) -> Option<Map<Seq<u8>, PlacedModel>> {
    match step {
        StepModel::CreateDirectory { path } => if files.contains_key(path) {
            None
        } else {
            Some(files.insert(path, placed_directory(0o700)))
        },
        StepModel::CopyExecutable { destination, .. } => if files.contains_key(destination) {
            None
        } else {
            Some(files.insert(destination, placed_file(0o500, copied)))
        },
        StepModel::Seal { path } => if !files.contains_key(path) {
            None
        } else {
            Some(
                files.insert(
                    path,
                    PlacedModel {
                        directory: files[path].directory,
                        mode: 0o555,
                        contents: files[path].contents,
                    },
                ),
            )
        },
    }
}

/// What the first steps of a plan make of the files that were there; `None` where one of them
/// fails.
pub open spec fn performed_first(
    files: Map<Seq<u8>, PlacedModel>,
    steps: Seq<StepModel>,
    copied: Seq<u8>,
    count: nat,
) -> Option<Map<Seq<u8>, PlacedModel>>
    decreases count,
{
    if count == 0 {
        Some(files)
    } else {
        match performed_first(files, steps, copied, (count - 1) as nat) {
            None => None,
            Some(before) => performed(before, steps[count - 1], copied),
        }
    }
}

/// The files of a sealed minimal root filesystem at `output`.
pub open spec fn minimal_files(output: Seq<u8>, contents: Seq<u8>) -> Map<Seq<u8>, PlacedModel> {
    let names = minimal_directories();
    map![
        output => placed_directory(0o555),
        path::joined(output, names[0]) => placed_directory(0o555),
        path::joined(output, names[1]) => placed_directory(0o555),
        path::joined(output, names[2]) => placed_directory(0o555),
        path::joined(output, names[3]) => placed_directory(0o555),
        path::joined(output, names[4]) => placed_directory(0o555),
        path::joined(output, minimal_executable()) => placed_file(0o555, contents),
    ]
}

/// A directory of a minimal root filesystem, as a measurement sees it.
pub open spec fn minimal_directory_node(name: Seq<u8>) -> NodeModel {
    NodeModel { path: name, directory: true, mode: 0o555, contents: Seq::<u8>::empty() }
}

/// The executable of a minimal root filesystem, as a measurement sees it.
pub open spec fn minimal_executable_node(contents: Seq<u8>) -> NodeModel {
    NodeModel { path: minimal_executable(), directory: false, mode: 0o555, contents }
}

/// What a measurement sees of a minimal root filesystem.
pub open spec fn minimal_tree(contents: Seq<u8>) -> Set<NodeModel> {
    let names = minimal_directories();
    set![
        minimal_directory_node(names[0]),
        minimal_directory_node(names[1]),
        minimal_directory_node(names[2]),
        minimal_directory_node(names[3]),
        minimal_directory_node(names[4]),
        minimal_executable_node(contents),
    ]
}

/// Whether a node is what stands at its path below a root.
pub open spec fn stands_below(
    files: Map<Seq<u8>, PlacedModel>,
    root: Seq<u8>,
    node: NodeModel,
) -> bool {
    let at = path::joined(root, node.path);
    files.contains_key(at) && files[at] == (PlacedModel {
        directory: node.directory,
        mode: node.mode,
        contents: node.contents,
    })
}

proof fn lemma_joined_apart(output: Seq<u8>, a: Seq<u8>, b: Seq<u8>)
    ensures
        path::joined(output, a) == path::joined(output, b) ==> a == b,
        path::joined(output, a) != output,
{
    let n = output.len() as int + 1;
    assert(path::joined(output, a).skip(n) =~= a);
    assert(path::joined(output, b).skip(n) =~= b);
    assert(path::joined(output, a).len() > output.len());
}

/// Whether seven paths are all different.
spec fn all_apart(d: Seq<u8>, p: Seq<Seq<u8>>, e: Seq<u8>) -> bool {
    &&& p.len() == 5
    &&& d != e
    &&& forall|i: int| 0 <= i < 5 ==> #[trigger] p[i] != d && p[i] != e
    &&& p[0] != p[1] && p[0] != p[2] && p[0] != p[3] && p[0] != p[4]
    &&& p[1] != p[2] && p[1] != p[3] && p[1] != p[4]
    &&& p[2] != p[3] && p[2] != p[4]
    &&& p[3] != p[4]
}

/// The paths of the directories of a minimal root filesystem.
spec fn minimal_paths(output: Seq<u8>) -> Seq<Seq<u8>> {
    minimal_directories().map_values(|name: Seq<u8>| path::joined(output, name))
}

proof fn lemma_minimal_apart(output: Seq<u8>)
    ensures
        all_apart(output, minimal_paths(output), path::joined(output, minimal_executable())),
{
    let names = minimal_directories();
    let e = minimal_executable();
    assert(names[0][0] == 0x62 && names[1][0] == 0x70 && names[2][0] == 0x64 && names[3][0] == 0x74
        && names[4][0] == 0x77);
    assert(names[0].len() == 3 && e.len() == 11 && e[0] == 0x62);
    assert forall|i: int, j: int| 0 <= i < 5 && 0 <= j < 5 && i != j implies path::joined(
        output,
        #[trigger] names[i],
    ) != path::joined(output, #[trigger] names[j]) by {
        lemma_joined_apart(output, names[i], names[j]);
        assert(names[i][0] != names[j][0]);
    }
    assert forall|i: int| 0 <= i < 5 implies path::joined(output, #[trigger] names[i])
        != path::joined(output, e) && path::joined(output, names[i]) != output by {
        lemma_joined_apart(output, names[i], e);
    }
    lemma_joined_apart(output, e, e);
    let p = minimal_paths(output);
    assert forall|i: int| 0 <= i < 5 implies #[trigger] p[i] == path::joined(output, names[i]) by {}
    assert(names[0] == names[0] && names[1] == names[1] && names[2] == names[2]);
    assert(names[3] == names[3] && names[4] == names[4]);
}

/// Performing the plan of a minimal root filesystem where nothing is yet leaves exactly the
/// sealed files of that root there, holding the bytes that were copied, and leaves every other
/// file as it was. Where something is at the output already, the first step fails.
#[verifier::rlimit(50)]
pub proof fn law_plans_build_minimal_roots(
    files: Map<Seq<u8>, PlacedModel>,
    source: Seq<u8>,
    output: Seq<u8>,
    contents: Seq<u8>,
)
    requires
        !files.contains_key(output) ==> forall|name: Seq<u8>|
            !files.contains_key(#[trigger] path::joined(output, name)),
    ensures
        files.contains_key(output) ==> performed(
            files,
            minimal_steps(source, output)[0],
            contents,
        ) is None,
        !files.contains_key(output) ==> performed_first(
            files,
            minimal_steps(source, output),
            contents,
            minimal_steps(source, output).len(),
        ) == Some(files.union_prefer_right(minimal_files(output, contents))),
{
    let steps = minimal_steps(source, output);
    if !files.contains_key(output) {
        let names = minimal_directories();
        let p = minimal_paths(output);
        let e = path::joined(output, minimal_executable());
        lemma_minimal_apart(output);
        assert(p[0] == path::joined(output, names[0]));
        assert(p[1] == path::joined(output, names[1]));
        assert(p[2] == path::joined(output, names[2]));
        assert(p[3] == path::joined(output, names[3]));
        assert(p[4] == path::joined(output, names[4]));
        assert(!files.contains_key(p[0]) && !files.contains_key(p[1]) && !files.contains_key(p[2]));
        assert(!files.contains_key(p[3]) && !files.contains_key(p[4]) && !files.contains_key(e));
        let open = placed_directory(0o700);
        let shut = placed_directory(0o555);
        let f0 = files;
        let f1 = f0.insert(output, open);
        let f2 = f1.insert(p[0], open);
        let f3 = f2.insert(p[1], open);
        let f4 = f3.insert(p[2], open);
        let f5 = f4.insert(p[3], open);
        let f6 = f5.insert(p[4], open);
        let f7 = f6.insert(e, placed_file(0o500, contents));
        let f8 = f7.insert(e, placed_file(0o555, contents));
        let f9 = f8.insert(p[0], shut);
        let f10 = f9.insert(p[1], shut);
        let f11 = f10.insert(p[2], shut);
        let f12 = f11.insert(p[3], shut);
        let f13 = f12.insert(p[4], shut);
        let f14 = f13.insert(output, shut);
        assert(performed_first(files, steps, contents, 0) == Some(f0));
        assert(performed_first(files, steps, contents, 1) == Some(f1));
        assert(performed_first(files, steps, contents, 2) == Some(f2));
        assert(performed_first(files, steps, contents, 3) == Some(f3));
        assert(performed_first(files, steps, contents, 4) == Some(f4));
        assert(performed_first(files, steps, contents, 5) == Some(f5));
        assert(performed_first(files, steps, contents, 6) == Some(f6));
        assert(performed_first(files, steps, contents, 7) == Some(f7));
        assert(performed_first(files, steps, contents, 8) == Some(f8));
        assert(performed_first(files, steps, contents, 9) == Some(f9));
        assert(performed_first(files, steps, contents, 10) == Some(f10));
        assert(performed_first(files, steps, contents, 11) == Some(f11));
        assert(performed_first(files, steps, contents, 12) == Some(f12));
        assert(performed_first(files, steps, contents, 13) == Some(f13));
        assert(performed_first(files, steps, contents, 14) == Some(f14));
        assert(f14 =~= files.union_prefer_right(minimal_files(output, contents)));
    }
}

/// What stands below a minimal root filesystem that was built where nothing was is the minimal
/// tree with the bytes that were copied: it depends on nothing else.
pub proof fn law_built_roots_hold_the_minimal_tree(
    files: Map<Seq<u8>, PlacedModel>,
    output: Seq<u8>,
    contents: Seq<u8>,
    node: NodeModel,
)
    requires
        forall|name: Seq<u8>| !files.contains_key(#[trigger] path::joined(output, name)),
    ensures
        stands_below(files.union_prefer_right(minimal_files(output, contents)), output, node)
            <==> minimal_tree(contents).contains(node),
{
    let names = minimal_directories();
    let p = minimal_paths(output);
    let e = path::joined(output, minimal_executable());
    lemma_minimal_apart(output);
    assert(p[0] == path::joined(output, names[0]));
    assert(p[1] == path::joined(output, names[1]));
    assert(p[2] == path::joined(output, names[2]));
    assert(p[3] == path::joined(output, names[3]));
    assert(p[4] == path::joined(output, names[4]));
    let at = path::joined(output, node.path);
    assert(!files.contains_key(at));
    lemma_joined_apart(output, node.path, names[0]);
    lemma_joined_apart(output, node.path, names[1]);
    lemma_joined_apart(output, node.path, names[2]);
    lemma_joined_apart(output, node.path, names[3]);
    lemma_joined_apart(output, node.path, names[4]);
    lemma_joined_apart(output, node.path, minimal_executable());
}

impl EntryModel {
    /// Whether the entry was observed whole: a directory, or a file of one name that was the
    /// same file when it was opened and whose bytes were all read.
    pub open spec fn observed_whole(self) -> bool {
        &&& self.facts is Some && !self.facts->0.symlink
        &&& self.is_directory() || {
            &&& self.facts->0.regular && self.facts->0.links == 1
            &&& self.opened == self.facts
            &&& self.contents is Some && self.contents->0.len() == self.facts->0.length
        }
    }
}

proof fn lemma_one_file(entries: Seq<EntryModel>, path: Seq<u8>, n: nat)
    requires
        distinct_paths(entries),
        forall|i: int|
            0 <= i < entries.len() ==> (#[trigger] entries[i]).weight() <= (if entries[i].path
                == path {
                n
            } else {
                0
            }),
    ensures
        total_weight(entries) <= n,
        (forall|i: int| 0 <= i < entries.len() ==> (#[trigger] entries[i]).path != path)
            ==> total_weight(entries) == 0,
    decreases entries.len(),
{
    if entries.len() > 0 {
        let rest = entries.drop_last();
        assert forall|i: int| 0 <= i < rest.len() implies (#[trigger] rest[i]).weight() <= (
        if rest[i].path == path {
            n
        } else {
            0
        }) by {
            assert(rest[i] == entries[i]);
        }
        assert(distinct_paths(rest));
        lemma_one_file(rest, path, n);
        if entries.last().path == path {
            assert forall|i: int| 0 <= i < rest.len() implies (#[trigger] rest[i]).path != path by {
                assert(rest[i] == entries[i]);
                assert(entries[i].path != entries[entries.len() - 1].path);
            }
        } else if forall|i: int| 0 <= i < entries.len() ==> (#[trigger] entries[i]).path != path {
            assert forall|i: int| 0 <= i < rest.len() implies (#[trigger] rest[i]).path != path by {
                assert(rest[i] == entries[i]);
            }
        }
    }
}

/// A minimal root filesystem that is observed whole can be measured, as long as its executable
/// is within the bound for one file.
pub proof fn law_minimal_roots_are_measurable(
    root: FileFacts,
    entries: Seq<EntryModel>,
    contents: Seq<u8>,
)
    requires
        !root.symlink && root.directory && root.mode & 0o777 == 0o555,
        forall|i: int| 0 <= i < entries.len() ==> (#[trigger] entries[i]).observed_whole(),
        distinct_paths(entries),
        tree_of(entries) == minimal_tree(contents),
        contents.len() <= MAX_ROOT_FILESYSTEM_FILE_BYTES,
    ensures
        measurable(Some(root), entries),
{
    let mode = root.mode;
    assert(mode & 0o777 == 0o555 ==> mode & 0o222 == 0) by (bit_vector);
    let names = minimal_directories();
    let list = nodes(entries);
    assert forall|i: int| 0 <= i < entries.len() implies (#[trigger] entries[i]).sealed()
        && entries[i].weight() <= (if entries[i].path == minimal_executable() {
        contents.len()
    } else {
        0
    }) by {
        let entry = entries[i];
        assert(list[i] == entry.node());
        assert(list.to_set().contains(list[i]));
        assert(minimal_tree(contents).contains(entry.node()));
        let mode = entry.facts->0.mode;
        assert(mode & 0o777 == 0o555 ==> mode & 0o222 == 0) by (bit_vector);
        assert(entry.observed_whole());
    }
    lemma_one_file(entries, minimal_executable(), contents.len());
    assert forall|i: int, j: int| 0 <= i < j < list.len() implies list[i] != list[j] by {
        assert(entries[i].path != entries[j].path);
    }
    assert(list.no_duplicates());
    list.unique_seq_to_set();
    assert(minimal_tree(contents).len() <= 6);
}

/// A minimal root filesystem that was built is verified by the digest that it measures to.
pub proof fn law_built_roots_verify(
    busybox: Seq<u8>,
    source: ReportModel,
    output: Seq<u8>,
    report: ReportModel,
    mounts: Seq<Option<FileFacts>>,
    entries: Seq<EntryModel>,
    contents: Seq<u8>,
)
    requires
        buildable(busybox, output, source),
        contents.len() == source.target->0.length,
        report.canonical is Some && path::components(report.canonical->0).len() > 0,
        report.target is Some && report.entry == report.target,
        !report.target->0.symlink && report.target->0.directory && report.target->0.mode & 0o777
            == 0o555,
        forall|i: int| 0 <= i < 4 ==> facts::is_directory(#[trigger] mounts[i]),
        forall|i: int| 0 <= i < entries.len() ==> (#[trigger] entries[i]).observed_whole(),
        distinct_paths(entries),
        tree_of(entries) == minimal_tree(contents),
    ensures
        verifies(
            output,
            sha256(measured_tree(report.target->0, entries)),
            report,
            mounts,
            entries,
        ),
{
    law_minimal_roots_are_measurable(report.target->0, entries, contents);
}

/// The measured bytes of a minimal root filesystem depend on the bytes of its executable alone.
pub proof fn law_minimal_roots_measure_alike(
    r1: FileFacts,
    a: Seq<EntryModel>,
    r2: FileFacts,
    b: Seq<EntryModel>,
    contents: Seq<u8>,
)
    requires
        r1.mode & 0o777 == 0o555 && r2.mode & 0o777 == 0o555,
        measurable(Some(r1), a),
        measurable(Some(r2), b),
        distinct_paths(a),
        distinct_paths(b),
        tree_of(a) == minimal_tree(contents),
        tree_of(b) == minimal_tree(contents),
    ensures
        measured_tree(r1, a) == measured_tree(r2, b),
{
    law_measurements_tell_trees_apart(r1, a, r2, b);
}

/// Whether a minimal root filesystem can be built from what was observed of the executable.
pub open spec fn buildable(busybox: Seq<u8>, output: Seq<u8>, source: ReportModel) -> bool {
    &&& path::absolute(busybox)
    &&& path::sandbox_path(output) && path::components(output).len() > 0
    &&& source.entry is Some && !source.entry->0.symlink && source.entry->0.regular
    &&& source.canonical is Some
    &&& source.target is Some && source.target->0.regular && source.target->0.mode & 0o111 != 0
        && source.target->0.length <= MAX_ROOT_FILESYSTEM_FILE_BYTES
}

/// The building of one minimal root filesystem.
pub struct MinimalRootBuild {
    steps: Vec<BuildStep>,
    source: FileFacts,
}

/// Whether a copy is whole: it was made from the file that was observed, and of all of it.
pub open spec fn copied_whole(original: FileFacts, opened: Option<FileFacts>, copied: u64) -> bool {
    opened is Some && opened->0.device == original.device && opened->0.inode == original.inode
        && opened->0.length == original.length && copied == original.length
}

impl MinimalRootBuild {
    /// The steps.
    pub closed spec fn plan(&self) -> Seq<StepModel> {
        self.steps@.map_values(|step: BuildStep| step@)
    }

    /// What was observed of the executable.
    pub closed spec fn original(&self) -> FileFacts {
        self.source
    }

    /// The steps, in order. The building fails with the first that fails.
    #[must_use]
    pub fn steps(&self) -> (r: &Vec<BuildStep>)
        ensures
            r@.map_values(|step: BuildStep| step@) == self.plan(),
    {
        &self.steps
    }

    /// Whether the executable that was copied is the one that was observed, and was copied
    /// whole.
    pub fn check_copy(&self, opened: Option<FileFacts>, copied: u64) -> (r: Result<
        (),
        ProcessAdapterError,
    >)
        ensures
            r is Ok <==> copied_whole(self.original(), opened, copied),
            r is Err ==> r->Err_0 == ProcessAdapterError::InvalidSandbox,
    {
        match opened {
            Some(opened) => {
                if opened.device == self.source.device && opened.inode == self.source.inode
                    && opened.length == self.source.length && copied == self.source.length {
                    Ok(())
                } else {
                    Err(ProcessAdapterError::InvalidSandbox)
                }
            },
            None => Err(ProcessAdapterError::InvalidSandbox),
        }
    }
}

fn directory_names() -> (r: Vec<Vec<u8>>)
    ensures
        text::pieces(r@) == minimal_directories(),
{
    let bin: Vec<u8> = vec![0x62, 0x69, 0x6e];
    let proc: Vec<u8> = vec![0x70, 0x72, 0x6f, 0x63];
    let dev: Vec<u8> = vec![0x64, 0x65, 0x76];
    let tmp: Vec<u8> = vec![0x74, 0x6d, 0x70];
    let workspace: Vec<u8> = vec![0x77, 0x6f, 0x72, 0x6b, 0x73, 0x70, 0x61, 0x63, 0x65];
    proof {
        let names = minimal_directories();
        assert(bin@ =~= names[0]);
        assert(proc@ =~= names[1]);
        assert(dev@ =~= names[2]);
        assert(tmp@ =~= names[3]);
        assert(workspace@ =~= names[4]);
    }
    let list: Vec<Vec<u8>> = vec![bin, proc, dev, tmp, workspace];
    assert(text::pieces(list@) =~= minimal_directories());
    list
}

/// Plans a sealed minimal root filesystem containing one BusyBox executable and the required
/// mount points.
///
/// `output` must be an absolute path that does not exist. A partially built directory is
/// retained on failure and is never reused or removed automatically.
pub fn build_minimal_root_filesystem(
    busybox: &[u8],
    output: &[u8],
    source: &PathReport,
) -> (r: Result<MinimalRootBuild, ProcessAdapterError>)
    ensures
        r is Ok <==> buildable(busybox@, output@, source@),
        r is Ok ==> r->Ok_0.plan() == minimal_steps(source@.canonical->0, output@)
            && r->Ok_0.original() == source@.target->0,
        r is Err ==> r->Err_0 == ProcessAdapterError::InvalidSandbox,
{
    if !is_absolute(busybox) || !is_sandbox_path(output) || !has_components(output) {
        return Err(ProcessAdapterError::InvalidSandbox);
    }
    let direct = match source.entry {
        Some(entry) => !entry.symlink && entry.regular,
        None => false,
    };
    if !direct {
        return Err(ProcessAdapterError::InvalidSandbox);
    }
    let canonical = match &source.canonical {
        Some(canonical) => clone_bytes(canonical.as_slice()),
        None => {
            return Err(ProcessAdapterError::InvalidSandbox);
        },
    };
    let target = match source.target {
        Some(target) => target,
        None => {
            return Err(ProcessAdapterError::InvalidSandbox);
        },
    };
    if !target.regular || target.mode & 0o111 == 0 || target.length
        > MAX_ROOT_FILESYSTEM_FILE_BYTES {
        return Err(ProcessAdapterError::InvalidSandbox);
    }
    let names = directory_names();
    let busybox_name: Vec<u8> = vec![
        0x62, 0x69, 0x6e, 0x2f, 0x62, 0x75, 0x73, 0x79, 0x62, 0x6f, 0x78,
    ];
    assert(busybox_name@ =~= minimal_executable());
    let ghost models = minimal_directories();
    assert(text::pieces(names@).len() == 5);
    let ghost wanted = minimal_steps(canonical@, output@);
    let mut steps: Vec<BuildStep> = Vec::new();
    steps.push(BuildStep::CreateDirectory { path: clone_bytes(output) });
    let mut i: usize = 0;
    while i < 5
        invariant
            i <= 5,
            names@.len() == 5,
            models == minimal_directories(),
            models == text::pieces(names@),
            wanted == minimal_steps(canonical@, output@),
            steps@.len() == 1 + i,
            forall|k: int| 0 <= k < steps@.len() ==> (#[trigger] steps@[k])@ == wanted[k],
        decreases 5 - i,
    {
        assert(models[i as int] == names@[i as int]@);
        let ghost before = steps@;
        steps.push(BuildStep::CreateDirectory { path: join(output, names[i].as_slice()) });
        assert forall|k: int| 0 <= k < steps@.len() implies (#[trigger] steps@[k])@ == wanted[k] by {
            if k < before.len() {
                assert(steps@[k] == before[k]);
            }
        }
        i = i + 1;
    }
    let destination = join(output, busybox_name.as_slice());
    steps.push(
        BuildStep::CopyExecutable {
            source: canonical,
            destination: clone_bytes(destination.as_slice()),
        },
    );
    steps.push(BuildStep::Seal { path: destination });
    let mut j: usize = 0;
    while j < 5
        invariant
            j <= 5,
            names@.len() == 5,
            models == minimal_directories(),
            models == text::pieces(names@),
            wanted == minimal_steps(canonical@, output@),
            steps@.len() == 8 + j,
            forall|k: int| 0 <= k < steps@.len() ==> (#[trigger] steps@[k])@ == wanted[k],
        decreases 5 - j,
    {
        assert(models[j as int] == names@[j as int]@);
        let ghost before = steps@;
        steps.push(BuildStep::Seal { path: join(output, names[j].as_slice()) });
        assert forall|k: int| 0 <= k < steps@.len() implies (#[trigger] steps@[k])@ == wanted[k] by {
            if k < before.len() {
                assert(steps@[k] == before[k]);
            }
        }
        j = j + 1;
    }
    steps.push(BuildStep::Seal { path: clone_bytes(output) });
    assert(steps@.map_values(|step: BuildStep| step@) =~= wanted);
    Ok(MinimalRootBuild { steps, source: target })
}

} // verus!
