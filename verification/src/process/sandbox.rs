//! The Bubblewrap sandbox: what it is told, and which executable runs in it.

use vstd::prelude::*;

use crate::path;
use crate::path::{components_of, is_sandbox_path, is_within};
use crate::process::ProcessAdapterError;
use crate::process::facts;
use crate::process::facts::{ExecutableIdentity, PathReport, ReportModel};
use crate::process::launch::word;
use crate::text;
use crate::text::clone_bytes;

verus! {

/// What Bubblewrap is told: new namespaces without network, no capabilities, the root mounted
/// read-only, and the scratch directory as the only writable path of the host.
pub open spec fn sandbox_words(root: Seq<u8>, scratch: Seq<u8>, executable: Seq<u8>) -> Seq<
    Seq<u8>,
> {
    seq![
        text::utf8("--unshare-all"@),
        text::utf8("--unshare-user"@),
        text::utf8("--disable-userns"@),
        text::utf8("--die-with-parent"@),
        text::utf8("--new-session"@),
        text::utf8("--cap-drop"@),
        text::utf8("ALL"@),
        text::utf8("--ro-bind"@),
        root,
        text::utf8("/"@),
        text::utf8("--proc"@),
        text::utf8("/proc"@),
        text::utf8("--dev"@),
        text::utf8("/dev"@),
        text::utf8("--tmpfs"@),
        text::utf8("/tmp"@),
        text::utf8("--bind"@),
        scratch,
        text::utf8("/workspace"@),
        text::utf8("--chdir"@),
        text::utf8("/workspace"@),
        text::utf8("--"@),
        executable,
    ]
}

/// What Bubblewrap is told before the arguments of the executable.
#[must_use]
pub fn bubblewrap_arguments(
    root_filesystem: &[u8],
    scratch_directory: &[u8],
    sandbox_executable: &[u8],
) -> (r: Vec<Vec<u8>>)
    ensures
        text::pieces(r@) == sandbox_words(
            root_filesystem@,
            scratch_directory@,
            sandbox_executable@,
        ),
{
    let mut words: Vec<Vec<u8>> = Vec::new();
    words.push(word("--unshare-all"));
    words.push(word("--unshare-user"));
    words.push(word("--disable-userns"));
    words.push(word("--die-with-parent"));
    words.push(word("--new-session"));
    words.push(word("--cap-drop"));
    words.push(word("ALL"));
    words.push(word("--ro-bind"));
    words.push(clone_bytes(root_filesystem));
    words.push(word("/"));
    words.push(word("--proc"));
    words.push(word("/proc"));
    words.push(word("--dev"));
    words.push(word("/dev"));
    words.push(word("--tmpfs"));
    words.push(word("/tmp"));
    words.push(word("--bind"));
    words.push(clone_bytes(scratch_directory));
    words.push(word("/workspace"));
    words.push(word("--chdir"));
    words.push(word("/workspace"));
    words.push(word("--"));
    words.push(clone_bytes(sandbox_executable));
    assert(text::pieces(words@) =~= sandbox_words(
        root_filesystem@,
        scratch_directory@,
        sandbox_executable@,
    ));
    words
}

/// Components as an absolute path.
pub open spec fn rooted(components: Seq<Seq<u8>>) -> Seq<u8>
    decreases components.len(),
{
    if components.len() == 0 {
        seq![path::SEPARATOR]
    } else if components.len() == 1 {
        seq![path::SEPARATOR] + components[0]
    } else {
        path::joined(rooted(components.drop_last()), components.last())
    }
}

/// The path inside the sandbox of a file below its root.
pub open spec fn inside(root: Seq<u8>, file: Seq<u8>) -> Seq<u8> {
    rooted(path::components(file).skip(path::components(root).len() as int))
}

/// Whether a file below the root can be run in the sandbox under its own name.
pub open spec fn sandboxed(root: Seq<u8>, executable: Seq<u8>, report: ReportModel) -> bool {
    &&& path::sandbox_path(executable)
    &&& report.canonical is Some
    &&& path::within(report.canonical->0, root)
    &&& facts::executable_identity(report.target) is Some
}

/// The executable of a sandbox, on the host and inside.
pub struct SandboxExecutable {
    pub host_path: Vec<u8>,
    pub identity: ExecutableIdentity,
    pub sandbox_path: Vec<u8>,
}

/// The path must be absolute, bounded and free of traversal.
pub fn validate_sandbox_absolute_path(path: &[u8]) -> (r: Result<(), ProcessAdapterError>)
    ensures
        r is Ok <==> path::sandbox_path(path@),
        r is Err ==> r->Err_0 == ProcessAdapterError::InvalidSandbox,
{
    if is_sandbox_path(path) {
        Ok(())
    } else {
        Err(ProcessAdapterError::InvalidSandbox)
    }
}

fn rooted_path(components: &Vec<Vec<u8>>, from: usize) -> (r: Vec<u8>)
    requires
        from <= components@.len(),
    ensures
        r@ == rooted(text::pieces(components@).skip(from as int)),
{
    let ghost all = text::pieces(components@).skip(from as int);
    if from == components.len() {
        assert(all =~= Seq::<Seq<u8>>::empty());
        let mut out: Vec<u8> = Vec::new();
        out.push(path::SEPARATOR);
        assert(out@ =~= seq![path::SEPARATOR]);
        return out;
    }
    let mut out: Vec<u8> = Vec::new();
    let mut i: usize = from;
    assert(out@ =~= Seq::<u8>::empty());
    while i < components.len()
        invariant
            from <= i <= components@.len(),
            from < components@.len(),
            all == text::pieces(components@).skip(from as int),
            i == from ==> out@.len() == 0,
            i > from ==> out@ == rooted(all.take(i - from)),
        decreases components@.len() - i,
    {
        let ghost before = out@;
        let ghost next = all.take(i + 1 - from);
        proof {
            assert(all[i - from] == components@[i as int]@);
            assert(next.drop_last() =~= all.take(i - from));
            assert(next.last() == components@[i as int]@);
        }
        out.push(path::SEPARATOR);
        let mut piece = clone_bytes(components[i].as_slice());
        let ghost tail = piece@;
        out.append(&mut piece);
        assert(out@ =~= before + seq![path::SEPARATOR] + tail);
        proof {
            if i == from {
                assert(out@ =~= seq![path::SEPARATOR] + next[0]);
            }
        }
        i = i + 1;
    }
    assert(all.take(i - from) =~= all);
    out
}

/// The executable of a sandbox must be a file below the root of the sandbox, also once every
/// symbolic link on its path was followed.
///
/// The report is on the path of the executable, taken below the root.
pub fn canonical_sandbox_executable(
    root_filesystem: &[u8],
    sandbox_executable: &[u8],
    report: &PathReport,
) -> (r: Result<SandboxExecutable, ProcessAdapterError>)
    ensures
        r is Ok <==> sandboxed(root_filesystem@, sandbox_executable@, report@),
        r is Ok ==> (r->Ok_0).host_path@ == report@.canonical->0 && Some((r->Ok_0).identity)
            == facts::executable_identity(report.target) && (r->Ok_0).sandbox_path@ == inside(
            root_filesystem@,
            report@.canonical->0,
        ),
        r is Err ==> r->Err_0 == ProcessAdapterError::InvalidSandbox,
{
    if let Err(error) = validate_sandbox_absolute_path(sandbox_executable) {
        return Err(error);
    }
    let canonical = match &report.canonical {
        Some(canonical) => clone_bytes(canonical.as_slice()),
        None => {
            return Err(ProcessAdapterError::InvalidSandbox);
        },
    };
    if !is_within(canonical.as_slice(), root_filesystem) {
        return Err(ProcessAdapterError::InvalidSandbox);
    }
    let identity = match ExecutableIdentity::read(report.target) {
        Ok(identity) => identity,
        Err(_) => {
            return Err(ProcessAdapterError::InvalidSandbox);
        },
    };
    let outer = components_of(root_filesystem);
    let inner = components_of(canonical.as_slice());
    assert(path::components(root_filesystem@).len() == outer@.len());
    assert(path::components(canonical@).len() == inner@.len());
    let sandbox_path = rooted_path(&inner, outer.len());
    Ok(SandboxExecutable { host_path: canonical, identity, sandbox_path })
}

/// The sandbox never shares the network of the host: with absolute paths, it is told to leave
/// every namespace, and no word that it is told takes the network back.
pub proof fn law_no_network_is_shared(root: Seq<u8>, scratch: Seq<u8>, executable: Seq<u8>)
    requires
        path::absolute(root),
        path::absolute(scratch),
        path::absolute(executable),
    ensures
        !sandbox_words(root, scratch, executable).contains(text::utf8("--share-net"@)),
        sandbox_words(root, scratch, executable)[0] == text::utf8("--unshare-all"@),
{
    let word = text::utf8("--share-net"@);
    let words = sandbox_words(root, scratch, executable);
    reveal_strlit("--share-net");
    reveal_strlit("--unshare-all");
    reveal_strlit("--unshare-user");
    reveal_strlit("--disable-userns");
    reveal_strlit("--die-with-parent");
    reveal_strlit("--new-session");
    reveal_strlit("--cap-drop");
    reveal_strlit("ALL");
    reveal_strlit("--ro-bind");
    reveal_strlit("/");
    reveal_strlit("--proc");
    reveal_strlit("/proc");
    reveal_strlit("--dev");
    reveal_strlit("/dev");
    reveal_strlit("--tmpfs");
    reveal_strlit("/tmp");
    reveal_strlit("--bind");
    reveal_strlit("/workspace");
    reveal_strlit("--chdir");
    reveal_strlit("--");
    vstd::utf8::is_ascii_chars_encode_utf8("--share-net"@);
    assert(word.len() == 11);
    vstd::utf8::is_ascii_chars_encode_utf8("--unshare-all"@);
    vstd::utf8::is_ascii_chars_encode_utf8("--unshare-user"@);
    vstd::utf8::is_ascii_chars_encode_utf8("--disable-userns"@);
    vstd::utf8::is_ascii_chars_encode_utf8("--die-with-parent"@);
    vstd::utf8::is_ascii_chars_encode_utf8("--new-session"@);
    vstd::utf8::is_ascii_chars_encode_utf8("--cap-drop"@);
    vstd::utf8::is_ascii_chars_encode_utf8("ALL"@);
    vstd::utf8::is_ascii_chars_encode_utf8("--ro-bind"@);
    vstd::utf8::is_ascii_chars_encode_utf8("/"@);
    vstd::utf8::is_ascii_chars_encode_utf8("--proc"@);
    vstd::utf8::is_ascii_chars_encode_utf8("/proc"@);
    vstd::utf8::is_ascii_chars_encode_utf8("--dev"@);
    vstd::utf8::is_ascii_chars_encode_utf8("/dev"@);
    vstd::utf8::is_ascii_chars_encode_utf8("--tmpfs"@);
    vstd::utf8::is_ascii_chars_encode_utf8("/tmp"@);
    vstd::utf8::is_ascii_chars_encode_utf8("--bind"@);
    vstd::utf8::is_ascii_chars_encode_utf8("/workspace"@);
    vstd::utf8::is_ascii_chars_encode_utf8("--chdir"@);
    vstd::utf8::is_ascii_chars_encode_utf8("--"@);
    assert forall|i: int| 0 <= i < words.len() implies #[trigger] words[i] != word by {
        assert(words[i].len() != 11 || words[i][0] != 0x2d);
    }
}

} // verus!
