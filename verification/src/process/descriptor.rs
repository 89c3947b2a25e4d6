//! Filesystem capabilities that a sandbox mounts by descriptor.

use vstd::prelude::*;

use crate::path;
use crate::path::{components_of, is_sandbox_path};
use crate::process::ProcessAdapterError;
use crate::task;
use crate::task::{FileAccess, FileCapability, FileModel};
use crate::text;
use crate::text::{is_bytes_before, text_eq};

verus! {

pub const MAX_FILESYSTEM_CAPABILITY_MOUNTS: usize = 128;

/// Whether another entry of a list is the same.
pub open spec fn duplicated(list: Seq<FileModel>, i: int) -> bool {
    exists|j: int| 0 <= j < list.len() && j != i && #[trigger] list[j] == list[i]
}

/// Why an entry of a list cannot be mounted, if it cannot.
pub open spec fn mount_failure(list: Seq<FileModel>, i: int) -> Option<ProcessAdapterError> {
    if !path::sandbox_path(text::utf8(list[i].path)) || list[i].path == "/"@ {
        Some(ProcessAdapterError::InvalidSandbox)
    } else if !(list[i].access is Read) {
        Some(ProcessAdapterError::UnsupportedFilesystemCapability)
    } else if duplicated(list, i) {
        Some(ProcessAdapterError::InvalidSandbox)
    } else {
        None
    }
}

/// The order in which entries are looked at: by path, and reading before writing.
pub open spec fn looked_at_before(a: FileModel, b: FileModel) -> bool {
    text::bytes_before(text::utf8(a.path), text::utf8(b.path)) || (a.path == b.path
        && a.access is Read && b.access is Write)
}

/// Whether `r` is the verdict on a list: the failure of the entry that comes first of those
/// that fail.
pub open spec fn mounts_verdict(list: Seq<FileModel>, r: Result<(), ProcessAdapterError>) -> bool {
    if list.len() > MAX_FILESYSTEM_CAPABILITY_MOUNTS {
        r == Err::<(), ProcessAdapterError>(ProcessAdapterError::InvalidSandbox)
    } else {
        match r {
            Ok(_) => forall|i: int|
                0 <= i < list.len() ==> (#[trigger] mount_failure(list, i)) is None,
            Err(error) => exists|i: int|
                0 <= i < list.len() && #[trigger] mount_failure(list, i) == Some(error)
                    && first_failure(list, i),
        }
    }
}

/// Whether no entry that fails comes before entry `i`.
pub open spec fn first_failure(list: Seq<FileModel>, i: int) -> bool {
    forall|j: int|
        0 <= j < list.len() && (#[trigger] mount_failure(list, j)) is Some ==> !looked_at_before(
            list[j],
            list[i],
        )
}

fn is_looked_at_before(a: &FileCapability, b: &FileCapability) -> (r: bool)
    ensures
        r == looked_at_before(a@, b@),
{
    is_bytes_before(a.path.as_str().as_bytes(), b.path.as_str().as_bytes()) || (text_eq(
        a.path.as_str(),
        b.path.as_str(),
    ) && a.access == FileAccess::Read && b.access == FileAccess::Write)
}

fn failure_of(capabilities: &[FileCapability], i: usize) -> (r: Option<ProcessAdapterError>)
    requires
        i < capabilities@.len(),
    ensures
        r == mount_failure(task::file_models(capabilities@), i as int),
{
    let ghost list = task::file_models(capabilities@);
    assert(list[i as int] == capabilities@[i as int]@);
    if !is_sandbox_path(capabilities[i].path.as_str().as_bytes()) || text_eq(
        capabilities[i].path.as_str(),
        "/",
    ) {
        return Some(ProcessAdapterError::InvalidSandbox);
    }
    if capabilities[i].access != FileAccess::Read {
        return Some(ProcessAdapterError::UnsupportedFilesystemCapability);
    }
    let mut j: usize = 0;
    while j < capabilities.len()
        invariant
            i < capabilities@.len(),
            j <= capabilities@.len(),
            list == task::file_models(capabilities@),
            path::sandbox_path(text::utf8(list[i as int].path)),
            list[i as int].path != "/"@,
            list[i as int].access is Read,
            forall|k: int| 0 <= k < j && k != i ==> #[trigger] list[k] != list[i as int],
        decreases capabilities@.len() - j,
    {
        assert(list[j as int] == capabilities@[j as int]@);
        assert(list[i as int] == capabilities@[i as int]@);
        if j != i && capabilities[j].same_as(&capabilities[i]) {
            return Some(ProcessAdapterError::InvalidSandbox);
        }
        j = j + 1;
    }
    None
}

/// Takes capabilities that can be mounted: absolute, traversal-free, readable, none twice.
pub fn validate_capabilities(capabilities: &[FileCapability]) -> (r: Result<
    (),
    ProcessAdapterError,
>)
    ensures
        mounts_verdict(task::file_models(capabilities@), r),
{
    let ghost list = task::file_models(capabilities@);
    if capabilities.len() > MAX_FILESYSTEM_CAPABILITY_MOUNTS {
        return Err(ProcessAdapterError::InvalidSandbox);
    }
    let mut found: Option<(usize, ProcessAdapterError)> = None;
    let mut i: usize = 0;
    while i < capabilities.len()
        invariant
            i <= capabilities@.len(),
            list == task::file_models(capabilities@),
            match found {
                None => forall|k: int|
                    0 <= k < i ==> (#[trigger] mount_failure(list, k)) is None,
                Some((at, error)) => {
                    &&& at < i
                    &&& mount_failure(list, at as int) == Some(error)
                    &&& forall|k: int|
                        0 <= k < i && (#[trigger] mount_failure(list, k)) is Some
                            ==> !looked_at_before(list[k], list[at as int])
                },
            },
        decreases capabilities@.len() - i,
    {
        assert(list[i as int] == capabilities@[i as int]@);
        match failure_of(capabilities, i) {
            None => {},
            Some(error) => {
                match found {
                    None => {
                        proof {
                            lemma_order_irreflexive(list[i as int]);
                        }
                        found = Some((i, error));
                    },
                    Some((at, _)) => {
                        assert(list[at as int] == capabilities@[at as int]@);
                        if is_looked_at_before(&capabilities[i], &capabilities[at]) {
                            proof {
                                lemma_order_irreflexive(list[i as int]);
                                assert forall|k: int|
                                    0 <= k < i && (#[trigger] mount_failure(list, k)) is Some
                                        implies !looked_at_before(list[k], list[i as int]) by {
                                    if looked_at_before(list[k], list[i as int]) {
                                        lemma_order_transitive(
                                            list[k],
                                            list[i as int],
                                            list[at as int],
                                        );
                                    }
                                }
                            }
                            found = Some((i, error));
                        }
                    },
                }
            },
        }
        i = i + 1;
    }
    match found {
        None => Ok(()),
        Some((at, error)) => {
            assert(first_failure(list, at as int));
            assert(mount_failure(list, at as int) == Some(error));
            Err(error)
        },
    }
}

proof fn lemma_order_irreflexive(a: FileModel)
    ensures
        !looked_at_before(a, a),
{
    text::lemma_bytes_before_irreflexive(text::utf8(a.path));
}

proof fn lemma_order_transitive(a: FileModel, b: FileModel, c: FileModel)
    requires
        looked_at_before(a, b),
        looked_at_before(b, c),
    ensures
        looked_at_before(a, c),
{
    let x = text::utf8(a.path);
    let y = text::utf8(b.path);
    let z = text::utf8(c.path);
    if text::bytes_before(x, y) && text::bytes_before(y, z) {
        text::lemma_bytes_before_transitive(x, y, z);
    }
}

// --------------------------------------------------------------- mount order

/// How many components a path has, the root among them.
pub open spec fn depth(path: Seq<char>) -> nat {
    path::components(text::utf8(path)).len() + 1
}

/// The order in which capabilities are mounted: the shallow ones first, then by path.
pub open spec fn mounted_before(a: FileModel, b: FileModel) -> bool {
    depth(a.path) < depth(b.path) || (depth(a.path) == depth(b.path) && text::bytes_before(
        text::utf8(a.path),
        text::utf8(b.path),
    ))
}

/// Whether no entry of a list stands behind one that it comes before.
pub open spec fn in_mount_order(list: Seq<FileModel>) -> bool {
    forall|i: int, j: int|
        0 <= i < j < list.len() ==> !mounted_before(#[trigger] list[j], #[trigger] list[i])
}

fn path_depth(path: &str) -> (r: usize)
    ensures
        r == depth(path@) - 1,
{
    let parts = components_of(path.as_bytes());
    assert(text::pieces(parts@).len() == parts@.len());
    parts.len()
}

fn is_mounted_before(a: &FileCapability, b: &FileCapability) -> (r: bool)
    ensures
        r == mounted_before(a@, b@),
{
    let left = path_depth(a.path.as_str());
    let right = path_depth(b.path.as_str());
    left < right || (left == right && is_bytes_before(
        a.path.as_str().as_bytes(),
        b.path.as_str().as_bytes(),
    ))
}

proof fn lemma_mount_order(a: FileModel, b: FileModel, c: FileModel)
    ensures
        !mounted_before(a, a),
        mounted_before(a, b) && mounted_before(b, c) ==> mounted_before(a, c),
        mounted_before(a, b) && !mounted_before(c, b) ==> mounted_before(a, c),
{
    let x = text::utf8(a.path);
    let y = text::utf8(b.path);
    let z = text::utf8(c.path);
    text::lemma_bytes_before_irreflexive(x);
    if text::bytes_before(x, y) && text::bytes_before(y, z) {
        text::lemma_bytes_before_transitive(x, y, z);
    }
    if mounted_before(a, b) && !mounted_before(c, b) && depth(a.path) == depth(b.path) && depth(
        b.path,
    ) == depth(c.path) {
        text::lemma_bytes_before_total(y, z);
        if text::bytes_before(y, z) {
            text::lemma_bytes_before_transitive(x, y, z);
        }
    }
}

proof fn lemma_inserted(list: Seq<FileModel>, at: int, added: FileModel)
    requires
        0 <= at <= list.len(),
        in_mount_order(list),
        forall|k: int| 0 <= k < at ==> !mounted_before(added, #[trigger] list[k]),
        at < list.len() ==> mounted_before(added, list[at]),
    ensures
        in_mount_order(list.insert(at, added)),
        list.insert(at, added).to_multiset() == list.to_multiset().insert(added),
{
    let all = list.insert(at, added);
    list.insert_ensures(at, added);
    assert forall|k: int| at <= k < list.len() implies !mounted_before(#[trigger] list[k], added)
    by {
        lemma_mount_order(added, list[at], list[k]);
        lemma_mount_order(list[k], added, list[at]);
        lemma_mount_order(added, list[k], added);
        if k > at {
            assert(!mounted_before(list[k], list[at]));
        }
    }
    assert forall|i: int, j: int| 0 <= i < j < all.len() implies !mounted_before(
        #[trigger] all[j],
        #[trigger] all[i],
    ) by {
        if j < at {
            assert(all[i] == list[i] && all[j] == list[j]);
        } else if j == at {
            assert(all[i] == list[i]);
        } else if i < at {
            assert(all[i] == list[i] && all[j] == list[j - 1]);
        } else if i == at {
            assert(all[j] == list[j - 1]);
        } else {
            assert(all[i] == list[i - 1] && all[j] == list[j - 1]);
        }
    }
    broadcast use vstd::seq_lib::group_to_multiset_ensures;

    assert(all.remove(at) =~= list);
    assert(all[at] == added);
    assert(all.contains(added));
    assert(all.to_multiset().remove(added) == list.to_multiset());
    assert(all.to_multiset() =~= list.to_multiset().insert(added));
}

/// Puts capabilities in the order in which they are mounted.
#[must_use]
pub fn mount_order(capabilities: &Vec<FileCapability>) -> (r: Vec<FileCapability>)
    ensures
        in_mount_order(task::file_models(r@)),
        task::file_models(r@).to_multiset() == task::file_models(capabilities@).to_multiset(),
{
    let ghost given = task::file_models(capabilities@);
    let mut out: Vec<FileCapability> = Vec::new();
    let mut i: usize = 0;
    assert(task::file_models(out@) =~= given.take(0));
    while i < capabilities.len()
        invariant
            i <= capabilities@.len(),
            out@.len() == i,
            given == task::file_models(capabilities@),
            in_mount_order(task::file_models(out@)),
            task::file_models(out@).to_multiset() == given.take(i as int).to_multiset(),
        decreases capabilities@.len() - i,
    {
        let ghost list = task::file_models(out@);
        let ghost added = given[i as int];
        assert(added == capabilities@[i as int]@);
        let mut at: usize = 0;
        while at < out.len() && !is_mounted_before(&capabilities[i], &out[at])
            invariant
                i < capabilities@.len(),
                at <= out@.len(),
                list == task::file_models(out@),
                added == capabilities@[i as int]@,
                forall|k: int| 0 <= k < at ==> !mounted_before(added, #[trigger] list[k]),
            decreases out@.len() - at,
        {
            assert(list[at as int] == out@[at as int]@);
            at = at + 1;
        }
        proof {
            if at < list.len() {
                assert(list[at as int] == out@[at as int]@);
            }
            lemma_inserted(list, at as int, added);
        }
        let copy = capabilities[i].clone();
        let ghost before = out@;
        proof {
            before.insert_ensures(at as int, copy);
        }
        out.insert(at, copy);
        proof {
            assert(task::file_models(out@) =~= list.insert(at as int, added));
            assert(given.take(i + 1) =~= given.take(i as int).push(added));
            vstd::seq_lib::to_multiset_build(given.take(i as int), added);
        }
        i = i + 1;
    }
    assert(given.take(i as int) =~= given);
    out
}

/// A directory is mounted before what lies below it.
pub proof fn law_parents_are_mounted_first(parent: FileModel, child: FileModel)
    requires
        path::within(text::utf8(child.path), text::utf8(parent.path)),
        path::components(text::utf8(child.path)) != path::components(text::utf8(parent.path)),
    ensures
        mounted_before(parent, child),
{
    let a = path::components(text::utf8(child.path));
    let b = path::components(text::utf8(parent.path));
    if a.len() == b.len() {
        assert(a.take(b.len() as int) =~= a);
    }
}

} // verus!
