//! Paths of the host, as bytes.
//!
//! A path is what the operating system takes: bytes, with `/` between components. Components
//! that are empty or `.` name nothing.

use vstd::prelude::*;

use crate::text;
use crate::text::{bytes_eq, split_bytes};

verus! {

pub const SEPARATOR: u8 = 0x2f;

/// The longest path that is ever configured.
pub const MAX_PATH_BYTES: usize = 4_096;

/// Whether a path starts at the filesystem root.
pub open spec fn absolute(path: Seq<u8>) -> bool {
    path.len() > 0 && path[0] == SEPARATOR
}

/// Whether a piece of a path names something.
pub open spec fn names(piece: Seq<u8>) -> bool {
    piece.len() > 0 && piece != seq![0x2eu8]
}

/// The components of a path.
pub open spec fn components(path: Seq<u8>) -> Seq<Seq<u8>> {
    text::split(path, SEPARATOR).filter(|piece: Seq<u8>| names(piece))
}

/// Whether no component leads upwards.
pub open spec fn traversal_free(path: Seq<u8>) -> bool {
    forall|i: int|
        0 <= i < components(path).len() ==> #[trigger] components(path)[i] != seq![0x2eu8, 0x2eu8]
}

/// Whether a path lies at or below another, component by component.
pub open spec fn within(path: Seq<u8>, base: Seq<u8>) -> bool {
    components(base).len() <= components(path).len() && components(path).take(
        components(base).len() as int,
    ) == components(base)
}

/// A path inside a sandbox: absolute, bounded, without NUL, and without a way upwards.
pub open spec fn sandbox_path(path: Seq<u8>) -> bool {
    &&& absolute(path)
    &&& path.len() <= MAX_PATH_BYTES
    &&& !path.contains(0u8)
    &&& traversal_free(path)
}

/// A path below a directory.
pub open spec fn joined(directory: Seq<u8>, name: Seq<u8>) -> Seq<u8> {
    directory + seq![SEPARATOR] + name
}

/// Whether a path starts at the filesystem root.
#[must_use]
pub fn is_absolute(path: &[u8]) -> (r: bool)
    ensures
        r == absolute(path@),
{
    path.len() > 0 && path[0] == SEPARATOR
}

fn is_name(piece: &Vec<u8>) -> (r: bool)
    ensures
        r == names(piece@),
{
    if piece.len() == 0 {
        return false;
    }
    if piece.len() == 1 && piece[0] == 0x2e {
        assert(piece@ =~= seq![0x2eu8]);
        return false;
    }
    proof {
        if piece@ == seq![0x2eu8] {
            assert(piece@[0] == 0x2e);
            assert(piece@.len() == 1);
        }
    }
    true
}

/// The components of a path.
#[must_use]
pub fn components_of(path: &[u8]) -> (r: Vec<Vec<u8>>)
    ensures
        text::pieces(r@) == components(path@),
{
    let mut pieces = split_bytes(path, SEPARATOR);
    let ghost all = text::split(path@, SEPARATOR);
    let ghost keep = |piece: Seq<u8>| names(piece);
    let mut out: Vec<Vec<u8>> = Vec::new();
    let mut i: usize = 0;
    proof {
        reveal(Seq::filter);
        assert(text::pieces(out@) =~= all.take(0).filter(keep));
    }
    while i < pieces.len()
        invariant
            i <= pieces@.len(),
            all == text::pieces(pieces@),
            keep == |piece: Seq<u8>| names(piece),
            text::pieces(out@) == all.take(i as int).filter(keep),
        decreases pieces@.len() - i,
    {
        let ghost before = text::pieces(out@);
        let ghost next = all.take(i + 1);
        proof {
            reveal(Seq::filter);
            assert(all[i as int] == pieces@[i as int]@);
            assert(next.drop_last() =~= all.take(i as int));
            assert(next.last() == all[i as int]);
        }
        if is_name(&pieces[i]) {
            out.push(text::clone_bytes(pieces[i].as_slice()));
            assert(text::pieces(out@) =~= before.push(all[i as int]));
        }
        i = i + 1;
    }
    assert(all.take(i as int) =~= all);
    out
}

/// Whether a path names something below the filesystem root.
#[must_use]
pub fn has_components(path: &[u8]) -> (r: bool)
    ensures
        r == (components(path@).len() > 0),
{
    let parts = components_of(path);
    assert(text::pieces(parts@).len() == parts@.len());
    parts.len() > 0
}

/// Decides [`traversal_free`].
#[must_use]
pub fn is_traversal_free(path: &[u8]) -> (r: bool)
    ensures
        r == traversal_free(path@),
{
    let parts = components_of(path);
    let ghost models = components(path@);
    let mut i: usize = 0;
    while i < parts.len()
        invariant
            i <= parts@.len(),
            models == components(path@),
            text::pieces(parts@) == models,
            forall|k: int| 0 <= k < i ==> #[trigger] models[k] != seq![0x2eu8, 0x2eu8],
        decreases parts@.len() - i,
    {
        assert(models[i as int] == parts@[i as int]@);
        let part = &parts[i];
        if part.len() == 2 && part[0] == 0x2e && part[1] == 0x2e {
            assert(part@ =~= seq![0x2eu8, 0x2eu8]);
            return false;
        }
        proof {
            if part@ == seq![0x2eu8, 0x2eu8] {
                assert(part@.len() == 2 && part@[0] == 0x2e && part@[1] == 0x2e);
            }
        }
        i = i + 1;
    }
    assert(models.len() == parts@.len());
    true
}

/// Decides [`within`].
#[must_use]
pub fn is_within(path: &[u8], base: &[u8]) -> (r: bool)
    ensures
        r == within(path@, base@),
{
    let inner = components_of(path);
    let outer = components_of(base);
    let ghost a = components(path@);
    let ghost b = components(base@);
    assert(a.len() == inner@.len() && b.len() == outer@.len());
    if outer.len() > inner.len() {
        return false;
    }
    let mut i: usize = 0;
    while i < outer.len()
        invariant
            i <= outer@.len() <= inner@.len(),
            a == components(path@),
            b == components(base@),
            text::pieces(inner@) == a,
            text::pieces(outer@) == b,
            forall|k: int| 0 <= k < i ==> #[trigger] a[k] == b[k],
        decreases outer@.len() - i,
    {
        assert(a[i as int] == inner@[i as int]@ && b[i as int] == outer@[i as int]@);
        if !bytes_eq(inner[i].as_slice(), outer[i].as_slice()) {
            assert(a.take(b.len() as int)[i as int] != b[i as int]);
            return false;
        }
        i = i + 1;
    }
    assert(a.take(b.len() as int) =~= b);
    true
}

/// Decides [`sandbox_path`].
#[must_use]
pub fn is_sandbox_path(path: &[u8]) -> (r: bool)
    ensures
        r == sandbox_path(path@),
{
    is_absolute(path) && path.len() <= MAX_PATH_BYTES && !text::bytes_contain(path, 0)
        && is_traversal_free(path)
}

/// A path below a directory.
#[must_use]
pub fn join(directory: &[u8], name: &[u8]) -> (r: Vec<u8>)
    ensures
        r@ == joined(directory@, name@),
{
    let mut out = text::clone_bytes(directory);
    out.push(SEPARATOR);
    let mut tail = text::clone_bytes(name);
    out.append(&mut tail);
    assert(out@ =~= joined(directory@, name@));
    out
}

/// What lies within a directory that lies within another lies within that other.
pub proof fn law_within_is_transitive(a: Seq<u8>, b: Seq<u8>, c: Seq<u8>)
    requires
        within(a, b),
        within(b, c),
    ensures
        within(a, c),
{
    let x = components(a);
    let y = components(b);
    let z = components(c);
    assert(x.take(z.len() as int) =~= x.take(y.len() as int).take(z.len() as int));
}

} // verus!
