//! Laws on paths.

use vstd::prelude::*;

use crate::laws::scan as scans;
use crate::laws::text as texts;
use crate::path;
use crate::text;

verus! {

/// The components of two paths with a slash between them are those of the first and then those of
/// the second.
pub proof fn law_components_join(a: Seq<u8>, b: Seq<u8>)
    ensures
        path::components(a + seq!['/' as u8] + b) == path::components(a) + path::components(b),
{
    texts::law_pieces_join(a, b, 0x2f);
    scans::lemma_filters_join(
        text::split(a, 0x2f),
        text::split(b, 0x2f),
        |piece: Seq<u8>| path::names(piece),
    );
}

/// A name is one component; nothing, and a single dot, are none.
pub proof fn law_names_are_components(name: Seq<u8>)
    requires
        !name.contains('/' as u8),
    ensures
        name.len() > 1 ==> path::components(name) == seq![name],
        name.len() == 1 && name[0] != '.' as u8 ==> path::components(name) == seq![name],
        name.len() == 0 ==> path::components(name) == Seq::<Seq<u8>>::empty(),
        name.len() == 1 && name[0] == '.' as u8 ==> path::components(name) == Seq::<
            Seq<u8>,
        >::empty(),
{
    texts::law_one_piece(name, 0x2f);
    scans::lemma_filter_of_one(name, |piece: Seq<u8>| path::names(piece));
    if name.len() == 1 && name[0] == 0x2e {
        assert(name =~= seq![0x2eu8]);
    }
    if name.len() == 1 && name[0] != 0x2e {
        assert(name[0] != seq![0x2eu8][0]);
    }
}

/// A path lies within itself, and what is joined to it lies within it; a path within another
/// begins with all of its components.
pub proof fn law_joined_paths_lie_within(base: Seq<u8>, name: Seq<u8>, other: Seq<u8>)
    ensures
        path::within(base, base),
        path::within(path::joined(base, name), base),
        path::joined(base, name) == base + seq!['/' as u8] + name,
        path::within(other, base) ==> exists|rest: Seq<Seq<u8>>|
            path::components(other) == #[trigger] (path::components(base) + rest),
{
    law_components_join(base, name);
    let b = path::components(base);
    assert(b.take(b.len() as int) =~= b);
    assert((b + path::components(name)).take(b.len() as int) =~= b);
    if path::within(other, base) {
        let c = path::components(other);
        let rest = c.skip(b.len() as int);
        assert(c =~= b + rest);
    }
}

/// Two paths that lie within each other have the same components.
pub proof fn law_within_each_other_is_the_same(a: Seq<u8>, b: Seq<u8>)
    requires
        path::within(a, b),
        path::within(b, a),
    ensures
        path::components(a) == path::components(b),
{
    let (x, y) = (path::components(a), path::components(b));
    assert(x.take(y.len() as int) =~= x);
}

/// A path in a sandbox is absolute, of at most 4096 bytes, free of NUL, and stays so when a plain
/// name is joined to it.
pub proof fn law_sandbox_paths_extend(base: Seq<u8>, name: Seq<u8>)
    requires
        path::sandbox_path(base),
        !name.contains('/' as u8),
        !name.contains(0u8),
        !(name.len() == 2 && name[0] == '.' as u8 && name[1] == '.' as u8),
        base.len() + 1 + name.len() <= 4_096,
    ensures
        path::sandbox_path(path::joined(base, name)),
        base[0] == '/' as u8 && base.len() <= 4_096 && !base.contains(0u8),
{
    law_components_join(base, name);
    law_names_are_components(name);
    let whole = path::joined(base, name);
    let all = path::components(whole);
    let b = path::components(base);
    assert forall|i: int| 0 <= i < all.len() implies #[trigger] all[i] != seq![0x2eu8, 0x2eu8] by {
        if i < b.len() {
            assert(all[i] == b[i]);
        } else {
            assert(all[i] == name);
            if name == seq![0x2eu8, 0x2eu8] {
                assert(name.len() == 2 && name[0] == 0x2e && name[1] == 0x2e);
            }
        }
    }
    if whole.contains(0u8) {
        let i = choose|i: int| 0 <= i < whole.len() && whole[i] == 0;
        if i < base.len() {
            assert(base.contains(base[i]));
        } else if i > base.len() {
            assert(whole[i] == name[i - base.len() - 1]);
            assert(name.contains(name[i - base.len() - 1]));
        }
    }
}

/// A path with a `..` component is no path in a sandbox, wherever it stands.
pub proof fn law_sandbox_paths_do_not_lead_upwards(a: Seq<u8>, b: Seq<u8>)
    ensures
        !path::sandbox_path(a + seq!['/' as u8] + (seq!['.' as u8, '.' as u8] + (seq!['/' as u8]
            + b))),
        !path::sandbox_path(a + seq!['/' as u8] + seq!['.' as u8, '.' as u8]),
{
    let up = seq![0x2eu8, 0x2eu8];
    assert(seq!['.' as u8, '.' as u8] =~= up);
    law_names_are_components(up);
    law_components_join(up, b);
    assert(up + (seq![0x2fu8] + b) =~= up + seq![0x2fu8] + b);
    law_components_join(a, up + (seq![0x2fu8] + b));
    law_components_join(a, up);
    let n = path::components(a).len() as int;
    let long = path::components(a + seq![0x2fu8] + (up + (seq![0x2fu8] + b)));
    assert(long[n] == up);
    let short = path::components(a + seq![0x2fu8] + up);
    assert(short[n] == up);
}

} // verus!
