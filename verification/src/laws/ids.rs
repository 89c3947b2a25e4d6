//! Laws on written identifiers.

use vstd::prelude::*;

use crate::idmap;
use crate::ids;

verus! {

/// The places of the hyphens in an identifier.
pub open spec fn at_hyphen(i: int) -> bool {
    i == 8 || i == 13 || i == 18 || i == 23
}

/// An identifier is written in 36 characters, lowercase hexadecimal digits but for four hyphens.
pub proof fn law_identifiers_are_written_in_hexadecimal(value: u128, i: int)
    requires
        0 <= i < 36,
    ensures
        ids::hyphenated(value).len() == 36,
        at_hyphen(i) ==> ids::hyphenated(value)[i] == '-',
        !at_hyphen(i) ==> {
            let c = ids::hyphenated(value)[i];
            ('0' <= c <= '9') || ('a' <= c <= 'f')
        },
{
}

/// Different identifiers are written differently.
pub proof fn law_identifiers_are_told_apart(a: u128, b: u128)
    requires
        a != b,
    ensures
        ids::hyphenated(a) != ids::hyphenated(b),
{
    if ids::hyphenated(a) == ids::hyphenated(b) {
        assert forall|p: int| 0 <= p < 32 implies #[trigger] ids::hex_place(a, p)
            == ids::hex_place(b, p) by {
            let i = if p < 8 {
                p
            } else if p < 12 {
                p + 1
            } else if p < 16 {
                p + 2
            } else if p < 20 {
                p + 3
            } else {
                p + 4
            };
            assert(ids::hyphenated(a)[i] == ids::hex_place(a, p));
            assert(ids::hyphenated(b)[i] == ids::hex_place(b, p));
        }
        lemma_same_front(a, b, 32);
        lemma_pow_zero();
    }
}

proof fn lemma_pow_zero()
    ensures
        vstd::arithmetic::power::pow(16, 0) == 1,
{
    vstd::arithmetic::power::lemma_pow0(16);
}

/// What stands before the last `32 - n` digits is the same where the first `n` digits are.
proof fn lemma_same_front(a: u128, b: u128, n: int)
    requires
        0 <= n <= 32,
        forall|p: int| 0 <= p < 32 ==> #[trigger] ids::hex_place(a, p) == ids::hex_place(b, p),
    ensures
        a as int / vstd::arithmetic::power::pow(16, (32 - n) as nat) == b as int
            / vstd::arithmetic::power::pow(16, (32 - n) as nat),
    decreases n,
{
    let big = vstd::arithmetic::power::pow(16, (32 - n) as nat);
    vstd::arithmetic::power::lemma_pow_positive(16, (32 - n) as nat);
    if n == 0 {
        assert(big == 0x1_0000_0000_0000_0000_0000_0000_0000_0000int) by {
            lemma_sixteen();
        }
        assert(a as int / big == 0 && b as int / big == 0) by (nonlinear_arith)
            requires
                0 <= a < big,
                0 <= b < big,
                big > 0,
        ;
    } else {
        lemma_same_front(a, b, n - 1);
        let bigger = vstd::arithmetic::power::pow(16, (33 - n) as nat);
        vstd::arithmetic::power::lemma_pow_adds(16, (32 - n) as nat, 1);
        vstd::arithmetic::power::lemma_pow1(16);
        assert(bigger == big * 16);
        vstd::arithmetic::div_mod::lemma_div_denominator(a as int, big, 16);
        vstd::arithmetic::div_mod::lemma_div_denominator(b as int, big, 16);
        let (x, y) = (a as int / big, b as int / big);
        assert(x / 16 == y / 16);
        assert(ids::hex_place(a, n - 1) == ids::hex_place(b, n - 1));
        assert(31 - (n - 1) == 32 - n);
        lemma_hex_char(x % 16, y % 16);
        assert(x == 16 * (x / 16) + x % 16);
        assert(y == 16 * (y / 16) + y % 16);
    }
}

proof fn lemma_hex_char(x: int, y: int)
    requires
        0 <= x < 16,
        0 <= y < 16,
        ids::hex_char(x) == ids::hex_char(y),
    ensures
        x == y,
{
}

proof fn lemma_sixteen()
    ensures
        vstd::arithmetic::power::pow(16, 32) == 0x1_0000_0000_0000_0000_0000_0000_0000_0000int,
{
    vstd::arithmetic::power::lemma_pow1(16);
    vstd::arithmetic::power::lemma_pow_adds(16, 1, 1);
    assert(vstd::arithmetic::power::pow(16, 2) == 0x100);
    vstd::arithmetic::power::lemma_pow_adds(16, 2, 2);
    assert(vstd::arithmetic::power::pow(16, 4) == 0x1_0000);
    vstd::arithmetic::power::lemma_pow_adds(16, 4, 4);
    assert(vstd::arithmetic::power::pow(16, 8) == 0x1_0000_0000int);
    vstd::arithmetic::power::lemma_pow_adds(16, 8, 8);
    assert(vstd::arithmetic::power::pow(16, 16) == 0x1_0000_0000_0000_0000int);
    vstd::arithmetic::power::lemma_pow_adds(16, 16, 16);
}

/// The last digit counts ones and every digit sixteen times the next.
pub proof fn law_the_last_digit_counts_ones(value: u128)
    ensures
        ids::hyphenated(value)[35] == (if value % 16 < 10 {
            ('0' as int + value % 16) as char
        } else {
            ('a' as int + value % 16 - 10) as char
        }),
        ids::hyphenated(value)[34] == (if value / 16 % 16 < 10 {
            ('0' as int + value / 16 % 16) as char
        } else {
            ('a' as int + value / 16 % 16 - 10) as char
        }),
{
    lemma_pow_zero();
    vstd::arithmetic::power::lemma_pow1(16);
}

/// An identifier of version 7 shows a `7` behind its second hyphen and an `8`, `9`, `a` or `b`
/// behind its third.
pub proof fn law_versions_are_shown(value: u128)
    requires
        ids::is_version_7(value),
    ensures
        ids::hyphenated(value)[14] == '7',
        ({
            let c = ids::hyphenated(value)[19];
            c == '8' || c == '9' || c == 'a' || c == 'b'
        }),
{
    lemma_sixteen_powers();
    let v = value as int;
    assert(ids::hyphenated(value)[14] == ids::hex_place(value, 12));
    assert(ids::hyphenated(value)[19] == ids::hex_place(value, 16));
    vstd::arithmetic::div_mod::lemma_div_denominator(
        v,
        vstd::arithmetic::power::pow(16, 15),
        4,
    );
}

proof fn lemma_sixteen_powers()
    ensures
        vstd::arithmetic::power::pow(16, 19) == 0x1000_0000_0000_0000_0000int,
        vstd::arithmetic::power::pow(16, 16) == 0x1_0000_0000_0000_0000int,
        vstd::arithmetic::power::pow(16, 15) == 0x1000_0000_0000_0000int,
{
    lemma_sixteen();
    vstd::arithmetic::power::lemma_pow1(16);
    vstd::arithmetic::power::lemma_pow_adds(16, 1, 1);
    vstd::arithmetic::power::lemma_pow_adds(16, 2, 1);
    assert(vstd::arithmetic::power::pow(16, 2) == 0x100);
    assert(vstd::arithmetic::power::pow(16, 3) == 0x1000);
    vstd::arithmetic::power::lemma_pow_adds(16, 2, 2);
    assert(vstd::arithmetic::power::pow(16, 4) == 0x1_0000);
    vstd::arithmetic::power::lemma_pow_adds(16, 4, 4);
    assert(vstd::arithmetic::power::pow(16, 8) == 0x1_0000_0000int);
    vstd::arithmetic::power::lemma_pow_adds(16, 8, 4);
    assert(vstd::arithmetic::power::pow(16, 12) == 0x1_0000_0000_0000int);
    vstd::arithmetic::power::lemma_pow_adds(16, 12, 3);
    vstd::arithmetic::power::lemma_pow_adds(16, 8, 8);
    assert(vstd::arithmetic::power::pow(16, 16) == 0x1_0000_0000_0000_0000int);
    vstd::arithmetic::power::lemma_pow_adds(16, 16, 3);
}

/// A listing names each identifier of a set once, from the smallest to the largest.
pub proof fn law_listings_ascend(set: Set<u128>, id: u128, i: int, j: int)
    requires
        set.finite(),
    ensures
        idmap::ascending(set).contains(id) <==> set.contains(id),
        idmap::ascending(set).len() == set.len(),
        0 <= i < j < idmap::ascending(set).len() ==> idmap::ascending(set)[i]
            < idmap::ascending(set)[j],
{
    idmap::lemma_ascending_lists(set);
    idmap::lemma_is_ascending(idmap::ascending(set), set);
    let list = idmap::ascending(set);
    assert(list.to_set().contains(id) <==> list.contains(id));
}

} // verus!
