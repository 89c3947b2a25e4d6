//! Laws on written addresses.

use vstd::prelude::*;

use crate::ip;
use crate::ip::IpModel;
use crate::laws::text as texts;
use crate::text;

verus! {

/// The decimal numeral of an octet: one to three digits, without a leading zero.
pub open spec fn octet_text(value: u8) -> Seq<u8> {
    if value < 10 {
        seq![('0' as u8 + value) as u8]
    } else if value < 100 {
        seq![('0' as u8 + value / 10) as u8, ('0' as u8 + value % 10) as u8]
    } else {
        seq![
            ('0' as u8 + value / 100) as u8,
            ('0' as u8 + value / 10 % 10) as u8,
            ('0' as u8 + value % 10) as u8,
        ]
    }
}

/// An octet is read from its numeral, and from nothing else.
pub proof fn law_octets_are_written_one_way(piece: Seq<u8>, value: u8)
    ensures
        ip::octet(piece) == Some(value) <==> piece == octet_text(value),
{
    reveal_with_fuel(ip::numeral_value, 4);
    if piece == octet_text(value) {
        lemma_octet_text(value);
    }
    if ip::octet(piece) == Some(value) {
        lemma_octet_piece(piece, value);
    }
}

proof fn lemma_octet_text(value: u8)
    ensures
        ip::octet(octet_text(value)) == Some(value),
{
    reveal_with_fuel(ip::numeral_value, 4);
    let t = octet_text(value);
    assert(forall|i: int| 0 <= i < t.len() ==> 0x30 <= #[trigger] t[i] <= 0x39);
    assert forall|i: int| 0 <= i < t.len() implies (#[trigger] ip::hex_digit(t[i])) is Some
        && ip::hex_digit(t[i])->0 < 10 by {
        assert(0x30 <= t[i] <= 0x39);
    }
    if value < 10 {
        assert(t.drop_last() =~= Seq::<u8>::empty());
    } else if value < 100 {
        assert(t.drop_last().drop_last() =~= Seq::<u8>::empty());
        assert(ip::numeral_value(t, 10) == value);
    } else {
        assert(t.drop_last().drop_last().drop_last() =~= Seq::<u8>::empty());
        assert(value / 10 / 10 == value / 100);
        assert(ip::numeral_value(t, 10) == value);
    }
}

proof fn lemma_octet_piece(piece: Seq<u8>, value: u8)
    requires
        ip::octet(piece) == Some(value),
    ensures
        piece == octet_text(value),
{
    reveal_with_fuel(ip::numeral_value, 4);
    assert forall|i: int| 0 <= i < piece.len() implies 0x30 <= #[trigger] piece[i] <= 0x39 by {
        assert(ip::hex_digit(piece[i]) is Some);
    }
    if piece.len() == 1 {
        assert(piece.drop_last() =~= Seq::<u8>::empty());
        assert(value == piece[0] - 0x30);
    } else if piece.len() == 2 {
        assert(piece.drop_last().drop_last() =~= Seq::<u8>::empty());
        assert(value == (piece[0] - 0x30) * 10 + (piece[1] - 0x30));
    } else {
        assert(piece.drop_last().drop_last().drop_last() =~= Seq::<u8>::empty());
        assert(value == ((piece[0] - 0x30) * 10 + (piece[1] - 0x30)) * 10 + (piece[2] - 0x30));
    }
    assert(piece =~= octet_text(value));
}

/// The dotted form of four octets.
pub open spec fn dotted_quad(a: u8, b: u8, c: u8, d: u8) -> Seq<u8> {
    octet_text(a) + seq!['.' as u8] + (octet_text(b) + seq!['.' as u8] + (octet_text(c)
        + seq!['.' as u8] + octet_text(d)))
}

/// Four octets are read from their dotted form, and from nothing else.
pub proof fn law_quads_are_written_one_way(bytes: Seq<u8>, a: u8, b: u8, c: u8, d: u8)
    ensures
        ip::ipv4_value(bytes) == Some(seq![a, b, c, d]) <==> bytes == dotted_quad(a, b, c, d),
        ip::ip_value(dotted_quad(a, b, c, d)) == Some(IpModel::V4(seq![a, b, c, d])),
{
    let (x, y, z, w) = (octet_text(a), octet_text(b), octet_text(c), octet_text(d));
    law_octets_are_written_one_way(x, a);
    law_octets_are_written_one_way(y, b);
    law_octets_are_written_one_way(z, c);
    law_octets_are_written_one_way(w, d);
    texts::law_one_piece(x, 0x2e);
    texts::law_one_piece(y, 0x2e);
    texts::law_one_piece(z, 0x2e);
    texts::law_one_piece(w, 0x2e);
    let t3 = z + seq![0x2eu8] + w;
    let t2 = y + seq![0x2eu8] + t3;
    let t1 = x + seq![0x2eu8] + t2;
    texts::law_pieces_join(z, w, 0x2e);
    texts::law_pieces_join(y, t3, 0x2e);
    texts::law_pieces_join(x, t2, 0x2e);
    let parts = text::split(t1, 0x2e);
    assert(parts =~= seq![x, y, z, w]);
    assert(dotted_quad(a, b, c, d) == t1);
    assert(ip::ipv4_value(t1) is Some);
    assert(ip::ipv4_value(t1)->0 =~= seq![a, b, c, d]);
    if ip::ipv4_value(bytes) == Some(seq![a, b, c, d]) {
        let p = text::split(bytes, 0x2e);
        let o = seq![a, b, c, d];
        let q = ip::ipv4_value(bytes)->0;
        assert(ip::octet(p[0]) == Some(q[0]) && q[0] == a);
        assert(ip::octet(p[1]) == Some(q[1]) && q[1] == b);
        assert(ip::octet(p[2]) == Some(q[2]) && q[2] == c);
        assert(ip::octet(p[3]) == Some(q[3]) && q[3] == d);
        law_octets_are_written_one_way(p[0], a);
        law_octets_are_written_one_way(p[1], b);
        law_octets_are_written_one_way(p[2], c);
        law_octets_are_written_one_way(p[3], d);
        let r1 = texts::lemma_first_piece(bytes, 0x2e);
        let r2 = texts::lemma_first_piece(r1, 0x2e);
        let r3 = texts::lemma_first_piece(r2, 0x2e);
        assert(text::split(r3, 0x2e) =~= seq![p[3]]);
        text::lemma_first_index_bounds(r3, 0x2e);
        texts::law_pieces_hold_no_separator(r3, 0x2e);
        lemma_single_piece(r3, 0x2e);
    }
}

proof fn lemma_single_piece(bytes: Seq<u8>, sep: u8)
    requires
        text::split(bytes, sep).len() == 1,
    ensures
        text::split(bytes, sep)[0] == bytes,
{
    let at = text::first_index(bytes, sep);
    text::lemma_first_index_bounds(bytes, sep);
    if at < bytes.len() {
        texts::law_pieces_hold_no_separator(bytes.skip(at + 1), sep);
    }
}

/// A hexadecimal digit counts the same in either case.
pub proof fn law_hexadecimal_digits_count_up(byte: u8)
    ensures
        '0' as u8 <= byte <= '9' as u8 ==> ip::hex_digit(byte) == Some((byte - '0' as u8) as nat),
        'a' as u8 <= byte <= 'f' as u8 ==> ip::hex_digit(byte) == Some(
            (10 + byte - 'a' as u8) as nat,
        ),
        'A' as u8 <= byte <= 'F' as u8 ==> ip::hex_digit(byte) == Some(
            (10 + byte - 'A' as u8) as nat,
        ),
        ip::hex_digit(byte) is Some ==> ('0' as u8 <= byte <= '9' as u8) || ('a' as u8 <= byte
            <= 'f' as u8) || ('A' as u8 <= byte <= 'F' as u8),
{
}

/// A group is of one to four hexadecimal digits, each worth sixteen times the next.
pub proof fn law_groups_read_as_hexadecimal(piece: Seq<u8>, digit: u8)
    requires
        ip::hex_digit(digit) is Some,
    ensures
        ip::group(seq![digit]) is Some && ip::group(seq![digit])->0 == ip::hex_digit(digit)->0,
        ip::group(piece) is Some && piece.len() < 4 ==> ip::group(piece.push(digit)) is Some
            && ip::group(piece.push(digit))->0 == ip::group(piece)->0 * 16 + ip::hex_digit(
            digit,
        )->0,
        ip::group(piece) is Some ==> 1 <= piece.len() <= 4,
{
    reveal_with_fuel(ip::numeral_value, 2);
    assert(seq![digit].drop_last() =~= Seq::<u8>::empty());
    lemma_digit_bound(digit);
    if ip::group(piece) is Some && piece.len() < 4 {
        let more = piece.push(digit);
        assert(more.drop_last() =~= piece);
        lemma_group_bound(piece);
        assert forall|i: int| 0 <= i < more.len() implies (#[trigger] ip::hex_digit(more[i])) is Some
            && ip::hex_digit(more[i])->0 < 16 by {
            if i < piece.len() {
                assert(ip::hex_digit(piece[i]) is Some);
            }
        }
    }
}

proof fn lemma_digit_bound(digit: u8)
    ensures
        ip::hex_digit(digit) is Some ==> ip::hex_digit(digit)->0 < 16,
{
}

proof fn lemma_group_bound(piece: Seq<u8>)
    requires
        1 <= piece.len() <= 3,
        ip::is_numeral(piece, 16),
    ensures
        ip::numeral_value(piece, 16) < 4096,
{
    reveal_with_fuel(ip::numeral_value, 4);
    assert(ip::hex_digit(piece.last()) is Some) by {
        assert(ip::hex_digit(piece[piece.len() - 1]) is Some);
    }
    let p2 = piece.drop_last();
    if p2.len() > 0 {
        assert(ip::hex_digit(piece[p2.len() - 1]) is Some);
        let p3 = p2.drop_last();
        if p3.len() > 0 {
            assert(ip::hex_digit(piece[0]) is Some);
            assert(p3.drop_last() =~= Seq::<u8>::empty());
        } else {
            assert(p3 =~= Seq::<u8>::empty());
        }
    } else {
        assert(p2 =~= Seq::<u8>::empty());
    }
}

/// Groups with colons between them are read one after another, and the address is of eight.
pub proof fn law_groups_are_read_in_order(piece: Seq<u8>, rest: Seq<u8>, allow_ipv4: bool)
    requires
        !piece.contains(':' as u8),
    ensures
        ip::groups_of(text::split(piece + seq![':' as u8] + rest, 0x3a), allow_ipv4) is Some
            <==> ip::group(piece) is Some && ip::groups_of(
            text::split(rest, 0x3a),
            allow_ipv4,
        ) is Some,
        ip::group(piece) is Some && ip::groups_of(text::split(rest, 0x3a), allow_ipv4) is Some
            ==> ip::groups_of(text::split(piece + seq![':' as u8] + rest, 0x3a), allow_ipv4)->0
            == seq![ip::group(piece)->0] + ip::groups_of(text::split(rest, 0x3a), allow_ipv4)->0,
        ip::group(piece) is Some ==> ip::groups_of(text::split(piece, 0x3a), allow_ipv4) == Some(
            seq![ip::group(piece)->0],
        ),
{
    texts::law_one_piece(piece, 0x3a);
    texts::law_pieces_join(piece, rest, 0x3a);
    texts::law_pieces_hold_no_separator(rest, 0x3a);
    let parts = text::split(piece + seq![0x3au8] + rest, 0x3a);
    assert(parts[0] == piece);
    assert(parts.drop_first() =~= text::split(rest, 0x3a));
}

/// Two texts with `::` between them.
pub open spec fn with_colons(head: Seq<u8>, tail: Seq<u8>) -> Seq<u8> {
    head + seq![':' as u8, ':' as u8] + tail
}

/// An address without `::` is of eight groups. Where `::` stands, zeros fill the address up to
/// eight groups, between those before it and those behind it, and there is at least one.
pub proof fn law_gaps_are_filled_with_zeros(head: Seq<u8>, tail: Seq<u8>, i: int)
    requires
        forall|k: int|
            0 <= k < head.len() ==> !(with_colons(head, tail)[k] == ':' as u8 && #[trigger]
                with_colons(head, tail)[k + 1] == ':' as u8),
        ip::side_groups(head, false) is Some,
        ip::side_groups(tail, true) is Some,
        0 <= i < 8,
    ensures
        ({
            let value = ip::ipv6_value(with_colons(head, tail));
            let before = ip::side_groups(head, false)->0;
            let behind = ip::side_groups(tail, true)->0;
            &&& value is Some <==> before.len() + behind.len() <= 7
            &&& value is Some ==> value->0.len() == 8 && value->0[i] == (if i < before.len() {
                before[i]
            } else if i >= 8 - behind.len() {
                behind[i - (8 - behind.len())]
            } else {
                0
            })
        }),
{
    let bytes = with_colons(head, tail);
    ip::lemma_first_gap(bytes, head.len() as int);
    assert(bytes.take(head.len() as int) =~= head);
    assert(bytes.skip(head.len() as int + 2) =~= tail);
}

/// The sides of a gap may be empty.
pub proof fn law_sides_may_be_empty(bytes: Seq<u8>, allow_ipv4: bool)
    ensures
        bytes.len() == 0 ==> ip::side_groups(bytes, allow_ipv4) == Some(Seq::<u16>::empty()),
        bytes.len() > 0 ==> ip::side_groups(bytes, allow_ipv4) == ip::groups_of(
            text::split(bytes, 0x3a),
            allow_ipv4,
        ),
        (forall|k: int| 0 <= k < bytes.len() - 1 ==> !(bytes[k] == 0x3a && #[trigger] bytes[k + 1]
            == 0x3a)) ==> (ip::ipv6_value(bytes) is Some <==> ip::side_groups(bytes, true) is Some
            && ip::side_groups(bytes, true)->0.len() == 8),
{
    if forall|k: int|
        0 <= k < bytes.len() - 1 ==> !(bytes[k] == 0x3a && #[trigger] bytes[k + 1] == 0x3a) {
        ip::lemma_first_gap(bytes, bytes.len() as int);
    }
}

/// An IPv4 address may stand in the place of the last two groups, its octets in their order, and
/// only where that is allowed.
pub proof fn law_quads_stand_for_two_groups(a: u8, b: u8, c: u8, d: u8)
    ensures
        ip::groups_of(text::split(dotted_quad(a, b, c, d), 0x3a), true) == Some(
            seq![(a * 256 + b) as u16, (c * 256 + d) as u16],
        ),
        ip::groups_of(text::split(dotted_quad(a, b, c, d), 0x3a), false) is None,
{
    let quad = dotted_quad(a, b, c, d);
    law_quads_are_written_one_way(quad, a, b, c, d);
    lemma_no_colon(quad, a, b, c, d);
    texts::law_one_piece(quad, 0x3a);
    assert(quad.len() >= 7);
    assert(ip::group(quad) is None);
    assert(ip::ipv4_value(quad) == Some(seq![a, b, c, d]));
    let o = seq![a, b, c, d];
    assert(o[0] == a && o[1] == b && o[2] == c && o[3] == d);
}

proof fn lemma_no_colon(quad: Seq<u8>, a: u8, b: u8, c: u8, d: u8)
    requires
        quad == dotted_quad(a, b, c, d),
    ensures
        !quad.contains(0x3au8),
{
    let (x, y, z, w) = (octet_text(a), octet_text(b), octet_text(c), octet_text(d));
    assert forall|i: int| 0 <= i < quad.len() implies quad[i] != 0x3a by {
        let t2 = y + seq![0x2eu8] + (z + seq![0x2eu8] + w);
        let t3 = z + seq![0x2eu8] + w;
        if i < x.len() {
            assert(quad[i] == x[i]);
        } else if i > x.len() {
            let j = i - x.len() - 1;
            assert(quad[i] == t2[j]);
            if j < y.len() {
                assert(t2[j] == y[j]);
            } else if j > y.len() {
                let k = j - y.len() - 1;
                assert(t2[j] == t3[k]);
                if k < z.len() {
                    assert(t3[k] == z[k]);
                } else if k > z.len() {
                    assert(t3[k] == w[k - z.len() - 1]);
                }
            }
        }
    }
}

} // verus!
