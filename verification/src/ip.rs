//! The textual form of IP addresses.
//!
//! IPv4 is four decimal octets without leading zeros. IPv6 is eight groups of
//! one to four hexadecimal digits, where one `::` may stand for one or more
//! zero groups and the last two groups may be written as an IPv4 address.

use vstd::prelude::*;

use crate::text;
use crate::text::{slice_bytes, split_bytes};

verus! {

/// An address read from its textual form.
#[derive(Clone, Copy, Debug)]
pub enum IpAddress {
    V4([u8; 4]),
    V6([u16; 8]),
}

/// The numbers of an address: four octets or eight groups.
pub enum IpModel {
    V4(Seq<u8>),
    V6(Seq<u16>),
}

impl View for IpAddress {
    type V = IpModel;

    open spec fn view(&self) -> IpModel {
        match *self {
            IpAddress::V4(octets) => IpModel::V4(octets@),
            IpAddress::V6(groups) => IpModel::V6(groups@),
        }
    }
}

/// The value of a hexadecimal digit in either case.
pub open spec fn hex_digit(byte: u8) -> Option<nat> {
    if 0x30 <= byte <= 0x39 {
        Some((byte - 0x30) as nat)
    } else if 0x61 <= byte <= 0x66 {
        Some((byte - 0x61 + 10) as nat)
    } else if 0x41 <= byte <= 0x46 {
        Some((byte - 0x41 + 10) as nat)
    } else {
        None
    }
}

/// Whether every byte is a digit below `radix`.
pub open spec fn is_numeral(bytes: Seq<u8>, radix: nat) -> bool {
    forall|i: int|
        0 <= i < bytes.len() ==> (#[trigger] hex_digit(bytes[i])) is Some && hex_digit(
            bytes[i],
        )->0 < radix
}

/// The number that a numeral writes.
pub open spec fn numeral_value(bytes: Seq<u8>, radix: nat) -> nat
    decreases bytes.len(),
{
    if bytes.len() == 0 {
        0
    } else {
        numeral_value(bytes.drop_last(), radix) * radix + hex_digit(bytes.last())->0
    }
}

/// One octet of an IPv4 address.
pub open spec fn octet(piece: Seq<u8>) -> Option<u8> {
    if 1 <= piece.len() <= 3 && is_numeral(piece, 10) && (piece.len() > 1 ==> piece[0] != 0x30)
        && numeral_value(piece, 10) <= 255 {
        Some(numeral_value(piece, 10) as u8)
    } else {
        None
    }
}

/// One group of an IPv6 address.
pub open spec fn group(piece: Seq<u8>) -> Option<u16> {
    if 1 <= piece.len() <= 4 && is_numeral(piece, 16) {
        Some(numeral_value(piece, 16) as u16)
    } else {
        None
    }
}

/// The IPv4 address that a text writes.
pub open spec fn ipv4_value(bytes: Seq<u8>) -> Option<Seq<u8>> {
    let parts = text::split(bytes, 0x2e);
    if parts.len() == 4 && (forall|i: int| 0 <= i < 4 ==> (#[trigger] octet(parts[i])) is Some) {
        Some(Seq::new(4, |i: int| octet(parts[i])->0))
    } else {
        None
    }
}

/// The groups that colon-separated pieces write, the last of them perhaps as an IPv4 address.
pub open spec fn groups_of(parts: Seq<Seq<u8>>, allow_ipv4: bool) -> Option<Seq<u16>>
    decreases parts.len(),
{
    if parts.len() == 0 {
        None
    } else if parts.len() == 1 {
        match group(parts[0]) {
            Some(value) => Some(seq![value]),
            None => match ipv4_value(parts[0]) {
                Some(octets) => if allow_ipv4 {
                    Some(
                        seq![
                            (octets[0] * 256 + octets[1]) as u16,
                            (octets[2] * 256 + octets[3]) as u16,
                        ],
                    )
                } else {
                    None
                },
                None => None,
            },
        }
    } else {
        match (group(parts[0]), groups_of(parts.drop_first(), allow_ipv4)) {
            (Some(value), Some(rest)) => Some(seq![value] + rest),
            _ => None,
        }
    }
}

/// The groups of one side of `::`, which may be empty.
pub open spec fn side_groups(bytes: Seq<u8>, allow_ipv4: bool) -> Option<Seq<u16>> {
    if bytes.len() == 0 {
        Some(Seq::<u16>::empty())
    } else {
        groups_of(text::split(bytes, 0x3a), allow_ipv4)
    }
}

/// The position of the first `::`, or the length of the text where there is none.
pub open spec fn first_gap(bytes: Seq<u8>) -> int
    decreases bytes.len(),
{
    if bytes.len() < 2 {
        bytes.len() as int
    } else if bytes[0] == 0x3a && bytes[1] == 0x3a {
        0
    } else {
        1 + first_gap(bytes.drop_first())
    }
}

/// Groups with the zero groups of `::` put in their place.
pub open spec fn with_gap(head: Seq<u16>, tail: Seq<u16>) -> Seq<u16> {
    head + Seq::new((8 - head.len() - tail.len()) as nat, |i: int| 0u16) + tail
}

/// The IPv6 address that a text writes.
pub open spec fn ipv6_value(bytes: Seq<u8>) -> Option<Seq<u16>> {
    let at = first_gap(bytes);
    if at >= bytes.len() {
        match side_groups(bytes, true) {
            Some(groups) => if groups.len() == 8 {
                Some(groups)
            } else {
                None
            },
            None => None,
        }
    } else {
        match (side_groups(bytes.take(at), false), side_groups(bytes.skip(at + 2), true)) {
            (Some(head), Some(tail)) => if head.len() + tail.len() <= 7 {
                Some(with_gap(head, tail))
            } else {
                None
            },
            _ => None,
        }
    }
}

/// The address that a text writes.
pub open spec fn ip_value(bytes: Seq<u8>) -> Option<IpModel> {
    match ipv4_value(bytes) {
        Some(octets) => Some(IpModel::V4(octets)),
        None => match ipv6_value(bytes) {
            Some(groups) => Some(IpModel::V6(groups)),
            None => None,
        },
    }
}

fn hex_digit_value(byte: u8) -> (r: Option<u32>)
    ensures
        r is Some <==> hex_digit(byte) is Some,
        r is Some ==> r->0 == hex_digit(byte)->0,
        r is Some ==> r->0 < 16,
{
    if 0x30 <= byte && byte <= 0x39 {
        Some((byte - 0x30) as u32)
    } else if 0x61 <= byte && byte <= 0x66 {
        Some((byte - 0x61 + 10) as u32)
    } else if 0x41 <= byte && byte <= 0x46 {
        Some((byte - 0x41 + 10) as u32)
    } else {
        None
    }
}

/// Reads a numeral of at most four digits.
fn read_numeral(piece: &Vec<u8>, radix: u32) -> (r: Option<u32>)
    requires
        radix == 10 || radix == 16,
        piece@.len() <= 4,
    ensures
        r is Some <==> is_numeral(piece@, radix as nat),
        r is Some ==> r->0 == numeral_value(piece@, radix as nat),
        r is Some ==> r->0 <= 0xffff,
{
    let mut value: u32 = 0;
    let mut i: usize = 0;
    assert(piece@.take(0) =~= Seq::<u8>::empty());
    while i < piece.len()
        invariant
            radix == 10 || radix == 16,
            i <= piece@.len() <= 4,
            is_numeral(piece@.take(i as int), radix as nat),
            value == numeral_value(piece@.take(i as int), radix as nat),
            i == 0 ==> value == 0,
            i == 1 ==> value <= 0xf,
            i == 2 ==> value <= 0xff,
            i == 3 ==> value <= 0xfff,
            i == 4 ==> value <= 0xffff,
        decreases piece@.len() - i,
    {
        let digit = hex_digit_value(piece[i]);
        match digit {
            None => {
                assert(hex_digit(piece@[i as int]) is None);
                return None;
            },
            Some(d) => {
                if d >= radix {
                    assert(hex_digit(piece@[i as int])->0 >= radix);
                    return None;
                }
                let ghost next = piece@.take(i + 1);
                proof {
                    assert(next.drop_last() =~= piece@.take(i as int));
                    assert(next.last() == piece@[i as int]);
                    assert forall|k: int| 0 <= k < next.len() implies (#[trigger] hex_digit(
                        next[k],
                    )) is Some && hex_digit(next[k])->0 < radix by {
                        if k < i {
                            assert(next[k] == piece@.take(i as int)[k]);
                        }
                    }
                }
                value = value * radix + d;
            },
        }
        i = i + 1;
    }
    assert(piece@.take(i as int) =~= piece@);
    Some(value)
}

fn read_octet(piece: &Vec<u8>) -> (r: Option<u8>)
    ensures
        r == octet(piece@),
{
    if piece.len() == 0 || piece.len() > 3 {
        return None;
    }
    if piece.len() > 1 && piece[0] == 0x30 {
        return None;
    }
    match read_numeral(piece, 10) {
        Some(value) => {
            if value <= 255 {
                Some(value as u8)
            } else {
                None
            }
        },
        None => None,
    }
}

fn read_group(piece: &Vec<u8>) -> (r: Option<u16>)
    ensures
        r == group(piece@),
{
    if piece.len() == 0 || piece.len() > 4 {
        return None;
    }
    match read_numeral(piece, 16) {
        Some(value) => Some(value as u16),
        None => None,
    }
}

/// Reads an IPv4 address.
pub fn parse_ipv4(bytes: &[u8]) -> (r: Option<[u8; 4]>)
    ensures
        r is Some <==> ipv4_value(bytes@) is Some,
        r is Some ==> (r->0)@ == ipv4_value(bytes@)->0,
{
    let parts = split_bytes(bytes, 0x2e);
    let ghost split = text::split(bytes@, 0x2e);
    if parts.len() != 4 {
        return None;
    }
    let (a, b, c, d) = (
        read_octet(&parts[0]),
        read_octet(&parts[1]),
        read_octet(&parts[2]),
        read_octet(&parts[3]),
    );
    proof {
        assert(split[0] == parts@[0]@ && split[1] == parts@[1]@);
        assert(split[2] == parts@[2]@ && split[3] == parts@[3]@);
    }
    match (a, b, c, d) {
        (Some(a), Some(b), Some(c), Some(d)) => {
            let octets: [u8; 4] = [a, b, c, d];
            assert(octets@ =~= ipv4_value(bytes@)->0);
            Some(octets)
        },
        _ => {
            assert(!(forall|i: int| 0 <= i < 4 ==> (#[trigger] octet(split[i])) is Some)) by {
                assert(octet(split[0]) is None || octet(split[1]) is None || octet(split[2]) is None
                    || octet(split[3]) is None);
            }
            None
        },
    }
}

/// Reads colon-separated groups from the right, so that an IPv4 tail is met first.
fn read_groups(parts: &Vec<Vec<u8>>, allow_ipv4: bool) -> (r: Option<Vec<u16>>)
    requires
        parts@.len() >= 1,
    ensures
        r is Some <==> groups_of(text::pieces(parts@), allow_ipv4) is Some,
        r is Some ==> (r->0)@ == groups_of(text::pieces(parts@), allow_ipv4)->0,
{
    let ghost all = text::pieces(parts@);
    let mut i: usize = parts.len() - 1;
    let mut out: Vec<u16> = Vec::new();
    proof {
        assert(all.skip(i as int) =~= seq![parts@[i as int]@]);
    }
    match read_group(&parts[i]) {
        Some(value) => {
            out.push(value);
            assert(out@ =~= seq![value]);
        },
        None => {
            if !allow_ipv4 {
                proof {
                    lemma_groups_none(all, allow_ipv4, i as int);
                }
                return None;
            }
            match parse_ipv4(parts[i].as_slice()) {
                Some(octets) => {
                    out.push(octets[0] as u16 * 256 + octets[1] as u16);
                    out.push(octets[2] as u16 * 256 + octets[3] as u16);
                    assert(out@ =~= groups_of(all.skip(i as int), allow_ipv4)->0);
                },
                None => {
                    proof {
                        lemma_groups_none(all, allow_ipv4, i as int);
                    }
                    return None;
                },
            }
        },
    }
    while i > 0
        invariant
            i < parts@.len(),
            all == text::pieces(parts@),
            groups_of(all.skip(i as int), allow_ipv4) == Some(out@),
        decreases i,
    {
        let ghost rest = all.skip(i - 1);
        proof {
            assert(rest.drop_first() =~= all.skip(i as int));
            assert(rest[0] == parts@[i - 1]@);
        }
        match read_group(&parts[i - 1]) {
            Some(value) => {
                let ghost before = out@;
                out.insert(0, value);
                assert(out@ =~= seq![value] + before);
            },
            None => {
                proof {
                    lemma_groups_none(all, allow_ipv4, i - 1);
                }
                return None;
            },
        }
        i = i - 1;
    }
    assert(all.skip(0) =~= all);
    Some(out)
}

/// A bad piece spoils every longer list that ends in it.
proof fn lemma_groups_none(parts: Seq<Seq<u8>>, allow_ipv4: bool, at: int)
    requires
        0 <= at < parts.len(),
        groups_of(parts.skip(at), allow_ipv4) is None,
    ensures
        groups_of(parts, allow_ipv4) is None,
    decreases at,
{
    if at == 0 {
        assert(parts.skip(0) =~= parts);
    } else {
        assert(parts.skip(at - 1).drop_first() =~= parts.skip(at));
        lemma_groups_none(parts, allow_ipv4, at - 1);
    }
}

fn read_side(bytes: &[u8], from: usize, to: usize, allow_ipv4: bool) -> (r: Option<Vec<u16>>)
    requires
        from <= to <= bytes@.len(),
    ensures
        r is Some <==> side_groups(bytes@.subrange(from as int, to as int), allow_ipv4) is Some,
        r is Some ==> (r->0)@ == side_groups(
            bytes@.subrange(from as int, to as int),
            allow_ipv4,
        )->0,
{
    let side = slice_bytes(bytes, from, to);
    if side.len() == 0 {
        let out: Vec<u16> = Vec::new();
        assert(out@ =~= Seq::<u16>::empty());
        return Some(out);
    }
    let parts = split_bytes(side.as_slice(), 0x3a);
    read_groups(&parts, allow_ipv4)
}

/// What `first_gap` is, said by its neighbours.
pub proof fn lemma_first_gap(bytes: Seq<u8>, at: int)
    requires
        0 <= at <= bytes.len(),
        forall|k: int|
            0 <= k < at && k + 1 < bytes.len() ==> !(bytes[k] == 0x3a && #[trigger] bytes[k + 1]
                == 0x3a),
        at < bytes.len() ==> at + 1 < bytes.len() && bytes[at] == 0x3a && bytes[at + 1] == 0x3a,
    ensures
        first_gap(bytes) == at,
    decreases bytes.len(),
{
    if bytes.len() >= 2 && at > 0 {
        let rest = bytes.drop_first();
        assert(!(bytes[0] == 0x3a && bytes[0int + 1] == 0x3a));
        assert forall|k: int|
            0 <= k < at - 1 && k + 1 < rest.len() implies !(rest[k] == 0x3a && #[trigger] rest[k + 1]
            == 0x3a) by {
            assert(rest[k] == bytes[k + 1]);
            assert(rest[k + 1] == bytes[(k + 1) + 1]);
        }
        lemma_first_gap(rest, at - 1);
    }
}

fn find_gap(bytes: &[u8]) -> (r: usize)
    ensures
        r == first_gap(bytes@),
        r <= bytes@.len(),
        r < bytes@.len() ==> r + 2 <= bytes@.len(),
{
    let mut i: usize = 0;
    while i < bytes.len() && bytes.len() - i >= 2
        invariant
            i <= bytes@.len(),
            forall|k: int|
                0 <= k < i && k + 1 < bytes@.len() ==> !(bytes@[k] == 0x3a && #[trigger] bytes@[k
                    + 1] == 0x3a),
        decreases bytes@.len() - i,
    {
        if bytes[i] == 0x3a && bytes[i + 1] == 0x3a {
            proof {
                lemma_first_gap(bytes@, i as int);
            }
            return i;
        }
        i = i + 1;
    }
    proof {
        lemma_first_gap(bytes@, bytes@.len() as int);
    }
    bytes.len()
}

/// Puts zeros for the gap between the groups on its sides.
fn fill_gap(head: Vec<u16>, tail: &Vec<u16>) -> (r: Vec<u16>)
    requires
        head@.len() + tail@.len() <= 7,
    ensures
        r@ == with_gap(head@, tail@),
        r@.len() == 8,
{
    let ghost before = head@;
    let mut groups = head;
    let missing: usize = 8 - groups.len() - tail.len();
    let mut k: usize = 0;
    assert(groups@ =~= before + Seq::new(0, |i: int| 0u16));
    while k < missing
        invariant
            k <= missing,
            groups@ == before + Seq::new(k as nat, |i: int| 0u16),
        decreases missing - k,
    {
        groups.push(0);
        k = k + 1;
        assert(groups@ =~= before + Seq::new(k as nat, |i: int| 0u16));
    }
    let mut j: usize = 0;
    let ghost middle = groups@;
    assert(groups@ =~= middle + tail@.take(0));
    while j < tail.len()
        invariant
            j <= tail@.len(),
            groups@ == middle + tail@.take(j as int),
        decreases tail@.len() - j,
    {
        groups.push(tail[j]);
        j = j + 1;
        assert(groups@ =~= middle + tail@.take(j as int));
    }
    assert(groups@ =~= with_gap(before, tail@));
    groups
}

fn eight_groups(groups: &Vec<u16>) -> (r: [u16; 8])
    requires
        groups@.len() == 8,
    ensures
        r@ == groups@,
{
    let out: [u16; 8] = [
        groups[0],
        groups[1],
        groups[2],
        groups[3],
        groups[4],
        groups[5],
        groups[6],
        groups[7],
    ];
    assert(out@ =~= groups@);
    out
}

/// Reads an IPv6 address.
pub fn parse_ipv6(bytes: &[u8]) -> (r: Option<[u16; 8]>)
    ensures
        r is Some <==> ipv6_value(bytes@) is Some,
        r is Some ==> (r->0)@ == ipv6_value(bytes@)->0,
{
    let at = find_gap(bytes);
    if at >= bytes.len() {
        assert(bytes@.subrange(0, bytes@.len() as int) =~= bytes@);
        match read_side(bytes, 0, bytes.len(), true) {
            Some(groups) => {
                if groups.len() != 8 {
                    return None;
                }
                Some(eight_groups(&groups))
            },
            None => None,
        }
    } else {
        assert(bytes@.subrange(0, at as int) =~= bytes@.take(at as int));
        assert(bytes@.subrange(at + 2, bytes@.len() as int) =~= bytes@.skip(at + 2));
        let head = read_side(bytes, 0, at, false);
        let tail = read_side(bytes, at + 2, bytes.len(), true);
        match (head, tail) {
            (Some(head), Some(tail)) => {
                if head.len() > 7 || tail.len() > 7 - head.len() {
                    return None;
                }
                let groups = fill_gap(head, &tail);
                Some(eight_groups(&groups))
            },
            _ => None,
        }
    }
}

/// Reads an IP address of either family.
pub fn parse_ip(bytes: &[u8]) -> (r: Option<IpAddress>)
    ensures
        r is Some <==> ip_value(bytes@) is Some,
        r is Some ==> (r->0)@ == ip_value(bytes@)->0,
{
    match parse_ipv4(bytes) {
        Some(octets) => Some(IpAddress::V4(octets)),
        None => match parse_ipv6(bytes) {
            Some(groups) => Some(IpAddress::V6(groups)),
            None => None,
        },
    }
}

impl IpModel {
    /// The address `0.0.0.0` or `::`.
    pub open spec fn unspecified(self) -> bool {
        match self {
            IpModel::V4(o) => o[0] == 0 && o[1] == 0 && o[2] == 0 && o[3] == 0,
            IpModel::V6(g) => g[0] == 0 && g[1] == 0 && g[2] == 0 && g[3] == 0 && g[4] == 0 && g[5]
                == 0 && g[6] == 0 && g[7] == 0,
        }
    }

    /// The multicast ranges `224.0.0.0/4` and `ff00::/8`.
    pub open spec fn multicast(self) -> bool {
        match self {
            IpModel::V4(octets) => 224 <= octets[0] <= 239,
            IpModel::V6(groups) => groups[0] >= 0xff00,
        }
    }

    /// The address `255.255.255.255`.
    pub open spec fn broadcast_v4(self) -> bool {
        match self {
            IpModel::V4(o) => o[0] == 255 && o[1] == 255 && o[2] == 255 && o[3] == 255,
            IpModel::V6(_) => false,
        }
    }
}

impl IpAddress {
    /// Whether two addresses are the same.
    pub fn same_as(&self, other: &IpAddress) -> (r: bool)
        ensures
            r == (self@ == other@),
    {
        match (self, other) {
            (IpAddress::V4(a), IpAddress::V4(b)) => {
                let same = a[0] == b[0] && a[1] == b[1] && a[2] == b[2] && a[3] == b[3];
                proof {
                    if same {
                        assert(a@ =~= b@);
                    } else {
                        assert(a@[0] != b@[0] || a@[1] != b@[1] || a@[2] != b@[2] || a@[3]
                            != b@[3]);
                    }
                }
                same
            },
            (IpAddress::V6(a), IpAddress::V6(b)) => {
                let same = a[0] == b[0] && a[1] == b[1] && a[2] == b[2] && a[3] == b[3] && a[4]
                    == b[4] && a[5] == b[5] && a[6] == b[6] && a[7] == b[7];
                proof {
                    if same {
                        assert(a@ =~= b@);
                    } else {
                        assert(a@[0] != b@[0] || a@[1] != b@[1] || a@[2] != b@[2] || a@[3]
                            != b@[3] || a@[4] != b@[4] || a@[5] != b@[5] || a@[6] != b@[6]
                            || a@[7] != b@[7]);
                    }
                }
                same
            },
            _ => false,
        }
    }

    /// Whether this is the unspecified address.
    pub fn is_unspecified(&self) -> (r: bool)
        ensures
            r == self@.unspecified(),
    {
        match self {
            IpAddress::V4(o) => o[0] == 0 && o[1] == 0 && o[2] == 0 && o[3] == 0,
            IpAddress::V6(g) => g[0] == 0 && g[1] == 0 && g[2] == 0 && g[3] == 0 && g[4] == 0
                && g[5] == 0 && g[6] == 0 && g[7] == 0,
        }
    }

    /// Whether this is a multicast address.
    pub fn is_multicast(&self) -> (r: bool)
        ensures
            r == self@.multicast(),
    {
        match self {
            IpAddress::V4(o) => 224 <= o[0] && o[0] <= 239,
            IpAddress::V6(g) => g[0] >= 0xff00,
        }
    }

    /// Whether this is the IPv4 limited broadcast address.
    pub fn is_broadcast(&self) -> (r: bool)
        ensures
            r == self@.broadcast_v4(),
    {
        match self {
            IpAddress::V4(o) => o[0] == 255 && o[1] == 255 && o[2] == 255 && o[3] == 255,
            IpAddress::V6(_) => false,
        }
    }
}

} // verus!
