//! Reading words and numbers out of text.

use vstd::prelude::*;

use crate::text;
use crate::text::{clone_bytes, split_bytes};

verus! {

// --------------------------------------------------------------------- words

/// ASCII white space.
pub open spec fn is_space(byte: u8) -> bool {
    byte == 0x20 || byte == 0x09 || byte == 0x0a || byte == 0x0c || byte == 0x0d
}

/// The bytes with a blank in place of any white space.
pub open spec fn blanked(bytes: Seq<u8>) -> Seq<u8> {
    bytes.map_values(
        |byte: u8|
            if is_space(byte) {
                0x20u8
            } else {
                byte
            },
    )
}

/// The words of a text: what stands between white space.
pub open spec fn words(bytes: Seq<u8>) -> Seq<Seq<u8>> {
    text::split(blanked(bytes), 0x20).filter(|word: Seq<u8>| word.len() > 0)
}

/// The words of a text.
pub fn words_of(bytes: &[u8]) -> (r: Vec<Vec<u8>>)
    ensures
        text::pieces(r@) == words(bytes@),
{
    let mut blank: Vec<u8> = Vec::new();
    let mut i: usize = 0;
    while i < bytes.len()
        invariant
            i <= bytes@.len(),
            blank@ == blanked(bytes@).take(i as int),
        decreases bytes@.len() - i,
    {
        let byte: u8 = bytes[i];
        let space = byte == 0x20 || byte == 0x09 || byte == 0x0a || byte == 0x0c || byte == 0x0d;
        blank.push(
            if space {
                0x20
            } else {
                byte
            },
        );
        i = i + 1;
        assert(blank@ =~= blanked(bytes@).take(i as int));
    }
    assert(blank@ =~= blanked(bytes@));
    let pieces = split_bytes(blank.as_slice(), 0x20);
    let ghost all = text::split(blanked(bytes@), 0x20);
    let ghost keep = |word: Seq<u8>| word.len() > 0;
    let mut out: Vec<Vec<u8>> = Vec::new();
    let mut k: usize = 0;
    proof {
        reveal(Seq::filter);
        assert(text::pieces(out@) =~= all.take(0).filter(keep));
    }
    while k < pieces.len()
        invariant
            k <= pieces@.len(),
            all == text::pieces(pieces@),
            keep == |word: Seq<u8>| word.len() > 0,
            text::pieces(out@) == all.take(k as int).filter(keep),
        decreases pieces@.len() - k,
    {
        let ghost before = text::pieces(out@);
        let ghost next = all.take(k + 1);
        proof {
            reveal(Seq::filter);
            assert(all[k as int] == pieces@[k as int]@);
            assert(next.drop_last() =~= all.take(k as int));
            assert(next.last() == all[k as int]);
        }
        if pieces[k].len() > 0 {
            out.push(clone_bytes(pieces[k].as_slice()));
            assert(text::pieces(out@) =~= before.push(all[k as int]));
        }
        k = k + 1;
    }
    assert(all.take(k as int) =~= all);
    out
}

/// Whether a word occurs in a text.
#[must_use]
pub fn contains_word(contents: &[u8], expected: &[u8]) -> (r: bool)
    ensures
        r == words(contents@).contains(expected@),
{
    let list = words_of(contents);
    let ghost models = words(contents@);
    let mut i: usize = 0;
    while i < list.len()
        invariant
            i <= list@.len(),
            models == words(contents@),
            text::pieces(list@) == models,
            forall|k: int| 0 <= k < i ==> #[trigger] models[k] != expected@,
        decreases list@.len() - i,
    {
        assert(models[i as int] == list@[i as int]@);
        if text::bytes_eq(list[i].as_slice(), expected) {
            return true;
        }
        i = i + 1;
    }
    assert(models.len() == list@.len());
    false
}

// ------------------------------------------------------------------- numbers

/// A decimal digit.
pub open spec fn is_digit(byte: u8) -> bool {
    0x30 <= byte <= 0x39
}

/// The number that digits write.
pub open spec fn digits_value(digits: Seq<u8>) -> nat
    decreases digits.len(),
{
    if digits.len() == 0 {
        0
    } else {
        10 * digits_value(digits.drop_last()) + (digits.last() - 0x30) as nat
    }
}

/// The digits of a numeral, behind a sign that may stand before them.
pub open spec fn numeral_digits(numeral: Seq<u8>) -> Seq<u8> {
    if numeral.len() > 0 && numeral[0] == 0x2b {
        numeral.skip(1)
    } else {
        numeral
    }
}

/// The number that a decimal numeral writes: digits, perhaps behind a plus sign.
pub open spec fn decimal_value(numeral: Seq<u8>) -> Option<nat> {
    let digits = numeral_digits(numeral);
    if digits.len() > 0 && (forall|i: int| 0 <= i < digits.len() ==> is_digit(#[trigger] digits[i]))
    {
        Some(digits_value(digits))
    } else {
        None
    }
}

/// The number that a numeral writes, up to a limit.
pub open spec fn bounded_value(numeral: Seq<u8>, limit: nat) -> Option<nat> {
    match decimal_value(numeral) {
        Some(value) => if value <= limit {
            Some(value)
        } else {
            None
        },
        None => None,
    }
}

proof fn lemma_digits_prefix(digits: Seq<u8>, n: int)
    requires
        0 <= n <= digits.len(),
        forall|i: int| 0 <= i < digits.len() ==> is_digit(#[trigger] digits[i]),
    ensures
        digits_value(digits.take(n)) <= digits_value(digits),
    decreases digits.len(),
{
    if n == digits.len() {
        assert(digits.take(n) =~= digits);
    } else {
        lemma_digits_prefix(digits.drop_last(), n);
        assert(digits.drop_last().take(n) =~= digits.take(n));
    }
}

/// Reads a decimal numeral.
#[must_use]
pub fn parse_u64(numeral: &[u8]) -> (r: Option<u64>)
    ensures
        bounded_value(numeral@, u64::MAX as nat) == (match r {
            Some(value) => Some(value as nat),
            None => None,
        }),
{
    let start: usize = if numeral.len() > 0 && numeral[0] == 0x2b {
        1
    } else {
        0
    };
    let ghost digits = numeral_digits(numeral@);
    assert(digits =~= numeral@.skip(start as int));
    if start >= numeral.len() {
        return None;
    }
    let mut value: u64 = 0;
    let mut fits = true;
    let mut i: usize = start;
    assert(digits.take(0) =~= Seq::<u8>::empty());
    while i < numeral.len()
        invariant
            start <= i <= numeral@.len(),
            digits == numeral_digits(numeral@),
            digits == numeral@.skip(start as int),
            forall|k: int| 0 <= k < i - start ==> is_digit(#[trigger] digits[k]),
            fits ==> value == digits_value(digits.take(i - start)),
            !fits ==> digits_value(digits.take(i - start)) > u64::MAX,
        decreases numeral@.len() - i,
    {
        let byte: u8 = numeral[i];
        let ghost at = i - start;
        let ghost next = digits.take(at + 1);
        proof {
            assert(digits[at] == byte);
            assert(next.drop_last() =~= digits.take(at));
            assert(next.last() == byte);
        }
        if byte < 0x30 || byte > 0x39 {
            return None;
        }
        if fits {
            match value.checked_mul(10) {
                Some(shifted) => match shifted.checked_add((byte - 0x30) as u64) {
                    Some(sum) => {
                        value = sum;
                    },
                    None => {
                        fits = false;
                    },
                },
                None => {
                    fits = false;
                },
            }
        }
        i = i + 1;
    }
    assert(digits.take(i - start) =~= digits);
    if fits {
        Some(value)
    } else {
        None
    }
}

/// The digits of a number, without leading zeros.
pub open spec fn number_digits(n: nat) -> Seq<u8>
    decreases n,
{
    if n < 10 {
        seq![(0x30 + n) as u8]
    } else {
        number_digits(n / 10).push((0x30 + n % 10) as u8)
    }
}

/// Writes a number.
#[must_use]
pub fn write_u64(n: u64) -> (r: Vec<u8>)
    ensures
        r@ == number_digits(n as nat),
    decreases n,
{
    if n < 10 {
        let mut out: Vec<u8> = Vec::new();
        out.push(0x30 + n as u8);
        assert(out@ =~= number_digits(n as nat));
        out
    } else {
        let mut out = write_u64(n / 10);
        out.push(0x30 + (n % 10) as u8);
        out
    }
}

/// A written number reads back.
pub proof fn law_numbers_read_back(n: nat)
    ensures
        decimal_value(number_digits(n)) == Some(n),
    decreases n,
{
    let digits = number_digits(n);
    if n >= 10 {
        law_numbers_read_back(n / 10);
        lemma_written_digits(n / 10);
        assert(digits.drop_last() =~= number_digits(n / 10));
    }
    lemma_written_digits(n);
    assert(numeral_digits(digits) == digits);
    if n < 10 {
        assert(digits.drop_last() =~= Seq::<u8>::empty());
        assert(digits_value(digits.drop_last()) == 0);
    } else {
        assert(numeral_digits(number_digits(n / 10)) == number_digits(n / 10));
    }
}

proof fn lemma_written_digits(n: nat)
    ensures
        number_digits(n).len() > 0,
        forall|i: int|
            0 <= i < number_digits(n).len() ==> is_digit(#[trigger] number_digits(n)[i]),
    decreases n,
{
    if n >= 10 {
        lemma_written_digits(n / 10);
    }
}

// ------------------------------------------------------------------ trimming

/// A text without the white space at its front.
pub open spec fn trimmed_front(text: Seq<char>) -> Seq<char>
    decreases text.len(),
{
    if text.len() > 0 && text::is_white_space(text[0]) {
        trimmed_front(text.skip(1))
    } else {
        text
    }
}

/// A text without the white space at its back.
pub open spec fn trimmed_back(text: Seq<char>) -> Seq<char>
    decreases text.len(),
{
    if text.len() > 0 && text::is_white_space(text.last()) {
        trimmed_back(text.drop_last())
    } else {
        text
    }
}

/// A text without the white space around it.
pub open spec fn trimmed(text: Seq<char>) -> Seq<char> {
    trimmed_back(trimmed_front(text))
}

fn is_white_space(c: char) -> (r: bool)
    ensures
        r == text::is_white_space(c),
{
    ('\u{9}' <= c && c <= '\u{d}') || c == '\u{20}' || c == '\u{85}' || c == '\u{a0}' || c
        == '\u{1680}' || ('\u{2000}' <= c && c <= '\u{200a}') || c == '\u{2028}' || c == '\u{2029}'
        || c == '\u{202f}' || c == '\u{205f}' || c == '\u{3000}'
}

fn characters(text: &str) -> (r: Vec<char>)
    ensures
        r@ == text@,
{
    let mut out: Vec<char> = Vec::new();
    for c in it: text.chars()
        invariant
            it.seq() == text@,
            out@ == text@.take(it.index() as int),
    {
        out.push(c);
        assert(out@ =~= text@.take(it.index() + 1));
    }
    assert(text@.take(text@.len() as int) =~= text@);
    out
}

/// Whether a text without the white space around it is the expected one.
#[must_use]
pub fn is_trimmed(contents: &str, expected: &str) -> (r: bool)
    ensures
        r == (trimmed(contents@) == expected@),
{
    let all = characters(contents);
    let wanted = characters(expected);
    let mut start: usize = 0;
    assert(all@.skip(0) =~= all@);
    while start < all.len() && is_white_space(all[start])
        invariant
            start <= all@.len(),
            trimmed_front(all@.skip(start as int)) == trimmed_front(all@),
        decreases all@.len() - start,
    {
        assert(all@.skip(start as int).skip(1) =~= all@.skip(start + 1));
        start = start + 1;
    }
    let ghost front = all@.skip(start as int);
    assert(trimmed_front(all@) == front);
    let mut end: usize = all.len();
    assert(all@.subrange(start as int, end as int) =~= front);
    while end > start && is_white_space(all[end - 1])
        invariant
            start <= end <= all@.len(),
            trimmed_back(all@.subrange(start as int, end as int)) == trimmed_back(front),
        decreases end,
    {
        let ghost now = all@.subrange(start as int, end as int);
        assert(now.last() == all@[end - 1]);
        assert(now.drop_last() =~= all@.subrange(start as int, end - 1));
        end = end - 1;
    }
    let ghost rest = all@.subrange(start as int, end as int);
    assert(trimmed_back(front) == rest);
    if end - start != wanted.len() {
        return false;
    }
    let mut i: usize = 0;
    while i < wanted.len()
        invariant
            i <= wanted@.len() == end - start,
            start <= end <= all@.len(),
            rest == all@.subrange(start as int, end as int),
            rest == trimmed(contents@),
            wanted@ == expected@,
            forall|k: int| 0 <= k < i ==> rest[k] == wanted@[k],
        decreases wanted@.len() - i,
    {
        assert(rest[i as int] == all@[start + i]);
        if all[start + i] != wanted[i] {
            return false;
        }
        i = i + 1;
    }
    assert(rest =~= wanted@);
    true
}

} // verus!
