//! Laws on words and numbers in control files.

use vstd::prelude::*;

use crate::laws::text as texts;
use crate::scan;
use crate::text;

verus! {

/// What a filter keeps of two lists is what it keeps of each.
pub proof fn lemma_filters_join<A>(a: Seq<A>, b: Seq<A>, keep: spec_fn(A) -> bool)
    ensures
        (a + b).filter(keep) == a.filter(keep) + b.filter(keep),
    decreases b.len(),
{
    reveal(Seq::filter);
    if b.len() == 0 {
        assert(a + b =~= a);
        assert(b.filter(keep) =~= Seq::<A>::empty());
        assert(a.filter(keep) + b.filter(keep) =~= a.filter(keep));
    } else {
        assert((a + b).drop_last() =~= a + b.drop_last());
        lemma_filters_join(a, b.drop_last(), keep);
        assert((a + b).filter(keep) =~= a.filter(keep) + b.filter(keep));
    }
}

/// What a filter keeps of one item.
pub proof fn lemma_filter_of_one<A>(x: A, keep: spec_fn(A) -> bool)
    ensures
        seq![x].filter(keep) == (if keep(x) {
            seq![x]
        } else {
            Seq::<A>::empty()
        }),
{
    reveal(Seq::filter);
    assert(seq![x].drop_last() =~= Seq::<A>::empty());
    assert(Seq::<A>::empty().filter(keep) =~= Seq::<A>::empty());
    assert(seq![x].filter(keep) =~= if keep(x) {
        seq![x]
    } else {
        Seq::<A>::empty()
    });
}

/// Whether a byte separates words: a blank, a tab, a line feed, a form feed or a carriage return.
pub open spec fn separates(byte: u8) -> bool {
    byte == ' ' as u8 || byte == '\t' as u8 || byte == '\n' as u8 || byte == 0x0c || byte
        == '\r' as u8
}

/// The words of two texts with white space between them are the words of the first and then
/// those of the second.
pub proof fn law_words_join(a: Seq<u8>, space: u8, b: Seq<u8>)
    requires
        separates(space),
    ensures
        scan::words(a + seq![space] + b) == scan::words(a) + scan::words(b),
{
    let keep = |word: Seq<u8>| word.len() > 0;
    let (x, y) = (scan::blanked(a), scan::blanked(b));
    assert(scan::blanked(a + seq![space] + b) =~= x + seq![0x20u8] + y);
    texts::law_pieces_join(x, y, 0x20);
    lemma_filters_join(text::split(x, 0x20), text::split(y, 0x20), keep);
}

/// A text without white space is one word, and nothing is no word.
pub proof fn law_one_word(word: Seq<u8>)
    requires
        forall|i: int| 0 <= i < word.len() ==> !separates(#[trigger] word[i]),
    ensures
        word.len() > 0 ==> scan::words(word) == seq![word],
        word.len() == 0 ==> scan::words(word) == Seq::<Seq<u8>>::empty(),
{
    assert(scan::blanked(word) =~= word);
    assert(!word.contains(0x20u8)) by {
        if word.contains(0x20u8) {
            let i = choose|i: int| 0 <= i < word.len() && word[i] == 0x20;
            assert(separates(word[i]));
        }
    }
    texts::law_one_piece(word, 0x20);
    lemma_filter_of_one(word, |w: Seq<u8>| w.len() > 0);
}

/// No word is empty, and none holds white space.
pub proof fn law_words_hold_no_white_space(bytes: Seq<u8>, i: int, j: int)
    requires
        0 <= i < scan::words(bytes).len(),
        0 <= j < scan::words(bytes)[i].len(),
    ensures
        !separates(scan::words(bytes)[i][j]),
{
    let keep = |word: Seq<u8>| word.len() > 0;
    let blanked = scan::blanked(bytes);
    let parts = text::split(blanked, 0x20);
    let word = scan::words(bytes)[i];
    assert(parts.filter(keep).contains(word)) by {
        assert(parts.filter(keep)[i] == word);
    }
    parts.lemma_filter_contains_rev(keep, word);
    let k = choose|k: int| 0 <= k < parts.len() && parts[k] == word;
    texts::law_pieces_hold_no_separator(blanked, 0x20);
    assert(!parts[k].contains(0x20u8));
    assert(word.contains(word[j]));
    lemma_pieces_come_from(blanked, 0x20, k, j);
}

/// A byte of a piece is a byte of the whole.
proof fn lemma_pieces_come_from(bytes: Seq<u8>, sep: u8, k: int, j: int)
    requires
        0 <= k < text::split(bytes, sep).len(),
        0 <= j < text::split(bytes, sep)[k].len(),
    ensures
        bytes.contains(text::split(bytes, sep)[k][j]),
    decreases bytes.len(),
{
    let at = text::first_index(bytes, sep);
    text::lemma_first_index_bounds(bytes, sep);
    let parts = text::split(bytes, sep);
    if at >= bytes.len() {
        assert(parts[k] == bytes);
    } else if k == 0 {
        assert(parts[0] == bytes.take(at));
        assert(bytes[j] == parts[0][j]);
    } else {
        let rest = bytes.skip(at + 1);
        assert(parts[k] == text::split(rest, sep)[k - 1]);
        lemma_pieces_come_from(rest, sep, k - 1, j);
        let i = choose|i: int| 0 <= i < rest.len() && rest[i] == parts[k][j];
        assert(bytes[i + at + 1] == parts[k][j]);
    }
}

/// A numeral reads as its number: each digit counts ten times the next, a plus sign and leading
/// zeros count nothing, and what holds anything but digits is no numeral.
pub proof fn law_numerals_read_as_numbers(digits: Seq<u8>, digit: u8)
    requires
        digits.len() > 0,
        forall|k: int|
            0 <= k < digits.len() ==> '0' as u8 <= #[trigger] digits[k] <= '9' as u8,
        '0' as u8 <= digit <= '9' as u8,
    ensures
        scan::decimal_value(digits) is Some,
        scan::decimal_value(seq![digit]) == Some((digit - '0' as u8) as nat),
        scan::decimal_value(digits.push(digit)) == Some(
            (scan::decimal_value(digits)->0 * 10 + (digit - '0' as u8)) as nat,
        ),
        scan::decimal_value(seq!['+' as u8] + digits) == scan::decimal_value(digits),
        scan::decimal_value(seq!['0' as u8] + digits) == scan::decimal_value(digits),
        scan::decimal_value(Seq::<u8>::empty()) is None,
{
    assert(digits.push(digit).drop_last() =~= digits);
    let signed = seq!['+' as u8] + digits;
    assert(signed.skip(1) =~= digits);
    assert(seq![digit].drop_last() =~= Seq::<u8>::empty());
    reveal_with_fuel(scan::digits_value, 2);
    lemma_leading_zero(digits);
    let padded = seq!['0' as u8] + digits;
    assert(forall|k: int| 0 <= k < padded.len() ==> scan::is_digit(#[trigger] padded[k]));
    assert(scan::numeral_digits(padded) == padded);
}

proof fn lemma_leading_zero(digits: Seq<u8>)
    ensures
        scan::digits_value(seq![0x30u8] + digits) == scan::digits_value(digits),
    decreases digits.len(),
{
    let padded = seq![0x30u8] + digits;
    if digits.len() == 0 {
        assert(padded.drop_last() =~= Seq::<u8>::empty());
        reveal_with_fuel(scan::digits_value, 2);
    } else {
        assert(padded.drop_last() =~= seq![0x30u8] + digits.drop_last());
        lemma_leading_zero(digits.drop_last());
    }
}

/// What holds a byte that is neither a digit nor a plus sign at its front is no numeral.
pub proof fn law_other_texts_are_no_numerals(text: Seq<u8>, i: int)
    requires
        0 <= i < text.len(),
        !('0' as u8 <= text[i] <= '9' as u8),
        i > 0 || text[i] != '+' as u8,
    ensures
        scan::decimal_value(text) is None,
{
    let digits = scan::numeral_digits(text);
    if text[0] == 0x2b {
        assert(digits[i - 1] == text[i]);
    } else {
        assert(digits[i] == text[i]);
    }
}

/// A limit lets the numbers up to it through, and no others.
pub proof fn law_limits_are_included(n: nat, limit: nat)
    ensures
        scan::bounded_value(scan::number_digits(n), limit) == (if n <= limit {
            Some(n)
        } else {
            None
        }),
{
    scan::law_numbers_read_back(n);
}

/// A text is its trimmed text with white space around it, and the trimmed text neither begins nor
/// ends with white space.
pub proof fn law_trimming_takes_the_white_space_around(words: Seq<char>)
    ensures
        ({
            let core = scan::trimmed(words);
            &&& core.len() > 0 ==> !text::is_white_space(core[0]) && !text::is_white_space(
                core.last(),
            )
            &&& exists|a: Seq<char>, b: Seq<char>|
                text::is_blank_text(a) && text::is_blank_text(b) && words == #[trigger] (a + core
                    + b)
        }),
{
    let mid = scan::trimmed_front(words);
    let a = lemma_front(words);
    let b = lemma_back(mid);
    let core = scan::trimmed(words);
    assert(words =~= a + core + b);
    if core.len() > 0 {
        assert(core[0] == mid[0]);
    }
}

proof fn lemma_front(words: Seq<char>) -> (a: Seq<char>)
    ensures
        text::is_blank_text(a),
        words == a + scan::trimmed_front(words),
        scan::trimmed_front(words).len() > 0 ==> !text::is_white_space(
            scan::trimmed_front(words)[0],
        ),
    decreases words.len(),
{
    if words.len() > 0 && text::is_white_space(words[0]) {
        let rest = lemma_front(words.skip(1));
        let a = seq![words[0]] + rest;
        assert(words =~= seq![words[0]] + words.skip(1));
        assert(a + scan::trimmed_front(words) =~= seq![words[0]] + (rest + scan::trimmed_front(
            words.skip(1),
        )));
        a
    } else {
        assert(words =~= Seq::<char>::empty() + words);
        Seq::<char>::empty()
    }
}

proof fn lemma_back(words: Seq<char>) -> (b: Seq<char>)
    ensures
        text::is_blank_text(b),
        words == scan::trimmed_back(words) + b,
        scan::trimmed_back(words).len() > 0 ==> !text::is_white_space(
            scan::trimmed_back(words).last(),
        ),
    decreases words.len(),
{
    if words.len() > 0 && text::is_white_space(words.last()) {
        let rest = lemma_back(words.drop_last());
        let b = rest.push(words.last());
        assert(words =~= words.drop_last().push(words.last()));
        assert(scan::trimmed_back(words) + b =~= (scan::trimmed_back(words.drop_last()) + rest).push(
            words.last(),
        ));
        b
    } else {
        assert(words =~= words + Seq::<char>::empty());
        Seq::<char>::empty()
    }
}

} // verus!
