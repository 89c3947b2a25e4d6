//! Laws on texts and byte strings.

use vstd::prelude::*;

use crate::text;

verus! {

/// The pieces of two byte strings that are joined by the separator are the pieces of the first
/// and then those of the second.
pub proof fn law_pieces_join(a: Seq<u8>, b: Seq<u8>, sep: u8)
    ensures
        text::split(a + seq![sep] + b, sep) == text::split(a, sep) + text::split(b, sep),
    decreases a.len(),
{
    let whole = a + seq![sep] + b;
    let at = text::first_index(a, sep);
    text::lemma_first_index_bounds(a, sep);
    if at >= a.len() {
        text::lemma_first_index(whole, sep, a.len() as int);
        assert(whole.take(a.len() as int) =~= a);
        assert(whole.skip(a.len() as int + 1) =~= b);
    } else {
        assert(whole[at] == a[at]);
        assert forall|k: int| 0 <= k < at implies whole[k] != sep by {
            assert(whole[k] == a[k]);
        }
        text::lemma_first_index(whole, sep, at);
        assert(whole.take(at) =~= a.take(at));
        assert(whole.skip(at + 1) =~= a.skip(at + 1) + seq![sep] + b);
        law_pieces_join(a.skip(at + 1), b, sep);
        assert(text::split(whole, sep) =~= text::split(a, sep) + text::split(b, sep));
    }
}

/// A byte string without the separator is one piece.
pub proof fn law_one_piece(a: Seq<u8>, sep: u8)
    requires
        !a.contains(sep),
    ensures
        text::split(a, sep) == seq![a],
{
    assert forall|k: int| 0 <= k < a.len() implies a[k] != sep by {
        assert(a.contains(a[k]));
    }
    text::lemma_first_index(a, sep, a.len() as int);
}

/// There is always a piece, and no piece holds the separator.
pub proof fn law_pieces_hold_no_separator(a: Seq<u8>, sep: u8)
    ensures
        text::split(a, sep).len() > 0,
        forall|i: int| 0 <= i < text::split(a, sep).len() ==> !(#[trigger] text::split(a, sep)[i]).contains(sep),
    decreases a.len(),
{
    let at = text::first_index(a, sep);
    text::lemma_first_index_bounds(a, sep);
    let parts = text::split(a, sep);
    if at < a.len() {
        let rest = text::split(a.skip(at + 1), sep);
        law_pieces_hold_no_separator(a.skip(at + 1), sep);
        assert forall|i: int| 0 <= i < parts.len() implies !(#[trigger] parts[i]).contains(sep) by {
            if i > 0 {
                assert(parts[i] == rest[i - 1]);
            }
        }
    }
}

/// Every byte but the separator stands in a piece.
pub proof fn law_pieces_hold_every_byte(a: Seq<u8>, sep: u8, i: int)
    requires
        0 <= i < a.len(),
        a[i] != sep,
    ensures
        exists|k: int| 0 <= k < text::split(a, sep).len() && (#[trigger] text::split(a, sep)[k]).contains(a[i]),
    decreases a.len(),
{
    let at = text::first_index(a, sep);
    text::lemma_first_index_bounds(a, sep);
    let parts = text::split(a, sep);
    if at >= a.len() {
        assert(parts[0] == a);
        assert(parts[0].contains(a[i]));
    } else if i < at {
        assert(parts[0][i] == a[i]);
        assert(parts[0].contains(a[i]));
    } else {
        let rest = a.skip(at + 1);
        assert(rest[i - at - 1] == a[i]);
        law_pieces_hold_every_byte(rest, sep, i - at - 1);
        let k = choose|k: int| 0 <= k < text::split(rest, sep).len() && (#[trigger] text::split(rest, sep)[k]).contains(a[i]);
        assert(parts[k + 1] == text::split(rest, sep)[k]);
    }
}

/// The encoding of two texts, one after the other, is that of the first and then of the second.
pub proof fn law_encodings_join(a: Seq<char>, b: Seq<char>)
    ensures
        text::utf8(a + b) == text::utf8(a) + text::utf8(b),
    decreases a.len(),
{
    if a.len() == 0 {
        assert(a + b =~= b);
        assert(text::utf8(a) =~= Seq::<u8>::empty());
        assert(text::utf8(a) + text::utf8(b) =~= text::utf8(b));
    } else {
        assert((a + b).drop_first() =~= a.drop_first() + b);
        law_encodings_join(a.drop_first(), b);
        assert(text::utf8(a + b) =~= text::utf8(a) + text::utf8(b));
    }
}

/// An ASCII character is encoded as itself.
pub proof fn law_plain_characters_are_bytes(c: char)
    requires
        c < '\u{80}',
    ensures
        text::utf8(seq![c]) == seq![c as u8],
{
    assert(vstd::utf8::is_ascii_chars(seq![c]));
    vstd::utf8::is_ascii_chars_encode_utf8(seq![c]);
    assert(text::utf8(seq![c]) =~= seq![c as u8]);
}

/// Two texts with an ASCII character between them.
pub proof fn lemma_joined_by(a: Seq<char>, c: char, b: Seq<char>)
    requires
        c < '\u{80}',
    ensures
        text::utf8(a + seq![c] + b) == text::utf8(a) + seq![c as u8] + text::utf8(b),
{
    law_encodings_join(a + seq![c], b);
    law_encodings_join(a, seq![c]);
    law_plain_characters_are_bytes(c);
}

/// A character beyond ASCII is encoded in bytes beyond ASCII.
pub proof fn lemma_wide_characters_have_wide_bytes(c: char)
    requires
        c >= '\u{80}',
    ensures
        text::utf8(seq![c]).len() > 0,
        text::utf8(seq![c])[0] >= 0x80,
{
    let bytes = text::utf8(seq![c]);
    assert(seq![c].drop_first() =~= Seq::<char>::empty());
    reveal_with_fuel(vstd::utf8::encode_utf8, 2);
    assert(bytes =~= vstd::utf8::encode_scalar(c as u32));
    let x = c as u32;
    assert(0xC0u8 | ((x >> 6) & 0x1F) as u8 >= 0x80) by (bit_vector);
    assert(0xE0u8 | ((x >> 12) & 0x0F) as u8 >= 0x80) by (bit_vector);
    assert(0xF0u8 | ((x >> 18) & 0x07) as u8 >= 0x80) by (bit_vector);
}

/// Whether a byte is a letter, a digit, or one of `.`, `_`, `:` and `-`.
pub open spec fn is_name_byte(byte: u8) -> bool {
    ||| 'a' as u8 <= byte <= 'z' as u8
    ||| 'A' as u8 <= byte <= 'Z' as u8
    ||| '0' as u8 <= byte <= '9' as u8
    ||| byte == '.' as u8
    ||| byte == '_' as u8
    ||| byte == ':' as u8
    ||| byte == '-' as u8
}

/// An identifier holds letters, digits and the four marks, and is within its bound.
pub proof fn law_identifiers_are_plain(name: Seq<char>, max: nat)
    requires
        text::is_identifier(name, max),
    ensures
        1 <= text::utf8(name).len() <= max,
        forall|i: int| 0 <= i < text::utf8(name).len() ==> is_name_byte(#[trigger] text::utf8(name)[i]),
{
}

/// Whatever holds letters, digits and the four marks, within the bound, is an identifier.
pub proof fn law_plain_names_are_identifiers(name: Seq<char>, max: nat)
    requires
        1 <= text::utf8(name).len() <= max,
        forall|i: int| 0 <= i < text::utf8(name).len() ==> is_name_byte(#[trigger] text::utf8(name)[i]),
    ensures
        text::is_identifier(name, max),
{
}

/// Two identifiers with one of the four marks between them are an identifier.
pub proof fn law_identifiers_join(a: Seq<char>, mark: char, b: Seq<char>, max: nat)
    requires
        text::is_identifier(a, max),
        text::is_identifier(b, max),
        mark == '.' || mark == '_' || mark == ':' || mark == '-',
        text::utf8(a).len() + 1 + text::utf8(b).len() <= max,
    ensures
        text::is_identifier(a + seq![mark] + b, max),
{
    lemma_joined_by(a, mark, b);
}

/// Blanks, tabs and line ends are blank, whatever their number; a text with a printed ASCII
/// character is not.
pub proof fn law_blank_texts_print_nothing(words: Seq<char>)
    ensures
        (forall|i: int| 0 <= i < words.len() ==> {
            let c = #[trigger] words[i];
            c == ' ' || c == '\t' || c == '\n' || c == '\r'
        }) ==> text::is_blank_text(words),
        (exists|i: int| 0 <= i < words.len() && '!' <= #[trigger] words[i] <= '~') ==> !text::is_blank_text(words),
{
}

/// White space is what Unicode calls so: the ASCII controls from tab to carriage return, the blank,
/// the next-line control, and the blanks and separators beyond ASCII; nothing else.
pub proof fn law_white_space_is_that_of_unicode(c: char)
    ensures
        text::is_white_space(c) <==> c == '\t' || c == '\n' || c == '\u{b}' || c == '\u{c}' || c
            == '\r' || c == ' ' || c == '\u{85}' || c == '\u{a0}' || c == '\u{1680}' || '\u{2000}'
            <= c <= '\u{200a}' || c == '\u{2028}' || c == '\u{2029}' || c == '\u{202f}' || c
            == '\u{205f}' || c == '\u{3000}',
{
}

/// A decimal numeral writes its number: digits, most significant first, with no leading zero.
pub proof fn law_numerals_write_numbers(n: nat)
    ensures
        text::decimal(n).len() > 0,
        n >= 10 ==> text::decimal(n) == text::decimal(n / 10) + text::decimal(n % 10),
        n < 10 ==> text::decimal(n).len() == 1 && text::decimal(n)[0] as int == '0' as int + n,
        n > 0 ==> text::decimal(n)[0] != '0',
    decreases n,
{
    if n >= 10 {
        law_numerals_write_numbers(n / 10);
        assert(text::decimal(n) =~= text::decimal(n / 10) + text::decimal(n % 10));
    }
}

/// A byte string with the separator in it is its first piece, the separator, and what the other
/// pieces come from.
pub proof fn lemma_first_piece(bytes: Seq<u8>, sep: u8) -> (rest: Seq<u8>)
    requires
        text::split(bytes, sep).len() > 1,
    ensures
        bytes == text::split(bytes, sep)[0] + seq![sep] + rest,
        text::split(rest, sep) == text::split(bytes, sep).drop_first(),
{
    let at = text::first_index(bytes, sep);
    text::lemma_first_index_bounds(bytes, sep);
    let rest = bytes.skip(at + 1);
    assert(bytes =~= bytes.take(at) + seq![sep] + rest);
    assert(text::split(bytes, sep).drop_first() =~= text::split(rest, sep));
    rest
}

/// Byte strings are in order as their first difference is; a proper prefix comes first.
pub proof fn law_order_goes_by_the_first_difference(common: Seq<u8>, a: Seq<u8>, b: Seq<u8>)
    requires
        a.len() == 0 ==> b.len() > 0,
        a.len() > 0 ==> b.len() > 0 && a[0] < b[0],
    ensures
        text::bytes_before(common + a, common + b),
    decreases common.len(),
{
    if common.len() == 0 {
        assert(common + a =~= a);
        assert(common + b =~= b);
    } else {
        assert((common + a).drop_first() =~= common.drop_first() + a);
        assert((common + b).drop_first() =~= common.drop_first() + b);
        law_order_goes_by_the_first_difference(common.drop_first(), a, b);
    }
}

} // verus!
