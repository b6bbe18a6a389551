//! What joining, trimming, finding and reading do to a text.

use vstd::prelude::*;
use crate::{json, text};
use crate::json::{JsonV, NumV};

verus! {

/// What is joined from two lists is what is joined from each, with the separator between.
pub proof fn law_lists_are_joined_by_the_separator(
    one: Seq<Seq<char>>,
    other: Seq<Seq<char>>,
    separator: Seq<char>,
)
    ensures
        one.len() > 0 && other.len() > 0 ==> text::joined(one + other, separator) == text::joined(
            one,
            separator,
        ) + separator + text::joined(other, separator),
        one.len() == 0 ==> text::joined(one + other, separator) == text::joined(other, separator),
        one.len() == 1 ==> text::joined(one, separator) == one[0],
        one.len() == 0 ==> text::joined(one, separator).len() == 0,
    decreases other.len(),
{
    if one.len() == 0 {
        assert(one + other =~= other);
    } else if other.len() > 0 {
        let rest = other.drop_last();
        let all = one + other;
        assert(all.drop_last() =~= one + rest);
        assert(all.last() == other.last());
        if rest.len() > 0 {
            law_lists_are_joined_by_the_separator(one, rest, separator);
            assert(text::joined(all, separator) =~= text::joined(one, separator) + separator
                + text::joined(other, separator));
        } else {
            assert(one + rest =~= one);
        }
    }
}

/// What is trimmed is the text between its outer blanks: nothing but blanks is taken off, and no blank
/// is left at either end.
pub proof fn law_only_outer_blanks_are_trimmed(whole: Seq<char>) -> (cut: (int, int))
    ensures
        0 <= cut.0 <= cut.1 <= whole.len(),
        text::trimmed(whole) == whole.subrange(cut.0, cut.1),
        forall|i: int| 0 <= i < cut.0 ==> text::is_space(#[trigger] whole[i]),
        forall|i: int| cut.1 <= i < whole.len() ==> text::is_space(#[trigger] whole[i]),
        cut.0 < cut.1 ==> !text::is_space(whole[cut.0]) && !text::is_space(whole[cut.1 - 1]),
{
    let from = text::after_space(whole, 0);
    let to = text::before_space(whole, whole.len() as int);
    lemma_after_space(whole, 0);
    lemma_before_space(whole, whole.len() as int);
    if from < to {
        (from, to)
    } else {
        assert(text::trimmed(whole).len() == 0);
        assert(text::trimmed(whole) =~= whole.subrange(from, from));
        assert forall|i: int| from <= i < whole.len() implies text::is_space(#[trigger] whole[i]) by {}
        (from, from)
    }
}

/// Blanks are passed over up to the first character that is none.
proof fn lemma_after_space(whole: Seq<char>, from: int)
    requires
        0 <= from <= whole.len(),
    ensures
        from <= text::after_space(whole, from) <= whole.len(),
        forall|i: int| from <= i < text::after_space(whole, from) ==> text::is_space(#[trigger] whole[i]),
        text::after_space(whole, from) < whole.len() ==> !text::is_space(
            whole[text::after_space(whole, from)],
        ),
    decreases whole.len() - from,
{
    if from < whole.len() && text::is_space(whole[from]) {
        lemma_after_space(whole, from + 1);
    }
}

/// Blanks are passed over backwards up to the last character that is none.
proof fn lemma_before_space(whole: Seq<char>, to: int)
    requires
        0 <= to <= whole.len(),
    ensures
        0 <= text::before_space(whole, to) <= to,
        forall|i: int| text::before_space(whole, to) <= i < to ==> text::is_space(#[trigger] whole[i]),
        text::before_space(whole, to) > 0 ==> !text::is_space(
            whole[text::before_space(whole, to) - 1],
        ),
    decreases to,
{
    if to > 0 && text::is_space(whole[to - 1]) {
        lemma_before_space(whole, to - 1);
    }
}

/// A capital letter of the alphabet is made small; every other character stays as it is.
pub proof fn law_only_capitals_are_made_small(whole: Seq<char>, i: int)
    requires
        0 <= i < whole.len(),
    ensures
        text::lowered(whole).len() == whole.len(),
        65 <= whole[i] as int <= 90 ==> text::lowered(whole)[i] as int == whole[i] as int + 32,
        !(65 <= whole[i] as int <= 90) ==> text::lowered(whole)[i] == whole[i],
{
}

/// The place of a part is the first at which it stands.
pub proof fn law_the_place_of_a_part_is_its_first(whole: Seq<char>, part: Seq<char>)
    ensures
        text::place_of(whole, part) matches Some(place) ==> {
            &&& 0 <= place
            &&& place + part.len() <= whole.len()
            &&& whole.subrange(place, place + part.len()) == part
            &&& forall|j: int|
                0 <= j < place ==> #[trigger] whole.subrange(j, j + part.len()) != part
        },
        text::place_of(whole, part) is None ==> forall|j: int|
            0 <= j && j + part.len() <= whole.len() ==> #[trigger] whole.subrange(j, j + part.len())
                != part,
        text::begins_with(whole, part) <==> part.is_prefix_of(whole),
{
    lemma_first_place(whole, part, 0);
}

/// Looking from a place finds the first place from there on.
proof fn lemma_first_place(whole: Seq<char>, part: Seq<char>, from: int)
    requires
        0 <= from,
    ensures
        text::place_from(whole, part, from) matches Some(place) ==> {
            &&& from <= place
            &&& place + part.len() <= whole.len()
            &&& whole.subrange(place, place + part.len()) == part
            &&& forall|j: int|
                from <= j < place ==> #[trigger] whole.subrange(j, j + part.len()) != part
        },
        text::place_from(whole, part, from) is None ==> forall|j: int|
            from <= j && j + part.len() <= whole.len() ==> #[trigger] whole.subrange(j, j + part.len())
                != part,
    decreases whole.len() + 1 - from,
{
    if from + part.len() <= whole.len() && !text::occurs_at(whole, part, from) {
        lemma_first_place(whole, part, from + 1);
    }
}

/// A count is read back from how it is written.
pub proof fn law_a_count_is_read_back(n: usize)
    ensures
        text::count_reading(text::decimal(n as nat)) == Some(n),
{
    text::law_a_number_is_written_in_digits(n as nat);
    let written = text::decimal(n as nat);
    assert(written[0] != '+');
    assert forall|i: int| 0 <= i < written.len() implies text::is_digit(#[trigger] written[i]) by {}
}

/// Nothing is read as a count that is not made of digits, with or without a plus before them.
pub proof fn law_only_digits_are_a_count(whole: Seq<char>, i: int)
    ensures
        whole.len() == 0 ==> text::count_reading(whole) is None,
        0 <= i < whole.len() && !('0' <= whole[i] <= '9') && !(i == 0 && whole[i] == '+')
            ==> text::count_reading(whole) is None,
{
    let digits = text::count_digits(whole);
    if 0 <= i < whole.len() && !('0' <= whole[i] <= '9') && !(i == 0 && whole[i] == '+') {
        if whole[0] == '+' {
            assert(digits[i - 1] == whole[i]);
        } else {
            assert(digits[i] == whole[i]);
        }
    }
}

/// Bytes are written in pairs of hexadecimal digits, the high one first.
pub proof fn law_bytes_are_written_in_pairs(bytes: Seq<u8>, i: int)
    requires
        0 <= i < bytes.len(),
    ensures
        text::hex_of(bytes).len() == 2 * bytes.len(),
        text::hex_of(bytes)[2 * i] == text::hex_char((bytes[i] / 16) as nat),
        text::hex_of(bytes)[2 * i + 1] == text::hex_char((bytes[i] % 16) as nat),
    decreases bytes.len(),
{
    let rest = bytes.drop_last();
    lemma_pairs(rest);
    if i < rest.len() {
        law_bytes_are_written_in_pairs(rest, i);
        assert(rest[i] == bytes[i]);
    }
}

/// Bytes take twice their number of digits.
proof fn lemma_pairs(bytes: Seq<u8>)
    ensures
        text::hex_of(bytes).len() == 2 * bytes.len(),
    decreases bytes.len(),
{
    if bytes.len() > 0 {
        lemma_pairs(bytes.drop_last());
    }
}

/// The hexadecimal digits are the digits and then the small letters.
pub proof fn law_hexadecimal_digits_are_digits_and_letters(digit: nat)
    requires
        digit < 16,
    ensures
        digit < 10 ==> text::hex_char(digit) as int == 48 + digit,
        digit >= 10 ==> text::hex_char(digit) as int == 97 + (digit - 10),
{
}

/// The blanks are the space, the characters that move on from one, and the wide blanks; no letter, digit
/// or mark is one.
pub proof fn law_blanks_are_the_white_space_characters(c: char)
    ensures
        (c as int) < 128 ==> (text::is_space(c) <==> c == ' ' || 9 <= c as int <= 13),
        128 <= c as int ==> (text::is_space(c) <==> seq![
            0x85int,
            0xa0,
            0x1680,
            0x2000,
            0x2001,
            0x2002,
            0x2003,
            0x2004,
            0x2005,
            0x2006,
            0x2007,
            0x2008,
            0x2009,
            0x200a,
            0x2028,
            0x2029,
            0x202f,
            0x205f,
            0x3000,
        ].contains(c as int)),
        text::is_blank(Seq::empty()),
{
    let wide = seq![
        0x85int,
        0xa0,
        0x1680,
        0x2000,
        0x2001,
        0x2002,
        0x2003,
        0x2004,
        0x2005,
        0x2006,
        0x2007,
        0x2008,
        0x2009,
        0x200a,
        0x2028,
        0x2029,
        0x202f,
        0x205f,
        0x3000,
    ];
    assert(wide[0] == 0x85 && wide[1] == 0xa0 && wide[2] == 0x1680);
    assert(forall|k: int| 3 <= k <= 13 ==> #[trigger] wide[k] == 0x2000 + (k - 3));
    assert(wide[14] == 0x2028 && wide[15] == 0x2029 && wide[16] == 0x202f);
    assert(wide[17] == 0x205f && wide[18] == 0x3000);
    if 0x2000 <= c as int <= 0x200a {
        assert(wide[3 + (c as int - 0x2000)] == c as int);
    }
}

/// A text is blank where every character of it is.
pub proof fn law_a_blank_text_is_all_blanks(whole: Seq<char>)
    ensures
        text::is_blank(whole) <==> text::trimmed(whole).len() == 0,
{
    let (from, to) = law_only_outer_blanks_are_trimmed(whole);
    if text::is_blank(whole) && from < to {
        assert(text::is_space(whole[from]));
    }
    if text::trimmed(whole).len() == 0 {
        assert forall|i: int| 0 <= i < whole.len() implies text::is_space(#[trigger] whole[i]) by {}
    }
}

/// A value is written as JSON writes it: nothing, truth values and numbers by their words, a text in
/// quotes, a list between brackets and an object between braces, their parts with commas between them,
/// and a key before its value.
pub proof fn law_a_value_is_written_as_json(value: JsonV)
    ensures
        value is Null ==> json::json_chars(value) == "null"@,
        value == JsonV::Bool(true) ==> json::json_chars(value) == "true"@,
        value == JsonV::Bool(false) ==> json::json_chars(value) == "false"@,
        value matches JsonV::Number(NumV::Unsigned(n)) ==> json::json_chars(value) == text::decimal(
            n as nat,
        ),
        value matches JsonV::Number(NumV::Negative(n)) ==> n < 0 ==> json::json_chars(value) == "-"@
            + text::decimal((-(n as int)) as nat),
        value matches JsonV::Number(NumV::Real(words)) ==> json::json_chars(value) == words,
        value matches JsonV::Text(words) ==> json::json_chars(value) == json::quoted(words),
        value matches JsonV::Array(items) ==> json::json_chars(value) == "["@ + text::joined(
            items.map_values(|item: JsonV| json::json_chars(item)),
            ","@,
        ) + "]"@,
        value matches JsonV::Object(entries) ==> json::json_chars(value) == "{"@ + text::joined(
            entries.map_values(
                |entry: (Seq<char>, JsonV)|
                    json::quoted(entry.0) + ":"@ + json::json_chars(entry.1),
            ),
            ","@,
        ) + "}"@,
{
    reveal_with_fuel(json::json_chars, 2);
    reveal_with_fuel(json::item_texts, 2);
    reveal_with_fuel(json::entry_texts, 2);
    if let JsonV::Array(items) = value {
        assert(json::item_texts(items) =~= items.map_values(|item: JsonV| json::json_chars(item)));
    }
    if let JsonV::Object(entries) = value {
        assert(json::entry_texts(entries) =~= entries.map_values(
            |entry: (Seq<char>, JsonV)| json::quoted(entry.0) + ":"@ + json::json_chars(entry.1),
        ));
    }
}

} // verus!
