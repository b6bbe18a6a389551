//! Words, letters and bytes of a text.

use vstd::prelude::*;
use vstd::string::*;
use crate::text;
use crate::text::{chars_of, space_char, text_of};

verus! {

// ---------------------------------------------------------------------------
// Words
// ---------------------------------------------------------------------------

/// The first place of a text, from a place on, that is white space, or its end.
pub open spec fn space_from(text: Seq<char>, from: int) -> int
    decreases text.len() - from,
{
    if from < 0 || from >= text.len() || text::is_space(text[from]) {
        from
    } else {
        space_from(text, from + 1)
    }
}

/// A word goes on to the next white space, and no further than the text.
pub proof fn lemma_space_from(text: Seq<char>, from: int)
    requires
        0 <= from <= text.len(),
    ensures
        from <= space_from(text, from) <= text.len(),
        from < text.len() && !text::is_space(text[from]) ==> from < space_from(text, from),
    decreases text.len() - from,
{
    if from < text.len() && !text::is_space(text[from]) {
        lemma_space_from(text, from + 1);
    }
}

/// White space ends at a word or with the text.
pub proof fn lemma_after_space(text: Seq<char>, from: int)
    requires
        0 <= from <= text.len(),
    ensures
        from <= text::after_space(text, from) <= text.len(),
        text::after_space(text, from) < text.len() ==> !text::is_space(text[text::after_space(text, from)]),
    decreases text.len() - from,
{
    if from < text.len() && text::is_space(text[from]) {
        lemma_after_space(text, from + 1);
    }
}

/// The words of a text from a place on: what stands between white space.
pub open spec fn words_from(text: Seq<char>, from: int) -> Seq<Seq<char>>
    decreases text.len() - from,
    via words_from_shrinks
{
    let start = text::after_space(text, from);
    let end = space_from(text, start);
    if from < 0 || from > text.len() || start >= text.len() {
        Seq::empty()
    } else {
        seq![text.subrange(start, end)] + words_from(text, end)
    }
}

#[via_fn]
proof fn words_from_shrinks(text: Seq<char>, from: int) {
    if 0 <= from <= text.len() {
        lemma_after_space(text, from);
        let start = text::after_space(text, from);
        if start < text.len() {
            lemma_space_from(text, start);
        }
    }
}

/// The words of a text.
pub open spec fn words_of(text: Seq<char>) -> Seq<Seq<char>> {
    words_from(text, 0)
}

/// The words of a text.
pub fn words(text: &str) -> (list: Vec<String>)
    ensures
        text::texts(list@) == words_of(text@),
{
    let chars: Vec<char> = chars_of(text);
    let mut list: Vec<String> = Vec::new();
    let mut place: usize = 0;
    assert(text::texts(list@) + words_from(text@, 0) =~= words_of(text@));
    while place < chars.len()
        invariant
            place <= chars.len(),
            chars@ == text@,
            text::texts(list@) + words_from(text@, place as int) == words_of(text@),
        decreases chars.len() - place,
    {
        let ghost from = place as int;
        let mut start: usize = place;
        while start < chars.len() && space_char(chars[start])
            invariant
                place <= start <= chars.len(),
                chars@ == text@,
                text::after_space(text@, place as int) == text::after_space(text@, start as int),
            decreases chars.len() - start,
        {
            start += 1;
        }
        if start == chars.len() {
            assert(text::texts(list@) =~= words_of(text@));
            return list;
        }
        let mut end: usize = start;
        while end < chars.len() && !space_char(chars[end])
            invariant
                start <= end <= chars.len(),
                chars@ == text@,
                space_from(text@, start as int) == space_from(text@, end as int),
            decreases chars.len() - end,
        {
            end += 1;
        }
        proof {
            lemma_space_from(text@, start as int);
        }
        let ghost before = list@;
        let word: String = text_of(&chars, start, end);
        list.push(word);
        proof {
            assert(text::texts(list@) =~= text::texts(before) + seq![text@.subrange(start as int, end as int)]);
            assert(text::texts(list@) + words_from(text@, end as int) =~= text::texts(before) + words_from(
                text@,
                from,
            ));
        }
        place = end;
    }
    assert(text::texts(list@) =~= words_of(text@));
    list
}

// ---------------------------------------------------------------------------
// Letters
// ---------------------------------------------------------------------------

/// Whether a character beyond ASCII is a letter or a digit, by the Unicode properties of those names.
pub uninterp spec fn is_wide_letter_or_digit(c: char) -> bool;

/// Whether an ASCII character is a letter or a digit.
pub open spec fn is_ascii_letter_or_digit(c: char) -> bool {
    'a' <= c <= 'z' || 'A' <= c <= 'Z' || '0' <= c <= '9'
}

/// Whether a character is a letter or a digit.
pub open spec fn is_letter_or_digit(c: char) -> bool {
    if (c as int) < 128 {
        is_ascii_letter_or_digit(c)
    } else {
        is_wide_letter_or_digit(c)
    }
}

/// Whether a character is a letter or a digit.
///
/// The result of `char::is_alphanumeric` is only named here, except on ASCII characters, where it
/// holds of the letters and the digits.
#[verifier::external_body]
pub(crate) fn letter_or_digit(c: char) -> (holds: bool)
    ensures
        holds == (if (c as int) < 128 {
            is_ascii_letter_or_digit(c)
        } else {
            is_wide_letter_or_digit(c)
        }),
{
    c.is_alphanumeric()
}

/// Whether a text holds ASCII characters only.
pub open spec fn is_ascii_text(text: Seq<char>) -> bool {
    forall|i: int| 0 <= i < text.len() ==> (#[trigger] text[i] as int) < 128
}

/// A text in small letters, by the Unicode property of that name.
pub uninterp spec fn in_small_letters(text: Seq<char>) -> Seq<char>;

/// A text in small letters.
///
/// The result of `str::to_lowercase` is only named here, except on ASCII text, where the capitals
/// become small and everything else stays.
#[verifier::external_body]
pub(crate) fn small_letters(text: &str) -> (small_text: String)
    ensures
        small_text@ == in_small_letters(text@),
        is_ascii_text(text@) ==> small_text@ == text::lowered(text@),
{
    text.to_lowercase()
}

// ---------------------------------------------------------------------------
// Bytes
// ---------------------------------------------------------------------------

/// How many bytes a character takes in UTF-8.
pub open spec fn width(c: char) -> nat {
    if c as int <= 0x7f {
        1
    } else if c as int <= 0x7ff {
        2
    } else if c as int <= 0xffff {
        3
    } else {
        4
    }
}

/// How many bytes a text takes in UTF-8.
pub open spec fn byte_length(text: Seq<char>) -> nat
    decreases text.len(),
{
    if text.len() == 0 {
        0
    } else {
        byte_length(text.drop_last()) + width(text.last())
    }
}

/// How many bytes a character takes in UTF-8.
fn char_width(c: char) -> (n: u8)
    ensures
        n == width(c),
{
    let code: u32 = c as u32;
    if code <= 0x7f {
        1
    } else if code <= 0x7ff {
        2
    } else if code <= 0xffff {
        3
    } else {
        4
    }
}

/// How many bytes a text takes in UTF-8.
pub fn count_bytes(text: &str) -> (n: u128)
    ensures
        n == byte_length(text@),
        n <= 4 * usize::MAX,
{
    let chars: Vec<char> = chars_of(text);
    let mut n: u128 = 0;
    let mut i: usize = 0;
    assert(text@.take(0) =~= Seq::empty());
    while i < chars.len()
        invariant
            i <= chars.len(),
            chars@ == text@,
            n == byte_length(text@.take(i as int)),
            n <= 4 * i,
        decreases chars.len() - i,
    {
        proof {
            assert(text@.take(i + 1).drop_last() =~= text@.take(i as int));
            assert(text@.take(i + 1).last() == text@[i as int]);
        }
        n += char_width(chars[i]) as u128;
        i += 1;
    }
    assert(text@.take(i as int) =~= text@);
    n
}

/// The place of the character that a byte of a text starts, where one does.
pub open spec fn place_at_byte(text: Seq<char>, byte: nat) -> Option<int> {
    place_at_byte_from(text, byte, 0, 0)
}

/// The place of the character that a byte starts, from a place and its own first byte on.
pub open spec fn place_at_byte_from(text: Seq<char>, byte: nat, place: int, at: nat) -> Option<int>
    decreases text.len() - place,
{
    if at == byte {
        Some(place)
    } else if at > byte || place < 0 || place >= text.len() {
        None
    } else {
        place_at_byte_from(text, byte, place + 1, at + width(text[place]))
    }
}

/// The place of the character that a byte starts, where one does.
fn find_place_at_byte(chars: &Vec<char>, byte: usize) -> (found: Option<usize>)
    ensures
        match found {
            Some(place) => place_at_byte(chars@, byte as nat) == Some(place as int) && place
                <= chars@.len(),
            None => place_at_byte(chars@, byte as nat) is None,
        },
{
    let mut place: usize = 0;
    let mut at: u128 = 0;
    while at < byte as u128 && place < chars.len()
        invariant
            place <= chars.len(),
            at <= 4 * place,
            place_at_byte(chars@, byte as nat) == place_at_byte_from(
                chars@,
                byte as nat,
                place as int,
                at as nat,
            ),
        decreases chars.len() - place,
    {
        at += char_width(chars[place]) as u128;
        place += 1;
    }
    if at == byte as u128 {
        Some(place)
    } else {
        None
    }
}

/// Whether two bytes of a text each start a character, or end the text.
pub open spec fn is_cut(text: Seq<char>, from: nat, to: nat) -> bool {
    place_at_byte(text, from) is Some && place_at_byte(text, to) is Some
}

/// What a text holds from one byte up to another.
pub open spec fn byte_cut(text: Seq<char>, from: nat, to: nat) -> Seq<char> {
    match (place_at_byte(text, from), place_at_byte(text, to)) {
        (Some(a), Some(b)) => if a <= b {
            text.subrange(a, b)
        } else {
            Seq::empty()
        },
        _ => Seq::empty(),
    }
}

/// What a text holds from one byte up to another, where both start a character.
pub fn cut_bytes(chars: &Vec<char>, from: usize, to: usize) -> (part: Option<String>)
    ensures
        part is Some <==> is_cut(chars@, from as nat, to as nat),
        part matches Some(p) ==> p@ == byte_cut(chars@, from as nat, to as nat),
{
    match (find_place_at_byte(chars, from), find_place_at_byte(chars, to)) {
        (Some(a), Some(b)) => if a <= b {
            Some(text_of(chars, a, b))
        } else {
            Some(text_of(chars, 0, 0))
        },
        _ => None,
    }
}

/// In ASCII text every byte is a character, so that places and bytes agree.
pub proof fn law_ascii_bytes_are_places(text: Seq<char>, from: int, to: int)
    requires
        is_ascii_text(text),
        0 <= from <= to <= text.len(),
    ensures
        is_cut(text, from as nat, to as nat),
        byte_cut(text, from as nat, to as nat) == text.subrange(from, to),
{
    lemma_ascii_place(text, from as nat, 0);
    lemma_ascii_place(text, to as nat, 0);
}

/// In ASCII text a byte is the character at its place.
proof fn lemma_ascii_place(text: Seq<char>, byte: nat, place: nat)
    requires
        is_ascii_text(text),
        place <= byte <= text.len(),
    ensures
        place_at_byte_from(text, byte, place as int, place) == Some(byte as int),
    decreases byte - place,
{
    if place < byte {
        assert((text[place as int] as int) < 128);
        lemma_ascii_place(text, byte, place + 1);
    }
}

} // verus!
