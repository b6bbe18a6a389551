//! Text: the handful of string operations the rules are written with.
//!
//! A text is the sequence of its characters. Nothing here depends on how it is encoded.

use vstd::prelude::*;
use vstd::string::*;

verus! {

/// Appends one character.
///
/// `String::push` is taken at its documentation: the character goes on the end and nothing else
/// changes.
pub assume_specification[ std::string::String::push ](s: &mut std::string::String, c: char)
    ensures
        final(s)@ == old(s)@.push(c),
;

/// Whether two texts are the same characters.
///
/// `str` equality is taken at its documentation: equal exactly when the contents are.
#[verifier::external_body]
pub(crate) fn same_text(a: &str, b: &str) -> (same: bool)
    ensures
        same == (a@ == b@),
{
    a == b
}

/// The characters of a text, one per slot.
pub fn chars_of(text: &str) -> (chars: Vec<char>)
    ensures
        chars@ == text@,
{
    let mut chars: Vec<char> = Vec::new();
    for c in it: text.chars()
        invariant
            it.seq() == text@,
            chars@ == text@.take(it.index()),
    {
        chars.push(c);
        proof {
            assert(text@.take(it.index() + 1) =~= text@.take(it.index()).push(text@[it.index()]));
        }
    }
    assert(text@.take(text@.len() as int) =~= text@);
    chars
}

/// The text made of a stretch of characters.
pub fn text_of(chars: &Vec<char>, from: usize, to: usize) -> (text: String)
    requires
        from <= to <= chars@.len(),
    ensures
        text@ == chars@.subrange(from as int, to as int),
{
    let mut text: String = String::new();
    let mut i: usize = from;
    while i < to
        invariant
            from <= i <= to <= chars@.len(),
            text@ == chars@.subrange(from as int, i as int),
        decreases to - i,
    {
        text.push(chars[i]);
        i += 1;
        assert(chars@.subrange(from as int, i as int) =~= chars@.subrange(from as int, i - 1).push(chars@[i - 1]));
    }
    text
}

/// The characters of several texts, as values of the model.
pub open spec fn texts(list: Seq<String>) -> Seq<Seq<char>> {
    list.map_values(|s: String| s@)
}

/// Whether a list of texts holds this one.
pub fn holds_text(list: &Vec<String>, wanted: &str) -> (found: bool)
    ensures
        found == texts(list@).contains(wanted@),
{
    let mut i: usize = 0;
    while i < list.len()
        invariant
            i <= list.len(),
            forall|j: int| 0 <= j < i ==> texts(list@)[j] != wanted@,
        decreases list.len() - i,
    {
        if same_text(list[i].as_str(), wanted) {
            assert(texts(list@)[i as int] == wanted@);
            return true;
        }
        i += 1;
    }
    false
}

/// A copy of every text of a list, in order.
pub fn copy_texts(list: &Vec<String>) -> (copy: Vec<String>)
    ensures
        texts(copy@) == texts(list@),
{
    let mut copy: Vec<String> = Vec::new();
    let mut i: usize = 0;
    while i < list.len()
        invariant
            i <= list.len(),
            texts(copy@) == texts(list@).take(i as int),
        decreases list.len() - i,
    {
        let ghost before = copy@;
        copy.push(list[i].clone());
        i += 1;
        assert(texts(copy@) =~= texts(before).push(list@[i - 1]@));
        assert(texts(list@).take(i as int) =~= texts(list@).take(i - 1).push(list@[i - 1]@));
    }
    assert(texts(list@).take(list.len() as int) =~= texts(list@));
    copy
}

/// Texts written one after another with a separator between each two.
pub open spec fn joined(parts: Seq<Seq<char>>, separator: Seq<char>) -> Seq<char>
    decreases parts.len(),
{
    if parts.len() == 0 {
        Seq::empty()
    } else if parts.len() == 1 {
        parts[0]
    } else {
        joined(parts.drop_last(), separator) + separator + parts.last()
    }
}

/// Writes the texts of a list one after another with a separator between each two.
pub fn join_texts(parts: &Vec<String>, separator: &str) -> (whole: String)
    ensures
        whole@ == joined(texts(parts@), separator@),
{
    let mut whole: String = String::new();
    let mut i: usize = 0;
    while i < parts.len()
        invariant
            i <= parts.len(),
            whole@ == joined(texts(parts@).take(i as int), separator@),
        decreases parts.len() - i,
    {
        let ghost before = texts(parts@).take(i as int);
        if i > 0 {
            whole.append(separator);
        }
        whole.append(parts[i].as_str());
        i += 1;
        proof {
            let now = texts(parts@).take(i as int);
            assert(now.drop_last() =~= before);
            assert(now.last() == parts@[i - 1]@);
            if i == 1 {
                assert(whole@ =~= now[0]);
            }
        }
    }
    assert(texts(parts@).take(parts.len() as int) =~= texts(parts@));
    whole
}

/// The character of one decimal digit.
pub open spec fn digit_char(digit: nat) -> char {
    (48 + digit) as char
}

/// The decimal digits of a number, most significant first.
pub open spec fn decimal(n: nat) -> Seq<char>
    decreases n,
{
    if n < 10 {
        seq![digit_char(n)]
    } else {
        decimal(n / 10).push(digit_char(n % 10))
    }
}

/// Writes a number in decimal.
pub fn decimal_text(n: u64) -> (text: String)
    ensures
        text@ == decimal(n as nat),
    decreases n,
{
    let mut text: String = if n < 10 { String::new() } else { decimal_text(n / 10) };
    let digit: u8 = (n % 10) as u8;
    text.push((48u8 + digit) as char);
    assert(text@ =~= decimal(n as nat));
    text
}

/// Writes a count in decimal.
pub fn count_text(n: usize) -> (text: String)
    ensures
        text@ == decimal(n as nat),
{
    decimal_text(n as u64)
}

/// The lower-case hexadecimal character of one digit.
pub open spec fn hex_char(digit: nat) -> char {
    if digit < 10 { (48 + digit) as char } else { (87 + digit) as char }
}

/// Writes one byte as two lower-case hexadecimal digits at the end of a text.
pub fn push_hex_byte(text: &mut String, byte: u8)
    ensures
        final(text)@ == old(text)@ + seq![hex_char((byte / 16) as nat), hex_char((byte % 16) as nat)],
{
    let high: u8 = byte / 16;
    let low: u8 = byte % 16;
    text.push(if high < 10 { (48u8 + high) as char } else { (87u8 + high) as char });
    text.push(if low < 10 { (48u8 + low) as char } else { (87u8 + low) as char });
    assert(text@ =~= old(text)@ + seq![hex_char((byte / 16) as nat), hex_char((byte % 16) as nat)]);
}

/// The pairs of hexadecimal digits that spell a run of bytes.
pub open spec fn hex_of(bytes: Seq<u8>) -> Seq<char>
    decreases bytes.len(),
{
    if bytes.len() == 0 {
        Seq::empty()
    } else {
        hex_of(bytes.drop_last()) + seq![
            hex_char((bytes.last() / 16) as nat),
            hex_char((bytes.last() % 16) as nat),
        ]
    }
}

/// Which hexadecimal digit of an identifier stands at a place of its written form.
pub open spec fn uuid_digit_at(place: int) -> int {
    if place < 8 {
        place
    } else if place < 13 {
        place - 1
    } else if place < 18 {
        place - 2
    } else if place < 23 {
        place - 3
    } else {
        place - 4
    }
}

/// How an identifier is written: its thirty-two hexadecimal digits in lower case, most
/// significant first, in groups of eight, four, four, four and twelve.
pub open spec fn uuid_chars(id: u128) -> Seq<char> {
    Seq::new(
        36,
        |place: int|
            if place == 8 || place == 13 || place == 18 || place == 23 {
                '-'
            } else {
                hex_char(
                    (id as nat / vstd::arithmetic::power::pow(16, (31 - uuid_digit_at(place)) as nat) as nat)
                        % 16,
                )
            },
    )
}

/// Writes an identifier.
///
/// `Uuid::from_u128` and `Uuid`'s `Display` are taken at their documentation: the value's bytes
/// in big-endian order, hyphenated, in lower case.
#[verifier::external_body]
pub(crate) fn uuid_text(id: u128) -> (text: String)
    ensures
        text@ == uuid_chars(id),
{
    uuid::Uuid::from_u128(id).to_string()
}

/// What `Uuid::parse_str` reads out of a text.
pub uninterp spec fn uuid_reading(text: Seq<char>) -> Option<u128>;

/// Reads an identifier out of a text.
///
/// The result of `Uuid::parse_str`, which accepts several spellings of one identifier, is only
/// named here, but for the spelling that `Uuid` itself writes: that one reads back.
#[verifier::external_body]
pub(crate) fn parse_uuid(text: &str) -> (id: Option<u128>)
    ensures
        id == uuid_reading(text@),
        forall|written: u128| text@ == #[trigger] uuid_chars(written) ==> id == Some(written),
{
    uuid::Uuid::parse_str(text).ok().map(|id| id.as_u128())
}

// ---------------------------------------------------------------------------
// Alphabetical order
// ---------------------------------------------------------------------------

/// How one thing stands to another.
#[derive(Debug, Clone, Copy, PartialEq, Eq, Structural)]
pub enum Standing {
    Before,
    Level,
    After,
}

impl Standing {
    /// The same two things taken the other way round.
    pub open spec fn turned(self) -> Standing {
        match self {
            Standing::Before => Standing::After,
            Standing::Level => Standing::Level,
            Standing::After => Standing::Before,
        }
    }

    /// The same two things taken the other way round.
    pub fn turn(self) -> (turned: Standing)
        ensures
            turned == self.turned(),
    {
        match self {
            Standing::Before => Standing::After,
            Standing::Level => Standing::Level,
            Standing::After => Standing::Before,
        }
    }
}

/// The number of a character.
pub open spec fn code_of(c: char) -> int {
    c as int
}

/// The number of a character.
fn char_code(c: char) -> (code: u32)
    ensures
        code == code_of(c),
{
    c as u32
}

/// How two texts stand to each other: by the first character that differs, and the shorter first
/// where none does.
pub open spec fn text_order(a: Seq<char>, b: Seq<char>) -> Standing
    decreases a.len(),
{
    if a.len() == 0 && b.len() == 0 {
        Standing::Level
    } else if a.len() == 0 {
        Standing::Before
    } else if b.len() == 0 {
        Standing::After
    } else if code_of(a[0]) < code_of(b[0]) {
        Standing::Before
    } else if code_of(a[0]) > code_of(b[0]) {
        Standing::After
    } else {
        text_order(a.drop_first(), b.drop_first())
    }
}

/// Compares two texts.
pub fn compare_texts(a: &str, b: &str) -> (order: Standing)
    ensures
        order == text_order(a@, b@),
{
    let left: Vec<char> = chars_of(a);
    let right: Vec<char> = chars_of(b);
    let mut i: usize = 0;
    assert(a@.skip(0) =~= a@);
    assert(b@.skip(0) =~= b@);
    while i < left.len() && i < right.len()
        invariant
            left@ == a@,
            right@ == b@,
            i <= left.len(),
            i <= right.len(),
            text_order(a@, b@) == text_order(a@.skip(i as int), b@.skip(i as int)),
        decreases left.len() - i,
    {
        let x: u32 = char_code(left[i]);
        let y: u32 = char_code(right[i]);
        if x < y {
            return Standing::Before;
        }
        if x > y {
            return Standing::After;
        }
        assert(a@.skip(i as int).drop_first() =~= a@.skip(i + 1));
        assert(b@.skip(i as int).drop_first() =~= b@.skip(i + 1));
        i += 1;
    }
    if i < right.len() {
        Standing::Before
    } else if i < left.len() {
        Standing::After
    } else {
        Standing::Level
    }
}

/// Only a text stands level with itself, and turning two round turns their order round.
pub proof fn lemma_text_order_flips(a: Seq<char>, b: Seq<char>)
    ensures
        text_order(a, b) == Standing::Level <==> a == b,
        text_order(a, b) == Standing::Before <==> text_order(b, a) == Standing::After,
    decreases a.len(),
{
    if a.len() > 0 && b.len() > 0 && code_of(a[0]) == code_of(b[0]) {
        lemma_text_order_flips(a.drop_first(), b.drop_first());
        if a.drop_first() == b.drop_first() {
            assert(a =~= seq![a[0]] + a.drop_first());
            assert(b =~= seq![b[0]] + b.drop_first());
        }
    } else if a.len() == 0 && b.len() == 0 {
        assert(a =~= b);
    }
}

/// What stands before what stands before a third stands before the third.
pub proof fn lemma_text_order_chains(a: Seq<char>, b: Seq<char>, c: Seq<char>)
    requires
        text_order(a, b) == Standing::Before,
        text_order(b, c) == Standing::Before,
    ensures
        text_order(a, c) == Standing::Before,
    decreases a.len(),
{
    if a.len() > 0 && b.len() > 0 && c.len() > 0 && code_of(a[0]) == code_of(b[0]) && code_of(b[0])
        == code_of(c[0]) {
        lemma_text_order_chains(a.drop_first(), b.drop_first(), c.drop_first());
    }
}

/// Whether one text comes before another in a dictionary: up to some place they are the same, and
/// there the one ends, or holds the character with the smaller number.
pub open spec fn comes_before(a: Seq<char>, b: Seq<char>) -> bool {
    exists|place: int| #[trigger] parts_at(a, b, place)
}

/// Whether a text leaves another at a place, to stand before it.
pub open spec fn parts_at(a: Seq<char>, b: Seq<char>, place: int) -> bool {
    &&& 0 <= place <= a.len()
    &&& place < b.len()
    &&& a.take(place) == b.take(place)
    &&& place == a.len() || (a[place] as int) < (b[place] as int)
}

/// Alphabetical order is that of a dictionary.
pub proof fn law_texts_stand_as_in_a_dictionary(a: Seq<char>, b: Seq<char>)
    ensures
        text_order(a, b) == Standing::Before <==> comes_before(a, b),
        text_order(a, b) == Standing::After <==> comes_before(b, a),
        text_order(a, b) == Standing::Level <==> a == b,
{
    lemma_text_order_flips(a, b);
    lemma_text_order_flips(b, a);
    lemma_before_parts(a, b);
    lemma_before_parts(b, a);
}

/// What stands before in alphabetical order leaves the other at some place.
proof fn lemma_before_parts(a: Seq<char>, b: Seq<char>)
    ensures
        text_order(a, b) == Standing::Before <==> comes_before(a, b),
    decreases a.len(),
{
    if a.len() == 0 || b.len() == 0 {
        if a.len() == 0 && b.len() > 0 {
            assert(a.take(0) =~= b.take(0));
            assert(parts_at(a, b, 0));
        }
    } else if code_of(a[0]) < code_of(b[0]) {
        assert(a.take(0) =~= b.take(0));
        assert(parts_at(a, b, 0));
    } else if code_of(a[0]) > code_of(b[0]) {
        if comes_before(a, b) {
            let place = choose|place: int| #[trigger] parts_at(a, b, place);
            if place > 0 {
                assert(a.take(place)[0] == b.take(place)[0]);
            }
        }
    } else {
        let x = a.drop_first();
        let y = b.drop_first();
        lemma_before_parts(x, y);
        if comes_before(x, y) {
            let place = choose|place: int| #[trigger] parts_at(x, y, place);
            assert(a.take(place + 1) =~= seq![a[0]] + x.take(place));
            assert(b.take(place + 1) =~= seq![b[0]] + y.take(place));
            assert(parts_at(a, b, place + 1));
        }
        if comes_before(a, b) {
            let place = choose|place: int| #[trigger] parts_at(a, b, place);
            assert(place > 0);
            assert(x.take(place - 1) =~= a.take(place).drop_first());
            assert(y.take(place - 1) =~= b.take(place).drop_first());
            assert(parts_at(x, y, place - 1));
        }
    }
}

/// Whether a list of texts stands in alphabetical order, nothing twice.
pub open spec fn strictly_alphabetical(list: Seq<Seq<char>>) -> bool {
    forall|i: int, j: int|
        0 <= i < j < list.len() ==> text_order(#[trigger] list[i], #[trigger] list[j])
            == Standing::Before
}

// ---------------------------------------------------------------------------
// Looking into a text
// ---------------------------------------------------------------------------

/// Whether a part stands at a place of a text.
pub open spec fn occurs_at(text: Seq<char>, part: Seq<char>, place: int) -> bool {
    0 <= place && place + part.len() <= text.len() && text.subrange(place, place + part.len())
        == part
}

/// The first place at or behind another where a part stands.
pub open spec fn place_from(text: Seq<char>, part: Seq<char>, from: int) -> Option<int>
    decreases text.len() + 1 - from,
{
    if from < 0 || from + part.len() > text.len() {
        None
    } else if occurs_at(text, part, from) {
        Some(from)
    } else {
        place_from(text, part, from + 1)
    }
}

/// The first place where a part stands.
pub open spec fn place_of(text: Seq<char>, part: Seq<char>) -> Option<int> {
    place_from(text, part, 0)
}

/// Whether a part stands anywhere in a text.
pub open spec fn holds_part(text: Seq<char>, part: Seq<char>) -> bool {
    place_of(text, part) is Some
}

/// Whether a text begins with a part.
pub open spec fn begins_with(text: Seq<char>, part: Seq<char>) -> bool {
    occurs_at(text, part, 0)
}

/// The first place where a part stands is the first, and it is there if the part stands anywhere.
pub proof fn lemma_place_from(text: Seq<char>, part: Seq<char>, from: int)
    requires
        0 <= from,
    ensures
        place_from(text, part, from) matches Some(place) ==> from <= place && occurs_at(
            text,
            part,
            place,
        ) && forall|j: int| from <= j < place ==> !#[trigger] occurs_at(text, part, j),
        place_from(text, part, from) is None ==> forall|j: int|
            from <= j ==> !#[trigger] occurs_at(text, part, j),
    decreases text.len() + 1 - from,
{
    if from + part.len() <= text.len() && !occurs_at(text, part, from) {
        lemma_place_from(text, part, from + 1);
    }
}

/// A part stands in a text exactly where there is a place for it.
pub proof fn law_a_part_has_a_place(text: Seq<char>, part: Seq<char>)
    ensures
        holds_part(text, part) <==> exists|place: int| #[trigger] occurs_at(text, part, place),
{
    lemma_place_from(text, part, 0);
}

/// Whether a part stands at a place of a run of characters.
fn stands_at(chars: &Vec<char>, part: &Vec<char>, place: usize) -> (stands: bool)
    ensures
        stands == occurs_at(chars@, part@, place as int),
{
    if part.len() > chars.len() || place > chars.len() - part.len() {
        return false;
    }
    let mut i: usize = 0;
    while i < part.len()
        invariant
            i <= part.len(),
            place + part.len() <= chars.len(),
            forall|k: int| 0 <= k < i ==> chars@[place + k] == #[trigger] part@[k],
        decreases part.len() - i,
    {
        if chars[place + i] != part[i] {
            proof {
                assert(chars@.subrange(place as int, place + part@.len())[i as int] == chars@[place
                    + i]);
            }
            return false;
        }
        i += 1;
    }
    assert(chars@.subrange(place as int, place + part@.len()) =~= part@);
    true
}

/// The first place where a part stands in a run of characters.
pub fn find_part(chars: &Vec<char>, part: &Vec<char>) -> (found: Option<usize>)
    ensures
        match found {
            Some(place) => place_of(chars@, part@) == Some(place as int) && place + part@.len()
                <= chars@.len(),
            None => place_of(chars@, part@) is None,
        },
{
    if part.len() > chars.len() {
        return None;
    }
    let last: usize = chars.len() - part.len();
    let mut place: usize = 0;
    while place <= last
        invariant
            last + part.len() == chars.len(),
            place <= last + 1,
            place_of(chars@, part@) == place_from(chars@, part@, place as int),
        decreases last + 1 - place,
    {
        if stands_at(chars, part, place) {
            return Some(place);
        }
        if place == last {
            assert(place_from(chars@, part@, place + 1) is None);
            return None;
        }
        place += 1;
    }
    None
}

/// Whether a part stands anywhere in a text.
pub fn contains_part(text: &str, part: &str) -> (holds: bool)
    ensures
        holds == holds_part(text@, part@),
{
    let chars: Vec<char> = chars_of(text);
    let wanted: Vec<char> = chars_of(part);
    find_part(&chars, &wanted).is_some()
}

/// Whether a text begins with a part.
pub fn starts_with_part(text: &str, part: &str) -> (begins: bool)
    ensures
        begins == begins_with(text@, part@),
{
    let chars: Vec<char> = chars_of(text);
    let wanted: Vec<char> = chars_of(part);
    stands_at(&chars, &wanted, 0)
}

// ---------------------------------------------------------------------------
// Reading a count
// ---------------------------------------------------------------------------

/// Whether a character is a decimal digit.
pub open spec fn is_digit(c: char) -> bool {
    48 <= code_of(c) <= 57
}

/// The number that a run of digits spells.
pub open spec fn digits_value(digits: Seq<char>) -> nat
    decreases digits.len(),
{
    if digits.len() == 0 {
        0
    } else {
        digits_value(digits.drop_last()) * 10 + (code_of(digits.last()) - 48) as nat
    }
}

/// A number is written in digits, without any in front that say nothing, and the digits spell it.
pub proof fn law_a_number_is_written_in_digits(n: nat)
    ensures
        digits_value(decimal(n)) == n,
        decimal(n).len() > 0,
        forall|i: int| 0 <= i < decimal(n).len() ==> '0' <= #[trigger] decimal(n)[i] <= '9',
        n > 0 ==> decimal(n)[0] != '0',
    decreases n,
{
    reveal_with_fuel(digits_value, 2);
    if n < 10 {
        assert(decimal(n).drop_last() =~= Seq::empty());
        assert(code_of(decimal(n).last()) == 48 + n);
    } else {
        law_a_number_is_written_in_digits(n / 10);
        assert(decimal(n).drop_last() =~= decimal(n / 10));
        assert(code_of(decimal(n).last()) == 48 + n % 10);
    }
}

/// The digits of a count: what stands behind an optional plus sign.
pub open spec fn count_digits(text: Seq<char>) -> Seq<char> {
    if text.len() > 0 && text[0] == '+' {
        text.skip(1)
    } else {
        text
    }
}

/// The count a text spells: at least one digit, nothing but digits, and no more than fits.
pub open spec fn count_reading(text: Seq<char>) -> Option<usize> {
    let digits = count_digits(text);
    if digits.len() > 0 && (forall|i: int| 0 <= i < digits.len() ==> is_digit(#[trigger] digits[i]))
        && digits_value(digits) <= usize::MAX {
        Some(digits_value(digits) as usize)
    } else {
        None
    }
}

/// More digits never spell a smaller number.
proof fn lemma_digits_value_grows(digits: Seq<char>, n: int)
    requires
        0 <= n <= digits.len(),
        forall|i: int| 0 <= i < digits.len() ==> is_digit(#[trigger] digits[i]),
    ensures
        digits_value(digits.take(n)) <= digits_value(digits),
    decreases digits.len() - n,
{
    if n < digits.len() {
        lemma_digits_value_grows(digits, n + 1);
        assert(digits.take(n + 1).drop_last() =~= digits.take(n));
        assert(is_digit(digits[n]));
    } else {
        assert(digits.take(n) =~= digits);
    }
}

/// Reads a count.
pub fn parse_count(text: &str) -> (count: Option<usize>)
    ensures
        count == count_reading(text@),
{
    let chars: Vec<char> = chars_of(text);
    let start: usize = if chars.len() > 0 && chars[0] == '+' {
        1
    } else {
        0
    };
    let ghost digits = count_digits(text@);
    if start == chars.len() {
        assert(digits.len() == 0);
        return None;
    }
    let mut value: usize = 0;
    let mut i: usize = start;
    while i < chars.len()
        invariant
            start <= i <= chars.len(),
            start <= 1,
            chars@ == text@,
            digits == count_digits(text@),
            digits == chars@.skip(start as int),
            value == digits_value(digits.take(i - start)),
            forall|k: int| 0 <= k < i - start ==> is_digit(#[trigger] digits[k]),
        decreases chars.len() - i,
    {
        let code: u32 = char_code(chars[i]);
        assert(digits[i - start] == chars@[i as int]);
        if code < 48 || code > 57 {
            return None;
        }
        let digit: usize = (code - 48) as usize;
        proof {
            assert(digits.take(i - start + 1).drop_last() =~= digits.take(i - start));
        }
        let grown: Option<usize> = match value.checked_mul(10) {
            Some(tens) => tens.checked_add(digit),
            None => None,
        };
        match grown {
            Some(next) => {
                value = next;
            },
            None => {
                proof {
                    assert(digits_value(digits.take(i - start + 1)) > usize::MAX);
                    if forall|k: int| 0 <= k < digits.len() ==> is_digit(#[trigger] digits[k]) {
                        lemma_digits_value_grows(digits, i - start + 1);
                    }
                }
                return None;
            },
        }
        i += 1;
    }
    assert(digits.take(digits.len() as int) =~= digits);
    Some(value)
}

// ---------------------------------------------------------------------------
// White space
// ---------------------------------------------------------------------------

/// Whether a character is white space, by the Unicode property of that name.
pub open spec fn is_space(c: char) -> bool {
    ||| 0x9 <= c as int <= 0xd
    ||| c as int == 0x20
    ||| c as int == 0x85
    ||| c as int == 0xa0
    ||| c as int == 0x1680
    ||| 0x2000 <= c as int <= 0x200a
    ||| c as int == 0x2028
    ||| c as int == 0x2029
    ||| c as int == 0x202f
    ||| c as int == 0x205f
    ||| c as int == 0x3000
}

/// Whether a character is white space.
pub fn space_char(c: char) -> (space: bool)
    ensures
        space == is_space(c),
{
    let code: u32 = c as u32;
    (0x9 <= code && code <= 0xd) || code == 0x20 || code == 0x85 || code == 0xa0 || code == 0x1680
        || (0x2000 <= code && code <= 0x200a) || code == 0x2028 || code == 0x2029 || code == 0x202f
        || code == 0x205f || code == 0x3000
}

/// Whether a text holds nothing but white space.
pub open spec fn is_blank(text: Seq<char>) -> bool {
    forall|i: int| 0 <= i < text.len() ==> is_space(#[trigger] text[i])
}

/// Whether a text holds nothing but white space.
pub fn blank(text: &str) -> (empty: bool)
    ensures
        empty == is_blank(text@),
{
    let chars: Vec<char> = chars_of(text);
    let mut i: usize = 0;
    while i < chars.len()
        invariant
            i <= chars.len(),
            chars@ == text@,
            forall|k: int| 0 <= k < i ==> is_space(#[trigger] chars@[k]),
        decreases chars.len() - i,
    {
        if !space_char(chars[i]) {
            assert(!is_space(text@[i as int]));
            return false;
        }
        i += 1;
    }
    true
}

/// The first place of a text, from a place on, that is not white space, or its end.
pub open spec fn after_space(text: Seq<char>, from: int) -> int
    decreases text.len() - from,
{
    if from < 0 || from >= text.len() || !is_space(text[from]) {
        from
    } else {
        after_space(text, from + 1)
    }
}

/// The place behind the last of the first characters of a text that is not white space.
pub open spec fn before_space(text: Seq<char>, to: int) -> int
    decreases to,
{
    if to <= 0 || to > text.len() || !is_space(text[to - 1]) {
        to
    } else {
        before_space(text, to - 1)
    }
}

/// A text without the white space around it.
pub open spec fn trimmed(text: Seq<char>) -> Seq<char> {
    let from = after_space(text, 0);
    let to = before_space(text, text.len() as int);
    if from <= to {
        text.subrange(from, to)
    } else {
        Seq::empty()
    }
}

/// A text without the white space around it.
pub fn trim_text(text: &str) -> (inner: String)
    ensures
        inner@ == trimmed(text@),
{
    let chars: Vec<char> = chars_of(text);
    let mut from: usize = 0;
    while from < chars.len() && space_char(chars[from])
        invariant
            from <= chars.len(),
            chars@ == text@,
            after_space(text@, 0) == after_space(text@, from as int),
        decreases chars.len() - from,
    {
        from += 1;
    }
    let mut to: usize = chars.len();
    while to > 0 && space_char(chars[to - 1])
        invariant
            to <= chars.len(),
            chars@ == text@,
            before_space(text@, text@.len() as int) == before_space(text@, to as int),
        decreases to,
    {
        to -= 1;
    }
    if from <= to {
        text_of(&chars, from, to)
    } else {
        text_of(&chars, 0, 0)
    }
}

// ---------------------------------------------------------------------------
// Small letters
// ---------------------------------------------------------------------------

/// The small letter of an ASCII capital, and any other character as it is.
pub open spec fn small(c: char) -> char {
    if 'A' <= c <= 'Z' {
        (c as u8 + 32) as char
    } else {
        c
    }
}

/// A text with its ASCII capitals made small.
pub open spec fn lowered(text: Seq<char>) -> Seq<char> {
    text.map_values(|c: char| small(c))
}

/// The small letter of an ASCII capital, and any other character as it is.
pub fn small_char(c: char) -> (s: char)
    ensures
        s == small(c),
{
    if 'A' <= c && c <= 'Z' {
        (c as u8 + 32) as char
    } else {
        c
    }
}

/// A text with its ASCII capitals made small.
pub fn lower_text(text: &str) -> (small_text: String)
    ensures
        small_text@ == lowered(text@),
{
    let chars: Vec<char> = chars_of(text);
    let mut out: Vec<char> = Vec::new();
    let mut i: usize = 0;
    while i < chars.len()
        invariant
            i <= chars.len(),
            chars@ == text@,
            out@ == lowered(text@).take(i as int),
        decreases chars.len() - i,
    {
        out.push(small_char(chars[i]));
        i += 1;
        assert(out@ =~= lowered(text@).take(i as int));
    }
    let whole: String = text_of(&out, 0, out.len());
    assert(whole@ =~= lowered(text@));
    whole
}

} // verus!
