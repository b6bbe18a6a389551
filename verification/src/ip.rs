//! Internet addresses, as they are written.

use vstd::prelude::*;
use crate::text;
use crate::text::{chars_of, find_part};

verus! {

/// A text cut at a separator: always one piece more than there are separators.
pub open spec fn pieces(text: Seq<char>, separator: char) -> Seq<Seq<char>>
    decreases text.len(),
{
    if text.len() == 0 {
        seq![Seq::empty()]
    } else {
        let before = pieces(text.drop_last(), separator);
        if text.last() == separator {
            before.push(Seq::empty())
        } else {
            before.update(before.len() - 1, before.last().push(text.last()))
        }
    }
}

/// There is always a piece.
pub proof fn lemma_pieces_not_empty(text: Seq<char>, separator: char)
    ensures
        pieces(text, separator).len() >= 1,
    decreases text.len(),
{
    if text.len() > 0 {
        lemma_pieces_not_empty(text.drop_last(), separator);
    }
}

/// Runs of characters, as values of the model.
pub open spec fn runs(list: Seq<Vec<char>>) -> Seq<Seq<char>> {
    list.map_values(|run: Vec<char>| run@)
}

/// Cuts a run of characters at a separator.
pub fn cut(chars: &Vec<char>, from: usize, to: usize, separator: char) -> (cut: Vec<Vec<char>>)
    requires
        from <= to <= chars@.len(),
    ensures
        runs(cut@) == pieces(chars@.subrange(from as int, to as int), separator),
{
    let ghost text = chars@.subrange(from as int, to as int);
    let mut done: Vec<Vec<char>> = Vec::new();
    let mut current: Vec<char> = Vec::new();
    let mut i: usize = from;
    proof {
        assert(runs(done@).push(current@) =~= pieces(text.take(0), separator));
    }
    while i < to
        invariant
            from <= i <= to <= chars@.len(),
            text == chars@.subrange(from as int, to as int),
            runs(done@).push(current@) == pieces(text.take(i - from), separator),
        decreases to - i,
    {
        let c: char = chars[i];
        let ghost before = runs(done@).push(current@);
        let ghost so_far = done@;
        let ghost piece = current@;
        proof {
            assert(text.take(i - from + 1).drop_last() =~= text.take(i - from));
            assert(text.take(i - from + 1).last() == c);
        }
        if c == separator {
            let mut finished: Vec<char> = Vec::new();
            std::mem::swap(&mut finished, &mut current);
            done.push(finished);
            assert(runs(done@) =~= runs(so_far).push(piece));
            assert(current@ =~= Seq::empty());
        } else {
            current.push(c);
            assert(runs(done@).push(current@) =~= before.update(
                before.len() - 1,
                before.last().push(c),
            ));
        }
        i += 1;
    }
    let ghost so_far = done@;
    let ghost piece = current@;
    done.push(current);
    proof {
        assert(text.take(to - from) =~= text);
        assert(runs(done@) =~= runs(so_far).push(piece));
    }
    done
}

/// The value of a hexadecimal digit, if a character is one.
pub open spec fn hex_digit_value(c: char) -> Option<int> {
    if 48 <= text::code_of(c) <= 57 {
        Some(text::code_of(c) - 48)
    } else if 97 <= text::code_of(c) <= 102 {
        Some(text::code_of(c) - 87)
    } else if 65 <= text::code_of(c) <= 70 {
        Some(text::code_of(c) - 55)
    } else {
        None
    }
}

/// The value of a hexadecimal digit, if a character is one.
fn hex_digit(c: char) -> (digit: Option<u32>)
    ensures
        match digit {
            Some(d) => hex_digit_value(c) == Some(d as int) && d < 16,
            None => hex_digit_value(c) is None,
        },
{
    let code: u32 = c as u32;
    if 48 <= code && code <= 57 {
        Some((code - 48) as u32)
    } else if 97 <= code && code <= 102 {
        Some((code - 87) as u32)
    } else if 65 <= code && code <= 70 {
        Some((code - 55) as u32)
    } else {
        None
    }
}

/// The number that a run of digits of some base spells, if it is one.
pub open spec fn spelled(text: Seq<char>, base: int) -> Option<int>
    decreases text.len(),
{
    if text.len() == 0 {
        Some(0)
    } else {
        match (spelled(text.drop_last(), base), hex_digit_value(text.last())) {
            (Some(front), Some(digit)) if digit < base => Some(front * base + digit),
            _ => None,
        }
    }
}

/// The number of one part of a dotted address: one to three decimal digits, no zero in front of
/// others, no more than 255.
pub open spec fn octet_value(text: Seq<char>) -> Option<int> {
    match spelled(text, 10) {
        Some(value) if 1 <= text.len() <= 3 && (text.len() == 1 || text[0] != '0') && value
            <= 255 => Some(value),
        _ => None,
    }
}

/// The number of one group of a colon address: one to four hexadecimal digits.
pub open spec fn group_value(text: Seq<char>) -> Option<int> {
    if 1 <= text.len() <= 4 {
        spelled(text, 16)
    } else {
        None
    }
}

/// The number that up to four digits spell.
fn spell(text: &Vec<char>, base: u32) -> (value: Option<u32>)
    requires
        text@.len() <= 4,
        base == 10 || base == 16,
    ensures
        match value {
            Some(v) => spelled(text@, base as int) == Some(v as int) && v < 65536,
            None => spelled(text@, base as int) is None,
        },
{
    let mut value: u32 = 0;
    let mut i: usize = 0;
    while i < text.len()
        invariant
            i <= text.len() <= 4,
            base == 10 || base == 16,
            spelled(text@.take(i as int), base as int) == Some(value as int),
            i == 0 ==> value < 1,
            i == 1 ==> value < 16,
            i == 2 ==> value < 256,
            i == 3 ==> value < 4096,
            i == 4 ==> value < 65536,
        decreases text.len() - i,
    {
        proof {
            assert(text@.take(i + 1).drop_last() =~= text@.take(i as int));
            assert(text@.take(i + 1).last() == text@[i as int]);
        }
        match hex_digit(text[i]) {
            Some(digit) if digit < base => {
                value = value * base + digit;
            },
            _ => {
                proof {
                    lemma_spelled_needs_digits(text@, base as int, i + 1);
                }
                return None;
            },
        }
        i += 1;
    }
    assert(text@.take(text.len() as int) =~= text@);
    Some(value)
}

/// What does not spell a number does not spell one with more behind it.
proof fn lemma_spelled_needs_digits(text: Seq<char>, base: int, n: int)
    requires
        0 <= n <= text.len(),
        spelled(text.take(n), base) is None,
    ensures
        spelled(text, base) is None,
    decreases text.len() - n,
{
    if n < text.len() {
        assert(text.take(n + 1).drop_last() =~= text.take(n));
        lemma_spelled_needs_digits(text, base, n + 1);
    } else {
        assert(text.take(n) =~= text);
    }
}

/// The four numbers of a dotted address.
pub open spec fn dotted(text: Seq<char>) -> Option<Seq<int>> {
    let parts = pieces(text, '.');
    if parts.len() == 4 && octet_value(parts[0]) is Some && octet_value(parts[1]) is Some
        && octet_value(parts[2]) is Some && octet_value(parts[3]) is Some {
        Some(
            seq![
                octet_value(parts[0])->0,
                octet_value(parts[1])->0,
                octet_value(parts[2])->0,
                octet_value(parts[3])->0,
            ],
        )
    } else {
        None
    }
}

/// The number of one part of a dotted address.
fn read_octet(text: &Vec<char>) -> (value: Option<u32>)
    ensures
        match value {
            Some(v) => octet_value(text@) == Some(v as int) && v <= 255,
            None => octet_value(text@) is None,
        },
{
    if text.len() == 0 || text.len() > 3 {
        return None;
    }
    if text.len() > 1 && text[0] == '0' {
        return None;
    }
    match spell(text, 10) {
        Some(value) => if value <= 255 {
            Some(value)
        } else {
            None
        },
        None => None,
    }
}

/// Numbers, as values of the model.
pub open spec fn numbers(list: Seq<u32>) -> Seq<int> {
    list.map_values(|n: u32| n as int)
}

/// Reads a dotted address out of a run of characters.
fn read_dotted(chars: &Vec<char>, from: usize, to: usize) -> (octets: Option<Vec<u32>>)
    requires
        from <= to <= chars@.len(),
    ensures
        match octets {
            Some(list) => dotted(chars@.subrange(from as int, to as int)) == Some(numbers(list@))
                && list@.len() == 4 && forall|i: int| 0 <= i < 4 ==> #[trigger] list@[i] <= 255,
            None => dotted(chars@.subrange(from as int, to as int)) is None,
        },
{
    let parts: Vec<Vec<char>> = cut(chars, from, to, '.');
    let ghost shape = pieces(chars@.subrange(from as int, to as int), '.');
    assert(shape.len() == parts@.len());
    if parts.len() != 4 {
        return None;
    }
    assert(shape[0] == parts@[0]@);
    assert(shape[1] == parts@[1]@);
    assert(shape[2] == parts@[2]@);
    assert(shape[3] == parts@[3]@);
    match (
        read_octet(&parts[0]),
        read_octet(&parts[1]),
        read_octet(&parts[2]),
        read_octet(&parts[3]),
    ) {
        (Some(a), Some(b), Some(c), Some(d)) => {
            let list: Vec<u32> = vec![a, b, c, d];
            assert(numbers(list@) =~= seq![a as int, b as int, c as int, d as int]);
            Some(list)
        },
        _ => None,
    }
}

/// The groups of one side of a colon address: groups with colons between them, the last of which
/// may be a dotted address standing for two.
pub open spec fn side_groups(text: Seq<char>, may_end_dotted: bool) -> Option<Seq<int>> {
    if text.len() == 0 {
        Some(Seq::empty())
    } else {
        let parts = pieces(text, ':');
        let front = parts.drop_last();
        if !(forall|i: int| 0 <= i < front.len() ==> group_value(#[trigger] front[i]) is Some) {
            None
        } else {
            let values = front.map_values(|part: Seq<char>| group_value(part)->0);
            match group_value(parts.last()) {
                Some(last) => Some(values.push(last)),
                None => match dotted(parts.last()) {
                    Some(octets) if may_end_dotted => Some(
                        values.push(octets[0] * 256 + octets[1]).push(octets[2] * 256 + octets[3]),
                    ),
                    _ => None,
                },
            }
        }
    }
}

/// The number of one group of a colon address.
fn read_group(text: &Vec<char>) -> (value: Option<u32>)
    ensures
        match value {
            Some(v) => group_value(text@) == Some(v as int),
            None => group_value(text@) is None,
        },
{
    if text.len() == 0 || text.len() > 4 {
        return None;
    }
    spell(text, 16)
}

/// Reads the groups of one side of a colon address.
fn read_side(chars: &Vec<char>, from: usize, to: usize, may_end_dotted: bool) -> (groups: Option<
    Vec<u32>,
>)
    requires
        from <= to <= chars@.len(),
    ensures
        match groups {
            Some(list) => side_groups(chars@.subrange(from as int, to as int), may_end_dotted)
                == Some(numbers(list@)),
            None => side_groups(chars@.subrange(from as int, to as int), may_end_dotted) is None,
        },
{
    let ghost text = chars@.subrange(from as int, to as int);
    if from == to {
        assert(text.len() == 0);
        let none: Vec<u32> = Vec::new();
        assert(numbers(none@) =~= Seq::empty());
        return Some(none);
    }
    let parts: Vec<Vec<char>> = cut(chars, from, to, ':');
    let ghost shape = pieces(text, ':');
    let ghost front = shape.drop_last();
    proof {
        lemma_pieces_not_empty(text, ':');
        assert(shape.len() == parts@.len());
    }
    let mut groups: Vec<u32> = Vec::new();
    let mut i: usize = 0;
    while i < parts.len() - 1
        invariant
            parts.len() >= 1,
            i <= parts.len() - 1,
            from < to <= chars@.len(),
            text == chars@.subrange(from as int, to as int),
            shape == pieces(text, ':'),
            shape == runs(parts@),
            front == shape.drop_last(),
            groups@.len() == i,
            forall|k: int|
                0 <= k < i ==> group_value(#[trigger] front[k]) == Some(groups@[k] as int),
        decreases parts.len() - i,
    {
        assert(front[i as int] == parts@[i as int]@);
        match read_group(&parts[i]) {
            Some(value) => groups.push(value),
            None => {
                return None;
            },
        }
        i += 1;
    }
    let ghost values = front.map_values(|part: Seq<char>| group_value(part)->0);
    assert(numbers(groups@) =~= values);
    let last: &Vec<char> = &parts[parts.len() - 1];
    assert(shape.last() == last@);
    let ghost before = groups@;
    match read_group(last) {
        Some(value) => {
            groups.push(value);
            assert(numbers(groups@) =~= values.push(value as int));
            Some(groups)
        },
        None => {
            if !may_end_dotted {
                return None;
            }
            assert(last@.subrange(0, last@.len() as int) =~= last@);
            match read_dotted(last, 0, last.len()) {
                Some(octets) => {
                    assert(numbers(octets@)[0] == octets@[0]);
                    assert(numbers(octets@)[1] == octets@[1]);
                    assert(numbers(octets@)[2] == octets@[2]);
                    assert(numbers(octets@)[3] == octets@[3]);
                    groups.push(octets[0] * 256 + octets[1]);
                    groups.push(octets[2] * 256 + octets[3]);
                    assert(numbers(groups@) =~= values.push(octets@[0] * 256 + octets@[1]).push(
                        octets@[2] * 256 + octets@[3],
                    ));
                    Some(groups)
                },
                None => None,
            }
        },
    }
}

/// The eight groups of a colon address: all of them written, or two colons standing for one or
/// more groups of zero.
pub open spec fn colon_groups(text: Seq<char>) -> Option<Seq<int>> {
    match text::place_of(text, "::"@) {
        None => match side_groups(text, true) {
            Some(groups) if groups.len() == 8 => Some(groups),
            _ => None,
        },
        Some(place) => match (
            side_groups(text.take(place), false),
            side_groups(text.skip(place + 2), true),
        ) {
            (Some(front), Some(back)) if front.len() + back.len() <= 7 => Some(
                front + Seq::new((8 - front.len() - back.len()) as nat, |i: int| 0int) + back,
            ),
            _ => None,
        },
    }
}

/// Whether a text is written as an internet address.
pub open spec fn is_address(text: Seq<char>) -> bool {
    dotted(text) is Some || colon_groups(text) is Some
}

/// Whether a text is written as an address that never leaves the machine.
pub open spec fn is_loopback_address(text: Seq<char>) -> bool {
    match dotted(text) {
        Some(octets) => octets[0] == 127,
        None => colon_groups(text) == Some(seq![0int, 0, 0, 0, 0, 0, 0, 1]),
    }
}

/// Reads a colon address.
fn read_colon(chars: &Vec<char>) -> (groups: Option<Vec<u32>>)
    ensures
        match groups {
            Some(list) => colon_groups(chars@) == Some(numbers(list@)),
            None => colon_groups(chars@) is None,
        },
{
    let mark: Vec<char> = chars_of("::");
    proof {
        reveal_strlit("::");
        assert(mark@.len() == 2);
    }
    match find_part(chars, &mark) {
        None => {
            assert(chars@.subrange(0, chars@.len() as int) =~= chars@);
            match read_side(chars, 0, chars.len(), true) {
                Some(groups) => if groups.len() == 8 {
                    Some(groups)
                } else {
                    None
                },
                None => None,
            }
        },
        Some(place) => {
            let end: usize = chars.len();
            assert(chars@.subrange(0, place as int) =~= chars@.take(place as int));
            assert(chars@.subrange(place + 2, chars@.len() as int) =~= chars@.skip(place + 2));
            match (read_side(chars, 0, place, false), read_side(chars, place + 2, end, true)) {
                (Some(front), Some(back)) => {
                    if front.len() > 7 || back.len() > 7 - front.len() {
                        return None;
                    }
                    let ghost head = numbers(front@);
                    let ghost tail = numbers(back@);
                    let mut groups: Vec<u32> = front;
                    let missing: usize = 8 - groups.len() - back.len();
                    let ghost zeros = Seq::new(missing as nat, |i: int| 0int);
                    let mut i: usize = 0;
                    while i < missing
                        invariant
                            i <= missing,
                            zeros == Seq::new(missing as nat, |i: int| 0int),
                            numbers(groups@) == head + zeros.take(i as int),
                        decreases missing - i,
                    {
                        let ghost before = groups@;
                        groups.push(0);
                        i += 1;
                        assert(numbers(groups@) =~= numbers(before).push(0));
                        assert(head + zeros.take(i as int) =~= (head + zeros.take(i - 1)).push(0));
                    }
                    assert(zeros.take(missing as int) =~= zeros);
                    let ghost before = groups@;
                    let mut back: Vec<u32> = back;
                    groups.append(&mut back);
                    assert(numbers(groups@) =~= head + zeros + tail);
                    Some(groups)
                },
                _ => None,
            }
        },
    }
}

/// Whether a text is written as an internet address.
pub fn reads_as_address(text: &str) -> (address: bool)
    ensures
        address == is_address(text@),
{
    let chars: Vec<char> = chars_of(text);
    assert(chars@.subrange(0, chars@.len() as int) =~= chars@);
    read_dotted(&chars, 0, chars.len()).is_some() || read_colon(&chars).is_some()
}

/// Whether a text is written as an address that never leaves the machine.
pub fn reads_as_loopback(text: &str) -> (loopback: bool)
    ensures
        loopback == is_loopback_address(text@),
{
    let chars: Vec<char> = chars_of(text);
    assert(chars@.subrange(0, chars@.len() as int) =~= chars@);
    match read_dotted(&chars, 0, chars.len()) {
        Some(octets) => {
            assert(numbers(octets@)[0] == octets@[0]);
            octets[0] == 127
        },
        None => match read_colon(&chars) {
            Some(groups) => {
                let ghost wanted = seq![0int, 0, 0, 0, 0, 0, 0, 1];
                if groups.len() != 8 {
                    assert(numbers(groups@).len() != wanted.len());
                    return false;
                }
                let mut i: usize = 0;
                while i < 8
                    invariant
                        i <= 8,
                        groups.len() == 8,
                        dotted(text@) is None,
                        colon_groups(text@) == Some(numbers(groups@)),
                        wanted == seq![0int, 0, 0, 0, 0, 0, 0, 1],
                        forall|k: int| 0 <= k < i ==> groups@[k] == #[trigger] wanted[k],
                    decreases 8 - i,
                {
                    let expected: u32 = if i == 7 {
                        1
                    } else {
                        0
                    };
                    if groups[i] != expected {
                        assert(numbers(groups@)[i as int] != wanted[i as int]);
                        return false;
                    }
                    i += 1;
                }
                assert(numbers(groups@) =~= wanted);
                true
            },
            None => false,
        },
    }
}

} // verus!
