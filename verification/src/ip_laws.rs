//! Which texts are addresses.

use vstd::prelude::*;
use crate::{ip, text};

verus! {

/// A piece without the separator is one piece, and one behind a separator is one more.
proof fn lemma_pieces_push(front: Seq<char>, separator: char, piece: Seq<char>)
    requires
        forall|i: int| 0 <= i < piece.len() ==> #[trigger] piece[i] != separator,
    ensures
        ip::pieces(piece, separator) == seq![piece],
        ip::pieces(front + seq![separator] + piece, separator) == ip::pieces(front, separator).push(
            piece,
        ),
    decreases piece.len(),
{
    let whole = front + seq![separator] + piece;
    if piece.len() == 0 {
        assert(whole =~= front.push(separator));
        assert(whole.drop_last() =~= front);
        assert(piece =~= Seq::empty());
        assert(ip::pieces(piece, separator) =~= seq![piece]);
    } else {
        let shorter = piece.drop_last();
        assert forall|i: int| 0 <= i < shorter.len() implies #[trigger] shorter[i] != separator by {
            assert(piece[i] != separator);
        }
        lemma_pieces_push(front, separator, shorter);
        assert(piece[piece.len() - 1] != separator);
        assert(whole.drop_last() =~= front + seq![separator] + shorter);
        assert(shorter.push(piece.last()) =~= piece);
        assert(ip::pieces(whole, separator) =~= ip::pieces(front, separator).push(piece));
        assert(ip::pieces(piece, separator) =~= seq![piece]);
    }
}

/// The pieces of a text are the text, with the separator between them.
proof fn lemma_pieces_join(whole: Seq<char>, separator: char)
    ensures
        ip::pieces(whole, separator).len() > 0,
        text::joined(ip::pieces(whole, separator), seq![separator]) == whole,
    decreases whole.len(),
{
    let parts = ip::pieces(whole, separator);
    if whole.len() == 0 {
        assert(text::joined(parts, seq![separator]) =~= whole);
    } else {
        let rest = whole.drop_last();
        lemma_pieces_join(rest, separator);
        let before = ip::pieces(rest, separator);
        assert(rest.push(whole.last()) =~= whole);
        if whole.last() == separator {
            assert(parts.drop_last() =~= before);
            assert(text::joined(parts, seq![separator]) =~= rest + seq![separator] + Seq::<
                char,
            >::empty());
        } else {
            assert(parts.drop_last() =~= before.drop_last());
            if parts.len() == 1 {
                assert(text::joined(parts, seq![separator]) =~= before[0].push(whole.last()));
                assert(before.len() == 1);
            } else {
                let front = text::joined(before.drop_last(), seq![separator]) + seq![separator];
                assert(text::joined(before, seq![separator]) == front + before.last());
                assert(text::joined(parts, seq![separator]) =~= front + before.last().push(
                    whole.last(),
                ));
                assert(front + before.last().push(whole.last()) =~= (front + before.last()).push(
                    whole.last(),
                ));
            }
        }
    }
}

/// A number is spelled by its digits.
proof fn lemma_decimal_is_spelled(n: nat)
    ensures
        ip::spelled(text::decimal(n), 10) == Some(n as int),
    decreases n,
{
    reveal_with_fuel(ip::spelled, 2);
    let written = text::decimal(n);
    if n < 10 {
        assert(written.drop_last() =~= Seq::empty());
        assert(written.last() == text::digit_char(n));
    } else {
        lemma_decimal_is_spelled(n / 10);
        assert(written.drop_last() =~= text::decimal(n / 10));
        assert(written.last() == text::digit_char(n % 10));
        assert((n / 10) * 10 + n % 10 == n);
    }
}

/// An octet's number is written with as many digits as it has.
proof fn lemma_octet_is_read(n: nat)
    requires
        n <= 255,
    ensures
        ip::octet_value(text::decimal(n)) == Some(n as int),
        forall|i: int| 0 <= i < text::decimal(n).len() ==> #[trigger] text::decimal(n)[i] != '.',
{
    lemma_decimal_is_spelled(n);
    text::law_a_number_is_written_in_digits(n);
    reveal_with_fuel(text::decimal, 4);
    assert forall|i: int| 0 <= i < text::decimal(n).len() implies #[trigger] text::decimal(n)[i]
        != '.' by {
        assert('0' <= text::decimal(n)[i] <= '9');
    }
}

/// A text that is spelled, with no zero in front, is the number as it is written.
proof fn lemma_spelled_is_decimal(part: Seq<char>, value: int)
    requires
        ip::spelled(part, 10) == Some(value),
        part.len() > 0,
        part.len() == 1 || part[0] != '0',
    ensures
        value >= 0,
        part.len() > 1 ==> value >= 10,
        part == text::decimal(value as nat),
    decreases part.len(),
{
    reveal_with_fuel(ip::spelled, 2);
    let front = part.drop_last();
    let digit = ip::hex_digit_value(part.last())->0;
    assert(front.push(part.last()) =~= part);
    assert(part.last() as int == 48 + digit);
    if part.len() == 1 {
        assert(front =~= Seq::empty());
        assert(part =~= seq![text::digit_char(value as nat)]);
    } else {
        let rest = ip::spelled(front, 10)->0;
        assert(front[0] == part[0]);
        if front.len() == 1 {
            reveal_with_fuel(ip::spelled, 3);
            assert(front.drop_last() =~= Seq::empty());
            assert(front.last() == part[0]);
        }
        lemma_spelled_is_decimal(front, rest);
        if front.len() == 1 {
            assert(rest != 0);
        }
        assert(value == rest * 10 + digit);
        assert(value >= 10);
        assert((value as nat) / 10 == rest && (value as nat) % 10 == digit);
        assert(text::decimal(value as nat) == text::decimal(rest as nat).push(
            text::digit_char(digit as nat),
        ));
    }
}

/// An address of four octets, as it is written.
pub open spec fn dotted_quad(a: nat, b: nat, c: nat, d: nat) -> Seq<char> {
    text::decimal(a) + seq!['.'] + text::decimal(b) + seq!['.'] + text::decimal(c) + seq!['.']
        + text::decimal(d)
}

/// Four octets with points between them are an address, and a loopback one where the first is 127.
pub proof fn law_four_octets_are_an_address(a: nat, b: nat, c: nat, d: nat)
    requires
        a <= 255,
        b <= 255,
        c <= 255,
        d <= 255,
    ensures
        ip::dotted(dotted_quad(a, b, c, d)) == Some(seq![a as int, b as int, c as int, d as int]),
        ip::is_address(dotted_quad(a, b, c, d)),
        ip::is_loopback_address(dotted_quad(a, b, c, d)) <==> a == 127,
{
    lemma_octet_is_read(a);
    lemma_octet_is_read(b);
    lemma_octet_is_read(c);
    lemma_octet_is_read(d);
    let one = text::decimal(a);
    let two = one + seq!['.'] + text::decimal(b);
    let three = two + seq!['.'] + text::decimal(c);
    let four = three + seq!['.'] + text::decimal(d);
    lemma_pieces_push(Seq::empty(), '.', one);
    lemma_pieces_push(one, '.', text::decimal(b));
    lemma_pieces_push(two, '.', text::decimal(c));
    lemma_pieces_push(three, '.', text::decimal(d));
    assert(four =~= dotted_quad(a, b, c, d));
    let parts = ip::pieces(four, '.');
    assert(parts =~= seq![one, text::decimal(b), text::decimal(c), text::decimal(d)]);
    assert(ip::dotted(four)->0 =~= seq![a as int, b as int, c as int, d as int]);
}

/// What is read as four octets is four octets with points between them, each no more than 255 and
/// without a zero in front.
pub proof fn law_only_four_octets_are_read_as_such(whole: Seq<char>)
    ensures
        ip::dotted(whole) matches Some(octets) ==> {
            &&& octets.len() == 4
            &&& forall|i: int| 0 <= i < 4 ==> 0 <= #[trigger] octets[i] <= 255
            &&& whole == dotted_quad(
                octets[0] as nat,
                octets[1] as nat,
                octets[2] as nat,
                octets[3] as nat,
            )
        },
{
    if let Some(octets) = ip::dotted(whole) {
        let parts = ip::pieces(whole, '.');
        lemma_pieces_join(whole, '.');
        lemma_spelled_is_decimal(parts[0], octets[0]);
        lemma_spelled_is_decimal(parts[1], octets[1]);
        lemma_spelled_is_decimal(parts[2], octets[2]);
        lemma_spelled_is_decimal(parts[3], octets[3]);
        reveal_with_fuel(text::joined, 5);
        let three = parts.drop_last();
        let two = three.drop_last();
        let one = two.drop_last();
        assert(one =~= seq![parts[0]]);
        assert(text::joined(one, seq!['.']) == parts[0]);
        assert(text::joined(two, seq!['.']) == parts[0] + seq!['.'] + parts[1]);
        assert(text::joined(three, seq!['.']) == parts[0] + seq!['.'] + parts[1] + seq!['.']
            + parts[2]);
        assert(text::joined(parts, seq!['.']) == parts[0] + seq!['.'] + parts[1] + seq!['.'] + parts[2]
            + seq!['.'] + parts[3]);
    }
}

} // verus!
