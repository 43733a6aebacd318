//! Which texts stand for which addresses, and how addresses are written.

use vstd::prelude::*;
use crate::address::{
    address_of, address_text, first_gap, gap_at, group_of, groups_of, ipv4_of, ipv6_of, is_mapped,
    joined, lemma_group_fits, longest_run, octet_of, paired, side_of, zero_run, zeros, Address,
};
use crate::address_laws::{
    lemma_ipv4_has_no_colon, lemma_joined, lemma_longest_run_exists, reading_undoes_writing,
};
use crate::numeral::{
    all_digits, decimal_numerals_are_unique, digits_are_those_of_ascii, is_digit, number_of,
    numeral,
};
use crate::text::{
    lemma_split_nonempty, lemma_split_single, rejoined, split, splitting_loses_nothing,
};

verus! {

/// A text that is read as an IPv4 address is the one text that is written of it:
/// four decimal numerals without leading zeros, none above 255, with dots
/// between them. Each octet is the number of its field.
pub proof fn ipv4_texts_are_canonical(text: Seq<char>, octets: Seq<u8>)
    requires
        address_of(text) == Some(Address::V4(octets)),
    ensures
        octets.len() == 4,
        text == numeral(octets[0] as nat, 10) + seq!['.'] + numeral(octets[1] as nat, 10) + seq![
            '.',
        ] + numeral(octets[2] as nat, 10) + seq!['.'] + numeral(octets[3] as nat, 10),
        text == address_text(Address::V4(octets)),
        split(text, '.').len() == 4,
        forall|i: int|
            0 <= i < 4 ==> number_of(#[trigger] split(text, '.')[i], 10) == octets[i] as int,
{
    let fields = split(text, '.');
    assert forall|i: int| 0 <= i < 4 implies #[trigger] fields[i] == numeral(
        octets[i] as nat,
        10,
    ) && number_of(fields[i], 10) == octets[i] as int by {
        assert(octet_of(fields[i]) is Some);
        decimal_numerals_are_unique(fields[i]);
    }
    splitting_loses_nothing(text, '.');
    let three = fields.drop_last();
    let two = three.drop_last();
    assert(two.drop_last().len() == 1);
    assert(two.drop_last()[0] == fields[0]);
    assert(rejoined(two, '.') == fields[0] + seq!['.'] + fields[1]) by {
        assert(two.last() == fields[1]);
        reveal_with_fuel(rejoined, 2);
    }
    assert(rejoined(three, '.') == rejoined(two, '.') + seq!['.'] + fields[2]);
    assert(rejoined(fields, '.') == rejoined(three, '.') + seq!['.'] + fields[3]);
}

/// Four octets with dots between their numerals are read as the address.
pub proof fn ipv4_addresses_are_read(octets: Seq<u8>)
    requires
        octets.len() == 4,
    ensures
        address_of(
            numeral(octets[0] as nat, 10) + seq!['.'] + numeral(octets[1] as nat, 10) + seq!['.']
                + numeral(octets[2] as nat, 10) + seq!['.'] + numeral(octets[3] as nat, 10),
        ) == Some(Address::V4(octets)),
        address_text(Address::V4(octets)) == numeral(octets[0] as nat, 10) + seq!['.'] + numeral(
            octets[1] as nat,
            10,
        ) + seq!['.'] + numeral(octets[2] as nat, 10) + seq!['.'] + numeral(octets[3] as nat, 10),
{
    reading_undoes_writing(Address::V4(octets));
}

/// Texts of IPv6 addresses hold a colon, and those of IPv4 addresses none.
pub proof fn colons_tell_the_kinds_apart(text: Seq<char>)
    ensures
        address_of(text) matches Some(address) ==> (address is V6 <==> text.contains(':')),
{
    lemma_ipv4_has_no_colon(text);
    if !text.contains(':') && ipv4_of(text) is None && ipv6_of(text) is Some {
        assert forall|i: int| !first_gap(text, i) by {
            if gap_at(text, i) {
                assert(text.contains(text[i]));
            }
        }
        lemma_split_single(text, ':');
        let fields = split(text, ':');
        assert(fields.last() == text);
    }
}

/// Whether a character is a hexadecimal digit of ASCII.
pub open spec fn is_hex(c: char) -> bool {
    ||| 0x30 <= c as int <= 0x39
    ||| 0x61 <= c as int <= 0x66
    ||| 0x41 <= c as int <= 0x46
}

/// Whether a field spells a group: one to four hexadecimal digits of its number.
pub open spec fn spells_group(field: Seq<char>, group: u16) -> bool {
    &&& 1 <= field.len() <= 4
    &&& forall|i: int| 0 <= i < field.len() ==> is_hex(#[trigger] field[i])
    &&& number_of(field, 16) == group
}

/// Whether fields spell groups, one by one.
pub open spec fn spells_groups(fields: Seq<Seq<char>>, groups: Seq<u16>) -> bool {
    &&& fields.len() == groups.len()
    &&& forall|i: int| 0 <= i < fields.len() ==> spells_group(#[trigger] fields[i], groups[i])
}

/// Whether a text spells groups with colons between them and an IPv4 address in
/// place of the last two.
pub open spec fn spells_with_ipv4(text: Seq<char>, groups: Seq<u16>, octets: Seq<u8>) -> bool {
    let fields = split(text, ':');
    let n = groups.len();
    &&& n >= 2
    &&& spells_groups(fields.drop_last(), groups.take(n - 2))
    &&& address_of(fields.last()) == Some(Address::V4(octets))
    &&& groups[n - 2] == octets[0] * 256 + octets[1]
    &&& groups[n - 1] == octets[2] * 256 + octets[3]
}

/// Whether a text spells groups: nothing for none, or fields with colons between
/// them, of which the last may be an IPv4 address where that is allowed.
pub open spec fn spells(text: Seq<char>, groups: Seq<u16>, with_ipv4: bool) -> bool {
    ||| text.len() == 0 && groups.len() == 0
    ||| text.len() > 0 && spells_groups(split(text, ':'), groups)
    ||| text.len() > 0 && with_ipv4 && exists|octets: Seq<u8>| #[trigger]
        spells_with_ipv4(text, groups, octets)
}

/// A field that stands for a group spells it.
proof fn lemma_group_spelt(field: Seq<char>, group: u16)
    ensures
        group_of(field) == Some(group) <==> spells_group(field, group),
{
    assert forall|c: char| #[trigger] is_digit(c, 16) <==> is_hex(c) by {
        digits_are_those_of_ascii(c, 16);
    }
    if 1 <= field.len() <= 4 {
        assert(all_digits(field, 16) <==> forall|i: int|
            0 <= i < field.len() ==> is_hex(#[trigger] field[i])) by {
            if all_digits(field, 16) {
                assert forall|i: int| 0 <= i < field.len() implies is_hex(#[trigger] field[i]) by {
                    assert(is_digit(field[i], 16));
                }
            } else {
                let i = choose|i: int| 0 <= i < field.len() && !is_digit(#[trigger] field[i], 16);
                assert(!is_hex(field[i]));
            }
        }
        if all_digits(field, 16) {
            lemma_group_fits(field);
        }
    }
}

/// Fields that stand for groups spell them.
proof fn lemma_groups_spelt(fields: Seq<Seq<char>>, groups: Seq<u16>)
    ensures
        groups_of(fields) == Some(groups) <==> spells_groups(fields, groups),
{
    if groups_of(fields) == Some(groups) {
        assert forall|i: int| 0 <= i < fields.len() implies spells_group(
            #[trigger] fields[i],
            groups[i],
        ) by {
            assert(group_of(fields[i]) is Some);
            lemma_group_spelt(fields[i], groups[i]);
        }
    }
    if spells_groups(fields, groups) {
        assert forall|i: int| 0 <= i < fields.len() implies group_of(#[trigger] fields[i])
            == Some(groups[i]) by {
            lemma_group_spelt(fields[i], groups[i]);
        }
        assert(fields.map_values(|field: Seq<char>| group_of(field)->0) =~= groups);
    }
}

/// No text of an IPv4 address spells a group.
proof fn lemma_ipv4_spells_no_group(field: Seq<char>, group: u16)
    requires
        ipv4_of(field) is Some,
    ensures
        !spells_group(field, group),
{
    if !field.contains('.') {
        lemma_split_single(field, '.');
    } else {
        let i = choose|i: int| 0 <= i < field.len() && field[i] == '.';
        assert(!is_hex(field[i]));
    }
}

/// What one side of a gap, or a whole address, is read as.
proof fn lemma_side_spelt(text: Seq<char>, groups: Seq<u16>, with_ipv4: bool)
    ensures
        side_of(text, with_ipv4) == Some(groups) <==> spells(text, groups, with_ipv4),
{
    let fields = split(text, ':');
    lemma_split_nonempty(text, ':');
    if text.len() == 0 {
        assert(groups.len() == 0 ==> groups == Seq::<u16>::empty());
    } else if with_ipv4 && ipv4_of(fields.last()) is Some {
        let octets = ipv4_of(fields.last())->0;
        let n = groups.len();
        if spells_groups(fields, groups) {
            assert(spells_group(fields[fields.len() - 1], groups[fields.len() - 1]));
            lemma_ipv4_spells_no_group(fields.last(), groups[fields.len() - 1]);
        }
        if side_of(text, with_ipv4) == Some(groups) {
            let front = groups_of(fields.drop_last())->0;
            assert(groups == front + paired(octets));
            assert(groups.take(n - 2) == front);
            lemma_groups_spelt(fields.drop_last(), front);
            assert(groups[n - 2] == paired(octets)[0]);
            assert(groups[n - 1] == paired(octets)[1]);
            assert(spells_with_ipv4(text, groups, octets));
        }
        if spells(text, groups, with_ipv4) {
            let found = choose|octets: Seq<u8>| #[trigger] spells_with_ipv4(text, groups, octets);
            assert(found == octets);
            lemma_groups_spelt(fields.drop_last(), groups.take(n - 2));
            assert(groups =~= groups.take(n - 2) + paired(octets));
        }
    } else {
        lemma_groups_spelt(fields, groups);
        if exists|octets: Seq<u8>| #[trigger] spells_with_ipv4(text, groups, octets) {
            let found = choose|octets: Seq<u8>| #[trigger] spells_with_ipv4(text, groups, octets);
            lemma_ipv4_has_no_colon(fields.last());
        }
    }
}

/// A text without two colons next to each other is read as an IPv6 address just
/// where it spells its eight groups.
pub proof fn full_ipv6_texts_spell_every_group(text: Seq<char>, groups: Seq<u16>)
    requires
        forall|i: int|
            0 <= i < text.len() - 1 ==> !((#[trigger] text[i]) == ':' && text[i + 1] == ':'),
    ensures
        address_of(text) == Some(Address::V6(groups)) <==> groups.len() == 8 && spells(
            text,
            groups,
            true,
        ),
{
    assert forall|i: int| !gap_at(text, i) by {}
    assert(forall|i: int| first_gap(text, i) ==> gap_at(text, i));
    lemma_side_spelt(text, groups, true);
    if groups.len() == 8 && spells(text, groups, true) && ipv4_of(text) is Some {
        lemma_ipv4_has_no_colon(text);
        lemma_split_single(text, ':');
    }
}

/// Whether groups are what two spelt sides with zeros between them stand for,
/// with a number of groups before the zeros and a number after them.
pub open spec fn spells_around(
    head: Seq<char>,
    tail: Seq<char>,
    groups: Seq<u16>,
    before: int,
    after: int,
) -> bool {
    &&& 0 <= before
    &&& 0 <= after
    &&& before + after <= 7
    &&& groups.len() == 8
    &&& spells(head, groups.take(before), false)
    &&& spells(tail, groups.skip(8 - after), true)
    &&& forall|i: int| before <= i < 8 - after ==> #[trigger] groups[i] == 0
}

/// A text with two colons next to each other is read as an IPv6 address just
/// where the groups spelt before and after the first two such colons leave out
/// at least one, and those left out are zero.
pub proof fn short_ipv6_texts_leave_out_zero_groups(
    head: Seq<char>,
    tail: Seq<char>,
    groups: Seq<u16>,
)
    requires
        forall|i: int|
            0 <= i < head.len() - 1 ==> !((#[trigger] head[i]) == ':' && head[i + 1] == ':'),
        head.len() > 0 ==> head.last() != ':',
    ensures
        address_of(head + seq![':', ':'] + tail) == Some(Address::V6(groups)) <==> exists|
            before: int,
            after: int,
        | #[trigger] spells_around(head, tail, groups, before, after),
{
    let text = head + seq![':', ':'] + tail;
    let gap = head.len() as int;
    assert(gap_at(text, gap));
    assert forall|j: int| 0 <= j < gap implies !#[trigger] gap_at(text, j) by {
        if gap_at(text, j) {
            assert(head[j] == text[j]);
            if j + 1 < gap {
                assert(head[j + 1] == text[j + 1]);
            }
        }
    }
    assert(first_gap(text, gap));
    let found = choose|i: int| first_gap(text, i);
    assert(first_gap(text, found));
    assert(gap_at(text, found));
    assert(found == gap);
    assert(text.take(gap) == head);
    assert(text.skip(gap + 2) == tail);
    assert(text.contains(':')) by {
        assert(text[gap] == ':');
    }
    lemma_ipv4_has_no_colon(text);
    if address_of(text) == Some(Address::V6(groups)) {
        let left = side_of(head, false)->0;
        let right = side_of(tail, true)->0;
        assert(groups == left + zeros(8 - left.len() - right.len()) + right);
        assert(groups.take(left.len() as int) == left);
        assert(groups.skip(8 - right.len()) == right);
        lemma_side_spelt(head, left, false);
        lemma_side_spelt(tail, right, true);
        assert(spells_around(head, tail, groups, left.len() as int, right.len() as int));
    }
    if exists|before: int, after: int| #[trigger] spells_around(head, tail, groups, before, after) {
        let (before, after) = choose|before: int, after: int| #[trigger]
            spells_around(head, tail, groups, before, after);
        lemma_side_spelt(head, groups.take(before), false);
        lemma_side_spelt(tail, groups.skip(8 - after), true);
        assert(groups =~= groups.take(before) + zeros(8 - before - after) + groups.skip(8 - after));
    }
}

/// Whether a text holds groups as lower-case hexadecimal numerals without
/// leading zeros, with colons between them; nothing for none.
pub open spec fn writes(text: Seq<char>, groups: Seq<u16>) -> bool {
    if groups.len() == 0 {
        text.len() == 0
    } else {
        &&& split(text, ':').len() == groups.len()
        &&& forall|i: int|
            0 <= i < groups.len() ==> (#[trigger] split(text, ':')[i]) == numeral(
                groups[i] as nat,
                16,
            )
    }
}

/// Whether a number of groups from a place on are all zero.
pub open spec fn all_zero(groups: Seq<u16>, start: int, len: int) -> bool {
    &&& 0 <= start
    &&& 0 <= len
    &&& start + len <= groups.len()
    &&& forall|i: int| start <= i < start + len ==> #[trigger] groups[i] == 0
}

/// Whether a text leaves out a run of zero groups: at least two, no fewer than
/// any other run has, and the first of as many.
pub open spec fn leaves_out(
    text: Seq<char>,
    groups: Seq<u16>,
    start: int,
    len: int,
    head: Seq<char>,
    tail: Seq<char>,
) -> bool {
    &&& len >= 2
    &&& all_zero(groups, start, len)
    &&& forall|s: int, n: int| #[trigger]
        all_zero(groups, s, n) ==> n <= len && (n == len ==> start <= s)
    &&& text == head + seq![':', ':'] + tail
    &&& writes(head, groups.take(start))
    &&& writes(tail, groups.skip(start + len))
}

/// A mapped IPv4 address is written with dots after `::ffff:`.
pub proof fn mapped_addresses_are_written_with_dots(groups: Seq<u16>)
    requires
        groups.len() == 8,
        forall|i: int| 0 <= i < 5 ==> #[trigger] groups[i] == 0,
        groups[5] == 0xffff,
    ensures
        address_text(Address::V6(groups)) == "::ffff:"@ + address_text(
            Address::V4(
                seq![
                    (groups[6] / 256) as u8,
                    (groups[6] % 256) as u8,
                    (groups[7] / 256) as u8,
                    (groups[7] % 256) as u8,
                ],
            ),
        ),
{
    assert(groups.take(5) =~= zeros(5));
}

/// Every other IPv6 address is written group by group, but for the first longest
/// run of two or more zero groups, in whose place two colons stand.
pub proof fn ipv6_addresses_are_written_in_short(groups: Seq<u16>)
    requires
        groups.len() == 8,
        groups[5] != 0xffff || exists|i: int| 0 <= i < 5 && #[trigger] groups[i] != 0,
    ensures
        ({
            let text = address_text(Address::V6(groups));
            if exists|i: int| 0 <= i < 7 && (#[trigger] groups[i]) == 0 && groups[i + 1] == 0 {
                exists|start: int, len: int, head: Seq<char>, tail: Seq<char>| #[trigger]
                    leaves_out(text, groups, start, len, head, tail)
            } else {
                writes(text, groups)
            }
        }),
{
    let text = address_text(Address::V6(groups));
    assert(!is_mapped(groups)) by {
        if is_mapped(groups) {
            assert forall|i: int| 0 <= i < 5 implies groups[i] == 0 by {
                assert(groups.take(5)[i] == zeros(5)[i]);
            }
        }
    }
    let (start, len) = choose|start: int, len: int| longest_run(groups, start, len);
    lemma_longest_run_exists(groups);
    assert(longest_run(groups, start, len));
    assert forall|s: int, n: int| #[trigger] all_zero(groups, s, n) implies zero_run(
        groups,
        s,
        n,
    ) by {}
    assert(zero_run(groups, start, len));
    if exists|i: int| 0 <= i < 7 && (#[trigger] groups[i]) == 0 && groups[i + 1] == 0 {
        let i = choose|i: int| 0 <= i < 7 && (#[trigger] groups[i]) == 0 && groups[i + 1] == 0;
        assert(zero_run(groups, i, 2));
    }
    if len > 1 {
        let head = joined(groups.take(start));
        let tail = joined(groups.skip(start + len));
        if start > 0 {
            lemma_joined(groups.take(start));
        }
        if start + len < 8 {
            lemma_joined(groups.skip(start + len));
        }
        assert(groups[start] == 0 && groups[start + 1] == 0);
        assert(leaves_out(text, groups, start, len, head, tail));
    } else {
        lemma_joined(groups);
    }
}

} // verus!
