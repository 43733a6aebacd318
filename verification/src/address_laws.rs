//! What holds of addresses and their texts.

use vstd::prelude::*;
use crate::address::{
    address_of, address_text, first_gap, gap_at, group_of, groups_of, ipv4_of, ipv4_text, ipv6_around,
    ipv6_of, ipv6_text, is_mapped, joined, longest_run, mapped_octets, octet_of, paired, side_of,
    zero_run, zeros, Address,
};
use crate::numeral::{
    digit_value, is_digit, lemma_numeral, lemma_numeral_len, number_of, numeral,
};
use crate::text::{
    is_blank, is_white_space, lemma_split_join, lemma_split_nonempty, lemma_split_single, split,
};

verus! {

/// Whether an address has as many numbers as its kind calls for.
pub open spec fn complete(address: Address) -> bool {
    match address {
        Address::V4(octets) => octets.len() == 4,
        Address::V6(groups) => groups.len() == 8,
    }
}

/// The canonical spelling of an address text.
pub open spec fn normalized(text: Seq<char>) -> Option<Seq<char>> {
    match address_of(text) {
        Some(address) => Some(address_text(address)),
        None => None,
    }
}

/// Reading the canonical text of an address gives back the address.
pub proof fn reading_undoes_writing(address: Address)
    requires
        complete(address),
    ensures
        address_of(address_text(address)) == Some(address),
{
    match address {
        Address::V4(octets) => {
            lemma_ipv4(octets);
        },
        Address::V6(groups) => {
            lemma_ipv6(groups);
            lemma_ipv6_has_colon(groups);
            lemma_ipv4_has_no_colon(ipv6_text(groups));
        },
    }
}

/// A text stands for an address with as many numbers as its kind calls for.
pub proof fn reading_gives_complete_addresses(text: Seq<char>)
    ensures
        address_of(text) matches Some(address) ==> complete(address),
{
}

/// Normalizing a text twice gives what normalizing it once gives.
pub proof fn normalizing_is_idempotent(text: Seq<char>)
    ensures
        normalized(text) matches Some(canonical) ==> normalized(canonical) == Some(canonical),
{
    if let Some(address) = address_of(text) {
        reading_gives_complete_addresses(text);
        reading_undoes_writing(address);
    }
}

/// Two texts have the same canonical spelling just where they stand for the
/// same address.
pub proof fn canonical_texts_tell_addresses_apart(left: Seq<char>, right: Seq<char>)
    ensures
        normalized(left) == normalized(right) <==> address_of(left) == address_of(right),
{
    reading_gives_complete_addresses(left);
    reading_gives_complete_addresses(right);
    if let Some(address) = address_of(left) {
        reading_undoes_writing(address);
    }
    if let Some(address) = address_of(right) {
        reading_undoes_writing(address);
    }
}

/// The canonical text of an address holds something besides white space.
pub proof fn canonical_texts_are_not_blank(address: Address)
    requires
        complete(address),
    ensures
        !is_blank(address_text(address)),
{
    match address {
        Address::V4(octets) => {
            let first = numeral(octets[0] as nat, 10);
            lemma_numeral(octets[0] as nat, 10);
            assert(is_digit(first[0], 10));
            assert(ipv4_text(octets)[0] == first[0]);
        },
        Address::V6(groups) => {
            lemma_ipv6_has_colon(groups);
            let text = ipv6_text(groups);
            let i = choose|i: int| 0 <= i < text.len() && text[i] == ':';
            assert(!is_white_space(text[i]));
        },
    }
}

/// A numeral holds no character that is not a digit.
proof fn lemma_numeral_lacks(n: nat, radix: nat, c: char)
    requires
        2 <= radix <= 16,
        digit_value(c) is None,
    ensures
        !numeral(n, radix).contains(c),
{
    lemma_numeral(n, radix);
    let text = numeral(n, radix);
    if text.contains(c) {
        let i = choose|i: int| 0 <= i < text.len() && text[i] == c;
        assert(is_digit(text[i], radix as int));
    }
}

/// An octet's numeral stands for the octet.
proof fn lemma_octet(octet: u8)
    ensures
        octet_of(numeral(octet as nat, 10)) == Some(octet),
{
    lemma_numeral(octet as nat, 10);
    lemma_numeral_len(octet as nat, 10);
}

/// A group's numeral stands for the group.
proof fn lemma_group(group: u16)
    ensures
        group_of(numeral(group as nat, 16)) == Some(group),
{
    lemma_numeral(group as nat, 16);
    lemma_numeral_len(group as nat, 16);
}

proof fn lemma_ipv4(octets: Seq<u8>)
    requires
        octets.len() == 4,
    ensures
        ipv4_of(ipv4_text(octets)) == Some(octets),
        !ipv4_text(octets).contains(':'),
{
    let a = numeral(octets[0] as nat, 10);
    let b = numeral(octets[1] as nat, 10);
    let c = numeral(octets[2] as nat, 10);
    let d = numeral(octets[3] as nat, 10);
    let dot = seq!['.'];
    assert forall|i: int| 0 <= i < 4 implies {
        &&& octet_of(#[trigger] numeral(octets[i] as nat, 10)) == Some(octets[i])
        &&& split(numeral(octets[i] as nat, 10), '.') == seq![numeral(octets[i] as nat, 10)]
        &&& !numeral(octets[i] as nat, 10).contains(':')
    } by {
        lemma_octet(octets[i]);
        lemma_numeral_lacks(octets[i] as nat, 10, '.');
        lemma_numeral_lacks(octets[i] as nat, 10, ':');
        lemma_split_single(numeral(octets[i] as nat, 10), '.');
    }
    lemma_split_join(a, b, '.');
    lemma_split_join(a + dot + b, c, '.');
    lemma_split_join(a + dot + b + dot + c, d, '.');
    let text = ipv4_text(octets);
    assert(text == a + dot + b + dot + c + dot + d);
    let fields = split(text, '.');
    assert(fields == seq![a, b, c, d]);
    assert(fields.map_values(|field: Seq<char>| octet_of(field)->0) == octets);
    if text.contains(':') {
        let i = choose|i: int| 0 <= i < text.len() && text[i] == ':';
        let n1 = a.len() as int;
        let n2 = n1 + 1 + b.len();
        let n3 = n2 + 1 + c.len();
        if i < n1 {
            assert(a[i] == ':');
        } else if n1 < i < n2 {
            assert(b[i - n1 - 1] == ':');
        } else if n2 < i < n3 {
            assert(c[i - n2 - 1] == ':');
        } else if n3 < i {
            assert(d[i - n3 - 1] == ':');
        }
    }
}

/// Groups between colons: no gap, no colon at either end, and the groups
/// themselves as fields.
pub proof fn lemma_joined(groups: Seq<u16>)
    requires
        groups.len() >= 1,
    ensures
        joined(groups).len() >= 1,
        joined(groups)[0] != ':',
        joined(groups).last() != ':',
        forall|i: int| !#[trigger] gap_at(joined(groups), i),
        split(joined(groups), ':') == groups.map_values(|group: u16| numeral(group as nat, 16)),
    decreases groups.len(),
{
    let text = joined(groups);
    let last = numeral(groups.last() as nat, 16);
    lemma_numeral(groups.last() as nat, 16);
    lemma_numeral_lacks(groups.last() as nat, 16, ':');
    lemma_split_single(last, ':');
    assert forall|i: int| 0 <= i < last.len() implies #[trigger] last[i] != ':' by {
        assert(last.contains(last[i]));
    }
    if groups.len() == 1 {
        assert(text == last);
        assert(split(text, ':') =~= groups.map_values(|group: u16| numeral(group as nat, 16)));
    } else {
        let front = joined(groups.drop_last());
        lemma_joined(groups.drop_last());
        lemma_split_join(front, last, ':');
        assert(text == front + seq![':'] + last);
        assert(text.last() == last.last());
        assert forall|i: int| !#[trigger] gap_at(text, i) by {
            if gap_at(text, i) {
                if i + 1 < front.len() {
                    assert(gap_at(front, i));
                } else if i + 1 == front.len() {
                    assert(text[i] == front.last());
                } else if i == front.len() {
                    assert(text[i + 1] == last[0]);
                } else {
                    assert(text[i] == last[i - front.len() - 1]);
                }
            }
        }
        assert(split(text, ':') =~= groups.map_values(|group: u16| numeral(group as nat, 16)));
    }
}

/// One side of an address reads as the groups it was written for.
proof fn lemma_side(groups: Seq<u16>, dotted: bool)
    ensures
        side_of(joined(groups), dotted) == Some(groups),
{
    if groups.len() == 0 {
        assert(groups == Seq::<u16>::empty());
    } else {
        lemma_joined(groups);
        let fields = split(joined(groups), ':');
        assert forall|i: int| 0 <= i < fields.len() implies group_of(#[trigger] fields[i]) == Some(
            groups[i],
        ) by {
            lemma_group(groups[i]);
        }
        assert(fields.map_values(|field: Seq<char>| group_of(field)->0) == groups);
        lemma_numeral_lacks(groups.last() as nat, 16, '.');
        assert(fields.last() == numeral(groups.last() as nat, 16));
        lemma_split_single(fields.last(), '.');
    }
}

/// A text in which a gap follows a text without one reads as the two sides.
proof fn lemma_around(head: Seq<char>, tail: Seq<char>)
    requires
        forall|i: int| !#[trigger] gap_at(head, i),
        head.len() > 0 ==> head.last() != ':',
    ensures
        ipv6_of(head + seq![':', ':'] + tail) == ipv6_around(
            side_of(head, false),
            side_of(tail, true),
        ),
{
    let text = head + seq![':', ':'] + tail;
    let gap = head.len() as int;
    assert(gap_at(text, gap));
    assert forall|j: int| 0 <= j < gap implies !#[trigger] gap_at(text, j) by {
        if gap_at(text, j) {
            if j + 1 < gap {
                assert(gap_at(head, j));
            } else {
                assert(text[j] == head.last());
            }
        }
    }
    assert(first_gap(text, gap));
    let found = choose|i: int| first_gap(text, i);
    assert(first_gap(text, found));
    assert(gap_at(text, found));
    assert(found == gap);
    assert(text.take(gap) == head);
    assert(text.skip(gap + 2) == tail);
}

proof fn lemma_ipv6(groups: Seq<u16>)
    requires
        groups.len() == 8,
    ensures
        ipv6_of(ipv6_text(groups)) == Some(groups),
{
    if is_mapped(groups) {
        lemma_mapped(groups);
    } else {
        let (start, len) = choose|start: int, len: int| longest_run(groups, start, len);
        lemma_longest_run_exists(groups);
        assert(longest_run(groups, start, len));
        if len > 1 {
            assert(zero_run(groups, start, len));
            let head = groups.take(start);
            let tail = groups.skip(start + len);
            if start > 0 {
                lemma_joined(head);
            }
            lemma_around(joined(head), joined(tail));
            lemma_side(head, false);
            lemma_side(tail, true);
            assert(head + zeros(8 - head.len() - tail.len()) + tail == groups);
        } else {
            lemma_joined(groups);
            lemma_side(groups, true);
            assert(forall|i: int| first_gap(joined(groups), i) ==> gap_at(joined(groups), i));
        }
    }
}

proof fn lemma_mapped(groups: Seq<u16>)
    requires
        is_mapped(groups),
    ensures
        ipv6_of(ipv6_text(groups)) == Some(groups),
{
    let octets = mapped_octets(groups);
    let dotted = ipv4_text(octets);
    lemma_ipv4(octets);
    reveal_strlit("::ffff:");
    let word = seq!['f', 'f', 'f', 'f'];
    let tail = word + seq![':'] + dotted;
    let none = Seq::<char>::empty();
    assert("::ffff:"@ == seq![':', ':', 'f', 'f', 'f', 'f', ':']);
    assert(ipv6_text(groups) == none + seq![':', ':'] + tail);
    lemma_around(none, tail);
    assert(!word.contains(':'));
    lemma_split_single(word, ':');
    lemma_split_single(dotted, ':');
    lemma_split_join(word, dotted, ':');
    let fields = split(tail, ':');
    assert(fields == seq![word, dotted]);
    assert(fields.drop_last() == seq![word]);
    assert(word.drop_last() == seq!['f', 'f', 'f']);
    assert(word.drop_last().drop_last() == seq!['f', 'f']);
    assert(word.drop_last().drop_last().drop_last() == seq!['f']);
    reveal_with_fuel(number_of, 5);
    assert(number_of(word, 16) == 0xffff);
    assert(group_of(word) == Some(0xffffu16));
    assert(groups_of(seq![word])->0 == seq![0xffffu16]);
    let side = seq![0xffffu16] + paired(octets);
    assert(side_of(tail, true) == Some(side));
    assert(Seq::<u16>::empty() + zeros(8 - 0 - side.len()) + side == groups) by {
        assert forall|i: int| 0 <= i < 5 implies groups[i] == 0 by {
            assert(groups.take(5)[i] == zeros(5)[i]);
        }
    }
}

/// Every address has a first longest run of zero groups, be it empty.
pub proof fn lemma_longest_run_exists(groups: Seq<u16>)
    ensures
        exists|start: int, len: int| longest_run(groups, start, len),
{
    lemma_longest_run_below(groups, groups.len() as int);
}

/// Looks for a longest run among those of at most `bound` groups.
proof fn lemma_longest_run_below(groups: Seq<u16>, bound: int)
    requires
        0 <= bound,
        forall|s: int, n: int| #[trigger] zero_run(groups, s, n) ==> n <= bound,
    ensures
        exists|start: int, len: int| longest_run(groups, start, len),
    decreases bound,
{
    if bound == 0 {
        assert(zero_run(groups, 0, 0));
        assert(longest_run(groups, 0, 0));
    } else if exists|s: int| zero_run(groups, s, bound) {
        let some = choose|s: int| zero_run(groups, s, bound);
        let start = lemma_first_start(groups, bound, some);
        assert(longest_run(groups, start, bound));
    } else {
        lemma_longest_run_below(groups, bound - 1);
    }
}

/// The first place at which a run of a given length starts.
proof fn lemma_first_start(groups: Seq<u16>, len: int, some: int) -> (start: int)
    requires
        zero_run(groups, some, len),
    ensures
        zero_run(groups, start, len),
        forall|s: int| #[trigger] zero_run(groups, s, len) ==> start <= s,
    decreases some,
{
    if exists|s: int| s < some && zero_run(groups, s, len) {
        let earlier = choose|s: int| s < some && zero_run(groups, s, len);
        lemma_first_start(groups, len, earlier)
    } else {
        some
    }
}

/// The text of an IPv6 address holds a colon.
proof fn lemma_ipv6_has_colon(groups: Seq<u16>)
    requires
        groups.len() == 8,
    ensures
        ipv6_text(groups).contains(':'),
{
    let text = ipv6_text(groups);
    if is_mapped(groups) {
        reveal_strlit("::ffff:");
        assert(text[0] == ':');
    } else {
        let (start, len) = choose|start: int, len: int| longest_run(groups, start, len);
        if len > 1 {
            assert(text[joined(groups.take(start)).len() as int] == ':');
        } else {
            assert(text[joined(groups.drop_last()).len() as int] == ':');
        }
    }
}

/// Every character but the separator stands in some field.
proof fn lemma_split_keeps(text: Seq<char>, separator: char, c: char)
    requires
        text.contains(c),
        c != separator,
    ensures
        exists|i: int|
            0 <= i < split(text, separator).len() && #[trigger] split(text, separator)[i].contains(
                c,
            ),
    decreases text.len(),
{
    let front = text.drop_last();
    let fields = split(text, separator);
    let before = split(front, separator);
    lemma_split_nonempty(front, separator);
    if front.contains(c) {
        lemma_split_keeps(front, separator, c);
        let i = choose|i: int| 0 <= i < before.len() && #[trigger] before[i].contains(c);
        if i == before.len() - 1 && text.last() != separator {
            let k = choose|k: int| 0 <= k < before[i].len() && before[i][k] == c;
            assert(fields[i][k] == c);
        }
        assert(fields[i].contains(c));
    } else {
        let at = choose|at: int| 0 <= at < text.len() && text[at] == c;
        if at < front.len() {
            assert(front[at] == c);
        }
        assert(text.last() == c);
        let last = fields[fields.len() - 1];
        assert(last[last.len() - 1] == c);
        assert(last.contains(c));
    }
}

/// The text of an IPv4 address holds no colon.
pub proof fn lemma_ipv4_has_no_colon(text: Seq<char>)
    ensures
        text.contains(':') ==> ipv4_of(text) is None,
{
    if text.contains(':') && ipv4_of(text) is Some {
        lemma_split_keeps(text, '.', ':');
        let fields = split(text, '.');
        let i = choose|i: int| 0 <= i < fields.len() && #[trigger] fields[i].contains(':');
        assert(octet_of(fields[i]) is Some);
        let k = choose|k: int| 0 <= k < fields[i].len() && fields[i][k] == ':';
        assert(is_digit(fields[i][k], 10));
    }
}

} // verus!
