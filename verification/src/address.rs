//! IP addresses in text form.
//!
//! An IPv4 address is four decimal octets without leading zeros. An IPv6
//! address is eight groups of up to four hexadecimal digits, of which one run
//! may be left out as `::` and the last two may be written as an IPv4 address.

use vstd::prelude::*;
use crate::numeral::{all_digits, number_of, numeral, numeral_text, read_number};
use crate::text::{chars_of, piece, split, split_at_each, texts};

verus! {

/// An IP address by its numbers.
pub enum Address {
    V4(Seq<u8>),
    V6(Seq<u16>),
}

/// The octet that a decimal field stands for: no leading zero, at most 255.
pub open spec fn octet_of(field: Seq<char>) -> Option<u8> {
    if 1 <= field.len() <= 3 && all_digits(field, 10) && (field.len() > 1 ==> field[0] != '0')
        && number_of(field, 10) <= 255 {
        Some(number_of(field, 10) as u8)
    } else {
        None
    }
}

/// The IPv4 address that a text stands for: four octets between dots.
pub open spec fn ipv4_of(text: Seq<char>) -> Option<Seq<u8>> {
    let fields = split(text, '.');
    if fields.len() == 4 && (forall|i: int|
        0 <= i < 4 ==> octet_of(#[trigger] fields[i]) is Some) {
        Some(fields.map_values(|field: Seq<char>| octet_of(field)->0))
    } else {
        None
    }
}

/// The group that a hexadecimal field of one to four digits stands for.
pub open spec fn group_of(field: Seq<char>) -> Option<u16> {
    if 1 <= field.len() <= 4 && all_digits(field, 16) {
        Some(number_of(field, 16) as u16)
    } else {
        None
    }
}

/// The groups that hexadecimal fields stand for.
pub open spec fn groups_of(fields: Seq<Seq<char>>) -> Option<Seq<u16>> {
    if forall|i: int| 0 <= i < fields.len() ==> group_of(#[trigger] fields[i]) is Some {
        Some(fields.map_values(|field: Seq<char>| group_of(field)->0))
    } else {
        None
    }
}

/// The two groups that four octets make up.
pub open spec fn paired(octets: Seq<u8>) -> Seq<u16> {
    seq![(octets[0] * 256 + octets[1]) as u16, (octets[2] * 256 + octets[3]) as u16]
}

/// The groups on one side of `::`, or of a whole address; `dotted` allows the
/// last two to be an IPv4 address.
pub open spec fn side_of(text: Seq<char>, dotted: bool) -> Option<Seq<u16>> {
    let fields = split(text, ':');
    if text.len() == 0 {
        Some(Seq::<u16>::empty())
    } else if dotted && ipv4_of(fields.last()) is Some {
        match groups_of(fields.drop_last()) {
            Some(groups) => Some(groups + paired(ipv4_of(fields.last())->0)),
            None => None,
        }
    } else {
        groups_of(fields)
    }
}

/// Whether two colons stand next to each other at a place.
pub open spec fn gap_at(text: Seq<char>, i: int) -> bool {
    0 <= i && i + 1 < text.len() && text[i] == ':' && text[i + 1] == ':'
}

/// Whether a place is the first with two colons next to each other.
pub open spec fn first_gap(text: Seq<char>, i: int) -> bool {
    gap_at(text, i) && forall|j: int| 0 <= j < i ==> !#[trigger] gap_at(text, j)
}

/// A number of groups that are zero.
pub open spec fn zeros(n: int) -> Seq<u16> {
    Seq::new(n as nat, |i: int| 0u16)
}

/// An address with a gap: the gap stands for at least one group of zero.
pub open spec fn ipv6_around(head: Option<Seq<u16>>, tail: Option<Seq<u16>>) -> Option<Seq<u16>> {
    if head is Some && tail is Some && head->0.len() + tail->0.len() <= 7 {
        Some(head->0 + zeros(8 - head->0.len() - tail->0.len()) + tail->0)
    } else {
        None
    }
}

/// The IPv6 address that a text stands for.
pub open spec fn ipv6_of(text: Seq<char>) -> Option<Seq<u16>> {
    if exists|i: int| first_gap(text, i) {
        let gap = choose|i: int| first_gap(text, i);
        ipv6_around(side_of(text.take(gap), false), side_of(text.skip(gap + 2), true))
    } else if side_of(text, true) is Some && side_of(text, true)->0.len() == 8 {
        side_of(text, true)
    } else {
        None
    }
}

/// The address that a text stands for.
pub open spec fn address_of(text: Seq<char>) -> Option<Address> {
    if ipv4_of(text) is Some {
        Some(Address::V4(ipv4_of(text)->0))
    } else if ipv6_of(text) is Some {
        Some(Address::V6(ipv6_of(text)->0))
    } else {
        None
    }
}

/// The canonical text of an IPv4 address.
pub open spec fn ipv4_text(octets: Seq<u8>) -> Seq<char> {
    numeral(octets[0] as nat, 10) + seq!['.'] + numeral(octets[1] as nat, 10) + seq!['.'] + numeral(
        octets[2] as nat,
        10,
    ) + seq!['.'] + numeral(octets[3] as nat, 10)
}

/// Hexadecimal groups between colons.
pub open spec fn joined(groups: Seq<u16>) -> Seq<char>
    decreases groups.len(),
{
    if groups.len() == 0 {
        Seq::<char>::empty()
    } else if groups.len() == 1 {
        numeral(groups[0] as nat, 16)
    } else {
        joined(groups.drop_last()) + seq![':'] + numeral(groups.last() as nat, 16)
    }
}

/// Whether an IPv6 address stands for an IPv4 address.
pub open spec fn is_mapped(groups: Seq<u16>) -> bool {
    groups.len() == 8 && groups.take(5) == zeros(5) && groups[5] == 0xffff
}

/// The octets of the last two groups.
pub open spec fn mapped_octets(groups: Seq<u16>) -> Seq<u8> {
    seq![
        (groups[6] / 256) as u8,
        (groups[6] % 256) as u8,
        (groups[7] / 256) as u8,
        (groups[7] % 256) as u8,
    ]
}

/// Whether the `len` groups from `start` on are all zero.
pub open spec fn zero_run(groups: Seq<u16>, start: int, len: int) -> bool {
    0 <= start && 0 <= len && start + len <= groups.len() && forall|i: int|
        start <= i < start + len ==> #[trigger] groups[i] == 0
}

/// Whether a run of zero groups is a longest one, and the first such.
pub open spec fn longest_run(groups: Seq<u16>, start: int, len: int) -> bool {
    zero_run(groups, start, len) && forall|s: int, n: int| #[trigger]
        zero_run(groups, s, n) ==> n <= len && (n == len && 0 < n ==> start <= s)
}

/// The canonical text of an IPv6 address: the first longest run of two or more
/// zero groups is left out, and a mapped IPv4 address is written with dots.
pub open spec fn ipv6_text(groups: Seq<u16>) -> Seq<char> {
    if is_mapped(groups) {
        "::ffff:"@ + ipv4_text(mapped_octets(groups))
    } else {
        let (start, len) = choose|start: int, len: int| longest_run(groups, start, len);
        if len > 1 {
            joined(groups.take(start)) + seq![':', ':'] + joined(groups.skip(start + len))
        } else {
            joined(groups)
        }
    }
}

/// The canonical text of an address.
pub open spec fn address_text(address: Address) -> Seq<char> {
    match address {
        Address::V4(octets) => ipv4_text(octets),
        Address::V6(groups) => ipv6_text(groups),
    }
}

/// An IP address.
#[derive(Debug, Clone, Copy)]
pub enum IpAddress {
    V4([u8; 4]),
    V6([u16; 8]),
}

impl View for IpAddress {
    type V = Address;

    open spec fn view(&self) -> Address {
        match self {
            IpAddress::V4(octets) => Address::V4(octets@),
            IpAddress::V6(groups) => Address::V6(groups@),
        }
    }
}

impl IpAddress {
    /// Reads an IPv4 or IPv6 address.
    pub fn parse(text: &str) -> (address: Option<IpAddress>)
        ensures
            address is Some == address_of(text@) is Some,
            address matches Some(found) ==> address_of(text@) == Some(found@),
            address matches Some(IpAddress::V4(octets)) ==> address_of(text@) == Some(
                Address::V4(octets@),
            ),
            address matches Some(IpAddress::V6(groups)) ==> address_of(text@) == Some(
                Address::V6(groups@),
            ),
    {
        let chars = chars_of(text);
        match read_ipv4(&chars) {
            Some(octets) => Some(IpAddress::V4(octets)),
            None => match read_ipv6(&chars) {
                Some(groups) => Some(IpAddress::V6(groups)),
                None => None,
            },
        }
    }

    /// Writes the address in its canonical form.
    pub fn text(&self) -> (text: String)
        ensures
            text@ == address_text(self@),
            match self {
                IpAddress::V4(octets) => text@ == address_text(Address::V4(octets@)),
                IpAddress::V6(groups) => text@ == address_text(Address::V6(groups@)),
            },
    {
        match self {
            IpAddress::V4(octets) => write_ipv4(octets),
            IpAddress::V6(groups) => write_ipv6(groups),
        }
    }
}

fn read_octet(field: &Vec<char>) -> (octet: Option<u8>)
    ensures
        octet == octet_of(field@),
{
    match read_number(field, 10, 3) {
        Some(number) => {
            if number > 255 || (field.len() > 1 && field[0] == '0') {
                None
            } else {
                Some(number as u8)
            }
        },
        None => None,
    }
}

fn read_ipv4(text: &Vec<char>) -> (octets: Option<[u8; 4]>)
    ensures
        octets is Some == ipv4_of(text@) is Some,
        octets matches Some(found) ==> ipv4_of(text@) == Some(found@),
{
    let fields = split_at_each(text, '.');
    let ghost parts = split(text@, '.');
    if fields.len() != 4 {
        return None;
    }
    assert(forall|i: int| 0 <= i < 4 ==> #[trigger] parts[i] == fields@[i]@);
    match (
        read_octet(&fields[0]),
        read_octet(&fields[1]),
        read_octet(&fields[2]),
        read_octet(&fields[3]),
    ) {
        (Some(first), Some(second), Some(third), Some(fourth)) => {
            let octets = [first, second, third, fourth];
            assert(octets@ == parts.map_values(|field: Seq<char>| octet_of(field)->0));
            Some(octets)
        },
        _ => {
            assert(octet_of(parts[0]) is None || octet_of(parts[1]) is None || octet_of(
                parts[2],
            ) is None || octet_of(parts[3]) is None);
            None
        },
    }
}

fn read_group(field: &Vec<char>) -> (group: Option<u16>)
    ensures
        group == group_of(field@),
{
    match read_number(field, 16, 4) {
        Some(number) => {
            proof {
                lemma_group_fits(field@);
            }
            Some(number as u16)
        },
        None => None,
    }
}

/// Up to four hexadecimal digits stand for a number of sixteen bits.
pub proof fn lemma_group_fits(field: Seq<char>)
    requires
        field.len() <= 4,
        all_digits(field, 16),
    ensures
        0 <= number_of(field, 16) <= 0xffff,
        field.len() <= 3 ==> number_of(field, 16) <= 0xfff,
        field.len() <= 2 ==> number_of(field, 16) <= 0xff,
        field.len() <= 1 ==> number_of(field, 16) <= 0xf,
        field.len() == 0 ==> number_of(field, 16) == 0,
    decreases field.len(),
{
    if field.len() > 0 {
        let front = field.drop_last();
        assert forall|i: int| 0 <= i < front.len() implies crate::numeral::is_digit(
            #[trigger] front[i],
            16,
        ) by {
            assert(front[i] == field[i]);
        }
        lemma_group_fits(front);
        assert(crate::numeral::is_digit(field[field.len() - 1], 16));
    }
}

/// Reads the first `count` fields as groups.
fn read_groups(fields: &Vec<Vec<char>>, count: usize) -> (groups: Option<Vec<u16>>)
    requires
        count <= fields@.len(),
    ensures
        groups is Some == groups_of(texts(fields@).take(count as int)) is Some,
        groups matches Some(found) ==> groups_of(texts(fields@).take(count as int)) == Some(found@),
{
    let ghost parts = texts(fields@).take(count as int);
    let mut groups: Vec<u16> = Vec::new();
    let mut i: usize = 0;
    while i < count
        invariant
            i <= count <= fields@.len(),
            parts == texts(fields@).take(count as int),
            groups@.len() == i,
            forall|k: int| 0 <= k < i ==> group_of(#[trigger] parts[k]) == Some(groups@[k]),
        decreases count - i,
    {
        assert(parts[i as int] == fields@[i as int]@);
        match read_group(&fields[i]) {
            Some(group) => {
                groups.push(group);
            },
            None => {
                return None;
            },
        }
        i = i + 1;
    }
    assert(groups@ == parts.map_values(|field: Seq<char>| group_of(field)->0));
    Some(groups)
}

fn read_side(text: &Vec<char>, dotted: bool) -> (groups: Option<Vec<u16>>)
    ensures
        groups is Some == side_of(text@, dotted) is Some,
        groups matches Some(found) ==> side_of(text@, dotted) == Some(found@),
{
    if text.len() == 0 {
        return Some(Vec::new());
    }
    let fields = split_at_each(text, ':');
    let count: usize = fields.len();
    let ghost parts = split(text@, ':');
    assert(parts.take(count as int) == parts);
    assert(parts.take(count - 1) == parts.drop_last());
    if dotted {
        if let Some(octets) = read_ipv4(&fields[count - 1]) {
            return match read_groups(&fields, count - 1) {
                Some(mut groups) => {
                    let ghost before = groups@;
                    groups.push(octets[0] as u16 * 256 + octets[1] as u16);
                    groups.push(octets[2] as u16 * 256 + octets[3] as u16);
                    assert(groups@ == before + paired(octets@));
                    Some(groups)
                },
                None => None,
            };
        }
    }
    read_groups(&fields, count)
}

/// Finds the first place with two colons next to each other.
fn find_gap(text: &Vec<char>) -> (gap: Option<usize>)
    ensures
        gap matches Some(i) ==> first_gap(text@, i as int),
        gap is None ==> forall|i: int| !#[trigger] gap_at(text@, i),
{
    let mut i: usize = 0;
    while i < text.len()
        invariant
            i <= text@.len(),
            forall|j: int| 0 <= j < i ==> !#[trigger] gap_at(text@, j),
        decreases text@.len() - i,
    {
        if i + 1 < text.len() && text[i] == ':' && text[i + 1] == ':' {
            return Some(i);
        }
        i = i + 1;
    }
    None
}

/// Eight groups: those of `head`, zeros, and those of `tail`.
fn fill(head: &Vec<u16>, tail: &Vec<u16>) -> (groups: [u16; 8])
    requires
        head@.len() + tail@.len() <= 8,
    ensures
        groups@ == head@ + zeros(8 - head@.len() - tail@.len()) + tail@,
{
    let mut groups: [u16; 8] = [0, 0, 0, 0, 0, 0, 0, 0];
    let mut i: usize = 0;
    while i < head.len()
        invariant
            i <= head@.len(),
            head@.len() + tail@.len() <= 8,
            groups@.len() == 8,
            forall|k: int| 0 <= k < i ==> groups@[k] == head@[k],
            forall|k: int| i <= k < 8 ==> groups@[k] == 0,
        decreases head@.len() - i,
    {
        groups[i] = head[i];
        i = i + 1;
    }
    let start: usize = 8 - tail.len();
    let mut j: usize = 0;
    while j < tail.len()
        invariant
            j <= tail@.len(),
            start == 8 - tail@.len(),
            head@.len() <= start,
            groups@.len() == 8,
            forall|k: int| 0 <= k < head@.len() ==> groups@[k] == head@[k],
            forall|k: int| head@.len() <= k < start ==> groups@[k] == 0,
            forall|k: int| start <= k < start + j ==> groups@[k] == tail@[k - start],
        decreases tail@.len() - j,
    {
        groups[start + j] = tail[j];
        j = j + 1;
    }
    assert(groups@ == head@ + zeros(8 - head@.len() - tail@.len()) + tail@);
    groups
}

fn read_ipv6(text: &Vec<char>) -> (groups: Option<[u16; 8]>)
    ensures
        groups is Some == ipv6_of(text@) is Some,
        groups matches Some(found) ==> ipv6_of(text@) == Some(found@),
{
    match find_gap(text) {
        Some(gap) => {
            proof {
                lemma_first_gap_unique(text@, gap as int);
            }
            let end: usize = text.len();
            assert(gap_at(text@, gap as int));
            let before = piece(text, 0, gap);
            let after = piece(text, gap + 2, end);
            assert(before@ == text@.take(gap as int));
            assert(after@ == text@.skip(gap + 2));
            match (read_side(&before, false), read_side(&after, true)) {
                (Some(head), Some(tail)) => {
                    if head.len() <= 7 && tail.len() <= 7 - head.len() {
                        Some(fill(&head, &tail))
                    } else {
                        None
                    }
                },
                _ => None,
            }
        },
        None => {
            assert(forall|i: int| first_gap(text@, i) ==> gap_at(text@, i));
            match read_side(text, true) {
                Some(all) => {
                    if all.len() == 8 {
                        let none: Vec<u16> = Vec::new();
                        let groups = fill(&all, &none);
                        assert(groups@ == all@);
                        Some(groups)
                    } else {
                        None
                    }
                },
                None => None,
            }
        },
    }
}

/// There is only one first gap.
proof fn lemma_first_gap_unique(text: Seq<char>, gap: int)
    requires
        first_gap(text, gap),
    ensures
        (choose|i: int| first_gap(text, i)) == gap,
{
    let other = choose|i: int| first_gap(text, i);
    assert(first_gap(text, other));
    assert(gap_at(text, other) && gap_at(text, gap));
}

fn write_ipv4(octets: &[u8; 4]) -> (text: String)
    ensures
        text@ == ipv4_text(octets@),
{
    proof {
        reveal_strlit(".");
    }
    assert("."@ == seq!['.']);
    numeral_text(octets[0] as u32, 10).concat(".").concat(
        numeral_text(octets[1] as u32, 10).as_str(),
    ).concat(".").concat(numeral_text(octets[2] as u32, 10).as_str()).concat(".").concat(
        numeral_text(octets[3] as u32, 10).as_str(),
    )
}

/// Writes the groups from one place up to another.
fn write_groups(groups: &[u16; 8], from: usize, to: usize) -> (text: String)
    requires
        from <= to <= 8,
    ensures
        text@ == joined(groups@.subrange(from as int, to as int)),
{
    proof {
        reveal_strlit(":");
    }
    assert(":"@ == seq![':']);
    let mut text = String::new();
    let mut i: usize = from;
    while i < to
        invariant
            from <= i <= to <= 8,
            ":"@ == seq![':'],
            text@ == joined(groups@.subrange(from as int, i as int)),
        decreases to - i,
    {
        let ghost before = groups@.subrange(from as int, i as int);
        let ghost after = groups@.subrange(from as int, i + 1);
        assert(after.drop_last() == before);
        assert(after.last() == groups@[i as int]);
        if i > from {
            text.append(":");
        }
        text.append(numeral_text(groups[i] as u32, 16).as_str());
        assert(text@ == joined(after));
        i = i + 1;
    }
    text
}

/// Finds the first longest run of zero groups.
fn find_run(groups: &[u16; 8]) -> (run: (usize, usize))
    ensures
        longest_run(groups@, run.0 as int, run.1 as int),
{
    let mut start: usize = 0;
    let mut len: usize = 0;
    let mut current: usize = 0;
    let mut i: usize = 0;
    while i < 8
        invariant
            i <= 8,
            groups@.len() == 8,
            zero_run(groups@, start as int, len as int),
            start + len <= i,
            forall|s: int, n: int| #[trigger]
                zero_run(groups@, s, n) && s + n <= i ==> n <= len && (n == len && 0 < n ==> start
                    <= s),
            current <= i,
            current <= len,
            zero_run(groups@, i - current, current as int),
            current < i ==> groups@[i - current - 1] != 0,
        decreases 8 - i,
    {
        let ghost old_start = start;
        let ghost old_len = len;
        if groups[i] == 0 {
            current = current + 1;
            if current > len {
                start = i + 1 - current;
                len = current;
            }
            assert forall|s: int, n: int| #[trigger]
                zero_run(groups@, s, n) && s + n <= i + 1 implies n <= len && (n == len && 0 < n
                ==> start <= s) by {
                if s + n == i + 1 && n > current {
                    assert(groups@[i + 1 - current - 1] == 0);
                }
            }
        } else {
            current = 0;
            assert forall|s: int, n: int| #[trigger]
                zero_run(groups@, s, n) && s + n <= i + 1 implies n <= len && (n == len && 0 < n
                ==> start <= s) by {
                if s + n == i + 1 && n > 0 {
                    assert(groups@[i as int] == 0);
                }
            }
        }
        i = i + 1;
    }
    (start, len)
}

fn write_ipv6(groups: &[u16; 8]) -> (text: String)
    ensures
        text@ == ipv6_text(groups@),
{
    if groups[0] == 0 && groups[1] == 0 && groups[2] == 0 && groups[3] == 0 && groups[4] == 0
        && groups[5] == 0xffff {
        assert(groups@.take(5) == zeros(5));
        let octets = [
            (groups[6] / 256) as u8,
            (groups[6] % 256) as u8,
            (groups[7] / 256) as u8,
            (groups[7] % 256) as u8,
        ];
        assert(octets@ == mapped_octets(groups@));
        "::ffff:".to_owned().concat(write_ipv4(&octets).as_str())
    } else {
        proof {
            if is_mapped(groups@) {
                assert forall|i: int| 0 <= i < 5 implies groups@[i] == 0 by {
                    assert(groups@.take(5)[i] == zeros(5)[i]);
                }
            }
        }
        let (start, len) = find_run(groups);
        proof {
            lemma_longest_run_unique(groups@, start as int, len as int);
            reveal_strlit("::");
        }
        if len > 1 {
            assert("::"@ == seq![':', ':']);
            assert(groups@.subrange(0, start as int) == groups@.take(start as int));
            assert(groups@.subrange(start + len, 8) == groups@.skip(start + len));
            write_groups(groups, 0, start).concat("::").concat(
                write_groups(groups, start + len, 8).as_str(),
            )
        } else {
            assert(groups@.subrange(0, 8) == groups@);
            write_groups(groups, 0, 8)
        }
    }
}

/// There is only one first longest run, unless there are no zero groups.
proof fn lemma_longest_run_unique(groups: Seq<u16>, start: int, len: int)
    requires
        longest_run(groups, start, len),
    ensures
        ({
            let (s, n) = choose|s: int, n: int| longest_run(groups, s, n);
            n == len && (0 < n ==> s == start)
        }),
{
    let (s, n) = choose|s: int, n: int| longest_run(groups, s, n);
    assert(longest_run(groups, s, n));
    assert(zero_run(groups, s, n) && zero_run(groups, start, len));
}

} // verus!
