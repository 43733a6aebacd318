//! The log filter that the `RUST_LOG` variable holds.

use vstd::prelude::*;
use crate::text::{chars_of, find_first, first_of, is_white_space, lemma_first_of, piece};

verus! {

/// What is wrong with a log filter, in the words of `EnvFilter::try_new`;
/// `None` for a filter that it accepts.
pub uninterp spec fn log_filter_problem(directives: Seq<char>) -> Option<Seq<char>>;

/// How many bytes a character takes in UTF-8.
pub open spec fn char_width(c: char) -> nat {
    let code = c as int;
    if code < 0x80 {
        1
    } else if code < 0x800 {
        2
    } else if code < 0x1_0000 {
        3
    } else {
        4
    }
}

/// How many bytes a text takes in UTF-8.
pub open spec fn width(text: Seq<char>) -> nat
    decreases text.len(),
{
    if text.len() == 0 {
        0
    } else {
        width(text.drop_last()) + char_width(text.last())
    }
}

/// Whether a byte of a text's UTF-8 form is the first of a character, or the
/// form's end.
pub open spec fn is_boundary(text: Seq<char>, place: nat) -> bool {
    exists|n: int| 0 <= n <= text.len() && #[trigger] width(text.take(n)) == place
}

/// A text without the white space that it starts with.
pub open spec fn unindented(text: Seq<char>) -> Seq<char>
    decreases text.len(),
{
    if text.len() > 0 && is_white_space(text.first()) {
        unindented(text.drop_first())
    } else {
        text
    }
}

/// Whether a character is a letter or a digit in some script, as
/// `char::is_alphanumeric` tells.
pub uninterp spec fn is_alphanumeric(c: char) -> bool;

/// `char::is_alphanumeric` depends on the character alone. Which characters of
/// Unicode are letters or digits is not stated.
pub assume_specification[ char::is_alphanumeric ](c: char) -> (result: bool)
    ensures
        result == is_alphanumeric(c),
;

/// Whether a directive can start with a character; one that starts with another
/// is refused at once.
pub open spec fn can_start(c: char) -> bool {
    c == '[' || c == '-' || c == ':' || c == '_' || is_alphanumeric(c)
}

/// Where a directive is cut: around the `=` between target and level, or around
/// the `[` before a span and within it, up to the end of the span's fields.
pub open spec fn cuts(directive: Seq<char>) -> Seq<int> {
    let end = first_of(directive, 0, '=', '[');
    if directive.len() == 0 || !can_start(directive[0]) || end >= directive.len() {
        Seq::<int>::empty()
    } else if directive[end] == '=' {
        seq![end, end + 1]
    } else {
        seq![end] + span_cuts(directive, end + 1)
    }
}

/// Where a directive is cut from the name of a span on: around the name, and
/// around the field after it or before the level.
pub open spec fn span_cuts(directive: Seq<char>, start: int) -> Seq<int> {
    let end = first_of(directive, start, ']', '{');
    if end >= directive.len() {
        Seq::<int>::empty()
    } else if directive[end] == ']' {
        seq![start, end] + level_cuts(directive, end + 1)
    } else {
        seq![start, end] + field_cuts(directive, end + 1)
    }
}

/// Where a directive is cut from a span's field on: around the field.
pub open spec fn field_cuts(directive: Seq<char>, start: int) -> Seq<int> {
    let end = first_of(directive, start, '}', '}');
    if end >= directive.len() {
        Seq::<int>::empty()
    } else {
        seq![start, end]
    }
}

/// Where a directive is cut after a span without fields: before the level, if
/// there is one.
pub open spec fn level_cuts(directive: Seq<char>, place: int) -> Seq<int> {
    if place < directive.len() && directive[place] == '=' {
        seq![place + 1]
    } else {
        Seq::<int>::empty()
    }
}

/// Where the level starts that follows a span with a field, if there is one.
pub open spec fn field_level(directive: Seq<char>) -> Option<int> {
    let end = first_of(directive, 0, '=', '[');
    let name_end = first_of(directive, end + 1, ']', '{');
    let field_end = first_of(directive, name_end + 1, '}', '}');
    if directive.len() > 0 && can_start(directive[0]) && end < directive.len() && directive[end]
        == '[' && name_end < directive.len() && directive[name_end] == '{' && name_end + 1
        < field_end && field_end + 2 < directive.len() && directive[field_end + 1] == ']'
        && directive[field_end + 2] == '=' {
        Some(field_end + 3)
    } else {
        None
    }
}

/// Whether the place of a cut, counted without the white space that a directive
/// starts with, is no place inside a character when counted with that white
/// space.
pub open spec fn fits(directive: Seq<char>, cut: int) -> bool {
    is_boundary(directive, width(unindented(directive).take(cut)))
}

/// Whether all cuts of a directive fit, but for that before the level after a
/// span with a field.
pub open spec fn cuts_fit(directive: Seq<char>) -> bool {
    let inner = unindented(directive);
    forall|i: int| 0 <= i < cuts(inner).len() ==> fits(directive, #[trigger] cuts(inner)[i])
}

/// What stands before the `=` and the level after a span with a field.
pub open spec fn before_level(directive: Seq<char>, place: int) -> Seq<char> {
    directive.take(directive.len() - unindented(directive).len() + place - 1)
}

/// Whether a directive can be checked: all its cuts fit. Before the level after
/// a span with a field it is cut only if the field is not refused.
pub open spec fn is_checkable_directive(directive: Seq<char>) -> bool {
    &&& cuts_fit(directive)
    &&& field_level(unindented(directive)) matches Some(place) ==> fits(directive, place)
        || log_filter_problem(before_level(directive, place)) is Some
}

/// Whether a directive starts at a place: at the front, or after a comma.
pub open spec fn directive_starts(directives: Seq<char>, start: int) -> bool {
    0 <= start <= directives.len() && (start == 0 || directives[start - 1] == ',')
}

/// The directive that starts at a place.
pub open spec fn directive_at(directives: Seq<char>, start: int) -> Seq<char> {
    directives.subrange(start, first_of(directives, start, ',', ','))
}

/// Whether a filter can be checked: each of its directives can, or a directive
/// before it is refused.
pub open spec fn is_checkable(directives: Seq<char>) -> bool {
    forall|start: int| #[trigger]
        directive_starts(directives, start) ==> is_checkable_directive(
            directive_at(directives, start),
        ) || (start > 0 && log_filter_problem(directives.take(start - 1)) is Some)
}

/// Whether a filter is made of bare level names and targets: ASCII letters,
/// digits, `_`, `:` and `-`, between commas.
pub open spec fn is_bare(directives: Seq<char>) -> bool {
    forall|i: int| 0 <= i < directives.len() ==> is_bare_char(#[trigger] directives[i])
}

/// Whether a character may stand in a bare level name or target, or between
/// two of them.
pub open spec fn is_bare_char(c: char) -> bool {
    let code = c as int;
    ||| '0' as int <= code <= '9' as int
    ||| 'a' as int <= code <= 'z' as int
    ||| 'A' as int <= code <= 'Z' as int
    ||| c == '_'
    ||| c == ':'
    ||| c == '-'
    ||| c == ','
}

/// What is wrong with a filter, given how checking it went.
pub open spec fn problem_of(checked: Result<(), String>) -> Option<Seq<char>> {
    match checked {
        Ok(_) => None,
        Err(message) => Some(message@),
    }
}

/// Calls `EnvFilter::try_new` of `tracing_subscriber` and keeps the message of
/// its error. The outcome depends on the directives alone. A filter of bare
/// level names and targets is always accepted, and one that is refused stays so,
/// with the same message, when more directives follow.
///
/// `EnvFilter::try_new` finds the parts of a directive by their places after
/// leading white space was taken off and then cuts them out of the directive
/// with that white space, which panics inside a character of more than one
/// byte. Filters in which it would are left out.
#[verifier::external_body]
pub(crate) fn check_log_filter(directives: &str) -> (checked: Result<(), String>)
    requires
        is_checkable(directives@),
    ensures
        problem_of(checked) == log_filter_problem(directives@),
        is_bare(directives@) ==> checked is Ok,
        forall|more: Seq<char>|
            checked is Err ==> #[trigger] log_filter_problem(directives@ + seq![','] + more)
                == problem_of(checked),
{
    match tracing_subscriber::EnvFilter::try_new(directives) {
        Ok(_) => Ok(()),
        Err(error) => Err(error.to_string()),
    }
}

fn char_size(c: char) -> (size: u128)
    ensures
        size == char_width(c),
{
    let code: u32 = c as u32;
    if code < 0x80 {
        1
    } else if code < 0x800 {
        2
    } else if code < 0x1_0000 {
        3
    } else {
        4
    }
}

/// A longer part of a text takes more bytes, one for each character at least
/// and four at most.
pub proof fn lemma_width(text: Seq<char>, m: int, n: int)
    requires
        0 <= m <= n <= text.len(),
    ensures
        n - m <= width(text.take(n)) - width(text.take(m)) <= 4 * (n - m),
    decreases n,
{
    if m < n {
        lemma_width(text, m, n - 1);
        assert(text.take(n).drop_last() == text.take(n - 1));
        assert(text.take(n).last() == text[n - 1]);
    }
}

/// Tells whether a place lies between characters.
fn boundary(text: &Vec<char>, place: u128) -> (result: bool)
    ensures
        result == is_boundary(text@, place as nat),
{
    let mut n: usize = 0;
    let mut at: u128 = 0;
    while n < text.len() && at < place
        invariant
            n <= text@.len(),
            at == width(text@.take(n as int)),
            forall|k: int| 0 <= k < n ==> width(#[trigger] text@.take(k)) < place,
        decreases text@.len() - n,
    {
        proof {
            lemma_width(text@, 0, n as int);
            assert(text@.take(n + 1).drop_last() == text@.take(n as int));
            assert(text@.take(n + 1).last() == text@[n as int]);
        }
        at = at + char_size(text[n]);
        n = n + 1;
    }
    proof {
        assert forall|k: int| n < k <= text@.len() implies width(#[trigger] text@.take(k)) > at by {
            lemma_width(text@, n as int, k);
        }
    }
    at == place
}

/// Counts the white space that a text starts with.
fn indent(text: &Vec<char>) -> (count: usize)
    ensures
        count <= text@.len(),
        unindented(text@) == text@.skip(count as int),
{
    let mut i: usize = 0;
    assert(text@.skip(0) == text@);
    while i < text.len() && text[i].is_whitespace()
        invariant
            i <= text@.len(),
            unindented(text@) == unindented(text@.skip(i as int)),
        decreases text@.len() - i,
    {
        assert(text@.skip(i as int).first() == text@[i as int]);
        assert(text@.skip(i as int).drop_first() == text@.skip(i + 1));
        i = i + 1;
    }
    i
}

/// Places in a text, as integers.
spec fn places(list: Seq<usize>) -> Seq<int> {
    list.map_values(|place: usize| place as int)
}

fn starter(c: char) -> (result: bool)
    ensures
        result == can_start(c),
{
    c == '[' || c == '-' || c == ':' || c == '_' || c.is_alphanumeric()
}

fn find_cuts(directive: &Vec<char>) -> (list: Vec<usize>)
    ensures
        places(list@) == cuts(directive@),
{
    let mut list: Vec<usize> = Vec::new();
    let end: usize = find_first(directive, 0, '=', '[');
    if end == directive.len() || !starter(directive[0]) {
        assert(places(list@) =~= Seq::<int>::empty());
        return list;
    }
    list.push(end);
    if directive[end] == '=' {
        list.push(end + 1);
        assert(places(list@) =~= seq![end as int, end + 1]);
        return list;
    }
    let mut more = find_span_cuts(directive, end + 1);
    let ghost added = more@;
    list.append(&mut more);
    assert(places(list@) =~= seq![end as int] + places(added));
    list
}

fn find_span_cuts(directive: &Vec<char>, start: usize) -> (list: Vec<usize>)
    requires
        start <= directive@.len(),
    ensures
        places(list@) == span_cuts(directive@, start as int),
{
    let mut list: Vec<usize> = Vec::new();
    let end: usize = find_first(directive, start, ']', '{');
    if end == directive.len() {
        assert(places(list@) =~= Seq::<int>::empty());
        return list;
    }
    list.push(start);
    list.push(end);
    let mut more = if directive[end] == ']' {
        find_level_cuts(directive, end + 1)
    } else {
        find_field_cuts(directive, end + 1)
    };
    let ghost added = more@;
    list.append(&mut more);
    assert(places(list@) =~= seq![start as int, end as int] + places(added));
    list
}

fn find_field_cuts(directive: &Vec<char>, start: usize) -> (list: Vec<usize>)
    requires
        start <= directive@.len(),
    ensures
        places(list@) == field_cuts(directive@, start as int),
{
    let mut list: Vec<usize> = Vec::new();
    let end: usize = find_first(directive, start, '}', '}');
    if end == directive.len() {
        assert(places(list@) =~= Seq::<int>::empty());
        return list;
    }
    list.push(start);
    list.push(end);
    assert(places(list@) =~= seq![start as int, end as int]);
    list
}

fn find_level_cuts(directive: &Vec<char>, place: usize) -> (list: Vec<usize>)
    ensures
        places(list@) == level_cuts(directive@, place as int),
{
    let mut list: Vec<usize> = Vec::new();
    if place < directive.len() && directive[place] == '=' {
        list.push(place + 1);
        assert(places(list@) =~= seq![place + 1]);
    } else {
        assert(places(list@) =~= Seq::<int>::empty());
    }
    list
}

fn find_field_level(directive: &Vec<char>) -> (place: Option<usize>)
    ensures
        field_level(directive@) == match place {
            Some(place) => Some(place as int),
            None => None,
        },
{
    let end: usize = find_first(directive, 0, '=', '[');
    if end == directive.len() || !starter(directive[0]) || directive[end] != '[' {
        return None;
    }
    let name_end: usize = find_first(directive, end + 1, ']', '{');
    if name_end == directive.len() || directive[name_end] != '{' {
        return None;
    }
    let field_end: usize = find_first(directive, name_end + 1, '}', '}');
    if name_end + 1 < field_end && directive.len() - field_end > 2 && directive[field_end + 1]
        == ']' && directive[field_end + 2] == '=' {
        Some(field_end + 3)
    } else {
        None
    }
}

/// Cuts lie within a directive, and before the level after a span with a field.
proof fn lemma_cuts_within(directive: Seq<char>)
    ensures
        forall|i: int|
            0 <= i < cuts(directive).len() ==> 0 <= #[trigger] cuts(directive)[i]
                <= directive.len(),
        field_level(directive) matches Some(place) ==> 4 <= place <= directive.len() && forall|i: int|
            0 <= i < cuts(directive).len() ==> #[trigger] cuts(directive)[i] <= place - 3,
{
    let end = first_of(directive, 0, '=', '[');
    lemma_first_of(directive, 0, '=', '[');
    if end < directive.len() && directive[end] == '[' {
        let name_end = first_of(directive, end + 1, ']', '{');
        lemma_first_of(directive, end + 1, ']', '{');
        if name_end < directive.len() {
            lemma_first_of(directive, name_end + 1, '}', '}');
        }
    }
}

/// How many bytes the first characters of a text take.
fn width_before(text: &Vec<char>, count: usize) -> (total: u128)
    requires
        count <= text@.len(),
    ensures
        total == width(text@.take(count as int)),
{
    let mut n: usize = 0;
    let mut total: u128 = 0;
    while n < count
        invariant
            n <= count <= text@.len(),
            total == width(text@.take(n as int)),
        decreases count - n,
    {
        proof {
            lemma_width(text@, 0, n as int);
            assert(text@.take(n + 1).drop_last() == text@.take(n as int));
            assert(text@.take(n + 1).last() == text@[n as int]);
        }
        total = total + char_size(text[n]);
        n = n + 1;
    }
    total
}

/// The width of a text is that of its two parts.
pub proof fn lemma_width_add(left: Seq<char>, right: Seq<char>)
    ensures
        width(left + right) == width(left) + width(right),
    decreases right.len(),
{
    if right.len() == 0 {
        assert(left + right == left);
    } else {
        assert((left + right).drop_last() == left + right.drop_last());
        assert((left + right).last() == right.last());
        lemma_width_add(left, right.drop_last());
    }
}

/// The first place is the same in a front part of a text that reaches beyond it.
proof fn lemma_first_of_front(text: Seq<char>, from: int, end: int, a: char, b: char)
    requires
        0 <= from,
        first_of(text, from, a, b) < end <= text.len(),
    ensures
        first_of(text.take(end), from, a, b) == first_of(text, from, a, b),
    decreases end - from,
{
    lemma_first_of_bound(text, from, a, b);
    if text[from] != a && text[from] != b {
        lemma_first_of_front(text, from + 1, end, a, b);
    }
}

/// The first place is none before the start.
proof fn lemma_first_of_bound(text: Seq<char>, from: int, a: char, b: char)
    ensures
        first_of(text, from, a, b) >= from || first_of(text, from, a, b) == text.len(),
    decreases text.len() - from,
{
    if from < text.len() && text[from] != a && text[from] != b {
        lemma_first_of_bound(text, from + 1, a, b);
    }
}

/// Without the level after a span with a field, a directive whose cuts fit can
/// be checked.
proof fn lemma_before_level_is_checkable(directive: Seq<char>, place: int)
    requires
        !directive.contains(','),
        cuts_fit(directive),
        field_level(unindented(directive)) == Some(place),
    ensures
        is_checkable(before_level(directive, place)),
{
    let inner = unindented(directive);
    let count = lemma_unindented(directive);
    lemma_cuts_within(inner);
    let size = count + place - 1;
    let front = directive.take(size);
    assert(front == before_level(directive, place));
    lemma_unindented_at(front, count);
    let kept = unindented(front);
    assert(kept == inner.take(place - 1));

    let end = first_of(inner, 0, '=', '[');
    let name_end = first_of(inner, end + 1, ']', '{');
    lemma_first_of(inner, 0, '=', '[');
    lemma_first_of(inner, end + 1, ']', '{');
    lemma_first_of(inner, name_end + 1, '}', '}');
    lemma_first_of_front(inner, 0, place - 1, '=', '[');
    lemma_first_of_front(inner, end + 1, place - 1, ']', '{');
    lemma_first_of_front(inner, name_end + 1, place - 1, '}', '}');
    assert(cuts(kept) == cuts(inner));
    assert(field_level(kept) is None);

    assert forall|i: int| 0 <= i < cuts(kept).len() implies fits(
        front,
        #[trigger] cuts(kept)[i],
    ) by {
        let cut = cuts(inner)[i];
        assert(fits(directive, cut));
        assert(kept.take(cut) == inner.take(cut));
        let n = choose|n: int|
            0 <= n <= directive.len() && #[trigger] width(directive.take(n)) == width(
                inner.take(cut),
            );
        lemma_width(inner, cut, place - 1);
        assert(front == directive.take(count) + inner.take(place - 1));
        lemma_width_add(directive.take(count), inner.take(place - 1));
        if n > size {
            lemma_width(directive, size, n);
        }
        assert(front.take(n) == directive.take(n));
    }

    assert forall|start: int| #[trigger] directive_starts(front, start) implies
        is_checkable_directive(directive_at(front, start)) by {
        if start > 0 {
            assert(directive.contains(directive[start - 1]));
        }
        let last = first_of(front, 0, ',', ',');
        lemma_first_of(front, 0, ',', ',');
        if last < front.len() {
            assert(directive.contains(directive[last]));
        }
        assert(directive_at(front, 0) == front);
    }
}

fn checkable_directive(text: &str) -> (result: bool)
    requires
        !text@.contains(','),
    ensures
        result == is_checkable_directive(text@),
{
    let directive = chars_of(text);
    let start: usize = indent(&directive);
    let inner = piece(&directive, start, directive.len());
    assert(inner@ == unindented(directive@));
    proof {
        lemma_cuts_within(inner@);
    }
    let list = find_cuts(&inner);
    let mut i: usize = 0;
    while i < list.len()
        invariant
            directive@ == text@,
            inner@ == unindented(directive@),
            places(list@) == cuts(inner@),
            forall|k: int|
                0 <= k < cuts(inner@).len() ==> 0 <= #[trigger] cuts(inner@)[k] <= inner@.len(),
            i <= list@.len(),
            forall|k: int| 0 <= k < i ==> fits(directive@, #[trigger] cuts(inner@)[k]),
        decreases list@.len() - i,
    {
        assert(cuts(inner@)[i as int] == list@[i as int]);
        if !boundary(&directive, width_before(&inner, list[i])) {
            assert(!fits(directive@, cuts(inner@)[i as int]));
            return false;
        }
        i = i + 1;
    }
    match find_field_level(&inner) {
        Some(place) => {
            if boundary(&directive, width_before(&inner, place)) {
                return true;
            }
            proof {
                lemma_before_level_is_checkable(directive@, place as int);
            }
            let front = text.substring_char(0, start + (place - 1));
            assert(front@ == before_level(text@, place as int));
            check_log_filter(front).is_err()
        },
        None => true,
    }
}

/// The first place is the same in the part of a text before an occurrence.
proof fn lemma_first_of_take(text: Seq<char>, from: int, end: int, c: char)
    requires
        0 <= from <= end < text.len(),
        text[end] == c,
    ensures
        first_of(text.take(end), from, c, c) == first_of(text, from, c, c),
        first_of(text, from, c, c) <= end,
    decreases end - from,
{
    if from < end && text[from] != c {
        lemma_first_of_take(text, from + 1, end, c);
    }
}

/// The directives before a comma are those of the filter up to there.
proof fn lemma_directives_before(directives: Seq<char>, end: int, start: int)
    requires
        0 <= end < directives.len(),
        directives[end] == ',',
        directive_starts(directives.take(end), start),
    ensures
        directive_starts(directives, start),
        directive_at(directives.take(end), start) == directive_at(directives, start),
{
    let front = directives.take(end);
    lemma_first_of_take(directives, start, end, ',');
    lemma_first_of(directives, start, ',', ',');
    assert(directive_at(front, start) =~= directive_at(directives, start));
}

/// Whether a log filter can be checked. Where a directive cannot, those before
/// it are checked for whether it matters.
pub fn checkable(directives: &str) -> (result: bool)
    ensures
        result == is_checkable(directives@),
{
    let chars = chars_of(directives);
    let ghost all = directives@;
    let mut start: usize = 0;
    loop
        invariant
            chars@ == directives@,
            all == directives@,
            start <= chars@.len(),
            directive_starts(all, start as int),
            forall|s: int|
                s < start && #[trigger] directive_starts(all, s) ==> is_checkable_directive(
                    directive_at(all, s),
                ),
        decreases chars@.len() - start,
    {
        let end: usize = find_first(&chars, start, ',', ',');
        proof {
            lemma_first_of(all, start as int, ',', ',');
        }
        let directive = directives.substring_char(start, end);
        assert(directive@ == directive_at(all, start as int));
        assert forall|i: int| 0 <= i < directive@.len() implies directive@[i] != ',' by {
            assert(directive@[i] == all[start + i]);
        }
        if !checkable_directive(directive) {
            if start == 0 {
                return false;
            }
            let front = directives.substring_char(0, start - 1);
            assert(front@ == all.take(start - 1));
            assert forall|s: int| #[trigger] directive_starts(front@, s) implies
                is_checkable_directive(directive_at(front@, s)) by {
                lemma_directives_before(all, start - 1, s);
            }
            let checked = check_log_filter(front);
            if checked.is_err() {
                proof {
                    assert forall|s: int| s > start && #[trigger] directive_starts(all, s) implies
                        log_filter_problem(all.take(s - 1)) is Some by {
                        let more = all.subrange(start as int, s - 1);
                        assert(all.take(s - 1) == front@ + seq![','] + more);
                    }
                }
                return true;
            }
            return false;
        }
        if end == chars.len() {
            assert forall|s: int| #[trigger] directive_starts(all, s) implies
                is_checkable_directive(directive_at(all, s)) by {
                assert(s > start ==> all[s - 1] != ',');
            }
            return true;
        }
        assert forall|s: int| s < end + 1 && #[trigger] directive_starts(all, s) implies
            is_checkable_directive(directive_at(all, s)) by {
            assert(start < s ==> all[s - 1] != ',');
        }
        start = end + 1;
    }
}

/// Taking off the white space that a text starts with leaves an end of it.
pub proof fn lemma_unindented(text: Seq<char>) -> (count: int)
    ensures
        0 <= count <= text.len(),
        unindented(text) == text.skip(count),
        forall|i: int| 0 <= i < count ==> is_white_space(#[trigger] text[i]),
        count < text.len() ==> !is_white_space(text[count]),
    decreases text.len(),
{
    if text.len() > 0 && is_white_space(text.first()) {
        let rest = text.drop_first();
        let count = lemma_unindented(rest);
        assert(rest.skip(count) == text.skip(count + 1));
        assert forall|i: int| 0 <= i < count + 1 implies is_white_space(#[trigger] text[i]) by {
            assert(i > 0 ==> text[i] == rest[i - 1]);
        }
        count + 1
    } else {
        assert(text.skip(0) == text);
        0
    }
}

/// What is left of a text without the white space that it starts with, given
/// how much of that there is.
pub proof fn lemma_unindented_at(text: Seq<char>, count: int)
    requires
        0 <= count < text.len(),
        forall|i: int| 0 <= i < count ==> is_white_space(#[trigger] text[i]),
        !is_white_space(text[count]),
    ensures
        unindented(text) == text.skip(count),
{
    let found = lemma_unindented(text);
    assert(found == count);
}

/// A filter of bare level names and targets can be checked.
pub proof fn bare_filters_are_checkable(directives: Seq<char>)
    requires
        is_bare(directives),
    ensures
        is_checkable(directives),
{
    assert forall|start: int| #[trigger] directive_starts(directives, start) implies
        is_checkable_directive(directive_at(directives, start)) by {
        lemma_first_of(directives, start, ',', ',');
        let directive = directive_at(directives, start);
        let inner = unindented(directive);
        let count = lemma_unindented(directive);
        let end = first_of(inner, 0, '=', '[');
        lemma_first_of(inner, 0, '=', '[');
        if end < inner.len() {
            assert(inner[end] == directives[start + count + end]);
        }
    }
}

/// A text of one-byte characters is as many bytes wide as it is long.
proof fn lemma_ascii_width(text: Seq<char>)
    requires
        forall|i: int| 0 <= i < text.len() ==> char_width(#[trigger] text[i]) == 1,
    ensures
        width(text) == text.len(),
    decreases text.len(),
{
    if text.len() > 0 {
        lemma_ascii_width(text.drop_last());
    }
}

/// A directive can be checked if it does not start with white space, or if all
/// its characters take one byte.
pub proof fn ordinary_directives_are_checkable(directive: Seq<char>)
    requires
        (directive.len() > 0 ==> !is_white_space(directive[0])) || forall|i: int|
            0 <= i < directive.len() ==> char_width(#[trigger] directive[i]) == 1,
    ensures
        is_checkable_directive(directive),
{
    let inner = unindented(directive);
    lemma_cuts_within(inner);
    assert forall|cut: int| 0 <= cut <= inner.len() implies #[trigger] fits(directive, cut) by {
        let count = lemma_unindented(directive);
        if directive.len() > 0 && !is_white_space(directive[0]) {
            assert(inner == directive);
        } else {
            assert forall|n: int| 0 <= n < cut implies char_width(#[trigger] inner.take(cut)[n])
                == 1 by {
                assert(inner.take(cut)[n] == directive[count + n]);
            }
            lemma_ascii_width(inner.take(cut));
            lemma_ascii_width(directive.take(cut));
        }
        assert(width(directive.take(cut)) == width(inner.take(cut)));
    }
}

} // verus!
