//! Which log filters can be checked.

use vstd::prelude::*;
use vstd::utf8::{
    char_is_scalar, encode_scalar, encode_utf8, encode_utf8_first_scalar, encode_utf8_valid_utf8,
    is_char_boundary, pop_first_scalar,
};
use crate::log_filter::{
    before_level, can_start, char_width, cuts, directive_at, directive_starts, field_level,
    fits, is_boundary, is_checkable, is_checkable_directive, lemma_unindented, lemma_unindented_at, lemma_width,
    lemma_width_add, log_filter_problem, ordinary_directives_are_checkable, unindented, width,
};
use crate::text::{first_of, is_white_space, lemma_first_of};

verus! {

/// A text is as wide as its UTF-8 form is long.
pub proof fn widths_are_those_of_utf8(text: Seq<char>)
    ensures
        width(text) == encode_utf8(text).len(),
    decreases text.len(),
{
    if text.len() > 0 {
        let first = seq![text[0]];
        let rest = text.drop_first();
        assert(text == first + rest);
        lemma_width_add(first, rest);
        lemma_width_of_char(text[0]);
        widths_are_those_of_utf8(rest);
    }
}

/// A character is as wide as its UTF-8 form is long.
proof fn lemma_width_of_char(c: char)
    ensures
        width(seq![c]) == char_width(c),
        char_width(c) == encode_scalar(c as u32).len(),
{
    char_is_scalar(c);
    assert(seq![c].drop_last() == Seq::<char>::empty());
    assert(seq![c].last() == c);
    reveal_with_fuel(width, 2);
}

/// The places between characters are those of the UTF-8 form.
pub proof fn boundaries_are_those_of_utf8(text: Seq<char>, place: int)
    requires
        place >= 0,
    ensures
        is_boundary(text, place as nat) <==> is_char_boundary(encode_utf8(text), place),
    decreases text.len(),
{
    encode_utf8_valid_utf8(text);
    widths_are_those_of_utf8(text);
    assert(text.take(0) == Seq::<char>::empty());
    assert(width(text.take(0)) == 0);
    if text.len() == 0 {
        assert(forall|n: int| 0 <= n <= text.len() ==> #[trigger] width(text.take(n)) == 0);
    } else if place > 0 {
        let bytes = encode_utf8(text);
        let rest = text.drop_first();
        let size = char_width(text[0]) as int;
        lemma_width_of_char(text[0]);
        encode_utf8_first_scalar(text);
        assert(pop_first_scalar(bytes) =~= encode_utf8(rest));
        assert forall|n: int| 1 <= n <= text.len() implies width(#[trigger] text.take(n)) == size
            + width(rest.take(n - 1)) by {
            assert(text.take(n) == seq![text[0]] + rest.take(n - 1));
            lemma_width_add(seq![text[0]], rest.take(n - 1));
        }
        if place >= size {
            boundaries_are_those_of_utf8(rest, place - size);
            if is_boundary(text, place as nat) {
                let n = choose|n: int|
                    0 <= n <= text.len() && #[trigger] width(text.take(n)) == place as nat;
                assert(width(rest.take(n - 1)) == (place - size) as nat);
            }
            if is_boundary(rest, (place - size) as nat) {
                let n = choose|n: int|
                    0 <= n <= rest.len() && #[trigger] width(rest.take(n)) == (place
                        - size) as nat;
                assert(width(text.take(n + 1)) == place as nat);
            }
        }
        if place <= bytes.len() {
            assert(is_char_boundary(bytes, place) == is_char_boundary(
                pop_first_scalar(bytes),
                place - size,
            ));
            if place < size {
                encode_utf8_valid_utf8(rest);
            }
        } else {
            assert forall|n: int| 0 <= n <= text.len() implies #[trigger] width(text.take(n))
                < place by {
                lemma_width(text, n, text.len() as int);
                assert(text.take(text.len() as int) == text);
            }
        }
    }
}

/// A filter can be checked if no directive of it starts with white space, or if
/// all its characters take one byte.
pub proof fn ordinary_filters_are_checkable(directives: Seq<char>)
    requires
        (forall|i: int|
            #![trigger directives[i]]
            0 <= i < directives.len() && is_white_space(directives[i]) ==> i > 0 && directives[i
                - 1] != ',') || (forall|i: int|
            0 <= i < directives.len() ==> (#[trigger] directives[i] as int) < 0x80),
    ensures
        is_checkable(directives),
{
    assert forall|start: int| #[trigger] directive_starts(directives, start) implies
        is_checkable_directive(directive_at(directives, start)) by {
        lemma_first_of(directives, start, ',', ',');
        let directive = directive_at(directives, start);
        assert forall|i: int| 0 <= i < directive.len() implies #[trigger] directive[i]
            == directives[start + i] by {}
        ordinary_directives_are_checkable(directive);
    }
}

/// A directive without a `=` or `[` can be checked.
pub proof fn directives_without_parts_are_checkable(directive: Seq<char>)
    requires
        !directive.contains('='),
        !directive.contains('['),
    ensures
        is_checkable_directive(directive),
{
    let inner = unindented(directive);
    let count = lemma_unindented(directive);
    lemma_first_of(inner, 0, '=', '[');
    let end = first_of(inner, 0, '=', '[');
    if end < inner.len() {
        assert(directive[count + end] == inner[end]);
    }
}

/// A directive that starts, after white space, with a character that no
/// directive can start with is checkable: it is refused before any cut.
pub proof fn directives_that_cannot_start_are_checkable(indent: Seq<char>, rest: Seq<char>)
    requires
        forall|i: int| 0 <= i < indent.len() ==> is_white_space(#[trigger] indent[i]),
        rest.len() > 0,
        !is_white_space(rest[0]),
        !can_start(rest[0]),
    ensures
        is_checkable_directive(indent + rest),
{
    lemma_indented(indent, rest);
}

/// What is left of an indented text.
proof fn lemma_indented(indent: Seq<char>, rest: Seq<char>)
    requires
        forall|i: int| 0 <= i < indent.len() ==> is_white_space(#[trigger] indent[i]),
        rest.len() > 0,
        !is_white_space(rest[0]),
    ensures
        unindented(indent + rest) == rest,
{
    let text = indent + rest;
    assert forall|i: int| 0 <= i < indent.len() implies is_white_space(#[trigger] text[i]) by {
        assert(text[i] == indent[i]);
    }
    lemma_unindented_at(text, indent.len() as int);
    assert(text.skip(indent.len() as int) == rest);
}

/// A directive of a target, a `=` and a level is cut before and after the `=`.
/// With white space in front it can be checked just where neither place, counted
/// in bytes without that white space, is one inside a character.
pub proof fn targets_with_a_level_are_cut_around_the_sign(
    indent: Seq<char>,
    target: Seq<char>,
    level: Seq<char>,
)
    requires
        forall|i: int| 0 <= i < indent.len() ==> is_white_space(#[trigger] indent[i]),
        target.len() > 0,
        !is_white_space(target[0]),
        can_start(target[0]),
        !target.contains('='),
        !target.contains('['),
    ensures
        is_checkable_directive(indent + (target + seq!['='] + level)) <==> {
            let bytes = encode_utf8(indent + (target + seq!['='] + level));
            let end = encode_utf8(target).len() as int;
            is_char_boundary(bytes, end) && is_char_boundary(bytes, end + 1)
        },
{
    let inner = target + seq!['='] + level;
    let directive = indent + inner;
    assert(inner[0] == target[0]);
    lemma_indented(indent, inner);
    lemma_first_of(inner, 0, '=', '[');
    let n = target.len() as int;
    assert(inner[n] == '=');
    let end = first_of(inner, 0, '=', '[');
    if end < n {
        assert(target.contains(target[end]));
        assert(inner[end] == target[end]);
    }
    assert(end == n);
    assert(cuts(inner) == seq![n, n + 1]);
    assert(field_level(inner) is None);
    assert(inner.take(n) == target);
    assert(inner.take(n + 1) == target + seq!['=']);
    lemma_width_add(target, seq!['=']);
    lemma_width_of_char('=');
    widths_are_those_of_utf8(target);
    boundaries_are_those_of_utf8(directive, width(target) as int);
    boundaries_are_those_of_utf8(directive, width(target) as int + 1);
    assert(fits(directive, cuts(inner)[0]) == is_boundary(directive, width(target)));
    assert(fits(directive, cuts(inner)[1]) == is_boundary(directive, width(target) + 1));
    assert(is_checkable_directive(directive) <==> fits(directive, cuts(inner)[0]) && fits(
        directive,
        cuts(inner)[1],
    ));
}

/// The first of two characters stands where one of them does and none before.
proof fn lemma_first_of_at(text: Seq<char>, from: int, place: int, a: char, b: char)
    requires
        0 <= from <= place < text.len(),
        text[place] == a || text[place] == b,
        forall|i: int| from <= i < place ==> #[trigger] text[i] != a && text[i] != b,
    ensures
        first_of(text, from, a, b) == place,
{
    lemma_first_of(text, from, a, b);
    let found = first_of(text, from, a, b);
    if found < place {
        assert(text[found] != a && text[found] != b);
    } else if place < found {
        assert(text[place] != a && text[place] != b);
    }
}

/// Whether a place, counted in bytes from the first character that is not white
/// space, is one between characters of the directive with its white space.
pub open spec fn lands(indent: Seq<char>, rest: Seq<char>, place: int) -> bool {
    is_char_boundary(encode_utf8(indent + rest), place)
}

/// Whether a text is white space, and another goes on with something else that a
/// directive can start with.
pub open spec fn is_start(indent: Seq<char>, rest: Seq<char>) -> bool {
    &&& forall|i: int| 0 <= i < indent.len() ==> is_white_space(#[trigger] indent[i])
    &&& rest.len() > 0
    &&& !is_white_space(rest[0])
    &&& can_start(rest[0])
}

/// Where a cut lands, by the widths of what stands before it.
proof fn lemma_lands(indent: Seq<char>, rest: Seq<char>, cut: int)
    requires
        is_start(indent, rest),
        0 <= cut <= rest.len(),
    ensures
        fits(indent + rest, cut) <==> lands(indent, rest, encode_utf8(rest.take(cut)).len() as int),
{
    lemma_indented(indent, rest);
    widths_are_those_of_utf8(rest.take(cut));
    boundaries_are_those_of_utf8(indent + rest, width(rest.take(cut)) as int);
}

/// A directive of a target, a span in brackets, a `=` and a level is cut before
/// and after the `[`, before the `]`, and before the level. It can be checked
/// just where all four places land between characters.
pub proof fn spans_with_a_level_are_cut_around_their_names(
    indent: Seq<char>,
    target: Seq<char>,
    name: Seq<char>,
    level: Seq<char>,
)
    requires
        is_start(indent, target + seq!['['] + name + seq![']', '='] + level),
        !target.contains('='),
        !target.contains('['),
        !name.contains(']'),
        !name.contains('{'),
    ensures
        ({
            let rest = target + seq!['['] + name + seq![']', '='] + level;
            is_checkable_directive(indent + rest) <==> {
                &&& lands(indent, rest, encode_utf8(target).len() as int)
                &&& lands(indent, rest, encode_utf8(target + seq!['[']).len() as int)
                &&& lands(indent, rest, encode_utf8(target + seq!['['] + name).len() as int)
                &&& lands(
                    indent,
                    rest,
                    encode_utf8(target + seq!['['] + name + seq![']', '=']).len() as int,
                )
            }
        }),
{
    let rest = target + seq!['['] + name + seq![']', '='] + level;
    let t = target.len() as int;
    let n = t + 1 + name.len();
    lemma_indented(indent, rest);
    assert forall|i: int| 0 <= i < t implies #[trigger] rest[i] != '=' && rest[i] != '[' by {
        assert(target.contains(target[i]) && rest[i] == target[i]);
    }
    assert forall|i: int| t + 1 <= i < n implies #[trigger] rest[i] != ']' && rest[i] != '{' by {
        assert(name.contains(name[i - t - 1]) && rest[i] == name[i - t - 1]);
    }
    lemma_first_of_at(rest, 0, t, '=', '[');
    lemma_first_of_at(rest, t + 1, n, ']', '{');
    assert(cuts(rest) =~= seq![t, t + 1, n, n + 2]);
    assert(field_level(rest) is None);
    assert(rest.take(t) == target);
    assert(rest.take(t + 1) == target + seq!['[']);
    assert(rest.take(n) == target + seq!['['] + name);
    assert(rest.take(n + 2) == target + seq!['['] + name + seq![']', '=']);
    lemma_lands(indent, rest, t);
    lemma_lands(indent, rest, t + 1);
    lemma_lands(indent, rest, n);
    lemma_lands(indent, rest, n + 2);
    let directive = indent + rest;
    assert(fits(directive, cuts(rest)[0]) == fits(directive, t));
    assert(fits(directive, cuts(rest)[1]) == fits(directive, t + 1));
    assert(fits(directive, cuts(rest)[2]) == fits(directive, n));
    assert(fits(directive, cuts(rest)[3]) == fits(directive, n + 2));
}

/// A directive of a target and a span with a field is cut before and after the
/// `[`, before and after the `{`, and before the `}`. A level after it is cut off
/// too, unless the directive without it is refused. It can be checked just where
/// all those places land between characters.
pub proof fn spans_with_a_field_are_cut_around_it(
    indent: Seq<char>,
    target: Seq<char>,
    name: Seq<char>,
    field: Seq<char>,
    level: Seq<char>,
)
    requires
        is_start(
            indent,
            target + seq!['['] + name + seq!['{'] + field + seq!['}', ']'] + seq!['='] + level,
        ),
        !target.contains('='),
        !target.contains('['),
        !name.contains(']'),
        !name.contains('{'),
        !field.contains('}'),
        field.len() > 0,
    ensures
        ({
            let shorter = target + seq!['['] + name + seq!['{'] + field + seq!['}', ']'];
            let rest = shorter + seq!['='] + level;
            is_checkable_directive(indent + rest) <==> {
                &&& lands(indent, rest, encode_utf8(target).len() as int)
                &&& lands(indent, rest, encode_utf8(target + seq!['[']).len() as int)
                &&& lands(indent, rest, encode_utf8(target + seq!['['] + name).len() as int)
                &&& lands(
                    indent,
                    rest,
                    encode_utf8(target + seq!['['] + name + seq!['{']).len() as int,
                )
                &&& lands(
                    indent,
                    rest,
                    encode_utf8(target + seq!['['] + name + seq!['{'] + field).len() as int,
                )
                &&& lands(indent, rest, encode_utf8(shorter + seq!['=']).len() as int)
                    || log_filter_problem(indent + shorter) is Some
            }
        }),
{
    let shorter = target + seq!['['] + name + seq!['{'] + field + seq!['}', ']'];
    let rest = shorter + seq!['='] + level;
    let t = target.len() as int;
    let n = t + 1 + name.len();
    let f = n + 1 + field.len();
    lemma_indented(indent, rest);
    assert forall|i: int| 0 <= i < t implies #[trigger] rest[i] != '=' && rest[i] != '[' by {
        assert(target.contains(target[i]) && rest[i] == target[i]);
    }
    assert forall|i: int| t + 1 <= i < n implies #[trigger] rest[i] != ']' && rest[i] != '{' by {
        assert(name.contains(name[i - t - 1]) && rest[i] == name[i - t - 1]);
    }
    assert forall|i: int| n + 1 <= i < f implies #[trigger] rest[i] != '}' by {
        assert(field.contains(field[i - n - 1]) && rest[i] == field[i - n - 1]);
    }
    lemma_first_of_at(rest, 0, t, '=', '[');
    lemma_first_of_at(rest, t + 1, n, ']', '{');
    lemma_first_of_at(rest, n + 1, f, '}', '}');
    assert(cuts(rest) =~= seq![t, t + 1, n, n + 1, f]);
    assert(field_level(rest) == Some(f + 3));
    assert(rest.take(t) == target);
    assert(rest.take(t + 1) == target + seq!['[']);
    assert(rest.take(n) == target + seq!['['] + name);
    assert(rest.take(n + 1) == target + seq!['['] + name + seq!['{']);
    assert(rest.take(f) == target + seq!['['] + name + seq!['{'] + field);
    assert(rest.take(f + 3) == shorter + seq!['=']);
    lemma_lands(indent, rest, t);
    lemma_lands(indent, rest, t + 1);
    lemma_lands(indent, rest, n);
    lemma_lands(indent, rest, n + 1);
    lemma_lands(indent, rest, f);
    lemma_lands(indent, rest, f + 3);
    let directive = indent + rest;
    assert(before_level(directive, f + 3) == indent + shorter);
    assert(fits(directive, cuts(rest)[0]) == fits(directive, t));
    assert(fits(directive, cuts(rest)[1]) == fits(directive, t + 1));
    assert(fits(directive, cuts(rest)[2]) == fits(directive, n));
    assert(fits(directive, cuts(rest)[3]) == fits(directive, n + 1));
    assert(fits(directive, cuts(rest)[4]) == fits(directive, f));
}

/// A directive can start with a letter or digit of any script, and with four
/// other characters.
pub proof fn what_directives_start_with(c: char)
    ensures
        can_start(c) <==> crate::log_filter::is_alphanumeric(c) || c == '[' || c == '-' || c == ':'
            || c == '_',
{
}

/// In a filter that can be checked, a directive that cannot comes after one that
/// is refused.
pub proof fn refused_directives_hide_later_ones(directives: Seq<char>, start: int)
    requires
        directive_starts(directives, start),
        !is_checkable_directive(directive_at(directives, start)),
        is_checkable(directives),
    ensures
        start > 0,
        log_filter_problem(directives.take(start - 1)) is Some,
{
}

} // verus!
