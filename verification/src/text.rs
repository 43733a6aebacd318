//! Character sequences: white space, numerals and separators.

use vstd::prelude::*;

verus! {

/// Whether a character has the Unicode `White_Space` property.
pub open spec fn is_white_space(c: char) -> bool {
    let code = c as int;
    ||| 0x09 <= code <= 0x0d
    ||| code == 0x20
    ||| code == 0x85
    ||| code == 0xa0
    ||| code == 0x1680
    ||| 0x2000 <= code <= 0x200a
    ||| code == 0x2028
    ||| code == 0x2029
    ||| code == 0x202f
    ||| code == 0x205f
    ||| code == 0x3000
}

/// Whether a text holds nothing but white space.
pub open spec fn is_blank(text: Seq<char>) -> bool {
    forall|i: int| 0 <= i < text.len() ==> is_white_space(#[trigger] text[i])
}

/// Two texts together hold nothing but white space just where each does; a
/// character on its own does just where it is white space, and so does no
/// character at all.
pub proof fn texts_are_blank_by_their_characters(left: Seq<char>, right: Seq<char>, c: char)
    ensures
        is_blank(left + right) <==> is_blank(left) && is_blank(right),
        is_blank(seq![c]) <==> is_white_space(c),
        is_blank(Seq::<char>::empty()),
{
    let both = left + right;
    if is_blank(both) {
        assert forall|i: int| 0 <= i < left.len() implies is_white_space(#[trigger] left[i]) by {
            assert(both[i] == left[i]);
        }
        assert forall|i: int| 0 <= i < right.len() implies is_white_space(#[trigger] right[i]) by {
            assert(both[left.len() + i] == right[i]);
        }
    }
    assert(seq![c][0] == c);
}

/// `char::is_whitespace` tells whether the character has the Unicode
/// `White_Space` property.
pub assume_specification[ char::is_whitespace ](c: char) -> (white: bool)
    ensures
        white == is_white_space(c),
;

/// The characters of a string, in order.
pub fn chars_of(text: &str) -> (chars: Vec<char>)
    ensures
        chars@ == text@,
{
    let mut chars: Vec<char> = Vec::new();
    for c in it: text.chars()
        invariant
            it.seq() == text@,
            chars@ == text@.take(it.index() as int),
    {
        chars.push(c);
        assert(chars@ == text@.take(it.index() + 1));
    }
    assert(text@.take(text@.len() as int) == text@);
    chars
}

/// Whether two strings hold the same characters.
pub fn same_text(left: &str, right: &str) -> (same: bool)
    ensures
        same == (left@ == right@),
{
    left.to_owned() == right.to_owned()
}

/// Whether a string holds nothing but white space.
pub fn blank(text: &str) -> (result: bool)
    ensures
        result == is_blank(text@),
        result <==> forall|i: int| 0 <= i < text@.len() ==> is_white_space(#[trigger] text@[i]),
{
    let chars = chars_of(text);
    let mut i: usize = 0;
    while i < chars.len()
        invariant
            chars@ == text@,
            i <= chars@.len(),
            forall|k: int| 0 <= k < i ==> is_white_space(#[trigger] text@[k]),
        decreases chars@.len() - i,
    {
        if !chars[i].is_whitespace() {
            return false;
        }
        i = i + 1;
    }
    true
}

/// The characters from one place up to another.
pub fn piece(text: &Vec<char>, from: usize, to: usize) -> (part: Vec<char>)
    requires
        from <= to <= text@.len(),
    ensures
        part@ == text@.subrange(from as int, to as int),
{
    let mut part: Vec<char> = Vec::new();
    let mut i: usize = from;
    while i < to
        invariant
            from <= i <= to <= text@.len(),
            part@ == text@.subrange(from as int, i as int),
        decreases to - i,
    {
        part.push(text[i]);
        i = i + 1;
        assert(part@ == text@.subrange(from as int, i as int));
    }
    part
}

/// The first place from `from` on where one of two characters stands, or the
/// end of the text.
pub open spec fn first_of(text: Seq<char>, from: int, a: char, b: char) -> int
    decreases text.len() - from,
{
    if from >= text.len() {
        text.len() as int
    } else if text[from] == a || text[from] == b {
        from
    } else {
        first_of(text, from + 1, a, b)
    }
}

/// Finds the first place from `from` on where one of two characters stands.
pub fn find_first(text: &Vec<char>, from: usize, a: char, b: char) -> (place: usize)
    requires
        from <= text@.len(),
    ensures
        place == first_of(text@, from as int, a, b),
        from <= place <= text@.len(),
{
    let mut i: usize = from;
    while i < text.len() && text[i] != a && text[i] != b
        invariant
            from <= i <= text@.len(),
            first_of(text@, from as int, a, b) == first_of(text@, i as int, a, b),
        decreases text@.len() - i,
    {
        i = i + 1;
    }
    i
}

/// What the first place means: one of the characters stands there unless it is
/// the end, and none before.
pub proof fn lemma_first_of(text: Seq<char>, from: int, a: char, b: char)
    requires
        0 <= from <= text.len(),
    ensures
        from <= first_of(text, from, a, b) <= text.len(),
        first_of(text, from, a, b) < text.len() ==> text[first_of(text, from, a, b)] == a || text[
            first_of(text, from, a, b)
        ] == b,
        forall|i: int|
            from <= i < first_of(text, from, a, b) ==> #[trigger] text[i] != a && text[i] != b,
    decreases text.len() - from,
{
    if from < text.len() && text[from] != a && text[from] != b {
        lemma_first_of(text, from + 1, a, b);
    }
}

/// The fields of a text between the occurrences of a separator.
pub open spec fn split(text: Seq<char>, separator: char) -> Seq<Seq<char>>
    decreases text.len(),
{
    if text.len() == 0 {
        seq![Seq::<char>::empty()]
    } else {
        let fields = split(text.drop_last(), separator);
        if text.last() == separator {
            fields.push(Seq::<char>::empty())
        } else {
            fields.drop_last().push(fields.last().push(text.last()))
        }
    }
}

/// The contents of a list of texts.
pub open spec fn texts(fields: Seq<Vec<char>>) -> Seq<Seq<char>> {
    fields.map_values(|field: Vec<char>| field@)
}

/// Splits a text at every occurrence of a separator.
pub fn split_at_each(text: &Vec<char>, separator: char) -> (fields: Vec<Vec<char>>)
    ensures
        texts(fields@) == split(text@, separator),
        fields@.len() >= 1,
{
    let mut fields: Vec<Vec<char>> = Vec::new();
    let mut field: Vec<char> = Vec::new();
    let mut i: usize = 0;
    assert(texts(fields@).push(field@) == split(text@.take(0), separator));
    while i < text.len()
        invariant
            i <= text@.len(),
            texts(fields@).push(field@) == split(text@.take(i as int), separator),
        decreases text@.len() - i,
    {
        let ghost before = text@.take(i as int);
        let ghost after = text@.take(i + 1);
        let ghost whole = texts(fields@).push(field@);
        assert(after.drop_last() == before);
        assert(after.last() == text@[i as int]);
        assert(whole.drop_last() == texts(fields@));
        let c: char = text[i];
        if c == separator {
            let ghost done = texts(fields@);
            let ghost last = field@;
            fields.push(field);
            field = Vec::new();
            assert(texts(fields@) == done.push(last));
            assert(texts(fields@).push(field@) == split(after, separator));
        } else {
            field.push(c);
            assert(texts(fields@).push(field@) == split(after, separator));
        }
        i = i + 1;
    }
    assert(text@.take(text@.len() as int) == text@);
    let ghost done = texts(fields@);
    let ghost last = field@;
    fields.push(field);
    assert(texts(fields@) == done.push(last));
    fields
}

/// A text always has at least one field.
pub proof fn lemma_split_nonempty(text: Seq<char>, separator: char)
    ensures
        split(text, separator).len() >= 1,
    decreases text.len(),
{
    if text.len() > 0 {
        lemma_split_nonempty(text.drop_last(), separator);
    }
}

/// A text without the separator is its own only field.
pub proof fn lemma_split_single(text: Seq<char>, separator: char)
    requires
        !text.contains(separator),
    ensures
        split(text, separator) == seq![text],
    decreases text.len(),
{
    if text.len() > 0 {
        let front = text.drop_last();
        assert forall|i: int| 0 <= i < front.len() implies front[i] != separator by {
            assert(text.contains(text[i]));
        }
        lemma_split_single(front, separator);
        assert(text.contains(text.last()));
        assert(split(text, separator) =~= seq![front.push(text.last())]);
        assert(front.push(text.last()) == text);
    } else {
        assert(text == Seq::<char>::empty());
    }
}

/// Around a separator, a text's fields are those of either side.
pub proof fn lemma_split_join(left: Seq<char>, right: Seq<char>, separator: char)
    ensures
        split(left + seq![separator] + right, separator) == split(left, separator) + split(
            right,
            separator,
        ),
    decreases right.len(),
{
    let text = left + seq![separator] + right;
    lemma_split_nonempty(right, separator);
    if right.len() == 0 {
        assert(text.drop_last() == left);
        assert(text.last() == separator);
        assert(split(text, separator) =~= split(left, separator) + split(right, separator));
    } else {
        let front = right.drop_last();
        lemma_split_nonempty(front, separator);
        lemma_split_join(left, front, separator);
        assert(text.drop_last() == left + seq![separator] + front);
        assert(text.last() == right.last());
        assert(split(text, separator) =~= split(left, separator) + split(right, separator));
    }
}

/// Fields with a separator between each two.
pub open spec fn rejoined(fields: Seq<Seq<char>>, separator: char) -> Seq<char>
    decreases fields.len(),
{
    if fields.len() == 0 {
        Seq::<char>::empty()
    } else if fields.len() == 1 {
        fields[0]
    } else {
        rejoined(fields.drop_last(), separator) + seq![separator] + fields.last()
    }
}

/// Putting the separator back between its fields gives back a text, and no field
/// holds the separator.
pub proof fn splitting_loses_nothing(text: Seq<char>, separator: char)
    ensures
        rejoined(split(text, separator), separator) == text,
        forall|i: int|
            0 <= i < split(text, separator).len() ==> !(#[trigger] split(
                text,
                separator,
            )[i]).contains(separator),
    decreases text.len(),
{
    let fields = split(text, separator);
    if text.len() == 0 {
        assert(fields[0] == text);
    } else {
        let front = text.drop_last();
        let before = split(front, separator);
        splitting_loses_nothing(front, separator);
        lemma_split_nonempty(front, separator);
        if text.last() == separator {
            assert(fields.drop_last() == before);
            assert(fields.last() == Seq::<char>::empty());
            assert(rejoined(fields, separator) == front + seq![separator] + fields.last());
            assert(front + seq![separator] + fields.last() == text);
        } else {
            assert(fields.drop_last() == before.drop_last());
            assert(fields.last() == before.last().push(text.last()));
            assert(rejoined(fields, separator) == rejoined(before, separator).push(text.last()));
            assert(front.push(text.last()) == text);
            assert forall|i: int| 0 <= i < fields.len() implies !(#[trigger] fields[i]).contains(
                separator,
            ) by {
                if i == fields.len() - 1 {
                    if fields[i].contains(separator) {
                        let k = choose|k: int|
                            0 <= k < fields[i].len() && fields[i][k] == separator;
                        assert(before[i][k] == separator);
                        assert(before[i].contains(separator));
                    }
                } else {
                    assert(fields[i] == before[i]);
                }
            }
        }
    }
}

} // verus!
