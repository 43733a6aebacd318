//! Numerals in a radix of up to sixteen.

use vstd::prelude::*;
use vstd::arithmetic::div_mod::{
    lemma_div_decreases, lemma_div_pos_is_pos, lemma_fundamental_div_mod, lemma_mod_bound,
};

verus! {

/// The value of a digit; digits above nine are letters of either case.
pub open spec fn digit_value(c: char) -> Option<int> {
    let code = c as int;
    if '0' as int <= code <= '9' as int {
        Some(code - '0' as int)
    } else if 'a' as int <= code <= 'f' as int {
        Some(code - 'a' as int + 10)
    } else if 'A' as int <= code <= 'F' as int {
        Some(code - 'A' as int + 10)
    } else {
        None
    }
}

/// Whether a character is a digit in a radix.
pub open spec fn is_digit(c: char, radix: int) -> bool {
    digit_value(c) matches Some(value) && value < radix
}

/// Whether every character of a text is a digit in a radix.
pub open spec fn all_digits(text: Seq<char>, radix: int) -> bool {
    forall|i: int| 0 <= i < text.len() ==> is_digit(#[trigger] text[i], radix)
}

/// The number that a text of digits stands for.
pub open spec fn number_of(text: Seq<char>, radix: int) -> int
    decreases text.len(),
{
    if text.len() == 0 {
        0
    } else {
        number_of(text.drop_last(), radix) * radix + digit_value(text.last())->0
    }
}

/// The digit with a given value, in lower case.
pub open spec fn digit_char(value: int) -> char {
    if value == 0 {
        '0'
    } else if value == 1 {
        '1'
    } else if value == 2 {
        '2'
    } else if value == 3 {
        '3'
    } else if value == 4 {
        '4'
    } else if value == 5 {
        '5'
    } else if value == 6 {
        '6'
    } else if value == 7 {
        '7'
    } else if value == 8 {
        '8'
    } else if value == 9 {
        '9'
    } else if value == 10 {
        'a'
    } else if value == 11 {
        'b'
    } else if value == 12 {
        'c'
    } else if value == 13 {
        'd'
    } else if value == 14 {
        'e'
    } else {
        'f'
    }
}

/// The shortest text of lower-case digits that stands for a number.
pub open spec fn numeral(n: nat, radix: nat) -> Seq<char>
    recommends
        2 <= radix <= 16,
    decreases n,
{
    if n < radix || radix < 2 {
        seq![digit_char(n as int)]
    } else {
        proof {
            lemma_div_decreases(n as int, radix as int);
            lemma_div_pos_is_pos(n as int, radix as int);
        }
        numeral((n / radix) as nat, radix).push(digit_char((n % radix) as int))
    }
}

/// The value of a digit, if the character is one in the radix.
pub fn read_digit(c: char, radix: u32) -> (value: Option<u32>)
    ensures
        value is Some == is_digit(c, radix as int),
        value matches Some(v) ==> digit_value(c) == Some(v as int),
{
    let code: u32 = c as u32;
    let value: u32 = if 0x30 <= code && code <= 0x39 {
        code - 0x30
    } else if 0x61 <= code && code <= 0x66 {
        code - 0x61 + 10
    } else if 0x41 <= code && code <= 0x46 {
        code - 0x41 + 10
    } else {
        return None;
    };
    if value < radix {
        Some(value)
    } else {
        None
    }
}

/// The digit with a given value.
fn digit_text(value: u32) -> (text: &'static str)
    requires
        value < 16,
    ensures
        text@ == seq![digit_char(value as int)],
{
    proof {
        reveal_strlit("0");
        reveal_strlit("1");
        reveal_strlit("2");
        reveal_strlit("3");
        reveal_strlit("4");
        reveal_strlit("5");
        reveal_strlit("6");
        reveal_strlit("7");
        reveal_strlit("8");
        reveal_strlit("9");
        reveal_strlit("a");
        reveal_strlit("b");
        reveal_strlit("c");
        reveal_strlit("d");
        reveal_strlit("e");
        reveal_strlit("f");
    }
    match value {
        0 => "0",
        1 => "1",
        2 => "2",
        3 => "3",
        4 => "4",
        5 => "5",
        6 => "6",
        7 => "7",
        8 => "8",
        9 => "9",
        10 => "a",
        11 => "b",
        12 => "c",
        13 => "d",
        14 => "e",
        _ => "f",
    }
}

/// The shortest lower-case numeral of a number.
pub fn numeral_text(n: u32, radix: u32) -> (text: String)
    requires
        2 <= radix <= 16,
    ensures
        text@ == numeral(n as nat, radix as nat),
    decreases n,
{
    if n < radix {
        digit_text(n).to_owned()
    } else {
        proof {
            lemma_div_decreases(n as int, radix as int);
            lemma_mod_bound(n as int, radix as int);
        }
        let text = numeral_text(n / radix, radix).concat(digit_text(n % radix));
        assert(text@ == numeral(n as nat, radix as nat));
        text
    }
}

/// The number that a text of at most `limit` digits stands for.
pub fn read_number(text: &Vec<char>, radix: u32, limit: usize) -> (number: Option<u32>)
    requires
        2 <= radix <= 16,
        limit <= 4,
    ensures
        number is Some == (1 <= text@.len() <= limit && all_digits(text@, radix as int)),
        number matches Some(n) ==> n == number_of(text@, radix as int),
{
    if text.len() == 0 || text.len() > limit {
        return None;
    }
    let mut n: u32 = 0;
    let mut i: usize = 0;
    while i < text.len()
        invariant
            2 <= radix <= 16,
            1 <= text@.len() <= 4,
            i <= text@.len(),
            all_digits(text@.take(i as int), radix as int),
            n == number_of(text@.take(i as int), radix as int),
            i == 0 ==> n == 0,
            i == 1 ==> n <= 0xf,
            i == 2 ==> n <= 0xff,
            i == 3 ==> n <= 0xfff,
            i == 4 ==> n <= 0xffff,
        decreases text@.len() - i,
    {
        let ghost before = text@.take(i as int);
        let ghost after = text@.take(i + 1);
        assert(after.drop_last() == before);
        assert(after.last() == text@[i as int]);
        match read_digit(text[i], radix) {
            Some(value) => {
                assert(n * radix <= n * 16) by (nonlinear_arith)
                    requires
                        radix <= 16,
                ;
                n = n * radix + value;
                assert forall|k: int| 0 <= k < after.len() implies is_digit(
                    #[trigger] after[k],
                    radix as int,
                ) by {
                    if k < i {
                        assert(after[k] == before[k]);
                    }
                }
            },
            None => {
                return None;
            },
        }
        i = i + 1;
    }
    assert(text@.take(text@.len() as int) == text@);
    Some(n)
}

/// Every digit that a numeral uses stands for its own value.
pub proof fn lemma_digit_char(value: int)
    requires
        0 <= value < 16,
    ensures
        digit_value(digit_char(value)) == Some(value),
{
}

/// A numeral stands for the number it was written for, and holds digits only.
pub proof fn lemma_numeral(n: nat, radix: nat)
    requires
        2 <= radix <= 16,
    ensures
        numeral(n, radix).len() >= 1,
        all_digits(numeral(n, radix), radix as int),
        number_of(numeral(n, radix), radix as int) == n,
        numeral(n, radix).len() > 1 ==> numeral(n, radix)[0] != '0',
        n > 0 ==> numeral(n, radix)[0] != '0',
    decreases n,
{
    let text = numeral(n, radix);
    if n < radix {
        lemma_digit_char(n as int);
        assert(text.drop_last() == Seq::<char>::empty());
        assert(text.last() == digit_char(n as int));
        reveal_with_fuel(number_of, 2);
    } else {
        lemma_div_decreases(n as int, radix as int);
        lemma_div_pos_is_pos(n as int, radix as int);
        lemma_fundamental_div_mod(n as int, radix as int);
        lemma_mod_bound(n as int, radix as int);
        let quotient = (n / radix) as nat;
        let rest = (n % radix) as int;
        assert(quotient >= 1) by (nonlinear_arith)
            requires
                n == radix * quotient + rest,
                n >= radix,
                rest < radix,
        ;
        lemma_numeral(quotient, radix);
        lemma_digit_char(rest);
        assert(text.drop_last() == numeral(quotient, radix));
        assert(text.last() == digit_char(rest));
        assert(number_of(text, radix as int) == quotient * radix + rest);
        assert(quotient * radix == radix * quotient) by (nonlinear_arith);
        assert forall|i: int| 0 <= i < text.len() implies is_digit(
            #[trigger] text[i],
            radix as int,
        ) by {
            if i < text.len() - 1 {
                assert(text[i] == numeral(quotient, radix)[i]);
            }
        }
        assert(text[0] == numeral(quotient, radix)[0]);
    }
}

/// A number below a power of the radix has a numeral of at most that many
/// digits.
pub proof fn lemma_numeral_len(n: nat, radix: nat)
    requires
        2 <= radix <= 16,
    ensures
        n < radix ==> numeral(n, radix).len() == 1,
        n < radix * radix ==> numeral(n, radix).len() <= 2,
        n < radix * radix * radix ==> numeral(n, radix).len() <= 3,
        n < radix * radix * radix * radix ==> numeral(n, radix).len() <= 4,
{
    reveal_with_fuel(numeral, 5);
    lemma_quotient(n, radix);
    let n1 = (n / radix) as nat;
    lemma_quotient(n1, radix);
    let n2 = (n1 / radix) as nat;
    lemma_quotient(n2, radix);
}

/// Dividing by the radix takes a factor off every bound.
proof fn lemma_quotient(n: nat, radix: nat)
    requires
        2 <= radix <= 16,
    ensures
        n / radix < radix <==> n < radix * radix,
        n / radix < radix * radix <==> n < radix * radix * radix,
        n / radix < radix * radix * radix <==> n < radix * radix * radix * radix,
{
    lemma_fundamental_div_mod(n as int, radix as int);
    lemma_mod_bound(n as int, radix as int);
    let q = (n / radix) as int;
    let r = (n % radix) as int;
    assert forall|bound: int| 0 <= bound implies (q < bound <==> n < #[trigger] (radix * bound)) by {
        assert(q < bound <==> n < radix * bound) by (nonlinear_arith)
            requires
                n == radix * q + r,
                0 <= r < radix,
        ;
    }
    let r2 = (radix * radix) as int;
    let r3 = (radix * radix * radix) as int;
    assert(radix * r2 == radix * radix * radix) by (nonlinear_arith)
        requires
            r2 == radix * radix,
    ;
    assert(radix * r3 == radix * radix * radix * radix) by (nonlinear_arith)
        requires
            r3 == radix * radix * radix,
    ;
    assert(r2 >= 0 && r3 >= 0) by (nonlinear_arith)
        requires
            r2 == radix * radix,
            r3 == radix * radix * radix,
    ;
    assert(q < radix <==> n < radix * radix);
    assert(q < r2 <==> n < radix * r2);
    assert(q < r3 <==> n < radix * r3);
}

/// The digits are those of ASCII: `0` to `9` by their value, then `a` to `f` and
/// `A` to `F` from ten on. No other character is a digit.
pub proof fn digits_are_those_of_ascii(c: char, radix: int)
    ensures
        0x30 <= c as int <= 0x39 ==> digit_value(c) == Some(c as int - 0x30),
        0x61 <= c as int <= 0x66 ==> digit_value(c) == Some(c as int - 0x61 + 10),
        0x41 <= c as int <= 0x46 ==> digit_value(c) == Some(c as int - 0x41 + 10),
        digit_value(c) is Some <==> {
            ||| 0x30 <= c as int <= 0x39
            ||| 0x61 <= c as int <= 0x66
            ||| 0x41 <= c as int <= 0x46
        },
        is_digit(c, radix) <==> digit_value(c) is Some && digit_value(c)->0 < radix,
{
}

/// A digit after a number multiplies the number by the radix and adds its value.
pub proof fn numbers_are_read_digit_by_digit(text: Seq<char>, c: char, radix: int)
    ensures
        number_of(text.push(c), radix) == number_of(text, radix) * radix + digit_value(c)->0,
        number_of(Seq::<char>::empty(), radix) == 0,
{
    assert(text.push(c).drop_last() == text);
}

/// A numeral is written in lower-case digits.
pub proof fn numerals_are_in_lower_case(n: nat, radix: nat, i: int)
    requires
        2 <= radix <= 16,
        0 <= i < numeral(n, radix).len(),
    ensures
        0x30 <= numeral(n, radix)[i] as int <= 0x39 || 0x61 <= numeral(n, radix)[i] as int <= 0x66,
    decreases n,
{
    if n >= radix {
        lemma_div_decreases(n as int, radix as int);
        lemma_div_pos_is_pos(n as int, radix as int);
        let quotient = (n / radix) as nat;
        if i < numeral(quotient, radix).len() {
            numerals_are_in_lower_case(quotient, radix, i);
        }
    }
}

/// Digits stand for no negative number, and for a positive one where the first
/// is not zero.
proof fn lemma_number_sign(text: Seq<char>, radix: int)
    requires
        2 <= radix <= 16,
        all_digits(text, radix),
    ensures
        number_of(text, radix) >= 0,
        text.len() > 0 && text[0] != '0' ==> number_of(text, radix) > 0,
    decreases text.len(),
{
    if text.len() > 0 {
        let front = text.drop_last();
        assert forall|i: int| 0 <= i < front.len() implies is_digit(#[trigger] front[i], radix) by {
            assert(front[i] == text[i]);
        }
        lemma_number_sign(front, radix);
        assert(is_digit(text[text.len() - 1], radix));
        let before = number_of(front, radix);
        assert(before * radix >= before) by (nonlinear_arith)
            requires
                before >= 0,
                radix >= 2,
        ;
        if front.len() > 0 {
            assert(front[0] == text[0]);
        }
    }
}

/// Decimal digits without a leading zero are the numeral of their number.
pub proof fn decimal_numerals_are_unique(text: Seq<char>)
    requires
        text.len() >= 1,
        all_digits(text, 10),
        text.len() > 1 ==> text[0] != '0',
    ensures
        number_of(text, 10) >= 0,
        text == numeral(number_of(text, 10) as nat, 10),
    decreases text.len(),
{
    lemma_number_sign(text, 10);
    let front = text.drop_last();
    let last = text.last();
    assert(is_digit(text[text.len() - 1], 10));
    let value = digit_value(last)->0;
    assert(digit_char(value) == last);
    if text.len() == 1 {
        assert(front == Seq::<char>::empty());
        assert(number_of(front, 10) == 0);
        assert(text == seq![last]);
    } else {
        assert forall|i: int| 0 <= i < front.len() implies is_digit(#[trigger] front[i], 10) by {
            assert(front[i] == text[i]);
        }
        assert(front[0] == text[0]);
        decimal_numerals_are_unique(front);
        lemma_number_sign(front, 10);
        let n = number_of(text, 10) as nat;
        assert(n / 10 == number_of(front, 10) && n % 10 == value);
        assert(text == front.push(last));
    }
}

} // verus!
