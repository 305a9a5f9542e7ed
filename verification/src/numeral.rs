//! Numbers as text: how a number is written in decimal and in hexadecimal,
//! and how a run of digits is read back.

use vstd::prelude::*;
use vstd::string::StringExecFns;

verus! {

/// The character that stands for the digit `digit`, which is below 16:
/// `0` to `9`, then `a` to `f`.
pub open spec fn digit_char(digit: int) -> char {
    if digit == 0 {
        '0'
    } else if digit == 1 {
        '1'
    } else if digit == 2 {
        '2'
    } else if digit == 3 {
        '3'
    } else if digit == 4 {
        '4'
    } else if digit == 5 {
        '5'
    } else if digit == 6 {
        '6'
    } else if digit == 7 {
        '7'
    } else if digit == 8 {
        '8'
    } else if digit == 9 {
        '9'
    } else if digit == 10 {
        'a'
    } else if digit == 11 {
        'b'
    } else if digit == 12 {
        'c'
    } else if digit == 13 {
        'd'
    } else if digit == 14 {
        'e'
    } else {
        'f'
    }
}

/// The number `value` in hexadecimal, in lower case, if `hex`, and else in
/// decimal, with no digit more than it needs.
pub open spec fn numeral_text(value: nat, hex: bool) -> Seq<char>
    decreases value,
{
    if hex {
        if value < 16 {
            seq![digit_char(value as int)]
        } else {
            numeral_text(value / 16, hex).push(digit_char((value % 16) as int))
        }
    } else {
        if value < 10 {
            seq![digit_char(value as int)]
        } else {
            numeral_text(value / 10, hex).push(digit_char((value % 10) as int))
        }
    }
}

/// The number `value` in decimal.
pub open spec fn decimal_text(value: nat) -> Seq<char> {
    numeral_text(value, false)
}

/// The number `value` in hexadecimal, in lower case.
pub open spec fn hex_text(value: nat) -> Seq<char> {
    numeral_text(value, true)
}

/// What the character `c` is worth as a digit: `0` to `9` in decimal, and in
/// hexadecimal also `a` to `f` in either case.
pub open spec fn digit_value(c: char, hex: bool) -> Option<int> {
    if '0' <= c && c <= '9' {
        Some(c as int - '0' as int)
    } else if hex && 'a' <= c && c <= 'f' {
        Some(c as int - 'a' as int + 10)
    } else if hex && 'A' <= c && c <= 'F' {
        Some(c as int - 'A' as int + 10)
    } else {
        None
    }
}

/// Where the run of digits that begins at `from` ends.
pub open spec fn digits_end(text: Seq<char>, from: int, hex: bool) -> int
    decreases text.len() - from,
{
    if 0 <= from < text.len() && digit_value(text[from], hex) is Some {
        digits_end(text, from + 1, hex)
    } else {
        from
    }
}

/// The number that the digits `digits` stand for.
pub open spec fn digits_value(digits: Seq<char>, hex: bool) -> int
    decreases digits.len(),
{
    if digits.len() == 0 {
        0
    } else {
        let front = digits_value(digits.drop_last(), hex);
        let unit = digit_value(digits.last(), hex).unwrap_or(0);
        if hex {
            front * 16 + unit
        } else {
            front * 10 + unit
        }
    }
}

/// The number written in `text` at `from`, and where it ends. The number is
/// the whole run of digits there, which has one digit at least and
/// `max_digits` at most, and which begins with `0` only if `zero_prefix`
/// allows it or if it is `0` alone.
pub open spec fn number_at(
    text: Seq<char>,
    from: int,
    hex: bool,
    max_digits: int,
    zero_prefix: bool,
) -> Option<(int, int)> {
    let end = digits_end(text, from, hex);
    let digits = text.subrange(from, end);
    if digits.len() < 1 || digits.len() > max_digits {
        None
    } else if !zero_prefix && digits.len() > 1 && digits[0] == '0' {
        None
    } else {
        Some((digits_value(digits, hex), end))
    }
}

/// The digit `digit` as a text of one character.
pub fn digit_str(digit: u16) -> (text: &'static str)
    requires
        digit < 16,
    ensures
        text@ == seq![digit_char(digit as int)],
{
    proof {
        reveal_strlit("0");
        reveal_strlit("1");
        reveal_strlit("2");
        reveal_strlit("3");
        reveal_strlit("4");
        reveal_strlit("5");
        reveal_strlit("6");
        reveal_strlit("7");
        reveal_strlit("8");
        reveal_strlit("9");
        reveal_strlit("a");
        reveal_strlit("b");
        reveal_strlit("c");
        reveal_strlit("d");
        reveal_strlit("e");
        reveal_strlit("f");
    }
    let text = match digit {
        0 => "0",
        1 => "1",
        2 => "2",
        3 => "3",
        4 => "4",
        5 => "5",
        6 => "6",
        7 => "7",
        8 => "8",
        9 => "9",
        10 => "a",
        11 => "b",
        12 => "c",
        13 => "d",
        14 => "e",
        _ => "f",
    };
    assert(text@ =~= seq![digit_char(digit as int)]);
    text
}

/// Appends to `out` the number `value`, in hexadecimal if `hex` and else in
/// decimal.
pub fn append_numeral(out: &mut String, value: u16, hex: bool)
    ensures
        final(out)@ == old(out)@ + numeral_text(value as nat, hex),
    decreases value,
{
    let radix: u16 = if hex {
        16
    } else {
        10
    };
    if value < radix {
        out.append(digit_str(value));
    } else {
        append_numeral(out, value / radix, hex);
        out.append(digit_str(value % radix));
        assert(out@ =~= old(out)@ + numeral_text(value as nat, hex));
    }
}

/// Appends to `out` the number `value` in decimal.
pub fn append_decimal(out: &mut String, value: u16)
    ensures
        final(out)@ == old(out)@ + decimal_text(value as nat),
{
    append_numeral(out, value, false)
}

/// Appends to `out` the number `value` in hexadecimal.
pub fn append_hex(out: &mut String, value: u16)
    ensures
        final(out)@ == old(out)@ + hex_text(value as nat),
{
    append_numeral(out, value, true)
}

/// Reads the digit that `c` stands for.
pub fn read_digit(c: char, hex: bool) -> (digit: Option<u32>)
    ensures
        digit is Some <==> digit_value(c, hex) is Some,
        digit matches Some(value) ==> digit_value(c, hex) == Some(value as int) && value < 16,
{
    if c >= '0' && c <= '9' {
        Some(c as u32 - '0' as u32)
    } else if hex && c >= 'a' && c <= 'f' {
        Some(c as u32 - 'a' as u32 + 10)
    } else if hex && c >= 'A' && c <= 'F' {
        Some(c as u32 - 'A' as u32 + 10)
    } else {
        None
    }
}

/// Reads the number written in `text` at `from`, and says where it ends.
pub fn read_number(
    text: &Vec<char>,
    from: usize,
    hex: bool,
    max_digits: usize,
    zero_prefix: bool,
) -> (number: Option<(u32, usize)>)
    requires
        from <= text.len(),
        max_digits <= 4,
    ensures
        match number {
            Some((value, end)) => number_at(
                text@,
                from as int,
                hex,
                max_digits as int,
                zero_prefix,
            ) == Some((value as int, end as int)) && from < end <= text.len() && value < 0x10000,
            None => number_at(text@, from as int, hex, max_digits as int, zero_prefix) is None,
        },
{
    let mut value: u32 = 0;
    let mut at: usize = from;
    while at < text.len()
        invariant
            from <= at <= text.len(),
            at - from <= max_digits <= 4,
            forall|k: int| from <= k < at ==> digit_value(text@[k], hex) is Some,
            value == digits_value(text@.subrange(from as int, at as int), hex),
            at - from == 0 ==> value == 0,
            at - from <= 1 ==> value < 0x10,
            at - from <= 2 ==> value < 0x100,
            at - from <= 3 ==> value < 0x1000,
            value < 0x10000,
        ensures
            at == text.len() || digit_value(text@[at as int], hex) is None,
        decreases text.len() - at,
    {
        match read_digit(text[at], hex) {
            None => {
                break ;
            },
            Some(digit) => {
                if at - from == max_digits {
                    proof {
                        lemma_digits_end_from_within(text@, from as int, at + 1, hex);
                    }
                    return None;
                }
                proof {
                    let longer = text@.subrange(from as int, at + 1);
                    assert(longer.drop_last() =~= text@.subrange(from as int, at as int));
                }
                value = if hex {
                    value * 16 + digit
                } else {
                    value * 10 + digit
                };
                at += 1;
            },
        }
    }
    proof {
        lemma_digits_end_from_within(text@, from as int, at as int, hex);
        assert(digits_end(text@, at as int, hex) == at);
    }
    if at == from {
        None
    } else if !zero_prefix && at - from > 1 && text[from] == '0' {
        None
    } else {
        Some((value, at))
    }
}

/// A run of digits ends where the run that begins later within it ends.
pub proof fn lemma_digits_end_from_within(text: Seq<char>, from: int, within: int, hex: bool)
    requires
        0 <= from <= within <= text.len(),
        forall|k: int| from <= k < within ==> digit_value(text[k], hex) is Some,
    ensures
        digits_end(text, from, hex) == digits_end(text, within, hex),
        within <= digits_end(text, within, hex) <= text.len(),
    decreases text.len() - from,
{
    if from < within {
        lemma_digits_end_from_within(text, from + 1, within, hex);
    } else {
        lemma_digits_end_is_within(text, within, hex);
    }
}

/// A run of digits ends within the text.
pub proof fn lemma_digits_end_is_within(text: Seq<char>, from: int, hex: bool)
    requires
        0 <= from <= text.len(),
    ensures
        from <= digits_end(text, from, hex) <= text.len(),
        forall|k: int| from <= k < digits_end(text, from, hex) ==> digit_value(text[k], hex) is Some,
        digits_end(text, from, hex) < text.len() ==> digit_value(
            text[digits_end(text, from, hex)],
            hex,
        ) is None,
    decreases text.len() - from,
{
    if from < text.len() && digit_value(text[from], hex) is Some {
        lemma_digits_end_is_within(text, from + 1, hex);
    }
}

/// The run of digits at `from` ends after `len` digits, where something else
/// than a digit follows them or the text ends.
pub proof fn lemma_digits_end_after_run(text: Seq<char>, from: int, len: int, hex: bool)
    requires
        0 <= from,
        0 <= len,
        from + len <= text.len(),
        forall|k: int| from <= k < from + len ==> digit_value(text[k], hex) is Some,
        from + len == text.len() || digit_value(text[from + len], hex) is None,
    ensures
        digits_end(text, from, hex) == from + len,
{
    lemma_digits_end_from_within(text, from, from + len, hex);
}

/// A numeral is made of digits of its notation, begins with `0` only if it is
/// `0` alone, and stands for its number.
pub proof fn lemma_numeral_text_is_canonical(value: nat, hex: bool)
    ensures
        numeral_text(value, hex).len() >= 1,
        forall|k: int|
            0 <= k < numeral_text(value, hex).len() ==> digit_value(
                #[trigger] numeral_text(value, hex)[k],
                hex,
            ) is Some,
        digits_value(numeral_text(value, hex), hex) == value,
        value > 0 ==> numeral_text(value, hex)[0] != '0',
        numeral_text(value, hex).len() > 1 ==> numeral_text(value, hex)[0] != '0',
    decreases value,
{
    let text = numeral_text(value, hex);
    if hex && value >= 16 {
        let front = numeral_text(value / 16, hex);
        lemma_numeral_text_is_canonical(value / 16, hex);
        assert(text.drop_last() =~= front);
        assert(text[0] == front[0]);
    } else if !hex && value >= 10 {
        let front = numeral_text(value / 10, hex);
        lemma_numeral_text_is_canonical(value / 10, hex);
        assert(text.drop_last() =~= front);
        assert(text[0] == front[0]);
    } else {
        assert(text.drop_last() =~= Seq::<char>::empty());
        assert(digits_value(text.drop_last(), hex) == 0);
    }
}

/// How long a numeral is at most: as long as its number needs.
pub proof fn lemma_numeral_text_len(value: nat, hex: bool)
    ensures
        hex && value < 0x10 ==> numeral_text(value, hex).len() == 1,
        hex && value < 0x100 ==> numeral_text(value, hex).len() <= 2,
        hex && value < 0x1000 ==> numeral_text(value, hex).len() <= 3,
        hex && value < 0x10000 ==> numeral_text(value, hex).len() <= 4,
        !hex && value < 10 ==> numeral_text(value, hex).len() == 1,
        !hex && value < 100 ==> numeral_text(value, hex).len() <= 2,
        !hex && value < 1000 ==> numeral_text(value, hex).len() <= 3,
    decreases value,
{
    if hex && value >= 16 {
        lemma_numeral_text_len(value / 16, hex);
    } else if !hex && value >= 10 {
        lemma_numeral_text_len(value / 10, hex);
    }
}

/// Decimal digits that begin with `0` only if they are `0` alone are the
/// numeral of the number that they stand for.
pub proof fn lemma_decimal_digits_are_numeral(digits: Seq<char>)
    requires
        digits.len() >= 1,
        forall|k: int| 0 <= k < digits.len() ==> digit_value(#[trigger] digits[k], false) is Some,
        digits.len() > 1 ==> digits[0] != '0',
    ensures
        digits_value(digits, false) >= 0,
        digits.len() > 1 ==> digits_value(digits, false) >= 10,
        decimal_text(digits_value(digits, false) as nat) == digits,
    decreases digits.len(),
{
    let front = digits.drop_last();
    let unit = digit_value(digits.last(), false).unwrap();
    assert(digit_char(unit) == digits.last());
    if digits.len() == 1 {
        assert(digits_value(front, false) == 0);
        assert(decimal_text(unit as nat) =~= digits);
    } else {
        assert(front[0] == digits[0]);
        assert forall|k: int| 0 <= k < front.len() implies digit_value(
            #[trigger] front[k],
            false,
        ) is Some by {
            assert(front[k] == digits[k]);
        }
        if front.len() > 1 {
            lemma_decimal_digits_are_numeral(front);
        } else {
            lemma_decimal_digits_are_numeral(front);
            assert(front =~= seq![front[0]]);
            assert(digits_value(front.drop_last(), false) == 0);
            assert(digits_value(front, false) >= 1);
        }
        let value = digits_value(digits, false);
        assert(value == digits_value(front, false) * 10 + unit);
        assert(value / 10 == digits_value(front, false));
        assert(value % 10 == unit);
        assert(decimal_text(value as nat) =~= front.push(digits.last()));
        assert(front.push(digits.last()) =~= digits);
    }
}

/// Where a numeral stands in a text and no digit follows it, the number
/// written there is its number.
pub proof fn lemma_number_at_numeral(
    text: Seq<char>,
    from: int,
    value: nat,
    hex: bool,
    max_digits: int,
    zero_prefix: bool,
)
    requires
        0 <= from,
        from + numeral_text(value, hex).len() <= text.len(),
        text.subrange(from, from + numeral_text(value, hex).len()) == numeral_text(value, hex),
        from + numeral_text(value, hex).len() == text.len() || digit_value(
            text[from + numeral_text(value, hex).len()],
            hex,
        ) is None,
        numeral_text(value, hex).len() <= max_digits,
    ensures
        number_at(text, from, hex, max_digits, zero_prefix) == Some(
            (value as int, from + numeral_text(value, hex).len()),
        ),
{
    let numeral = numeral_text(value, hex);
    lemma_numeral_text_is_canonical(value, hex);
    assert forall|k: int| from <= k < from + numeral.len() implies digit_value(
        text[k],
        hex,
    ) is Some by {
        assert(text[k] == text.subrange(from, from + numeral.len())[k - from]);
    }
    lemma_digits_end_after_run(text, from, numeral.len() as int, hex);
}

} // verus!
