//! Character classes and decimal notation over ASCII text.

use vstd::prelude::*;
use vstd::string::*;
use vstd::utf8::{is_ascii_chars, is_ascii_chars_encode_utf8};

verus! {

/// A decimal digit, `0` to `9`.
pub open spec fn is_digit(c: char) -> bool {
    '0' <= c <= '9'
}

/// An upper-case Latin letter.
pub open spec fn is_upper(c: char) -> bool {
    'A' <= c <= 'Z'
}

/// A lower-case Latin letter.
pub open spec fn is_lower(c: char) -> bool {
    'a' <= c <= 'z'
}

/// A word character: a Latin letter, a decimal digit or the underscore.
pub open spec fn is_word(c: char) -> bool {
    is_upper(c) || is_lower(c) || is_digit(c) || c == '_'
}

/// The number that a decimal digit stands for.
pub open spec fn digit_value(c: char) -> int {
    c as int - '0' as int
}

/// The decimal digit that stands for `d`, for `d` from 0 to 9.
pub open spec fn digit_char(d: int) -> char {
    (d + '0' as int) as u8 as char
}

/// Whether every character is a decimal digit.
pub open spec fn all_digits(text: Seq<char>) -> bool {
    forall|i: int| 0 <= i < text.len() ==> is_digit(#[trigger] text[i])
}

/// Whether every character is a word character.
pub open spec fn all_word(text: Seq<char>) -> bool {
    forall|i: int| 0 <= i < text.len() ==> is_word(#[trigger] text[i])
}

/// `count` spaces.
pub open spec fn spaces(count: nat) -> Seq<char> {
    Seq::new(count, |i: int| ' ')
}

/// Ten to the power `e`.
pub open spec fn pow10(e: nat) -> nat
    decreases e,
{
    if e == 0 {
        1
    } else {
        10 * pow10((e - 1) as nat)
    }
}

/// The number that a string of decimal digits stands for; the empty string
/// stands for zero.
pub open spec fn decimal_value(digits: Seq<char>) -> int
    decreases digits.len(),
{
    if digits.len() == 0 {
        0
    } else {
        decimal_value(digits.drop_last()) * 10 + digit_value(digits.last())
    }
}

/// The decimal notation of `n`, with zeros in front up to `width` digits. A
/// number that needs more than `width` digits keeps them all.
pub open spec fn decimal(n: nat, width: nat) -> Seq<char>
    decreases n, width,
{
    if n < 10 && width <= 1 {
        seq![digit_char(n as int)]
    } else {
        decimal(n / 10, if width > 0 { (width - 1) as nat } else { 0 }).push(digit_char((n % 10) as int))
    }
}

/// The decimal notation is made of digits, reads back as the number, and has
/// exactly `width` digits when the number fits in them.
pub proof fn lemma_decimal(n: nat, width: nat)
    ensures
        all_digits(decimal(n, width)),
        decimal_value(decimal(n, width)) == n,
        decimal(n, width).len() >= width,
        decimal(n, width).len() >= 1,
        width >= 1 && n < pow10(width) ==> decimal(n, width).len() == width,
    decreases n, width,
{
    if n < 10 && width <= 1 {
        let text = decimal(n, width);
        assert(text.drop_last().len() == 0);
        assert(decimal_value(text) == decimal_value(text.drop_last()) * 10 + digit_value(text.last()));
        assert(pow10(1) == 10 * pow10(0));
    } else {
        let less: nat = if width > 0 { (width - 1) as nat } else { 0 };
        let head = decimal(n / 10, less);
        let text = head.push(digit_char((n % 10) as int));
        lemma_decimal(n / 10, less);
        assert(text.drop_last() =~= head);
        assert(decimal_value(text) == decimal_value(head) * 10 + digit_value(text.last()));
        assert forall|i: int| 0 <= i < text.len() implies is_digit(#[trigger] text[i]) by {
            if i < head.len() {
                assert(text[i] == head[i]);
            }
        }
        if width >= 1 && n < pow10(width) {
            if width == 1 {
                assert(pow10(1) == 10 * pow10(0));
            } else {
                assert(pow10(width) == 10 * pow10(less));
            }
        }
    }
}

/// A string of digits is the decimal notation of its value at its own width.
pub proof fn lemma_decimal_of_value(digits: Seq<char>)
    requires
        all_digits(digits),
        digits.len() >= 1,
    ensures
        0 <= decimal_value(digits) < pow10(digits.len()),
        decimal(decimal_value(digits) as nat, digits.len()) == digits,
    decreases digits.len(),
{
    let head = digits.drop_last();
    let d = digit_value(digits.last());
    assert(is_digit(digits.last()));
    assert(digit_char(d) == digits.last());
    if digits.len() == 1 {
        assert(decimal_value(head) == 0);
        assert(pow10(1) == 10 * pow10(0));
        assert(decimal(d as nat, 1) =~= digits);
    } else {
        assert(all_digits(head)) by {
            assert forall|i: int| 0 <= i < head.len() implies is_digit(#[trigger] head[i]) by {
                assert(head[i] == digits[i]);
            }
        }
        lemma_decimal_of_value(head);
        let value = decimal_value(digits);
        assert(value == decimal_value(head) * 10 + d);
        assert(pow10(digits.len()) == 10 * pow10(head.len()));
        assert(value / 10 == decimal_value(head));
        assert(value % 10 == d);
        assert(decimal(value as nat, digits.len()) == decimal((value / 10) as nat, head.len()).push(
            digit_char(value % 10),
        ));
        assert(head.push(digits.last()) =~= digits);
    }
}

/// A prefix of a string of digits stands for no more than the whole string.
pub proof fn lemma_decimal_value_prefix(digits: Seq<char>, len: int)
    requires
        all_digits(digits),
        0 <= len <= digits.len(),
    ensures
        0 <= decimal_value(digits.take(len)) <= decimal_value(digits),
    decreases digits.len(),
{
    if len == digits.len() {
        assert(digits.take(len) =~= digits);
        if digits.len() > 0 {
            lemma_decimal_of_value(digits);
        }
    } else {
        let head = digits.drop_last();
        assert(all_digits(head)) by {
            assert forall|i: int| 0 <= i < head.len() implies is_digit(#[trigger] head[i]) by {
                assert(head[i] == digits[i]);
            }
        }
        lemma_decimal_value_prefix(head, len);
        assert(head.take(len) =~= digits.take(len));
        assert(is_digit(digits.last()));
    }
}

/// A text whose characters are all digits or all word characters is ASCII.
pub proof fn lemma_word_is_ascii(text: Seq<char>)
    requires
        all_word(text) || all_digits(text),
    ensures
        is_ascii_chars(text),
{
    assert forall|i: int| 0 <= i < text.len() implies '\0' <= #[trigger] text[i] <= '\u{7f}' by {
        if all_word(text) {
            assert(is_word(text[i]));
        } else {
            assert(is_digit(text[i]));
        }
    }
}

/// The powers of ten up to the eighteenth, the last below two to the 64.
pub proof fn lemma_pow10_small(e: nat)
    requires
        e <= 18,
    ensures
        1 <= pow10(e) <= 1_000_000_000_000_000_000,
        e == 2 ==> pow10(e) == 100,
        e == 4 ==> pow10(e) == 10_000,
        e == 8 ==> pow10(e) == 100_000_000,
{
    lemma_pow10_exact(e);
}

/// The powers of ten up to the twentieth, one by one.
pub proof fn lemma_pow10_exact(e: nat)
    requires
        e <= 20,
    ensures
        e == 0 ==> pow10(e) == 1,
        e == 1 ==> pow10(e) == 10,
        e == 2 ==> pow10(e) == 100,
        e == 3 ==> pow10(e) == 1_000,
        e == 4 ==> pow10(e) == 10_000,
        e == 5 ==> pow10(e) == 100_000,
        e == 6 ==> pow10(e) == 1_000_000,
        e == 7 ==> pow10(e) == 10_000_000,
        e == 8 ==> pow10(e) == 100_000_000,
        e == 9 ==> pow10(e) == 1_000_000_000,
        e == 10 ==> pow10(e) == 10_000_000_000,
        e == 11 ==> pow10(e) == 100_000_000_000,
        e == 12 ==> pow10(e) == 1_000_000_000_000,
        e == 13 ==> pow10(e) == 10_000_000_000_000,
        e == 14 ==> pow10(e) == 100_000_000_000_000,
        e == 15 ==> pow10(e) == 1_000_000_000_000_000,
        e == 16 ==> pow10(e) == 10_000_000_000_000_000,
        e == 17 ==> pow10(e) == 100_000_000_000_000_000,
        e == 18 ==> pow10(e) == 1_000_000_000_000_000_000,
        e == 19 ==> pow10(e) == 10_000_000_000_000_000_000,
        e == 20 ==> pow10(e) == 100_000_000_000_000_000_000,
    decreases e,
{
    if e > 0 {
        lemma_pow10_exact((e - 1) as nat);
    }
}

/// The powers of ten grow with the exponent, from one up.
pub proof fn lemma_pow10_increases(low: nat, high: nat)
    requires
        low <= high,
    ensures
        1 <= pow10(low) <= pow10(high),
    decreases high,
{
    if low == 0 {
        if high > 0 {
            lemma_pow10_increases(0, (high - 1) as nat);
        }
    } else {
        lemma_pow10_increases((low - 1) as nat, (high - 1) as nat);
    }
}

/// Ten to the power `e`, for `e` up to twenty.
pub(crate) fn power_of_ten(e: u64) -> (power: u128)
    requires
        e <= 20,
    ensures
        power == pow10(e as nat),
{
    let mut power: u128 = 1;
    let mut i: u64 = 0;
    while i < e
        invariant
            i <= e <= 20,
            power == pow10(i as nat),
        decreases e - i,
    {
        proof {
            lemma_pow10_increases(i as nat, 19);
            lemma_pow10_exact(19);
        }
        power = power * 10;
        i += 1;
    }
    power
}

/// The one-character text of a digit.
pub(crate) fn digit_text(d: u8) -> (text: &'static str)
    requires
        d <= 9,
    ensures
        text@ == seq![digit_char(d as int)],
{
    proof {
        reveal_strlit("0");
        reveal_strlit("1");
        reveal_strlit("2");
        reveal_strlit("3");
        reveal_strlit("4");
        reveal_strlit("5");
        reveal_strlit("6");
        reveal_strlit("7");
        reveal_strlit("8");
        reveal_strlit("9");
    }
    let text = match d {
        0 => "0",
        1 => "1",
        2 => "2",
        3 => "3",
        4 => "4",
        5 => "5",
        6 => "6",
        7 => "7",
        8 => "8",
        _ => "9",
    };
    assert(text@ =~= seq![digit_char(d as int)]);
    text
}

/// Appends the decimal notation of `n`, at least `width` digits wide.
pub fn push_decimal(out: &mut String, n: u128, width: usize)
    ensures
        final(out)@ == old(out)@ + decimal(n as nat, width as nat),
    decreases n, width,
{
    if n >= 10 || width > 1 {
        push_decimal(out, n / 10, if width > 0 { width - 1 } else { 0 });
    }
    out.append(digit_text((n % 10) as u8));
    assert(final(out)@ =~= old(out)@ + decimal(n as nat, width as nat));
}

/// Appends `count` spaces.
pub fn push_spaces(out: &mut String, count: usize)
    ensures
        final(out)@ == old(out)@ + spaces(count as nat),
{
    let mut i: usize = 0;
    assert(out@ =~= old(out)@ + spaces(0));
    while i < count
        invariant
            i <= count,
            out@ == old(out)@ + spaces(i as nat),
        decreases count - i,
    {
        proof {
            reveal_strlit(" ");
        }
        out.append(" ");
        i += 1;
        assert(out@ =~= old(out)@ + spaces(i as nat));
    }
}

/// Whether every character of `text` is a word character.
pub fn is_word_text(text: &str) -> (ok: bool)
    ensures
        ok == all_word(text@),
{
    if !text.is_ascii() {
        proof {
            if all_word(text@) {
                lemma_word_is_ascii(text@);
            }
        }
        return false;
    }
    let bytes = text.as_bytes();
    proof {
        is_ascii_chars_encode_utf8(text@);
    }
    let mut i: usize = 0;
    while i < bytes.len()
        invariant
            i <= bytes@.len(),
            bytes@.len() == text@.len(),
            is_ascii_chars(text@),
            forall|j: int| 0 <= j < bytes@.len() ==> #[trigger] bytes@[j] == text@[j] as u8,
            forall|j: int| 0 <= j < i ==> is_word(#[trigger] text@[j]),
        decreases bytes.len() - i,
    {
        let byte: u8 = bytes[i];
        let word: bool = (0x41 <= byte && byte <= 0x5a) || (0x61 <= byte && byte <= 0x7a) || (0x30
            <= byte && byte <= 0x39) || byte == 0x5f;
        assert(word == is_word(text@[i as int]));
        if !word {
            return false;
        }
        i += 1;
    }
    true
}

/// The number that `text` stands for, when it is made of decimal digits and
/// the number fits in 64 bits.
pub fn decimal_number(text: &str) -> (number: Option<u64>)
    ensures
        match number {
            Some(n) => all_digits(text@) && n == decimal_value(text@),
            None => !all_digits(text@) || decimal_value(text@) > u64::MAX,
        },
{
    if !text.is_ascii() {
        proof {
            if all_digits(text@) {
                lemma_word_is_ascii(text@);
            }
        }
        return None;
    }
    let bytes = text.as_bytes();
    proof {
        is_ascii_chars_encode_utf8(text@);
    }
    let mut value: u64 = 0;
    let mut i: usize = 0;
    assert(text@.take(0) =~= Seq::<char>::empty());
    while i < bytes.len()
        invariant
            i <= bytes@.len(),
            bytes@.len() == text@.len(),
            is_ascii_chars(text@),
            forall|j: int| 0 <= j < bytes@.len() ==> #[trigger] bytes@[j] == text@[j] as u8,
            forall|j: int| 0 <= j < i ==> is_digit(#[trigger] text@[j]),
            value == decimal_value(text@.take(i as int)),
        decreases bytes.len() - i,
    {
        let byte: u8 = bytes[i];
        if !(0x30 <= byte && byte <= 0x39) {
            assert(!is_digit(text@[i as int]));
            return None;
        }
        assert(is_digit(text@[i as int]));
        let digit: u64 = (byte - 0x30) as u64;
        proof {
            let longer = text@.take(i + 1);
            assert(longer.drop_last() =~= text@.take(i as int));
            assert(decimal_value(longer) == value * 10 + digit);
            if all_digits(text@) {
                lemma_decimal_value_prefix(text@, i + 1);
            }
        }
        if value > (u64::MAX - digit) / 10 {
            return None;
        }
        value = value * 10 + digit;
        i += 1;
    }
    assert(text@.take(i as int) =~= text@);
    Some(value)
}

/// The number that `text` stands for, when it is made of exactly `width`
/// decimal digits.
pub(crate) fn fixed_decimal(text: &str, width: usize) -> (number: Option<u64>)
    requires
        1 <= width <= 18,
    ensures
        match number {
            Some(n) => text@.len() == width && all_digits(text@) && n == decimal_value(text@) && n
                < pow10(width as nat),
            None => !(text@.len() == width && all_digits(text@)),
        },
{
    proof {
        lemma_pow10_small(width as nat);
        if text@.len() == width && all_digits(text@) {
            lemma_decimal_of_value(text@);
        }
    }
    match decimal_number(text) {
        None => None,
        Some(n) => {
            proof {
                lemma_word_is_ascii(text@);
                is_ascii_chars_encode_utf8(text@);
            }
            if text.as_bytes().len() == width {
                Some(n)
            } else {
                None
            }
        },
    }
}

/// Whether every character of `text` is a decimal digit.
pub fn is_digit_text(text: &str) -> (ok: bool)
    ensures
        ok == all_digits(text@),
{
    if !text.is_ascii() {
        proof {
            if all_digits(text@) {
                lemma_word_is_ascii(text@);
            }
        }
        return false;
    }
    let bytes = text.as_bytes();
    proof {
        is_ascii_chars_encode_utf8(text@);
    }
    let mut i: usize = 0;
    while i < bytes.len()
        invariant
            i <= bytes@.len(),
            bytes@.len() == text@.len(),
            is_ascii_chars(text@),
            forall|j: int| 0 <= j < bytes@.len() ==> #[trigger] bytes@[j] == text@[j] as u8,
            forall|j: int| 0 <= j < i ==> is_digit(#[trigger] text@[j]),
        decreases bytes.len() - i,
    {
        let byte: u8 = bytes[i];
        let digit: bool = 0x30 <= byte && byte <= 0x39;
        assert(digit == is_digit(text@[i as int]));
        if !digit {
            return false;
        }
        i += 1;
    }
    true
}

} // verus!
