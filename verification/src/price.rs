//! Prices as exact decimal numbers: a whole number of digits and the count
//! of those that stand behind the decimal point.

use crate::text::{
    all_digits, decimal_number, decimal_value, digit_value, is_digit, is_digit_text,
    lemma_decimal_of_value, lemma_pow10_exact, lemma_pow10_increases, lemma_word_is_ascii,
    pow10, power_of_ten,
};
use vstd::arithmetic::div_mod::{lemma_basic_div, lemma_div_denominator};
use vstd::prelude::*;
use vstd::string::*;
use vstd::utf8::{is_ascii_chars, is_ascii_chars_encode_utf8};

verus! {

/// A price as plain mathematics: `digits` divided by ten to the `scale`.
pub struct PriceView {
    pub digits: nat,
    pub scale: nat,
}

impl PriceView {
    /// Whether the price is written in the one way that is kept: without a
    /// zero at the end behind the point.
    pub open spec fn normal(self) -> bool {
        self.scale == 0 || self.digits % 10 != 0
    }

    /// The whole thousandths in the price; what is finer is dropped.
    pub open spec fn thousandths(self) -> nat {
        if self.scale <= 3 {
            self.digits * pow10((3 - self.scale) as nat)
        } else {
            self.digits / pow10((self.scale - 3) as nat)
        }
    }

    /// The hundredths nearest to the price; a price half-way between two
    /// hundredths goes to the even one.
    pub open spec fn hundredths(self) -> nat {
        if self.scale <= 2 {
            self.digits * pow10((2 - self.scale) as nat)
        } else {
            let unit = pow10((self.scale - 2) as nat);
            let floor = self.digits / unit;
            let rest = self.digits % unit;
            if 2 * rest > unit || (2 * rest == unit && floor % 2 == 1) {
                floor + 1
            } else {
                floor
            }
        }
    }
}

/// The normal way to write `digits` divided by ten to the `scale`: zeros at
/// the end behind the point are taken away.
pub open spec fn normalize(digits: nat, scale: nat) -> PriceView
    decreases scale,
{
    if scale > 0 && digits % 10 == 0 {
        normalize(digits / 10, (scale - 1) as nat)
    } else {
        PriceView { digits, scale }
    }
}

/// How many decimal digits stand at the front of `text`.
pub open spec fn leading_digits(text: Seq<char>) -> int
    decreases text.len(),
{
    if text.len() == 0 || !is_digit(text[0]) {
        0
    } else {
        1 + leading_digits(text.drop_first())
    }
}

/// The digits behind the decimal point of a price; none where the price has
/// no point.
pub open spec fn fraction_digits(text: Seq<char>) -> Seq<char> {
    let whole = leading_digits(text);
    if whole < text.len() {
        text.skip(whole + 1)
    } else {
        Seq::empty()
    }
}

/// Whether `text` is a price: digits alone, or digits, a point and at least
/// one more digit. Nothing need stand before the point.
pub open spec fn is_price(text: Seq<char>) -> bool {
    let whole = leading_digits(text);
    if whole == text.len() {
        whole >= 1
    } else {
        text[whole] == '.' && fraction_digits(text).len() >= 1 && all_digits(fraction_digits(text))
    }
}

/// All digits of a price, those before the point and those behind it.
pub open spec fn price_digits(text: Seq<char>) -> Seq<char> {
    text.take(leading_digits(text)) + fraction_digits(text)
}

/// The price that a text stands for, every digit kept.
pub open spec fn price_of(text: Seq<char>) -> PriceView {
    normalize(decimal_value(price_digits(text)) as nat, fraction_digits(text).len())
}

/// A normalized price is normal and is the same number.
pub proof fn lemma_normalize(digits: nat, scale: nat)
    ensures
        normalize(digits, scale).normal(),
        normalize(digits, scale).scale <= scale,
        digits == 0 ==> normalize(digits, scale) == (PriceView { digits: 0, scale: 0 }),
        (PriceView { digits, scale }).normal() ==> normalize(digits, scale) == (PriceView {
            digits,
            scale,
        }),
        normalize(digits, scale).digits * pow10((scale - normalize(digits, scale).scale) as nat)
            == digits,
    decreases scale,
{
    if scale > 0 && digits % 10 == 0 {
        lemma_normalize(digits / 10, (scale - 1) as nat);
        let less = normalize(digits / 10, (scale - 1) as nat);
        assert(normalize(digits, scale) == less);
        let gap = (scale - 1 - less.scale) as nat;
        assert((scale - less.scale) as nat == gap + 1);
        assert(pow10(gap + 1) == 10 * pow10(gap));
        assert(less.digits * pow10(gap + 1) == digits) by (nonlinear_arith)
            requires
                less.digits * pow10(gap) == digits / 10,
                pow10(gap + 1) == 10 * pow10(gap),
                digits % 10 == 0,
        ;
    } else {
        assert(normalize(digits, scale) == (PriceView { digits, scale }));
        assert(pow10(0) == 1);
        assert(digits * pow10(0) == digits) by (nonlinear_arith)
            requires
                pow10(0) == 1,
        ;
    }
}

/// A price in whole thousandths is read back from its thousandths.
pub proof fn lemma_thousandths_normalized(price: PriceView)
    requires
        price.normal(),
        price.scale <= 3,
    ensures
        normalize(price.thousandths(), 3) == price,
{
    lemma_pow10_exact(0);
    lemma_pow10_exact(1);
    lemma_pow10_exact(2);
    lemma_pow10_exact(3);
    let read = normalize(price.thousandths(), 3);
    lemma_normalize(price.thousandths(), 3);
    let left = pow10((3 - read.scale) as nat);
    let right = pow10((3 - price.scale) as nat);
    assert(read.digits * left == price.digits * right);
    assert(left == 1 || left == 10 || left == 100 || left == 1000);
    assert(right == 1 || right == 10 || right == 100 || right == 1000);
    lemma_same_number(read.digits, left, read.scale, price.digits, right, price.scale);
}

/// Two normal ways to write one count of thousandths are the same way.
proof fn lemma_same_number(a: nat, left: nat, a_scale: nat, b: nat, right: nat, b_scale: nat)
    requires
        a * left == b * right,
        a_scale == 0 || a % 10 != 0,
        b_scale == 0 || b % 10 != 0,
        left == 1000 && a_scale == 0 || left == 100 && a_scale == 1 || left == 10 && a_scale == 2
            || left == 1 && a_scale == 3,
        right == 1000 && b_scale == 0 || right == 100 && b_scale == 1 || right == 10 && b_scale
            == 2 || right == 1 && b_scale == 3,
    ensures
        a == b,
        a_scale == b_scale,
{
    if left == 1000 {
        assert(a * left == a * 1000);
    } else if left == 100 {
        assert(a * left == a * 100);
    } else if left == 10 {
        assert(a * left == a * 10);
    } else {
        assert(a * left == a);
    }
    if right == 1000 {
        assert(b * right == b * 1000);
    } else if right == 100 {
        assert(b * right == b * 100);
    } else if right == 10 {
        assert(b * right == b * 10);
    } else {
        assert(b * right == b);
    }
}

/// The normal price of a count of thousandths has that many thousandths.
pub proof fn lemma_normalized_thousandths(thousandths: nat)
    ensures
        normalize(thousandths, 3).normal(),
        normalize(thousandths, 3).scale <= 3,
        normalize(thousandths, 3).thousandths() == thousandths,
{
    lemma_normalize(thousandths, 3);
}

/// The digits at the front of a text are counted up to the first character
/// that is no digit.
pub proof fn lemma_leading_digits(text: Seq<char>, count: int)
    requires
        0 <= count <= text.len(),
        forall|j: int| 0 <= j < count ==> is_digit(#[trigger] text[j]),
        count == text.len() || !is_digit(text[count]),
    ensures
        leading_digits(text) == count,
    decreases count,
{
    if count > 0 {
        let rest = text.drop_first();
        assert(is_digit(text[0]));
        assert forall|j: int| 0 <= j < count - 1 implies is_digit(#[trigger] rest[j]) by {
            assert(rest[j] == text[j + 1]);
        }
        lemma_leading_digits(rest, count - 1);
    }
}

/// The digits at the front of a text are digits, and what follows them is
/// none.
pub proof fn lemma_leading_digits_are_digits(text: Seq<char>)
    ensures
        0 <= leading_digits(text) <= text.len(),
        forall|j: int| 0 <= j < leading_digits(text) ==> is_digit(#[trigger] text[j]),
        leading_digits(text) == text.len() || !is_digit(text[leading_digits(text)]),
    decreases text.len(),
{
    if text.len() == 0 || !is_digit(text[0]) {
    } else {
        let rest = text.drop_first();
        lemma_leading_digits_are_digits(rest);
        assert forall|j: int| 0 <= j < leading_digits(text) implies is_digit(#[trigger] text[j]) by {
            if j > 0 {
                assert(text[j] == rest[j - 1]);
            }
        }
        if leading_digits(text) < text.len() {
            assert(text[leading_digits(text)] == rest[leading_digits(rest)]);
        }
    }
}

/// A price is ASCII.
pub proof fn lemma_price_is_ascii(text: Seq<char>)
    requires
        is_price(text),
    ensures
        is_ascii_chars(text),
{
    lemma_leading_digits_are_digits(text);
    let whole = leading_digits(text);
    assert forall|i: int| 0 <= i < text.len() implies '\0' <= #[trigger] text[i] <= '\u{7f}' by {
        if i < whole {
            assert(is_digit(text[i]));
        } else if i > whole {
            assert(fraction_digits(text)[i - whole - 1] == text[i]);
            assert(is_digit(fraction_digits(text)[i - whole - 1]));
        }
    }
}

/// A zero at the end of the digits behind the point does not change the
/// price.
proof fn lemma_trailing_zero(digits: Seq<char>, scale: nat)
    requires
        all_digits(digits),
        digits.len() > 0,
        digits.last() == '0',
        scale > 0,
    ensures
        normalize(decimal_value(digits) as nat, scale) == normalize(
            decimal_value(digits.drop_last()) as nat,
            (scale - 1) as nat,
        ),
        decimal_value(digits.drop_last()) >= 0,
{
    let head = digits.drop_last();
    assert(all_digits(head)) by {
        assert forall|i: int| 0 <= i < head.len() implies is_digit(#[trigger] head[i]) by {
            assert(head[i] == digits[i]);
        }
    }
    if head.len() > 0 {
        lemma_decimal_of_value(head);
    }
    assert(decimal_value(digits) == decimal_value(head) * 10 + digit_value('0'));
}

/// An exact decimal price. It is kept in its normal form, without zeros at
/// the end behind the point, so that `32.10` and `32.1` are the same value.
#[derive(Debug, PartialEq, Eq, Clone, Copy)]
pub struct Price {
    digits: u64,
    scale: u64,
}

impl View for Price {
    type V = PriceView;

    closed spec fn view(&self) -> PriceView {
        PriceView { digits: self.digits as nat, scale: self.scale as nat }
    }
}

impl Price {
    #[verifier::type_invariant]
    pub open spec fn well_formed(&self) -> bool {
        self@.normal()
    }

    /// The price `digits` divided by ten to the `scale`.
    pub fn new(digits: u64, scale: u64) -> (price: Price)
        ensures
            price@ == normalize(digits as nat, scale as nat),
            price@.normal(),
    {
        proof {
            lemma_normalize(digits as nat, scale as nat);
        }
        if digits == 0 {
            return Price { digits: 0, scale: 0 };
        }
        let mut d: u64 = digits;
        let mut s: u64 = scale;
        while s > 0 && d % 10 == 0
            invariant
                normalize(d as nat, s as nat) == normalize(digits as nat, scale as nat),
                d > 0,
            decreases s,
        {
            d = d / 10;
            s = s - 1;
        }
        Price { digits: d, scale: s }
    }

    /// The price of a count of thousandths.
    pub fn from_thousandths(thousandths: u64) -> (price: Price)
        ensures
            price@ == normalize(thousandths as nat, 3),
            price@.normal(),
            price@.scale <= 3,
            price@.thousandths() == thousandths,
    {
        proof {
            lemma_normalized_thousandths(thousandths as nat);
        }
        Price::new(thousandths, 3)
    }

    /// All digits of the price as one number.
    pub fn get_digits(&self) -> (digits: u64)
        ensures
            digits == self@.digits,
            self@.normal(),
    {
        proof {
            use_type_invariant(self);
        }
        self.digits
    }

    /// How many of the digits stand behind the point.
    pub fn get_scale(&self) -> (scale: u64)
        ensures
            scale == self@.scale,
            self@.normal(),
    {
        proof {
            use_type_invariant(self);
        }
        self.scale
    }

    /// The whole thousandths in the price; what is finer is dropped.
    pub fn thousandths(&self) -> (count: u128)
        ensures
            count == self@.thousandths(),
    {
        if self.scale <= 3 {
            let power: u128 = power_of_ten(3 - self.scale);
            proof {
                lemma_pow10_increases((3 - self.scale) as nat, 3);
                lemma_pow10_exact(3);
            }
            assert(self.digits * power <= 18_446_744_073_709_551_615 * 1000) by (nonlinear_arith)
                requires
                    self.digits <= 18_446_744_073_709_551_615,
                    power <= 1000,
            ;
            self.digits as u128 * power
        } else {
            drop_digits(self.digits, self.scale - 3)
        }
    }

    /// The hundredths nearest to the price, half-way cases to even.
    pub fn hundredths(&self) -> (count: u128)
        ensures
            count == self@.hundredths(),
    {
        if self.scale <= 2 {
            let power: u128 = power_of_ten(2 - self.scale);
            proof {
                lemma_pow10_increases((2 - self.scale) as nat, 2);
                lemma_pow10_exact(2);
            }
            assert(self.digits * power <= 18_446_744_073_709_551_615 * 100) by (nonlinear_arith)
                requires
                    self.digits <= 18_446_744_073_709_551_615,
                    power <= 100,
            ;
            self.digits as u128 * power
        } else if self.scale - 2 >= 20 {
            proof {
                let unit = pow10((self.scale - 2) as nat);
                lemma_pow10_increases(20, (self.scale - 2) as nat);
                lemma_pow10_exact(20);
                lemma_basic_div(self.digits as int, unit as int);
                vstd::arithmetic::div_mod::lemma_small_mod(self.digits as nat, unit);
            }
            0
        } else {
            let unit: u128 = power_of_ten(self.scale - 2);
            proof {
                lemma_pow10_increases((self.scale - 2) as nat, 19);
                lemma_pow10_increases(0, (self.scale - 2) as nat);
                lemma_pow10_exact(19);
            }
            let floor: u128 = self.digits as u128 / unit;
            let rest: u128 = self.digits as u128 % unit;
            if 2 * rest > unit || (2 * rest == unit && floor % 2 == 1) {
                floor + 1
            } else {
                floor
            }
        }
    }
}

/// `digits` without its last `count` decimal digits.
fn drop_digits(digits: u64, count: u64) -> (kept: u128)
    ensures
        kept == digits as nat / pow10(count as nat),
{
    let mut kept: u64 = digits;
    let mut i: u64 = 0;
    assert(pow10(0) == 1);
    while i < count && kept > 0
        invariant
            i <= count,
            kept == digits as nat / pow10(i as nat),
        decreases count - i,
    {
        proof {
            lemma_pow10_increases(0, i as nat);
            lemma_div_denominator(digits as int, pow10(i as nat) as int, 10);
            assert(pow10((i + 1) as nat) == 10 * pow10(i as nat));
            assert(pow10(i as nat) * 10 == 10 * pow10(i as nat));
        }
        kept = kept / 10;
        i += 1;
    }
    proof {
        if i < count {
            lemma_pow10_increases(0, i as nat);
            lemma_pow10_increases(i as nat, count as nat);
            let small = pow10(i as nat);
            let large = pow10(count as nat);
            if digits >= small {
                vstd::arithmetic::div_mod::lemma_div_non_zero(digits as int, small as int);
            }
            lemma_basic_div(digits as int, large as int);
        }
    }
    kept as u128
}

/// The price that `text` stands for, every digit kept: `Err` where `text` is
/// no price, `Ok(None)` where its digits do not fit in 64 bits.
pub fn parse_price(text: &str) -> (price: Result<Option<Price>, ()>)
    ensures
        match price {
            Ok(Some(p)) => is_price(text@) && p@ == price_of(text@) && price_of(text@).digits
                <= u64::MAX,
            Ok(None) => is_price(text@) && price_of(text@).digits > u64::MAX,
            Err(_) => !is_price(text@),
        },
{
    if !text.is_ascii() {
        proof {
            if is_price(text@) {
                lemma_price_is_ascii(text@);
            }
        }
        return Err(());
    }
    let bytes = text.as_bytes();
    proof {
        is_ascii_chars_encode_utf8(text@);
    }
    let length: usize = bytes.len();
    let mut whole: usize = 0;
    while whole < length && 0x30 <= bytes[whole] && bytes[whole] <= 0x39
        invariant
            whole <= length,
            length == bytes@.len(),
            bytes@.len() == text@.len(),
            is_ascii_chars(text@),
            forall|j: int| 0 <= j < bytes@.len() ==> #[trigger] bytes@[j] == text@[j] as u8,
            forall|j: int| 0 <= j < whole ==> is_digit(#[trigger] text@[j]),
        decreases length - whole,
    {
        assert(is_digit(text@[whole as int]));
        whole += 1;
    }
    proof {
        if whole < length {
            assert(bytes@[whole as int] == text@[whole as int] as u8);
            assert(!is_digit(text@[whole as int]));
        }
        lemma_leading_digits(text@, whole as int);
    }
    let units_text: &str = text.substring_ascii(0, whole);
    assert(units_text@ == text@.take(whole as int));
    let fraction_text: &str = if whole < length {
        text.substring_ascii(whole + 1, length)
    } else {
        text.substring_ascii(length, length)
    };
    assert(fraction_text@ =~= fraction_digits(text@));
    if whole == length {
        if whole == 0 {
            return Err(());
        }
    } else {
        if bytes[whole] != 0x2e {
            return Err(());
        }
        if whole + 1 >= length || !is_digit_text(fraction_text) {
            return Err(());
        }
    }
    assert(is_price(text@));
    assert(all_digits(units_text@));
    assert(all_digits(fraction_text@));
    let fraction_bytes = fraction_text.as_bytes();
    proof {
        lemma_word_is_ascii(fraction_text@);
        is_ascii_chars_encode_utf8(fraction_text@);
    }
    let mut kept: usize = fraction_bytes.len();
    assert(fraction_text@.take(kept as int) =~= fraction_text@);
    while kept > 0 && fraction_bytes[kept - 1] == 0x30
        invariant
            kept <= fraction_bytes@.len(),
            fraction_bytes@.len() == fraction_text@.len(),
            is_ascii(fraction_text),
            all_digits(units_text@),
            all_digits(fraction_text@),
            forall|j: int|
                0 <= j < fraction_bytes@.len() ==> #[trigger] fraction_bytes@[j] == fraction_text@[j] as u8,
            normalize(
                decimal_value(units_text@ + fraction_text@.take(kept as int)) as nat,
                kept as nat,
            ) == normalize(
                decimal_value(units_text@ + fraction_text@) as nat,
                fraction_text@.len(),
            ),
        decreases kept,
    {
        proof {
            let longer = units_text@ + fraction_text@.take(kept as int);
            let shorter = units_text@ + fraction_text@.take(kept - 1);
            assert(is_digit(fraction_text@[kept - 1]));
            assert(longer.last() == fraction_text@[kept - 1]);
            assert(longer.last() == '0');
            assert(longer.drop_last() =~= shorter);
            assert(all_digits(longer)) by {
                assert forall|i: int| 0 <= i < longer.len() implies is_digit(#[trigger] longer[i]) by {
                    if i < units_text@.len() {
                        assert(longer[i] == units_text@[i]);
                    } else {
                        assert(longer[i] == fraction_text@[i - units_text@.len()]);
                    }
                }
            }
            lemma_trailing_zero(longer, kept as nat);
        }
        kept -= 1;
    }
    let kept_text: &str = fraction_text.substring_ascii(0, kept);
    let mut joined: String = units_text.to_owned();
    joined.append(kept_text);
    let ghost digits = units_text@ + fraction_text@.take(kept as int);
    assert(joined@ == digits);
    assert(all_digits(digits)) by {
        assert forall|i: int| 0 <= i < digits.len() implies is_digit(#[trigger] digits[i]) by {
            if i < units_text@.len() {
                assert(digits[i] == units_text@[i]);
            } else {
                assert(digits[i] == fraction_text@[i - units_text@.len()]);
            }
        }
    }
    proof {
        if digits.len() > 0 {
            lemma_decimal_of_value(digits);
        }
        if kept > 0 {
            assert(digits.last() == fraction_text@[kept - 1]);
            assert(is_digit(digits.last()));
            assert(fraction_bytes@[kept - 1] == fraction_text@[kept - 1] as u8);
            assert(digits.last() != '0');
            assert(decimal_value(digits) == decimal_value(digits.drop_last()) * 10 + digit_value(
                digits.last(),
            ));
        }
        lemma_normalize(decimal_value(digits) as nat, kept as nat);
    }
    match decimal_number(joined.as_str()) {
        Some(number) => Ok(Some(Price::new(number, kept as u64))),
        None => Ok(None),
    }
}

} // verus!
