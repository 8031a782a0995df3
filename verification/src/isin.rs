//! International Securities Identification Numbers: twelve characters, the
//! last of which is a check digit over the other eleven.

use crate::error::{outcome_view, Error, ErrorView};
use crate::pattern::{captures_view, named_captures, regex_captures};
use crate::text::{digit_value, is_digit, is_upper};
use vstd::arithmetic::div_mod::lemma_add_mod_noop_right;
use vstd::prelude::*;
use vstd::string::*;
use vstd::utf8::{encode_utf8, is_ascii_chars, is_ascii_chars_encode_utf8};

verus! {

/// The shape of a code: two letters, nine letters or digits, one digit.
pub const ISIN_REGEX: &'static str =
    "^(?P<country>[A-Z]{2})(?P<identifier>[A-Z0-9]{9})(?P<checksum>[0-9]{1})$";

/// The groups that [`ISIN_REGEX`] names, in the order in which they are read.
pub open spec fn isin_group_names() -> Seq<Seq<char>> {
    seq!["country"@, "identifier"@, "checksum"@]
}

/// The decimal digits that one byte of a code stands for: a digit stands for
/// itself, a letter for its place in the alphabet plus ten (`A` is 1, 0 and
/// `Z` is 3, 5), and any other byte for nothing.
pub open spec fn byte_digits(byte: u8) -> Seq<u8> {
    if 0x30 <= byte <= 0x39 {
        seq![(byte - 0x30) as u8]
    } else if 0x41 <= byte <= 0x5a {
        seq![((byte - 0x41 + 10) / 10) as u8, ((byte - 0x41 + 10) % 10) as u8]
    } else {
        Seq::empty()
    }
}

/// The digits of all bytes, in order.
pub open spec fn expansion(bytes: Seq<u8>) -> Seq<u8>
    decreases bytes.len(),
{
    if bytes.len() == 0 {
        Seq::empty()
    } else {
        expansion(bytes.drop_last()) + byte_digits(bytes.last())
    }
}

/// What a doubled digit adds to the Luhn sum: twice the digit, or the sum of
/// the two digits of that product.
pub open spec fn luhn_double(digit: int) -> int {
    if 2 * digit > 9 {
        (2 * digit) / 10 + (2 * digit) % 10
    } else {
        2 * digit
    }
}

/// The Luhn sum of `digits`, counted from the right: the last digit is
/// doubled when `doubled` holds, and doubling alternates from there.
pub open spec fn luhn_sum(digits: Seq<u8>, doubled: bool) -> int
    decreases digits.len(),
{
    if digits.len() == 0 {
        0
    } else {
        luhn_sum(digits.drop_last(), !doubled) + if doubled {
            luhn_double(digits.last() as int)
        } else {
            digits.last() as int
        }
    }
}

/// The digit that completes `payload`: with it appended, the Luhn sum is a
/// multiple of ten.
pub open spec fn luhn_check_digit(payload: Seq<u8>) -> int {
    (10 - luhn_sum(payload, true) % 10) % 10
}

/// The check digit computed for a whole code: the code is expanded to digits,
/// the last digit stands aside as the candidate, and the rest is the payload.
pub open spec fn checksum(bytes: Seq<u8>) -> int {
    let digits = expansion(bytes);
    luhn_check_digit(if digits.len() == 0 { digits } else { digits.drop_last() })
}

/// Whether the last byte of a code is the digit that [`checksum`] computes.
pub open spec fn check_digit_agrees(bytes: Seq<u8>) -> bool {
    bytes.len() > 0 && bytes.last() == checksum(bytes) + 0x30
}

/// Whether `text` has the shape of a code.
pub open spec fn is_isin_format(text: Seq<char>) -> bool {
    &&& text.len() == 12
    &&& forall|i: int| 0 <= i < 2 ==> is_upper(#[trigger] text[i])
    &&& forall|i: int| 2 <= i < 11 ==> is_upper(#[trigger] text[i]) || is_digit(text[i])
    &&& is_digit(text[11])
}

/// Whether `text` is a code: it has the shape and its check digit agrees.
pub open spec fn is_valid_isin(text: Seq<char>) -> bool {
    is_isin_format(text) && check_digit_agrees(encode_utf8(text))
}

/// What parsing `text` gives, once the engine has answered.
pub open spec fn isin_outcome(
    text: Seq<char>,
    answer: Result<Option<Seq<Option<Seq<char>>>>, Seq<char>>,
) -> Result<Seq<char>, ErrorView> {
    match answer {
        Err(diagnostic) => Err(ErrorView::RegexError(diagnostic)),
        Ok(None) => Err(ErrorView::NoResult),
        Ok(Some(_)) => if !is_isin_format(text) {
            Err(ErrorView::NoResult)
        } else if !check_digit_agrees(encode_utf8(text)) {
            Err(ErrorView::ChecksumError)
        } else {
            Ok(text)
        },
    }
}

/// Every digit of an expansion is at most nine.
pub proof fn lemma_expansion_digits(bytes: Seq<u8>)
    ensures
        forall|i: int| 0 <= i < expansion(bytes).len() ==> #[trigger] expansion(bytes)[i] <= 9,
    decreases bytes.len(),
{
    if bytes.len() > 0 {
        lemma_expansion_digits(bytes.drop_last());
        let head = expansion(bytes.drop_last());
        let tail = byte_digits(bytes.last());
        assert forall|i: int| 0 <= i < expansion(bytes).len() implies #[trigger] expansion(
            bytes,
        )[i] <= 9 by {
            if i < head.len() {
                assert(expansion(bytes)[i] == head[i]);
            } else {
                assert(expansion(bytes)[i] == tail[i - head.len()]);
            }
        }
    }
}

/// A text in the shape of a code is ASCII, and its bytes are its characters.
pub proof fn lemma_format_bytes(text: Seq<char>)
    requires
        is_isin_format(text),
    ensures
        is_ascii_chars(text),
        encode_utf8(text).len() == 12,
        forall|i: int| 0 <= i < 12 ==> #[trigger] encode_utf8(text)[i] == text[i] as u8,
{
    assert(is_ascii_chars(text)) by {
        assert forall|i: int| 0 <= i < text.len() implies '\0' <= #[trigger] text[i] <= '\u{7f}' by {
            if i < 2 {
                assert(is_upper(text[i]));
            } else if i < 11 {
                assert(is_upper(text[i]) || is_digit(text[i]));
            }
        }
    }
    is_ascii_chars_encode_utf8(text);
}

/// The check digit of a code in the right shape agrees exactly when it is
/// the Luhn check digit of the first eleven characters.
pub proof fn lemma_check_digit_of_prefix(text: Seq<char>)
    requires
        is_isin_format(text),
    ensures
        check_digit_agrees(encode_utf8(text)) <==> luhn_check_digit(
            expansion(encode_utf8(text.take(11))),
        ) == digit_value(text[11]),
{
    lemma_format_bytes(text);
    let bytes = encode_utf8(text);
    let prefix = text.take(11);
    assert(is_ascii_chars(prefix));
    is_ascii_chars_encode_utf8(prefix);
    assert(encode_utf8(prefix) =~= bytes.drop_last());
    assert(byte_digits(bytes.last()) =~= seq![(bytes.last() - 0x30) as u8]);
    assert(expansion(bytes) == expansion(bytes.drop_last()) + byte_digits(bytes.last()));
    assert(expansion(bytes).drop_last() =~= expansion(bytes.drop_last()));
}

/// A text that the engine matched is accepted exactly when it has the shape
/// of a code and its last character is the Luhn check digit of the first
/// eleven; the code that comes out is the text itself.
pub proof fn lemma_isin_accepted(text: Seq<char>, groups: Seq<Option<Seq<char>>>)
    ensures
        isin_outcome(text, Ok(Some(groups))) is Ok <==> is_isin_format(text) && luhn_check_digit(
            expansion(encode_utf8(text.take(11))),
        ) == digit_value(text[11]),
        isin_outcome(text, Ok(Some(groups))) is Ok ==> isin_outcome(text, Ok(Some(groups))) == Ok::<
            Seq<char>,
            ErrorView,
        >(text),
{
    if is_isin_format(text) {
        lemma_check_digit_of_prefix(text);
    }
}

/// A code is its country, its identifier and its check digit, in this order.
pub proof fn lemma_isin_parts(text: Seq<char>)
    requires
        is_valid_isin(text),
    ensures
        text == text.subrange(0, 2) + text.subrange(2, 11) + text.subrange(11, 12),
{
    assert(text =~= text.subrange(0, 2) + text.subrange(2, 11) + text.subrange(11, 12));
}

/// The digits that one byte stands for.
pub fn convert_char_as_byte_to_numbers(c: &u8) -> (digits: Vec<u8>)
    ensures
        digits@ == byte_digits(*c),
{
    let byte: u8 = *c;
    let mut digits: Vec<u8> = Vec::new();
    if 0x30 <= byte && byte <= 0x39 {
        digits.push(byte - 0x30);
    } else if 0x41 <= byte && byte <= 0x5a {
        let index: u8 = byte - 0x41 + 10;
        digits.push(index / 10);
        digits.push(index % 10);
    }
    assert(digits@ =~= byte_digits(byte));
    digits
}

/// The digits that the bytes of `isin` stand for, in order.
pub fn replace_chars_to_numbers(isin: &str) -> (digits: Vec<u8>)
    ensures
        digits@ == expansion(isin.spec_bytes()),
        forall|i: int| 0 <= i < digits@.len() ==> #[trigger] digits@[i] <= 9,
{
    let bytes = isin.as_bytes();
    let mut digits: Vec<u8> = Vec::new();
    let mut i: usize = 0;
    assert(bytes@.take(0) =~= Seq::<u8>::empty());
    while i < bytes.len()
        invariant
            i <= bytes@.len(),
            digits@ == expansion(bytes@.take(i as int)),
        decreases bytes.len() - i,
    {
        let mut piece = convert_char_as_byte_to_numbers(&bytes[i]);
        assert(bytes@.take(i + 1).drop_last() =~= bytes@.take(i as int));
        digits.append(&mut piece);
        i += 1;
    }
    proof {
        assert(bytes@.take(i as int) =~= bytes@);
        lemma_expansion_digits(bytes@);
    }
    digits
}

/// The check digit that the bytes of `isin` call for, from 0 to 9.
pub fn compute_checksum(isin: &str) -> (digit: u8)
    ensures
        digit == checksum(isin.spec_bytes()),
        digit <= 9,
{
    let digits = replace_chars_to_numbers(isin);
    let mut i: usize = if digits.len() == 0 { 0 } else { digits.len() - 1 };
    let ghost payload = digits@.take(i as int);
    assert(payload =~= if digits@.len() == 0 { digits@ } else { digits@.drop_last() });
    let mut sum: u8 = 0;
    let mut doubled: bool = true;
    assert(payload.take(i as int) =~= payload);
    while i > 0
        invariant
            i <= payload.len(),
            payload == digits@.take(payload.len() as int),
            payload.len() <= digits@.len(),
            forall|j: int| 0 <= j < digits@.len() ==> #[trigger] digits@[j] <= 9,
            sum < 10,
            luhn_sum(payload, true) % 10 == (luhn_sum(payload.take(i as int), doubled) + sum) % 10,
        decreases i,
    {
        i -= 1;
        let d: u8 = digits[i];
        let weight: u8 = if doubled {
            if 2 * d > 9 { (2 * d) / 10 + (2 * d) % 10 } else { 2 * d }
        } else {
            d
        };
        proof {
            let before = payload.take(i + 1);
            assert(before.drop_last() =~= payload.take(i as int));
            assert(before.last() == d);
            let rest = luhn_sum(payload.take(i as int), !doubled);
            assert(luhn_sum(before, doubled) == rest + weight);
            lemma_add_mod_noop_right(rest, weight + sum, 10);
        }
        sum = (sum + weight) % 10;
        doubled = !doubled;
    }
    assert(payload.take(0) =~= Seq::<u8>::empty());
    (10 - sum) % 10
}

/// Whether the last byte of `isin` is the check digit that the whole calls
/// for. An empty text has no check digit and is refused.
pub fn verify_isin(isin: &str) -> (agrees: bool)
    ensures
        agrees == check_digit_agrees(isin.spec_bytes()),
{
    let bytes = isin.as_bytes();
    if bytes.len() == 0 {
        return false;
    }
    let last_char: u8 = bytes[bytes.len() - 1];
    let checksum_char: u8 = compute_checksum(isin) + 0x30;
    last_char == checksum_char
}

/// Whether `isin` has the shape of a code.
pub fn has_isin_format(isin: &str) -> (shaped: bool)
    ensures
        shaped == is_isin_format(isin@),
{
    if !isin.is_ascii() {
        proof {
            if is_isin_format(isin@) {
                lemma_format_bytes(isin@);
            }
        }
        return false;
    }
    let bytes = isin.as_bytes();
    proof {
        is_ascii_chars_encode_utf8(isin@);
    }
    if bytes.len() != 12 {
        return false;
    }
    let mut i: usize = 0;
    while i < 12
        invariant
            i <= 12,
            bytes@.len() == 12,
            isin@.len() == 12,
            is_ascii_chars(isin@),
            forall|j: int| 0 <= j < 12 ==> #[trigger] bytes@[j] == isin@[j] as u8,
            forall|j: int| 0 <= j < i && j < 2 ==> is_upper(#[trigger] isin@[j]),
            forall|j: int| 2 <= j < i && j < 11 ==> is_upper(#[trigger] isin@[j]) || is_digit(isin@[j]),
            i == 12 ==> is_digit(isin@[11]),
        decreases 12 - i,
    {
        let byte: u8 = bytes[i];
        let upper: bool = 0x41 <= byte && byte <= 0x5a;
        let digit: bool = 0x30 <= byte && byte <= 0x39;
        assert(upper == is_upper(isin@[i as int]));
        assert(digit == is_digit(isin@[i as int]));
        if i < 2 {
            if !upper {
                return false;
            }
        } else if i < 11 {
            if !(upper || digit) {
                return false;
            }
        } else if !digit {
            return false;
        }
        i += 1;
    }
    true
}

/// A validated code. A value of this type always holds twelve characters in
/// the shape of a code whose check digit agrees.
#[derive(Debug, PartialEq)]
pub struct ISIN {
    isin: String,
}

impl View for ISIN {
    type V = Seq<char>;

    closed spec fn view(&self) -> Seq<char> {
        self.isin@
    }
}

impl ISIN {
    #[verifier::type_invariant]
    spec fn well_formed(&self) -> bool {
        is_valid_isin(self.isin@)
    }

    /// Parses `isin`: the engine matches it against [`ISIN_REGEX`], then the
    /// shape and the check digit are decided here.
    pub fn parse_isin(isin: &str) -> (parsed: Result<ISIN, Error>)
        ensures
            outcome_view(parsed) == isin_outcome(
                isin@,
                regex_captures(ISIN_REGEX@, isin_group_names(), isin@),
            ),
    {
        let names: [&str; 3] = ["country", "identifier", "checksum"];
        let names = names.as_slice();
        assert(names.deep_view() =~= isin_group_names());
        let answer = named_captures(ISIN_REGEX, names, isin);
        ISIN::from_captures(isin, answer)
    }

    /// Decides what parsing `isin` gives for an engine answer: the engine's
    /// failure is passed on, a text without a match or out of shape is
    /// refused, and a text in shape is accepted exactly when its check digit
    /// agrees.
    pub fn from_captures(isin: &str, answer: Result<Option<Vec<Option<String>>>, String>) -> (parsed:
        Result<ISIN, Error>)
        ensures
            outcome_view(parsed) == isin_outcome(isin@, captures_view(answer)),
    {
        match answer {
            Err(diagnostic) => Err(Error::RegexError(diagnostic)),
            Ok(None) => Err(Error::NoResult),
            Ok(Some(_)) => {
                if !has_isin_format(isin) {
                    Err(Error::NoResult)
                } else if verify_isin(isin) {
                    Ok(ISIN { isin: isin.to_owned() })
                } else {
                    Err(Error::ChecksumError)
                }
            },
        }
    }

    /// The two letters of the country.
    pub fn get_county_code(&self) -> (code: &str)
        ensures
            code@ == self@.subrange(0, 2),
            is_valid_isin(self@),
    {
        proof {
            use_type_invariant(self);
            lemma_format_bytes(self.isin@);
        }
        self.isin.as_str().substring_ascii(0, 2)
    }

    /// The nine characters that identify the security.
    pub fn get_identifier(&self) -> (identifier: &str)
        ensures
            identifier@ == self@.subrange(2, 11),
            is_valid_isin(self@),
    {
        proof {
            use_type_invariant(self);
            lemma_format_bytes(self.isin@);
        }
        self.isin.as_str().substring_ascii(2, 11)
    }

    /// The check digit.
    pub fn get_checksum(&self) -> (digit: &str)
        ensures
            digit@ == self@.subrange(11, 12),
            is_valid_isin(self@),
    {
        proof {
            use_type_invariant(self);
            lemma_format_bytes(self.isin@);
        }
        self.isin.as_str().substring_ascii(11, 12)
    }

    /// The whole code.
    pub fn get_isin(&self) -> (code: &str)
        ensures
            code@ == self@,
            is_valid_isin(self@),
    {
        proof {
            use_type_invariant(self);
        }
        self.isin.as_str()
    }
}

} // verus!
