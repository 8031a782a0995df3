//! The OCC symbology text of an option contract: the ticker, padding, the
//! expiration date as six digits, the letter of the side and the strike price
//! in thousandths as eight digits.

use crate::error::{outcome_view, Error, ErrorView};
use crate::options::{is_symbol, is_symbol_text, ContractType, OptionData, OptionView};
use crate::pattern::{captures_view, named_captures, regex_captures};
use crate::price::{
    lemma_normalized_thousandths, lemma_thousandths_normalized, normalize, Price,
};
use crate::text::{
    all_digits, all_word, decimal, decimal_value, fixed_decimal, is_word, lemma_decimal,
    lemma_decimal_of_value, lemma_pow10_small, push_decimal, push_spaces, spaces,
};
use vstd::arithmetic::div_mod::lemma_mod_multiples_vanish;
use vstd::prelude::*;
use vstd::string::*;

verus! {

/// The shape of the text: 16 to 21 characters, of which the last 15 are
/// the date, the side and the price.
pub const OCC_OSI_REGEX: &'static str =
    "^(?=.{16,21}$)(?P<symbol>[A-Za-z0-9_]{1,6}) {0,5}(?P<year>[0-9]{2})(?P<month>0[1-9]|1[0-2])(?P<day>0[1-9]|[12][0-9]|3[01])(?P<contract>C|P|c|p)(?P<price>[0-9]{8})$";

/// The groups that [`OCC_OSI_REGEX`] names, in the order in which they are read.
pub open spec fn osi_group_names() -> Seq<Seq<char>> {
    seq!["symbol"@, "year"@, "month"@, "day"@, "contract"@, "price"@]
}

/// The part of the text behind the padding: two digits each for the year
/// modulo 100, the month and the day, the letter of the side, and the
/// whole thousandths of the strike price on at least eight digits.
pub open spec fn osi_tail(contract: OptionView, lower: bool) -> Seq<char> {
    decimal((contract.year % 100) as nat, 2) + decimal(contract.month as nat, 2) + decimal(
        contract.day as nat,
        2,
    ) + seq![contract.contract.letter(lower)] + decimal(contract.strike.thousandths(), 8)
}

/// The text of a contract with `pad` spaces behind the ticker.
pub open spec fn osi_text(contract: OptionView, pad: nat, lower: bool) -> Seq<char> {
    contract.symbol + spaces(pad) + osi_tail(contract, lower)
}

/// Whether a contract can be read back from its text: the year is of this
/// century, which is how two digits of a year are read, and the strike price
/// is a whole number of thousandths that fits in eight digits.
pub open spec fn fits_osi(contract: OptionView) -> bool {
    &&& contract.valid()
    &&& 2000 <= contract.year <= 2099
    &&& contract.strike.scale <= 3
    &&& contract.strike.thousandths() < 100_000_000
}

/// The contract with its strike price cut to whole thousandths, which is
/// as much of the price as the text holds.
pub open spec fn in_thousandths(contract: OptionView) -> OptionView {
    OptionView { strike: normalize(contract.strike.thousandths(), 3), ..contract }
}

/// Whether `text` is a text of `contract`: the contract fits, ticker and
/// padding take at most six characters, and the letter of the side is in
/// either case.
pub open spec fn is_osi_text(text: Seq<char>, contract: OptionView) -> bool {
    &&& fits_osi(contract)
    &&& exists|pad: nat, lower: bool|
        contract.symbol.len() + pad <= 6 && text == #[trigger] osi_text(contract, pad, lower)
}

/// Whether the six pieces, laid side by side with the padding that the
/// length of `text` calls for, spell `text`.
pub open spec fn osi_spelled(
    text: Seq<char>,
    symbol: Seq<char>,
    year: Seq<char>,
    month: Seq<char>,
    day: Seq<char>,
    contract: Seq<char>,
    price: Seq<char>,
) -> bool {
    let pad = text.len() - symbol.len() - 15;
    &&& 0 <= pad
    &&& symbol.len() + pad <= 6
    &&& text == symbol + spaces(pad as nat) + year + month + day + contract + price
}

/// The contract that the captured groups of a match stand for. The groups
/// are accepted only when each has the shape of its field and together they
/// spell the text.
pub open spec fn osi_decode(text: Seq<char>, groups: Seq<Option<Seq<char>>>) -> Option<OptionView> {
    if groups.len() == 6 && (forall|i: int| 0 <= i < 6 ==> (#[trigger] groups[i]) is Some) {
        let symbol = groups[0]->0;
        let year = groups[1]->0;
        let month = groups[2]->0;
        let day = groups[3]->0;
        let contract = groups[4]->0;
        let price = groups[5]->0;
        if is_symbol(symbol) && year.len() == 2 && all_digits(year) && month.len() == 2
            && all_digits(month) && 1 <= decimal_value(month) <= 12 && day.len() == 2
            && all_digits(day) && 1 <= decimal_value(day) <= 31 && contract.len() == 1
            && ContractType::of_letter(contract[0]) is Some && price.len() == 8 && all_digits(
            price,
        ) && osi_spelled(text, symbol, year, month, day, contract, price) {
            Some(
                OptionView {
                    symbol,
                    year: 2000 + decimal_value(year),
                    month: decimal_value(month),
                    day: decimal_value(day),
                    strike: normalize(decimal_value(price) as nat, 3),
                    contract: ContractType::of_letter(contract[0])->0,
                },
            )
        } else {
            None
        }
    } else {
        None
    }
}

/// What parsing `text` gives, once the engine has answered.
pub open spec fn osi_outcome(
    text: Seq<char>,
    answer: Result<Option<Seq<Option<Seq<char>>>>, Seq<char>>,
) -> Result<OptionView, ErrorView> {
    match answer {
        Err(diagnostic) => Err(ErrorView::RegexError(diagnostic)),
        Ok(None) => Err(ErrorView::NoResult),
        Ok(Some(groups)) => match osi_decode(text, groups) {
            Some(contract) => Ok(contract),
            None => Err(ErrorView::NoResult),
        },
    }
}

/// The split that the grammar assigns to a text of `contract`.
pub open spec fn osi_groups(contract: OptionView, lower: bool) -> Seq<Option<Seq<char>>> {
    seq![
        Some(contract.symbol),
        Some(decimal((contract.year % 100) as nat, 2)),
        Some(decimal(contract.month as nat, 2)),
        Some(decimal(contract.day as nat, 2)),
        Some(seq![contract.contract.letter(lower)]),
        Some(decimal(contract.strike.thousandths(), 8)),
    ]
}

/// The part behind the padding has fifteen characters, each field at its
/// fixed place, so that a text padded to six has twenty-one.
pub proof fn lemma_osi_tail_fields(contract: OptionView, lower: bool)
    requires
        contract.valid(),
        contract.strike.thousandths() < 100_000_000,
    ensures
        osi_tail(contract, lower).len() == 15,
        forall|pad: nat| #[trigger] osi_text(contract, pad, lower).len() == contract.symbol.len() + pad + 15,
        osi_tail(contract, lower).subrange(0, 2) == decimal((contract.year % 100) as nat, 2),
        osi_tail(contract, lower).subrange(2, 4) == decimal(contract.month as nat, 2),
        osi_tail(contract, lower).subrange(4, 6) == decimal(contract.day as nat, 2),
        osi_tail(contract, lower)[6] == contract.contract.letter(lower),
        osi_tail(contract, lower).subrange(7, 15) == decimal(contract.strike.thousandths(), 8),
{
    lemma_pow10_small(2);
    lemma_pow10_small(8);
    lemma_decimal((contract.year % 100) as nat, 2);
    lemma_decimal(contract.month as nat, 2);
    lemma_decimal(contract.day as nat, 2);
    lemma_decimal(contract.strike.thousandths(), 8);
    let tail = osi_tail(contract, lower);
    assert(tail.subrange(0, 2) =~= decimal((contract.year % 100) as nat, 2));
    assert(tail.subrange(2, 4) =~= decimal(contract.month as nat, 2));
    assert(tail.subrange(4, 6) =~= decimal(contract.day as nat, 2));
    assert(tail.subrange(7, 15) =~= decimal(contract.strike.thousandths(), 8));
}

/// A ticker followed by spaces can be read in one way only.
pub proof fn lemma_padded_symbol_unique(first: Seq<char>, first_pad: nat, second: Seq<char>, second_pad: nat)
    requires
        all_word(first),
        all_word(second),
        first + spaces(first_pad) == second + spaces(second_pad),
    ensures
        first == second,
        first_pad == second_pad,
{
    let left = first + spaces(first_pad);
    let right = second + spaces(second_pad);
    assert(left.len() == first.len() + first_pad);
    assert(right.len() == second.len() + second_pad);
    if first.len() < second.len() {
        let i = first.len() as int;
        assert(left[i] == ' ');
        assert(right[i] == second[i]);
        assert(is_word(second[i]));
    } else if second.len() < first.len() {
        let i = second.len() as int;
        assert(right[i] == ' ');
        assert(left[i] == first[i]);
        assert(is_word(first[i]));
    } else {
        assert forall|i: int| 0 <= i < first.len() implies first[i] == second[i] by {
            assert(left[i] == first[i]);
            assert(right[i] == second[i]);
        }
        assert(first =~= second);
    }
}

/// A split that is accepted yields a contract of which the text is a text.
pub proof fn lemma_osi_decode_sound(text: Seq<char>, groups: Seq<Option<Seq<char>>>)
    requires
        osi_decode(text, groups) is Some,
    ensures
        is_osi_text(text, osi_decode(text, groups)->0),
{
    let contract = osi_decode(text, groups)->0;
    let symbol = groups[0]->0;
    let year = groups[1]->0;
    let month = groups[2]->0;
    let day = groups[3]->0;
    let side = groups[4]->0;
    let price = groups[5]->0;
    let pad = (text.len() - symbol.len() - 15) as nat;
    let lower = side[0] == 'c' || side[0] == 'p';
    lemma_pow10_small(2);
    lemma_pow10_small(8);
    lemma_decimal_of_value(year);
    lemma_decimal_of_value(month);
    lemma_decimal_of_value(day);
    lemma_decimal_of_value(price);
    lemma_normalized_thousandths(decimal_value(price) as nat);
    assert(side =~= seq![contract.contract.letter(lower)]);
    assert(text =~= osi_text(contract, pad, lower));
    assert(contract.valid());
    assert(contract.symbol.len() + pad <= 6);
}

/// A text is a text of one contract at most.
pub proof fn lemma_osi_text_unique(text: Seq<char>, first: OptionView, second: OptionView)
    requires
        is_osi_text(text, first),
        is_osi_text(text, second),
    ensures
        first == second,
{
    let (first_pad, first_lower) = choose|pad: nat, lower: bool|
        first.symbol.len() + pad <= 6 && text == #[trigger] osi_text(first, pad, lower);
    let (second_pad, second_lower) = choose|pad: nat, lower: bool|
        second.symbol.len() + pad <= 6 && text == #[trigger] osi_text(second, pad, lower);
    lemma_osi_tail_fields(first, first_lower);
    lemma_osi_tail_fields(second, second_lower);
    let first_tail = osi_tail(first, first_lower);
    let second_tail = osi_tail(second, second_lower);
    let first_head = first.symbol + spaces(first_pad);
    let second_head = second.symbol + spaces(second_pad);
    let cut = text.len() - 15;
    assert(first_head.len() == cut && second_head.len() == cut);
    assert(text.subrange(0, cut) =~= first_head);
    assert(text.subrange(0, cut) =~= second_head);
    assert(text.subrange(cut, text.len() as int) =~= first_tail);
    assert(text.subrange(cut, text.len() as int) =~= second_tail);
    lemma_padded_symbol_unique(first.symbol, first_pad, second.symbol, second_pad);
    lemma_decimal((first.year % 100) as nat, 2);
    lemma_decimal((second.year % 100) as nat, 2);
    lemma_decimal(first.month as nat, 2);
    lemma_decimal(second.month as nat, 2);
    lemma_decimal(first.day as nat, 2);
    lemma_decimal(second.day as nat, 2);
    lemma_decimal(first.strike.thousandths(), 8);
    lemma_decimal(second.strike.thousandths(), 8);
    assert(first.contract == second.contract) by {
        assert(first_tail[6] == second_tail[6]);
    }
    assert(first.strike.thousandths() == second.strike.thousandths());
    lemma_thousandths_normalized(first.strike);
    lemma_thousandths_normalized(second.strike);
}

/// Round trip: the text of a contract, split as the grammar splits it, is
/// decoded to the same contract with its strike price in whole thousandths,
/// which is the contract itself where its price is no finer; and whatever
/// the engine answers for that text, parsing it yields that contract or
/// fails, never another one.
pub proof fn lemma_osi_round_trip(
    contract: OptionView,
    pad: nat,
    lower: bool,
    answer: Result<Option<Seq<Option<Seq<char>>>>, Seq<char>>,
)
    requires
        contract.valid(),
        2000 <= contract.year <= 2099,
        contract.strike.thousandths() < 100_000_000,
        contract.symbol.len() + pad <= 6,
    ensures
        is_osi_text(osi_text(contract, pad, lower), in_thousandths(contract)),
        contract.strike.scale <= 3 ==> in_thousandths(contract) == contract,
        osi_outcome(osi_text(contract, pad, lower), Ok(Some(osi_groups(contract, lower)))) == Ok::<
            OptionView,
            ErrorView,
        >(in_thousandths(contract)),
        osi_outcome(osi_text(contract, pad, lower), answer) is Ok ==> osi_outcome(
            osi_text(contract, pad, lower),
            answer,
        ) == Ok::<OptionView, ErrorView>(in_thousandths(contract)),
{
    let text = osi_text(contract, pad, lower);
    let cut = in_thousandths(contract);
    lemma_normalized_thousandths(contract.strike.thousandths());
    if contract.strike.scale <= 3 {
        lemma_thousandths_normalized(contract.strike);
    }
    assert(osi_text(cut, pad, lower) == text);
    assert(is_osi_text(text, cut));
    lemma_pow10_small(2);
    lemma_pow10_small(8);
    lemma_decimal((contract.year % 100) as nat, 2);
    lemma_decimal(contract.month as nat, 2);
    lemma_decimal(contract.day as nat, 2);
    lemma_decimal(contract.strike.thousandths(), 8);
    lemma_osi_tail_fields(contract, lower);
    let groups = osi_groups(contract, lower);
    assert(text.len() == contract.symbol.len() + pad + 15);
    assert(text =~= contract.symbol + spaces(pad) + (groups[1]->0) + (groups[2]->0) + (groups[3]->0) + (
    groups[4]->0) + (groups[5]->0));
    assert(osi_decode(text, groups) == Some(cut));
    if osi_outcome(text, answer) is Ok {
        let found = answer->Ok_0->0;
        lemma_osi_decode_sound(text, found);
        lemma_osi_text_unique(text, osi_decode(text, found)->0, cut);
    }
}

/// The text of group `i`, when the group took part in the match.
pub(crate) fn group_text(groups: &Vec<Option<String>>, i: usize) -> (text: Option<&str>)
    requires
        i < groups@.len(),
    ensures
        match text {
            Some(t) => groups.deep_view()[i as int] == Some(t@),
            None => groups.deep_view()[i as int] is None,
        },
{
    match &groups[i] {
        Some(t) => Some(t.as_str()),
        None => None,
    }
}

/// Whether the six pieces spell `text`.
fn osi_spells(
    text: &str,
    symbol: &str,
    year: &str,
    month: &str,
    day: &str,
    contract: &str,
    price: &str,
) -> (ok: bool)
    requires
        1 <= symbol@.len() <= 6,
    ensures
        ok == osi_spelled(text@, symbol@, year@, month@, day@, contract@, price@),
{
    let length: usize = text.unicode_len();
    let taken: usize = symbol.unicode_len() + 15;
    if length < taken || length - 15 > 6 {
        return false;
    }
    let mut spelled: String = symbol.to_owned();
    push_spaces(&mut spelled, length - taken);
    spelled.append(year);
    spelled.append(month);
    spelled.append(day);
    spelled.append(contract);
    spelled.append(price);
    let whole: String = text.to_owned();
    spelled == whole
}

/// The contract that the groups of a match stand for.
fn decode_osi(osi: &str, groups: &Vec<Option<String>>) -> (decoded: Option<OptionData>)
    ensures
        match decoded {
            Some(contract) => osi_decode(osi@, groups.deep_view()) == Some(contract@),
            None => osi_decode(osi@, groups.deep_view()) is None,
        },
{
    if groups.len() != 6 {
        return None;
    }
    let symbol = match group_text(groups, 0) {
        Some(t) => t,
        None => { return None; },
    };
    let year = match group_text(groups, 1) {
        Some(t) => t,
        None => { return None; },
    };
    let month = match group_text(groups, 2) {
        Some(t) => t,
        None => { return None; },
    };
    let day = match group_text(groups, 3) {
        Some(t) => t,
        None => { return None; },
    };
    let contract = match group_text(groups, 4) {
        Some(t) => t,
        None => { return None; },
    };
    let price = match group_text(groups, 5) {
        Some(t) => t,
        None => { return None; },
    };
    if !is_symbol_text(symbol) {
        return None;
    }
    let yy: u64 = match fixed_decimal(year, 2) {
        Some(n) => n,
        None => { return None; },
    };
    let mm: u64 = match fixed_decimal(month, 2) {
        Some(n) => n,
        None => { return None; },
    };
    let dd: u64 = match fixed_decimal(day, 2) {
        Some(n) => n,
        None => { return None; },
    };
    if mm < 1 || mm > 12 || dd < 1 || dd > 31 {
        return None;
    }
    let side: ContractType = match ContractType::from_code(contract) {
        Some(c) => c,
        None => { return None; },
    };
    let strike: u64 = match fixed_decimal(price, 8) {
        Some(n) => n,
        None => { return None; },
    };
    if !osi_spells(osi, symbol, year, month, day, contract, price) {
        return None;
    }
    proof {
        crate::text::lemma_pow10_small(2);
    }
    match OptionData::new(
        symbol,
        2000 + yy as i32,
        mm as i32,
        dd as i32,
        Price::from_thousandths(strike),
        side,
    ) {
        Ok(built) => Some(built),
        Err(_) => None,
    }
}

impl OptionData {
    /// Parses an OSI text: the engine splits it by [`OCC_OSI_REGEX`], then
    /// the split is checked and decoded here.
    pub fn parse_osi(osi: &str) -> (parsed: Result<OptionData, Error>)
        ensures
            outcome_view(parsed) == osi_outcome(
                osi@,
                regex_captures(OCC_OSI_REGEX@, osi_group_names(), osi@),
            ),
            parsed matches Ok(contract) ==> is_osi_text(osi@, contract@),
    {
        let names: [&str; 6] = ["symbol", "year", "month", "day", "contract", "price"];
        let names = names.as_slice();
        assert(names.deep_view() =~= osi_group_names());
        let answer = named_captures(OCC_OSI_REGEX, names, osi);
        OptionData::from_osi_captures(osi, answer)
    }

    /// Decides what parsing `osi` gives for an engine answer: the engine's
    /// failure is passed on; a text without a match is refused, and so is a
    /// split that does not spell the text or whose pieces do not have the
    /// shape of their fields; any other split is decoded.
    pub fn from_osi_captures(osi: &str, answer: Result<Option<Vec<Option<String>>>, String>) -> (parsed:
        Result<OptionData, Error>)
        ensures
            outcome_view(parsed) == osi_outcome(osi@, captures_view(answer)),
            parsed matches Ok(contract) ==> is_osi_text(osi@, contract@),
    {
        match answer {
            Err(diagnostic) => Err(Error::RegexError(diagnostic)),
            Ok(None) => Err(Error::NoResult),
            Ok(Some(groups)) => match decode_osi(osi, &groups) {
                Some(contract) => {
                    proof {
                        lemma_osi_decode_sound(osi@, groups.deep_view());
                    }
                    Ok(contract)
                },
                None => Err(Error::NoResult),
            },
        }
    }

    /// Appends the date, the side and the price.
    fn push_osi_tail(&self, out: &mut String)
        ensures
            final(out)@ == old(out)@ + osi_tail(self@, false),
    {
        let year: i32 = self.get_expiration_year();
        let month: i32 = self.get_expiration_month();
        let day: i32 = self.get_expiration_day();
        // 2147483700 is a multiple of 100 above every negative year.
        let of_century: i64 = (year as i64 + 2_147_483_700) % 100;
        proof {
            lemma_mod_multiples_vanish(21_474_837, year as int, 100);
        }
        push_decimal(out, of_century as u128, 2);
        push_decimal(out, month as u128, 2);
        push_decimal(out, day as u128, 2);
        out.append(self.get_contract_type().code());
        push_decimal(out, self.get_strike_price().thousandths(), 8);
        assert(out@ =~= old(out)@ + osi_tail(self@, false));
    }

    /// The OSI text of the contract, with the ticker padded to six
    /// characters.
    pub fn to_osi_string(&self) -> (text: String)
        ensures
            text@ == osi_text(self@, (6 - self@.symbol.len()) as nat, false),
            self@.valid(),
            self@.strike.thousandths() < 100_000_000 ==> text@.len() == 21,
            fits_osi(self@) ==> is_osi_text(text@, self@),
    {
        let symbol = self.get_symbol();
        let mut text: String = symbol.to_owned();
        push_spaces(&mut text, 6 - symbol.unicode_len());
        self.push_osi_tail(&mut text);
        proof {
            if self@.strike.thousandths() < 100_000_000 {
                let pad = (6 - self@.symbol.len()) as nat;
                lemma_osi_tail_fields(self@, false);
                assert(osi_text(self@, pad, false).len() == self@.symbol.len() + pad + 15);
                assert(self@.symbol.len() + pad <= 6 && text@ == osi_text(self@, pad, false));
            }
        }
        text
    }

    /// The OSI text of the contract, with no padding behind the ticker.
    pub fn to_osi_string_no_symbol_padding(&self) -> (text: String)
        ensures
            text@ == osi_text(self@, 0, false),
            self@.valid(),
            fits_osi(self@) ==> is_osi_text(text@, self@),
    {
        let mut text: String = self.get_symbol().to_owned();
        self.push_osi_tail(&mut text);
        assert(text@ =~= osi_text(self@, 0, false));
        text
    }
}

} // verus!
