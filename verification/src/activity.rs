//! The text by which a broker's activity statement names an option contract:
//! ticker, day, month abbreviation and year without separators, price as a
//! decimal number and side, with one space between them.

use crate::error::{outcome_view, Error, ErrorView};
use crate::options::{is_symbol, is_symbol_text, ContractType, OptionData, OptionView};
use crate::osi::group_text;
use crate::pattern::{captures_view, named_captures, regex_captures};
use crate::price::{is_price, parse_price, price_of, Price};
use crate::text::{
    all_digits, all_word, decimal_value, fixed_decimal, is_word_text, lemma_pow10_small,
};
use vstd::prelude::*;
use vstd::string::*;
use vstd::utf8::{is_ascii_chars, is_ascii_chars_encode_utf8};

verus! {

/// The shape of the text, as in `KO 28MAY21 32.01 C`.
pub const IB_ACTIVITY_STATEMENT_TRADES: &'static str =
    "^(?P<symbol>[A-Za-z0-9_]{1,6}) (?P<day>0[1-9]|[12][0-9]|3[01])(?P<month>[A-Za-z0-9_]{3})(?P<year>[0-9]{2}) (?P<price>[0-9]*[.]?[0-9]+) (?P<contract>C|P|c|p)$";

/// The groups that [`IB_ACTIVITY_STATEMENT_TRADES`] names, in the order in
/// which they are read.
pub open spec fn activity_group_names() -> Seq<Seq<char>> {
    seq!["symbol"@, "day"@, "month"@, "year"@, "price"@, "contract"@]
}

/// The number of the month that a three-letter abbreviation in upper case
/// stands for.
pub open spec fn month_number(abbreviation: Seq<char>) -> Option<int> {
    if abbreviation == seq!['J', 'A', 'N'] {
        Some(1)
    } else if abbreviation == seq!['F', 'E', 'B'] {
        Some(2)
    } else if abbreviation == seq!['M', 'A', 'R'] {
        Some(3)
    } else if abbreviation == seq!['A', 'P', 'R'] {
        Some(4)
    } else if abbreviation == seq!['M', 'A', 'Y'] {
        Some(5)
    } else if abbreviation == seq!['J', 'U', 'N'] {
        Some(6)
    } else if abbreviation == seq!['J', 'U', 'L'] {
        Some(7)
    } else if abbreviation == seq!['A', 'U', 'G'] {
        Some(8)
    } else if abbreviation == seq!['S', 'E', 'P'] {
        Some(9)
    } else if abbreviation == seq!['O', 'C', 'T'] {
        Some(10)
    } else if abbreviation == seq!['N', 'O', 'V'] {
        Some(11)
    } else if abbreviation == seq!['D', 'E', 'C'] {
        Some(12)
    } else {
        None
    }
}

/// Whether the six pieces, with one space between the words, spell `text`.
pub open spec fn activity_spelled(
    text: Seq<char>,
    symbol: Seq<char>,
    day: Seq<char>,
    month: Seq<char>,
    year: Seq<char>,
    price: Seq<char>,
    contract: Seq<char>,
) -> bool {
    text == symbol + seq![' '] + day + month + year + seq![' '] + price + seq![' '] + contract
}

/// The contract that the captured groups of a match stand for, or why there
/// is none: a split whose pieces are out of shape or do not spell the text
/// is no result, then a month that is no abbreviation is an invalid month,
/// then a price whose digits do not fit in 64 bits is no result. Every
/// other price is kept as it is written, to the last digit.
pub open spec fn activity_decode(text: Seq<char>, groups: Seq<Option<Seq<char>>>) -> Result<
    OptionView,
    ErrorView,
> {
    if groups.len() == 6 && (forall|i: int| 0 <= i < 6 ==> (#[trigger] groups[i]) is Some) {
        let symbol = groups[0]->0;
        let day = groups[1]->0;
        let month = groups[2]->0;
        let year = groups[3]->0;
        let price = groups[4]->0;
        let contract = groups[5]->0;
        if !(is_symbol(symbol) && day.len() == 2 && all_digits(day) && 1 <= decimal_value(day) <= 31
            && month.len() == 3 && all_word(month) && year.len() == 2 && all_digits(year)
            && is_price(price) && contract.len() == 1 && ContractType::of_letter(contract[0]) is Some
            && activity_spelled(text, symbol, day, month, year, price, contract)) {
            Err(ErrorView::NoResult)
        } else if month_number(month) is None {
            Err(ErrorView::InvalidMonth)
        } else if price_of(price).digits > u64::MAX {
            Err(ErrorView::NoResult)
        } else {
            Ok(
                OptionView {
                    symbol,
                    year: 2000 + decimal_value(year),
                    month: month_number(month)->0,
                    day: decimal_value(day),
                    strike: price_of(price),
                    contract: ContractType::of_letter(contract[0])->0,
                },
            )
        }
    } else {
        Err(ErrorView::NoResult)
    }
}

/// What parsing `text` gives, once the engine has answered.
pub open spec fn activity_outcome(
    text: Seq<char>,
    answer: Result<Option<Seq<Option<Seq<char>>>>, Seq<char>>,
) -> Result<OptionView, ErrorView> {
    match answer {
        Err(diagnostic) => Err(ErrorView::RegexError(diagnostic)),
        Ok(None) => Err(ErrorView::NoResult),
        Ok(Some(groups)) => activity_decode(text, groups),
    }
}

/// The number of the month that `text` abbreviates.
pub fn month_of(text: &str) -> (month: Option<i32>)
    ensures
        match month {
            Some(m) => month_number(text@) == Some(m as int),
            None => month_number(text@) is None,
        },
{
    if !text.is_ascii() {
        proof {
            if month_number(text@) is Some {
                assert(is_ascii_chars(text@));
            }
        }
        return None;
    }
    let bytes = text.as_bytes();
    proof {
        is_ascii_chars_encode_utf8(text@);
    }
    if bytes.len() != 3 {
        return None;
    }
    let first: u8 = bytes[0];
    let second: u8 = bytes[1];
    let third: u8 = bytes[2];
    assert(first == text@[0] as u8 && second == text@[1] as u8 && third == text@[2] as u8);
    let month: Option<i32> = if first == 0x4a && second == 0x41 && third == 0x4e {
        Some(1)
    } else if first == 0x46 && second == 0x45 && third == 0x42 {
        Some(2)
    } else if first == 0x4d && second == 0x41 && third == 0x52 {
        Some(3)
    } else if first == 0x41 && second == 0x50 && third == 0x52 {
        Some(4)
    } else if first == 0x4d && second == 0x41 && third == 0x59 {
        Some(5)
    } else if first == 0x4a && second == 0x55 && third == 0x4e {
        Some(6)
    } else if first == 0x4a && second == 0x55 && third == 0x4c {
        Some(7)
    } else if first == 0x41 && second == 0x55 && third == 0x47 {
        Some(8)
    } else if first == 0x53 && second == 0x45 && third == 0x50 {
        Some(9)
    } else if first == 0x4f && second == 0x43 && third == 0x54 {
        Some(10)
    } else if first == 0x4e && second == 0x4f && third == 0x56 {
        Some(11)
    } else if first == 0x44 && second == 0x45 && third == 0x43 {
        Some(12)
    } else {
        None
    };
    assert(text@ =~= seq![text@[0], text@[1], text@[2]]);
    month
}

/// Whether the six pieces spell `text`.
fn activity_spells(
    text: &str,
    symbol: &str,
    day: &str,
    month: &str,
    year: &str,
    price: &str,
    contract: &str,
) -> (ok: bool)
    ensures
        ok == activity_spelled(text@, symbol@, day@, month@, year@, price@, contract@),
{
    proof {
        reveal_strlit(" ");
    }
    let mut spelled: String = symbol.to_owned();
    spelled.append(" ");
    spelled.append(day);
    spelled.append(month);
    spelled.append(year);
    spelled.append(" ");
    spelled.append(price);
    spelled.append(" ");
    spelled.append(contract);
    let whole: String = text.to_owned();
    assert(spelled@ =~= symbol@ + seq![' '] + day@ + month@ + year@ + seq![' '] + price@ + seq![' ']
        + contract@);
    spelled == whole
}

/// The contract that the groups of a match stand for.
fn decode_activity(text: &str, groups: &Vec<Option<String>>) -> (decoded: Result<OptionData, Error>)
    ensures
        outcome_view(decoded) == activity_decode(text@, groups.deep_view()),
{
    if groups.len() != 6 {
        return Err(Error::NoResult);
    }
    let symbol = match group_text(groups, 0) {
        Some(t) => t,
        None => { return Err(Error::NoResult); },
    };
    let day = match group_text(groups, 1) {
        Some(t) => t,
        None => { return Err(Error::NoResult); },
    };
    let month = match group_text(groups, 2) {
        Some(t) => t,
        None => { return Err(Error::NoResult); },
    };
    let year = match group_text(groups, 3) {
        Some(t) => t,
        None => { return Err(Error::NoResult); },
    };
    let price = match group_text(groups, 4) {
        Some(t) => t,
        None => { return Err(Error::NoResult); },
    };
    let contract = match group_text(groups, 5) {
        Some(t) => t,
        None => { return Err(Error::NoResult); },
    };
    if !is_symbol_text(symbol) {
        return Err(Error::NoResult);
    }
    let dd: u64 = match fixed_decimal(day, 2) {
        Some(n) => n,
        None => { return Err(Error::NoResult); },
    };
    if dd < 1 || dd > 31 {
        return Err(Error::NoResult);
    }
    if !is_word_text(month) || month.unicode_len() != 3 {
        return Err(Error::NoResult);
    }
    let yy: u64 = match fixed_decimal(year, 2) {
        Some(n) => n,
        None => { return Err(Error::NoResult); },
    };
    let parsed_price: Option<Price> = match parse_price(price) {
        Ok(p) => p,
        Err(_) => { return Err(Error::NoResult); },
    };
    let side: ContractType = match ContractType::from_code(contract) {
        Some(c) => c,
        None => { return Err(Error::NoResult); },
    };
    if !activity_spells(text, symbol, day, month, year, price, contract) {
        return Err(Error::NoResult);
    }
    let mm: i32 = match month_of(month) {
        Some(m) => m,
        None => { return Err(Error::InvalidMonth); },
    };
    let strike: Price = match parsed_price {
        Some(p) => p,
        None => { return Err(Error::NoResult); },
    };
    proof {
        lemma_pow10_small(2);
    }
    OptionData::new(symbol, 2000 + yy as i32, mm, dd as i32, strike, side)
}

impl OptionData {
    /// Parses the text of an activity statement: the engine splits it by
    /// [`IB_ACTIVITY_STATEMENT_TRADES`], then the split is checked and
    /// decoded here.
    pub fn parse_ib_activity_statement_trades_symbol(osi: &str) -> (parsed: Result<OptionData, Error>)
        ensures
            outcome_view(parsed) == activity_outcome(
                osi@,
                regex_captures(IB_ACTIVITY_STATEMENT_TRADES@, activity_group_names(), osi@),
            ),
    {
        let names: [&str; 6] = ["symbol", "day", "month", "year", "price", "contract"];
        let names = names.as_slice();
        assert(names.deep_view() =~= activity_group_names());
        let answer = named_captures(IB_ACTIVITY_STATEMENT_TRADES, names, osi);
        OptionData::from_activity_captures(osi, answer)
    }

    /// Decides what parsing `text` gives for an engine answer: the engine's
    /// failure is passed on, a text without a match is refused, and a split
    /// is decoded as [`activity_decode`] says.
    pub fn from_activity_captures(
        text: &str,
        answer: Result<Option<Vec<Option<String>>>, String>,
    ) -> (parsed: Result<OptionData, Error>)
        ensures
            outcome_view(parsed) == activity_outcome(text@, captures_view(answer)),
    {
        match answer {
            Err(diagnostic) => Err(Error::RegexError(diagnostic)),
            Ok(None) => Err(Error::NoResult),
            Ok(Some(groups)) => decode_activity(text, &groups),
        }
    }
}

} // verus!
