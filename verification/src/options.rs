//! The contract that a listed-option symbol names: an underlying ticker, an
//! expiration date, a strike price and the side of the contract.

use crate::calendar::valid_calendar_date;
pub use crate::calendar::{is_day_in_month_and_year, is_leap_year};
pub use crate::error::Error;
use crate::error::{outcome_view, ErrorView};
use crate::price::{Price, PriceView};
use crate::text::{all_word, is_word_text, lemma_word_is_ascii};
use vstd::prelude::*;
use vstd::string::*;
use vstd::utf8::is_ascii_chars_encode_utf8;

verus! {

/// The side of an option contract.
#[derive(Debug, PartialEq, Eq, Clone, Copy, Structural)]
pub enum ContractType {
    /// The right to buy.
    Call,
    /// The right to sell.
    Put,
}

impl ContractType {
    /// The letter that stands for the side in every text format: `C` or `P`,
    /// or the same letter in lower case.
    pub open spec fn letter(self, lower: bool) -> char {
        match self {
            ContractType::Call => if lower { 'c' } else { 'C' },
            ContractType::Put => if lower { 'p' } else { 'P' },
        }
    }

    /// The side that a letter stands for.
    pub open spec fn of_letter(letter: char) -> Option<ContractType> {
        if letter == 'C' || letter == 'c' {
            Some(ContractType::Call)
        } else if letter == 'P' || letter == 'p' {
            Some(ContractType::Put)
        } else {
            None
        }
    }

    /// The upper-case letter of the side, as a text.
    pub fn code(&self) -> (text: &'static str)
        ensures
            text@ == seq![self.letter(false)],
    {
        proof {
            reveal_strlit("C");
            reveal_strlit("P");
        }
        let text = match self {
            ContractType::Call => "C",
            ContractType::Put => "P",
        };
        assert(text@ =~= seq![self.letter(false)]);
        text
    }

    /// The upper-case letter of the side, as an owned text.
    pub fn to_string(&self) -> (text: String)
        ensures
            text@ == seq![self.letter(false)],
    {
        self.code().to_owned()
    }

    /// The side that a one-letter text stands for, in either case.
    pub fn from_code(text: &str) -> (contract: Option<ContractType>)
        ensures
            contract == if text@.len() == 1 {
                ContractType::of_letter(text@[0])
            } else {
                None
            },
    {
        if !text.is_ascii() {
            assert(text@.len() == 1 ==> !('\0' <= text@[0] <= '\u{7f}'));
            return None;
        }
        let bytes = text.as_bytes();
        proof {
            is_ascii_chars_encode_utf8(text@);
        }
        if bytes.len() != 1 {
            return None;
        }
        let byte: u8 = bytes[0];
        assert(byte == text@[0] as u8);
        if byte == 0x43 || byte == 0x63 {
            Some(ContractType::Call)
        } else if byte == 0x50 || byte == 0x70 {
            Some(ContractType::Put)
        } else {
            None
        }
    }
}

/// An option contract as plain mathematics.
pub struct OptionView {
    pub symbol: Seq<char>,
    pub year: int,
    pub month: int,
    pub day: int,
    pub strike: PriceView,
    pub contract: ContractType,
}

/// Whether `symbol` can be a ticker: one to six word characters.
pub open spec fn is_symbol(symbol: Seq<char>) -> bool {
    1 <= symbol.len() <= 6 && all_word(symbol)
}

impl OptionView {
    /// The ranges that every contract keeps: a ticker of one to six word
    /// characters, a month from 1 to 12, a day from 1 to 31 and a strike
    /// price in its normal form. The year is any year. Whether the day exists in the month is a separate question,
    /// see [`OptionView::on_calendar`].
    pub open spec fn valid(self) -> bool {
        &&& is_symbol(self.symbol)
        &&& 1 <= self.month <= 12
        &&& 1 <= self.day <= 31
        &&& self.strike.normal()
    }

    /// Whether the expiration date exists in the calendar.
    pub open spec fn on_calendar(self) -> bool {
        valid_calendar_date(self.year, self.month, self.day)
    }
}

/// What building a contract from its parts gives: the first part out of
/// range decides the error.
pub open spec fn new_outcome(
    symbol: Seq<char>,
    year: int,
    month: int,
    day: int,
    strike: PriceView,
    contract: ContractType,
) -> Result<OptionView, ErrorView> {
    if !is_symbol(symbol) {
        Err(ErrorView::NoResult)
    } else if !(1 <= month <= 12) {
        Err(ErrorView::MonthOutOfRange)
    } else if !(1 <= day <= 31) {
        Err(ErrorView::DayOutOfRange)
    } else {
        Ok(OptionView { symbol, year, month, day, strike, contract })
    }
}

/// What the date check gives for a year, a month and a day. A year is out
/// of range only below -2001, which is where its bitwise complement exceeds
/// 2000; then the month must be from 1 to 12, then the day must exist in the
/// month of the year.
pub open spec fn ymd_outcome(year: int, month: int, day: int) -> Result<(), ErrorView> {
    if year < -2001 {
        Err(ErrorView::YearOutOfRange)
    } else if !(1 <= month <= 12) {
        Err(ErrorView::MonthOutOfRange)
    } else if !valid_calendar_date(year, month, day) {
        Err(ErrorView::DayOutOfRange)
    } else {
        Ok(())
    }
}

/// Whether `symbol` can be a ticker.
pub fn is_symbol_text(symbol: &str) -> (ok: bool)
    ensures
        ok == is_symbol(symbol@),
{
    if !is_word_text(symbol) {
        return false;
    }
    proof {
        lemma_word_is_ascii(symbol@);
        is_ascii_chars_encode_utf8(symbol@);
    }
    let length: usize = symbol.as_bytes().len();
    1 <= length && length <= 6
}

/// A complete option contract. The strike price is an exact decimal
/// number.
#[derive(Debug, PartialEq)]
pub struct OptionData {
    /// ticker symbol
    symbol: String,
    /// full year -> e.g. 2021
    expiration_year: i32,
    /// expiration month 1->12
    expiration_month: i32,
    /// expiration day  1->31
    expiration_day: i32,
    /// strike price, every digit kept
    strike_price: Price,
    contract_type: ContractType,
}

impl View for OptionData {
    type V = OptionView;

    closed spec fn view(&self) -> OptionView {
        OptionView {
            symbol: self.symbol@,
            year: self.expiration_year as int,
            month: self.expiration_month as int,
            day: self.expiration_day as int,
            strike: self.strike_price@,
            contract: self.contract_type,
        }
    }
}

impl OptionData {
    #[verifier::type_invariant]
    spec fn well_formed(&self) -> bool {
        self@.valid()
    }

    /// Builds a contract from its parts; a ticker, month or day out of range
    /// is refused, and any year and any price is taken.
    pub fn new(
        symbol: &str,
        year: i32,
        month: i32,
        day: i32,
        strike_price: Price,
        contract_type: ContractType,
    ) -> (built: Result<OptionData, Error>)
        ensures
            outcome_view(built) == new_outcome(
                symbol@,
                year as int,
                month as int,
                day as int,
                strike_price@,
                contract_type,
            ),
    {
        proof {
            use_type_invariant(&strike_price);
        }
        if !is_symbol_text(symbol) {
            Err(Error::NoResult)
        } else if !(1 <= month && month <= 12) {
            Err(Error::MonthOutOfRange)
        } else if !(1 <= day && day <= 31) {
            Err(Error::DayOutOfRange)
        } else {
            Ok(
                OptionData {
                    symbol: symbol.to_owned(),
                    expiration_year: year,
                    expiration_month: month,
                    expiration_day: day,
                    strike_price,
                    contract_type,
                },
            )
        }
    }

    /// The ticker symbol.
    pub fn get_symbol(&self) -> (symbol: &str)
        ensures
            symbol@ == self@.symbol,
            self@.valid(),
    {
        proof {
            use_type_invariant(self);
        }
        self.symbol.as_str()
    }

    /// The full year of expiration, such as 2021.
    pub fn get_expiration_year(&self) -> (year: i32)
        ensures
            year == self@.year,
            self@.valid(),
    {
        proof {
            use_type_invariant(self);
        }
        self.expiration_year
    }

    /// The month of expiration, from 1 to 12.
    pub fn get_expiration_month(&self) -> (month: i32)
        ensures
            month == self@.month,
            self@.valid(),
    {
        proof {
            use_type_invariant(self);
        }
        self.expiration_month
    }

    /// The day of expiration, from 1 to 31.
    pub fn get_expiration_day(&self) -> (day: i32)
        ensures
            day == self@.day,
            self@.valid(),
    {
        proof {
            use_type_invariant(self);
        }
        self.expiration_day
    }

    /// The strike price.
    pub fn get_strike_price(&self) -> (strike: Price)
        ensures
            strike@ == self@.strike,
            self@.valid(),
    {
        proof {
            use_type_invariant(self);
        }
        self.strike_price
    }

    /// The side of the contract.
    pub fn get_contract_type(&self) -> (contract: ContractType)
        ensures
            contract == self@.contract,
            self@.valid(),
    {
        proof {
            use_type_invariant(self);
        }
        self.contract_type
    }

    /// Whether the expiration date exists in the calendar.
    pub fn is_on_calendar(&self) -> (ok: bool)
        ensures
            ok == self@.on_calendar(),
            self@.valid(),
    {
        proof {
            use_type_invariant(self);
        }
        is_day_in_month_and_year(self.expiration_year, self.expiration_month, self.expiration_day)
    }

    /// Checks a year, a month and a day against the calendar. The contract
    /// itself is left as it is, whatever the answer. The year is refused
    /// only below -2001 (where its bitwise complement exceeds 2000), so
    /// that 1999 passes; a month outside 1 to 12 is refused next, and last a
    /// day that the month of the year lacks.
    pub fn set_ymd(&self, year: i32, month: i32, day: i32) -> (checked: Result<(), Error>)
        ensures
            outcome_view(checked) == ymd_outcome(year as int, month as int, day as int),
    {
        if year < -2001 {
            return Err(Error::YearOutOfRange);
        }
        if !(month >= 1 && month <= 12) {
            return Err(Error::MonthOutOfRange);
        }
        if !is_day_in_month_and_year(year, month, day) {
            return Err(Error::DayOutOfRange);
        }
        Ok(())
    }
}

} // verus!
