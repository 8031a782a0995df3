//! The text by which Schwab names an option contract, made for people to
//! read: ticker, date with the full year, price with two decimals, side.

use crate::options::{OptionData, OptionView};
use crate::price::PriceView;
use crate::text::{decimal, push_decimal};
use vstd::prelude::*;
use vstd::string::*;

verus! {

/// The price with exactly two decimals, rounded to the nearest hundredth.
pub open spec fn price_text(price: PriceView) -> Seq<char> {
    decimal(price.hundredths() / 100, 1) + seq!['.'] + decimal(price.hundredths() % 100, 2)
}

/// The year on at least four characters: zeros stand in front of a short
/// year, and behind the sign of a year before the year 0.
pub open spec fn year_text(year: int) -> Seq<char> {
    if year >= 0 {
        decimal(year as nat, 4)
    } else {
        seq!['-'] + decimal((-year) as nat, 3)
    }
}

/// The text of a contract: ticker, month, day and year between slashes,
/// price and side, with one space between them.
pub open spec fn schwab_text(contract: OptionView) -> Seq<char> {
    contract.symbol + seq![' '] + decimal(contract.month as nat, 2) + seq!['/'] + decimal(
        contract.day as nat,
        2,
    ) + seq!['/'] + year_text(contract.year) + seq![' '] + price_text(contract.strike)
        + seq![' '] + seq![contract.contract.letter(false)]
}

impl OptionData {
    /// The Schwab text of the contract.
    pub fn to_schwab_string(&self) -> (text: String)
        ensures
            text@ == schwab_text(self@),
            self@.valid(),
    {
        proof {
            reveal_strlit(" ");
            reveal_strlit("/");
            reveal_strlit(".");
            reveal_strlit("-");
        }
        let month: i32 = self.get_expiration_month();
        let day: i32 = self.get_expiration_day();
        let year: i32 = self.get_expiration_year();
        let price: u128 = self.get_strike_price().hundredths();
        let mut text: String = self.get_symbol().to_owned();
        text.append(" ");
        push_decimal(&mut text, month as u128, 2);
        text.append("/");
        push_decimal(&mut text, day as u128, 2);
        text.append("/");
        if year >= 0 {
            push_decimal(&mut text, year as u128, 4);
        } else {
            text.append("-");
            push_decimal(&mut text, (-(year as i64)) as u128, 3);
        }
        text.append(" ");
        push_decimal(&mut text, price / 100, 1);
        text.append(".");
        push_decimal(&mut text, price % 100, 2);
        text.append(" ");
        text.append(self.get_contract_type().code());
        assert(text@ =~= schwab_text(self@));
        text
    }
}

} // verus!
