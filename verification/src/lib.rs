//! Parsing, validation and serialization of financial identifiers:
//! International Securities Identification Numbers and listed-option symbols.
//!
//! - [`isin`]: the twelve-character security code and its Luhn check digit.
//! - [`options`]: the option contract, its parts and the date check.
//! - [`osi`]: the OCC symbology text, read and written.
//! - [`activity`]: the text of a broker's activity statement, read.
//! - [`schwab`]: the Schwab text, written.
//! - [`calendar`]: leap years and the days of each month.
//! - [`price`]: exact decimal prices, read with every digit kept.
//! - [`pattern`]: the regular-expression engine that splits a text.
//! - [`text`], [`error`]: character classes, decimal notation, failures.
//!
//! Prices are exact decimal numbers; only the OCC text cuts them to whole
//! thousandths, and only the Schwab text rounds them to hundredths.

pub mod activity;
pub mod calendar;
pub mod error;
pub mod isin;
pub mod options;
pub mod osi;
pub mod pattern;
pub mod price;
pub mod schwab;
pub mod text;
