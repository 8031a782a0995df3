//! The ways in which parsing and validation fail.

use vstd::prelude::*;
use vstd::string::*;

verus! {

/// Why a text was refused.
#[derive(Debug, PartialEq)]
pub enum Error {
    /// The text does not have the shape of the format.
    NoResult,
    /// The year is outside the accepted range: below -2001.
    YearOutOfRange,
    /// The month is not between 1 and 12.
    MonthOutOfRange,
    /// The day does not exist in the month.
    DayOutOfRange,
    /// The check digit disagrees with the rest of the code.
    ChecksumError,
    /// The month abbreviation is not one of `JAN` to `DEC`.
    InvalidMonth,
    /// The pattern engine failed; its diagnostic is kept as text.
    RegexError(String),
}

/// An [`Error`] with its text as a sequence of characters.
pub enum ErrorView {
    NoResult,
    YearOutOfRange,
    MonthOutOfRange,
    DayOutOfRange,
    ChecksumError,
    InvalidMonth,
    RegexError(Seq<char>),
}

impl View for Error {
    type V = ErrorView;

    open spec fn view(&self) -> ErrorView {
        match self {
            Error::NoResult => ErrorView::NoResult,
            Error::YearOutOfRange => ErrorView::YearOutOfRange,
            Error::MonthOutOfRange => ErrorView::MonthOutOfRange,
            Error::DayOutOfRange => ErrorView::DayOutOfRange,
            Error::ChecksumError => ErrorView::ChecksumError,
            Error::InvalidMonth => ErrorView::InvalidMonth,
            Error::RegexError(diagnostic) => ErrorView::RegexError(diagnostic@),
        }
    }
}

impl ErrorView {
    /// The sentence that describes the failure.
    pub open spec fn message(self) -> Seq<char> {
        match self {
            ErrorView::NoResult => "No Result for parsing String"@,
            ErrorView::YearOutOfRange => "Supplied year is out of range and not >2000"@,
            ErrorView::MonthOutOfRange => "Supplied month is out of range and not between 1 and 12 "@,
            ErrorView::DayOutOfRange => "Supplied Year is out of range and not between 1 and 31"@,
            ErrorView::ChecksumError => "Checksum could not be verified"@,
            ErrorView::InvalidMonth => "Supplied month abbreviation is not one of JAN to DEC"@,
            ErrorView::RegexError(diagnostic) => "RegexError: "@ + diagnostic,
        }
    }
}

impl Error {
    /// Renders the failure as a sentence.
    pub fn to_string(&self) -> (text: String)
        ensures
            text@ == self@.message(),
    {
        match self {
            Error::NoResult => "No Result for parsing String".to_owned(),
            Error::YearOutOfRange => "Supplied year is out of range and not >2000".to_owned(),
            Error::MonthOutOfRange => "Supplied month is out of range and not between 1 and 12 ".to_owned(),
            Error::DayOutOfRange => "Supplied Year is out of range and not between 1 and 31".to_owned(),
            Error::ChecksumError => "Checksum could not be verified".to_owned(),
            Error::InvalidMonth => "Supplied month abbreviation is not one of JAN to DEC".to_owned(),
            Error::RegexError(diagnostic) => "RegexError: ".to_owned().concat(diagnostic.as_str()),
        }
    }
}

/// The mathematical content of a result: the view of the value, or of the error.
pub open spec fn outcome_view<T: View>(result: Result<T, Error>) -> Result<T::V, ErrorView> {
    match result {
        Ok(value) => Ok(value@),
        Err(error) => Err(error@),
    }
}

} // verus!
