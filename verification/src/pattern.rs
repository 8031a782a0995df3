//! The boundary to the regular-expression engine. Everything the library knows
//! about a match comes through [`named_captures`]; nothing in its contract is
//! proved here.

use crate::activity::IB_ACTIVITY_STATEMENT_TRADES;
use crate::isin::ISIN_REGEX;
use crate::osi::OCC_OSI_REGEX;
use vstd::prelude::*;

verus! {

/// Whether `pattern` is one of the three patterns of this library. None of
/// them calls a group as a subroutine.
pub open spec fn is_library_pattern(pattern: Seq<char>) -> bool {
    pattern == ISIN_REGEX@ || pattern == OCC_OSI_REGEX@ || pattern == IB_ACTIVITY_STATEMENT_TRADES@
}

/// The engine's answer for one of the library's patterns, a list of group
/// names and a text:
/// `Err` with the engine's diagnostic when it cannot compile or run the
/// pattern, `Ok(None)` when the text does not match, and otherwise the text
/// captured by each named group, in the order of the names, with `None` for a
/// group that took no part in the match.
pub uninterp spec fn regex_captures(pattern: Seq<char>, names: Seq<Seq<char>>, text: Seq<char>) -> Result<Option<Seq<Option<Seq<char>>>>, Seq<char>>;

/// The mathematical content of an engine answer.
pub open spec fn captures_view(answer: Result<Option<Vec<Option<String>>>, String>) -> Result<
    Option<Seq<Option<Seq<char>>>>,
    Seq<char>,
> {
    match answer {
        Ok(Some(groups)) => Ok(Some(groups.deep_view())),
        Ok(None) => Ok(None),
        Err(diagnostic) => Err(diagnostic@),
    }
}

/// Compiles `pattern` with `fancy_regex::Regex::new`, runs
/// `Regex::captures` on `text` and reads each group in `names` with
/// `Captures::name` and `Match::as_str`; an engine error is rendered with its
/// `Display` text. The contract only gives the answer its name, and only for
/// the patterns of this library. For a pattern with subroutine calls the
/// engine's diagnostic can depend on the order in which a hash map is
/// walked, so such a pattern is not admitted; for the three admitted ones the
/// engine compiles and runs the same way every time, and equal arguments
/// give equal answers. Nothing is claimed about which texts match.
#[verifier::external_body]
pub(crate) fn named_captures(pattern: &str, names: &[&str], text: &str) -> (answer: Result<
    Option<Vec<Option<String>>>,
    String,
>)
    requires
        is_library_pattern(pattern@),
    ensures
        captures_view(answer) == regex_captures(pattern@, names.deep_view(), text@),
{
    let regex = fancy_regex::Regex::new(pattern).map_err(|e| e.to_string())?;
    let found = regex.captures(text).map_err(|e| e.to_string())?;
    Ok(found.map(|c| names.iter().map(|n| c.name(n).map(|m| m.as_str().to_string())).collect()))
}

} // verus!
