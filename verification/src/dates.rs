//! Dates in text, through the `chrono` crate.

use crate::text::optional_text;
use chrono::{DateTime, FixedOffset, Local, NaiveDateTime};
use vstd::prelude::*;

verus! {

/// The format in which the date filter reads a date and a time.
pub const DATE_INPUT_FORMAT: &'static str = "%Y-%m-%d %H:%M:%S";

/// The text of a date and time in another format.
///
/// `value` is read in the format `input_format` as a date and time in UTC,
/// moved to the time zone that lies `offset_seconds` east of UTC, and
/// written in the format `output_format`. The result is `None` if `value`
/// is not in the input format, if the offset is not less than a day, or
/// if the output format is not valid. It depends on the four arguments
/// alone.
pub uninterp spec fn date_text(
    value: Seq<char>,
    input_format: Seq<char>,
    offset_seconds: i32,
    output_format: Seq<char>,
) -> Option<Seq<char>>;

/// Reads a date and time and writes it in another format.
///
/// Trusted: the result is what `chrono` gives when `value` is parsed with
/// `NaiveDateTime::parse_from_str`, placed at the offset made by
/// `FixedOffset::east_opt` with `DateTime::from_naive_utc_and_offset`, and
/// written with `DateTime::format`; `None` where one of these fails. All of
/// them are functions of their arguments.
#[verifier::external_body]
pub(crate) fn format_date(
    value: &str,
    input_format: &str,
    offset_seconds: i32,
    output_format: &str,
) -> (r: Option<String>)
    ensures
        optional_text(r) == date_text(value@, input_format@, offset_seconds, output_format@),
{
    let naive = NaiveDateTime::parse_from_str(value, input_format).ok()?;
    let offset = FixedOffset::east_opt(offset_seconds)?;
    let date = DateTime::<FixedOffset>::from_naive_utc_and_offset(naive, offset);
    let mut out = String::new();
    date.format(output_format).write_to(&mut out).ok()?;
    Some(out)
}

/// The offset of local time from UTC at this moment, in seconds east.
///
/// Trusted: calls `Local::now`. The result depends on the machine's time
/// zone and on the time, so nothing is claimed of it.
#[verifier::external_body]
pub(crate) fn local_offset_seconds() -> i32 {
    Local::now().offset().local_minus_utc()
}

} // verus!
