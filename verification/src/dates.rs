//! Publication timestamps: a calendar date-time with a fixed numeric UTC
//! offset, and the strict RFC 2822 parse that feed items require.

use vstd::prelude::*;
use chrono::Datelike;
use chrono::Timelike;

verus! {

/// A calendar date-time with a fixed numeric UTC offset, held as plain
/// calendar fields. No time-zone database is involved: the offset is the
/// literal number of seconds east of UTC that the parsed text carried.
#[derive(Clone, Copy, Debug, PartialEq, Eq, Structural)]
pub struct FeedDate {
    pub year: i32,
    pub month: u32,
    pub day: u32,
    pub hour: u32,
    pub minute: u32,
    pub second: u32,
    pub offset_seconds: i32,
}

/// What the RFC 2822 parser yields on non-empty text: `Some` date for
/// valid input, `None` where the text is not a strict RFC 2822 date-time.
pub uninterp spec fn rfc2822_nonempty(s: Seq<char>) -> Option<FeedDate>;

/// The result of parsing `s` strictly as an RFC 2822 date-time (for
/// example `Tue, 03 Jun 2003 09:39:21 GMT`), with no lenient fallback
/// formats. Empty text has no day, month or year, so it never parses.
pub open spec fn rfc2822_date(s: Seq<char>) -> Option<FeedDate> {
    if s.len() == 0 {
        None
    } else {
        rfc2822_nonempty(s)
    }
}

/// Relies on chrono's `DateTime::parse_from_rfc2822`: a deterministic
/// function of the text alone, returning a date-time with a fixed numeric
/// offset or a parse error; an empty string always fails to parse.
#[verifier::external_body]
pub fn parse_rfc2822(s: &str) -> (r: Result<FeedDate, chrono::format::ParseError>)
    ensures
        s@.len() == 0 ==> r is Err,
        s@.len() > 0 ==> match r {
            Ok(d) => rfc2822_nonempty(s@) == Some(d),
            Err(_) => rfc2822_nonempty(s@) is None,
        },
{
    match chrono::DateTime::parse_from_rfc2822(s) {
        Ok(d) => Ok(
            FeedDate {
                year: d.year(),
                month: d.month(),
                day: d.day(),
                hour: d.hour(),
                minute: d.minute(),
                second: d.second(),
                offset_seconds: d.offset().local_minus_utc(),
            },
        ),
        Err(e) => Err(e),
    }
}

} // verus!
