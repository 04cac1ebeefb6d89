//! The calendar date and time of a timestamp, as text.

use vstd::prelude::*;

verus! {

/// The text `YYYY-MM-DD HH:MM:SS` of the UTC date and time that lies `secs`
/// seconds from the epoch, as chrono writes it; `None` where chrono has no
/// date for that many seconds.
pub uninterp spec fn utc_stamp(secs: i64) -> Option<Seq<char>>;

/// The text of the date and time of a file's timestamp: that of chrono for
/// the same number of seconds, and none for a timestamp beyond the signed
/// 64-bit seconds that chrono counts in.
pub open spec fn stamp_of(timestamp: u64) -> Option<Seq<char>> {
    if timestamp > i64::MAX {
        None
    } else {
        utc_stamp(timestamp as i64)
    }
}

/// Calls chrono's `DateTime::from_timestamp` with `secs` and no nanoseconds
/// and, where that gives a date, writes it with `DateTime::format` and the
/// pattern `%Y-%m-%d %H:%M:%S`. Nothing is proved of the text; the contract
/// only gives the outcome its name, `utc_stamp`, which rests on chrono
/// computing both from the seconds alone, in UTC.
#[verifier::external_body]
pub(crate) fn format_utc(secs: i64) -> (text: Option<String>)
    ensures
        match text {
            Some(t) => utc_stamp(secs) == Some(t@),
            None => utc_stamp(secs) is None,
        },
{
    match chrono::DateTime::from_timestamp(secs, 0) {
        Some(moment) => Some(moment.format("%Y-%m-%d %H:%M:%S").to_string()),
        None => None,
    }
}

/// The text of the UTC date and time of a timestamp, or `None` where the
/// timestamp has no calendar date.
pub fn stamp_text(timestamp: u64) -> (text: Option<String>)
    ensures
        match text {
            Some(t) => stamp_of(timestamp) == Some(t@),
            None => stamp_of(timestamp) is None,
        },
{
    if timestamp > 0x7fff_ffff_ffff_ffff {
        None
    } else {
        format_utc(timestamp as i64)
    }
}

} // verus!
