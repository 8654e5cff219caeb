//! The wall clock, as chat messages show it: the minute, in Tokyo.
//!
//! The library does not read the clock. Its driver does, and hands the
//! instant in as seconds since 1970 UTC.

use crate::text::is_digit;
use chrono::TimeZone;
use vstd::prelude::*;

verus! {

/// The first second of the year 0 in UTC.
pub const FIRST_PLAIN_INSTANT: i64 = -62_167_219_200;

/// Ten hours before the end of the year 9999 in UTC.
pub const LAST_PLAIN_INSTANT: i64 = 253_402_264_799;

/// Whether the instant lies where the year in Tokyo is sure to have four
/// digits: Tokyo's clocks have always been between nine and ten hours ahead
/// of UTC, so from the start of the year 0 in UTC to ten hours before the
/// end of the year 9999 the year there is between 0 and 9999.
pub open spec fn four_digit_years(unix_seconds: i64) -> bool {
    FIRST_PLAIN_INSTANT <= unix_seconds <= LAST_PLAIN_INSTANT
}

/// Whether `text` has the shape `YYYY/MM/DD HH:MM`: sixteen characters, all
/// of them digits but for the two slashes, the space and the colon.
pub open spec fn is_minute_text(text: Seq<char>) -> bool {
    &&& text.len() == 16
    &&& text[4] == '/'
    &&& text[7] == '/'
    &&& text[10] == ' '
    &&& text[13] == ':'
    &&& forall|i: int|
        0 <= i < 16 && i != 4 && i != 7 && i != 10 && i != 13 ==> is_digit(#[trigger] text[i])
}

/// The text for the minute of an instant, given in seconds since 1970 UTC:
/// year, month, day, hour and minute on the wall clocks of the `Asia/Tokyo`
/// zone, as `YYYY/MM/DD HH:MM`. `None` for an instant that lies outside the
/// calendar's range.
pub uninterp spec fn tokyo_minute_text(unix_seconds: i64) -> Option<Seq<char>>;

/// The stamp that a message received at the given instant shows: the minute
/// text, and nothing where the instant has none.
pub open spec fn stamp_text(unix_seconds: i64) -> Seq<char> {
    match tokyo_minute_text(unix_seconds) {
        Some(text) => text,
        None => Seq::empty(),
    }
}

/// Writes the minute of an instant with chrono: `TimeZone::timestamp_opt` of
/// `chrono_tz::Asia::Tokyo` makes the date and time in that zone, which is
/// `None` exactly where the seconds are out of chrono's range, and
/// `DateTime::format` writes it as `%Y/%m/%d %H:%M`. The zone's rules are
/// compiled into `chrono_tz`, so the text is a function of the instant
/// alone; it is named `tokyo_minute_text`. chrono writes `%Y` with four
/// digits for the years 0 to 9999 and each of `%m`, `%d`, `%H`, `%M` with
/// two, padded with zeros; the zone's offsets all lie between nine and ten
/// hours, and chrono's range reaches far beyond these years. So within
/// `four_digit_years` there is a text and it has the shape `is_minute_text`.
#[verifier::external_body]
fn tokyo_minute(unix_seconds: i64) -> (text: Option<String>)
    ensures
        match text {
            Some(t) => tokyo_minute_text(unix_seconds) == Some(t@),
            None => tokyo_minute_text(unix_seconds) is None,
        },
        four_digit_years(unix_seconds) ==> (match text {
            Some(t) => is_minute_text(t@),
            None => false,
        }),
{
    match chrono_tz::Asia::Tokyo.timestamp_opt(unix_seconds, 0).single() {
        Some(moment) => Some(moment.format("%Y/%m/%d %H:%M").to_string()),
        None => None,
    }
}

/// The stamp for the instant `unix_seconds`. It is empty where the instant
/// lies outside the calendar's range; for the years 0 to 9999 it has the
/// shape `YYYY/MM/DD HH:MM`.
pub fn minute_stamp(unix_seconds: i64) -> (stamp: String)
    ensures
        stamp@ == stamp_text(unix_seconds),
        four_digit_years(unix_seconds) ==> is_minute_text(stamp@),
{
    match tokyo_minute(unix_seconds) {
        Some(text) => text,
        None => String::new(),
    }
}

} // verus!
