//! The wall clock, and times of day as the chat shows them.

use vstd::prelude::*;

use crate::text::digit_char;

verus! {

/// The first second (UNIX time) of the range of dates that chrono represents:
/// January 1 of the year -262143.
pub open spec fn chrono_min_seconds() -> int {
    -8_334_601_228_800
}

/// The last second (UNIX time) of the range of dates that chrono represents:
/// December 31 of the year 262142, 23:59:59.
pub open spec fn chrono_max_seconds() -> int {
    8_210_266_876_799
}

/// A UNIX time in seconds that chrono can represent as a date.
pub open spec fn seconds_in_range(secs: int) -> bool {
    chrono_min_seconds() <= secs <= chrono_max_seconds()
}

/// `chrono::Utc::now()`, then `DateTime::timestamp_millis`: the current time
/// in milliseconds since 1970. Claimed: nothing; which time it is is left
/// open.
#[verifier::external_body]
pub(crate) fn now_unix_millis() -> (r: i64) {
    chrono::Utc::now().timestamp_millis()
}

/// `chrono::Utc::now()`, then `DateTime::timestamp`: the current time in whole
/// seconds since 1970 (rounded down). Claimed: only that it is a time chrono
/// can represent, as every `DateTime<Utc>` is; which time it is is left open.
#[verifier::external_body]
pub(crate) fn now_unix_seconds() -> (r: i64)
    ensures
        seconds_in_range(r as int),
{
    chrono::Utc::now().timestamp()
}

/// Two decimal digits of `n` (below 100).
pub open spec fn two_digits(n: int) -> Seq<char> {
    seq![digit_char((n / 10) as nat), digit_char((n % 10) as nat)]
}

/// `HH:MM`, the hour and minute in UTC of the UNIX time `secs`.
pub open spec fn spec_hh_mm(secs: int) -> Seq<char> {
    let day_secs = secs % 86400;
    two_digits(day_secs / 3600) + seq![':'] + two_digits((day_secs % 3600) / 60)
}

/// `chrono::DateTime::<Utc>::from_timestamp(secs, 0)`, then `format("%H:%M")`
/// and `to_string`. Claimed from chrono's source and documentation: a date
/// exists exactly for the seconds in chrono's range, and `%H:%M` gives the
/// zero-padded hour and minute of the day in UTC.
#[verifier::external_body]
fn chrono_hh_mm(secs: i64) -> (r: Option<String>)
    ensures
        match r {
            Some(s) => seconds_in_range(secs as int) && s@ == spec_hh_mm(secs as int),
            None => !seconds_in_range(secs as int),
        },
{
    match chrono::DateTime::<chrono::Utc>::from_timestamp(secs, 0) {
        Some(dt) => Some(dt.format("%H:%M").to_string()),
        None => None,
    }
}

/// The time of day, `HH:MM` in UTC, of a time in milliseconds since 1970;
/// where chrono cannot represent that time, the time of day now.
pub fn format_timestamp(timestamp_ms: u64) -> (r: String)
    ensures
        seconds_in_range((timestamp_ms / 1000) as int) ==> r@ == spec_hh_mm((timestamp_ms / 1000) as int),
        !seconds_in_range((timestamp_ms / 1000) as int) ==> exists|t: int| seconds_in_range(t) && r@ == spec_hh_mm(t),
{
    let seconds = (timestamp_ms / 1000) as i64;
    match chrono_hh_mm(seconds) {
        Some(s) => s,
        None => {
            let now = now_unix_seconds();
            match chrono_hh_mm(now) {
                Some(s) => s,
                None => {
                    proof {
                        assert(false);
                    }
                    String::new()
                },
            }
        },
    }
}

} // verus!
