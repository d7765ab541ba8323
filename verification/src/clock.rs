//! The time.

use vstd::prelude::*;

verus! {

/// `std::time::SystemTime`, a reading of the clock.
#[verifier::external_type_specification]
#[verifier::external_body]
pub struct ExSystemTime(std::time::SystemTime);

/// `std::time::SystemTime::now` reads the clock; nothing is promised of it.
pub assume_specification[ std::time::SystemTime::now ]() -> (now: std::time::SystemTime)
;

/// The time from the Unix epoch to a reading of the clock, where the reading
/// does not stand before it.
pub uninterp spec fn time_since_epoch(now: std::time::SystemTime) -> Option<std::time::Duration>;

/// The whole milliseconds of a duration.
pub uninterp spec fn whole_millis(passed: std::time::Duration) -> u128;

/// `std::time::SystemTime::duration_since` the Unix epoch: the time passed
/// since then, or nothing where the reading stands before it.
#[verifier::external_body]
fn since_epoch(now: std::time::SystemTime) -> (passed: Option<std::time::Duration>)
    ensures
        passed == time_since_epoch(now),
{
    now.duration_since(std::time::UNIX_EPOCH).ok()
}

/// `std::time::Duration::as_millis`: the whole milliseconds of a duration.
pub assume_specification[ std::time::Duration::as_millis ](
    passed: &std::time::Duration,
) -> (millis: u128)
    ensures
        millis == whole_millis(*passed),
;

/// The milliseconds since the Unix epoch at a reading of the clock, as many as
/// a `u64` holds; zero where the reading stands before it.
pub open spec fn epoch_millis(now: std::time::SystemTime) -> u64 {
    match time_since_epoch(now) {
        Some(passed) => whole_millis(passed) as u64,
        None => 0,
    }
}

/// The milliseconds are those of a reading of the clock.
pub open spec fn is_reading(millis: u64) -> bool {
    exists|now: std::time::SystemTime| millis == #[trigger] epoch_millis(now)
}

/// The milliseconds since the Unix epoch, now.
pub fn now_ms() -> (millis: u64)
    ensures
        is_reading(millis),
{
    let now: std::time::SystemTime = std::time::SystemTime::now();
    let millis: u64 = match since_epoch(now) {
        Some(passed) => passed.as_millis() as u64,
        None => 0,
    };
    proof {
        assert(millis == epoch_millis(now));
    }
    millis
}

/// The whole seconds since the Unix epoch, now.
pub fn now_seconds() -> (seconds: u64)
    ensures
        exists|now: u64| #[trigger] is_reading(now) && seconds == now / 1000,
{
    now_ms() / 1000
}

/// An integer as a `u64` holds it, with its wrap.
pub open spec fn wrap_u64(n: int) -> u64 {
    (n % 0x1_0000_0000_0000_0000) as u64
}

/// Seconds in milliseconds, with the wrap of a `u64`.
pub open spec fn in_millis(seconds: u64) -> u64 {
    wrap_u64(seconds * 1000)
}

/// Seconds in milliseconds.
pub fn millis_of(seconds: u64) -> (millis: u64)
    ensures
        millis == in_millis(seconds),
{
    seconds.wrapping_mul(1000)
}

/// The milliseconds between two readings of the clock, with the wrap of a
/// `u64` where the second stands before the first.
pub open spec fn millis_between(earlier: u64, later: u64) -> u64 {
    wrap_u64(later - earlier)
}

/// The milliseconds between two readings of the clock.
pub fn millis_passed(earlier: u64, later: u64) -> (millis: u64)
    ensures
        millis == millis_between(earlier, later),
{
    later.wrapping_sub(earlier)
}

/// Two decimal digits at that place, together under a limit.
pub open spec fn two_digits(text: Seq<char>, at: int, limit: int) -> bool {
    &&& '0' <= text[at] <= '9'
    &&& '0' <= text[at + 1] <= '9'
    &&& (text[at] as int - '0' as int) * 10 + (text[at + 1] as int - '0' as int) < limit
}

/// A time of day, as `HH:MM:SS`.
pub open spec fn is_time_of_day(text: Seq<char>) -> bool {
    &&& text.len() == 8
    &&& two_digits(text, 0, 24)
    &&& text[2] == ':'
    &&& two_digits(text, 3, 60)
    &&& text[5] == ':'
    &&& two_digits(text, 6, 61)
}

/// `chrono::Utc::now` written with `%H:%M:%S`: the time of day in UTC, with a
/// second 60 where a leap second is told. Which time it is, the clock decides.
/// The call panics where the clock stands before the Unix epoch.
#[verifier::external_body]
pub(crate) fn utc_time_of_day() -> (text: String)
    ensures
        is_time_of_day(text@),
{
    chrono::Utc::now().format("%H:%M:%S").to_string()
}

} // verus!
