//! The wall clock, in milliseconds since the Unix epoch.
use std::time::UNIX_EPOCH;
use vstd::prelude::*;

verus! {

/// The longest span between two times, in nanoseconds: as many seconds as `u64` counts, and one
/// nanosecond less than a second.
pub const MAX_SPAN_NS: u128 = 18_446_744_073_709_551_615_999_999_999;

/// `SystemTime::elapsed` of the Unix epoch: how far the clock stands after the epoch, or, as an
/// error, how far before it, in nanoseconds. The time is whatever it is. All that is claimed of it
/// is what `Duration` says of every span: its whole seconds are a `u64`, and what is left is less
/// than a second.
#[verifier::external_body]
fn since_epoch() -> (reading: Result<u128, u128>)
    ensures
        match reading {
            Ok(after) => after <= MAX_SPAN_NS,
            Err(before) => before <= MAX_SPAN_NS,
        },
{
    UNIX_EPOCH.elapsed().map(|after| after.as_nanos()).map_err(|before| before.duration().as_nanos())
}

/// The milliseconds of a time that stands this many nanoseconds after the epoch; a time before the
/// epoch counts as the epoch.
pub open spec fn millis_of(time_ns: i128) -> i64 {
    if time_ns < 0 {
        0
    } else {
        (time_ns / 1_000_000) as i64
    }
}

/// The milliseconds of a time that stands this many nanoseconds after the epoch; a time before the
/// epoch counts as the epoch.
pub fn system_time_ms(time_ns: i128) -> (millis: i64)
    ensures
        millis == millis_of(time_ns),
{
    if time_ns < 0 {
        0
    } else {
        #[verifier::truncate]
        let millis = (time_ns / 1_000_000) as i64;
        millis
    }
}

/// The nanoseconds that a reading of the clock stands after the epoch. A reading too far off for
/// the type counts as the farthest that the type holds.
pub open spec fn nanos_of(reading: Result<u128, u128>) -> i128 {
    match reading {
        Ok(after) => if after <= i128::MAX {
            after as i128
        } else {
            i128::MAX
        },
        Err(before) => if before <= i128::MAX {
            (-before) as i128
        } else {
            i128::MIN
        },
    }
}

/// The nanoseconds that a reading of the clock stands after the epoch.
pub fn reading_ns(reading: Result<u128, u128>) -> (nanos: i128)
    ensures
        nanos == nanos_of(reading),
{
    match reading {
        Ok(after) => if after <= i128::MAX as u128 {
            after as i128
        } else {
            i128::MAX
        },
        Err(before) => if before <= i128::MAX as u128 {
            -(before as i128)
        } else {
            i128::MIN
        },
    }
}

/// The time now, in nanoseconds after the Unix epoch. It is never so far off that a span of any
/// number of seconds could not be added to it.
pub fn now_ns() -> (nanos: i128)
    ensures
        -MAX_SPAN_NS <= nanos <= MAX_SPAN_NS,
{
    reading_ns(since_epoch())
}

/// The time now, in milliseconds after the Unix epoch; a clock that stands before the epoch reads
/// as the epoch.
pub fn now_ms() -> i64 {
    system_time_ms(now_ns())
}

/// A time after the epoch has as many milliseconds as are over by then; one before it has none.
pub proof fn law_millis(time_ns: i128)
    ensures
        time_ns < 0 ==> millis_of(time_ns) == 0,
        0 <= time_ns < 9_223_372_036_854_775_808 * 1_000_000 ==> millis_of(time_ns) * 1_000_000
            <= time_ns < (millis_of(time_ns) + 1) * 1_000_000,
{
}

/// A reading of the clock counts up from the epoch and down before it, as far as the type goes.
pub proof fn law_nanos(span: u128)
    requires
        span <= i128::MAX,
    ensures
        nanos_of(Ok(span)) == span,
        nanos_of(Err(span)) == -span,
        nanos_of(Ok(span)) + nanos_of(Err(span)) == 0,
{
}

} // verus!
