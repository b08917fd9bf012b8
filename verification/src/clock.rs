//! Monotonic clock readings in whole milliseconds.

use vstd::prelude::*;

verus! {

#[verifier::external_type_specification]
#[verifier::external_body]
pub struct ExInstant(std::time::Instant);

/// std `Instant::now`: the current monotonic instant. Nothing is promised
/// of the value; it depends on when it is called.
#[verifier::external_body]
pub(crate) fn instant_now() -> std::time::Instant {
    std::time::Instant::now()
}

/// std `Instant::elapsed`: time passed since `origin` (zero if `origin` lies
/// in the future). Depends on the clock, so nothing is promised.
#[verifier::external_body]
pub(crate) fn instant_elapsed(origin: &std::time::Instant) -> std::time::Duration {
    origin.elapsed()
}

/// std `Duration::as_millis`: the whole milliseconds of `d`. `Duration` is
/// opaque here, so the value itself is not stated.
#[verifier::external_body]
pub(crate) fn duration_millis(d: &std::time::Duration) -> u128 {
    d.as_millis()
}

#[verifier::external_type_specification]
#[verifier::external_body]
pub struct ExSystemTime(std::time::SystemTime);

/// std `SystemTime::now`: the current wall-clock time. Nothing is promised
/// of the value.
#[verifier::external_body]
pub(crate) fn system_now() -> std::time::SystemTime {
    std::time::SystemTime::now()
}

/// std `SystemTime::duration_since(UNIX_EPOCH)`: the time since the Unix
/// epoch, `None` where `t` lies before it. Depends on the clock, so nothing
/// is promised.
#[verifier::external_body]
pub(crate) fn since_unix_epoch(t: &std::time::SystemTime) -> Option<std::time::Duration> {
    t.duration_since(std::time::UNIX_EPOCH).ok()
}

/// Wall-clock milliseconds since the Unix epoch: 0 before the epoch,
/// saturated at `i64::MAX`.
pub fn unix_time_ms() -> (r: i64)
    ensures
        r >= 0,
{
    let now = system_now();
    match since_unix_epoch(&now) {
        None => 0,
        Some(d) => {
            let ms = duration_millis(&d);
            if ms > i64::MAX as u128 {
                i64::MAX
            } else {
                ms as i64
            }
        },
    }
}

/// Milliseconds elapsed since `origin`, saturated at `u64::MAX`.
pub(crate) fn millis_since(origin: &std::time::Instant) -> u64 {
    let d = instant_elapsed(origin);
    let ms = duration_millis(&d);
    if ms > u64::MAX as u128 {
        u64::MAX
    } else {
        ms as u64
    }
}

} // verus!
