//! The clocks the library reads. What they return depends on when they are
//! read, so of a reading only what holds of every outcome is claimed: that it
//! is a duration, counted in whole seconds or in nanoseconds.
use std::time::{Instant, SystemTime};
use vstd::prelude::*;

verus! {

#[verifier::external_type_specification]
#[verifier::external_body]
pub struct ExInstant(Instant);

#[verifier::external_type_specification]
#[verifier::external_body]
pub struct ExSystemTime(SystemTime);

/// `Instant::now`: the current reading of the monotonic clock.
pub assume_specification[ Instant::now ]() -> Instant;

/// `Instant::elapsed`: how long ago `i` was taken.
pub assume_specification[ Instant::elapsed ](i: &Instant) -> core::time::Duration;

/// The total number of nanoseconds a duration holds.
pub uninterp spec fn duration_nanos(d: core::time::Duration) -> u128;

/// `Duration::as_secs`: the whole seconds of `d`, its fractional part left
/// out; that is, its total nanoseconds divided by a billion, rounded down.
pub assume_specification[ core::time::Duration::as_secs ](d: &core::time::Duration) -> (r: u64)
    ensures
        r == duration_nanos(*d) / 1_000_000_000,
;

/// `Duration::as_nanos`: the total number of nanoseconds of `d`.
pub assume_specification[ core::time::Duration::as_nanos ](d: &core::time::Duration) -> (r: u128)
    ensures
        r == duration_nanos(*d),
;

/// `SystemTime::now`: the current wall-clock time.
pub assume_specification[ SystemTime::now ]() -> SystemTime;

#[verifier::external_type_specification]
#[verifier::external_body]
pub struct ExSystemTimeError(std::time::SystemTimeError);

/// `SystemTime::UNIX_EPOCH`: midnight, 1 January 1970, UTC.
#[verifier::external_body]
fn unix_epoch() -> SystemTime {
    SystemTime::UNIX_EPOCH
}

/// `SystemTime::duration_since`: how long after `earlier` the time `t` is,
/// or an error when it is before it.
pub assume_specification[ SystemTime::duration_since ](
    t: &SystemTime,
    earlier: SystemTime,
) -> Result<core::time::Duration, std::time::SystemTimeError>;

/// Nanoseconds since the Unix epoch on the wall clock, or 0 when the clock
/// reads earlier than the epoch.
pub(crate) fn nanos_since_epoch(t: &SystemTime) -> (r: u128)
    ensures
        r == 0 || exists|d: core::time::Duration| r == duration_nanos(d),
{
    match t.duration_since(unix_epoch()) {
        Ok(d) => d.as_nanos(),
        Err(_) => 0,
    }
}

/// Whole seconds since `i` was taken.
pub(crate) fn seconds_since(i: &Instant) -> (r: u64)
    ensures
        exists|d: core::time::Duration| r == duration_nanos(d) / 1_000_000_000,
{
    let d = i.elapsed();
    d.as_secs()
}

/// Nanoseconds since `i` was taken, capped at `u64::MAX`.
pub(crate) fn nanos_since(i: &Instant) -> (r: u64)
    ensures
        exists|d: core::time::Duration|
            r == if duration_nanos(d) > u64::MAX { u64::MAX as u128 } else { duration_nanos(d) },
{
    let d = i.elapsed();
    let n = d.as_nanos();
    if n > u64::MAX as u128 {
        u64::MAX
    } else {
        n as u64
    }
}

} // verus!
