//! Wall-clock and monotonic time, read from the system.
use vstd::prelude::*;
use std::time::{Duration, Instant, SystemTime, UNIX_EPOCH};

verus! {

#[verifier::external_type_specification]
#[verifier::external_body]
pub struct ExInstant(Instant);

#[verifier::external_type_specification]
#[verifier::external_body]
pub struct ExSystemTime(SystemTime);

/// The position of a system clock reading against the Unix epoch, in whole
/// seconds.
#[derive(Debug, Clone, Copy)]
pub enum EpochOffset {
    /// The reading is this many seconds after the epoch.
    After(u64),
    /// The reading is this many seconds before the epoch.
    Before(u64),
}

/// `std::time::SystemTime::now`: a reading of the system clock. The value
/// depends on the moment of the call, so nothing is stated of it.
#[verifier::external_body]
fn system_time_now() -> (r: SystemTime) {
    SystemTime::now()
}

/// `SystemTime::duration_since(UNIX_EPOCH)` in whole seconds: the seconds
/// from the epoch to the reading, or, where the call fails because the
/// reading lies before the epoch, the seconds from the reading to the epoch
/// that its error carries. The reading is opaque, so nothing is stated of
/// the value.
#[verifier::external_body]
fn epoch_offset(t: &SystemTime) -> (r: EpochOffset) {
    match t.duration_since(UNIX_EPOCH) {
        Ok(d) => EpochOffset::After(d.as_secs()),
        Err(e) => EpochOffset::Before(e.duration().as_secs()),
    }
}

/// The widest offset from the epoch kept: every time chrono can represent
/// (years -262143 to 262142) lies within it.
pub open spec fn clock_bound() -> int {
    9_000_000_000_000
}

/// The current Unix time in whole seconds, negative before 1970, held
/// within `clock_bound` of the epoch. It never panics, whatever the system
/// clock reads.
pub(crate) fn now_unix_secs() -> (r: i64)
    ensures
        -clock_bound() <= r <= clock_bound(),
{
    let t = system_time_now();
    match epoch_offset(&t) {
        EpochOffset::After(s) => {
            if s > 9_000_000_000_000 {
                9_000_000_000_000
            } else {
                s as i64
            }
        },
        EpochOffset::Before(s) => {
            if s > 9_000_000_000_000 {
                -9_000_000_000_000
            } else {
                -(s as i64)
            }
        },
    }
}

/// `std::time::Instant::now`: a reading of the monotonic clock.
#[verifier::external_body]
pub(crate) fn instant_now() -> (r: Instant) {
    Instant::now()
}

/// `Instant::elapsed(..).as_secs()`: whole seconds since an instant. The
/// value depends on the moment of the call, so nothing is stated of it.
#[verifier::external_body]
pub(crate) fn elapsed_secs(since: &Instant) -> (r: u64) {
    since.elapsed().as_secs()
}

/// The `Duration` that `Duration::from_secs` builds from a number of seconds.
pub uninterp spec fn duration_of_secs(secs: u64) -> Duration;

/// `std::time::Duration::from_secs`: a span of whole seconds. Only that the
/// result is `duration_of_secs` of the argument is stated.
#[verifier::external_body]
pub(crate) fn duration_from_secs(n: u64) -> (r: Duration)
    ensures
        r == duration_of_secs(n),
{
    Duration::from_secs(n)
}

/// The text `chrono` shows for a Unix time in seconds, such as
/// `2024-01-01 00:00:00 UTC`, for times within its range.
pub uninterp spec fn utc_text(secs: i64) -> Option<Seq<char>>;

/// `chrono::DateTime::<Utc>::from_timestamp(secs, 0)`, shown with its
/// `Display`: `None` outside chrono's range. Only that the result is
/// `utc_text` of the argument is stated.
#[verifier::external_body]
pub(crate) fn utc_display(secs: i64) -> (r: Option<String>)
    ensures
        match r {
            Some(s) => utc_text(secs) == Some(s@),
            None => utc_text(secs) is None,
        },
{
    match chrono::DateTime::<chrono::Utc>::from_timestamp(secs, 0) {
        Some(d) => Some(d.to_string()),
        None => None,
    }
}

} // verus!
