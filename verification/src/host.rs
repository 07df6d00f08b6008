//! What the library takes from the host's own library: the duration and the
//! schedule of a timer. Nothing here is proved; each contract states what
//! the host library's source shows.

use vstd::prelude::*;

verus! {

#[verifier::external_type_specification]
#[verifier::external_body]
pub struct ExTimeDuration(spacetimedb::TimeDuration);

#[verifier::external_type_specification]
#[verifier::external_body]
pub struct ExScheduleAt(spacetimedb::ScheduleAt);

/// The number of microseconds that a duration spans.
pub uninterp spec fn duration_micros(duration: spacetimedb::TimeDuration) -> i64;

/// The interval in microseconds at which a schedule repeats; `None` for a
/// schedule that names a single point in time.
pub uninterp spec fn repeat_micros(at: spacetimedb::ScheduleAt) -> Option<i64>;

/// `TimeDuration::from_micros` builds the duration that spans the given
/// number of microseconds. It accepts every `i64` and keeps it as it is.
pub assume_specification[ spacetimedb::TimeDuration::from_micros ](micros: i64) -> (duration:
    spacetimedb::TimeDuration)
    ensures
        duration_micros(duration) == micros,
;

/// The conversion of a `TimeDuration` into a `ScheduleAt` gives the schedule
/// that repeats at that interval, and never a point in time.
#[verifier::external_body]
pub(crate) fn every(interval: spacetimedb::TimeDuration) -> (at: spacetimedb::ScheduleAt)
    ensures
        repeat_micros(at) == Some(duration_micros(interval)),
{
    spacetimedb::ScheduleAt::from(interval)
}

} // verus!
