//! The wall clock.
use vstd::prelude::*;

verus! {

/// `chrono::Utc::now` and `DateTime::timestamp_micros`: the microseconds since the Unix epoch.
/// Nothing is claimed of the time that comes back. The call panics where the clock of the
/// machine stands before the epoch.
#[verifier::external_body]
pub(crate) fn now_micros() -> i64 {
    chrono::Utc::now().timestamp_micros()
}

/// Whether a time was read from the clock, rather than made up.
pub closed spec fn is_clock_reading(time: i64) -> bool {
    call_ensures(now_micros, (), time)
}

/// What a function returns when it is called with nothing.
fn returned<F: Fn() -> i64>(function: F) -> (value: i64)
    requires
        call_requires(function, ()),
    ensures
        call_ensures(function, (), value),
{
    function()
}

/// Reads the clock.
pub(crate) fn read_clock() -> (time: i64)
    ensures
        is_clock_reading(time),
{
    returned(now_micros)
}

} // verus!
