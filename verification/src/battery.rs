//! When the charge of the headset is looked at, and when it is reported.
use vstd::prelude::*;

verus! {

/// The time between two looks at the battery, in nanoseconds.
pub const BATTERY_POLL_INTERVAL_NANOS: u128 = 60_000_000_000;

/// How long to wait before asking again whether it is time to look, in milliseconds.
pub const BATTERY_LOOP_PAUSE_MILLIS: u64 = 1000;

/// The schedule by which the battery is looked at. Times are in nanoseconds from any fixed
/// moment.
pub struct BatteryPoll {
    battery_poll_deadline: u128,
}

impl View for BatteryPoll {
    type V = u128;

    /// The time after which the battery is looked at.
    closed spec fn view(&self) -> u128 {
        self.battery_poll_deadline
    }
}

impl BatteryPoll {
    /// A schedule that starts at present.
    pub fn new(now: u128) -> (poll: Self)
        ensures
            poll@ == now,
    {
        BatteryPoll { battery_poll_deadline: now }
    }

    /// The time after which the battery is looked at.
    pub fn deadline(&self) -> (deadline: u128)
        ensures
            deadline == self@,
    {
        self.battery_poll_deadline
    }

    /// Whether it is time to look at the battery.
    pub fn is_due(&self, now: u128) -> (due: bool)
        ensures
            due == (self@ < now),
    {
        self.battery_poll_deadline < now
    }

    /// Takes note of a look at the battery, and says whether its status is to be reported and
    /// remembered: it is where it changed and there is someone to report it to.
    pub fn on_polled(&mut self, changed: bool, has_sender: bool) -> (report: bool)
        requires
            old(self)@ + BATTERY_POLL_INTERVAL_NANOS <= u128::MAX,
        ensures
            final(self)@ == old(self)@ + BATTERY_POLL_INTERVAL_NANOS,
            report == (changed && has_sender),
    {
        self.battery_poll_deadline = self.battery_poll_deadline + BATTERY_POLL_INTERVAL_NANOS;
        changed && has_sender
    }
}

} // verus!
