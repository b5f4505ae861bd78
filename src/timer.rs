use vstd::prelude::*;

verus! {

/// The tick counter runs at the master clock (about 133 MHz) divided by 16:
/// a microsecond is `TICKS_NUM / TICKS_DEN` ticks.
pub const TICKS_NUM: u64 = 133;

pub const TICKS_DEN: u64 = 16;

/// Ticks in `usecs` microseconds, rounded down.
pub open spec fn steps_of(usecs: u32) -> int {
    usecs as int * TICKS_NUM as int / TICKS_DEN as int
}

/// Ticks elapsed from `start` to `now` on a 32-bit counter that may have
/// wrapped once.
pub open spec fn elapsed(start: u32, now: u32) -> int {
    if now >= start {
        now - start
    } else {
        now + 0x1_0000_0000 - start
    }
}

/// Converts microseconds to counter ticks.
pub fn usecs_to_pit_steps(usecs: u32) -> (r: u32)
    requires
        steps_of(usecs) <= u32::MAX,
    ensures
        r == steps_of(usecs),
{
    assert(usecs as u64 * 133 <= u32::MAX as u64 * 133) by (nonlinear_arith);
    (usecs as u64 * TICKS_NUM / TICKS_DEN) as u32
}

/// Whether a wait of `usecs` microseconds can be counted in ticks.
pub fn steps_fit(usecs: u32) -> (r: bool)
    ensures
        r == (steps_of(usecs) <= u32::MAX),
{
    usecs as u64 * TICKS_NUM / TICKS_DEN <= u32::MAX as u64
}

/// A bounded wait: a window of `duration` ticks starting at tick `start`.
pub struct Timer {
    duration: u32,
    start: u32,
}

impl Timer {
    pub closed spec fn duration(&self) -> u32 {
        self.duration
    }

    pub closed spec fn start(&self) -> u32 {
        self.start
    }

    /// A window of `usecs` microseconds that starts at tick `now`.
    pub fn new(usecs: u32, now: u32) -> (r: Timer)
        requires
            steps_of(usecs) <= u32::MAX,
        ensures
            r.duration() == steps_of(usecs),
            r.start() == now,
    {
        Timer { duration: usecs_to_pit_steps(usecs), start: now }
    }

    /// Restarts the same window at tick `now`.
    pub fn reset(&mut self, now: u32)
        ensures
            final(self).start() == now,
            final(self).duration() == old(self).duration(),
    {
        self.start = now;
    }

    /// Whether the window has run out at tick `now`.
    pub fn expired(&self, now: u32) -> (r: bool)
        ensures
            r == (elapsed(self.start(), now) >= self.duration()),
    {
        now.wrapping_sub(self.start) >= self.duration
    }
}

} // verus!
