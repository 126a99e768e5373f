use crate::bus::Bus;
use crate::control::links::ControlLinks;
use vstd::prelude::*;

verus! {

/// A unit that reacts to the high phase of the clock: it looks at the
/// control lines that concern it and latches from the bus or drives it.
pub trait ClockDriven {
    /// One high phase.
    fn on_clock_high(&mut self, control_links: &ControlLinks, bus: &mut Bus)
        requires
            control_links.wf(),
    ;
}

/// The clock as the simulation loop sees it: while it runs it gives
/// pulses in pairs, a high one and then a low one. What waits between the
/// pulses and hands them over is not part of it.
pub struct Clock {
    frequency: usize,
    running: bool,
    mid_cycle: bool,
}

impl Clock {
    /// The pulse rate, in hertz.
    pub closed spec fn rate(&self) -> usize {
        self.frequency
    }

    /// Whether the clock gives pulses.
    pub closed spec fn running(&self) -> bool {
        self.running
    }

    /// Whether the high pulse of a cycle has been given and its low pulse
    /// has not.
    pub closed spec fn mid_cycle(&self) -> bool {
        self.mid_cycle
    }

    /// A clock of `frequency` hertz that does not run yet.
    pub fn new(frequency: usize) -> (clock: Self)
        ensures
            clock.rate() == frequency,
            !clock.running(),
            !clock.mid_cycle(),
    {
        Self { frequency, running: false, mid_cycle: false }
    }

    /// Whether the clock gives pulses.
    pub fn is_running(&self) -> (running: bool)
        ensures
            running == self.running(),
    {
        self.running
    }

    /// The pulse rate, in hertz.
    pub fn frequency(&self) -> (frequency: usize)
        ensures
            frequency == self.rate(),
    {
        self.frequency
    }

    /// The time between two pulses, in milliseconds: half a period,
    /// rounded down.
    pub fn half_interval_millis(&self) -> (millis: u64)
        requires
            self.rate() > 0,
        ensures
            millis == (1000int / (self.rate() as int)) / 2,
    {
        (1000 / (self.frequency as u64)) / 2
    }

    /// Starts the clock at the beginning of a cycle. A clock that runs
    /// already is left as it is, and `false` is returned.
    pub fn start(&mut self) -> (started: bool)
        ensures
            started == !old(self).running(),
            final(self).running(),
            final(self).rate() == old(self).rate(),
            final(self).mid_cycle() == (old(self).running() && old(self).mid_cycle()),
    {
        if self.running {
            return false;
        }
        self.running = true;
        self.mid_cycle = false;
        true
    }

    /// Stops the clock: no pulse is given after this.
    pub fn stop(&mut self)
        ensures
            !final(self).running(),
            !final(self).mid_cycle(),
            final(self).rate() == old(self).rate(),
    {
        self.running = false;
        self.mid_cycle = false;
    }

    /// The next pulse, `true` for high: none while the clock does not run.
    pub fn tick(&mut self) -> (pulse: Option<bool>)
        ensures
            pulse == if old(self).running() {
                Some(!old(self).mid_cycle())
            } else {
                None
            },
            final(self).running() == old(self).running(),
            final(self).rate() == old(self).rate(),
            final(self).mid_cycle() == (old(self).running() != old(self).mid_cycle()),
    {
        if !self.running {
            return None;
        }
        let level = !self.mid_cycle;
        self.mid_cycle = level;
        Some(level)
    }
}

} // verus!
