//! What reaches the console, and when it ticks.
use vstd::prelude::*;

use crate::audio::AudioEvent;
use crate::ui::KeyPress;

verus! {

/// Ticks in a second.
pub const TICK_FPS: u64 = 30;

/// Microseconds from one tick to the next.
pub const TICK_INTERVAL_US: u64 = 33_333;

/// Microseconds the terminal is polled for at most.
pub const POLL_TIMEOUT_US: u64 = 100_000;

/// Anything the console acts on.
#[derive(Debug)]
pub enum Event {
    /// A key was pressed.
    Key(KeyPress),
    /// The audio side reports.
    Audio(AudioEvent),
    /// Time to draw again.
    Tick,
    /// The watched file changed and now holds this.
    FileWatch(String),
    /// Something the terminal reports that the console does not act on.
    Ignored,
}

/// How long ago `last` was at `now`; zero if the clock went back.
pub open spec fn elapsed(last: u64, now: u64) -> int {
    if now >= last {
        now - last
    } else {
        0
    }
}

/// Decides when a tick is due. It counts the time since the last tick, not
/// the polls, so that a burst of input cannot hold the ticks up.
#[derive(Debug, Clone, Copy)]
pub struct TickClock {
    interval_us: u64,
    last_tick_us: u64,
}

impl TickClock {
    /// Microseconds from one tick to the next.
    pub closed spec fn interval(&self) -> u64 {
        self.interval_us
    }

    /// When the last tick was, in microseconds.
    pub closed spec fn last_tick(&self) -> u64 {
        self.last_tick_us
    }

    /// A clock that ticks every `interval_us` microseconds, the first time
    /// that long after `now_us`.
    pub fn new(interval_us: u64, now_us: u64) -> (clock: TickClock)
        ensures
            clock.interval() == interval_us,
            clock.last_tick() == now_us,
    {
        TickClock { interval_us, last_tick_us: now_us }
    }

    /// How long to poll the terminal at `now_us`: until the next tick is
    /// due, but no longer than the poll timeout. It is zero exactly when a
    /// tick is due.
    pub fn timeout(&self, now_us: u64) -> (wait_us: u64)
        ensures
            wait_us == if elapsed(self.last_tick(), now_us) >= self.interval() {
                0
            } else if self.interval() - elapsed(self.last_tick(), now_us) > POLL_TIMEOUT_US {
                POLL_TIMEOUT_US as int
            } else {
                self.interval() - elapsed(self.last_tick(), now_us)
            },
            wait_us <= POLL_TIMEOUT_US,
            // the poll never lasts beyond the time the next tick is due
            wait_us > 0 ==> now_us + wait_us <= self.last_tick() + self.interval(),
    {
        let since: u64 = now_us.saturating_sub(self.last_tick_us);
        let left: u64 = self.interval_us.saturating_sub(since);
        if left > POLL_TIMEOUT_US {
            POLL_TIMEOUT_US
        } else {
            left
        }
    }

    /// Says whether a tick is due at `now_us`, and if so counts from then.
    pub fn due(&mut self, now_us: u64) -> (tick: bool)
        ensures
            final(self).interval() == old(self).interval(),
            tick == (elapsed(old(self).last_tick(), now_us) >= old(self).interval()),
            final(self).last_tick() == if tick {
                now_us
            } else {
                old(self).last_tick()
            },
    {
        let since: u64 = now_us.saturating_sub(self.last_tick_us);
        if since >= self.interval_us {
            self.last_tick_us = now_us;
            true
        } else {
            false
        }
    }
}

} // verus!
