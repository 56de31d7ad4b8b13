//! The stopwatch state machine: idle or running, toggled by one key.
//!
//! The stopwatch never reads a clock itself; every operation takes the
//! current monotonic time in milliseconds from the caller, so its whole
//! behaviour is a function of its arguments.

use vstd::prelude::*;
use crate::stats::Time;
use crate::text::{millis_chars, millis_text, tenths_chars, tenths_text};

verus! {

/// Stopwatch state. `starttime` is the monotonic instant (in
/// milliseconds) at which the current run started; it is present exactly
/// while the stopwatch is running. `lasttime` is the last finalized
/// duration, zero before the first run completes.
pub struct CubeTimer {
    pub starttime: Option<u64>,
    pub on: bool,
    pub lasttime: u64,
}

impl CubeTimer {
    /// The stopwatch is running exactly when a start instant is recorded.
    pub open spec fn wf(self) -> bool {
        self.on <==> self.starttime is Some
    }

    /// An idle stopwatch that has measured nothing yet.
    pub fn default() -> (r: CubeTimer)
        ensures
            r.wf(),
            !r.on,
            r.starttime is None,
            r.lasttime == 0,
    {
        CubeTimer { starttime: None, on: false, lasttime: 0 }
    }

    /// Toggle the stopwatch at monotonic instant `now_ms`. Starting
    /// records the instant and yields nothing; stopping finalizes the
    /// elapsed duration and yields a new record seeded with it, averages
    /// unset. The caller's clock is monotonic, so `now_ms` is never
    /// before the recorded start.
    pub fn space_press(&mut self, now_ms: u64) -> (r: Option<Time>)
        requires
            old(self).wf(),
            old(self).on ==> now_ms >= old(self).starttime->0,
        ensures
            final(self).wf(),
            !old(self).on ==> {
                &&& final(self).on
                &&& final(self).starttime == Some(now_ms)
                &&& final(self).lasttime == old(self).lasttime
                &&& r is None
            },
            old(self).on ==> {
                &&& !final(self).on
                &&& final(self).starttime is None
                &&& final(self).lasttime == now_ms - old(self).starttime->0
                &&& r == Some(
                    Time {
                        time: (now_ms - old(self).starttime->0) as u64,
                        ao5: None,
                        ao12: None,
                    },
                )
            },
    {
        match self.on {
            false => {
                self.timer_on(now_ms);
                None
            },
            true => Some(self.timer_off(now_ms)),
        }
    }

    fn timer_on(&mut self, now_ms: u64)
        ensures
            *final(self) == (CubeTimer {
                starttime: Some(now_ms),
                on: true,
                lasttime: old(self).lasttime,
            }),
    {
        self.on = true;
        self.starttime = Some(now_ms);
    }

    fn timer_off(&mut self, now_ms: u64) -> (r: Time)
        requires
            old(self).on,
            old(self).starttime is Some,
            now_ms >= old(self).starttime->0,
        ensures
            *final(self) == (CubeTimer {
                starttime: None,
                on: false,
                lasttime: (now_ms - old(self).starttime->0) as u64,
            }),
            r == (Time {
                time: (now_ms - old(self).starttime->0) as u64,
                ao5: None,
                ao12: None,
            }),
    {
        self.on = false;
        self.lasttime = self.elapsed(now_ms);
        self.starttime = None;
        Time::from(self.lasttime)
    }

    /// Milliseconds since the recorded start, or zero when idle.
    fn elapsed(&self, now_ms: u64) -> (r: u64)
        requires
            self.starttime is Some ==> now_ms >= self.starttime->0,
        ensures
            r == match self.starttime {
                Some(v) => now_ms - v,
                None => 0,
            },
    {
        match self.starttime {
            Some(v) => now_ms - v,
            None => 0,
        }
    }

    /// The display text at instant `now_ms`: the live elapsed time at
    /// one-decimal precision while running, the last finalized duration
    /// at three-decimal precision while idle.
    pub fn text(&self, now_ms: u64) -> (r: String)
        requires
            self.starttime is Some ==> now_ms >= self.starttime->0,
        ensures
            r@ == match self.starttime {
                Some(v) => tenths_chars((now_ms - v) as nat),
                None => millis_chars(self.lasttime as nat),
            },
    {
        match self.starttime {
            Some(v) => tenths_text(now_ms - v),
            None => millis_text(self.lasttime),
        }
    }
}

} // verus!
