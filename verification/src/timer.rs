//! The power-down countdown: started when the watch is left alone,
//! reset by activity, stopped by USB power; when it runs out the watch
//! goes to deep sleep.

use vstd::prelude::*;

verus! {

/// Requests to the countdown task.
#[derive(Clone, Copy, PartialEq, Eq, Structural)]
pub enum TimerCommand {
    Start,
    Stop,
    Reset,
}

/// A handle other tasks use to steer the countdown.
#[derive(Clone, Copy)]
pub struct TimerHandle;

impl TimerHandle {
    /// The request that starts the countdown.
    pub fn start(self) -> (r: TimerCommand)
        ensures
            r == TimerCommand::Start,
    {
        TimerCommand::Start
    }

    /// The request that stops it.
    pub fn stop(self) -> (r: TimerCommand)
        ensures
            r == TimerCommand::Stop,
    {
        TimerCommand::Stop
    }

    /// The request that starts it over from the full timeout.
    pub fn reset(self) -> (r: TimerCommand)
        ensures
            r == TimerCommand::Reset,
    {
        TimerCommand::Reset
    }
}

/// The request that starts the countdown.
pub fn start() -> (r: TimerCommand)
    ensures
        r == TimerCommand::Start,
{
    TimerCommand::Start
}

/// The request that stops it.
pub fn stop() -> (r: TimerCommand)
    ensures
        r == TimerCommand::Stop,
{
    TimerCommand::Stop
}

/// The request that starts it over from the full timeout.
pub fn reset() -> (r: TimerCommand)
    ensures
        r == TimerCommand::Reset,
{
    TimerCommand::Reset
}

/// What the countdown task reacts to: a request, or one second passing
/// while it counts.
#[derive(Clone, Copy, PartialEq, Eq, Structural)]
pub enum TimerEvent {
    Command(TimerCommand),
    Tick,
}

/// Whether the countdown runs and the seconds left.
#[derive(Clone, Copy, PartialEq, Eq, Structural)]
pub struct TimerState {
    pub enabled: bool,
    pub remaining: u32,
}

/// The countdown's reaction to `ev`, given the configured timeout and
/// whether USB power is connected: the new state, and whether to power
/// down now.
pub open spec fn timer_next(st: TimerState, ev: TimerEvent, timeout: u32, usb: bool) -> (TimerState, bool) {
    let full = TimerState { enabled: st.enabled, remaining: timeout };
    if !st.enabled {
        match ev {
            TimerEvent::Command(TimerCommand::Start) => if !usb {
                (TimerState { enabled: true, remaining: timeout }, false)
            } else {
                (st, false)
            },
            TimerEvent::Command(TimerCommand::Reset) => (full, false),
            _ => (st, false),
        }
    } else {
        match ev {
            TimerEvent::Tick => {
                let left = if st.remaining > 0 {
                    (st.remaining - 1) as u32
                } else {
                    0u32
                };
                if left == 0 {
                    (TimerState { enabled: false, remaining: timeout }, !usb)
                } else {
                    (TimerState { enabled: true, remaining: left }, false)
                }
            },
            TimerEvent::Command(TimerCommand::Reset) => (full, false),
            TimerEvent::Command(TimerCommand::Stop) => (TimerState { enabled: false, remaining: timeout }, false),
            TimerEvent::Command(TimerCommand::Start) => (st, false),
        }
    }
}

impl TimerState {
    /// The countdown as the task starts: idle, with the full timeout.
    pub fn new(timeout: u32) -> (r: Self)
        ensures
            r == (TimerState { enabled: false, remaining: timeout }),
    {
        TimerState { enabled: false, remaining: timeout }
    }

    /// Reacts to `ev`; returns whether the watch powers down now.
    pub fn step(&mut self, ev: TimerEvent, timeout: u32, usb_connected: bool) -> (r: bool)
        ensures
            (*final(self), r) == timer_next(*old(self), ev, timeout, usb_connected),
    {
        if !self.enabled {
            match ev {
                TimerEvent::Command(TimerCommand::Start) => {
                    if !usb_connected {
                        self.enabled = true;
                        self.remaining = timeout;
                    }
                },
                TimerEvent::Command(TimerCommand::Reset) => {
                    self.remaining = timeout;
                },
                _ => {},
            }
            false
        } else {
            match ev {
                TimerEvent::Tick => {
                    if self.remaining > 0 {
                        self.remaining = self.remaining - 1;
                    }
                    if self.remaining == 0 {
                        self.enabled = false;
                        self.remaining = timeout;
                        !usb_connected
                    } else {
                        false
                    }
                },
                TimerEvent::Command(TimerCommand::Reset) => {
                    self.remaining = timeout;
                    false
                },
                TimerEvent::Command(TimerCommand::Stop) => {
                    self.enabled = false;
                    self.remaining = timeout;
                    false
                },
                TimerEvent::Command(TimerCommand::Start) => false,
            }
        }
    }
}

/// The state after `n` seconds of counting with nothing else happening.
pub open spec fn after_ticks(st: TimerState, n: nat, timeout: u32, usb: bool) -> TimerState
    decreases n,
{
    if n == 0 {
        st
    } else {
        after_ticks(timer_next(st, TimerEvent::Tick, timeout, usb).0, (n - 1) as nat, timeout, usb)
    }
}

/// A running countdown with `k` seconds left keeps running for `k - 1`
/// seconds, and the next second powers the watch down (unless on USB)
/// and leaves the countdown idle at the full timeout.
pub proof fn lemma_countdown(st: TimerState, timeout: u32, usb: bool)
    requires
        st.enabled,
        st.remaining >= 1,
    ensures
        after_ticks(st, (st.remaining - 1) as nat, timeout, usb) == (TimerState { enabled: true, remaining: 1 }),
        timer_next(TimerState { enabled: true, remaining: 1 }, TimerEvent::Tick, timeout, usb) == (
        TimerState { enabled: false, remaining: timeout }, !usb),
    decreases st.remaining,
{
    if st.remaining > 1 {
        let next = timer_next(st, TimerEvent::Tick, timeout, usb).0;
        assert(next == (TimerState { enabled: true, remaining: (st.remaining - 1) as u32 }));
        lemma_countdown(next, timeout, usb);
    }
}

/// Stopping always leaves the countdown idle at the full timeout, and an
/// idle countdown never powers the watch down.
pub proof fn lemma_stop_and_idle(st: TimerState, ev: TimerEvent, timeout: u32, usb: bool)
    ensures
        timer_next(st, TimerEvent::Command(TimerCommand::Stop), timeout, usb).0.enabled == false,
        !st.enabled ==> !timer_next(st, ev, timeout, usb).1,
        usb ==> !timer_next(st, ev, timeout, usb).1,
{
}

} // verus!
