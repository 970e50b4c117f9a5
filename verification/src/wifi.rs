//! The Wi-Fi connection keeper as a state machine: it waits until Wi-Fi
//! is enabled, connects with one stored network after another (moving on
//! after three failures in a row), watches the link once connected and
//! goes back to waiting when disabled or asked to scan.

use vstd::prelude::*;

verus! {

/// Failed attempts in a row after which the next stored network is tried.
pub const MAX_FAILURES: u8 = 3;

/// Where the keeper is.
#[derive(Clone, Copy, PartialEq, Eq, Structural)]
pub enum WifiPhase {
    /// Wi-Fi is off; only `Enable` wakes it.
    Disabled,
    /// An attempt to connect is under way.
    Connecting,
    /// Connected; the link is watched.
    Connected,
}

/// The keeper's state: its phase, the stored network in use, the failed
/// attempts in a row, and how many networks are stored.
#[derive(Clone, Copy, PartialEq, Eq, Structural)]
pub struct WifiState {
    pub phase: WifiPhase,
    pub idx: usize,
    pub fail_count: u8,
    pub networks: usize,
}

/// What happened: a command arrived, or the radio reported.
#[derive(Clone, Copy, PartialEq, Eq, Structural)]
pub enum WifiEvent {
    Enable,
    Disable,
    Scan,
    /// A command to join a given network (not acted on by the keeper).
    Join,
    /// The attempt to connect succeeded.
    Connected,
    /// The attempt to connect failed.
    ConnectFailed,
    /// The link dropped.
    Disconnected,
    /// Six seconds passed while connected.
    Tick,
}

/// What the keeper asks the radio and the status flags to do.
#[derive(Clone, Copy, PartialEq, Eq, Structural)]
pub enum WifiAction {
    Idle,
    /// Mark Wi-Fi on, set up stored network `idx` and connect.
    Connect { idx: usize },
    /// Wait five seconds, then set up stored network `idx` and connect.
    RetryAfterWait { idx: usize },
    /// Mark the link up with stored network `idx`'s name; read the signal.
    LinkUp { idx: usize },
    /// Read the signal strength again.
    ReadSignal,
    /// Mark the link down and connect again with stored network `idx`.
    Reconnect { idx: usize },
    /// Give up the attempt: clear the network name and mark Wi-Fi off.
    StopConnecting,
    /// Disconnect, mark the link down and Wi-Fi off.
    Disconnect,
    /// Mark the link down and Wi-Fi off, then scan for networks.
    Scan,
}

/// A state the keeper can be in: some network stored, the one in use
/// among them, fewer than three failures counted.
pub open spec fn wifi_wf(s: WifiState) -> bool {
    s.networks > 0 && s.idx < s.networks && s.fail_count < MAX_FAILURES
}

/// The keeper at start-up, with `networks` stored and Wi-Fi `enabled` or
/// not: enabled, it connects with the first network at once.
pub open spec fn wifi_initial(networks: usize, enabled: bool) -> (WifiState, WifiAction) {
    if enabled {
        (WifiState { phase: WifiPhase::Connecting, idx: 0, fail_count: 0, networks }, WifiAction::Connect { idx: 0 })
    } else {
        (WifiState { phase: WifiPhase::Disabled, idx: 0, fail_count: 0, networks }, WifiAction::Idle)
    }
}

/// The keeper's next state and action after `e`.
pub open spec fn wifi_next(s: WifiState, e: WifiEvent) -> (WifiState, WifiAction) {
    match s.phase {
        WifiPhase::Disabled => if e == WifiEvent::Enable {
            (WifiState { phase: WifiPhase::Connecting, ..s }, WifiAction::Connect { idx: s.idx })
        } else {
            (s, WifiAction::Idle)
        },
        WifiPhase::Connecting => match e {
            WifiEvent::Connected => (
                WifiState { phase: WifiPhase::Connected, fail_count: 0, ..s },
                WifiAction::LinkUp { idx: s.idx },
            ),
            WifiEvent::ConnectFailed => if s.fail_count + 1 >= MAX_FAILURES {
                let next = ((s.idx + 1) % (s.networks as int)) as usize;
                (WifiState { idx: next, fail_count: 0, ..s }, WifiAction::RetryAfterWait { idx: next })
            } else {
                (WifiState { fail_count: (s.fail_count + 1) as u8, ..s }, WifiAction::RetryAfterWait { idx: s.idx })
            },
            WifiEvent::Disconnected => (s, WifiAction::Idle),
            WifiEvent::Tick => (s, WifiAction::Idle),
            _ => (WifiState { phase: WifiPhase::Disabled, ..s }, WifiAction::StopConnecting),
        },
        WifiPhase::Connected => match e {
            WifiEvent::Disconnected => (
                WifiState { phase: WifiPhase::Connecting, ..s },
                WifiAction::Reconnect { idx: s.idx },
            ),
            WifiEvent::Disable => (WifiState { phase: WifiPhase::Disabled, ..s }, WifiAction::Disconnect),
            WifiEvent::Scan => (WifiState { phase: WifiPhase::Disabled, ..s }, WifiAction::Scan),
            WifiEvent::Tick => (s, WifiAction::ReadSignal),
            WifiEvent::Enable => (s, WifiAction::ReadSignal),
            WifiEvent::Join => (s, WifiAction::ReadSignal),
            _ => (s, WifiAction::Idle),
        },
    }
}

/// The keeper at start-up (see `wifi_initial`).
pub fn wifi_start(networks: usize, enabled: bool) -> (r: (WifiState, WifiAction))
    requires
        networks > 0,
    ensures
        r == wifi_initial(networks, enabled),
        wifi_wf(r.0),
{
    if enabled {
        (WifiState { phase: WifiPhase::Connecting, idx: 0, fail_count: 0, networks }, WifiAction::Connect { idx: 0 })
    } else {
        (WifiState { phase: WifiPhase::Disabled, idx: 0, fail_count: 0, networks }, WifiAction::Idle)
    }
}

/// One step of the keeper: its next state and what to do (see
/// `wifi_next`). A command that arrives while connecting calls the
/// attempt off; three failures in a row move on to the next stored
/// network, round the list.
pub fn wifi_step(s: WifiState, e: WifiEvent) -> (r: (WifiState, WifiAction))
    requires
        wifi_wf(s),
    ensures
        r == wifi_next(s, e),
        wifi_wf(r.0),
{
    match s.phase {
        WifiPhase::Disabled => {
            if e == WifiEvent::Enable {
                (WifiState { phase: WifiPhase::Connecting, ..s }, WifiAction::Connect { idx: s.idx })
            } else {
                (s, WifiAction::Idle)
            }
        },
        WifiPhase::Connecting => match e {
            WifiEvent::Connected => (
                WifiState { phase: WifiPhase::Connected, fail_count: 0, ..s },
                WifiAction::LinkUp { idx: s.idx },
            ),
            WifiEvent::ConnectFailed => {
                let fails = s.fail_count + 1;
                if fails >= MAX_FAILURES {
                    let next = (s.idx + 1) % s.networks;
                    (WifiState { idx: next, fail_count: 0, ..s }, WifiAction::RetryAfterWait { idx: next })
                } else {
                    (WifiState { fail_count: fails, ..s }, WifiAction::RetryAfterWait { idx: s.idx })
                }
            },
            WifiEvent::Disconnected => (s, WifiAction::Idle),
            WifiEvent::Tick => (s, WifiAction::Idle),
            _ => (WifiState { phase: WifiPhase::Disabled, ..s }, WifiAction::StopConnecting),
        },
        WifiPhase::Connected => match e {
            WifiEvent::Disconnected => (
                WifiState { phase: WifiPhase::Connecting, ..s },
                WifiAction::Reconnect { idx: s.idx },
            ),
            WifiEvent::Disable => (WifiState { phase: WifiPhase::Disabled, ..s }, WifiAction::Disconnect),
            WifiEvent::Scan => (WifiState { phase: WifiPhase::Disabled, ..s }, WifiAction::Scan),
            WifiEvent::Tick => (s, WifiAction::ReadSignal),
            WifiEvent::Enable => (s, WifiAction::ReadSignal),
            WifiEvent::Join => (s, WifiAction::ReadSignal),
            _ => (s, WifiAction::Idle),
        },
    }
}

/// Three failed attempts in a row with a stored network move the keeper
/// on to the next one (round the list), with the count cleared; fewer
/// keep it on the same one.
pub proof fn lemma_three_failures_move_on(s: WifiState)
    requires
        wifi_wf(s),
        s.phase == WifiPhase::Connecting,
        s.fail_count == 0,
    ensures
        ({
            let s1 = wifi_next(s, WifiEvent::ConnectFailed).0;
            let s2 = wifi_next(s1, WifiEvent::ConnectFailed).0;
            let s3 = wifi_next(s2, WifiEvent::ConnectFailed).0;
            &&& s1.idx == s.idx && s2.idx == s.idx
            &&& s3.idx == (s.idx + 1) % (s.networks as int)
            &&& s3.fail_count == 0
            &&& s3.phase == WifiPhase::Connecting
        }),
{
}

} // verus!
