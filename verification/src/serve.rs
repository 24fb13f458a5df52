//! The supervisor's main loop, turn by turn.

use crate::profile::Mode;
use crate::protocol::{Kind, Record, RecordModel};
use vstd::prelude::*;

verus! {

/// What a turn of the loop begins with.
#[derive(Clone, Copy, Debug, Eq, PartialEq, Structural)]
pub enum Turn {
    /// The service ends.
    End,
    /// The worker has ended: start another.
    Restart,
    /// Wait for a signal, a message or a control event.
    Poll,
}

/// What begins a turn: a stop goes before the worker's end.
pub fn begin_turn(stop_requested: bool, worker_exited: bool) -> (turn: Turn)
    ensures
        turn == if stop_requested {
            Turn::End
        } else if worker_exited {
            Turn::Restart
        } else {
            Turn::Poll
        },
{
    if stop_requested {
        Turn::End
    } else if worker_exited {
        Turn::Restart
    } else {
        Turn::Poll
    }
}

/// What is ready after a wait.
#[derive(Clone, Copy, Debug, Eq, PartialEq, Structural)]
pub struct Readiness {
    pub signal: bool,
    pub control: bool,
    pub ep0: bool,
}

/// What a wait is followed by.
#[derive(Clone, Copy, Debug, Eq, PartialEq, Structural)]
pub enum Reaction {
    /// The next turn.
    Again,
    /// Read the profile again.
    Reload,
    /// Receive a message from the worker.
    Receive,
    /// Serve the control endpoint.
    ServeEp0,
}

/// What a wait is followed by. Requests by signals are looked at where a signal has come in;
/// then the worker goes before the control endpoint.
pub fn react(ready: Readiness, stop_requested: bool, restart_requested: bool) -> (reaction:
    Reaction)
    ensures
        reaction == if ready.signal && stop_requested {
            Reaction::Again
        } else if ready.signal && restart_requested {
            Reaction::Reload
        } else if ready.control {
            Reaction::Receive
        } else if ready.ep0 {
            Reaction::ServeEp0
        } else {
            Reaction::Again
        },
{
    if ready.signal && stop_requested {
        return Reaction::Again;
    }
    if ready.signal && restart_requested {
        return Reaction::Reload;
    }
    if ready.control {
        Reaction::Receive
    } else if ready.ep0 {
        Reaction::ServeEp0
    } else {
        Reaction::Again
    }
}

/// What came of receiving a message while the worker serves.
#[derive(Clone, Copy, Debug, Eq, PartialEq, Structural)]
pub enum Received {
    Message(Kind),
    /// There was no message after all.
    Nothing,
    /// The channel has ended or broken.
    Broken,
}

/// What a received message calls for.
#[derive(Clone, Copy, Debug, Eq, PartialEq, Structural)]
pub enum Response {
    Configure,
    /// The worker does not keep to the protocol.
    Unexpected(Kind),
    Again,
    Restart,
}

/// What a received message calls for: on its own account a worker only sends configurations.
pub fn respond(received: Received) -> (response: Response)
    ensures
        response == match received {
            Received::Message(kind) => if kind == Kind::Configure {
                Response::Configure
            } else {
                Response::Unexpected(kind)
            },
            Received::Nothing => Response::Again,
            Received::Broken => Response::Restart,
        },
{
    match received {
        Received::Message(kind) => {
            if kind == Kind::Configure {
                Response::Configure
            } else {
                Response::Unexpected(kind)
            }
        },
        Received::Nothing => Response::Again,
        Received::Broken => Response::Restart,
    }
}

/// Whether a record is the bare reply that a handshake waits for.
pub open spec fn is_expected(record: RecordModel, kind: Kind, generation: u32, request_id: u32) -> bool {
    &&& record.kind == kind
    &&& record.generation == generation
    &&& record.request_id == request_id
    &&& record.body.len() == 0
    &&& record.descriptors.len() == 0
}

/// Accepts the bare reply that a handshake waits for, and gives the kind of any other record.
pub fn expect_record(record: &Record, kind: Kind, generation: u32, request_id: u32) -> (outcome:
    Result<(), Kind>)
    ensures
        outcome == if is_expected(record@, kind, generation, request_id) {
            Ok::<(), Kind>(())
        } else {
            Err(record@.kind)
        },
{
    if record.kind != kind || record.generation != generation || record.request_id != request_id
        || record.body.len() > 0 || record.descriptors.len() > 0 {
        return Err(record.kind);
    }
    Ok(())
}

/// How long a worker is given to end before the next means is used, in nanoseconds.
pub const STOP_PATIENCE_NS: u128 = 2000000000;

/// How long the supervisor waits between two looks at an ending worker, in nanoseconds.
pub const STOP_INTERVAL_NS: u128 = 20000000;

/// The means by which a worker is brought to its end.
#[derive(Clone, Copy, Debug, Eq, PartialEq, Structural)]
pub enum StopPhase {
    /// Its channel was closed.
    Closed,
    /// It was asked to terminate.
    Terminated,
    /// It was killed.
    Killed,
}

/// What to do about a worker that is to end.
#[derive(Clone, Copy, Debug, Eq, PartialEq, Structural)]
pub enum StopAction {
    /// It has ended.
    Reaped,
    /// Look again after a while.
    Sleep,
    Terminate,
    Kill,
    /// Wait for its end without limit.
    Reap,
}

/// What to do first about a worker that is to end: one with a channel ends by itself once the
/// channel is closed, and one without has to be asked.
pub fn first_stop_action(mode: Mode, exited: bool) -> (action: StopAction)
    ensures
        action == if exited {
            StopAction::Reaped
        } else {
            match mode {
                Mode::Usb => StopAction::Sleep,
                Mode::Device => StopAction::Terminate,
            }
        },
{
    if exited {
        return StopAction::Reaped;
    }
    match mode {
        Mode::Usb => StopAction::Sleep,
        Mode::Device => StopAction::Terminate,
    }
}

/// The error number of a signal to a process that has ended.
pub const ESRCH: i32 = 3;

/// Whether a signal reached its worker or came too late to matter; `errno` is its error number.
pub fn signal_delivered(errno: Option<i32>) -> (delivered: bool)
    ensures
        delivered == (errno is None || errno == Some(ESRCH)),
{
    match errno {
        None => true,
        Some(errno) => errno == ESRCH,
    }
}

/// What to do about a worker that is to end, so long after the last means was used.
pub open spec fn stop_action_of(phase: StopPhase, exited: bool, elapsed: u128) -> StopAction {
    if exited {
        StopAction::Reaped
    } else if phase == StopPhase::Killed {
        StopAction::Reap
    } else if elapsed < STOP_PATIENCE_NS {
        StopAction::Sleep
    } else if phase == StopPhase::Closed {
        StopAction::Terminate
    } else {
        StopAction::Kill
    }
}

/// What to do about a worker that is to end, so long after the last means was used.
pub fn stop_action(phase: StopPhase, exited: bool, elapsed: u128) -> (action: StopAction)
    ensures
        action == stop_action_of(phase, exited, elapsed),
{
    if exited {
        return StopAction::Reaped;
    }
    if phase == StopPhase::Killed {
        return StopAction::Reap;
    }
    if elapsed < STOP_PATIENCE_NS {
        return StopAction::Sleep;
    }
    if phase == StopPhase::Closed {
        StopAction::Terminate
    } else {
        StopAction::Kill
    }
}

/// A worker is killed only after it was asked to terminate and had time to, and it is never
/// signalled once it has ended.
pub proof fn lemma_kill_is_the_last_means(phase: StopPhase, exited: bool, elapsed: u128)
    ensures
        stop_action_of(phase, exited, elapsed) == StopAction::Kill ==> phase
            == StopPhase::Terminated && elapsed >= STOP_PATIENCE_NS,
        exited ==> stop_action_of(phase, exited, elapsed) == StopAction::Reaped,
{
}

/// How long the gadget stays detached at least between two attachments, in nanoseconds.
pub const USB_RECONNECT_DWELL_NS: u128 = 250000000;

/// How long to wait at the time `now` before the gadget may be attached again.
pub open spec fn dwell_of(detached_at: Option<u128>, now: u128) -> u128 {
    match detached_at {
        None => 0,
        Some(since) => if now >= since + USB_RECONNECT_DWELL_NS {
            0
        } else if now < since {
            USB_RECONNECT_DWELL_NS
        } else {
            (since + USB_RECONNECT_DWELL_NS - now) as u128
        },
    }
}

/// How long to wait at the time `now` before the gadget may be attached again.
pub fn reconnect_dwell(detached_at: Option<u128>, now: u128) -> (wait: u128)
    ensures
        wait == dwell_of(detached_at, now),
{
    match detached_at {
        None => 0,
        Some(since) => {
            let elapsed: u128 = if now < since {
                0
            } else {
                now - since
            };
            if elapsed >= USB_RECONNECT_DWELL_NS {
                0
            } else {
                USB_RECONNECT_DWELL_NS - elapsed
            }
        },
    }
}

/// After the wait, a detached gadget has been detached for the whole pause; the first attachment
/// makes no pause.
pub proof fn lemma_dwell_completes_the_pause(since: u128, now: u128)
    requires
        since <= now,
    ensures
        now + dwell_of(Some(since), now) >= since + USB_RECONNECT_DWELL_NS,
        dwell_of(None, now) == 0,
{
}

/// What a turn of the loop does that watches over a worker in device mode.
#[derive(Clone, Copy, Debug, Eq, PartialEq, Structural)]
pub enum DeviceTurn {
    /// Stop the worker and end.
    Stop,
    /// Stop the worker and start one by the profile that is read again.
    Reload,
    /// The worker has ended, well or not.
    Exited(bool),
    Wait,
}

/// What a turn does in device mode; `exited` says how the worker ended, if it has.
pub fn device_turn(stop_requested: bool, restart_requested: bool, exited: Option<bool>) -> (turn:
    DeviceTurn)
    ensures
        turn == if stop_requested {
            DeviceTurn::Stop
        } else {
            match exited {
                Some(success) => DeviceTurn::Exited(success),
                None => if restart_requested {
                    DeviceTurn::Reload
                } else {
                    DeviceTurn::Wait
                },
            }
        },
{
    if stop_requested {
        return DeviceTurn::Stop;
    }
    match exited {
        Some(success) => DeviceTurn::Exited(success),
        None => {
            if restart_requested {
                DeviceTurn::Reload
            } else {
                DeviceTurn::Wait
            }
        },
    }
}

} // verus!
