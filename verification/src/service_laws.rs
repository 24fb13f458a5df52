//! What the service owes to a worker that ends, to a gadget that is detached and to those who
//! wait.

use crate::lifecycle::{EndpointLifecycle, Wait};
use crate::persistence::{replacement_after, ReplaceStep, Replacement};
use crate::personality::{finished, BuilderModel, PersonalityError, UsbSpeed};
use crate::protocol::{Kind, RecordModel};
use crate::serve::{
    dwell_of, is_expected, stop_action_of, StopAction, StopPhase, ESRCH, STOP_INTERVAL_NS,
};
use crate::supervisor::ENODEV;
use vstd::prelude::*;

verus! {

/// A worker has two seconds to end by itself once its channel is closed, and two more once it was
/// asked to terminate; then it is killed, and its end is waited for. One that has ended is left
/// alone.
pub proof fn lemma_worker_has_time_to_end(phase: StopPhase, elapsed: u128)
    ensures
        forall|exited: bool|
            exited <==> #[trigger] stop_action_of(phase, exited, elapsed) == StopAction::Reaped,
        phase != StopPhase::Killed && elapsed < 2_000_000_000 ==> stop_action_of(
            phase,
            false,
            elapsed,
        ) == StopAction::Sleep,
        phase == StopPhase::Closed && elapsed >= 2_000_000_000 ==> stop_action_of(
            phase,
            false,
            elapsed,
        ) == StopAction::Terminate,
        phase == StopPhase::Terminated && elapsed >= 2_000_000_000 ==> stop_action_of(
            phase,
            false,
            elapsed,
        ) == StopAction::Kill,
        phase == StopPhase::Killed ==> stop_action_of(phase, false, elapsed) == StopAction::Reap,
        STOP_INTERVAL_NS == 20_000_000,
{
}

/// A gadget that was detached is attached again a quarter of a second later at the earliest, and no
/// later than that on this account.
pub proof fn lemma_gadget_stays_detached(since: u128, now: u128)
    ensures
        now < since ==> dwell_of(Some(since), now) == 250_000_000,
        since <= now ==> now + dwell_of(Some(since), now) >= since + 250_000_000,
        since <= now && dwell_of(Some(since), now) > 0 ==> now + dwell_of(Some(since), now) == since + 250_000_000,
        dwell_of(None, now) == 0,
{
}

/// The error numbers are those of Linux: no such process, and no such device.
pub proof fn lemma_error_numbers(errno: i32)
    ensures
        errno == ESRCH <==> errno == 3,
        errno == ENODEV <==> errno == 19,
{
}

/// A handshake is answered only by the bare record that it waits for.
pub proof fn lemma_handshake_is_answered(
    record: RecordModel,
    kind: Kind,
    generation: u32,
    request_id: u32,
)
    ensures
        is_expected(record, kind, generation, request_id) <==> (record.kind == kind
            && record.generation == generation && record.request_id == request_id
            && record.body == Seq::<u8>::empty() && record.descriptors == Seq::<i32>::empty()),
{
    if record.body.len() == 0 {
        assert(record.body =~= seq![]);
    }
    if record.descriptors.len() == 0 {
        assert(record.descriptors =~= seq![]);
    }
}

/// Until its generation stops, a helper goes on exactly with a newer activation; the newest one
/// that was reported counts.
pub proof fn lemma_newest_activation_counts(
    state: EndpointLifecycle,
    activation: u64,
    observed: u64,
)
    ensures
        ({
            let after = state.activated(activation);
            &&& after.stopping == state.stopping
            &&& !state.stopping ==> after.activation >= activation && after.activation
                >= state.activation && (after.activation == activation || after.activation
                == state.activation)
            &&& state.stopping ==> after.activation == state.activation
            &&& after.wait_after(observed) == Wait::Stopping <==> state.stopping
            &&& after.wait_after(observed) == Wait::Active(after.activation) <==> !state.stopping
                && after.activation > observed
            &&& after.wait_after(observed) == Wait::Blocked <==> !state.stopping
                && after.activation <= observed
        }),
{
}

/// A file is replaced in this order: its new contents are written, brought to the disk, put in the
/// place of the old ones, and the directory is brought to the disk. Where a step fails, the new
/// contents are thrown away and the replacement has failed.
pub proof fn lemma_replacement_order(step: ReplaceStep)
    ensures
        replacement_after(ReplaceStep::Write, true) == Replacement::Next(ReplaceStep::Sync),
        replacement_after(ReplaceStep::Sync, true) == Replacement::Next(ReplaceStep::Rename),
        replacement_after(ReplaceStep::Rename, true) == Replacement::Next(
            ReplaceStep::SyncDirectory,
        ),
        replacement_after(step, true) == Replacement::Done <==> step == ReplaceStep::SyncDirectory,
        step != ReplaceStep::Discard ==> replacement_after(step, false) == Replacement::Next(
            ReplaceStep::Discard,
        ),
        forall|succeeded: bool|
            step == ReplaceStep::Discard ==> #[trigger] replacement_after(step, succeeded)
                == Replacement::Failed,
{
}

/// Which parts make a personality: both descriptors with their frames, and then all parts as they
/// were given.
pub proof fn lemma_parts_make_a_personality(parts: BuilderModel)
    ensures
        finished(parts) is Ok <==> {
            &&& parts.device is Some
            &&& parts.configuration is Some
            &&& (parts.device->0).len() == 18
            &&& (parts.device->0)[0] == 18
            &&& (parts.device->0)[1] == 1
            &&& (parts.configuration->0).len() >= 9
            &&& (parts.configuration->0)[0] == 9
            &&& (parts.configuration->0)[1] == 2
            &&& (parts.configuration->0)[2] + 256 * (parts.configuration->0)[3] == (
            parts.configuration->0).len()
        },
        finished(parts) matches Ok(made) ==> {
            &&& made.schema == 1
            &&& made.max_speed == parts.max_speed
            &&& Some(made.device) == parts.device
            &&& Some(made.configuration) == parts.configuration
            &&& made.strings == parts.strings
            &&& made.microsoft == parts.microsoft
            &&& made.webusb == parts.webusb
        },
        finished(parts) == Err::<crate::personality::PersonalityModel, PersonalityError>(
            PersonalityError::MissingDevice,
        ) <==> parts.device is None,
{
}

/// The speeds as the gadget's attributes name them.
pub proof fn lemma_speed_names(speed: UsbSpeed)
    ensures
        speed.name() == "low-speed"@ <==> speed == UsbSpeed::LowSpeed,
        speed.name() == "full-speed"@ <==> speed == UsbSpeed::FullSpeed,
        speed.name() == "high-speed"@ <==> speed == UsbSpeed::HighSpeed,
{
    reveal_strlit("low-speed");
    reveal_strlit("full-speed");
    reveal_strlit("high-speed");
    assert("full-speed"@[0] == 'f' && "high-speed"@[0] == 'h' && "low-speed"@[0] == 'l');
}

} // verus!
