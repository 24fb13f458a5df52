use usb_gadget_supervisor::profile::Mode;
use usb_gadget_supervisor::protocol::{Kind, Record};
use usb_gadget_supervisor::serve::{
    begin_turn, device_turn, expect_record, first_stop_action, react, reconnect_dwell, respond,
    signal_delivered, stop_action, DeviceTurn, Reaction, Readiness, Received, Response, StopAction, StopPhase, Turn,
    STOP_PATIENCE_NS, USB_RECONNECT_DWELL_NS,
};

#[test]
fn a_stop_goes_first() {
    assert_eq!(begin_turn(true, true), Turn::End);
    assert_eq!(begin_turn(false, true), Turn::Restart);
    assert_eq!(begin_turn(false, false), Turn::Poll);
}

#[test]
fn signals_go_before_messages_and_messages_before_control_events() {
    let ready = |signal, control, ep0| Readiness {
        signal,
        control,
        ep0,
    };
    assert_eq!(react(ready(true, true, true), true, true), Reaction::Again);
    assert_eq!(react(ready(true, true, true), false, true), Reaction::Reload);
    assert_eq!(react(ready(true, true, true), false, false), Reaction::Receive);
    assert_eq!(react(ready(false, true, true), true, true), Reaction::Receive);
    assert_eq!(react(ready(false, false, true), false, false), Reaction::ServeEp0);
    assert_eq!(react(ready(false, false, false), false, false), Reaction::Again);
}

#[test]
fn workers_only_send_configurations_on_their_own() {
    assert_eq!(respond(Received::Message(Kind::Configure)), Response::Configure);
    assert_eq!(
        respond(Received::Message(Kind::Serving)),
        Response::Unexpected(Kind::Serving)
    );
    assert_eq!(respond(Received::Nothing), Response::Again);
    assert_eq!(respond(Received::Broken), Response::Restart);
}

#[test]
fn handshakes_expect_bare_replies() {
    let record = Record::new(Kind::Serving, 2, 3, vec![]);
    assert_eq!(expect_record(&record, Kind::Serving, 2, 3), Ok(()));
    assert_eq!(expect_record(&record, Kind::Quiesced, 2, 3), Err(Kind::Serving));
    assert_eq!(expect_record(&record, Kind::Serving, 1, 3), Err(Kind::Serving));
    assert_eq!(expect_record(&record, Kind::Serving, 2, 4), Err(Kind::Serving));
    let record = Record::new(Kind::Serving, 2, 3, vec![0]);
    assert_eq!(expect_record(&record, Kind::Serving, 2, 3), Err(Kind::Serving));
    let mut record = Record::new(Kind::Serving, 2, 3, vec![]);
    record.descriptors.push(4);
    assert_eq!(expect_record(&record, Kind::Serving, 2, 3), Err(Kind::Serving));
}

#[test]
fn workers_are_stopped_by_degrees() {
    assert_eq!(first_stop_action(Mode::Usb, false), StopAction::Sleep);
    assert_eq!(first_stop_action(Mode::Device, false), StopAction::Terminate);
    assert_eq!(first_stop_action(Mode::Device, true), StopAction::Reaped);
    assert!(signal_delivered(None) && signal_delivered(Some(3)) && !signal_delivered(Some(1)));
    let early = STOP_PATIENCE_NS - 1;
    let late = STOP_PATIENCE_NS;
    assert_eq!(stop_action(StopPhase::Closed, false, early), StopAction::Sleep);
    assert_eq!(stop_action(StopPhase::Closed, false, late), StopAction::Terminate);
    assert_eq!(stop_action(StopPhase::Terminated, false, early), StopAction::Sleep);
    assert_eq!(stop_action(StopPhase::Terminated, false, late), StopAction::Kill);
    assert_eq!(stop_action(StopPhase::Killed, false, 0), StopAction::Reap);
    assert_eq!(stop_action(StopPhase::Closed, true, late), StopAction::Reaped);
}

#[test]
fn detachments_last_long_enough() {
    assert_eq!(USB_RECONNECT_DWELL_NS, 250_000_000);
    assert_eq!(reconnect_dwell(None, 5), 0);
    assert_eq!(reconnect_dwell(Some(100), 100), 250_000_000);
    assert_eq!(reconnect_dwell(Some(100), 50_000_100), 200_000_000);
    assert_eq!(reconnect_dwell(Some(100), 250_000_100), 0);
    assert_eq!(reconnect_dwell(Some(100), 900_000_000), 0);
    assert_eq!(reconnect_dwell(Some(100), 0), 250_000_000);
}

#[test]
fn device_workers_are_watched() {
    assert_eq!(device_turn(true, true, Some(false)), DeviceTurn::Stop);
    assert_eq!(device_turn(false, true, Some(false)), DeviceTurn::Exited(false));
    assert_eq!(device_turn(false, true, None), DeviceTurn::Reload);
    assert_eq!(device_turn(false, false, None), DeviceTurn::Wait);
}
