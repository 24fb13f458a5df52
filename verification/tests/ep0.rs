use usb_gadget_supervisor::ep0::{
    control_request_cancelled, read_events, stall_outcome, ControlRequest, Ep0Error, Ep0Event,
    Ep0Reply, Transfer, TransferEvent, TransferStep, EIDRM, EL2HLT,
};
use usb_gadget_supervisor::protocol::{Kind, Record};
use usb_gadget_supervisor::supervisor::{Endpoints, State};
use usb_gadget_supervisor::UsbBusEvent;

fn event(kind: u8) -> [u8; 12] {
    [0x80, 6, 0, 1, 0, 0, 18, 0, kind, 0, 0, 0]
}

fn serving() -> State {
    let mut state = State::new(false);
    state.generation = 3;
    state.endpoints = Some(Endpoints {
        enabled: false,
        activation: 0,
    });
    state
}

fn response(body: Vec<u8>) -> Record {
    Record::new(Kind::UsbControlResponse, 3, 9, body)
}

#[test]
fn events_are_read_in_order() {
    let bytes = [event(0), event(4), event(9)].concat();
    assert_eq!(
        read_events(&bytes).unwrap(),
        [
            Ep0Event::Bus(UsbBusEvent::Bind),
            Ep0Event::Setup(vec![0x80, 6, 0, 1, 0, 0, 18, 0]),
            Ep0Event::Unknown(9),
        ]
    );
    assert_eq!(read_events(&[]), Err(Ep0Error::Closed));
    assert_eq!(read_events(&bytes[..35]), Err(Ep0Error::TruncatedEvents));
}

#[test]
fn activations_follow_bus_events() {
    let mut state = serving();
    let mut send = |state: &mut State, event: UsbBusEvent| {
        let record = state.forward_bus_event(event).unwrap();
        assert_eq!((record.kind, record.generation, record.request_id), (Kind::UsbBusEvent, 3, 0));
        UsbBusEvent::decode(&record.body).unwrap()
    };
    assert_eq!(send(&mut state, UsbBusEvent::Bind), (UsbBusEvent::Bind, 0));
    assert_eq!(send(&mut state, UsbBusEvent::Enable), (UsbBusEvent::Enable, 1));
    assert_eq!(send(&mut state, UsbBusEvent::Enable), (UsbBusEvent::Enable, 1));
    assert_eq!(send(&mut state, UsbBusEvent::Suspend), (UsbBusEvent::Suspend, 1));
    assert_eq!(send(&mut state, UsbBusEvent::Resume), (UsbBusEvent::Resume, 1));
    assert_eq!(send(&mut state, UsbBusEvent::Disable), (UsbBusEvent::Disable, 1));
    assert_eq!(send(&mut state, UsbBusEvent::Enable), (UsbBusEvent::Enable, 2));
    assert_eq!(send(&mut state, UsbBusEvent::Unbind), (UsbBusEvent::Unbind, 2));
    assert_eq!(
        state.endpoints,
        Some(Endpoints {
            enabled: false,
            activation: 2
        })
    );
    state.endpoints = Some(Endpoints {
        enabled: false,
        activation: u64::MAX,
    });
    let before = state;
    assert_eq!(
        state.forward_bus_event(UsbBusEvent::Enable).unwrap_err(),
        Ep0Error::ActivationOverflow
    );
    assert_eq!(state, before);
}

#[test]
fn control_requests_are_numbered() {
    let mut state = serving();
    let setup = [0x21, 9, 0, 2, 0, 0, 2, 0];
    let request = ControlRequest::new(&setup);
    assert!(!request.direction_in);
    assert_eq!(request.data_length(), 2);
    let record = state.forward_control_request(&setup, &[7, 8]).unwrap();
    assert_eq!(record.body, [0x21, 9, 0, 2, 0, 0, 2, 0, 7, 8]);
    assert_eq!((record.kind, record.request_id), (Kind::UsbControlRequest, 1));
    assert_eq!(state.next_control_request, 2);
    state.next_control_request = u32::MAX;
    assert_eq!(
        state.forward_control_request(&setup, &[7, 8]).unwrap_err(),
        Ep0Error::RequestOverflow
    );
    assert_eq!(state.next_control_request, u32::MAX);
    let reading = ControlRequest::new(&[0x80, 6, 0, 1, 0, 0, 18, 1]);
    assert!(reading.direction_in);
    assert_eq!(reading.transfer_length, 274);
    assert_eq!(reading.data_length(), 0);
}

#[test]
fn control_responses_are_clipped_and_checked() {
    let reading = ControlRequest {
        direction_in: true,
        transfer_length: 2,
    };
    let writing = ControlRequest {
        direction_in: false,
        transfer_length: 2,
    };
    let reply = |request: ControlRequest, body: Vec<u8>| request.reply(&response(body), 3, 9);
    assert_eq!(reply(reading, vec![0]), Ok(Ep0Reply::Stall));
    assert_eq!(reply(writing, vec![0]), Ok(Ep0Reply::Stall));
    assert_eq!(reply(writing, vec![1]), Ok(Ep0Reply::Acknowledge));
    assert_eq!(reply(reading, vec![2, 5, 6, 7]), Ok(Ep0Reply::Data(vec![5, 6])));
    assert_eq!(reply(reading, vec![2, 5]), Ok(Ep0Reply::Data(vec![5])));
    assert_eq!(reply(reading, vec![2]), Ok(Ep0Reply::Data(vec![])));
    assert_eq!(reply(reading, vec![1]), Err(Ep0Error::InvalidResponse));
    assert_eq!(reply(writing, vec![2, 5]), Err(Ep0Error::InvalidResponse));
    assert_eq!(reply(reading, vec![0, 1]), Err(Ep0Error::InvalidResponse));
    assert_eq!(reply(reading, vec![3]), Err(Ep0Error::InvalidResponse));
    assert_eq!(reply(reading, vec![]), Err(Ep0Error::MismatchedResponse));
    assert_eq!(
        reading.reply(&response(vec![0]), 4, 9),
        Err(Ep0Error::MismatchedResponse)
    );
    assert_eq!(
        reading.reply(&response(vec![0]), 3, 8),
        Err(Ep0Error::MismatchedResponse)
    );
    let mut passing = response(vec![0]);
    passing.descriptors.push(1);
    assert_eq!(reading.reply(&passing, 3, 9), Err(Ep0Error::MismatchedResponse));
    let quiesced = Record::new(Kind::Quiesced, 3, 9, vec![0]);
    assert_eq!(reading.reply(&quiesced, 3, 9), Err(Ep0Error::MismatchedResponse));
}

#[test]
fn reads_go_on_until_they_are_complete() {
    let mut transfer = Transfer::new(false, 5);
    assert_eq!(transfer.follow(TransferEvent::NotReady), TransferStep::Wait);
    assert_eq!(transfer.follow(TransferEvent::Ready), TransferStep::Move);
    assert_eq!(transfer.follow(TransferEvent::Moved(3)), TransferStep::Move);
    assert_eq!(transfer.offset, 3);
    assert_eq!(transfer.follow(TransferEvent::Interrupted), TransferStep::Move);
    assert_eq!(transfer.follow(TransferEvent::Moved(2)), TransferStep::Done);
    let mut transfer = Transfer::new(false, 5);
    assert_eq!(
        transfer.follow(TransferEvent::Moved(0)),
        TransferStep::Fail(Ep0Error::ShortRead)
    );
    assert_eq!(
        transfer.follow(TransferEvent::Gone),
        TransferStep::Fail(Ep0Error::Shutdown)
    );
    assert_eq!(
        transfer.follow(TransferEvent::Refused(EIDRM)),
        TransferStep::Fail(Ep0Error::Refused(EIDRM))
    );
}

#[test]
fn writes_go_over_whole() {
    assert_eq!(
        Transfer::new(true, 5).follow(TransferEvent::Moved(5)),
        TransferStep::Done
    );
    assert_eq!(
        Transfer::new(true, 5).follow(TransferEvent::Moved(4)),
        TransferStep::Fail(Ep0Error::ShortWrite)
    );
    assert_eq!(
        Transfer::new(true, 0).follow(TransferEvent::Moved(0)),
        TransferStep::Done
    );
}

#[test]
fn refusals_are_told_apart() {
    assert!(control_request_cancelled(Some(EIDRM)));
    assert!(!control_request_cancelled(Some(EL2HLT)));
    assert!(!control_request_cancelled(None));
    assert_eq!(stall_outcome(Some(EL2HLT)), Ok(()));
    assert_eq!(stall_outcome(Some(5)), Err(Ep0Error::Refused(5)));
    assert_eq!(stall_outcome(None), Err(Ep0Error::NotStalled));
}
