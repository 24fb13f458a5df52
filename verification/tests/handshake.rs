use usb_gadget_supervisor::handshake::initial_resources;
use usb_gadget_supervisor::launch::LaunchError;
use usb_gadget_supervisor::profile::{CharacterDeviceResource, ResourceAccess, ResourceProfile};
use usb_gadget_supervisor::protocol::Kind;
use usb_gadget_supervisor::supervisor::State;
use usb_gadget_supervisor::usb_personality::project;
use usb_gadget_supervisor::{StringDescriptor, UsbPersonality, UsbSpeed};

fn resource(name: &str) -> ResourceProfile {
    ResourceProfile::CharacterDevice(CharacterDeviceResource {
        name: name.to_owned(),
        path: "/dev/x".to_owned(),
        access: ResourceAccess::Read,
        fd: None,
    })
}

#[test]
fn resources_are_named_before_any_generation() {
    let record = initial_resources(&vec![resource("spi")]).unwrap();
    assert_eq!(
        (record.kind, record.generation, record.request_id),
        (Kind::InitialResources, 0, 0)
    );
    assert_eq!(record.body, [0, 1, 0, 3, b's', b'p', b'i']);
    assert_eq!(
        initial_resources(&vec![resource(&"a".repeat(65536))]).unwrap_err(),
        LaunchError::ResourceNameTooLong
    );
}

#[test]
fn handshakes_carry_generation_and_request() {
    let mut state = State::new(false);
    state.generation = 6;
    let quiesce = state.quiesce_request(9);
    assert_eq!((quiesce.kind, quiesce.generation, quiesce.request_id), (Kind::Quiesce, 6, 9));
    assert!(quiesce.body.is_empty());
    let rejection = state.configuration_rejected(9, "n\u{e4}");
    assert_eq!(rejection.kind, Kind::ConfigurationRejected);
    assert_eq!(rejection.body, [b'n', 0xc3, 0xa4]);
    let personality = UsbPersonality::new(
        UsbSpeed::FullSpeed,
        vec![18, 1, 0, 2, 0, 0, 0, 64, 0, 0, 0, 0, 0, 0, 0, 0, 0, 1],
        vec![
            9, 2, 25, 0, 1, 1, 0, 0x80, 25, 9, 4, 0, 0, 1, 3, 0, 0, 0, 7, 5, 0x81, 3, 64, 2, 1,
        ],
    )
    .with_string(StringDescriptor::new(0, 0, vec![4, 3, 0x09, 0x04]));
    let offer = state
        .usb_endpoints(9, &project(&personality).unwrap())
        .unwrap();
    assert_eq!((offer.kind, offer.generation, offer.request_id), (Kind::UsbEndpoints, 6, 9));
    assert_eq!(offer.body, [0, 1, 0x81, 3, 2, 64]);
}
