use usb_gadget_supervisor::lifecycle::{BusEventError, Wait};
use usb_gadget_supervisor::{EndpointLifecycle, UsbBusEvent, USB_BUS_EVENT_BODY_LENGTH};

#[test]
fn bus_events_carry_activation() {
    let event = UsbBusEvent::Enable.encode(0x0102_0304_0506_0708);
    assert_eq!(
        UsbBusEvent::decode(&event).unwrap(),
        (UsbBusEvent::Enable, 0x0102_0304_0506_0708)
    );
}

#[test]
fn bus_events_have_a_fixed_layout() {
    assert_eq!(
        UsbBusEvent::Resume.encode(0x0102_0304_0506_0708),
        [6, 1, 2, 3, 4, 5, 6, 7, 8]
    );
    assert_eq!(USB_BUS_EVENT_BODY_LENGTH, 9);
    let events = [
        (0, UsbBusEvent::Bind),
        (1, UsbBusEvent::Unbind),
        (2, UsbBusEvent::Enable),
        (3, UsbBusEvent::Disable),
        (5, UsbBusEvent::Suspend),
        (6, UsbBusEvent::Resume),
    ];
    for (byte, event) in events {
        assert_eq!(UsbBusEvent::from_byte(byte), Ok(event));
        assert_eq!(event.to_byte(), byte);
    }
}

#[test]
fn refuses_malformed_bus_events() {
    assert_eq!(
        UsbBusEvent::decode(&[4, 0, 0, 0, 0, 0, 0, 0, 0]),
        Err(BusEventError::UnknownEvent(4))
    );
    assert_eq!(UsbBusEvent::decode(&[2; 8]), Err(BusEventError::InvalidBody));
    assert_eq!(UsbBusEvent::decode(&[2; 10]), Err(BusEventError::InvalidBody));
}

#[test]
fn endpoint_lifecycle_waits_for_new_activation_and_stops() {
    let mut lifecycle = EndpointLifecycle::new();
    assert_eq!(lifecycle.wait_for_activation_after(0), Wait::Blocked);
    assert!(lifecycle.activate(1));
    assert_eq!(lifecycle.wait_for_activation_after(0), Wait::Active(1));
    assert_eq!(lifecycle.wait_for_activation_after(1), Wait::Blocked);
    assert!(!lifecycle.activate(1));
    assert!(lifecycle.stop());
    assert!(!lifecycle.stop());
    assert_eq!(lifecycle.wait_for_activation_after(1), Wait::Stopping);
    assert!(!lifecycle.activate(5));
    assert_eq!(lifecycle.wait_for_activation_after(0), Wait::Stopping);
}
