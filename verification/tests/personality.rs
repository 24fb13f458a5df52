use usb_gadget_supervisor::native::{string_descriptor, NativeDevice, NativeInterface};
use usb_gadget_supervisor::personality::{ffi_speed, PersonalityError};
use usb_gadget_supervisor::{
    MicrosoftCompatibleId, MicrosoftOs10, MicrosoftRegistryProperty, StringDescriptor,
    UgspPersonalityBuilder, UsbPersonality, UsbPersonalityBuilder, UsbSpeed, WebUsb,
    PERSONALITY_SCHEMA,
};

fn device() -> NativeDevice {
    NativeDevice {
        usb_version: 0x0210,
        vendor_id: 0x1209,
        product_id: 0x53c1,
        device_version: 0x0200,
        device_class: 0,
        device_subclass: 0,
        device_protocol: 0,
        max_packet_size_0: 64,
        manufacturer: "Trezor Company".to_owned(),
        product: "Trezor Safe 3".to_owned(),
        serial_number: "serial".to_owned(),
        interface_name: "TREZOR Interface".to_owned(),
    }
}

fn interface(number: u8) -> NativeInterface {
    NativeInterface {
        number,
        class_code: 0xff,
        subclass: 0,
        protocol: 0,
        string_index: 4,
        endpoint_in: 0x81 + number,
        endpoint_out: 0x01 + number,
        transfer_type: 3,
        max_packet_size: 64,
        interval: 1,
        class_descriptors: vec![],
    }
}

fn builder() -> UgspPersonalityBuilder {
    UgspPersonalityBuilder::new(UsbSpeed::FullSpeed, device())
}

#[test]
fn native_builder_writes_descriptors() {
    let mut builder = builder();
    builder.add_interface(interface(0)).unwrap();
    let personality = builder.personality().unwrap();
    assert_eq!(&personality.device_descriptor[8..12], &[0x09, 0x12, 0xc1, 0x53]);
    assert_eq!(personality.configuration_descriptor[4], 1);
    assert_eq!(personality.strings[2].descriptor[2], b'T');
    assert_eq!(
        personality.device_descriptor,
        [18, 1, 0x10, 2, 0, 0, 0, 64, 0x09, 0x12, 0xc1, 0x53, 0, 2, 1, 2, 3, 1]
    );
    assert_eq!(
        personality.configuration_descriptor,
        [
            9, 2, 32, 0, 1, 1, 0, 0x80, 0x32, 9, 4, 0, 0, 2, 0xff, 0, 0, 4, 7, 5, 0x81, 3, 64, 0,
            1, 7, 5, 0x01, 3, 64, 0, 1
        ]
    );
    assert_eq!(personality.strings.len(), 5);
    assert_eq!(personality.strings[0].descriptor, [4, 3, 0x09, 0x04]);
    assert_eq!(personality.schema, PERSONALITY_SCHEMA);
}

#[test]
fn native_interfaces_are_ordered_by_number() {
    let mut builder = builder();
    let mut second = interface(5);
    second.class_descriptors = vec![3, 0x21, 7];
    builder.add_interface(second).unwrap();
    builder.add_interface(interface(2)).unwrap();
    let bytes = builder.personality().unwrap().configuration_descriptor;
    assert_eq!(bytes[4], 2);
    assert_eq!(bytes[11], 2);
    assert_eq!(bytes[9 + 23 + 2], 5);
    assert_eq!(&bytes[9 + 23 + 9..9 + 23 + 12], &[3, 0x21, 7]);
    assert_eq!(usize::from(u16::from_le_bytes([bytes[2], bytes[3]])), bytes.len());
}

#[test]
fn native_builder_refuses_what_it_cannot_describe() {
    assert_eq!(
        builder().personality().unwrap_err(),
        PersonalityError::NoInterfaces
    );
    let mut twice = builder();
    twice.add_interface(interface(1)).unwrap();
    assert_eq!(
        twice.add_interface(interface(1)).unwrap_err(),
        PersonalityError::DuplicateInterface
    );
    assert_eq!(twice.interfaces.len(), 1);
    twice.interfaces.push(interface(1));
    assert_eq!(
        twice.personality().unwrap_err(),
        PersonalityError::DuplicateInterfaceNumber
    );
    let with = |change: &dyn Fn(&mut NativeInterface)| {
        let mut builder = builder();
        let mut spoilt = interface(0);
        change(&mut spoilt);
        builder.add_interface(spoilt).unwrap();
        builder.personality().unwrap_err()
    };
    assert_eq!(with(&|spoilt| spoilt.endpoint_in = 1), PersonalityError::InvalidInterface);
    assert_eq!(with(&|spoilt| spoilt.endpoint_out = 0x82), PersonalityError::InvalidInterface);
    assert_eq!(with(&|spoilt| spoilt.max_packet_size = 0), PersonalityError::InvalidInterface);
    assert_eq!(with(&|spoilt| spoilt.transfer_type = 4), PersonalityError::InvalidInterface);
    assert_eq!(
        with(&|spoilt| spoilt.class_descriptors = vec![0; 65536]),
        PersonalityError::ConfigurationTooLarge
    );
    let mut long = builder();
    long.add_interface(interface(0)).unwrap();
    long.set_serial_number("x".repeat(127));
    assert_eq!(long.personality().unwrap_err(), PersonalityError::StringTooLong);
    long.set_serial_number("x".repeat(126));
    assert_eq!(long.personality().unwrap().strings[3].descriptor.len(), 254);
}

#[test]
fn native_compatible_ids_share_one_vendor_code() {
    let mut builder = builder();
    let text = |value: &str| Some(value.to_owned());
    assert_eq!(
        builder.add_microsoft_compatible_id(0, 0, text("WINUSB"), text("")),
        Err(PersonalityError::ZeroVendorCode)
    );
    assert!(builder.microsoft_os_1.is_none());
    assert_eq!(
        builder.add_microsoft_compatible_id(7, 0, text("WINUSB"), None),
        Err(PersonalityError::InvalidText)
    );
    assert_eq!(builder.microsoft_os_1.as_ref().unwrap().vendor_code, 7);
    assert!(builder.microsoft_os_1.as_ref().unwrap().compatible_ids.is_empty());
    assert_eq!(
        builder.add_microsoft_compatible_id(8, 0, text("WINUSB"), text("")),
        Err(PersonalityError::ConflictingVendorCodes)
    );
    builder
        .add_microsoft_compatible_id(7, 3, text("WINUSB"), text("SUB"))
        .unwrap();
    builder.add_interface(interface(3)).unwrap();
    let microsoft = builder.personality().unwrap().microsoft_os_1.unwrap();
    assert_eq!(microsoft.compatible_ids.len(), 1);
    assert_eq!(microsoft.compatible_ids[0].interface, 3);
    assert_eq!(microsoft.compatible_ids[0].sub_compatible_id, "SUB");
}

#[test]
fn native_webusb_is_set_and_cleared() {
    let mut builder = builder();
    builder.add_interface(interface(0)).unwrap();
    builder.set_webusb(1, 0x0100, 2, Some("https://x".to_owned())).unwrap();
    assert_eq!(
        builder.set_webusb(1, 0x0100, 2, None),
        Err(PersonalityError::InvalidText)
    );
    assert_eq!(
        builder.personality().unwrap().webusb.unwrap().landing_page,
        "https://x"
    );
    builder.set_webusb(0, 0, 0, None).unwrap();
    assert!(builder.personality().unwrap().webusb.is_none());
}

#[test]
fn builder_checks_frames() {
    let device = vec![18, 1, 0, 2, 0, 0, 0, 64, 0, 0, 0, 0, 0, 0, 0, 0, 0, 1];
    let finish = |device: Option<Vec<u8>>, configuration: Option<Vec<u8>>| {
        let mut builder = UsbPersonalityBuilder::new(UsbSpeed::LowSpeed);
        if let Some(device) = device {
            builder.device_descriptor(device);
        }
        if let Some(configuration) = configuration {
            builder.configuration_descriptor(configuration);
        }
        builder.finish()
    };
    let whole = vec![9, 2, 9, 0, 0, 1, 0, 0x80, 25];
    assert_eq!(finish(None, None).unwrap_err(), PersonalityError::MissingDevice);
    assert_eq!(
        finish(Some(device.clone()), None).unwrap_err(),
        PersonalityError::MissingConfiguration
    );
    assert_eq!(
        finish(Some(vec![18, 1]), Some(whole.clone())).unwrap_err(),
        PersonalityError::InvalidDevice
    );
    let mut short = whole.clone();
    short[2] = 10;
    assert_eq!(
        finish(Some(device.clone()), Some(short)).unwrap_err(),
        PersonalityError::InvalidConfiguration
    );
    let personality = finish(Some(device.clone()), Some(whole.clone())).unwrap();
    assert_eq!(personality.device_descriptor, device);
    assert_eq!(personality.configuration_descriptor, whole);
    assert_eq!(personality.max_speed, UsbSpeed::LowSpeed);
}

#[test]
fn builder_keeps_what_it_is_given() {
    let mut builder = UsbPersonalityBuilder::new(UsbSpeed::HighSpeed);
    builder
        .device_descriptor(vec![18, 1, 0, 2, 0, 0, 0, 64, 0, 0, 0, 0, 0, 0, 0, 0, 0, 1])
        .configuration_descriptor(vec![9, 2, 9, 0, 0, 1, 0, 0x80, 25])
        .string_descriptor(StringDescriptor::new(1, 2, vec![3]))
        .microsoft_os_1(
            MicrosoftOs10::new(5)
                .with_compatible_id(MicrosoftCompatibleId::new(1, "A", "B"))
                .with_registry_property(MicrosoftRegistryProperty::new(1, 7, "N", vec![1, 2])),
        )
        .webusb(WebUsb::new(0x0100, 6, "http://y"));
    let personality = builder.finish().unwrap();
    assert_eq!(personality.strings[0].language_id, 2);
    let microsoft = personality.microsoft_os_1.unwrap();
    assert_eq!(microsoft.compatible_ids[0].compatible_id, "A");
    assert_eq!(microsoft.registry_properties[0].data, [1, 2]);
    assert_eq!(personality.webusb.unwrap().landing_page, "http://y");
}

#[test]
fn constructors_keep_their_fields() {
    let personality = UsbPersonality::new(UsbSpeed::FullSpeed, vec![18, 1, 0, 2], vec![9, 2, 9, 0])
        .with_string(StringDescriptor::new(1, 0x0409, vec![4, 3, b'A', 0]))
        .with_microsoft_os_1(MicrosoftOs10::new(9))
        .with_webusb(WebUsb::new(0x0100, 1, "https://example.test"));
    assert_eq!(personality.schema, 1);
    assert_eq!(personality.max_speed, UsbSpeed::FullSpeed);
    assert_eq!(personality.strings[0].descriptor, [4, 3, b'A', 0]);
    assert_eq!(personality.microsoft_os_1.as_ref().unwrap().vendor_code, 9);
    assert_eq!(
        UsbPersonality::from_decoded(personality.clone(), 5, 6).unwrap_err(),
        PersonalityError::TrailingData
    );
    let decoded = UsbPersonality::from_decoded(personality, 6, 6).unwrap();
    assert_eq!(decoded.webusb.unwrap().landing_page, "https://example.test");
}

#[test]
fn speeds_have_numbers_and_names() {
    assert_eq!(ffi_speed(0), Ok(UsbSpeed::LowSpeed));
    assert_eq!(ffi_speed(1), Ok(UsbSpeed::FullSpeed));
    assert_eq!(ffi_speed(2), Ok(UsbSpeed::HighSpeed));
    assert_eq!(ffi_speed(3), Err(PersonalityError::InvalidSpeed));
    assert_eq!(UsbSpeed::LowSpeed.configfs_name(), "low-speed");
    assert_eq!(UsbSpeed::FullSpeed.configfs_name(), "full-speed");
    assert_eq!(UsbSpeed::HighSpeed.configfs_name(), "high-speed");
}

#[test]
fn texts_become_string_descriptors() {
    let made = string_descriptor(3, 0x0409, "\u{e4}\u{1f600}").unwrap();
    assert_eq!(made.index, 3);
    assert_eq!(made.descriptor, [8, 3, 0xe4, 0, 0x3d, 0xd8, 0x00, 0xde]);
    assert_eq!(
        string_descriptor(1, 0x0409, &"\u{1f600}".repeat(64)).unwrap_err(),
        PersonalityError::StringTooLong
    );
}
