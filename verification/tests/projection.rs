use usb_gadget_supervisor::functionfs::{self, FunctionFsError, HAS_MS_OS_DESC};
use usb_gadget_supervisor::native::{NativeDevice, NativeInterface};
use usb_gadget_supervisor::supervisor::{validate_candidate, Refusal};
use usb_gadget_supervisor::usb_personality::{
    discover_bundle, functionfs_strings, project, Endpoint, ProjectionError,
};
use usb_gadget_supervisor::{
    MicrosoftCompatibleId, MicrosoftOs10, MicrosoftRegistryProperty, StringDescriptor,
    UgspPersonalityBuilder, UsbPersonality, UsbSpeed, WebUsb,
};

fn string_descriptor(value: &str) -> Vec<u8> {
    let words = value.encode_utf16().collect::<Vec<_>>();
    let mut descriptor = vec![(2 + words.len() * 2) as u8, 3];
    for word in words {
        descriptor.extend_from_slice(&word.to_le_bytes());
    }
    descriptor
}

fn guid() -> Vec<u8> {
    "{0263b512-88cb-4136-9613-5c8e109d8ef5}"
        .encode_utf16()
        .chain([0])
        .flat_map(u16::to_le_bytes)
        .collect::<Vec<_>>()
}

fn device() -> Vec<u8> {
    vec![
        18, 1, 0x10, 0x02, 0, 0, 0, 64, 0x09, 0x12, 0xc1, 0x53, 0x01, 0x01, 1, 2, 3, 1,
    ]
}

fn configuration() -> Vec<u8> {
    vec![
        9, 2, 32, 0, 1, 1, 0, 0x80, 50, 9, 4, 0, 0, 2, 0xff, 0, 0, 4, 7, 5, 0x01, 3, 64, 0, 1, 7,
        5, 0x81, 3, 64, 0, 1,
    ]
}

fn text(index: u8, value: &str) -> StringDescriptor {
    StringDescriptor::new(index, 0x0409, string_descriptor(value))
}

fn bare(device: Vec<u8>, configuration: Vec<u8>) -> UsbPersonality {
    UsbPersonality::new(UsbSpeed::FullSpeed, device, configuration)
        .with_string(StringDescriptor::new(0, 0, vec![4, 3, 0x09, 0x04]))
        .with_string(text(1, "Virtual Trezor"))
        .with_string(text(2, "Virtual Trezor"))
        .with_string(text(3, "serial"))
        .with_string(text(4, "Trezor Interface"))
}

fn microsoft() -> MicrosoftOs10 {
    MicrosoftOs10::new(0x21)
        .with_compatible_id(MicrosoftCompatibleId::new(0, "WINUSB", ""))
        .with_registry_property(MicrosoftRegistryProperty::new(
            0,
            7,
            "DeviceInterfaceGUIDs",
            guid(),
        ))
}

fn refused(personality: UsbPersonality) -> ProjectionError {
    discover_bundle(personality).unwrap_err()
}

#[test]
fn projects_typed_winusb_and_webusb_capabilities() {
    let personality = bare(device(), configuration())
        .with_microsoft_os_1(microsoft())
        .with_webusb(WebUsb::new(0x0100, 1, ""));

    let (_, projected) = discover_bundle(personality).unwrap();
    assert_eq!(projected.device.vendor_id, 0x1209);
    assert_eq!(projected.device.product_id, 0x53c1);
    assert_eq!(projected.endpoints.len(), 2);
    assert_eq!(projected.endpoints[0].address, 0x01);
    assert_eq!(projected.endpoints[1].address, 0x81);
    assert_eq!(projected.microsoft_os_1.as_ref().unwrap().vendor_code, 0x21);
    assert_eq!(projected.webusb.as_ref().unwrap().vendor_code, 1);
    assert_ne!(
        u32::from_le_bytes(projected.descriptors[8..12].try_into().unwrap()) & HAS_MS_OS_DESC,
        0
    );
}

#[test]
fn rejects_missing_referenced_strings() {
    let personality = UsbPersonality::new(
        UsbSpeed::FullSpeed,
        vec![18, 1, 0, 2, 0, 0, 0, 64, 0x09, 0x12, 1, 0, 0, 1, 1, 0, 0, 1],
        vec![9, 2, 9, 0, 0, 1, 0, 0x80, 25],
    )
    .with_string(StringDescriptor::new(0, 0, vec![4, 3, 0x09, 0x04]));
    assert!(discover_bundle(personality).is_err());
}

#[test]
fn projects_identity_and_blobs_exactly() {
    let (kept, projected) = discover_bundle(bare(device(), configuration())).unwrap();
    assert_eq!(kept.device_descriptor, device());
    assert_eq!(projected.device.manufacturer.as_deref(), Some("Virtual Trezor"));
    assert_eq!(projected.device.serial.as_deref(), Some("serial"));
    assert_eq!(projected.device.bcd_usb, 0x0210);
    assert_eq!(projected.device.bcd_device, 0x0101);
    assert_eq!(projected.max_speed, "full-speed");
    assert_eq!(projected.max_power_ma, 100);
    assert_eq!(projected.configuration_attributes, 0x80);
    assert_eq!(
        projected.endpoints[1],
        Endpoint {
            address: 0x81,
            transfer_type: 3,
            max_packet_size: 64
        }
    );
    let mut descriptors = vec![3, 0, 0, 0, 39, 0, 0, 0, 193, 0, 0, 0, 3, 0, 0, 0];
    descriptors.extend_from_slice(&[9, 4, 0, 0, 2, 0xff, 0, 0, 1]);
    descriptors.extend_from_slice(&[7, 5, 0x01, 3, 64, 0, 1, 7, 5, 0x81, 3, 64, 0, 1]);
    assert_eq!(projected.descriptors, descriptors);
    let mut strings = vec![2, 0, 0, 0, 35, 0, 0, 0, 1, 0, 0, 0, 1, 0, 0, 0, 0x09, 0x04];
    strings.extend_from_slice(b"Trezor Interface\0");
    assert_eq!(projected.strings, strings);
}

#[test]
fn projects_microsoft_descriptors_by_interface() {
    let mut configuration = vec![9, 2, 27, 0, 2, 1, 0, 0x80, 50];
    configuration.extend_from_slice(&[9, 4, 0, 0, 0, 0xff, 0, 0, 0, 9, 4, 1, 0, 0, 0xff, 0, 0, 0]);
    let declaration = MicrosoftOs10::new(1)
        .with_registry_property(MicrosoftRegistryProperty::new(1, 1, "B", vec![9]))
        .with_registry_property(MicrosoftRegistryProperty::new(0, 4, "A", vec![]));
    let personality = bare(device(), configuration).with_microsoft_os_1(declaration);
    let projected = project(&personality).unwrap();
    let body = 20 + 18;
    let first = [0, 29, 0, 0, 0, 0, 1, 5, 0, 1, 0];
    assert_eq!(projected.descriptors[16..20], [2, 0, 0, 0]);
    assert_eq!(projected.descriptors[body..body + 11], first);
    let feature = [18, 0, 0, 0, 4, 0, 0, 0, 4, 0, b'A', 0, 0, 0, 0, 0, 0, 0];
    assert_eq!(projected.descriptors[body + 11..body + 29], feature);
    assert_eq!(projected.descriptors[body + 29], 1);
    assert_eq!(*projected.descriptors.last().unwrap(), 9);
    assert_eq!(
        projected.microsoft_os_1.unwrap().signature,
        "MSFT100"
    );
}

#[test]
fn renumbers_strings_by_first_appearance() {
    let mut configuration = vec![9, 2, 36, 0, 3, 1, 0, 0x80, 50];
    for (number, string) in [(0, 4), (1, 2), (2, 4)] {
        configuration.extend_from_slice(&[9, 4, number, 0, 0, 0xff, 0, 0, string]);
    }
    let projected = project(&bare(device(), configuration)).unwrap();
    let indices: Vec<u8> = [24, 33, 42].iter().map(|at| projected.descriptors[*at]).collect();
    assert_eq!(indices, [1, 2, 1]);
    assert_eq!(projected.strings[8..12], [2, 0, 0, 0]);
    assert_eq!(&projected.strings[18..], b"Trezor Interface\0Virtual Trezor\0");
}

#[test]
fn refuses_malformed_personalities() {
    let mut personality = bare(device(), configuration());
    personality.schema = 2;
    assert_eq!(refused(personality), ProjectionError::Schema(2));
    let mut personality = bare(device(), configuration());
    for index in 0..252 {
        personality = personality.with_string(StringDescriptor::new(index, 7, vec![2, 3]));
    }
    assert_eq!(refused(personality), ProjectionError::TooManyStrings);
    let personality = bare(device(), configuration()).with_string(text(4, "again"));
    assert_eq!(refused(personality), ProjectionError::DuplicateString);
    let mut bytes = device();
    bytes[0] = 17;
    assert_eq!(refused(bare(bytes, configuration())), ProjectionError::InvalidDevice);
    let mut bytes = device();
    bytes[17] = 2;
    assert_eq!(refused(bare(bytes, configuration())), ProjectionError::ConfigurationCount);
    let personality = UsbPersonality::new(UsbSpeed::FullSpeed, device(), configuration());
    assert_eq!(refused(personality), ProjectionError::NoLanguages);
    let personality = UsbPersonality::new(UsbSpeed::FullSpeed, device(), configuration())
        .with_string(StringDescriptor::new(0, 0, vec![4, 3, 9]));
    assert_eq!(refused(personality), ProjectionError::InvalidLanguages);
}

#[test]
fn refuses_malformed_texts() {
    let with = |descriptor: Vec<u8>| {
        let personality = UsbPersonality::new(UsbSpeed::FullSpeed, device(), configuration())
            .with_string(StringDescriptor::new(0, 0, vec![4, 3, 0x09, 0x04]))
            .with_string(StringDescriptor::new(1, 0x0409, descriptor));
        refused(personality)
    };
    assert_eq!(with(vec![4, 3, b'A', 0]), ProjectionError::MissingString(2));
    assert_eq!(with(vec![4, 2, b'A', 0]), ProjectionError::InvalidString(1));
    assert_eq!(with(vec![3, 3, b'A', 0]), ProjectionError::InvalidString(1));
    assert_eq!(with(vec![6, 3, b'A', 0]), ProjectionError::InvalidString(1));
    assert_eq!(with(vec![0, 3]), ProjectionError::InvalidString(1));
    assert_eq!(with(vec![4, 3, 0, 0xd8]), ProjectionError::StringEncoding);
}

#[test]
fn refuses_malformed_configurations() {
    let with = |change: &dyn Fn(&mut Vec<u8>)| {
        let mut bytes = configuration();
        change(&mut bytes);
        refused(bare(device(), bytes))
    };
    assert_eq!(with(&|bytes| bytes[1] = 3), ProjectionError::InvalidConfiguration);
    assert_eq!(with(&|bytes| bytes[2] = 8), ProjectionError::ConfigurationLength);
    assert_eq!(with(&|bytes| bytes[2] = 31), ProjectionError::UnsupportedConfiguration);
    assert_eq!(with(&|bytes| bytes[5] = 2), ProjectionError::UnsupportedConfiguration);
    assert_eq!(with(&|bytes| bytes[9] = 22), ProjectionError::TruncatedDescriptor);
    assert_eq!(with(&|bytes| bytes[9] = 1), ProjectionError::DescriptorLength);
    assert_eq!(with(&|bytes| bytes[9] = 8), ProjectionError::ShortInterface);
    assert_eq!(with(&|bytes| bytes[18] = 6), ProjectionError::ShortEndpoint);
    let personality = UsbPersonality::new(UsbSpeed::FullSpeed, device(), configuration())
        .with_string(StringDescriptor::new(0, 0, vec![4, 3, 0x09, 0x04]))
        .with_string(text(1, "a"))
        .with_string(text(2, "b"))
        .with_string(text(3, "c"))
        .with_string(text(4, "d\0"));
    assert_eq!(refused(personality), ProjectionError::EmbeddedNul);
}

#[test]
fn refuses_more_function_strings_than_a_byte_can_number() {
    let mut configuration = vec![9, 2, 0, 0, 0, 1, 0, 0x80, 50];
    for index in 1..=255_u8 {
        configuration.extend_from_slice(&[9, 4, 0, 0, 0, 0xff, 0, 0, index]);
    }
    configuration.extend_from_slice(&[9, 4, 0, 0, 0, 0xff, 0, 0, 1]);
    let length = configuration.len() as u16;
    configuration[2..4].copy_from_slice(&length.to_le_bytes());
    assert_eq!(
        refused(bare(device(), configuration)),
        ProjectionError::TooManyFunctionStrings
    );
}

#[test]
fn refuses_malformed_microsoft_declarations() {
    let with = |declaration: MicrosoftOs10| {
        refused(bare(device(), configuration()).with_microsoft_os_1(declaration))
    };
    let id = |interface, compatible: &str| {
        MicrosoftOs10::new(1).with_compatible_id(MicrosoftCompatibleId::new(interface, compatible, ""))
    };
    assert_eq!(with(MicrosoftOs10::new(0)), ProjectionError::ZeroVendorCode);
    assert_eq!(with(id(1, "WINUSB")), ProjectionError::CompatibleIdInterface);
    assert_eq!(
        with(id(0, "WINUSB").with_compatible_id(MicrosoftCompatibleId::new(0, "WINUSB", ""))),
        ProjectionError::CompatibleIdInterface
    );
    assert_eq!(with(id(0, "TOO LONG!")), ProjectionError::CompatibleIdText);
    assert_eq!(with(id(0, "\u{e4}")), ProjectionError::CompatibleIdText);
    assert_eq!(with(id(0, "A\0")), ProjectionError::CompatibleIdText);
    let mut many = MicrosoftOs10::new(1);
    for _ in 0..256 {
        many = many.with_compatible_id(MicrosoftCompatibleId::new(0, "WINUSB", ""));
    }
    assert_eq!(with(many), ProjectionError::TooManyCompatibleIds);
    let property = |interface, name: &str| {
        MicrosoftOs10::new(1).with_registry_property(MicrosoftRegistryProperty::new(
            interface,
            1,
            name,
            vec![],
        ))
    };
    assert_eq!(with(property(1, "A")), ProjectionError::PropertyTarget);
    assert_eq!(with(property(0, "A\0")), ProjectionError::PropertyTarget);
    assert_eq!(
        with(property(0, &"A".repeat(32767))),
        ProjectionError::PropertyNameTooLong
    );
    assert!(project(
        &bare(device(), configuration()).with_microsoft_os_1(property(0, &"A".repeat(32766)))
    )
    .is_ok());
    let mut crowded = MicrosoftOs10::new(1);
    for _ in 0..65536 {
        crowded = crowded.with_registry_property(MicrosoftRegistryProperty::new(0, 1, "", vec![]));
    }
    assert_eq!(with(crowded), ProjectionError::TooManyProperties);
}

#[test]
fn refuses_malformed_webusb_declarations() {
    let with = |declaration: WebUsb| {
        refused(bare(device(), configuration()).with_webusb(declaration))
    };
    assert_eq!(with(WebUsb::new(0x0200, 1, "")), ProjectionError::WebUsb);
    assert_eq!(with(WebUsb::new(0x0100, 0, "")), ProjectionError::WebUsb);
    let mut old = device();
    old[2] = 0;
    assert_eq!(
        refused(bare(old, configuration()).with_webusb(WebUsb::new(0x0100, 1, ""))),
        ProjectionError::WebUsb
    );
    assert_eq!(with(WebUsb::new(0x0100, 1, "ftp://x")), ProjectionError::LandingPage);
    assert_eq!(with(WebUsb::new(0x0100, 1, "https://\u{e4}")), ProjectionError::LandingPage);
    let long = format!("https://{}", "a".repeat(245));
    assert_eq!(with(WebUsb::new(0x0100, 1, &long)), ProjectionError::LandingPage);
    let page = format!("https://{}", "a".repeat(244));
    let personality = bare(device(), configuration()).with_webusb(WebUsb::new(0x0100, 1, &page));
    assert_eq!(project(&personality).unwrap().webusb.unwrap().landing_page, page);
}

#[test]
fn projected_blobs_pass_inspection() {
    let personality = bare(device(), configuration()).with_microsoft_os_1(microsoft());
    let projected = project(&personality).unwrap();
    let inspection = functionfs::inspect(&projected.descriptors, &projected.strings).unwrap();
    assert!(inspection.has_ms_os_descriptors);
    assert_eq!(inspection.endpoints.len(), projected.endpoints.len());
    assert_eq!(inspection.endpoints[0].direction, functionfs::Direction::Out);
    assert_eq!(inspection.endpoints[1].direction, functionfs::Direction::In);
    assert_eq!(inspection.endpoints[1].transfer_type, 3);
}

#[test]
fn string_blobs_pass_inspection_without_trailing_bytes() {
    let strings = vec![text(4, "One"), text(7, "Zwei")];
    let mut blob = functionfs_strings(&strings, 0x0409, &vec![7, 4]).unwrap();
    assert_eq!(functionfs::inspect_strings(&blob), Ok(()));
    assert_eq!(blob[4..8], (blob.len() as u32).to_le_bytes());
    assert_eq!(blob[8..16], [2, 0, 0, 0, 1, 0, 0, 0]);
    assert_eq!(&blob[16..], b"\x09\x04Zwei\0One\0");
    blob.push(0);
    assert_eq!(
        functionfs::inspect_strings(&blob),
        Err(FunctionFsError::StringBlobLength)
    );

    let empty = functionfs_strings(&strings, 0x0409, &vec![]).unwrap();
    assert_eq!(empty[4..], [16, 0, 0, 0, 0, 0, 0, 0, 0, 0, 0, 0]);
    assert_eq!(functionfs::inspect_strings(&empty), Ok(()));
}

#[test]
fn candidates_are_validated_as_a_whole() {
    assert_eq!(validate_candidate(None).unwrap_err(), Refusal::Undecodable);
    let (personality, endpoints) =
        validate_candidate(Some(bare(device(), configuration()))).unwrap();
    assert_eq!(personality.endpoints.len(), 2);
    assert_eq!(endpoints.len(), 2);
    let mut twice = configuration();
    twice[27] = 0x01;
    assert_eq!(
        validate_candidate(Some(bare(device(), twice))).unwrap_err(),
        Refusal::FunctionFs(functionfs::FunctionFsError::DuplicateEndpoint(0x01))
    );
    let mut personality = bare(device(), configuration());
    personality.schema = 3;
    assert_eq!(
        validate_candidate(Some(personality)).unwrap_err(),
        Refusal::Projection(ProjectionError::Schema(3))
    );
}

#[test]
fn native_identity_reads_back_from_its_personality() {
    let mut builder = UgspPersonalityBuilder::new(
        UsbSpeed::HighSpeed,
        NativeDevice {
            usb_version: 0x0210,
            vendor_id: 0x1209,
            product_id: 0x53c1,
            device_version: 0x0200,
            device_class: 1,
            device_subclass: 2,
            device_protocol: 3,
            max_packet_size_0: 64,
            manufacturer: "M\u{1f600}".to_owned(),
            product: "P".to_owned(),
            serial_number: "S".to_owned(),
            interface_name: "I".to_owned(),
        },
    );
    builder
        .add_interface(NativeInterface {
            number: 0,
            class_code: 0xff,
            subclass: 0,
            protocol: 0,
            string_index: 4,
            endpoint_in: 0x81,
            endpoint_out: 0x01,
            transfer_type: 3,
            max_packet_size: 64,
            interval: 1,
            class_descriptors: vec![],
        })
        .unwrap();
    let (_, projected) = discover_bundle(builder.personality().unwrap()).unwrap();
    assert_eq!(projected.device.vendor_id, 0x1209);
    assert_eq!(projected.device.bcd_usb, 0x0210);
    assert_eq!(projected.device.bcd_device, 0x0200);
    assert_eq!(projected.device.device_class, 1);
    assert_eq!(projected.device.manufacturer.as_deref(), Some("M\u{1f600}"));
    assert_eq!(projected.device.product.as_deref(), Some("P"));
    assert_eq!(projected.device.serial.as_deref(), Some("S"));
    assert_eq!(&projected.strings[18..], b"I\0");
    assert_eq!(projected.max_speed, "high-speed");

    builder
        .add_microsoft_compatible_id(7, 0, Some("WINUSB".to_owned()), Some(String::new()))
        .unwrap();
    let (shown, endpoints) = validate_candidate(Some(builder.personality().unwrap())).unwrap();
    assert_eq!(shown.endpoints[0].address, 0x81);
    assert_eq!(shown.endpoints[1].address, 0x01);
    assert_eq!(endpoints[0].direction, functionfs::Direction::In);
    assert_eq!(endpoints[1].direction, functionfs::Direction::Out);
}
