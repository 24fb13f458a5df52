use usb_gadget_supervisor::conversation::DiscoveryFault;
use usb_gadget_supervisor::discovery::{Discovery, DiscoveryError};
use usb_gadget_supervisor::personality::PersonalityError;
use usb_gadget_supervisor::{discover, SetupPacket, UsbPersonality, UsbSpeed};

const USB_REQ_GET_DESCRIPTOR: u8 = 6;
const USB_DT_DEVICE: u8 = 1;
const USB_DT_CONFIGURATION: u8 = 2;
const USB_DT_STRING: u8 = 3;
const USB_DT_BOS: u8 = 15;

fn string(text: &str) -> Vec<u8> {
    let words = text.encode_utf16().collect::<Vec<_>>();
    let mut descriptor = vec![(2 + words.len() * 2) as u8, 3];
    for word in words {
        descriptor.extend_from_slice(&word.to_le_bytes());
    }
    descriptor
}

fn utf16(text: &str) -> Vec<u8> {
    text.encode_utf16().flat_map(u16::to_le_bytes).collect()
}

/// A firmware that can be spoilt in one place.
#[derive(Clone)]
struct Firmware {
    device: Vec<u8>,
    languages: Option<Vec<u8>>,
    configuration: Vec<u8>,
    os_string: Option<Vec<u8>>,
    compatible_ids: Option<Vec<u8>>,
    properties: Option<Vec<u8>>,
    bos: Option<Vec<u8>>,
    accepts_configuration: bool,
    url: Option<Vec<u8>>,
}

fn os_string() -> Vec<u8> {
    let mut bytes = string("MSFT100");
    bytes.extend_from_slice(&[0x21, 0]);
    bytes[0] = 18;
    bytes
}

fn compatible_ids() -> Vec<u8> {
    let mut bytes = vec![40, 0, 0, 0, 0, 1, 4, 0, 1, 0, 0, 0, 0, 0, 0, 0];
    bytes.extend_from_slice(&[0, 1]);
    bytes.extend_from_slice(b"WINUSB\0\0");
    bytes.extend_from_slice(&[0; 14]);
    bytes
}

fn properties() -> Vec<u8> {
    let name = utf16("Name\0");
    let data = utf16("{guid}\0");
    let feature = 14 + name.len() + data.len();
    let mut bytes = Vec::new();
    bytes.extend_from_slice(&((10 + feature) as u32).to_le_bytes());
    bytes.extend_from_slice(&[0, 1, 5, 0, 1, 0]);
    bytes.extend_from_slice(&(feature as u32).to_le_bytes());
    bytes.extend_from_slice(&7_u32.to_le_bytes());
    bytes.extend_from_slice(&(name.len() as u16).to_le_bytes());
    bytes.extend_from_slice(&name);
    bytes.extend_from_slice(&(data.len() as u32).to_le_bytes());
    bytes.extend_from_slice(&data);
    bytes
}

fn bos(landing_index: u8) -> Vec<u8> {
    let mut bytes = vec![5, 15, 29, 0, 1, 24, 16, 5, 0];
    bytes.extend_from_slice(&[
        0x38, 0xb6, 0x08, 0x34, 0xa9, 0x09, 0xa0, 0x47, 0x8b, 0xfd, 0xa0, 0x76, 0x88, 0x15, 0xb6,
        0x65,
    ]);
    bytes.extend_from_slice(&[0x00, 0x01, 0x22, landing_index]);
    bytes
}

fn complete() -> Firmware {
    Firmware {
        device: vec![
            18, 1, 0x10, 0x02, 0, 0, 0, 64, 0x09, 0x12, 0x01, 0x00, 0x00, 0x01, 1, 2, 0, 1,
        ],
        languages: Some(vec![6, 3, 0x07, 0x04, 0x09, 0x04]),
        configuration: vec![
            9, 2, 25, 0, 1, 1, 0, 0x80, 25, 9, 4, 0, 0, 1, 3, 0, 0, 5, 7, 5, 0x81, 3, 64, 0, 1,
        ],
        os_string: Some(os_string()),
        compatible_ids: Some(compatible_ids()),
        properties: Some(properties()),
        bos: Some(bos(1)),
        accepts_configuration: true,
        url: Some([vec![14, 3, 1], b"example.org".to_vec()].concat()),
    }
}

impl Firmware {
    fn answer(&self, setup: SetupPacket) -> Option<Vec<u8>> {
        let reply = match (setup.request_type, setup.request, setup.value >> 8, setup.value as u8) {
            (0x80, 6, 1, 0) => Some(self.device.clone()),
            (0x80, 6, 2, 0) => Some(self.configuration.clone()),
            (0x80, 6, 3, 0) => self.languages.clone(),
            (0x80, 6, 3, 0xee) => self.os_string.clone(),
            (0x80, 6, 3, index) => Some(string(&format!("{index}/{}", setup.index))),
            (0x80, 6, 15, 0) => self.bos.clone(),
            (0xc0, 0x21, 0, 0) if setup.index == 4 => self.compatible_ids.clone(),
            (0xc1, 0x21, 0, 0) if setup.index == 5 => self.properties.clone(),
            (0x00, 9, 0, 1) if self.accepts_configuration => Some(Vec::new()),
            (0xc0, 0x22, 0, 1) if setup.index == 2 => self.url.clone(),
            _ => None,
        };
        reply.map(|bytes| bytes[..bytes.len().min(usize::from(setup.length))].to_vec())
    }

    fn discover(&self) -> Result<UsbPersonality, DiscoveryError<()>> {
        discover(UsbSpeed::HighSpeed, |setup, data| {
            assert!(data.is_empty());
            if setup.request == 9 && !self.accepts_configuration {
                return Ok(None);
            }
            if setup.request == 9 {
                return Ok(Some(Vec::new()));
            }
            Ok(self.answer(setup))
        })
    }

    fn fault(&self) -> DiscoveryFault {
        match self.discover() {
            Err(DiscoveryError::Fault(fault)) => fault,
            other => panic!("unexpected outcome {other:?}"),
        }
    }
}

#[test]
fn discovers_a_profile_from_standard_control_transfers() {
    let device = vec![
        18, 1, 0x00, 0x02, 0, 0, 0, 64, 0x09, 0x12, 0x01, 0x00, 0x00, 0x01, 1, 2, 3, 1,
    ];
    let configuration = vec![
        9, 2, 25, 0, 1, 1, 0, 0x80, 25, 9, 4, 0, 0, 1, 3, 0, 0, 0, 7, 5, 0x81, 3, 64, 0, 1,
    ];
    let personality = discover(UsbSpeed::FullSpeed, |setup: SetupPacket, _: &[u8]| {
        let descriptor_type = (setup.value >> 8) as u8;
        let descriptor_index = setup.value as u8;
        let response = match (setup.request, descriptor_type, descriptor_index) {
            (USB_REQ_GET_DESCRIPTOR, USB_DT_DEVICE, 0) => Some(device.clone()),
            (USB_REQ_GET_DESCRIPTOR, USB_DT_CONFIGURATION, 0) => Some(configuration.clone()),
            (USB_REQ_GET_DESCRIPTOR, USB_DT_STRING, 0) => Some(vec![4, 3, 0x09, 0x04]),
            (USB_REQ_GET_DESCRIPTOR, USB_DT_STRING, 1) => Some(string("Example")),
            (USB_REQ_GET_DESCRIPTOR, USB_DT_STRING, 2) => Some(string("Device")),
            (USB_REQ_GET_DESCRIPTOR, USB_DT_STRING, 3) => Some(string("serial")),
            _ => None,
        };
        Ok::<_, ()>(response.map(|bytes| bytes[..bytes.len().min(usize::from(setup.length))].to_vec()))
    })
    .unwrap();
    assert_eq!(personality.max_speed, UsbSpeed::FullSpeed);
    assert_eq!(personality.device_descriptor, device);
    assert_eq!(personality.configuration_descriptor, configuration);
    assert_eq!(personality.strings.len(), 4);
    assert!(personality.microsoft_os_1.is_none());
    assert!(personality.webusb.is_none());
}

#[test]
fn discovers_strings_by_language_and_index() {
    let personality = complete().discover().unwrap();
    let keys: Vec<(u8, u16)> = personality
        .strings
        .iter()
        .map(|string| (string.index, string.language_id))
        .collect();
    assert_eq!(
        keys,
        [
            (0, 0),
            (1, 0x0407),
            (2, 0x0407),
            (5, 0x0407),
            (1, 0x0409),
            (2, 0x0409),
            (5, 0x0409),
            (0xee, 0),
        ]
    );
    assert_eq!(personality.strings[3].descriptor, string("5/1031"));
}

#[test]
fn discovers_capabilities_for_windows_and_browsers() {
    let personality = complete().discover().unwrap();
    let microsoft = personality.microsoft_os_1.unwrap();
    assert_eq!(microsoft.vendor_code, 0x21);
    assert_eq!(microsoft.compatible_ids.len(), 1);
    assert_eq!(microsoft.compatible_ids[0].interface, 0);
    assert_eq!(microsoft.compatible_ids[0].compatible_id, "WINUSB");
    assert_eq!(microsoft.compatible_ids[0].sub_compatible_id, "");
    assert_eq!(microsoft.registry_properties.len(), 1);
    assert_eq!(microsoft.registry_properties[0].name, "Name");
    assert_eq!(microsoft.registry_properties[0].data_type, 7);
    assert_eq!(microsoft.registry_properties[0].data, utf16("{guid}\0"));
    let webusb = personality.webusb.unwrap();
    assert_eq!(webusb.version, 0x0100);
    assert_eq!(webusb.vendor_code, 0x22);
    assert_eq!(webusb.landing_page, "https://example.org");
}

#[test]
fn passes_over_other_capabilities() {
    let mut firmware = complete();
    let webusb = bos(1);
    firmware.bos = Some([vec![5, 15, 39, 0, 3, 7, 16, 2, 2, 0, 0, 0], webusb[5..].to_vec(), vec![3, 16, 1]].concat());
    let personality = firmware.discover().unwrap();
    let webusb = personality.webusb.unwrap();
    assert_eq!(webusb.vendor_code, 0x22);
    assert_eq!(webusb.landing_page, "https://example.org");

    firmware.bos = Some(vec![5, 15, 12, 0, 1, 7, 16, 2, 2, 0, 0, 0]);
    assert!(firmware.discover().unwrap().webusb.is_none());
}

#[test]
fn discovers_properties_by_ascending_interface() {
    let mut firmware = complete();
    firmware.configuration = vec![
        9, 2, 27, 0, 2, 1, 0, 0x80, 25, 9, 4, 1, 0, 0, 3, 0, 0, 0, 9, 4, 0, 0, 0, 3, 0, 0, 0,
    ];
    let personality = discover(UsbSpeed::HighSpeed, |setup: SetupPacket, _: &[u8]| {
        if setup.request_type == 0xc1 {
            return Ok::<_, ()>(Some(properties()));
        }
        Ok(firmware.answer(setup))
    })
    .unwrap();
    let properties = personality.microsoft_os_1.unwrap().registry_properties;
    assert_eq!(properties.len(), 2);
    assert_eq!(properties[0].interface, 0);
    assert_eq!(properties[1].interface, 1);
    assert_eq!(properties[1].name, "Name");
}

#[test]
fn does_without_what_firmware_stalls() {
    let mut firmware = complete();
    firmware.compatible_ids = None;
    firmware.properties = None;
    firmware.bos = None;
    let personality = firmware.discover().unwrap();
    let microsoft = personality.microsoft_os_1.unwrap();
    assert!(microsoft.compatible_ids.is_empty());
    assert!(microsoft.registry_properties.is_empty());
    assert!(personality.webusb.is_none());

    let mut firmware = complete();
    firmware.os_string = None;
    firmware.bos = Some(bos(0));
    let personality = firmware.discover().unwrap();
    assert!(personality.microsoft_os_1.is_none());
    assert_eq!(personality.webusb.unwrap().landing_page, "");
}

#[test]
fn hands_on_the_failure_of_a_transfer() {
    let outcome = discover(UsbSpeed::FullSpeed, |_: SetupPacket, _: &[u8]| Err::<Option<Vec<u8>>, _>(17));
    match outcome {
        Err(DiscoveryError::Transfer(code)) => assert_eq!(code, 17),
        other => panic!("unexpected outcome {other:?}"),
    }
}

#[test]
fn refuses_malformed_standard_descriptors() {
    let mut firmware = complete();
    firmware.device.pop();
    assert_eq!(firmware.fault(), DiscoveryFault::InvalidDevice);
    let mut firmware = complete();
    firmware.device[17] = 2;
    assert_eq!(firmware.fault(), DiscoveryFault::ConfigurationCount);
    let mut firmware = complete();
    firmware.languages = None;
    assert_eq!(firmware.fault(), DiscoveryFault::Stalled);
    let mut firmware = complete();
    firmware.languages = Some(vec![3, 3, 9]);
    assert_eq!(firmware.fault(), DiscoveryFault::InvalidLanguages);
    let mut firmware = complete();
    firmware.configuration[1] = 7;
    assert_eq!(firmware.fault(), DiscoveryFault::InvalidConfigurationHeader);
    let mut firmware = complete();
    firmware.configuration[2] = 8;
    assert_eq!(firmware.fault(), DiscoveryFault::InvalidConfigurationLength);
    let mut firmware = complete();
    firmware.configuration[2] = 26;
    assert_eq!(firmware.fault(), DiscoveryFault::TruncatedConfiguration);
    let mut firmware = complete();
    firmware.configuration[9] = 15;
    assert_eq!(firmware.fault(), DiscoveryFault::TruncatedDescriptor);
    let mut firmware = complete();
    firmware.configuration[9] = 1;
    assert_eq!(firmware.fault(), DiscoveryFault::MalformedDescriptor);
    let mut firmware = complete();
    firmware.configuration[9] = 8;
    assert_eq!(firmware.fault(), DiscoveryFault::ShortInterface);
}

#[test]
fn refuses_a_configuration_whose_frame_changes() {
    let firmware = complete();
    let mut asked = 0;
    let outcome = discover(UsbSpeed::FullSpeed, |setup: SetupPacket, _: &[u8]| {
        let mut reply = firmware.answer(setup);
        if setup.value == 0x0200 {
            asked += 1;
            if asked == 2 {
                if let Some(bytes) = &mut reply {
                    bytes[1] = 4;
                }
            }
        }
        if setup.request == 9 {
            reply = Some(Vec::new());
        }
        Ok::<_, ()>(reply)
    });
    match outcome {
        Err(DiscoveryError::Fault(fault)) => assert_eq!(
            fault,
            DiscoveryFault::Personality(PersonalityError::InvalidConfiguration)
        ),
        other => panic!("unexpected outcome {other:?}"),
    }
}

#[test]
fn refuses_malformed_microsoft_descriptors() {
    let spoil = |change: &dyn Fn(&mut Firmware)| {
        let mut firmware = complete();
        change(&mut firmware);
        firmware.fault()
    };
    assert_eq!(
        spoil(&|firmware| firmware.os_string = Some(vec![4, 3, 1, 0])),
        DiscoveryFault::InvalidOsString
    );
    assert_eq!(
        spoil(&|firmware| firmware.os_string.as_mut().unwrap()[2] = b'N'),
        DiscoveryFault::UnsupportedOsString
    );
    assert_eq!(
        spoil(&|firmware| firmware.os_string.as_mut().unwrap()[16] = 0),
        DiscoveryFault::UnsupportedOsString
    );
    assert_eq!(
        spoil(&|firmware| firmware.compatible_ids.as_mut().unwrap()[0] = 41),
        DiscoveryFault::InvalidCompatibleIds
    );
    assert_eq!(
        spoil(&|firmware| firmware.compatible_ids.as_mut().unwrap()[8] = 2),
        DiscoveryFault::TruncatedCompatibleIds
    );
    assert_eq!(
        spoil(&|firmware| firmware.compatible_ids.as_mut().unwrap()[16] = 3),
        DiscoveryFault::UnknownInterface
    );
    assert_eq!(
        spoil(&|firmware| firmware.compatible_ids.as_mut().unwrap()[18] = 0x80),
        DiscoveryFault::CompatibleIdText
    );
    assert_eq!(
        spoil(&|firmware| firmware.properties.as_mut().unwrap()[0] = 200),
        DiscoveryFault::InvalidProperties
    );
    assert_eq!(
        spoil(&|firmware| firmware.properties.as_mut().unwrap()[8] = 2),
        DiscoveryFault::TruncatedProperty
    );
    assert_eq!(
        spoil(&|firmware| firmware.properties.as_mut().unwrap()[10] = 13),
        DiscoveryFault::InvalidProperty
    );
    assert_eq!(
        spoil(&|firmware| firmware.properties.as_mut().unwrap()[30] = 200),
        DiscoveryFault::TruncatedPropertyValue
    );
    assert_eq!(
        spoil(&|firmware| {
            let bytes = firmware.properties.as_mut().unwrap();
            bytes[20..22].copy_from_slice(&0xd800_u16.to_le_bytes());
        }),
        DiscoveryFault::PropertyNameEncoding
    );
    assert_eq!(
        spoil(&|firmware| {
            let bytes = firmware.properties.as_mut().unwrap();
            bytes[18] = 11;
            bytes[31..35].copy_from_slice(&0_u32.to_le_bytes());
        }),
        DiscoveryFault::OddPropertyName
    );
}

#[test]
fn refuses_malformed_webusb_descriptors() {
    let spoil = |change: &dyn Fn(&mut Firmware)| {
        let mut firmware = complete();
        change(&mut firmware);
        firmware.fault()
    };
    assert_eq!(
        spoil(&|firmware| firmware.bos.as_mut().unwrap()[1] = 3),
        DiscoveryFault::InvalidBosHeader
    );
    assert_eq!(
        spoil(&|firmware| firmware.bos.as_mut().unwrap()[2] = 30),
        DiscoveryFault::TruncatedBos
    );
    assert_eq!(
        spoil(&|firmware| firmware.bos.as_mut().unwrap()[5] = 2),
        DiscoveryFault::MalformedCapability
    );
    assert_eq!(
        spoil(&|firmware| firmware.accepts_configuration = false),
        DiscoveryFault::ConfigurationRejected
    );
    assert_eq!(
        spoil(&|firmware| firmware.url = None),
        DiscoveryFault::StalledUrl
    );
    assert_eq!(
        spoil(&|firmware| firmware.url = Some(vec![2, 3, 1])),
        DiscoveryFault::InvalidUrl
    );
    assert_eq!(
        spoil(&|firmware| firmware.url = Some(vec![3, 3, 2])),
        DiscoveryFault::UrlScheme
    );
    assert_eq!(
        spoil(&|firmware| firmware.url = Some(vec![4, 3, 0, 0xff])),
        DiscoveryFault::UrlEncoding
    );
    let mut firmware = complete();
    firmware.url = Some(vec![4, 3, 255, b'x']);
    assert_eq!(firmware.discover().unwrap().webusb.unwrap().landing_page, "x");
    firmware.url = Some(vec![4, 3, 0, b'x']);
    assert_eq!(
        firmware.discover().unwrap().webusb.unwrap().landing_page,
        "http://x"
    );
}

#[test]
fn a_stalled_text_ends_a_conversation() {
    let mut conversation = Discovery::new(UsbSpeed::FullSpeed);
    let firmware = complete();
    loop {
        let packet = conversation.request().unwrap();
        if packet.value == 0x0301 {
            assert_eq!(packet.index, 0x0407);
            assert_eq!(packet.length, 255);
            conversation.accept(None);
            break;
        }
        conversation.accept(firmware.answer(packet));
    }
    assert!(conversation.request().is_none());
    assert_eq!(
        conversation.conclude().unwrap_err(),
        DiscoveryFault::Stalled
    );
    let mut conversation = Discovery::new(UsbSpeed::FullSpeed);
    while let Some(packet) = conversation.request() {
        let text = packet.value == 0x0302;
        conversation.accept(if text {
            Some(vec![2, 4])
        } else {
            firmware.answer(packet)
        });
    }
    assert_eq!(
        conversation.conclude().unwrap_err(),
        DiscoveryFault::InvalidString
    );
}

#[test]
fn encodes_setup_packets() {
    let packet = SetupPacket {
        request_type: 0x80,
        request: 6,
        value: 0x0302,
        index: 0x0409,
        length: 0x00ff,
    };
    assert_eq!(packet.encode(), [0x80, 6, 2, 3, 9, 4, 0xff, 0]);
    assert_eq!(
        Discovery::new(UsbSpeed::LowSpeed).request().unwrap().value,
        u16::from(USB_DT_DEVICE) << 8
    );
    assert_eq!(USB_DT_BOS, 15);
}

#[test]
fn discovery_reads_back_a_firmware() {
    let mut firmware = complete();
    firmware.os_string = None;
    firmware.bos = None;
    let personality = firmware.discover().unwrap();
    assert_eq!(personality.device_descriptor, firmware.device);
    assert_eq!(personality.configuration_descriptor, firmware.configuration);
    assert_eq!(personality.strings.len(), 7);
    assert_eq!(
        Some(&personality.strings[0].descriptor),
        firmware.languages.as_ref()
    );
    for text in &personality.strings[1..] {
        let packet = SetupPacket {
            request_type: 0x80,
            request: 6,
            value: 0x0300 | u16::from(text.index),
            index: text.language_id,
            length: 255,
        };
        assert_eq!(firmware.answer(packet).as_ref(), Some(&text.descriptor));
    }
}
