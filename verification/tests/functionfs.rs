use usb_gadget_supervisor::functionfs::{
    inspect, Direction, Endpoint, FunctionFsError, Inspection, DESCRIPTORS_MAGIC_V2, HAS_FS_DESC,
    HAS_HS_DESC, HAS_MS_OS_DESC,
};

fn strings() -> Vec<u8> {
    [2_u32, 16, 0, 0]
        .into_iter()
        .flat_map(u32::to_le_bytes)
        .collect()
}

fn descriptors(second_address: u8) -> Vec<u8> {
    let set = |interval| {
        vec![
            9,
            4,
            0,
            0,
            2,
            0xff,
            0,
            0,
            0,
            7,
            5,
            0x01,
            2,
            64,
            0,
            0,
            7,
            5,
            second_address,
            3,
            8,
            0,
            interval,
        ]
    };
    let fs = set(10);
    let hs = set(4);
    let length = 20 + fs.len() + hs.len();
    let mut bytes = Vec::new();
    bytes.extend_from_slice(&DESCRIPTORS_MAGIC_V2.to_le_bytes());
    bytes.extend_from_slice(&(length as u32).to_le_bytes());
    bytes.extend_from_slice(&(HAS_FS_DESC | HAS_HS_DESC).to_le_bytes());
    bytes.extend_from_slice(&3_u32.to_le_bytes());
    bytes.extend_from_slice(&3_u32.to_le_bytes());
    bytes.extend_from_slice(&fs);
    bytes.extend_from_slice(&hs);
    bytes
}

fn set_length(bytes: &mut Vec<u8>) {
    let length = bytes.len() as u32;
    bytes[4..8].copy_from_slice(&length.to_le_bytes());
}

fn descriptors_with_winusb() -> Vec<u8> {
    let mut bytes = descriptors(0x82);
    bytes[8..12].copy_from_slice(&(HAS_FS_DESC | HAS_HS_DESC | HAS_MS_OS_DESC).to_le_bytes());
    bytes.splice(20..20, 1_u32.to_le_bytes());
    bytes.extend_from_slice(&[
        0x00, 0x23, 0x00, 0x00, 0x00, 0x00, 0x01, 0x04, 0x00, 0x01, 0x00, 0x00, 0x01, b'W', b'I',
        b'N', b'U', b'S', b'B', 0x00, 0x00, 0x00, 0x00, 0x00, 0x00, 0x00, 0x00, 0x00, 0x00, 0x00,
        0x00, 0x00, 0x00, 0x00, 0x00,
    ]);
    set_length(&mut bytes);
    bytes
}

fn property() -> Vec<u8> {
    // One property with the name "A" and two data bytes.
    let mut bytes = vec![18, 0, 0, 0, 1, 0, 0, 0, 2, 0];
    bytes.extend_from_slice(b"A\0");
    bytes.extend_from_slice(&2_u32.to_le_bytes());
    bytes.extend_from_slice(&[7, 8]);
    bytes
}

fn descriptors_with_properties(property: &[u8]) -> Vec<u8> {
    let mut bytes = descriptors(0x82);
    bytes[8..12].copy_from_slice(&(HAS_FS_DESC | HAS_HS_DESC | HAS_MS_OS_DESC).to_le_bytes());
    bytes.splice(20..20, 1_u32.to_le_bytes());
    bytes.push(0);
    bytes.extend_from_slice(&((11 + property.len()) as u32).to_le_bytes());
    bytes.extend_from_slice(&[0x00, 0x01, 5, 0, 1, 0]);
    bytes.extend_from_slice(property);
    set_length(&mut bytes);
    bytes
}

fn refused(bytes: &[u8]) -> FunctionFsError {
    inspect(bytes, &strings()).unwrap_err()
}

#[test]
fn derives_endpoint_order_and_direction() {
    assert_eq!(
        inspect(&descriptors(0x82), &strings()).unwrap(),
        Inspection {
            endpoints: vec![
                Endpoint {
                    direction: Direction::Out,
                    transfer_type: 2,
                },
                Endpoint {
                    direction: Direction::In,
                    transfer_type: 3,
                }
            ],
            has_ms_os_descriptors: false,
        }
    );
}

#[test]
fn accepts_winusb_compatible_id_for_a_declared_interface() {
    let inspection = inspect(&descriptors_with_winusb(), &strings()).unwrap();
    assert!(inspection.has_ms_os_descriptors);
    assert_eq!(inspection.endpoints.len(), 2);
}

#[test]
fn rejects_winusb_compatible_id_for_a_missing_interface() {
    let mut descriptors = descriptors_with_winusb();
    let feature_interface = descriptors.len() - 24;
    descriptors[feature_interface] = 1;
    assert!(inspect(&descriptors, &strings()).is_err());
}

#[test]
fn rejects_mismatched_speed_topology_and_trailing_strings() {
    let mut invalid_descriptors = descriptors(0x82);
    let hs_address = 20 + 23 + 9 + 7 + 2;
    invalid_descriptors[hs_address] = 0x02;
    assert!(inspect(&invalid_descriptors, &strings()).is_err());

    let mut invalid_strings = strings();
    invalid_strings.push(0);
    assert!(inspect(&descriptors(0x82), &invalid_strings).is_err());
}

#[test]
fn refuses_malformed_headers() {
    assert_eq!(refused(&[0; 11]), FunctionFsError::ShortDescriptorBlob);
    let mut bytes = descriptors(0x82);
    bytes[0] = 1;
    assert_eq!(refused(&bytes), FunctionFsError::DescriptorFormat);
    let mut bytes = descriptors(0x82);
    bytes.push(0);
    assert_eq!(refused(&bytes), FunctionFsError::DescriptorBlobLength);
    set_length(&mut bytes);
    assert_eq!(refused(&bytes), FunctionFsError::DescriptorsTrailing);
    let mut bytes = descriptors(0x82);
    bytes[8] = 0x13;
    assert_eq!(refused(&bytes), FunctionFsError::DescriptorFlags(0x13));
    bytes[8] = 0;
    assert_eq!(refused(&bytes), FunctionFsError::DescriptorFlags(0));
    assert_eq!(
        refused(&[3, 0, 0, 0, 12, 0, 0, 0, 1, 0, 0, 0]),
        FunctionFsError::TruncatedWord
    );
}

#[test]
fn takes_the_flags_of_early_and_complete_control_requests() {
    let mut bytes = descriptors(0x82);
    bytes[8] |= 64 | 128;
    assert_eq!(inspect(&bytes, &strings()).unwrap().endpoints.len(), 2);
}

#[test]
fn refuses_malformed_descriptors() {
    let mut bytes = descriptors(0x82);
    bytes[16] = 4;
    assert_eq!(refused(&bytes), FunctionFsError::TruncatedDescriptor);
    let mut bytes = descriptors(0x82);
    bytes[20] = 1;
    assert_eq!(refused(&bytes), FunctionFsError::DescriptorLength);
    let mut bytes = descriptors(0x82);
    bytes[20] = 200;
    assert_eq!(refused(&bytes), FunctionFsError::DescriptorOverrun);
    let mut bytes = descriptors(0x82);
    bytes[20] = 8;
    assert_eq!(refused(&bytes), FunctionFsError::ShortInterface);
    let mut bytes = descriptors(0x82);
    bytes[29] = 6;
    assert_eq!(refused(&bytes), FunctionFsError::ShortEndpoint);
    assert_eq!(refused(&descriptors(0x80)), FunctionFsError::ReservedEndpoint);
    assert_eq!(
        refused(&descriptors(0x01)),
        FunctionFsError::DuplicateEndpoint(0x01)
    );
    let mut bytes = descriptors(0x82);
    bytes[20 + 23 + 9 + 7 + 2] = 0x02;
    assert_eq!(
        refused(&bytes),
        FunctionFsError::EndpointTopology(HAS_HS_DESC)
    );
    let mut bytes = descriptors(0x82);
    bytes[20 + 23 + 2] = 1;
    assert_eq!(
        refused(&bytes),
        FunctionFsError::InterfaceTopology(HAS_HS_DESC)
    );
}

#[test]
fn refuses_malformed_compatible_ids() {
    let start = 24 + 46;
    let with = |at: usize, value: u8| {
        let mut bytes = descriptors_with_winusb();
        bytes[at] = value;
        refused(&bytes)
    };
    assert_eq!(with(20, 0), FunctionFsError::NoOsDescriptors);
    assert_eq!(with(20, 2), FunctionFsError::TruncatedOsHeader);
    assert_eq!(with(start, 9), FunctionFsError::OsInterface(9));
    assert_eq!(with(start + 1, 10), FunctionFsError::OsLength);
    assert_eq!(with(start + 1, 200), FunctionFsError::OsOverrun);
    assert_eq!(with(start + 5, 1), FunctionFsError::OsVersion);
    assert_eq!(with(start + 7, 6), FunctionFsError::OsIndex(6));
    assert_eq!(with(start + 9, 2), FunctionFsError::CompatibleIdCount);
    assert_eq!(with(start + 11, 5), FunctionFsError::CompatibleIdInterface(5));
    assert_eq!(with(start + 12, 0), FunctionFsError::CompatibleIdFeature);
    assert_eq!(with(start + 13, b' '), FunctionFsError::CompatibleIdBytes);
    assert_eq!(with(start + 34, 1), FunctionFsError::CompatibleIdBytes);
}

#[test]
fn takes_and_refuses_extended_properties() {
    let bytes = descriptors_with_properties(&property());
    assert!(inspect(&bytes, &strings()).unwrap().has_ms_os_descriptors);
    let with = |at: usize, value: u8| {
        let mut changed = property();
        changed[at] = value;
        refused(&descriptors_with_properties(&changed))
    };
    assert_eq!(with(0, 13), FunctionFsError::PropertySize);
    assert_eq!(with(0, 19), FunctionFsError::PropertySize);
    assert_eq!(with(4, 8), FunctionFsError::PropertyType(8));
    assert_eq!(with(4, 0), FunctionFsError::PropertyType(0));
    assert_eq!(with(8, 9), FunctionFsError::PropertyNameOverrun);
    assert_eq!(with(8, 0), FunctionFsError::PropertyName);
    assert_eq!(with(10, 0xff), FunctionFsError::PropertyName);
    assert_eq!(with(12, 1), FunctionFsError::PropertyData);
    assert_eq!(
        refused(&descriptors_with_properties(&[])),
        FunctionFsError::TruncatedWord
    );
    let mut none = descriptors_with_properties(&property());
    let count = none.len() - 18 - 2;
    none[count] = 0;
    assert_eq!(refused(&none), FunctionFsError::NoProperties);
    let mut trailing = property();
    trailing.push(0);
    assert_eq!(
        refused(&descriptors_with_properties(&trailing)),
        FunctionFsError::PropertiesTrailing
    );
}

#[test]
fn takes_and_refuses_string_tables() {
    let table = |count: u32, languages: u32, body: &[u8]| {
        let mut bytes: Vec<u8> = [2, (16 + body.len()) as u32, count, languages]
            .into_iter()
            .flat_map(u32::to_le_bytes)
            .collect();
        bytes.extend_from_slice(body);
        inspect(&descriptors(0x82), &bytes).map(|_| ())
    };
    assert_eq!(table(2, 1, b"\x09\x04ab\0\xc3\xa4\0"), Ok(()));
    assert_eq!(
        table(1, 1, b"\x09"),
        Err(FunctionFsError::TruncatedLanguage)
    );
    assert_eq!(
        table(2, 1, b"\x09\x04ab\0"),
        Err(FunctionFsError::UnterminatedString)
    );
    assert_eq!(
        table(1, 1, b"\x09\x04\xff\0"),
        Err(FunctionFsError::StringEncoding)
    );
    assert_eq!(
        table(1, 1, b"\x09\x04a\0b\0"),
        Err(FunctionFsError::StringsTrailing)
    );
    let judge = |bytes: &[u8]| inspect(&descriptors(0x82), bytes).unwrap_err();
    assert_eq!(judge(&[0; 15]), FunctionFsError::ShortStringBlob);
    assert_eq!(judge(&[0; 16]), FunctionFsError::StringMagic);
    let mut long = strings();
    long.push(0);
    assert_eq!(judge(&long), FunctionFsError::StringBlobLength);
}
