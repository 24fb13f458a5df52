use usb_gadget_supervisor::protocol::{
    decode, encode, parse_header, rights_count, sent_whole, Kind, ProtocolError, Record,
    MAX_BODY_LENGTH,
};

fn packet() -> Vec<u8> {
    encode(&Record::new(Kind::UsbEndpoints, 7, 41, vec![1, 2, 3]), 1).unwrap()
}

#[test]
fn round_trip_preserves_record_and_descriptor() {
    let actual = decode(&packet(), false, vec![9]).unwrap();
    assert_eq!(
        (actual.kind, actual.generation, actual.request_id),
        (Kind::UsbEndpoints, 7, 41)
    );
    assert_eq!(actual.body, [1, 2, 3]);
    assert_eq!(actual.descriptors, [9]);
}

#[test]
fn packets_have_a_fixed_layout() {
    assert_eq!(
        packet(),
        [
            b'U', b'G', b'S', b'P', 1, 2, 0, 1, 0, 0, 0, 7, 0, 0, 0, 41, 0, 0, 0, 3, 1, 2, 3
        ]
    );
}

#[test]
fn kinds_have_fixed_bytes() {
    let kinds = [
        (0x01, Kind::InitialResources),
        (0x02, Kind::UsbEndpoints),
        (0x03, Kind::UsbBusEvent),
        (0x04, Kind::UsbControlRequest),
        (0x11, Kind::Quiesce),
        (0x12, Kind::ConfigurationRejected),
        (0x80, Kind::Configure),
        (0x81, Kind::UsbControlResponse),
        (0x82, Kind::Serving),
        (0x84, Kind::Quiesced),
    ];
    for (byte, kind) in kinds {
        assert_eq!(Kind::from_byte(byte), Ok(kind));
        assert_eq!(kind.to_byte(), byte);
    }
    assert_eq!(Kind::from_byte(0x83), Err(ProtocolError::UnknownKind(0x83)));
}

#[test]
fn refuses_malformed_packets() {
    let with = |at: usize, value: u8| {
        let mut bytes = packet();
        bytes[at] = value;
        decode(&bytes, false, vec![9]).unwrap_err()
    };
    assert_eq!(decode(&[], false, vec![]).unwrap_err(), ProtocolError::Closed);
    assert_eq!(decode(&packet(), true, vec![9]).unwrap_err(), ProtocolError::Truncated);
    assert_eq!(
        decode(&packet()[..19], false, vec![9]).unwrap_err(),
        ProtocolError::Truncated
    );
    assert_eq!(with(0, b'X'), ProtocolError::Header);
    assert_eq!(with(4, 2), ProtocolError::Header);
    assert_eq!(with(5, 0x55), ProtocolError::UnknownKind(0x55));
    assert_eq!(with(19, 4), ProtocolError::BodyLength);
    assert_eq!(with(16, 1), ProtocolError::BodyLength);
    assert_eq!(with(7, 2), ProtocolError::DescriptorCount(2, 1));
    assert_eq!(parse_header(&packet(), false).unwrap().descriptor_count, 1);
}

#[test]
fn refuses_records_that_do_not_fit() {
    let record = Record::new(Kind::Configure, 0, 1, vec![0; MAX_BODY_LENGTH + 1]);
    assert_eq!(encode(&record, 0).unwrap_err(), ProtocolError::BodyTooLarge);
    let record = Record::new(Kind::Configure, 0, 1, vec![0; MAX_BODY_LENGTH]);
    assert_eq!(encode(&record, 0).unwrap().len(), MAX_BODY_LENGTH + 20);
    assert_eq!(encode(&record, 65536).unwrap_err(), ProtocolError::TooManyDescriptors);
    assert_eq!(sent_whole(19, 20), Err(ProtocolError::NotAtomic));
    assert_eq!(sent_whole(20, 20), Ok(()));
}

#[test]
fn counts_passed_descriptors() {
    assert_eq!(rights_count(false, 20, 16), Err(ProtocolError::Ancillary));
    assert_eq!(rights_count(true, 15, 16), Err(ProtocolError::Rights));
    assert_eq!(rights_count(true, 18, 16), Err(ProtocolError::Rights));
    assert_eq!(rights_count(true, 24, 16), Ok(2));
}
