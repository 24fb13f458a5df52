//! Records of the channel between the supervisor and its worker.

use crate::bytes::{
    be16, be16_at, be32, be32_at, be_u16, be_u32, lemma_be16_round_trip, lemma_be32_round_trip,
    push_be16, push_be32, push_bytes,
};
use vstd::prelude::*;
use vstd::slice::{slice_subrange, slice_to_vec};

verus! {

/// The descriptor under which a worker finds its end of the channel.
pub const CONTROL_FD: i32 = 3;

/// The version of the record layout.
pub const VERSION: u8 = 1;

/// The length of a record's header.
pub const HEADER_LENGTH: usize = 20;

/// The most bytes that a record's body may have.
pub const MAX_BODY_LENGTH: usize = 1048576;

/// The most descriptors that one packet is received with.
pub const MAX_DESCRIPTORS: usize = 256;

/// What a record is about.
#[derive(Clone, Copy, Debug, Eq, PartialEq, Structural)]
pub enum Kind {
    InitialResources,
    UsbEndpoints,
    UsbBusEvent,
    UsbControlRequest,
    Quiesce,
    ConfigurationRejected,
    Configure,
    UsbControlResponse,
    Serving,
    Quiesced,
}

/// Why a record cannot be sent or was not understood.
#[derive(Clone, Copy, Debug, Eq, PartialEq, Structural)]
pub enum ProtocolError {
    BodyTooLarge,
    TooManyDescriptors,
    NotAtomic,
    Closed,
    Truncated,
    Header,
    UnknownKind(u8),
    BodyLength,
    Ancillary,
    Rights,
    DescriptorCount(u16, usize),
}

impl Kind {
    /// The byte that stands for a kind.
    pub open spec fn byte(self) -> u8 {
        match self {
            Kind::InitialResources => 0x01,
            Kind::UsbEndpoints => 0x02,
            Kind::UsbBusEvent => 0x03,
            Kind::UsbControlRequest => 0x04,
            Kind::Quiesce => 0x11,
            Kind::ConfigurationRejected => 0x12,
            Kind::Configure => 0x80,
            Kind::UsbControlResponse => 0x81,
            Kind::Serving => 0x82,
            Kind::Quiesced => 0x84,
        }
    }

    /// The byte that stands for this kind.
    pub fn to_byte(self) -> (byte: u8)
        ensures
            byte == self.byte(),
    {
        match self {
            Kind::InitialResources => 0x01,
            Kind::UsbEndpoints => 0x02,
            Kind::UsbBusEvent => 0x03,
            Kind::UsbControlRequest => 0x04,
            Kind::Quiesce => 0x11,
            Kind::ConfigurationRejected => 0x12,
            Kind::Configure => 0x80,
            Kind::UsbControlResponse => 0x81,
            Kind::Serving => 0x82,
            Kind::Quiesced => 0x84,
        }
    }

    /// The kind that a byte stands for.
    pub fn from_byte(value: u8) -> (outcome: Result<Kind, ProtocolError>)
        ensures
            match outcome {
                Ok(kind) => kind.byte() == value,
                Err(error) => error == ProtocolError::UnknownKind(value) && forall|kind: Kind|
                    #[trigger] kind.byte() != value,
            },
    {
        match value {
            0x01 => Ok(Kind::InitialResources),
            0x02 => Ok(Kind::UsbEndpoints),
            0x03 => Ok(Kind::UsbBusEvent),
            0x04 => Ok(Kind::UsbControlRequest),
            0x11 => Ok(Kind::Quiesce),
            0x12 => Ok(Kind::ConfigurationRejected),
            0x80 => Ok(Kind::Configure),
            0x81 => Ok(Kind::UsbControlResponse),
            0x82 => Ok(Kind::Serving),
            0x84 => Ok(Kind::Quiesced),
            _ => Err(ProtocolError::UnknownKind(value)),
        }
    }
}

/// No two kinds share a byte.
pub proof fn lemma_kinds_differ(a: Kind, b: Kind)
    ensures
        a.byte() == b.byte() ==> a == b,
{
}

/// A message with the numbers of the descriptors that came with it.
#[derive(Debug)]
pub struct Record {
    pub kind: Kind,
    pub generation: u32,
    pub request_id: u32,
    pub body: Vec<u8>,
    pub descriptors: Vec<i32>,
}

/// The contents of a [`Record`].
#[verifier::ext_equal]
pub struct RecordModel {
    pub kind: Kind,
    pub generation: u32,
    pub request_id: u32,
    pub body: Seq<u8>,
    pub descriptors: Seq<i32>,
}

impl View for Record {
    type V = RecordModel;

    open spec fn view(&self) -> RecordModel {
        RecordModel {
            kind: self.kind,
            generation: self.generation,
            request_id: self.request_id,
            body: self.body@,
            descriptors: self.descriptors@,
        }
    }
}

impl Record {
    /// A record without descriptors.
    pub fn new(kind: Kind, generation: u32, request_id: u32, body: Vec<u8>) -> (made: Self)
        ensures
            made@ == (RecordModel {
                kind,
                generation,
                request_id,
                body: body@,
                descriptors: seq![],
            }),
    {
        let made = Record { kind, generation, request_id, body, descriptors: Vec::new() };
        assert(made.descriptors@ =~= seq![]);
        made
    }
}

/// The header's first four bytes.
pub open spec fn magic() -> Seq<u8> {
    seq![0x55u8, 0x47, 0x53, 0x50]
}

/// The packet of a record that is sent with `descriptor_count` descriptors.
pub open spec fn packet_of(record: RecordModel, descriptor_count: u16) -> Seq<u8> {
    magic() + seq![VERSION, record.kind.byte()] + be16(descriptor_count) + be32(record.generation)
        + be32(record.request_id) + be32(record.body.len() as u32) + record.body
}

/// Writes the packet of a record that is sent with `descriptor_count` descriptors.
pub fn encode(record: &Record, descriptor_count: usize) -> (outcome: Result<Vec<u8>, ProtocolError>)
    ensures
        match outcome {
            Ok(packet) => {
                &&& record@.body.len() <= MAX_BODY_LENGTH
                &&& descriptor_count <= u16::MAX
                &&& packet@ == packet_of(record@, descriptor_count as u16)
            },
            Err(error) => error == if record@.body.len() > MAX_BODY_LENGTH {
                ProtocolError::BodyTooLarge
            } else {
                ProtocolError::TooManyDescriptors
            } && (record@.body.len() > MAX_BODY_LENGTH || descriptor_count > u16::MAX),
        },
{
    if record.body.len() > MAX_BODY_LENGTH {
        return Err(ProtocolError::BodyTooLarge);
    }
    if descriptor_count > u16::MAX as usize {
        return Err(ProtocolError::TooManyDescriptors);
    }
    let mut packet: Vec<u8> = Vec::new();
    push_bytes(&mut packet, &[0x55, 0x47, 0x53, 0x50]);
    packet.push(VERSION);
    packet.push(record.kind.to_byte());
    push_be16(&mut packet, descriptor_count as u16);
    push_be32(&mut packet, record.generation);
    push_be32(&mut packet, record.request_id);
    push_be32(&mut packet, record.body.len() as u32);
    push_bytes(&mut packet, record.body.as_slice());
    assert(packet@ =~= packet_of(record@, descriptor_count as u16));
    Ok(packet)
}

/// Accepts a send only where the whole packet went out at once.
pub fn sent_whole(sent: usize, packet_length: usize) -> (outcome: Result<(), ProtocolError>)
    ensures
        outcome == if sent == packet_length {
            Ok::<(), ProtocolError>(())
        } else {
            Err(ProtocolError::NotAtomic)
        },
{
    if sent != packet_length {
        return Err(ProtocolError::NotAtomic);
    }
    Ok(())
}

/// What a packet's header says.
#[derive(Clone, Copy, Debug, Eq, PartialEq, Structural)]
pub struct Header {
    pub kind: Kind,
    pub descriptor_count: u16,
    pub generation: u32,
    pub request_id: u32,
}

/// The kind that a byte stands for, if it stands for one.
pub open spec fn kind_of(byte: u8) -> Option<Kind> {
    if exists|kind: Kind| #[trigger] kind.byte() == byte {
        Some(choose|kind: Kind| #[trigger] kind.byte() == byte)
    } else {
        None
    }
}

/// The header of a packet, or why the packet is refused; `truncated` says that the packet or
/// the descriptors with it did not fit where they were received.
pub open spec fn header_of(packet: Seq<u8>, truncated: bool) -> Result<Header, ProtocolError> {
    if packet.len() == 0 {
        Err(ProtocolError::Closed)
    } else if truncated || packet.len() < HEADER_LENGTH {
        Err(ProtocolError::Truncated)
    } else if packet.take(4) != magic() || packet[4] != VERSION {
        Err(ProtocolError::Header)
    } else {
        match kind_of(packet[5]) {
            None => Err(ProtocolError::UnknownKind(packet[5])),
            Some(kind) => {
                let body_length = be32_at(packet, 16);
                if body_length > MAX_BODY_LENGTH || packet.len() != HEADER_LENGTH + body_length {
                    Err(ProtocolError::BodyLength)
                } else {
                    Ok(
                        Header {
                            kind,
                            descriptor_count: be16_at(packet, 6),
                            generation: be32_at(packet, 8),
                            request_id: be32_at(packet, 12),
                        },
                    )
                }
            },
        }
    }
}

/// The record in a packet that came with `descriptors`, or why the packet is refused.
pub open spec fn record_of(packet: Seq<u8>, truncated: bool, descriptors: Seq<i32>) -> Result<
    RecordModel,
    ProtocolError,
> {
    match header_of(packet, truncated) {
        Err(error) => Err(error),
        Ok(header) => if descriptors.len() != header.descriptor_count {
            Err(
                ProtocolError::DescriptorCount(
                    header.descriptor_count,
                    descriptors.len() as usize,
                ),
            )
        } else {
            Ok(
                RecordModel {
                    kind: header.kind,
                    generation: header.generation,
                    request_id: header.request_id,
                    body: packet.skip(HEADER_LENGTH as int),
                    descriptors,
                },
            )
        },
    }
}

/// Reads the header of a received packet and checks the packet against it.
pub fn parse_header(packet: &[u8], truncated: bool) -> (outcome: Result<Header, ProtocolError>)
    ensures
        outcome == header_of(packet@, truncated),
{
    if packet.len() == 0 {
        return Err(ProtocolError::Closed);
    }
    if truncated || packet.len() < HEADER_LENGTH {
        return Err(ProtocolError::Truncated);
    }
    let framed = packet[0] == 0x55 && packet[1] == 0x47 && packet[2] == 0x53 && packet[3] == 0x50;
    proof {
        let head = packet@.take(4);
        assert(head[0] == packet@[0] && head[1] == packet@[1] && head[2] == packet@[2] && head[3]
            == packet@[3]);
        if framed {
            assert(head =~= magic());
        }
        assert(magic()[0] == 0x55 && magic()[1] == 0x47 && magic()[2] == 0x53 && magic()[3]
            == 0x50);
    }
    if !framed || packet[4] != VERSION {
        return Err(ProtocolError::Header);
    }
    let kind = match Kind::from_byte(packet[5]) {
        Ok(kind) => kind,
        Err(error) => return Err(error),
    };
    assert(kind_of(packet@[5]) == Some(kind)) by {
        assert(kind.byte() == packet@[5]);
        lemma_kinds_differ(kind, choose|kind: Kind| #[trigger] kind.byte() == packet@[5]);
    }
    let body_length: usize = be_u32(packet, 16) as usize;
    if body_length > MAX_BODY_LENGTH || packet.len() != HEADER_LENGTH + body_length {
        return Err(ProtocolError::BodyLength);
    }
    Ok(
        Header {
            kind,
            descriptor_count: be_u16(packet, 6),
            generation: be_u32(packet, 8),
            request_id: be_u32(packet, 12),
        },
    )
}

/// The number of descriptors in a control message of `size` bytes, of which `base` are its
/// header; `rights` says whether the message passes descriptors at all.
pub fn rights_count(rights: bool, size: usize, base: usize) -> (outcome: Result<
    usize,
    ProtocolError,
>)
    ensures
        outcome == if !rights {
            Err::<usize, ProtocolError>(ProtocolError::Ancillary)
        } else if size < base || (size - base) % 4 != 0 {
            Err(ProtocolError::Rights)
        } else {
            Ok(((size - base) / 4) as usize)
        },
{
    if !rights {
        return Err(ProtocolError::Ancillary);
    }
    if size < base || (size - base) % 4 != 0 {
        return Err(ProtocolError::Rights);
    }
    Ok((size - base) / 4)
}

/// Reads the record in a received packet that came with `descriptors`.
pub fn decode(packet: &[u8], truncated: bool, descriptors: Vec<i32>) -> (outcome: Result<
    Record,
    ProtocolError,
>)
    ensures
        match outcome {
            Err(error) => record_of(packet@, truncated, descriptors@) == Err::<
                RecordModel,
                ProtocolError,
            >(error),
            Ok(record) => record_of(packet@, truncated, descriptors@) == Ok::<
                RecordModel,
                ProtocolError,
            >(record@),
        },
{
    let header = parse_header(packet, truncated)?;
    if descriptors.len() != header.descriptor_count as usize {
        return Err(ProtocolError::DescriptorCount(header.descriptor_count, descriptors.len()));
    }
    let body = slice_to_vec(slice_subrange(packet, HEADER_LENGTH, packet.len()));
    assert(body@ =~= packet@.skip(HEADER_LENGTH as int));
    Ok(
        Record {
            kind: header.kind,
            generation: header.generation,
            request_id: header.request_id,
            body,
            descriptors,
        },
    )
}

/// What is received of a record is the record that was sent, with the descriptors that were
/// sent with it.
pub proof fn lemma_record_round_trip(record: RecordModel, descriptors: Seq<i32>)
    requires
        record.body.len() <= MAX_BODY_LENGTH,
        descriptors.len() <= u16::MAX,
    ensures
        record_of(packet_of(record, descriptors.len() as u16), false, descriptors) == Ok::<
            RecordModel,
            ProtocolError,
        >(RecordModel { descriptors, ..record }),
{
    let count = descriptors.len() as u16;
    let packet = packet_of(record, count);
    let length = record.body.len() as u32;
    lemma_be16_round_trip(count);
    lemma_be32_round_trip(record.generation);
    lemma_be32_round_trip(record.request_id);
    lemma_be32_round_trip(length);
    assert(packet.take(4) =~= magic());
    assert(packet.subrange(6, 8) =~= be16(count));
    assert(packet.subrange(8, 12) =~= be32(record.generation));
    assert(packet.subrange(12, 16) =~= be32(record.request_id));
    assert(packet.subrange(16, 20) =~= be32(length));
    assert(packet.skip(20) =~= record.body);
    assert(be16_at(packet, 6) == be16_at(packet.subrange(6, 8), 0));
    assert(be32_at(packet, 8) == be32_at(packet.subrange(8, 12), 0));
    assert(be32_at(packet, 12) == be32_at(packet.subrange(12, 16), 0));
    assert(be32_at(packet, 16) == be32_at(packet.subrange(16, 20), 0));
    assert(packet[5] == record.kind.byte());
    assert(kind_of(packet[5]) == Some(record.kind)) by {
        lemma_kinds_differ(record.kind, choose|kind: Kind| #[trigger] kind.byte() == packet[5]);
    }
}

} // verus!
