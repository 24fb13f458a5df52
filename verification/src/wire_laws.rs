//! What stands in the packets between the supervisor and its worker, byte for byte.

use crate::bytes::{be16, be16_at, be32, be32_at};
use crate::handshake::bare_record;
use crate::launch::{counted_names, counted_text, endpoint_entries, endpoint_entry};
use crate::profile::{ResourceProfile, DEVICE_FD};
use crate::protocol::{
    kind_of, lemma_kinds_differ, magic, packet_of, record_of, Kind, ProtocolError, RecordModel,
    CONTROL_FD, HEADER_LENGTH, MAX_BODY_LENGTH, MAX_DESCRIPTORS,
};
use crate::usb_personality::Endpoint;
use vstd::prelude::*;
use vstd::utf8::encode_utf8;

verus! {

/// Which byte stands for which kind of record.
pub proof fn lemma_kind_bytes(kind: Kind, byte: u8)
    ensures
        kind_of(byte) == Some(Kind::InitialResources) <==> byte == 1,
        kind_of(byte) == Some(Kind::UsbEndpoints) <==> byte == 2,
        kind_of(byte) == Some(Kind::UsbBusEvent) <==> byte == 3,
        kind_of(byte) == Some(Kind::UsbControlRequest) <==> byte == 4,
        kind_of(byte) == Some(Kind::Quiesce) <==> byte == 17,
        kind_of(byte) == Some(Kind::ConfigurationRejected) <==> byte == 18,
        kind_of(byte) == Some(Kind::Configure) <==> byte == 128,
        kind_of(byte) == Some(Kind::UsbControlResponse) <==> byte == 129,
        kind_of(byte) == Some(Kind::Serving) <==> byte == 130,
        kind_of(byte) == Some(Kind::Quiesced) <==> byte == 132,
        kind_of(kind.byte()) == Some(kind),
{
    lemma_kind_is_found(kind);
    lemma_kind_is_found(Kind::InitialResources);
    lemma_kind_is_found(Kind::UsbEndpoints);
    lemma_kind_is_found(Kind::UsbBusEvent);
    lemma_kind_is_found(Kind::UsbControlRequest);
    lemma_kind_is_found(Kind::Quiesce);
    lemma_kind_is_found(Kind::ConfigurationRejected);
    lemma_kind_is_found(Kind::Configure);
    lemma_kind_is_found(Kind::UsbControlResponse);
    lemma_kind_is_found(Kind::Serving);
    lemma_kind_is_found(Kind::Quiesced);
    if kind_of(byte) is Some {
        assert(kind_of(byte)->0.byte() == byte);
    }
}

proof fn lemma_kind_is_found(kind: Kind)
    ensures
        kind_of(kind.byte()) == Some(kind),
{
    let found = choose|found: Kind| #[trigger] found.byte() == kind.byte();
    lemma_kinds_differ(kind, found);
}

/// A packet begins with `UGSP` and a one, then says its kind, its descriptors, its generation, its
/// request and its body's length, each with the highest byte first, and ends with its body.
pub proof fn lemma_packet_bytes(record: RecordModel, descriptor_count: u16)
    requires
        record.body.len() <= 1048576,
    ensures
        ({
            let packet = packet_of(record, descriptor_count);
            &&& packet.len() == 20 + record.body.len()
            &&& packet[0] == 85 && packet[1] == 71 && packet[2] == 83 && packet[3] == 80
            &&& packet[4] == 1
            &&& kind_of(packet[5]) == Some(record.kind)
            &&& 256 * packet[6] + packet[7] == descriptor_count
            &&& 16777216 * packet[8] + 65536 * packet[9] + 256 * packet[10] + packet[11]
                == record.generation
            &&& 16777216 * packet[12] + 65536 * packet[13] + 256 * packet[14] + packet[15]
                == record.request_id
            &&& 16777216 * packet[16] + 65536 * packet[17] + 256 * packet[18] + packet[19]
                == record.body.len()
            &&& packet.subrange(20, packet.len() as int) == record.body
        }),
{
    let packet = packet_of(record, descriptor_count);
    lemma_kind_is_found(record.kind);
    assert(packet.subrange(20, packet.len() as int) =~= record.body);
    lemma_be32_digits(record.generation);
    lemma_be32_digits(record.request_id);
    lemma_be32_digits(record.body.len() as u32);
    assert(packet[8] == be32(record.generation)[0] && packet[9] == be32(record.generation)[1]
        && packet[10] == be32(record.generation)[2] && packet[11] == be32(record.generation)[3]);
    assert(packet[12] == be32(record.request_id)[0] && packet[13] == be32(record.request_id)[1]
        && packet[14] == be32(record.request_id)[2] && packet[15] == be32(record.request_id)[3]);
    let length = record.body.len() as u32;
    assert(packet[16] == be32(length)[0] && packet[17] == be32(length)[1] && packet[18] == be32(
        length,
    )[2] && packet[19] == be32(length)[3]);
}

proof fn lemma_be32_digits(word: u32)
    ensures
        word == 16777216 * be32(word)[0] + 65536 * be32(word)[1] + 256 * be32(word)[2] + be32(
            word,
        )[3],
{
}

/// Which packets are taken, and for what: no other packet is, and nothing of it is changed.
pub proof fn lemma_packets_are_taken(packet: Seq<u8>, truncated: bool, descriptors: Seq<i32>)
    ensures
        record_of(packet, truncated, descriptors) is Ok <==> {
            &&& !truncated
            &&& packet.len() >= 20
            &&& packet[0] == 85 && packet[1] == 71 && packet[2] == 83 && packet[3] == 80
            &&& packet[4] == 1
            &&& kind_of(packet[5]) is Some
            &&& 16777216 * packet[16] + 65536 * packet[17] + 256 * packet[18] + packet[19]
                == packet.len() - 20
            &&& packet.len() <= 20 + 1048576
            &&& 256 * packet[6] + packet[7] == descriptors.len()
        },
        record_of(packet, truncated, descriptors) matches Ok(record) ==> {
            &&& Some(record.kind) == kind_of(packet[5])
            &&& record.generation == 16777216 * packet[8] + 65536 * packet[9] + 256 * packet[10]
                + packet[11]
            &&& record.request_id == 16777216 * packet[12] + 65536 * packet[13] + 256 * packet[14]
                + packet[15]
            &&& record.body == packet.subrange(20, packet.len() as int)
            &&& record.descriptors == descriptors
        },
        packet.len() == 0 ==> record_of(packet, truncated, descriptors) == Err::<
            RecordModel,
            ProtocolError,
        >(ProtocolError::Closed),
        packet.len() > 0 && (truncated || packet.len() < 20) ==> record_of(
            packet,
            truncated,
            descriptors,
        ) == Err::<RecordModel, ProtocolError>(ProtocolError::Truncated),
{
    if packet.len() >= 20 {
        let head = packet.take(4);
        assert(head[0] == packet[0] && head[1] == packet[1] && head[2] == packet[2] && head[3]
            == packet[3]);
        assert(magic()[0] == 85 && magic()[1] == 71 && magic()[2] == 83 && magic()[3] == 80);
        if packet[0] == 85 && packet[1] == 71 && packet[2] == 83 && packet[3] == 80 {
            assert(head =~= magic());
        }
        assert(packet.skip(20) =~= packet.subrange(20, packet.len() as int));
    }
}

/// The endpoint map tells the number of endpoints and then describes each, in the order in which
/// their files are handed over: its address, its transfer type and its packet size.
pub proof fn lemma_endpoint_map_bytes(endpoints: Seq<Endpoint>, i: int)
    requires
        endpoints.len() <= 65535,
        0 <= i < endpoints.len(),
    ensures
        ({
            let body = be16(endpoints.len() as u16) + endpoint_entries(endpoints);
            &&& body.len() == 2 + 4 * endpoints.len()
            &&& 256 * body[0] + body[1] == endpoints.len()
            &&& body[2 + 4 * i] == endpoints[i].address
            &&& body[3 + 4 * i] == endpoints[i].transfer_type
            &&& 256 * body[4 + 4 * i] + body[5 + 4 * i] == endpoints[i].max_packet_size
        }),
{
    let head = be16(endpoints.len() as u16);
    let entries = endpoint_entries(endpoints);
    let body = head + entries;
    lemma_entry_at(endpoints, i);
    assert(body[2 + 4 * i] == entries[4 * i]);
    assert(body[3 + 4 * i] == entries[4 * i + 1]);
    assert(body[4 + 4 * i] == entries[4 * i + 2]);
    assert(body[5 + 4 * i] == entries[4 * i + 3]);
}

proof fn lemma_entry_at(endpoints: Seq<Endpoint>, i: int)
    requires
        0 <= i < endpoints.len(),
    ensures
        endpoint_entries(endpoints).len() == 4 * endpoints.len(),
        endpoint_entries(endpoints)[4 * i] == endpoints[i].address,
        endpoint_entries(endpoints)[4 * i + 1] == endpoints[i].transfer_type,
        256 * endpoint_entries(endpoints)[4 * i + 2] + endpoint_entries(endpoints)[4 * i + 3]
            == endpoints[i].max_packet_size,
    decreases endpoints.len(),
{
    let init = endpoints.drop_last();
    let last = endpoint_entry(endpoints.last());
    assert(last.len() == 4);
    lemma_entries_len(init);
    if i < init.len() {
        lemma_entry_at(init, i);
    } else {
        let entries = endpoint_entries(endpoints);
        assert(entries[4 * i] == last[0] && entries[4 * i + 1] == last[1] && entries[4 * i + 2]
            == last[2] && entries[4 * i + 3] == last[3]);
    }
}

proof fn lemma_entries_len(endpoints: Seq<Endpoint>)
    ensures
        endpoint_entries(endpoints).len() == 4 * endpoints.len(),
    decreases endpoints.len(),
{
    if endpoints.len() > 0 {
        lemma_entries_len(endpoints.drop_last());
    }
}

/// The UTF-8 bytes of a resource's name.
pub open spec fn resource_name_bytes(resource: ResourceProfile) -> Seq<u8> {
    match resource {
        ResourceProfile::CharacterDevice(device) => encode_utf8(device.name@),
        ResourceProfile::GpioLines(lines) => encode_utf8(lines.name@),
    }
}

/// Where the name of the resource at a position begins in the list of names: behind the number of
/// resources, and behind each earlier name with its length.
pub open spec fn name_begins(resources: Seq<ResourceProfile>, i: int) -> int
    decreases i,
{
    if i <= 0 {
        2
    } else {
        name_begins(resources, i - 1) + 2 + resource_name_bytes(resources[i - 1]).len()
    }
}

/// The list of names tells the number of resources and then each name behind its length, in the
/// order in which the resources are handed over. Nothing stands behind the last.
pub proof fn lemma_resource_names_bytes(resources: Seq<ResourceProfile>, i: int)
    requires
        resources.len() <= 65535,
        0 <= i < resources.len(),
        forall|k: int|
            0 <= k < resources.len() ==> resource_name_bytes(#[trigger] resources[k]).len()
                <= 65535,
    ensures
        ({
            let body = be16(resources.len() as u16) + counted_names(resources);
            let at = name_begins(resources, i);
            let name = resource_name_bytes(resources[i]);
            &&& body.len() == name_begins(resources, resources.len() as int)
            &&& 256 * body[0] + body[1] == resources.len()
            &&& 2 <= at && at + 2 + name.len() <= body.len()
            &&& 256 * body[at] + body[at + 1] == name.len()
            &&& body.subrange(at + 2, at + 2 + name.len()) == name
        }),
{
    let names = counted_names(resources);
    let body = be16(resources.len() as u16) + names;
    let at = name_begins(resources, i);
    let name = resource_name_bytes(resources[i]);
    lemma_name_at(resources, i);
    lemma_names_len(resources);
    assert(body[at] == names[at - 2]);
    assert(body[at + 1] == names[at - 1]);
    assert(body.subrange(at + 2, at + 2 + name.len()) =~= names.subrange(at, at + name.len()));
}

proof fn lemma_begins_agree(a: Seq<ResourceProfile>, b: Seq<ResourceProfile>, i: int)
    requires
        0 <= i <= a.len(),
        i <= b.len(),
        forall|k: int| 0 <= k < i ==> a[k] == b[k],
    ensures
        name_begins(a, i) == name_begins(b, i),
        name_begins(a, i) >= 2,
    decreases i,
{
    if i > 0 {
        lemma_begins_agree(a, b, i - 1);
    }
}

proof fn lemma_names_len(resources: Seq<ResourceProfile>)
    ensures
        2 + counted_names(resources).len() == name_begins(resources, resources.len() as int),
    decreases resources.len(),
{
    if resources.len() > 0 {
        let init = resources.drop_last();
        lemma_names_len(init);
        lemma_begins_agree(init, resources, init.len() as int);
        assert(counted_text(resources.last().name_of()).len() == 2 + resource_name_bytes(
            resources.last(),
        ).len());
    }
}

proof fn lemma_name_at(resources: Seq<ResourceProfile>, i: int)
    requires
        0 <= i < resources.len(),
        forall|k: int|
            0 <= k < resources.len() ==> resource_name_bytes(#[trigger] resources[k]).len()
                <= 65535,
    ensures
        ({
            let names = counted_names(resources);
            let at = name_begins(resources, i) - 2;
            let name = resource_name_bytes(resources[i]);
            &&& 0 <= at && at + 2 + name.len() <= names.len()
            &&& 256 * names[at] + names[at + 1] == name.len()
            &&& names.subrange(at + 2, at + 2 + name.len()) == name
        }),
    decreases resources.len(),
{
    let init = resources.drop_last();
    let names = counted_names(resources);
    let head = counted_names(init);
    let last = counted_text(resources.last().name_of());
    let at = name_begins(resources, i) - 2;
    let name = resource_name_bytes(resources[i]);
    assert(names == head + last);
    lemma_names_len(init);
    lemma_begins_agree(init, resources, i);
    if i < init.len() {
        assert forall|k: int| 0 <= k < init.len() implies resource_name_bytes(
            #[trigger] init[k],
        ).len() <= 65535 by {
            assert(init[k] == resources[k]);
        }
        lemma_name_at(init, i);
        assert(names.subrange(at + 2, at + 2 + name.len()) =~= head.subrange(
            at + 2,
            at + 2 + name.len(),
        ));
    } else {
        assert(at == head.len());
        assert(resource_name_bytes(resources[i]).len() <= 65535);
        assert(names[at] == last[0] && names[at + 1] == last[1]);
        assert(names.subrange(at + 2, at + 2 + name.len()) =~= name);
    }
}

/// The numbers that both ends of the channel rely on: the worker finds its channel, or its device,
/// under the descriptor three, a record has at most a mebibyte, and a packet brings at most 256
/// descriptors.
pub proof fn lemma_channel_numbers(descriptor: int, length: int)
    ensures
        descriptor == CONTROL_FD <==> descriptor == 3,
        descriptor == DEVICE_FD <==> descriptor == 3,
        length <= MAX_BODY_LENGTH <==> length <= 1048576,
        length == HEADER_LENGTH <==> length == 20,
        length <= MAX_DESCRIPTORS <==> length <= 256,
{
}

/// A record of the supervisor has the kind, the generation, the request and the body that it was
/// made of, and no descriptors.
pub proof fn lemma_bare_records(kind: Kind, generation: u32, request_id: u32, body: Seq<u8>)
    ensures
        ({
            let record = bare_record(kind, generation, request_id, body);
            &&& record.kind == kind
            &&& record.generation == generation
            &&& record.request_id == request_id
            &&& record.body == body
            &&& record.descriptors.len() == 0
        }),
{
}

/// Words are read and written low byte first or high byte first, as their names say.
pub proof fn lemma_words_in_bytes(bytes: Seq<u8>, at: int, word: u16, double: u32)
    ensures
        crate::bytes::le16_at(bytes, at) == bytes[at] + 256 * bytes[at + 1],
        be16_at(bytes, at) == 256 * bytes[at] + bytes[at + 1],
        crate::bytes::le32_at(bytes, at) == bytes[at] + 256 * bytes[at + 1] + 65536 * bytes[at + 2]
            + 16777216 * bytes[at + 3],
        be32_at(bytes, at) == 16777216 * bytes[at] + 65536 * bytes[at + 1] + 256 * bytes[at + 2]
            + bytes[at + 3],
        crate::bytes::le16(word).len() == 2 && crate::bytes::le16(word)[0] + 256
            * crate::bytes::le16(word)[1] == word,
        be16(word).len() == 2 && 256 * be16(word)[0] + be16(word)[1] == word,
        crate::bytes::le32(double).len() == 4 && crate::bytes::le32(double)[0] + 256
            * crate::bytes::le32(double)[1] + 65536 * crate::bytes::le32(double)[2] + 16777216
            * crate::bytes::le32(double)[3] == double,
        be32(double).len() == 4 && be32(double)[3] + 256 * be32(double)[2] + 65536 * be32(
            double,
        )[1] + 16777216 * be32(double)[0] == double,
{
}

/// A packet is refused only for a cause that its error names.
pub proof fn lemma_refused_packets_have_causes(
    packet: Seq<u8>,
    truncated: bool,
    descriptors: Seq<i32>,
)
    requires
        record_of(packet, truncated, descriptors) is Err,
        descriptors.len() <= usize::MAX,
    ensures
        match record_of(packet, truncated, descriptors)->Err_0 {
            ProtocolError::Closed => packet.len() == 0,
            ProtocolError::Truncated => truncated || packet.len() < 20,
            ProtocolError::Header => !(packet[0] == 85 && packet[1] == 71 && packet[2] == 83
                && packet[3] == 80 && packet[4] == 1),
            ProtocolError::UnknownKind(byte) => byte == packet[5] && kind_of(byte) is None,
            ProtocolError::BodyLength => {
                let length = 16777216 * packet[16] + 65536 * packet[17] + 256 * packet[18]
                    + packet[19];
                length > 1048576 || packet.len() != 20 + length
            },
            ProtocolError::DescriptorCount(declared, received) => declared == 256 * packet[6]
                + packet[7] && received == descriptors.len() && declared != received,
            _ => false,
        },
{
    if packet.len() >= 20 {
        let head = packet.take(4);
        assert(head[0] == packet[0] && head[1] == packet[1] && head[2] == packet[2] && head[3]
            == packet[3]);
        if packet[0] == 85 && packet[1] == 71 && packet[2] == 83 && packet[3] == 80 {
            assert(head =~= magic());
        }
    }
}

} // verus!
