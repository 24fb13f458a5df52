//! What a host reads of the capabilities for Windows and for browsers that a firmware declares.

use crate::bytes::{
    le16, le16_at, le32, le32_at, lemma_le16_round_trip, lemma_le32_round_trip, low_word,
};
use crate::conversation::{
    before_nul, compatible_sections, find_webusb, identifier_text, is_webusb, property_at,
    property_list, property_name_text, url_prefix, url_text, webusb_uuid, words_of, Capability,
    DiscoveryFault, USB_DC_PLATFORM, USB_DT_DEVICE_CAPABILITY,
};
use crate::functionfs::nul_at;
use crate::microsoft::{
    compatible_id_bytes, identifier_bytes, identifier_valid, property_bytes, property_count,
    property_features, property_name,
};
use crate::native::{lemma_words_bytes_len, words_bytes};
use crate::os_laws::{
    joined, lemma_ascii_char, lemma_byte_stands, lemma_features_prefix, lemma_fields,
    lemma_half_word_in, lemma_part_stands, lemma_property_name, stands_at,
};
use crate::personality::{CompatibleIdModel, PropertyModel, WebUsbModel};
use crate::projection_laws::{lemma_word_in, lemma_words_in_bytes};
use crate::text::{ascii_text, encode_utf16, lemma_utf16_round_trip};
use vstd::prelude::*;
use vstd::utf8::{encode_utf8, encode_utf8_decode_utf8, encode_utf8_valid_utf8};

verus! {

/// The compatible IDs of a firmware, one behind the other.
pub open spec fn id_features(ids: Seq<CompatibleIdModel>) -> Seq<u8>
    decreases ids.len(),
{
    if ids.len() == 0 {
        seq![]
    } else {
        compatible_id_bytes(ids[0]) + id_features(ids.skip(1))
    }
}

/// The descriptor by which a firmware declares its compatible IDs.
pub open spec fn ids_descriptor(ids: Seq<CompatibleIdModel>) -> Seq<u8> {
    le32((16 + 24 * ids.len()) as u32) + le16(0x0100) + le16(4) + seq![
        ids.len() as u8,
        0,
        0,
        0,
        0,
        0,
        0,
        0,
    ] + id_features(ids)
}

/// The properties of an interface.
pub open spec fn properties_of(all: Seq<PropertyModel>, interface: u8) -> Seq<PropertyModel> {
    all.filter(|property: PropertyModel| property.interface == interface)
}

/// The properties of the first `count` of some interfaces, interface by interface.
pub open spec fn properties_in_turn(
    all: Seq<PropertyModel>,
    interfaces: Seq<u8>,
    count: nat,
) -> Seq<PropertyModel>
    decreases count,
{
    if count == 0 {
        seq![]
    } else {
        properties_in_turn(all, interfaces, (count - 1) as nat) + properties_of(
            all,
            interfaces[count - 1],
        )
    }
}

/// The descriptor by which a firmware declares the properties of an interface.
pub open spec fn properties_descriptor(all: Seq<PropertyModel>, interface: u8) -> Seq<u8> {
    le32((10 + property_features(all, interface).len()) as u32) + le16(0x0100) + le16(5) + le16(
        property_count(all, interface) as u16,
    ) + property_features(all, interface)
}

/// The capability by which a firmware declares WebUSB.
pub open spec fn webusb_capability(webusb: WebUsbModel, landing_index: u8) -> Seq<u8> {
    seq![24u8, USB_DT_DEVICE_CAPABILITY, USB_DC_PLATFORM, 0] + webusb_uuid() + le16(webusb.version)
        + seq![webusb.vendor_code, landing_index]
}

/// Whether `bytes` is a device capability other than WebUSB's.
pub open spec fn other_capability(bytes: Seq<u8>) -> bool {
    3 <= bytes.len() <= 255 && bytes[0] == bytes.len() && !is_webusb(bytes, 0)
}

/// The descriptor by which a firmware declares a landing page.
pub open spec fn url_descriptor(scheme: u8, address: Seq<char>) -> Seq<u8> {
    seq![(3 + encode_utf8(address).len()) as u8, 3, scheme] + encode_utf8(address)
}

/// The first zero behind bytes that are not zero.
proof fn lemma_first_nul(bytes: Seq<u8>, offset: int, end: int)
    requires
        0 <= offset <= end <= bytes.len(),
        forall|i: int| offset <= i < end ==> bytes[i] != 0,
        end < bytes.len() ==> bytes[end] == 0,
    ensures
        nul_at(bytes, offset) == (if end < bytes.len() {
            Some(end)
        } else {
            None::<int>
        }),
    decreases end - offset,
{
    if offset < end {
        lemma_first_nul(bytes, offset + 1, end);
    }
}

/// The byte of an ASCII character stands for that character.
proof fn lemma_char_of_byte(c: char)
    requires
        0 < (c as u32) < 128,
    ensures
        0 < (c as u8) < 128,
        (c as u8) as char == c,
{
    lemma_ascii_char(c);
    assert(((c as u8) as char) as u32 == c as u32);
}

/// A Microsoft identifier reads back as written.
pub proof fn lemma_identifier_reads_back(value: Seq<char>)
    requires
        identifier_valid(value),
    ensures
        identifier_text(identifier_bytes(value)) == Some(value),
{
    let bytes = identifier_bytes(value);
    assert forall|i: int| 0 <= i < value.len() implies 0 < #[trigger] bytes[i] < 128
        && bytes[i] as char == value[i] by {
        assert(0 < (value[i] as u32) < 128);
        lemma_char_of_byte(value[i]);
    }
    lemma_first_nul(bytes, 0, value.len() as int);
    let text = before_nul(bytes);
    assert(text =~= bytes.take(value.len() as int));
    assert(ascii_text(text) =~= value);
}

/// A compatible ID that stands in an answer is read there.
proof fn lemma_id_read(blob: Seq<u8>, at: int, id: CompatibleIdModel)
    requires
        stands_at(blob, at, compatible_id_bytes(id)),
        identifier_valid(id.compatible_id),
        identifier_valid(id.sub_compatible_id),
    ensures
        compatible_id_bytes(id).len() == 24,
        blob[at] == id.interface,
        identifier_text(blob.subrange(at + 2, at + 10)) == Some(id.compatible_id),
        identifier_text(blob.subrange(at + 10, at + 18)) == Some(id.sub_compatible_id),
{
    let feature = compatible_id_bytes(id);
    let first = identifier_bytes(id.compatible_id);
    let second = identifier_bytes(id.sub_compatible_id);
    assert(feature.subrange(2, 10) =~= first);
    assert(feature.subrange(10, 18) =~= second);
    lemma_byte_stands(blob, at, feature, 0);
    lemma_part_stands(blob, at, feature, 2, first);
    lemma_part_stands(blob, at, feature, 10, second);
    lemma_identifier_reads_back(id.compatible_id);
    lemma_identifier_reads_back(id.sub_compatible_id);
}

/// Compatible IDs that stand in an answer are read there.
proof fn lemma_ids_read(
    blob: Seq<u8>,
    at: int,
    ids: Seq<CompatibleIdModel>,
    interfaces: Seq<u8>,
    found: Seq<CompatibleIdModel>,
)
    requires
        stands_at(blob, at, id_features(ids)),
        forall|i: int|
            0 <= i < ids.len() ==> interfaces.contains((#[trigger] ids[i]).interface)
                && identifier_valid(ids[i].compatible_id) && identifier_valid(
                ids[i].sub_compatible_id,
            ),
    ensures
        id_features(ids).len() == 24 * ids.len(),
        compatible_sections(blob, at, ids.len(), interfaces, found) == Ok::<
            Seq<CompatibleIdModel>,
            DiscoveryFault,
        >(found + ids),
    decreases ids.len(),
{
    if ids.len() == 0 {
        assert(found + ids =~= found);
    } else {
        let rest = ids.skip(1);
        let whole = id_features(ids);
        let first = compatible_id_bytes(ids[0]);
        assert(whole.subrange(0, first.len() as int) =~= first);
        assert(whole.subrange(first.len() as int, whole.len() as int) =~= id_features(rest));
        lemma_part_stands(blob, at, whole, 0, first);
        lemma_part_stands(blob, at, whole, first.len() as int, id_features(rest));
        lemma_id_read(blob, at, ids[0]);
        assert forall|i: int| 0 <= i < rest.len() implies interfaces.contains(
            (#[trigger] rest[i]).interface,
        ) && identifier_valid(rest[i].compatible_id) && identifier_valid(
            rest[i].sub_compatible_id,
        ) by {
            assert(rest[i] == ids[i + 1]);
        }
        let id = ids[0];
        assert(id == CompatibleIdModel {
            interface: blob[at],
            compatible_id: id.compatible_id,
            sub_compatible_id: id.sub_compatible_id,
        });
        lemma_ids_read(blob, at + 24, rest, interfaces, found.push(id));
        assert(found.push(id) + rest =~= found + ids);
    }
}

/// The compatible IDs that a firmware declares read back from their descriptor.
pub proof fn lemma_ids_descriptor_reads_back(ids: Seq<CompatibleIdModel>, interfaces: Seq<u8>)
    requires
        ids.len() <= 255,
        forall|i: int|
            0 <= i < ids.len() ==> interfaces.contains((#[trigger] ids[i]).interface)
                && identifier_valid(ids[i].compatible_id) && identifier_valid(
                ids[i].sub_compatible_id,
            ),
    ensures
        ids_descriptor(ids).len() == 16 + 24 * ids.len(),
        le32_at(ids_descriptor(ids), 0) == 16 + 24 * ids.len(),
        ids_descriptor(ids)[8] == ids.len(),
        compatible_sections(ids_descriptor(ids), 16, ids.len(), interfaces, seq![]) == Ok::<
            Seq<CompatibleIdModel>,
            DiscoveryFault,
        >(ids),
{
    let bytes = ids_descriptor(ids);
    let length = (16 + 24 * ids.len()) as u32;
    lemma_le32_round_trip(length);
    assert(bytes.subrange(0, 4) =~= le32(length));
    lemma_word_in(bytes, 0, length);
    assert(bytes.subrange(16, 16 + id_features(ids).len() as int) =~= id_features(ids));
    lemma_ids_read(bytes, 16, ids, interfaces, seq![]);
    assert(Seq::<CompatibleIdModel>::empty() + ids =~= ids);
}

/// Words read back from their bytes.
pub proof fn lemma_words_read_back(words: Seq<u16>)
    ensures
        words_of(words_bytes(words)) == words,
{
    let bytes = words_bytes(words);
    lemma_words_bytes_len(words);
    assert forall|i: int| 0 <= i < words.len() implies words_of(bytes)[i] == words[i] by {
        lemma_words_in_bytes(words, i);
        lemma_le16_round_trip(words[i]);
    }
    assert(words_of(bytes) =~= words);
}

/// A property name reads back from its zero-terminated UTF-16.
proof fn lemma_property_name_reads_back(name: Seq<char>)
    ensures
        property_name_text(words_bytes(property_name(name))) == Ok::<Seq<char>, DiscoveryFault>(
            name,
        ),
{
    let words = property_name(name);
    let bytes = words_bytes(words);
    lemma_words_bytes_len(words);
    lemma_words_read_back(words);
    assert(words.drop_last() =~= encode_utf16(name));
    lemma_utf16_round_trip(name);
}

/// A property that stands in an answer is read there.
#[verifier::rlimit(40)]
proof fn lemma_property_reads_back(blob: Seq<u8>, at: int, property: PropertyModel)
    requires
        stands_at(blob, at, property_bytes(property)),
        blob.len() <= 65535,
    ensures
        property_at(blob, at, property.interface) == Ok::<PropertyModel, DiscoveryFault>(property),
        le32_at(blob, at) == property_bytes(property).len(),
{
    let bytes = property_bytes(property);
    let name = property_name(property.name);
    let text = words_bytes(name);
    let name_length = (2 * name.len()) as u16;
    let full = 14 + 2 * name.len() + property.data.len();
    lemma_property_name(property);
    lemma_property_name_reads_back(property.name);
    lemma_le32_round_trip(low_word(full));
    lemma_le32_round_trip(property.data_type);
    lemma_le16_round_trip(name_length);
    lemma_le32_round_trip(low_word(property.data.len()));
    lemma_fields(
        le32(low_word(full)),
        le32(property.data_type),
        le16(name_length),
        text,
        le32(low_word(property.data.len())),
        property.data,
    );
    assert(bytes.len() == full);
    assert(low_word(full) == full);
    assert(low_word(property.data.len()) == property.data.len());
    let name_end = 10 + text.len() as int;
    lemma_part_stands(blob, at, bytes, 0, le32(full as u32));
    lemma_part_stands(blob, at, bytes, 4, le32(property.data_type));
    lemma_part_stands(blob, at, bytes, 8, le16(name_length));
    lemma_part_stands(blob, at, bytes, 10, text);
    lemma_part_stands(blob, at, bytes, name_end, le32(property.data.len() as u32));
    lemma_part_stands(blob, at, bytes, name_end + 4, property.data);
    lemma_word_in(blob, at, full as u32);
    lemma_word_in(blob, at + 4, property.data_type);
    lemma_half_word_in(blob, at + 8, name_length);
    lemma_word_in(blob, at + name_end, property.data.len() as u32);
}

/// The properties of an interface among the first `done` of all, and among one less.
proof fn lemma_properties_step(all: Seq<PropertyModel>, interface: u8, done: int)
    requires
        0 < done <= all.len(),
    ensures
        ({
            let property = all[done - 1];
            let before = all.take(done - 1);
            let after = all.take(done);
            if property.interface == interface {
                &&& properties_of(after, interface) == properties_of(before, interface).push(
                    property,
                )
                &&& property_features(after, interface) == property_features(before, interface)
                    + property_bytes(property)
                &&& property_count(after, interface) == property_count(before, interface) + 1
            } else {
                &&& properties_of(after, interface) == properties_of(before, interface)
                &&& property_features(after, interface) == property_features(before, interface)
                &&& property_count(after, interface) == property_count(before, interface)
            }
        }),
{
    let before = all.take(done - 1);
    let after = all.take(done);
    let belongs = |property: PropertyModel| property.interface == interface;
    assert(after.drop_last() =~= before);
    assert(after.last() == all[done - 1]);
    assert(property_features(before, interface) + Seq::<u8>::empty() =~= property_features(
        before,
        interface,
    ));
    assert(after.filter(belongs) == if belongs(after.last()) {
        before.filter(belongs).push(after.last())
    } else {
        before.filter(belongs)
    }) by {
        reveal(Seq::filter);
    }
}

/// The properties of an interface are read as they were written: behind the first `done` of all
/// properties a host stands behind what was written of them.
#[verifier::rlimit(40)]
proof fn lemma_properties_read(
    all: Seq<PropertyModel>,
    interface: u8,
    done: int,
    blob: Seq<u8>,
    start: int,
    found: Seq<PropertyModel>,
)
    requires
        0 <= done <= all.len(),
        stands_at(blob, start, property_features(all, interface)),
        blob.len() <= 65535,
    ensures
        property_count(all.take(done), interface) <= property_count(all, interface),
        property_list(blob, start, property_count(all, interface), interface, found)
            == property_list(
            blob,
            start + property_features(all.take(done), interface).len(),
            (property_count(all, interface) - property_count(all.take(done), interface)) as nat,
            interface,
            found + properties_of(all.take(done), interface),
        ),
    decreases done,
{
    let whole = property_features(all, interface);
    lemma_features_prefix(all, interface, done);
    if done > 0 {
        let before = all.take(done - 1);
        let after = all.take(done);
        lemma_properties_read(all, interface, done - 1, blob, start, found);
        lemma_properties_step(all, interface, done);
        let property = all[done - 1];
        if property.interface == interface {
            let head = property_features(before, interface);
            let bytes = property_bytes(property);
            lemma_inside(whole, head, bytes, property_features(after, interface));
            lemma_part_stands(blob, start, whole, head.len() as int, bytes);
            lemma_property_reads_back(blob, start + head.len(), property);
            assert((found + properties_of(before, interface)).push(property) =~= found
                + properties_of(after, interface));
        }
    } else {
        assert(all.take(0) =~= seq![]);
        assert(found + properties_of(all.take(0), interface) =~= found);
    }
}

/// What ends a prefix stands inside the whole.
proof fn lemma_inside(whole: Seq<u8>, head: Seq<u8>, bytes: Seq<u8>, end: Seq<u8>)
    requires
        end == head + bytes,
        end.is_prefix_of(whole),
    ensures
        whole.subrange(head.len() as int, head.len() + bytes.len() as int) == bytes,
{
    assert(end =~= whole.subrange(0, end.len() as int));
    assert forall|i: int| 0 <= i < bytes.len() implies whole[head.len() + i] == bytes[i] by {
        assert(whole.subrange(0, end.len() as int)[head.len() + i] == end[head.len() + i]);
    }
    assert(whole.subrange(head.len() as int, head.len() + bytes.len() as int) =~= bytes);
}

/// An interface has as many properties as are counted.
pub proof fn lemma_properties_are_counted(all: Seq<PropertyModel>, interface: u8)
    ensures
        properties_of(all, interface).len() == property_count(all, interface),
    decreases all.len(),
{
    if all.len() > 0 {
        lemma_properties_are_counted(all.drop_last(), interface);
        lemma_properties_step(all, interface, all.len() as int);
        assert(all.take(all.len() as int) =~= all);
        assert(all.take(all.len() - 1) =~= all.drop_last());
    }
}

/// An interface has no more properties than bytes of them.
proof fn lemma_count_is_bounded(all: Seq<PropertyModel>, interface: u8)
    ensures
        property_count(all, interface) <= property_features(all, interface).len(),
    decreases all.len(),
{
    if all.len() > 0 {
        lemma_count_is_bounded(all.drop_last(), interface);
    }
}

/// The properties that a firmware declares for an interface read back from their descriptor.
pub proof fn lemma_properties_descriptor_reads_back(
    all: Seq<PropertyModel>,
    interface: u8,
    found: Seq<PropertyModel>,
)
    requires
        properties_descriptor(all, interface).len() <= 65535,
    ensures
        properties_descriptor(all, interface).len() >= 10,
        le32_at(properties_descriptor(all, interface), 0) == properties_descriptor(
            all,
            interface,
        ).len(),
        le16_at(properties_descriptor(all, interface), 8) == property_count(all, interface),
        property_list(
            properties_descriptor(all, interface),
            10,
            property_count(all, interface),
            interface,
            found,
        ) == Ok::<Seq<PropertyModel>, DiscoveryFault>(found + properties_of(all, interface)),
{
    let bytes = properties_descriptor(all, interface);
    let features = property_features(all, interface);
    let length = (10 + features.len()) as u32;
    let count = property_count(all, interface) as u16;
    lemma_le32_round_trip(length);
    lemma_le16_round_trip(count);
    assert(bytes.subrange(0, 4) =~= le32(length));
    assert(bytes.subrange(8, 10) =~= le16(count));
    assert(bytes.subrange(10, 10 + features.len() as int) =~= features);
    lemma_word_in(bytes, 0, length);
    lemma_half_word_in(bytes, 8, count);
    lemma_count_is_bounded(all, interface);
    lemma_properties_read(all, interface, all.len() as int, bytes, 10, found);
    assert(all.take(all.len() as int) =~= all);
}

/// A host that looks for WebUSB passes over every other capability.
pub proof fn lemma_other_capabilities_are_passed(
    blob: Seq<u8>,
    at: int,
    capabilities: Seq<Seq<u8>>,
)
    requires
        stands_at(blob, at, joined(capabilities)),
        forall|i: int|
            0 <= i < capabilities.len() ==> other_capability(#[trigger] capabilities[i]),
    ensures
        find_webusb(blob, at) == find_webusb(blob, at + joined(capabilities).len()),
    decreases capabilities.len(),
{
    if capabilities.len() > 0 {
        let first = capabilities[0];
        let rest = capabilities.skip(1);
        let whole = joined(capabilities);
        assert(other_capability(first));
        assert(whole.subrange(0, first.len() as int) =~= first);
        assert(whole.subrange(first.len() as int, whole.len() as int) =~= joined(rest));
        lemma_part_stands(blob, at, whole, 0, first);
        lemma_part_stands(blob, at, whole, first.len() as int, joined(rest));
        lemma_byte_stands(blob, at, first, 0);
        lemma_byte_stands(blob, at, first, 1);
        lemma_byte_stands(blob, at, first, 2);
        if first.len() >= 24 {
            assert(blob.subrange(at + 4, at + 20) =~= first.subrange(4, 20)) by {
                assert forall|i: int| 4 <= i < 20 implies blob[at + i] == first[i] by {
                    lemma_byte_stands(blob, at, first, i);
                }
            }
        }
        assert(!is_webusb(blob, at));
        assert forall|i: int| 0 <= i < rest.len() implies other_capability(
            #[trigger] rest[i],
        ) by {
            assert(rest[i] == capabilities[i + 1]);
        }
        lemma_other_capabilities_are_passed(blob, at + first.len(), rest);
    }
}

/// A WebUSB capability is found where it stands.
pub proof fn lemma_webusb_is_found(
    blob: Seq<u8>,
    at: int,
    webusb: WebUsbModel,
    landing_index: u8,
)
    requires
        stands_at(blob, at, webusb_capability(webusb, landing_index)),
    ensures
        find_webusb(blob, at) == Ok::<Option<Capability>, DiscoveryFault>(
            Some(
                Capability {
                    version: webusb.version,
                    vendor_code: webusb.vendor_code,
                    landing_index,
                },
            ),
        ),
{
    let bytes = webusb_capability(webusb, landing_index);
    assert(bytes.len() == 24);
    assert(bytes.subrange(4, 20) =~= webusb_uuid());
    assert(bytes.subrange(20, 22) =~= le16(webusb.version));
    lemma_le16_round_trip(webusb.version);
    lemma_byte_stands(blob, at, bytes, 0);
    lemma_byte_stands(blob, at, bytes, 1);
    lemma_byte_stands(blob, at, bytes, 2);
    lemma_byte_stands(blob, at, bytes, 22);
    lemma_byte_stands(blob, at, bytes, 23);
    lemma_part_stands(blob, at, bytes, 4, webusb_uuid());
    lemma_part_stands(blob, at, bytes, 20, le16(webusb.version));
    lemma_half_word_in(blob, at + 20, webusb.version);
}

/// A landing page reads back from its descriptor.
pub proof fn lemma_url_reads_back(scheme: u8, address: Seq<char>)
    requires
        url_prefix(scheme) is Some,
        encode_utf8(address).len() <= 252,
    ensures
        url_text(url_descriptor(scheme, address)) == Ok::<Seq<char>, DiscoveryFault>(
            url_prefix(scheme)->0 + address,
        ),
{
    let bytes = url_descriptor(scheme, address);
    assert(bytes.subrange(3, bytes[0] as int) =~= encode_utf8(address));
    encode_utf8_valid_utf8(address);
    encode_utf8_decode_utf8(address);
}

} // verus!
