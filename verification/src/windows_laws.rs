//! What Windows reads of a declaration, byte for byte.

use crate::bytes::{
    le16, le16_at, le32, le32_at, lemma_le16_round_trip, lemma_le32_round_trip, low_word,
};
use crate::capability_laws::{id_features, properties_of};
use crate::microsoft::{
    compatible_features, compatible_id_bytes, compatible_id_section, identifier_bytes,
    identifier_valid, os_descriptor_count, os_descriptors, os_header, property_bytes,
    property_count, property_error, property_features, property_groups, property_interfaces,
    property_name, properties_error,
};
use crate::native::{lemma_words_bytes_len, words_bytes};
use crate::os_laws::{joined, lemma_fields};
use crate::personality::{CompatibleIdModel, MicrosoftModel, PropertyModel};
use crate::projection_laws::{lemma_word_in, lemma_words_in_bytes};
use crate::sets::{ascending_bytes, lemma_ascending_bytes};
use crate::text::encode_utf16;
use crate::usb_personality::ProjectionError;
use vstd::prelude::*;

verus! {

/// Whether eight bytes from a position on hold an identifier: its characters, and zeros behind
/// them.
pub open spec fn identifier_at(bytes: Seq<u8>, at: int, value: Seq<char>) -> bool {
    forall|j: int|
        0 <= j < 8 ==> #[trigger] bytes[at + j] == (if j < value.len() {
            value[j] as u8
        } else {
            0
        })
}

/// Whether a compatible ID stands at a position: its interface, a one, the identifier, the second
/// identifier and six zeros.
pub open spec fn id_at(bytes: Seq<u8>, at: int, id: CompatibleIdModel) -> bool {
    &&& bytes[at] == id.interface
    &&& bytes[at + 1] == 1
    &&& identifier_at(bytes, at + 2, id.compatible_id)
    &&& identifier_at(bytes, at + 10, id.sub_compatible_id)
    &&& forall|j: int| 18 <= j < 24 ==> #[trigger] bytes[at + j] == 0
}

proof fn lemma_id_stands(id: CompatibleIdModel)
    ensures
        compatible_id_bytes(id).len() == 24,
        id_at(compatible_id_bytes(id), 0, id),
{
    let bytes = compatible_id_bytes(id);
    assert forall|j: int| 0 <= j < 8 implies #[trigger] bytes[2 + j] == (if j
        < id.compatible_id.len() {
        id.compatible_id[j] as u8
    } else {
        0
    }) by {
        assert(bytes[2 + j] == identifier_bytes(id.compatible_id)[j]);
    }
    assert forall|j: int| 0 <= j < 8 implies #[trigger] bytes[10 + j] == (if j
        < id.sub_compatible_id.len() {
        id.sub_compatible_id[j] as u8
    } else {
        0
    }) by {
        assert(bytes[10 + j] == identifier_bytes(id.sub_compatible_id)[j]);
    }
}

/// Features are written behind what was written before, and only such as can be: each on an
/// interface that there is and that has no other, with identifiers of at most eight ASCII
/// characters.
proof fn lemma_features_are_written(
    ids: Seq<CompatibleIdModel>,
    interfaces: Set<u8>,
    seen: Set<u8>,
    out: Seq<u8>,
)
    requires
        compatible_features(ids, interfaces, seen, out) is Ok,
    ensures
        compatible_features(ids, interfaces, seen, out)->Ok_0 == out + id_features(ids),
        forall|i: int|
            0 <= i < ids.len() ==> interfaces.contains((#[trigger] ids[i]).interface)
                && !seen.contains(ids[i].interface) && identifier_valid(ids[i].compatible_id)
                && identifier_valid(ids[i].sub_compatible_id),
        forall|i: int, j: int|
            0 <= i < j < ids.len() ==> (#[trigger] ids[i]).interface != (
            #[trigger] ids[j]).interface,
    decreases ids.len(),
{
    if ids.len() == 0 {
        assert(out + id_features(ids) =~= out);
    } else {
        let rest = ids.skip(1);
        let next = out + compatible_id_bytes(ids[0]);
        let seen_next = seen.insert(ids[0].interface);
        lemma_features_are_written(rest, interfaces, seen_next, next);
        assert(next + id_features(rest) =~= out + id_features(ids));
        assert forall|i: int| 0 <= i < ids.len() implies interfaces.contains(
            (#[trigger] ids[i]).interface,
        ) && !seen.contains(ids[i].interface) && identifier_valid(ids[i].compatible_id)
            && identifier_valid(ids[i].sub_compatible_id) by {
            if i > 0 {
                assert(ids[i] == rest[i - 1]);
            }
        }
        assert forall|i: int, j: int| 0 <= i < j < ids.len() implies (#[trigger] ids[i]).interface
            != (#[trigger] ids[j]).interface by {
            assert(ids[j] == rest[j - 1]);
            if i > 0 {
                assert(ids[i] == rest[i - 1]);
            } else {
                assert(seen_next.contains(ids[0].interface));
            }
        }
    }
}

proof fn lemma_features_stand(ids: Seq<CompatibleIdModel>, i: int)
    requires
        0 <= i < ids.len(),
    ensures
        id_features(ids).len() == 24 * ids.len(),
        id_at(id_features(ids), 24 * i, ids[i]),
    decreases ids.len(),
{
    let rest = ids.skip(1);
    let first = compatible_id_bytes(ids[0]);
    let whole = id_features(ids);
    lemma_id_stands(ids[0]);
    assert(whole == first + id_features(rest));
    if rest.len() > 0 {
        lemma_features_stand(rest, if i > 0 {
            i - 1
        } else {
            0
        });
    }
    if i > 0 {
        assert(rest[i - 1] == ids[i]);
        lemma_id_moves(id_features(rest), 24 * (i - 1), whole, 24 * i, ids[i]);
    } else {
        lemma_id_moves(first, 0, whole, 0, ids[0]);
    }
}

proof fn lemma_id_moves(from: Seq<u8>, at: int, to: Seq<u8>, there: int, id: CompatibleIdModel)
    requires
        id_at(from, at, id),
        forall|j: int| 0 <= j < 24 ==> #[trigger] to[there + j] == from[at + j],
    ensures
        id_at(to, there, id),
{
    assert(to[there + 0] == from[at + 0]);
    assert(to[there + 1] == from[at + 1]);
    assert forall|j: int| 0 <= j < 8 implies #[trigger] to[there + 2 + j] == (if j
        < id.compatible_id.len() {
        id.compatible_id[j] as u8
    } else {
        0
    }) by {
        assert(to[there + (2 + j)] == from[at + (2 + j)]);
        assert(from[at + 2 + j] == from[at + (2 + j)]);
    }
    assert forall|j: int| 0 <= j < 8 implies #[trigger] to[there + 10 + j] == (if j
        < id.sub_compatible_id.len() {
        id.sub_compatible_id[j] as u8
    } else {
        0
    }) by {
        assert(to[there + (10 + j)] == from[at + (10 + j)]);
        assert(from[at + 10 + j] == from[at + (10 + j)]);
    }
}

/// Windows reads every compatible ID of a declaration, in its order, behind a header that tells
/// their number. No interface has two, and each is one of the device's.
#[verifier::rlimit(60)]
pub proof fn lemma_windows_reads_the_ids(
    declaration: MicrosoftModel,
    interfaces: Set<u8>,
    i: int,
)
    requires
        os_descriptors(declaration, interfaces) is Ok,
        0 <= i < declaration.compatible_ids.len(),
    ensures
        ({
            let bytes = os_descriptors(declaration, interfaces)->Ok_0;
            let ids = declaration.compatible_ids;
            &&& ids.len() <= 255
            &&& bytes.len() >= 11 + 24 * ids.len()
            &&& bytes[0] == ids[0].interface
            &&& le32_at(bytes, 1) == 11 + 24 * ids.len()
            &&& bytes[5] == 0 && bytes[6] == 1
            &&& bytes[7] == 4 && bytes[8] == 0
            &&& bytes[9] == ids.len() && bytes[10] == 0
            &&& id_at(bytes, 11 + 24 * i, ids[i])
            &&& interfaces.contains(ids[i].interface)
            &&& identifier_valid(ids[i].compatible_id)
            &&& identifier_valid(ids[i].sub_compatible_id)
            &&& forall|j: int|
                0 <= j < ids.len() && j != i ==> (#[trigger] ids[j]).interface != ids[i].interface
        }),
{
    let ids = declaration.compatible_ids;
    let properties = declaration.registry_properties;
    let bytes = os_descriptors(declaration, interfaces)->Ok_0;
    let length = (11 + 24 * ids.len()) as u32;
    let head = os_header(ids[0].interface, length, 4, ids.len() as u16);
    let section = compatible_id_section(ids, interfaces)->Ok_0;
    let groups = ascending_bytes(property_interfaces(properties));
    lemma_features_are_written(ids, interfaces, Set::empty(), head);
    lemma_features_stand(ids, i);
    lemma_groups_are_written(properties, groups, section);
    assert(section == head + id_features(ids));
    assert(bytes == section + written_groups(properties, groups));
    assert(head.len() == 11);
    assert forall|j: int| 0 <= j < 11 implies bytes[j] == #[trigger] head[j] by {}
    assert(head.subrange(1, 5) =~= le32(length));
    assert(bytes.subrange(1, 5) =~= le32(length));
    lemma_word_in(bytes, 1, length);
    assert(head[0] == ids[0].interface);
    assert(head[5] == 0 && head[6] == 1 && head[7] == 4 && head[8] == 0 && head[9] == ids.len()
        && head[10] == 0);
    assert forall|j: int| 0 <= j < 24 implies #[trigger] bytes[11 + 24 * i + j] == id_features(
        ids,
    )[24 * i + j] by {}
    lemma_id_moves(id_features(ids), 24 * i, bytes, 11 + 24 * i, ids[i]);
}

/// Whether a property stands in bytes: its whole length, its type, its name in UTF-16 with a zero
/// behind it, and its data, each behind its length.
pub open spec fn is_property(bytes: Seq<u8>, property: PropertyModel) -> bool {
    let units = encode_utf16(property.name);
    let name_end = 12 + 2 * units.len() as int;
    &&& bytes.len() == name_end + 4 + property.data.len()
    &&& le32_at(bytes, 0) == bytes.len()
    &&& le32_at(bytes, 4) == property.data_type
    &&& le16_at(bytes, 8) == 2 * units.len() + 2
    &&& forall|j: int|
        0 <= j < units.len() ==> #[trigger] units[j] == bytes[10 + 2 * j] + 256 * bytes[11 + 2 * j]
    &&& bytes[name_end - 2] == 0 && bytes[name_end - 1] == 0
    &&& le32_at(bytes, name_end) == property.data.len()
    &&& bytes.subrange(name_end + 4, bytes.len() as int) == property.data
}

/// A property is written with its type, its name and its data.
#[verifier::rlimit(60)]
pub proof fn lemma_property_is_written(property: PropertyModel)
    requires
        2 * encode_utf16(property.name).len() + 2 <= 65535,
        property_bytes(property).len() <= u32::MAX,
    ensures
        is_property(property_bytes(property), property),
{
    let units = encode_utf16(property.name);
    let name = property_name(property.name);
    let text = words_bytes(name);
    let bytes = property_bytes(property);
    let full = 14 + 2 * name.len() + property.data.len();
    let name_length = (2 * name.len()) as u16;
    lemma_words_bytes_len(name);
    lemma_le32_round_trip(low_word(full));
    lemma_le32_round_trip(property.data_type);
    lemma_le16_round_trip(name_length);
    lemma_le32_round_trip(low_word(property.data.len()));
    lemma_fields(
        le32(low_word(full)),
        le32(property.data_type),
        le16(name_length),
        text,
        le32(low_word(property.data.len())),
        property.data,
    );
    assert(low_word(full) == full);
    assert(low_word(property.data.len()) == property.data.len());
    let name_end = 12 + 2 * units.len() as int;
    lemma_word_in(bytes, 0, full as u32);
    lemma_word_in(bytes, 4, property.data_type);
    lemma_word_in(bytes, name_end, property.data.len() as u32);
    assert(bytes[8] == bytes.subrange(8, 10)[0] && bytes[9] == bytes.subrange(8, 10)[1]);
    assert forall|k: int| 0 <= k < text.len() implies bytes[10 + k] == #[trigger] text[k] by {
        assert(bytes.subrange(10, 10 + text.len() as int)[k] == bytes[10 + k]);
    }
    assert forall|j: int| 0 <= j < units.len() implies #[trigger] units[j] == bytes[10 + 2 * j]
        + 256 * bytes[11 + 2 * j] by {
        lemma_words_in_bytes(name, j);
        lemma_le16_round_trip(name[j]);
        assert(bytes[10 + 2 * j] == text[2 * j]);
        assert(bytes[10 + (2 * j + 1)] == text[2 * j + 1]);
    }
    let last = units.len() as int;
    lemma_words_in_bytes(name, last);
    assert(bytes[10 + 2 * last] == text[2 * last]);
    assert(bytes[10 + (2 * last + 1)] == text[2 * last + 1]);
}

/// Properties, one behind the other.
pub open spec fn written_properties(properties: Seq<PropertyModel>) -> Seq<u8> {
    joined(properties.map_values(|property: PropertyModel| property_bytes(property)))
}

/// The properties of one interface: a header that tells the interface, the whole length and their
/// number, and then the properties in their order.
pub open spec fn written_group(properties: Seq<PropertyModel>, interface: u8) -> Seq<u8> {
    let own = properties_of(properties, interface);
    let body = written_properties(own);
    seq![interface] + le32(low_word(11 + body.len())) + seq![0u8, 1, 5, 0] + le16(own.len() as u16)
        + body
}

/// The properties of several interfaces, one interface behind the other.
pub open spec fn written_groups(properties: Seq<PropertyModel>, interfaces: Seq<u8>) -> Seq<u8>
    decreases interfaces.len(),
{
    if interfaces.len() == 0 {
        seq![]
    } else {
        written_group(properties, interfaces[0]) + written_groups(properties, interfaces.skip(1))
    }
}

proof fn lemma_joined_push(chunks: Seq<Seq<u8>>, chunk: Seq<u8>)
    ensures
        joined(chunks.push(chunk)) == joined(chunks) + chunk,
    decreases chunks.len(),
{
    let whole = chunks.push(chunk);
    if chunks.len() == 0 {
        assert(whole.skip(1) =~= seq![]);
        assert(joined(whole.skip(1)) =~= seq![]);
        assert(whole[0] == chunk);
        assert(joined(whole) =~= chunk);
        assert(joined(chunks) + chunk =~= chunk);
    } else {
        assert(whole.skip(1) =~= chunks.skip(1).push(chunk));
        lemma_joined_push(chunks.skip(1), chunk);
        assert(joined(whole) =~= joined(chunks) + chunk);
    }
}

proof fn lemma_features_are_joined(all: Seq<PropertyModel>, interface: u8)
    ensures
        property_features(all, interface) == written_properties(properties_of(all, interface)),
        property_count(all, interface) == properties_of(all, interface).len(),
    decreases all.len(),
{
    let belongs = |property: PropertyModel| property.interface == interface;
    let bytes_of = |property: PropertyModel| property_bytes(property);
    reveal(Seq::filter);
    if all.len() == 0 {
        assert(all.filter(belongs) =~= seq![]);
        assert(properties_of(all, interface).map_values(bytes_of) =~= seq![]);
    } else {
        let init = all.drop_last();
        lemma_features_are_joined(init, interface);
        let own = properties_of(init, interface);
        if all.last().interface == interface {
            assert(properties_of(all, interface) =~= own.push(all.last()));
            assert(own.push(all.last()).map_values(bytes_of) =~= own.map_values(bytes_of).push(
                property_bytes(all.last()),
            ));
            lemma_joined_push(own.map_values(bytes_of), property_bytes(all.last()));
        } else {
            assert(properties_of(all, interface) =~= own);
            assert(property_features(all, interface) =~= property_features(init, interface));
        }
    }
}

proof fn lemma_groups_are_written(
    properties: Seq<PropertyModel>,
    groups: Seq<u8>,
    out: Seq<u8>,
)
    requires
        property_groups(properties, groups, out) is Ok,
    ensures
        property_groups(properties, groups, out)->Ok_0 == out + written_groups(properties, groups),
    decreases groups.len(),
{
    if groups.len() == 0 {
        assert(out + written_groups(properties, groups) =~= out);
    } else {
        let features = property_features(properties, groups[0]);
        let head = os_header(
            groups[0],
            low_word(11 + features.len()),
            5,
            property_count(properties, groups[0]) as u16,
        );
        let next = out + head + features;
        lemma_features_are_joined(properties, groups[0]);
        lemma_groups_are_written(properties, groups.skip(1), next);
        assert(le16(0x0100) =~= seq![0u8, 1]);
        assert(le16(5) =~= seq![5u8, 0]);
        assert(head + features =~= written_group(properties, groups[0]));
        assert(next + written_groups(properties, groups.skip(1)) =~= out + written_groups(
            properties,
            groups,
        ));
    }
}

/// Windows reads every registry property of a declaration: behind the compatible IDs, interface by
/// interface in ascending order, and for each interface in the order of the declaration.
pub proof fn lemma_windows_reads_the_properties(declaration: MicrosoftModel, interfaces: Set<u8>)
    requires
        os_descriptors(declaration, interfaces) is Ok,
    ensures
        ({
            let bytes = os_descriptors(declaration, interfaces)->Ok_0;
            let properties = declaration.registry_properties;
            let count = declaration.compatible_ids.len();
            let before = if count == 0 {
                0
            } else {
                11 + 24 * count as int
            };
            &&& before <= bytes.len()
            &&& exists|order: Seq<u8>|
                {
                    &&& #[trigger] bytes.subrange(before, bytes.len() as int) == written_groups(
                        properties,
                        order,
                    )
                    &&& forall|i: int, j: int| 0 <= i < j < order.len() ==> order[i] < order[j]
                    &&& forall|interface: u8| #[trigger]
                        order.contains(interface) <==> exists|k: int|
                            0 <= k < properties.len() && #[trigger] properties[k].interface
                                == interface
                }
        }),
{
    let ids = declaration.compatible_ids;
    let properties = declaration.registry_properties;
    let bytes = os_descriptors(declaration, interfaces)->Ok_0;
    let section = compatible_id_section(ids, interfaces)->Ok_0;
    let numbers = property_interfaces(properties);
    let order = ascending_bytes(numbers);
    lemma_groups_are_written(properties, order, section);
    lemma_ascending_bytes(numbers);
    let before = if ids.len() == 0 {
        0
    } else {
        11 + 24 * ids.len() as int
    };
    if ids.len() > 0 {
        let head = os_header(ids[0].interface, (11 + 24 * ids.len()) as u32, 4, ids.len() as u16);
        lemma_features_are_written(ids, interfaces, Set::empty(), head);
        lemma_features_stand(ids, 0);
    }
    assert(section.len() == before);
    assert(bytes.subrange(before, bytes.len() as int) =~= written_groups(properties, order));
    let list = properties.map_values(|property: PropertyModel| property.interface);
    assert forall|interface: u8| #[trigger] order.contains(interface) <==> exists|k: int|
        0 <= k < properties.len() && #[trigger] properties[k].interface == interface by {
        assert(numbers.contains(interface) <==> list.contains(interface));
        if list.contains(interface) {
            let k = choose|k: int| 0 <= k < list.len() && list[k] == interface;
            assert(properties[k].interface == interface);
        }
        if exists|k: int| 0 <= k < properties.len() && #[trigger] properties[k].interface
            == interface {
            let k = choose|k: int|
                0 <= k < properties.len() && #[trigger] properties[k].interface == interface;
            assert(list[k] == interface);
        }
    }
}

/// What can be declared for Windows: identifiers of at most eight ASCII characters without zeros,
/// a vendor code, and properties on interfaces of the device, with names that have no zero and can
/// be counted, as many as can be counted.
pub proof fn lemma_declarations_are_checked(declaration: MicrosoftModel, interfaces: Set<u8>)
    requires
        os_descriptors(declaration, interfaces) is Ok,
    ensures
        declaration.vendor_code != 0,
        forall|k: int|
            0 <= k < declaration.registry_properties.len() ==> property_declarable(
                #[trigger] declaration.registry_properties[k],
                interfaces,
            ),
{
    lemma_properties_are_checked(declaration.registry_properties, interfaces);
}

/// Whether a property can be declared for a device with these interfaces.
pub open spec fn property_declarable(property: PropertyModel, interfaces: Set<u8>) -> bool {
    &&& interfaces.contains(property.interface)
    &&& forall|i: int| 0 <= i < property.name.len() ==> #[trigger] property.name[i] != '\0'
    &&& 2 * encode_utf16(property.name).len() + 2 <= 65535
}

proof fn lemma_properties_are_checked(properties: Seq<PropertyModel>, interfaces: Set<u8>)
    requires
        properties_error(properties, interfaces) is None,
    ensures
        forall|k: int|
            0 <= k < properties.len() ==> property_declarable(
                #[trigger] properties[k],
                interfaces,
            ),
    decreases properties.len(),
{
    if properties.len() > 0 {
        let rest = properties.skip(1);
        lemma_properties_are_checked(rest, interfaces);
        let first = properties[0];
        assert(property_error(first, interfaces) is None);
        assert(property_name(first.name).len() == encode_utf16(first.name).len() + 1);
        assert(property_declarable(first, interfaces)) by {
            assert forall|i: int| 0 <= i < first.name.len() implies #[trigger] first.name[i]
                != '\0' by {
                assert(first.name.contains(first.name[i]));
            }
        }
        assert forall|k: int| 0 <= k < properties.len() implies property_declarable(
            #[trigger] properties[k],
            interfaces,
        ) by {
            if k > 0 {
                assert(properties[k] == rest[k - 1]);
            }
        }
    }
}

/// A property that can be declared is not refused for its interface or its name.
pub proof fn lemma_declarable_properties_are_taken(property: PropertyModel, interfaces: Set<u8>)
    requires
        property_declarable(property, interfaces),
        16 + 2 * encode_utf16(property.name).len() + property.data.len() <= usize::MAX,
    ensures
        property_error(property, interfaces) is None,
{
    assert(property_name(property.name).len() == encode_utf16(property.name).len() + 1);
    if property.name.contains('\0') {
        let i = choose|i: int| 0 <= i < property.name.len() && property.name[i] == '\0';
        assert(property.name[i] != '\0');
    }
}

/// Which texts are identifiers.
pub proof fn lemma_identifiers(value: Seq<char>)
    ensures
        identifier_valid(value) <==> value.len() <= 8 && forall|i: int|
            0 <= i < value.len() ==> 1 <= #[trigger] (value[i] as u32) <= 127,
{
}

/// The properties of some interfaces are counted one by one.
proof fn lemma_groups_are_counted(
    bytes: Seq<u8>,
    offset: int,
    count: nat,
    properties: Seq<PropertyModel>,
    groups: Seq<u8>,
)
    requires
        0 <= offset <= bytes.len() <= u32::MAX,
        bytes.subrange(offset, bytes.len() as int) == written_groups(properties, groups),
    ensures
        os_descriptor_count(bytes, offset, count) == Ok::<nat, ProjectionError>(
            count + groups.len(),
        ),
    decreases groups.len(),
{
    let tail = bytes.subrange(offset, bytes.len() as int);
    if groups.len() == 0 {
        assert(tail.len() == 0);
    } else {
        let first = written_group(properties, groups[0]);
        let rest = written_groups(properties, groups.skip(1));
        let own = written_properties(properties_of(properties, groups[0]));
        let length = low_word(11 + own.len());
        assert(tail == first + rest);
        assert(first.len() == 11 + own.len());
        assert(length == first.len());
        assert forall|i: int| 0 <= i < first.len() implies bytes[offset + i] == #[trigger] first[i] by {
            assert(tail[i] == bytes[offset + i]);
        }
        assert(bytes.subrange(offset + 1, offset + 5) =~= le32(length)) by {
            assert(first.subrange(1, 5) =~= le32(length));
            assert forall|i: int| 0 <= i < 4 implies bytes.subrange(offset + 1, offset + 5)[i]
                == le32(length)[i] by {
                assert(first[1 + i] == first.subrange(1, 5)[i]);
            }
        }
        lemma_word_in(bytes, offset + 1, length);
        let next = offset + first.len();
        assert(bytes.subrange(next, bytes.len() as int) =~= rest) by {
            assert forall|i: int| 0 <= i < rest.len() implies bytes.subrange(
                next,
                bytes.len() as int,
            )[i] == rest[i] by {
                assert(tail[first.len() + i] == bytes[next + i]);
            }
        }
        lemma_groups_are_counted(bytes, next, count + 1, properties, groups.skip(1));
    }
}

/// What Windows reads is counted: one descriptor for all compatible IDs, if there are any, and one
/// for each interface that has properties.
#[verifier::rlimit(60)]
pub proof fn lemma_windows_descriptors_are_counted(
    declaration: MicrosoftModel,
    interfaces: Set<u8>,
)
    requires
        os_descriptors(declaration, interfaces) is Ok,
        (os_descriptors(declaration, interfaces)->Ok_0).len() <= u32::MAX,
    ensures
        ({
            let bytes = os_descriptors(declaration, interfaces)->Ok_0;
            let numbers = property_interfaces(declaration.registry_properties);
            let ids: nat = if declaration.compatible_ids.len() == 0 {
                0
            } else {
                1
            };
            os_descriptor_count(bytes, 0, 0) == Ok::<nat, ProjectionError>(
                ids + ascending_bytes(numbers).len(),
            )
        }),
{
    let ids = declaration.compatible_ids;
    let properties = declaration.registry_properties;
    let bytes = os_descriptors(declaration, interfaces)->Ok_0;
    let section = compatible_id_section(ids, interfaces)->Ok_0;
    let order = ascending_bytes(property_interfaces(properties));
    lemma_groups_are_written(properties, order, section);
    if ids.len() == 0 {
        assert(section =~= seq![]);
        assert(bytes.subrange(0, bytes.len() as int) =~= written_groups(properties, order));
        lemma_groups_are_counted(bytes, 0, 0, properties, order);
    } else {
        lemma_windows_reads_the_ids(declaration, interfaces, 0);
        let head = os_header(ids[0].interface, (11 + 24 * ids.len()) as u32, 4, ids.len() as u16);
        lemma_features_are_written(ids, interfaces, Set::empty(), head);
        lemma_features_stand(ids, 0);
        let end = 11 + 24 * ids.len() as int;
        assert(section.len() == end);
        assert(bytes.subrange(end, bytes.len() as int) =~= written_groups(properties, order));
        lemma_groups_are_counted(bytes, end, 1, properties, order);
    }
}

} // verus!
