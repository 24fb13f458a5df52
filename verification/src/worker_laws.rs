//! What a native worker declares, byte for byte.

use crate::bytes::{le16, lemma_le16_round_trip};
use crate::native::{
    ascending_interfaces, compatible_id_added, lemma_words_bytes_len, native_endpoint_bytes,
    native_interface_bytes, native_interface_valid, native_interfaces_bytes, native_personality,
    string_descriptor_bytes, string_fits, words_bytes, NativeInterface, UgspPersonalityBuilder,
};
use crate::personality::{
    microsoft_view, webusb_view, CompatibleIdModel, MicrosoftModel, PersonalityError,
};
use crate::picture_laws::holds_text;
use crate::projection_laws::lemma_words_in_bytes;
use crate::text::encode_utf16;
use vstd::prelude::*;

verus! {

/// The device descriptor of a native worker has the fields of the device, one configuration, and
/// the strings one, two and three.
pub proof fn lemma_native_device_bytes(builder: UgspPersonalityBuilder)
    requires
        native_personality(builder) is Ok,
    ensures
        ({
            let bytes = (native_personality(builder)->Ok_0).device;
            let device = builder.device;
            &&& bytes.len() == 18
            &&& bytes[0] == 18 && bytes[1] == 1
            &&& bytes[2] + 256 * bytes[3] == device.usb_version
            &&& bytes[4] == device.device_class
            &&& bytes[5] == device.device_subclass
            &&& bytes[6] == device.device_protocol
            &&& bytes[7] == device.max_packet_size_0
            &&& bytes[8] + 256 * bytes[9] == device.vendor_id
            &&& bytes[10] + 256 * bytes[11] == device.product_id
            &&& bytes[12] + 256 * bytes[13] == device.device_version
            &&& bytes[14] == 1 && bytes[15] == 2 && bytes[16] == 3 && bytes[17] == 1
        }),
{
    let bytes = (native_personality(builder)->Ok_0).device;
    let device = builder.device;
    lemma_le16_round_trip(device.usb_version);
    assert(bytes[2] == le16(device.usb_version)[0] && bytes[3] == le16(device.usb_version)[1]);
    assert(bytes[8] == le16(device.vendor_id)[0] && bytes[9] == le16(device.vendor_id)[1]);
    assert(bytes[10] == le16(device.product_id)[0] && bytes[11] == le16(device.product_id)[1]);
    assert(bytes[12] == le16(device.device_version)[0] && bytes[13] == le16(
        device.device_version,
    )[1]);
}

/// Where the interface at a position begins in the configuration of a native worker.
pub open spec fn interface_begins(interfaces: Seq<NativeInterface>, i: int) -> int
    decreases i,
{
    if i <= 0 {
        9
    } else {
        interface_begins(interfaces, i - 1) + 23 + interfaces[i - 1].class_descriptors@.len()
    }
}

/// Whether an endpoint of a native interface stands at a position.
pub open spec fn endpoint_at(bytes: Seq<u8>, at: int, interface: NativeInterface, address: u8) -> bool {
    &&& bytes[at] == 7 && bytes[at + 1] == 5
    &&& bytes[at + 2] == address
    &&& bytes[at + 3] == interface.transfer_type
    &&& bytes[at + 4] + 256 * bytes[at + 5] == interface.max_packet_size
    &&& bytes[at + 6] == interface.interval
}

/// Whether a native interface stands at a position: its descriptor, its class descriptors, its
/// endpoint to the host and its endpoint from the host.
pub open spec fn interface_at(bytes: Seq<u8>, at: int, interface: NativeInterface) -> bool {
    let class = interface.class_descriptors@;
    let behind = at + 9 + class.len();
    &&& at + 23 + class.len() <= bytes.len()
    &&& bytes[at] == 9 && bytes[at + 1] == 4
    &&& bytes[at + 2] == interface.number
    &&& bytes[at + 3] == 0 && bytes[at + 4] == 2
    &&& bytes[at + 5] == interface.class_code
    &&& bytes[at + 6] == interface.subclass
    &&& bytes[at + 7] == interface.protocol
    &&& bytes[at + 8] == interface.string_index
    &&& bytes.subrange(at + 9, behind) == class
    &&& endpoint_at(bytes, behind, interface, interface.endpoint_in)
    &&& endpoint_at(bytes, behind + 7, interface, interface.endpoint_out)
}

proof fn lemma_interface_bytes(interface: NativeInterface)
    ensures
        native_interface_bytes(interface).len() == 23 + interface.class_descriptors@.len(),
        interface_at(native_interface_bytes(interface), 0, interface),
{
    let bytes = native_interface_bytes(interface);
    let class = interface.class_descriptors@;
    let first = native_endpoint_bytes(interface, interface.endpoint_in);
    let second = native_endpoint_bytes(interface, interface.endpoint_out);
    let behind = 9 + class.len() as int;
    lemma_le16_round_trip(interface.max_packet_size);
    assert(first.len() == 7 && second.len() == 7);
    assert(bytes.subrange(9, behind) =~= class);
    assert(endpoint_at(first, 0, interface, interface.endpoint_in));
    assert(endpoint_at(second, 0, interface, interface.endpoint_out));
    assert forall|j: int| 0 <= j < 7 implies bytes[behind + j] == #[trigger] first[j] by {}
    assert forall|j: int| 0 <= j < 7 implies bytes[behind + 7 + j] == #[trigger] second[j] by {}
    assert(bytes[behind + 0] == first[0] && bytes[behind + 1] == first[1] && bytes[behind + 2]
        == first[2] && bytes[behind + 3] == first[3] && bytes[behind + 4] == first[4]
        && bytes[behind + 5] == first[5] && bytes[behind + 6] == first[6]);
    assert(bytes[behind + 7 + 0] == second[0] && bytes[behind + 7 + 1] == second[1]
        && bytes[behind + 7 + 2] == second[2] && bytes[behind + 7 + 3] == second[3]
        && bytes[behind + 7 + 4] == second[4] && bytes[behind + 7 + 5] == second[5]
        && bytes[behind + 7 + 6] == second[6]);
}

proof fn lemma_interface_moves(
    from: Seq<u8>,
    at: int,
    to: Seq<u8>,
    there: int,
    interface: NativeInterface,
)
    requires
        interface_at(from, at, interface),
        0 <= at,
        0 <= there,
        there + 23 + interface.class_descriptors@.len() <= to.len(),
        forall|j: int|
            0 <= j < 23 + interface.class_descriptors@.len() ==> #[trigger] to[there + j]
                == from[at + j],
    ensures
        interface_at(to, there, interface),
{
    let n = interface.class_descriptors@.len() as int;
    let behind = at + 9 + n;
    let beyond = there + 9 + n;
    assert(to[there + 0] == from[at + 0] && to[there + 1] == from[at + 1] && to[there + 2]
        == from[at + 2] && to[there + 3] == from[at + 3] && to[there + 4] == from[at + 4]
        && to[there + 5] == from[at + 5] && to[there + 6] == from[at + 6] && to[there + 7]
        == from[at + 7] && to[there + 8] == from[at + 8]);
    assert(to.subrange(there + 9, beyond) =~= from.subrange(at + 9, behind)) by {
        let left = to.subrange(there + 9, beyond);
        let right = from.subrange(at + 9, behind);
        assert forall|j: int| 0 <= j < n implies #[trigger] left[j] == right[j] by {
            assert(to[there + (9 + j)] == from[at + (9 + j)]);
        }
    }
    assert forall|j: int| 0 <= j < 14 implies to[beyond + j] == #[trigger] from[behind + j] by {
        assert(to[there + (9 + n + j)] == from[at + (9 + n + j)]);
    }
    assert(to[beyond + 0] == from[behind + 0] && to[beyond + 1] == from[behind + 1] && to[beyond
        + 2] == from[behind + 2] && to[beyond + 3] == from[behind + 3] && to[beyond + 4]
        == from[behind + 4] && to[beyond + 5] == from[behind + 5] && to[beyond + 6] == from[behind
        + 6]);
    assert(to[beyond + 7] == from[behind + 7] && to[beyond + 8] == from[behind + 8] && to[beyond
        + 9] == from[behind + 9] && to[beyond + 10] == from[behind + 10] && to[beyond + 11]
        == from[behind + 11] && to[beyond + 12] == from[behind + 12] && to[beyond + 13]
        == from[behind + 13]);
}

proof fn lemma_interfaces_stand(interfaces: Seq<NativeInterface>, i: int)
    requires
        0 <= i < interfaces.len(),
    ensures
        interface_begins(interfaces, i) >= 9,
        interface_at(
            native_interfaces_bytes(interfaces),
            interface_begins(interfaces, i) - 9,
            interfaces[i],
        ),
    decreases interfaces.len(),
{
    let init = interfaces.drop_last();
    let last = interfaces.last();
    let head = native_interfaces_bytes(init);
    let whole = native_interfaces_bytes(interfaces);
    lemma_interfaces_len(init);
    lemma_begins_agree(init, interfaces, init.len() as int);
    lemma_begins_agree(init, interfaces, i);
    lemma_interface_bytes(last);
    assert(whole == head + native_interface_bytes(last));
    let at = interface_begins(interfaces, i) - 9;
    if i < init.len() {
        lemma_interfaces_stand(init, i);
        lemma_interface_moves(head, at, whole, at, interfaces[i]);
    } else {
        lemma_interface_moves(native_interface_bytes(last), 0, whole, at, last);
    }
}

proof fn lemma_begins_agree(a: Seq<NativeInterface>, b: Seq<NativeInterface>, i: int)
    requires
        0 <= i <= a.len(),
        i <= b.len(),
        forall|k: int| 0 <= k < i ==> a[k] == b[k],
    ensures
        interface_begins(a, i) == interface_begins(b, i),
        interface_begins(a, i) >= 9,
    decreases i,
{
    if i > 0 {
        lemma_begins_agree(a, b, i - 1);
    }
}

proof fn lemma_interfaces_len(interfaces: Seq<NativeInterface>)
    ensures
        9 + native_interfaces_bytes(interfaces).len() == interface_begins(
            interfaces,
            interfaces.len() as int,
        ),
    decreases interfaces.len(),
{
    if interfaces.len() > 0 {
        let init = interfaces.drop_last();
        lemma_interfaces_len(init);
        lemma_begins_agree(init, interfaces, init.len() as int);
        lemma_interface_bytes(interfaces.last());
    }
}

/// The configuration of a native worker tells its own length and the number of its interfaces,
/// takes its power from the bus, a hundred milliamperes of it, and then has each interface, by
/// ascending number, with all its fields.
pub proof fn lemma_native_configuration_bytes(builder: UgspPersonalityBuilder, i: int)
    requires
        native_personality(builder) is Ok,
        0 <= i < ascending_interfaces(builder.interfaces@).len(),
    ensures
        ({
            let bytes = (native_personality(builder)->Ok_0).configuration;
            let sorted = ascending_interfaces(builder.interfaces@);
            &&& bytes.len() == interface_begins(sorted, sorted.len() as int)
            &&& bytes[0] == 9 && bytes[1] == 2
            &&& bytes[2] + 256 * bytes[3] == bytes.len()
            &&& bytes[4] == builder.interfaces@.len()
            &&& bytes[5] == 1 && bytes[6] == 0 && bytes[7] == 128 && bytes[8] == 50
            &&& interface_at(bytes, interface_begins(sorted, i), sorted[i])
        }),
{
    let bytes = (native_personality(builder)->Ok_0).configuration;
    let sorted = ascending_interfaces(builder.interfaces@);
    let body = native_interfaces_bytes(sorted);
    let length = (9 + body.len()) as u16;
    lemma_interfaces_len(sorted);
    lemma_interfaces_stand(sorted, i);
    lemma_le16_round_trip(length);
    assert(bytes[2] == le16(length)[0] && bytes[3] == le16(length)[1]);
    let at = interface_begins(sorted, i) - 9;
    lemma_interface_moves(body, at, bytes, at + 9, sorted[i]);
}

/// A native worker declares its speed, its capabilities, its language and its four texts.
pub proof fn lemma_native_texts(builder: UgspPersonalityBuilder)
    requires
        native_personality(builder) is Ok,
    ensures
        ({
            let made = native_personality(builder)->Ok_0;
            let strings = made.strings;
            let device = builder.device;
            &&& made.schema == 1
            &&& made.max_speed == builder.max_speed
            &&& made.microsoft == microsoft_view(builder.microsoft_os_1)
            &&& made.webusb == webusb_view(builder.webusb)
            &&& strings.len() == 5
            &&& strings[0].index == 0 && strings[0].language_id == 0
            &&& strings[0].descriptor == seq![4u8, 3, 9, 4]
            &&& forall|k: int|
                1 <= k < 5 ==> (#[trigger] strings[k]).index == k && strings[k].language_id == 1033
            &&& holds_text(strings[1].descriptor, device.manufacturer@)
            &&& holds_text(strings[2].descriptor, device.product@)
            &&& holds_text(strings[3].descriptor, device.serial_number@)
            &&& holds_text(strings[4].descriptor, device.interface_name@)
        }),
{
    let device = builder.device;
    lemma_descriptor_holds(device.manufacturer@);
    lemma_descriptor_holds(device.product@);
    lemma_descriptor_holds(device.serial_number@);
    lemma_descriptor_holds(device.interface_name@);
}

/// A string descriptor holds the text that it was made of.
pub proof fn lemma_descriptor_holds(text: Seq<char>)
    requires
        string_fits(text),
    ensures
        holds_text(string_descriptor_bytes(text), text),
        string_descriptor_bytes(text).len() == 2 + 2 * encode_utf16(text).len(),
{
    let units = encode_utf16(text);
    let bytes = string_descriptor_bytes(text);
    lemma_words_bytes_len(units);
    assert forall|j: int| 0 <= j < units.len() implies #[trigger] units[j] == bytes[2 + 2 * j] + 256
        * bytes[3 + 2 * j] by {
        lemma_words_in_bytes(units, j);
        lemma_le16_round_trip(units[j]);
        assert(bytes[2 + 2 * j] == words_bytes(units)[2 * j]);
        assert(bytes[2 + (2 * j + 1)] == words_bytes(units)[2 * j + 1]);
    }
}

/// Which native workers have a personality: those with one to 255 interfaces of different numbers,
/// whose endpoints run in their directions and can carry data, whose configuration has a length and
/// whose texts fit into descriptors.
pub proof fn lemma_native_workers_are_taken(builder: UgspPersonalityBuilder)
    ensures
        native_personality(builder) is Ok <==> {
            let interfaces = builder.interfaces@;
            let sorted = ascending_interfaces(interfaces);
            let device = builder.device;
            &&& 1 <= interfaces.len() <= 255
            &&& forall|i: int, j: int|
                0 <= i < j < interfaces.len() ==> interfaces[i].number != interfaces[j].number
            &&& forall|i: int|
                0 <= i < interfaces.len() ==> (#[trigger] interfaces[i]).endpoint_in >= 128
                    && interfaces[i].endpoint_out < 128 && interfaces[i].max_packet_size > 0
                    && interfaces[i].transfer_type <= 3
            &&& interface_begins(sorted, sorted.len() as int) <= 65535
            &&& encode_utf16(device.manufacturer@).len() <= 126
            &&& encode_utf16(device.product@).len() <= 126
            &&& encode_utf16(device.serial_number@).len() <= 126
            &&& encode_utf16(device.interface_name@).len() <= 126
        },
{
    let interfaces = builder.interfaces@;
    lemma_interfaces_len(ascending_interfaces(interfaces));
    assert forall|i: int| 0 <= i < interfaces.len() implies (native_interface_valid(
        #[trigger] interfaces[i],
    ) <==> interfaces[i].endpoint_in >= 128 && interfaces[i].endpoint_out < 128
        && interfaces[i].max_packet_size > 0 && interfaces[i].transfer_type <= 3) by {
        let inward = interfaces[i].endpoint_in;
        let outward = interfaces[i].endpoint_out;
        assert(inward & 0x80 != 0 <==> inward >= 128) by (bit_vector);
        assert(outward & 0x80 == 0 <==> outward < 128) by (bit_vector);
    }
}

/// A compatible ID is added behind the others of its declaration. The vendor code must not be zero
/// and stays that of the first; texts that could not be read are refused, and what was declared
/// stays.
pub proof fn lemma_compatible_ids_are_added(
    before: Option<MicrosoftModel>,
    vendor_code: u8,
    interface: u8,
    compatible_id: Option<Seq<char>>,
    sub_compatible_id: Option<Seq<char>>,
)
    ensures
        ({
            let (after, outcome) = compatible_id_added(
                before,
                vendor_code,
                interface,
                compatible_id,
                sub_compatible_id,
            );
            let ids = match before {
                None => seq![],
                Some(declared) => declared.compatible_ids,
            };
            let agrees = before matches Some(declared) ==> declared.vendor_code == vendor_code;
            &&& outcome is Ok <==> vendor_code != 0 && agrees && compatible_id is Some
                && sub_compatible_id is Some
            &&& outcome is Ok ==> {
                &&& after is Some
                &&& (after->0).vendor_code == vendor_code
                &&& (after->0).compatible_ids == ids.push(
                    CompatibleIdModel {
                        interface,
                        compatible_id: compatible_id->0,
                        sub_compatible_id: sub_compatible_id->0,
                    },
                )
                &&& before matches Some(declared) ==> (after->0).registry_properties
                    == declared.registry_properties
            }
            &&& outcome is Err && before is Some ==> after == before
            &&& vendor_code == 0 ==> after == before && outcome == Err::<(), PersonalityError>(
                PersonalityError::ZeroVendorCode,
            )
            &&& vendor_code != 0 && !agrees ==> outcome == Err::<(), PersonalityError>(
                PersonalityError::ConflictingVendorCodes,
            )
            &&& vendor_code != 0 && agrees && outcome is Err ==> outcome == Err::<
                (),
                PersonalityError,
            >(PersonalityError::InvalidText)
        }),
{
}

} // verus!
