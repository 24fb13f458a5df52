//! What holds of native personalities: the supervisor takes them.

use crate::bytes::{le16, le16_at, lemma_le16_round_trip, lemma_le32_round_trip};
use crate::descriptor_laws::{
    addresses_fit, lemma_projection_passes_inspection, lemma_rewrite_appends,
    microsoft_acceptable, read_endpoints,
};
use crate::functionfs::{blobs_verdict, USB_DT_ENDPOINT, USB_DT_INTERFACE};
use crate::microsoft::{microsoft_projection, os_descriptor_count};
use crate::native::{
    ascending_interfaces, interface_numbers, lemma_ascending_interfaces, lemma_numbers_contain,
    native_configuration_bytes, native_endpoint_bytes, native_interface_bytes,
    native_interface_valid, native_interfaces_bytes, native_personality, native_strings,
    NativeDevice, NativeInterface, UgspPersonalityBuilder, NATIVE_LANGUAGE,
};
use crate::os_laws::{
    lemma_byte_stands, lemma_os_descriptors_are_taken, lemma_part_stands, stands_at,
};
use crate::personality::{MicrosoftModel, PersonalityModel};
use crate::projection_laws::{
    lemma_first_string_is_found, lemma_native_identity_reads_back,
    lemma_string_descriptor_reads_back,
};
use crate::sets::{ascending_bytes, lemma_ascending_bytes};
use crate::usb_personality::{
    configuration_error, descriptor_blob, device_error, discovered, distinct_strings,
    first_language, identity_of, nothing_rewritten, projected, rewrite, rewrite_descriptor,
    string_blob, text_of, text_run, webusb_projection, Endpoint, IdentityModel, ProjectionError,
    Rewritten,
};
use vstd::prelude::*;
use vstd::utf8::encode_utf8;

verus! {

/// Whether the bytes from `offset` on are whole descriptors, none of them of an interface or an
/// endpoint.
pub open spec fn plain_descriptors(bytes: Seq<u8>, offset: int) -> bool
    decreases bytes.len() - offset,
{
    if offset >= bytes.len() {
        offset == bytes.len()
    } else {
        &&& offset + 2 <= bytes.len()
        &&& 2 <= bytes[offset] <= bytes.len() - offset
        &&& bytes[offset + 1] != USB_DT_INTERFACE
        &&& bytes[offset + 1] != USB_DT_ENDPOINT
        &&& plain_descriptors(bytes, offset + bytes[offset])
    }
}

/// The text that a native device has under a string index.
pub open spec fn native_text(device: NativeDevice, index: u8) -> Seq<char> {
    if index == 1 {
        device.manufacturer@
    } else if index == 2 {
        device.product@
    } else if index == 3 {
        device.serial_number@
    } else {
        device.interface_name@
    }
}

/// Whether a string index of a native interface can be shown: it is zero or that of a text
/// without zero characters.
pub open spec fn index_presentable(device: NativeDevice, index: u8) -> bool {
    index == 0 || (index <= 4 && !native_text(device, index).contains('\0'))
}

/// Whether a native interface can be shown.
pub open spec fn interface_presentable(device: NativeDevice, interface: NativeInterface) -> bool {
    plain_descriptors(interface.class_descriptors@, 0) && index_presentable(
        device,
        interface.string_index,
    )
}

/// The endpoint of a native interface with this address.
pub open spec fn native_endpoint(interface: NativeInterface, address: u8) -> Endpoint {
    Endpoint {
        address,
        transfer_type: interface.transfer_type,
        max_packet_size: interface.max_packet_size,
    }
}

/// The endpoints of native interfaces, in the order of their descriptors.
pub open spec fn native_endpoints(interfaces: Seq<NativeInterface>) -> Seq<Endpoint>
    decreases interfaces.len(),
{
    if interfaces.len() == 0 {
        seq![]
    } else {
        native_endpoints(interfaces.drop_last()) + seq![
            native_endpoint(interfaces.last(), interfaces.last().endpoint_in),
            native_endpoint(interfaces.last(), interfaces.last().endpoint_out),
        ]
    }
}

/// Reading a whole descriptor goes on behind it.
proof fn lemma_one_descriptor(bytes: Seq<u8>, offset: int, descriptor: Seq<u8>, state: Rewritten)
    requires
        stands_at(bytes, offset, descriptor),
        2 <= descriptor.len() <= 255,
        descriptor[0] == descriptor.len(),
        rewrite_descriptor(state, descriptor) is Ok,
    ensures
        rewrite(bytes, offset, state) == rewrite(
            bytes,
            offset + descriptor.len(),
            rewrite_descriptor(state, descriptor)->Ok_0,
        ),
{
    lemma_byte_stands(bytes, offset, descriptor, 0);
}

/// How much plain descriptors add to the number of descriptors.
spec fn plain_count(bytes: Seq<u8>, offset: int) -> nat
    decreases bytes.len() - offset,
{
    if offset >= bytes.len() || !(2 <= bytes[offset] <= bytes.len() - offset) {
        0
    } else {
        1 + plain_count(bytes, offset + bytes[offset])
    }
}

/// Reading plain descriptors changes nothing but the body and the number of descriptors.
proof fn lemma_plain_descriptors(
    bytes: Seq<u8>,
    base: int,
    plain: Seq<u8>,
    offset: int,
    state: Rewritten,
)
    requires
        0 <= offset <= plain.len(),
        stands_at(bytes, base, plain),
        plain_descriptors(plain, offset),
    ensures
        rewrite(bytes, base + offset, state) == rewrite(
            bytes,
            base + plain.len(),
            Rewritten {
                body: state.body + plain.skip(offset),
                count: state.count + plain_count(plain, offset),
                ..state
            },
        ),
    decreases plain.len() - offset,
{
    if offset >= plain.len() {
        assert(state.body + plain.skip(offset) =~= state.body);
    } else {
        let length = plain[offset] as int;
        let descriptor = plain.subrange(offset, offset + length);
        lemma_part_stands(bytes, base, plain, offset, descriptor);
        let next = rewrite_descriptor(state, descriptor)->Ok_0;
        lemma_one_descriptor(bytes, base + offset, descriptor, state);
        lemma_plain_descriptors(bytes, base, plain, offset + length, next);
        assert(next.body + plain.skip(offset + length) =~= state.body + plain.skip(offset));
    }
}

/// What has been read after some native interfaces.
spec fn read_so_far(
    device: NativeDevice,
    interfaces: Seq<NativeInterface>,
    state: Rewritten,
) -> bool {
    &&& state.endpoints == native_endpoints(interfaces)
    &&& state.interfaces == interface_numbers(interfaces)
    &&& state.originals.len() <= interfaces.len()
    &&& forall|i: int|
        0 <= i < state.originals.len() ==> (#[trigger] state.originals[i]) != 0
            && index_presentable(device, state.originals[i])
}

/// The first descriptor of a native interface.
spec fn interface_head(interface: NativeInterface) -> Seq<u8> {
    seq![
        9u8,
        4,
        interface.number,
        0,
        2,
        interface.class_code,
        interface.subclass,
        interface.protocol,
        interface.string_index,
    ]
}

/// Where the parts of a native interface stand.
proof fn lemma_interface_parts(bytes: Seq<u8>, offset: int, interface: NativeInterface)
    requires
        stands_at(bytes, offset, native_interface_bytes(interface)),
    ensures
        ({
            let plain = interface.class_descriptors@;
            let first = native_endpoint_bytes(interface, interface.endpoint_in);
            let second = native_endpoint_bytes(interface, interface.endpoint_out);
            &&& stands_at(bytes, offset, interface_head(interface))
            &&& stands_at(bytes, offset + 9, plain)
            &&& stands_at(bytes, offset + 9 + plain.len(), first)
            &&& stands_at(bytes, offset + 16 + plain.len(), second)
            &&& native_interface_bytes(interface).len() == 23 + plain.len()
        }),
{
    let plain = interface.class_descriptors@;
    let whole = native_interface_bytes(interface);
    let head = interface_head(interface);
    let first = native_endpoint_bytes(interface, interface.endpoint_in);
    let second = native_endpoint_bytes(interface, interface.endpoint_out);
    lemma_le16_round_trip(interface.max_packet_size);
    assert(first.len() == 7 && second.len() == 7);
    assert(whole.subrange(0, 9) =~= head);
    assert(whole.subrange(9, 9 + plain.len() as int) =~= plain);
    assert(whole.subrange(9 + plain.len() as int, 16 + plain.len() as int) =~= first);
    assert(whole.subrange(16 + plain.len() as int, 23 + plain.len() as int) =~= second);
    lemma_part_stands(bytes, offset, whole, 0, head);
    lemma_part_stands(bytes, offset, whole, 9, plain);
    lemma_part_stands(bytes, offset, whole, 9 + plain.len() as int, first);
    lemma_part_stands(bytes, offset, whole, 16 + plain.len() as int, second);
}

/// What reading an endpoint of a native interface adds.
proof fn lemma_endpoint_descriptor(interface: NativeInterface, address: u8, state: Rewritten)
    requires
        interface.transfer_type <= 3,
    ensures
        ({
            let descriptor = native_endpoint_bytes(interface, address);
            let next = rewrite_descriptor(state, descriptor);
            &&& descriptor.len() == 7 && descriptor[0] == 7
            &&& next is Ok
            &&& next->Ok_0.endpoints == state.endpoints.push(native_endpoint(interface, address))
            &&& next->Ok_0.originals == state.originals
            &&& next->Ok_0.interfaces == state.interfaces
        }),
{
    let descriptor = native_endpoint_bytes(interface, address);
    let kind = interface.transfer_type;
    assert(kind & 0x03 == kind) by (bit_vector)
        requires
            kind <= 3,
    ;
    lemma_le16_round_trip(interface.max_packet_size);
    assert(descriptor.subrange(4, 6) =~= le16(interface.max_packet_size));
    assert(le16_at(descriptor, 4) == le16_at(descriptor.subrange(4, 6), 0));
}

/// Reading one more native interface.
proof fn lemma_one_interface(
    device: NativeDevice,
    before: Seq<NativeInterface>,
    interface: NativeInterface,
    bytes: Seq<u8>,
    offset: int,
    state: Rewritten,
) -> (next: Rewritten)
    requires
        stands_at(bytes, offset, native_interface_bytes(interface)),
        native_interface_valid(interface),
        interface_presentable(device, interface),
        read_so_far(device, before, state),
        before.len() < 255,
    ensures
        read_so_far(device, before.push(interface), next),
        rewrite(bytes, offset, state) == rewrite(
            bytes,
            offset + native_interface_bytes(interface).len(),
            next,
        ),
{
    let plain = interface.class_descriptors@;
    let head = interface_head(interface);
    let first = native_endpoint_bytes(interface, interface.endpoint_in);
    let second = native_endpoint_bytes(interface, interface.endpoint_out);
    lemma_interface_parts(bytes, offset, interface);
    let named = rewrite_descriptor(state, head)->Ok_0;
    lemma_one_descriptor(bytes, offset, head, state);
    lemma_plain_descriptors(bytes, offset + 9, plain, 0, named);
    let classed = Rewritten {
        body: named.body + plain.skip(0),
        count: named.count + plain_count(plain, 0),
        ..named
    };
    lemma_endpoint_descriptor(interface, interface.endpoint_in, classed);
    lemma_one_descriptor(bytes, offset + 9 + plain.len(), first, classed);
    let half = rewrite_descriptor(classed, first)->Ok_0;
    lemma_endpoint_descriptor(interface, interface.endpoint_out, half);
    lemma_one_descriptor(bytes, offset + 16 + plain.len(), second, half);
    let next = rewrite_descriptor(half, second)->Ok_0;
    let after = before.push(interface);
    assert(after.drop_last() =~= before);
    assert(next.endpoints =~= native_endpoints(after));
    assert(next.interfaces =~= interface_numbers(after)) by {
        assert forall|number: u8| next.interfaces.contains(number) <==> interface_numbers(
            after,
        ).contains(number) by {
            lemma_numbers_contain(before, number);
            lemma_numbers_contain(after, number);
            if interface_numbers(before).contains(number) {
                let i = choose|i: int| 0 <= i < before.len() && before[i].number == number;
                assert(after[i].number == number);
            }
            assert(after[before.len() as int].number == interface.number);
            if interface_numbers(after).contains(number) && number != interface.number {
                let i = choose|i: int| 0 <= i < after.len() && after[i].number == number;
                assert(before[i].number == number);
            }
        }
    }
    assert forall|i: int| 0 <= i < next.originals.len() implies (#[trigger] next.originals[i]) != 0
        && index_presentable(device, next.originals[i]) by {
        if i < state.originals.len() {
            assert(next.originals[i] == state.originals[i]);
        }
    }
    next
}

/// Reading native interfaces succeeds.
proof fn lemma_all_interfaces(
    device: NativeDevice,
    interfaces: Seq<NativeInterface>,
    done: int,
    state: Rewritten,
)
    requires
        0 <= done <= interfaces.len() <= 255,
        forall|i: int|
            0 <= i < interfaces.len() ==> native_interface_valid(#[trigger] interfaces[i])
                && interface_presentable(device, interfaces[i]),
        read_so_far(device, interfaces.take(done), state),
    ensures
        ({
            let bytes = native_interfaces_bytes(interfaces);
            let offset = native_interfaces_bytes(interfaces.take(done)).len() as int;
            &&& rewrite(bytes, offset, state) is Ok
            &&& read_so_far(device, interfaces, rewrite(bytes, offset, state)->Ok_0)
        }),
    decreases interfaces.len() - done,
{
    let bytes = native_interfaces_bytes(interfaces);
    let front = interfaces.take(done);
    let offset = native_interfaces_bytes(front).len() as int;
    if done == interfaces.len() {
        assert(front =~= interfaces);
    } else {
        let interface = interfaces[done];
        let longer = interfaces.take(done + 1);
        lemma_interface_stands(interfaces, done);
        let next = lemma_one_interface(device, front, interface, bytes, offset, state);
        assert(front.push(interface) =~= longer);
        assert(longer.drop_last() =~= front);
        lemma_all_interfaces(device, interfaces, done + 1, next);
    }
}

/// Each native interface stands behind those before it.
proof fn lemma_interface_stands(interfaces: Seq<NativeInterface>, at: int)
    requires
        0 <= at < interfaces.len(),
    ensures
        stands_at(
            native_interfaces_bytes(interfaces),
            native_interfaces_bytes(interfaces.take(at)).len() as int,
            native_interface_bytes(interfaces[at]),
        ),
    decreases interfaces.len(),
{
    let bytes = native_interfaces_bytes(interfaces);
    let init = interfaces.drop_last();
    let part = native_interface_bytes(interfaces[at]);
    let offset = native_interfaces_bytes(interfaces.take(at)).len() as int;
    if at == interfaces.len() - 1 {
        assert(interfaces.take(at) =~= init);
        assert(bytes.subrange(offset, offset + part.len()) =~= part);
    } else {
        lemma_interface_stands(init, at);
        assert(init.take(at) =~= interfaces.take(at));
        let shorter = native_interfaces_bytes(init);
        assert(bytes.subrange(0, shorter.len() as int) =~= shorter);
        assert(bytes.subrange(offset, offset + part.len()) =~= shorter.subrange(
            offset,
            offset + part.len(),
        ));
    }
}

/// The texts of a native device read back from its strings.
proof fn lemma_native_text(builder: UgspPersonalityBuilder, index: u8)
    requires
        native_personality(builder) is Ok,
        1 <= index <= 4,
    ensures
        text_of(native_strings(builder.device), index, NATIVE_LANGUAGE) == Ok::<
            Seq<char>,
            ProjectionError,
        >(native_text(builder.device, index)),
{
    let strings = native_strings(builder.device);
    lemma_first_string_is_found(strings, index, NATIVE_LANGUAGE, index as int);
    lemma_string_descriptor_reads_back(
        strings,
        index,
        NATIVE_LANGUAGE,
        native_text(builder.device, index),
    );
}

/// Texts that can be shown can be written.
proof fn lemma_texts_written(builder: UgspPersonalityBuilder, indices: Seq<u8>, out: Seq<u8>)
    requires
        native_personality(builder) is Ok,
        forall|i: int|
            0 <= i < indices.len() ==> (#[trigger] indices[i]) != 0 && index_presentable(
                builder.device,
                indices[i],
            ),
    ensures
        text_run(native_strings(builder.device), NATIVE_LANGUAGE, indices, out) is Ok,
    decreases indices.len(),
{
    if indices.len() > 0 {
        let rest = indices.skip(1);
        assert(indices[0] != 0);
        lemma_native_text(builder, indices[0]);
        assert forall|i: int| 0 <= i < rest.len() implies (#[trigger] rest[i]) != 0
            && index_presentable(builder.device, rest[i]) by {
            assert(rest[i] == indices[i + 1]);
        }
        let text = native_text(builder.device, indices[0]);
        lemma_texts_written(builder, rest, out + encode_utf8(text) + seq![0u8]);
    }
}

/// Whether the supervisor can show what a native builder was told: its interfaces, its endpoints
/// and its capabilities.
pub open spec fn builder_presentable(builder: UgspPersonalityBuilder) -> bool {
    let interfaces = builder.interfaces@;
    let personality = native_personality(builder)->Ok_0;
    let microsoft = microsoft_projection(personality.microsoft, interface_numbers(interfaces));
    &&& forall|i: int|
        0 <= i < interfaces.len() ==> interface_presentable(
            builder.device,
            #[trigger] interfaces[i],
        )
    &&& addresses_fit(native_endpoints(ascending_interfaces(interfaces)), Set::empty())
    &&& microsoft is Ok
    &&& microsoft->Ok_0.1.len() <= u32::MAX - 65556
    &&& microsoft_acceptable(personality.microsoft)
    &&& webusb_projection(personality.webusb, builder.device.usb_version) is Ok
}

/// Reading the configuration of a native personality succeeds.
proof fn lemma_native_rewrite(builder: UgspPersonalityBuilder)
    requires
        native_personality(builder) is Ok,
        builder_presentable(builder),
    ensures
        ({
            let sorted = ascending_interfaces(builder.interfaces@);
            let body = native_interfaces_bytes(sorted);
            let outcome = rewrite(body, 0, nothing_rewritten());
            &&& outcome is Ok
            &&& read_so_far(builder.device, sorted, outcome->Ok_0)
            &&& interface_numbers(sorted) == interface_numbers(builder.interfaces@)
            &&& sorted.len() <= 255
        }),
{
    let interfaces = builder.interfaces@;
    let sorted = ascending_interfaces(interfaces);
    lemma_ascending_interfaces(interfaces);
    lemma_sorted_length(interfaces);
    assert forall|i: int| 0 <= i < sorted.len() implies native_interface_valid(
        #[trigger] sorted[i],
    ) && interface_presentable(builder.device, sorted[i]) by {
        assert(interfaces.contains(sorted[i]));
        let k = choose|k: int| 0 <= k < interfaces.len() && interfaces[k] == sorted[i];
        assert(interface_presentable(builder.device, interfaces[k]));
        assert(native_interface_valid(interfaces[k]));
    }
    assert(sorted.take(0) =~= seq![]);
    assert(interface_numbers(sorted.take(0)) =~= Set::<u8>::empty());
    assert(native_endpoints(sorted.take(0)) =~= seq![]);
    lemma_all_interfaces(builder.device, sorted, 0, nothing_rewritten());
    assert(interface_numbers(sorted) =~= interface_numbers(interfaces)) by {
        assert forall|number: u8| interface_numbers(sorted).contains(number)
            <==> interface_numbers(interfaces).contains(number) by {
            lemma_numbers_contain(sorted, number);
            lemma_numbers_contain(interfaces, number);
            if interface_numbers(sorted).contains(number) {
                let i = choose|i: int| 0 <= i < sorted.len() && sorted[i].number == number;
                assert(interfaces.contains(sorted[i]));
                let k = choose|k: int| 0 <= k < interfaces.len() && interfaces[k] == sorted[i];
                assert(interfaces[k].number == number);
            }
            if interface_numbers(interfaces).contains(number) {
                let i = choose|i: int| 0 <= i < interfaces.len() && interfaces[i].number == number;
                assert(sorted.contains(interfaces[i]));
                let k = choose|k: int| 0 <= k < sorted.len() && sorted[k] == interfaces[i];
                assert(sorted[k].number == number);
            }
        }
    }
}

/// Sorting interfaces does not make more of them.
proof fn lemma_sorted_length(interfaces: Seq<NativeInterface>)
    ensures
        ascending_interfaces(interfaces).len() <= interfaces.len(),
{
    let numbers = interfaces.map_values(|interface: NativeInterface| interface.number);
    let set = interface_numbers(interfaces);
    let ordered = ascending_bytes(set);
    lemma_ascending_bytes(set);
    assert(ordered.no_duplicates());
    assert(ordered.to_set() =~= set);
    ordered.unique_seq_to_set();
    numbers.lemma_cardinality_of_set();
}

/// The supervisor takes the personality of a native builder that was told what can be shown: it
/// shows the builder's endpoints by ascending interface, and FunctionFS reads just those.
pub proof fn lemma_native_personality_is_taken(builder: UgspPersonalityBuilder)
    requires
        native_personality(builder) is Ok,
        builder_presentable(builder),
    ensures
        ({
            let personality = native_personality(builder)->Ok_0;
            let endpoints = native_endpoints(ascending_interfaces(builder.interfaces@));
            &&& discovered(personality) is Ok
            &&& discovered(personality)->Ok_0.endpoints == endpoints
            &&& blobs_verdict(
                discovered(personality)->Ok_0.descriptors,
                discovered(personality)->Ok_0.strings,
            ) is Ok
            &&& blobs_verdict(
                discovered(personality)->Ok_0.descriptors,
                discovered(personality)->Ok_0.strings,
            )->Ok_0.0 == read_endpoints(endpoints)
        }),
{
    let personality = native_personality(builder)->Ok_0;
    lemma_native_projection(builder);
    lemma_projection_passes_inspection(personality);
    assert(distinct_strings(personality.strings)) by {
        let strings = native_strings(builder.device);
        assert forall|i: int, j: int| 0 <= i < j < strings.len() implies !(strings[i].index
            == strings[j].index && strings[i].language_id == strings[j].language_id) by {
            assert(strings[i].index == i && strings[j].index == j);
        }
    }
}

/// A native personality that can be shown is projected.
#[verifier::rlimit(60)]
proof fn lemma_native_projection(builder: UgspPersonalityBuilder)
    requires
        native_personality(builder) is Ok,
        builder_presentable(builder),
    ensures
        projected(native_personality(builder)->Ok_0) is Ok,
        projected(native_personality(builder)->Ok_0)->Ok_0.endpoints == native_endpoints(
            ascending_interfaces(builder.interfaces@),
        ),
{
    let personality = native_personality(builder)->Ok_0;
    let body = native_interfaces_bytes(ascending_interfaces(builder.interfaces@));
    lemma_native_identity_reads_back(builder);
    lemma_native_rewrite(builder);
    let read = rewrite(body, 0, nothing_rewritten())->Ok_0;
    lemma_native_configuration(builder);
    lemma_texts_written(builder, read.originals, le16(NATIVE_LANGUAGE));
    lemma_texts_written(builder, read.originals, seq![]);
    lemma_native_blob(builder);
    let identity = identity_of(personality.device, personality.strings, NATIVE_LANGUAGE)->Ok_0;
    lemma_projected_parts(
        personality,
        identity,
        NATIVE_LANGUAGE,
        read,
        interface_numbers(builder.interfaces@),
    );
}

/// A configuration is projected where each of its parts is.
proof fn lemma_projected_parts(
    bundle: PersonalityModel,
    identity: IdentityModel,
    language: u16,
    read: Rewritten,
    numbers: Set<u8>,
)
    requires
        device_error(bundle.device) is None,
        first_language(bundle.strings) == Ok::<u16, ProjectionError>(language),
        identity_of(bundle.device, bundle.strings, language) == Ok::<
            IdentityModel,
            ProjectionError,
        >(identity),
        configuration_error(bundle.configuration) is None,
        rewrite(bundle.configuration.skip(9), 0, nothing_rewritten()) == Ok::<
            Rewritten,
            ProjectionError,
        >(read),
        read.interfaces == numbers,
        text_run(
            bundle.strings,
            language,
            read.originals,
            if read.originals.len() == 0 {
                seq![]
            } else {
                le16(language)
            },
        ) is Ok,
        microsoft_projection(bundle.microsoft, numbers) is Ok,
        webusb_projection(bundle.webusb, identity.bcd_usb) is Ok,
        descriptor_blob(
            read.count,
            read.body,
            microsoft_projection(bundle.microsoft, numbers)->Ok_0.1,
        ) is Ok,
    ensures
        projected(bundle) is Ok,
        projected(bundle)->Ok_0.endpoints == read.endpoints,
{
    assert(string_blob(bundle.strings, language, read.originals) is Ok);
}

/// The frames of a native personality are valid.
proof fn lemma_native_configuration(builder: UgspPersonalityBuilder)
    requires
        native_personality(builder) is Ok,
    ensures
        ({
            let personality = native_personality(builder)->Ok_0;
            let body = native_interfaces_bytes(ascending_interfaces(builder.interfaces@));
            &&& device_error(personality.device) is None
            &&& configuration_error(personality.configuration) is None
            &&& personality.configuration.skip(9) == body
            &&& personality.configuration.len() <= 65535
        }),
{
    let personality = native_personality(builder)->Ok_0;
    let configuration = native_configuration_bytes(builder.interfaces@);
    let body = native_interfaces_bytes(ascending_interfaces(builder.interfaces@));
    let total = (9 + body.len()) as u16;
    lemma_le16_round_trip(total);
    lemma_le16_round_trip(builder.device.usb_version);
    lemma_le16_round_trip(builder.device.vendor_id);
    lemma_le16_round_trip(builder.device.product_id);
    lemma_le16_round_trip(builder.device.device_version);
    assert(configuration.subrange(2, 4) =~= le16(total));
    assert(le16_at(configuration, 2) == le16_at(configuration.subrange(2, 4), 0));
    assert(configuration.skip(9) =~= body);
    assert(personality.device.len() == 18);
}

/// The descriptor blob of a native personality can be written.
proof fn lemma_native_blob(builder: UgspPersonalityBuilder)
    requires
        native_personality(builder) is Ok,
        builder_presentable(builder),
    ensures
        ({
            let body = native_interfaces_bytes(ascending_interfaces(builder.interfaces@));
            let read = rewrite(body, 0, nothing_rewritten())->Ok_0;
            let microsoft = microsoft_projection(
                native_personality(builder)->Ok_0.microsoft,
                interface_numbers(builder.interfaces@),
            );
            descriptor_blob(read.count, read.body, microsoft->Ok_0.1) is Ok
        }),
{
    let personality = native_personality(builder)->Ok_0;
    let numbers = interface_numbers(builder.interfaces@);
    let body = native_interfaces_bytes(ascending_interfaces(builder.interfaces@));
    let read = rewrite(body, 0, nothing_rewritten())->Ok_0;
    lemma_native_rewrite(builder);
    lemma_native_configuration(builder);
    lemma_rewrite_appends(body, 0, nothing_rewritten());
    lemma_declared_blob(personality.microsoft, numbers, read.count, read.body);
}

/// The descriptor blob of a short configuration can be written with what a personality declares
/// for Windows.
proof fn lemma_declared_blob(
    microsoft: Option<MicrosoftModel>,
    numbers: Set<u8>,
    count: nat,
    body: Seq<u8>,
)
    requires
        microsoft_projection(microsoft, numbers) is Ok,
        microsoft_projection(microsoft, numbers)->Ok_0.1.len() <= u32::MAX - 65556,
        microsoft_acceptable(microsoft),
        body.len() <= 65535,
    ensures
        descriptor_blob(count, body, microsoft_projection(microsoft, numbers)->Ok_0.1) is Ok,
{
    let os = microsoft_projection(microsoft, numbers)->Ok_0.1;
    match microsoft {
        None => {
            assert(os =~= seq![]);
        },
        Some(declaration) => {
            assert(os.subrange(0, os.len() as int) =~= os);
            lemma_os_descriptors_are_taken(declaration, numbers, os, 0);
        },
    }
    lemma_le32_round_trip(count as u32);
    lemma_le32_round_trip(os_descriptor_count(os, 0, 0)->Ok_0 as u32);
}

} // verus!
