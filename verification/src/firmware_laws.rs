//! Discovery of a firmware that answers by the descriptors of a personality.

use crate::bytes::{le16, le16_at, lemma_le16_round_trip};
use crate::capability_laws::{
    ids_descriptor, lemma_ids_descriptor_reads_back, lemma_other_capabilities_are_passed,
    lemma_properties_are_counted, lemma_properties_descriptor_reads_back, lemma_url_reads_back,
    lemma_webusb_is_found, lemma_words_read_back, other_capability, properties_descriptor,
    properties_in_turn, properties_of, url_descriptor, webusb_capability,
};
use crate::conversation::{
    after_bos, after_bos_header, after_compatible_ids, after_configuration,
    after_configuration_header, after_device, after_landing_page, after_languages, after_replies,
    after_reply, after_stall, after_text, ask_properties, ask_text, ask_webusb,
    concluded, descriptor_request, find_webusb, initial, leading_indices, next_request, survey,
    text_key, url_prefix, words_of, Capability, DiscoveryFault, DiscoveryModel, SetupPacket, Stage,
    MICROSOFT_STRING_INDEX, USB_DT_BOS, USB_REQ_GET_DESCRIPTOR, USB_REQ_SET_CONFIGURATION,
};
use crate::discovery::{
    answered, answers, conversation, ends_with, fails, lemma_text_position, DiscoveryError,
};
use crate::microsoft::{identifier_valid, property_count};
use crate::native::words_bytes;
use crate::os_laws::joined;
use crate::personality::{
    configuration_framed, device_framed, MicrosoftModel, PersonalityModel, StringModel, UsbPersonality,
    UsbSpeed, PERSONALITY_SCHEMA,
};
use crate::sets::{ascending_bytes, ascending_words};
use crate::text::{encode_utf16, lemma_utf16_round_trip};
use crate::usb_personality::{find_string, USB_DT_CONFIGURATION, USB_DT_DEVICE, USB_DT_STRING};
use vstd::prelude::*;
use vstd::utf8::encode_utf8;

verus! {

/// The first bytes of a descriptor, as many as a request asks for.
pub open spec fn clipped(descriptor: Seq<u8>, length: u16) -> Seq<u8> {
    if descriptor.len() <= length {
        descriptor
    } else {
        descriptor.take(length as int)
    }
}

/// A firmware: the personality that it declares, and how it declares what a host reads in more
/// than one way.
pub struct Firmware {
    pub personality: PersonalityModel,
    /// The device capabilities before that of WebUSB.
    pub capabilities_before: Seq<Seq<u8>>,
    /// The device capabilities behind that of WebUSB.
    pub capabilities_behind: Seq<Seq<u8>>,
    /// The number of the landing page, or zero where there is none.
    pub landing_index: u8,
    /// The scheme of the landing page's address.
    pub landing_scheme: u8,
    /// The landing page's address behind its scheme.
    pub landing_address: Seq<char>,
}

/// The device capabilities of a firmware, one behind the other.
pub open spec fn capabilities(firmware: Firmware) -> Seq<u8> {
    joined(firmware.capabilities_before) + (match firmware.personality.webusb {
        None => seq![],
        Some(webusb) => webusb_capability(webusb, firmware.landing_index),
    }) + joined(firmware.capabilities_behind)
}

/// The descriptor that holds the device capabilities of a firmware.
pub open spec fn capability_store(firmware: Firmware) -> Seq<u8> {
    let count = firmware.capabilities_before.len() + firmware.capabilities_behind.len() + (
    if firmware.personality.webusb is Some {
        1nat
    } else {
        0nat
    });
    seq![5u8, USB_DT_BOS] + le16((5 + capabilities(firmware).len()) as u16) + seq![count as u8]
        + capabilities(firmware)
}

/// How a firmware answers a standard request for a descriptor.
pub open spec fn standard_reply(firmware: Firmware, packet: SetupPacket) -> Option<Seq<u8>> {
    let kind = packet.value as int / 256;
    let index = (packet.value as int % 256) as u8;
    if kind == USB_DT_DEVICE {
        Some(clipped(firmware.personality.device, packet.length))
    } else if kind == USB_DT_CONFIGURATION {
        Some(clipped(firmware.personality.configuration, packet.length))
    } else if kind == USB_DT_STRING {
        match find_string(firmware.personality.strings, index, packet.index) {
            None => None,
            Some(descriptor) => Some(clipped(descriptor, packet.length)),
        }
    } else if kind == USB_DT_BOS && capabilities(firmware).len() > 0 {
        Some(clipped(capability_store(firmware), packet.length))
    } else {
        None
    }
}

/// How a firmware answers a request for its landing page.
pub open spec fn landing_reply(firmware: Firmware, packet: SetupPacket) -> Option<Seq<u8>> {
    match firmware.personality.webusb {
        None => None,
        Some(webusb) => if packet.request == webusb.vendor_code && packet.value
            == firmware.landing_index && firmware.landing_index != 0 {
            let descriptor = url_descriptor(firmware.landing_scheme, firmware.landing_address);
            Some(clipped(descriptor, packet.length))
        } else {
            None
        },
    }
}

/// How a firmware answers a request for its compatible IDs.
pub open spec fn ids_reply(firmware: Firmware, packet: SetupPacket) -> Option<Seq<u8>> {
    match firmware.personality.microsoft {
        None => None,
        Some(microsoft) => if packet.request == microsoft.vendor_code
            && microsoft.compatible_ids.len() > 0 {
            Some(clipped(ids_descriptor(microsoft.compatible_ids), packet.length))
        } else {
            None
        },
    }
}

/// How a firmware answers a request for the properties of an interface.
pub open spec fn properties_reply(firmware: Firmware, packet: SetupPacket) -> Option<Seq<u8>> {
    let interface = (packet.value as int % 256) as u8;
    match firmware.personality.microsoft {
        None => None,
        Some(microsoft) => if packet.request == microsoft.vendor_code && property_count(
            microsoft.registry_properties,
            interface,
        ) > 0 {
            let descriptor = properties_descriptor(microsoft.registry_properties, interface);
            Some(clipped(descriptor, packet.length))
        } else {
            None
        },
    }
}

/// How a firmware answers a request: it takes a configuration, and stalls whatever it has no
/// descriptor for.
pub open spec fn firmware_reply(firmware: Firmware, packet: SetupPacket) -> Option<Seq<u8>> {
    if packet.request_type == 0x80 && packet.request == USB_REQ_GET_DESCRIPTOR {
        standard_reply(firmware, packet)
    } else if packet.request_type == 0x00 && packet.request == USB_REQ_SET_CONFIGURATION {
        Some(seq![])
    } else if packet.request_type == 0xc0 && packet.index == 2 {
        landing_reply(firmware, packet)
    } else if packet.request_type == 0xc0 && packet.index == 4 {
        ids_reply(firmware, packet)
    } else if packet.request_type == 0xc1 && packet.index == 5 {
        properties_reply(firmware, packet)
    } else {
        None
    }
}

/// A conversation with a firmware after `steps` transfers.
pub open spec fn conversed(firmware: Firmware, speed: UsbSpeed, steps: nat) -> DiscoveryModel
    decreases steps,
{
    if steps == 0 {
        initial(speed)
    } else {
        let state = conversed(firmware, speed, (steps - 1) as nat);
        match next_request(state) {
            None => state,
            Some(packet) => after_reply(state, firmware_reply(firmware, packet)),
        }
    }
}

/// The language descriptor of a personality.
pub open spec fn language_descriptor(personality: PersonalityModel) -> Seq<u8> {
    find_string(personality.strings, 0, 0)->0
}

/// The languages of a firmware in ascending order.
pub open spec fn languages_of(personality: PersonalityModel) -> Seq<u16> {
    ascending_words(words_of(language_descriptor(personality).skip(2)))
}

/// The interface numbers and string indices that a firmware's descriptors use.
pub open spec fn surveyed(personality: PersonalityModel) -> Result<
    (Set<u8>, Set<u8>),
    DiscoveryFault,
> {
    survey(
        personality.configuration,
        9,
        Set::empty(),
        leading_indices(personality.device, personality.configuration),
    )
}

/// The string indices that a firmware's descriptors use, in ascending order.
pub open spec fn indices_of(personality: PersonalityModel) -> Seq<u8> {
    ascending_bytes(surveyed(personality)->Ok_0.1)
}

/// The interface numbers of a firmware in ascending order.
pub open spec fn interfaces_of(personality: PersonalityModel) -> Seq<u8> {
    ascending_bytes(surveyed(personality)->Ok_0.0)
}

/// Whether a descriptor can be answered in one transfer as a string.
pub open spec fn string_shaped(descriptor: Option<Seq<u8>>) -> bool {
    match descriptor {
        None => false,
        Some(bytes) => 2 <= bytes.len() <= 255 && bytes[1] == USB_DT_STRING,
    }
}

/// Whether a personality has every standard descriptor that a host asks for.
pub open spec fn standard_complete(personality: PersonalityModel) -> bool {
    let languages = language_descriptor(personality);
    &&& device_framed(personality.device)
    &&& personality.device[17] == 1
    &&& configuration_framed(personality.configuration)
    &&& surveyed(personality) is Ok
    &&& string_shaped(find_string(personality.strings, 0, 0))
    &&& languages.len() >= 4
    &&& languages.len() % 2 == 0
    &&& languages[0] == languages.len()
    &&& forall|i: int, j: int|
        0 <= i < indices_of(personality).len() && 0 <= j < languages_of(personality).len()
            ==> string_shaped(
            find_string(
                personality.strings,
                #[trigger] indices_of(personality)[i],
                #[trigger] languages_of(personality)[j],
            ),
        )
}

/// Whether a descriptor is the string by which a firmware says that it has Microsoft OS
/// descriptors.
pub open spec fn os_string_shaped(descriptor: Option<Seq<u8>>, vendor_code: u8) -> bool {
    match descriptor {
        None => false,
        Some(bytes) => {
            &&& 18 <= bytes.len() <= 255
            &&& bytes[1] == USB_DT_STRING
            &&& bytes.subrange(2, 16) == words_bytes(encode_utf16("MSFT100"@))
            &&& bytes[16] == vendor_code
        },
    }
}

/// Whether a personality's declaration for Windows can be asked for, each answer in one transfer.
pub open spec fn windows_complete(personality: PersonalityModel) -> bool {
    let os_string = find_string(personality.strings, MICROSOFT_STRING_INDEX, 0);
    match personality.microsoft {
        None => os_string is None,
        Some(microsoft) => {
            let ids = microsoft.compatible_ids;
            let properties = microsoft.registry_properties;
            &&& os_string_shaped(os_string, microsoft.vendor_code)
            &&& microsoft.vendor_code != 0
            &&& ids.len() <= 9
            &&& forall|i: int|
                0 <= i < ids.len() ==> interfaces_of(personality).contains(
                    (#[trigger] ids[i]).interface,
                ) && identifier_valid(ids[i].compatible_id) && identifier_valid(
                    ids[i].sub_compatible_id,
                )
            &&& forall|i: int|
                0 <= i < interfaces_of(personality).len() ==> properties_descriptor(
                    properties,
                    #[trigger] interfaces_of(personality)[i],
                ).len() <= 255
        },
    }
}

/// Whether a firmware's declaration for browsers can be asked for, and is what its personality
/// says.
pub open spec fn webusb_complete(firmware: Firmware) -> bool {
    &&& forall|i: int|
        0 <= i < firmware.capabilities_before.len() ==> other_capability(
            #[trigger] firmware.capabilities_before[i],
        )
    &&& forall|i: int|
        0 <= i < firmware.capabilities_behind.len() ==> other_capability(
            #[trigger] firmware.capabilities_behind[i],
        )
    &&& capability_store(firmware).len() <= 65535
    &&& firmware.personality.webusb matches Some(webusb) ==> {
        &&& le16_at(firmware.personality.device, 2) >= 0x0201
        &&& if firmware.landing_index == 0 {
            webusb.landing_page == Seq::<char>::empty()
        } else {
            &&& url_prefix(firmware.landing_scheme) is Some
            &&& encode_utf8(firmware.landing_address).len() <= 252
            &&& webusb.landing_page == url_prefix(firmware.landing_scheme)->0
                + firmware.landing_address
        }
    }
}

/// Whether a firmware answers whatever a host needs of its personality.
pub open spec fn answers_fully(firmware: Firmware) -> bool {
    &&& standard_complete(firmware.personality)
    &&& windows_complete(firmware.personality)
    &&& webusb_complete(firmware)
}

/// The index and the language of the text at a position, as a host asks for them.
pub open spec fn key_at(personality: PersonalityModel, position: int) -> (u8, u16) {
    let count = indices_of(personality).len() as int;
    (indices_of(personality)[position % count], languages_of(personality)[position / count])
}

/// The text at a position, as a host asks for them.
pub open spec fn string_at(personality: PersonalityModel, position: int) -> StringModel {
    let (index, language_id) = key_at(personality, position);
    StringModel {
        index,
        language_id,
        descriptor: find_string(personality.strings, index, language_id)->0,
    }
}

/// The strings of a firmware in the order of discovery: the languages, and the first `count`
/// texts.
pub open spec fn strings_in_turn(personality: PersonalityModel, count: nat) -> Seq<StringModel> {
    seq![
        StringModel {
            index: 0,
            language_id: 0,
            descriptor: language_descriptor(personality),
        },
    ] + Seq::new(count, |i: int| string_at(personality, i))
}

/// The number of texts of a personality.
pub open spec fn text_count(personality: PersonalityModel) -> nat {
    languages_of(personality).len() * indices_of(personality).len()
}

/// What a host discovers of a firmware: the declared personality, with its strings in the order of
/// discovery and its registry properties by ascending interface.
pub open spec fn discovered_personality(
    personality: PersonalityModel,
    speed: UsbSpeed,
) -> PersonalityModel {
    PersonalityModel {
        schema: PERSONALITY_SCHEMA,
        max_speed: speed,
        device: personality.device,
        configuration: personality.configuration,
        strings: match personality.microsoft {
            None => strings_in_turn(personality, text_count(personality)),
            Some(_) => strings_in_turn(personality, text_count(personality)).push(
                os_string(personality),
            ),
        },
        microsoft: match personality.microsoft {
            None => None,
            Some(microsoft) => Some(
                MicrosoftModel {
                    registry_properties: properties_in_turn(
                        microsoft.registry_properties,
                        interfaces_of(personality),
                        interfaces_of(personality).len(),
                    ),
                    ..microsoft
                },
            ),
        },
        webusb: personality.webusb,
    }
}

/// The Microsoft OS string of a firmware.
pub open spec fn os_string(personality: PersonalityModel) -> StringModel {
    StringModel {
        index: MICROSOFT_STRING_INDEX,
        language_id: 0,
        descriptor: find_string(personality.strings, MICROSOFT_STRING_INDEX, 0)->0,
    }
}

/// What a request for a descriptor of a known type is answered.
proof fn lemma_descriptor_reply(
    firmware: Firmware,
    kind: u8,
    index: u8,
    language: u16,
    length: u16,
)
    requires
        kind <= 15,
    ensures
        ({
            let personality = firmware.personality;
            let reply = firmware_reply(firmware, descriptor_request(kind, index, language, length));
            &&& kind == USB_DT_DEVICE ==> reply == Some(clipped(personality.device, length))
            &&& kind == USB_DT_CONFIGURATION ==> reply == Some(
                clipped(personality.configuration, length),
            )
            &&& kind == USB_DT_STRING ==> reply == (match find_string(
                personality.strings,
                index,
                language,
            ) {
                None => None,
                Some(descriptor) => Some(clipped(descriptor, length)),
            })
            &&& kind == USB_DT_BOS ==> reply == (if capabilities(firmware).len() > 0 {
                Some(clipped(capability_store(firmware), length))
            } else {
                None
            })
        }),
{
    let value = (256 * kind + index) as u16;
    assert(value as int / 256 == kind);
    assert(value as int % 256 == index);
}

/// Whether a conversation with a firmware comes to a state.
spec fn reached(firmware: Firmware, speed: UsbSpeed, state: DiscoveryModel) -> bool {
    exists|steps: nat| #[trigger] conversed(firmware, speed, steps) == state
}

/// A conversation goes on by what the firmware answers.
proof fn lemma_next_reached(
    firmware: Firmware,
    speed: UsbSpeed,
    state: DiscoveryModel,
    packet: SetupPacket,
)
    requires
        reached(firmware, speed, state),
        next_request(state) == Some(packet),
    ensures
        reached(firmware, speed, after_reply(state, firmware_reply(firmware, packet))),
{
    let steps = choose|steps: nat| #[trigger] conversed(firmware, speed, steps) == state;
    let next = conversed(firmware, speed, steps + 1);
    assert(next == after_reply(state, firmware_reply(firmware, packet)));
}

/// The state of a conversation that asks for the text at a position, or has them all.
spec fn asking_text(
    personality: PersonalityModel,
    speed: UsbSpeed,
    position: nat,
) -> DiscoveryModel {
    ask_text(
        DiscoveryModel {
            device: personality.device,
            languages: languages_of(personality),
            length: personality.configuration.len() as u16,
            configuration: personality.configuration,
            indices: indices_of(personality),
            interfaces: interfaces_of(personality),
            position,
            strings: strings_in_turn(personality, position),
            ..initial(speed)
        },
    )
}

/// After the configuration a host asks for the first text.
proof fn lemma_standard_descriptors(firmware: Firmware, speed: UsbSpeed)
    requires
        standard_complete(firmware.personality),
    ensures
        reached(firmware, speed, asking_text(firmware.personality, speed, 0)),
{
    reveal(next_request);
    reveal(after_reply);
    let personality = firmware.personality;
    let length = personality.configuration.len() as u16;
    lemma_descriptor_reply(firmware, USB_DT_DEVICE, 0, 0, 18);
    lemma_descriptor_reply(firmware, USB_DT_STRING, 0, 0, 255);
    lemma_descriptor_reply(firmware, USB_DT_CONFIGURATION, 0, 0, 9);
    lemma_descriptor_reply(firmware, USB_DT_CONFIGURATION, 0, 0, length);
    let first = conversed(firmware, speed, 1);
    assert(conversed(firmware, speed, 0) == initial(speed));
    assert(first == after_device(initial(speed), personality.device));
    let second = conversed(firmware, speed, 2);
    assert(second == after_languages(first, language_descriptor(personality)));
    let head = clipped(personality.configuration, 9);
    assert(head[0] == personality.configuration[0] && head[1] == personality.configuration[1]);
    assert(le16_at(head, 2) == length);
    let third = conversed(firmware, speed, 3);
    assert(third == after_configuration_header(second, head));
    let fourth = conversed(firmware, speed, 4);
    assert(fourth == after_configuration(third, personality.configuration));
    assert(strings_in_turn(personality, 0) =~= second.strings);
    assert(fourth == asking_text(personality, speed, 0));
}

/// Each further transfer brings one text.
proof fn lemma_texts(firmware: Firmware, speed: UsbSpeed, position: nat)
    requires
        standard_complete(firmware.personality),
        position <= text_count(firmware.personality),
    ensures
        reached(firmware, speed, asking_text(firmware.personality, speed, position)),
    decreases position,
{
    let personality = firmware.personality;
    if position == 0 {
        lemma_standard_descriptors(firmware, speed);
    } else {
        let done = (position - 1) as nat;
        lemma_texts(firmware, speed, done);
        reveal(next_request);
        reveal(after_reply);
        let before = asking_text(personality, speed, done);
        lemma_text_position(languages_of(personality).len(), indices_of(personality).len(), done);
        let (index, language) = text_key(before, done);
        assert((index, language) == key_at(personality, done as int));
        lemma_descriptor_reply(firmware, USB_DT_STRING, index, language, 255);
        let count = indices_of(personality).len() as int;
        assert(string_shaped(
            find_string(
                personality.strings,
                indices_of(personality)[done as int % count],
                languages_of(personality)[done as int / count],
            ),
        ));
        assert(strings_in_turn(personality, position) =~= strings_in_turn(personality, done).push(
            string_at(personality, done as int),
        ));
        lemma_next_reached(
            firmware,
            speed,
            before,
            descriptor_request(USB_DT_STRING, index, language, 255),
        );
        assert(after_text(before, string_at(personality, done as int).descriptor) == asking_text(
            personality,
            speed,
            position,
        ));
    }
}

/// The state of a conversation that has every standard descriptor, and knows this of Windows.
spec fn standard_state(
    personality: PersonalityModel,
    speed: UsbSpeed,
    microsoft: Option<MicrosoftModel>,
    position: nat,
) -> DiscoveryModel {
    let asked = asking_text(personality, speed, text_count(personality));
    DiscoveryModel {
        strings: match microsoft {
            None => asked.strings,
            Some(_) => asked.strings.push(os_string(personality)),
        },
        microsoft,
        position,
        ..asked
    }
}

/// A declaration for Windows as far as a host knows it after the properties of the first `count`
/// interfaces.
spec fn known_windows(personality: PersonalityModel, count: nat) -> MicrosoftModel {
    let microsoft = personality.microsoft->0;
    MicrosoftModel {
        registry_properties: properties_in_turn(
            microsoft.registry_properties,
            interfaces_of(personality),
            count,
        ),
        ..microsoft
    }
}

/// The state of a conversation that asks for the properties of an interface, or has them all.
spec fn asking_properties(
    personality: PersonalityModel,
    speed: UsbSpeed,
    count: nat,
) -> DiscoveryModel {
    ask_properties(
        standard_state(personality, speed, Some(known_windows(personality, count)), count),
    )
}

/// A firmware for Windows says so by its Microsoft OS string.
proof fn lemma_os_string(firmware: Firmware, speed: UsbSpeed)
    requires
        standard_complete(firmware.personality),
        windows_complete(firmware.personality),
    ensures
        ({
            let personality = firmware.personality;
            match personality.microsoft {
                None => reached(
                    firmware,
                    speed,
                    ask_webusb(standard_state(personality, speed, None, text_count(personality))),
                ),
                Some(microsoft) => reached(
                    firmware,
                    speed,
                    DiscoveryModel {
                        stage: Stage::CompatibleIds,
                        ..standard_state(
                            personality,
                            speed,
                            Some(
                                MicrosoftModel {
                                    vendor_code: microsoft.vendor_code,
                                    compatible_ids: seq![],
                                    registry_properties: seq![],
                                },
                            ),
                            text_count(personality),
                        )
                    },
                ),
            }
        }),
{
    let personality = firmware.personality;
    let total = text_count(personality);
    lemma_texts(firmware, speed, total);
    reveal(next_request);
    reveal(after_reply);
    let asked = asking_text(personality, speed, total);
    assert(asked.stage == Stage::OsText);
    lemma_descriptor_reply(firmware, USB_DT_STRING, MICROSOFT_STRING_INDEX, 0, 255);
    lemma_next_reached(
        firmware,
        speed,
        asked,
        descriptor_request(USB_DT_STRING, MICROSOFT_STRING_INDEX, 0, 255),
    );
    if personality.microsoft is Some {
        let descriptor = os_string(personality).descriptor;
        lemma_words_read_back(encode_utf16("MSFT100"@));
        lemma_utf16_round_trip("MSFT100"@);
        assert(clipped(descriptor, 255) == descriptor);
    }
}

/// After the compatible IDs a host asks for the properties.
proof fn lemma_compatible_ids(firmware: Firmware, speed: UsbSpeed)
    requires
        standard_complete(firmware.personality),
        windows_complete(firmware.personality),
        firmware.personality.microsoft is Some,
    ensures
        reached(firmware, speed, asking_properties(firmware.personality, speed, 0)),
{
    let personality = firmware.personality;
    let microsoft = personality.microsoft->0;
    let ids = microsoft.compatible_ids;
    lemma_os_string(firmware, speed);
    reveal(next_request);
    reveal(after_reply);
    let state = DiscoveryModel {
        stage: Stage::CompatibleIds,
        ..standard_state(
            personality,
            speed,
            Some(
                MicrosoftModel {
                    vendor_code: microsoft.vendor_code,
                    compatible_ids: seq![],
                    registry_properties: seq![],
                },
            ),
            text_count(personality),
        )
    };
    let packet = next_request(state)->0;
    lemma_next_reached(firmware, speed, state, packet);
    let reply = firmware_reply(firmware, packet);
    assert(reply == ids_reply(firmware, packet));
    assert(known_windows(personality, 0).registry_properties =~= seq![]);
    if ids.len() > 0 {
        lemma_ids_descriptor_reads_back(ids, interfaces_of(personality));
        assert(reply == Some(ids_descriptor(ids)));
        assert(after_compatible_ids(state, ids_descriptor(ids)) == asking_properties(
            personality,
            speed,
            0,
        ));
    } else {
        assert(ids =~= seq![]);
        assert(after_stall(state) == asking_properties(personality, speed, 0));
    }
}

/// What a request for the properties of an interface is answered.
proof fn lemma_properties_answer(firmware: Firmware, speed: UsbSpeed, done: nat)
    requires
        windows_complete(firmware.personality),
        firmware.personality.microsoft is Some,
        done < interfaces_of(firmware.personality).len(),
    ensures
        ({
            let personality = firmware.personality;
            let all = personality.microsoft->0.registry_properties;
            let interface = interfaces_of(personality)[done as int];
            let request = next_request(asking_properties(personality, speed, done));
            &&& request is Some
            &&& firmware_reply(firmware, request->0) == (if property_count(all, interface) > 0 {
                Some(properties_descriptor(all, interface))
            } else {
                None
            })
        }),
{
    reveal(next_request);
    let personality = firmware.personality;
    let all = personality.microsoft->0.registry_properties;
    let interface = interfaces_of(personality)[done as int];
    let packet = next_request(asking_properties(personality, speed, done))->0;
    assert(packet.value as int % 256 == interface);
    assert(firmware_reply(firmware, packet) == properties_reply(firmware, packet));
    assert(properties_descriptor(all, interface).len() <= 255);
}

/// What the properties of an interface add to what is known.
proof fn lemma_properties_taken(personality: PersonalityModel, speed: UsbSpeed, done: nat)
    requires
        windows_complete(personality),
        personality.microsoft is Some,
        done < interfaces_of(personality).len(),
    ensures
        ({
            let all = personality.microsoft->0.registry_properties;
            let interface = interfaces_of(personality)[done as int];
            let reply = if property_count(all, interface) > 0 {
                Some(properties_descriptor(all, interface))
            } else {
                None
            };
            after_reply(asking_properties(personality, speed, done), reply) == asking_properties(
                personality,
                speed,
                done + 1,
            )
        }),
{
    reveal(after_reply);
    let all = personality.microsoft->0.registry_properties;
    let interface = interfaces_of(personality)[done as int];
    let state = asking_properties(personality, speed, done);
    let known = known_windows(personality, done);
    let found = known.registry_properties;
    assert(state.stage == Stage::Properties && state.microsoft == Some(known));
    assert(known_windows(personality, done + 1) == MicrosoftModel {
        registry_properties: found + properties_of(all, interface),
        ..known
    });
    if property_count(all, interface) > 0 {
        assert(properties_descriptor(all, interface).len() <= 255);
        lemma_properties_descriptor_reads_back(all, interface, found);
    } else {
        lemma_properties_are_counted(all, interface);
        assert(found + properties_of(all, interface) =~= found);
    }
}

/// Each further transfer brings the properties of one interface.
proof fn lemma_properties(firmware: Firmware, speed: UsbSpeed, count: nat)
    requires
        standard_complete(firmware.personality),
        windows_complete(firmware.personality),
        firmware.personality.microsoft is Some,
        count <= interfaces_of(firmware.personality).len(),
    ensures
        reached(firmware, speed, asking_properties(firmware.personality, speed, count)),
    decreases count,
{
    if count == 0 {
        lemma_compatible_ids(firmware, speed);
    } else {
        let done = (count - 1) as nat;
        let state = asking_properties(firmware.personality, speed, done);
        lemma_properties(firmware, speed, done);
        lemma_properties_answer(firmware, speed, done);
        lemma_properties_taken(firmware.personality, speed, done);
        lemma_next_reached(firmware, speed, state, next_request(state)->0);
    }
}

/// What a host finds among the device capabilities of a firmware.
proof fn lemma_capabilities_are_read(firmware: Firmware)
    requires
        webusb_complete(firmware),
    ensures
        ({
            let store = capability_store(firmware);
            &&& store.len() == 5 + capabilities(firmware).len()
            &&& store[1] == USB_DT_BOS
            &&& le16_at(store, 2) == store.len()
            &&& find_webusb(store, 5) == Ok::<Option<Capability>, DiscoveryFault>(
                match firmware.personality.webusb {
                    None => None,
                    Some(webusb) => Some(
                        Capability {
                            version: webusb.version,
                            vendor_code: webusb.vendor_code,
                            landing_index: firmware.landing_index,
                        },
                    ),
                },
            )
        }),
{
    let store = capability_store(firmware);
    let before = joined(firmware.capabilities_before);
    let behind = joined(firmware.capabilities_behind);
    let length = (5 + capabilities(firmware).len()) as u16;
    lemma_le16_round_trip(length);
    assert(store.subrange(5, 5 + before.len() as int) =~= before);
    lemma_other_capabilities_are_passed(store, 5, firmware.capabilities_before);
    match firmware.personality.webusb {
        None => {
            let at = 5 + before.len() as int;
            assert(store.subrange(at, at + behind.len() as int) =~= behind);
            lemma_other_capabilities_are_passed(store, at, firmware.capabilities_behind);
        },
        Some(webusb) => {
            let at = 5 + before.len() as int;
            let capability = webusb_capability(webusb, firmware.landing_index);
            assert(store.subrange(at, at + capability.len() as int) =~= capability);
            lemma_webusb_is_found(store, at, webusb, firmware.landing_index);
        },
    }
}

/// Whether a conversation has ended that beside WebUSB came no further than `state`.
spec fn ended(firmware: Firmware, state: DiscoveryModel, last: DiscoveryModel) -> bool {
    &&& last.stage == Stage::Complete
    &&& last.speed == state.speed
    &&& last.device == state.device
    &&& last.configuration == state.configuration
    &&& last.strings == state.strings
    &&& last.microsoft == state.microsoft
    &&& last.webusb == firmware.personality.webusb
}

/// Whether a conversation with a firmware ends, and beside WebUSB comes no further than `state`.
spec fn ends_from(firmware: Firmware, speed: UsbSpeed, state: DiscoveryModel) -> bool {
    exists|steps: nat| ended(firmware, state, #[trigger] conversed(firmware, speed, steps))
}

/// A conversation that comes to a state in which nothing is left to ask for ends.
proof fn lemma_end_reached(
    firmware: Firmware,
    speed: UsbSpeed,
    state: DiscoveryModel,
    last: DiscoveryModel,
)
    requires
        reached(firmware, speed, last),
        ended(firmware, state, last),
    ensures
        ends_from(firmware, speed, state),
{
    let steps = choose|steps: nat| #[trigger] conversed(firmware, speed, steps) == last;
    assert(ended(firmware, state, conversed(firmware, speed, steps)));
}

/// What a request for the landing page is answered, and how the conversation ends by it.
proof fn lemma_landing_page(firmware: Firmware, state: DiscoveryModel)
    requires
        webusb_complete(firmware),
        firmware.personality.webusb is Some,
        firmware.landing_index != 0,
        state.stage == Stage::LandingPage,
        state.capability == (Capability {
            version: firmware.personality.webusb->0.version,
            vendor_code: firmware.personality.webusb->0.vendor_code,
            landing_index: firmware.landing_index,
        }),
    ensures
        ({
            let request = next_request(state);
            &&& request is Some
            &&& ended(firmware, state, after_reply(state, firmware_reply(firmware, request->0)))
        }),
{
    reveal(next_request);
    reveal(after_reply);
    let packet = next_request(state)->0;
    let url = url_descriptor(firmware.landing_scheme, firmware.landing_address);
    assert(firmware_reply(firmware, packet) == landing_reply(firmware, packet));
    assert(url.len() <= 255);
    assert(firmware_reply(firmware, packet) == Some(url));
    lemma_url_reads_back(firmware.landing_scheme, firmware.landing_address);
    assert(after_reply(state, Some(url)) == after_landing_page(state, url));
}

/// What becomes of a conversation that asks for the device capabilities of a firmware.
proof fn lemma_capabilities_taken(firmware: Firmware, speed: UsbSpeed, state: DiscoveryModel)
    requires
        webusb_complete(firmware),
        capabilities(firmware).len() > 0,
        state.stage == Stage::Bos,
        state.length == capability_store(firmware).len(),
        reached(firmware, speed, state),
    ensures
        reached(firmware, speed, after_bos(state, capability_store(firmware))),
{
    reveal(next_request);
    reveal(after_reply);
    lemma_descriptor_reply(firmware, USB_DT_BOS, 0, 0, state.length);
    lemma_next_reached(
        firmware,
        speed,
        state,
        descriptor_request(USB_DT_BOS, 0, 0, state.length),
    );
}

/// A conversation that has selected the configuration asks for the landing page.
proof fn lemma_configured(firmware: Firmware, speed: UsbSpeed, state: DiscoveryModel)
    requires
        state.stage == Stage::SelectConfiguration,
        reached(firmware, speed, state),
    ensures
        reached(firmware, speed, (DiscoveryModel { stage: Stage::LandingPage, ..state })),
{
    reveal(next_request);
    reveal(after_reply);
    lemma_next_reached(firmware, speed, state, next_request(state)->0);
}

/// Once the device capabilities are read, the landing page is all that is left.
proof fn lemma_capabilities_end(firmware: Firmware, speed: UsbSpeed, state: DiscoveryModel)
    requires
        webusb_complete(firmware),
        capabilities(firmware).len() > 0,
        state.webusb is None,
        state.stage == Stage::Bos,
        state.length == capability_store(firmware).len(),
        reached(firmware, speed, state),
    ensures
        ends_from(firmware, speed, state),
{
    let next = after_bos(state, capability_store(firmware));
    lemma_capabilities_are_read(firmware);
    lemma_capabilities_taken(firmware, speed, state);
    if firmware.personality.webusb is None || firmware.landing_index == 0 {
        lemma_end_reached(firmware, speed, state, next);
    } else {
        let configured = DiscoveryModel { stage: Stage::LandingPage, ..next };
        lemma_configured(firmware, speed, next);
        lemma_landing_page(firmware, configured);
        let packet = next_request(configured)->0;
        lemma_next_reached(firmware, speed, configured, packet);
        lemma_end_reached(
            firmware,
            speed,
            state,
            after_reply(configured, firmware_reply(firmware, packet)),
        );
    }
}

/// A conversation that has come to WebUSB ends.
proof fn lemma_webusb(firmware: Firmware, speed: UsbSpeed, state: DiscoveryModel)
    requires
        webusb_complete(firmware),
        state.device == firmware.personality.device,
        state.webusb is None,
        reached(firmware, speed, ask_webusb(state)),
    ensures
        ends_from(firmware, speed, state),
{
    let asked = ask_webusb(state);
    if asked.stage == Stage::Complete {
        lemma_end_reached(firmware, speed, state, asked);
    } else {
        reveal(next_request);
        reveal(after_reply);
        lemma_descriptor_reply(firmware, USB_DT_BOS, 0, 0, 5);
        lemma_next_reached(firmware, speed, asked, descriptor_request(USB_DT_BOS, 0, 0, 5));
        let store = capability_store(firmware);
        lemma_capabilities_are_read(firmware);
        if capabilities(firmware).len() > 0 {
            let head = clipped(store, 5);
            assert(head == store.take(5));
            let next = after_bos_header(asked, head);
            assert(reached(firmware, speed, next));
            lemma_capabilities_end(firmware, speed, next);
            let steps = choose|steps: nat|
                ended(firmware, next, #[trigger] conversed(firmware, speed, steps));
            assert(ended(firmware, state, conversed(firmware, speed, steps)));
        } else {
            assert(firmware.personality.webusb is None);
            lemma_end_reached(firmware, speed, state, after_stall(asked));
        }
    }
}

/// Discovering a firmware that answers by a personality ends, and gives that personality back: the
/// device, the configuration, the languages and each string in use once for each language, the
/// declaration for Windows with its properties by ascending interface, and that for browsers.
pub proof fn lemma_discovery_reads_back_a_firmware(firmware: Firmware, speed: UsbSpeed)
    requires
        answers_fully(firmware),
    ensures
        exists|steps: nat|
            {
                let state = #[trigger] conversed(firmware, speed, steps);
                &&& next_request(state) is None
                &&& concluded(state) == Ok::<PersonalityModel, DiscoveryFault>(
                    discovered_personality(firmware.personality, speed),
                )
            },
{
    let personality = firmware.personality;
    lemma_os_string(firmware, speed);
    let state = match personality.microsoft {
        None => standard_state(personality, speed, None, text_count(personality)),
        Some(_) => {
            let count = interfaces_of(personality).len();
            standard_state(personality, speed, Some(known_windows(personality, count)), count)
        },
    };
    if personality.microsoft is Some {
        lemma_properties(firmware, speed, interfaces_of(personality).len());
    }
    lemma_webusb(firmware, speed, state);
    reveal(next_request);
    reveal(concluded);
    let steps = choose|steps: nat|
        ended(firmware, state, #[trigger] conversed(firmware, speed, steps));
    assert(next_request(conversed(firmware, speed, steps)) is None);
}

/// Whether transfers reach a firmware: none fails, and each brings what the firmware answers.
pub open spec fn speaks_for<E, F: FnMut(SetupPacket, &[u8]) -> Result<Option<Vec<u8>>, E>>(
    transfer: F,
    firmware: Firmware,
) -> bool {
    &&& forall|packet: SetupPacket, reply: Option<Seq<u8>>| #[trigger]
        answers::<E, F>(transfer, packet, reply) ==> reply == firmware_reply(firmware, packet)
    &&& forall|packet: SetupPacket, error: E| !#[trigger] fails::<E, F>(transfer, packet, error)
}

/// What has been said after some replies is what a conversation with the firmware comes to.
proof fn lemma_replies_follow<E, F: FnMut(SetupPacket, &[u8]) -> Result<Option<Vec<u8>>, E>>(
    firmware: Firmware,
    speed: UsbSpeed,
    transfer: F,
    replies: Seq<Option<Seq<u8>>>,
)
    requires
        speaks_for::<E, F>(transfer, firmware),
        conversation::<E, F>(transfer, speed, replies),
    ensures
        after_replies(speed, replies) == conversed(firmware, speed, replies.len()),
    decreases replies.len(),
{
    if replies.len() > 0 {
        let before = replies.drop_last();
        let last = replies.len() - 1;
        assert forall|i: int| 0 <= i < before.len() implies #[trigger] answered::<E, F>(
            transfer,
            speed,
            before,
            i,
        ) by {
            assert(answered::<E, F>(transfer, speed, replies, i));
            assert(before.take(i) =~= replies.take(i));
        }
        lemma_replies_follow::<E, F>(firmware, speed, transfer, before);
        assert(answered::<E, F>(transfer, speed, replies, last));
        assert(replies.take(last) =~= before);
        let packet = next_request(after_replies(speed, before))->0;
        assert(answers::<E, F>(transfer, packet, replies[last]));
    }
}

/// A conversation that has ended stays as it is.
proof fn lemma_end_is_kept(firmware: Firmware, speed: UsbSpeed, steps: nat, more: nat)
    requires
        next_request(conversed(firmware, speed, steps)) is None,
    ensures
        conversed(firmware, speed, steps + more) == conversed(firmware, speed, steps),
    decreases more,
{
    if more > 0 {
        lemma_end_is_kept(firmware, speed, steps, (more - 1) as nat);
    }
}

/// Whatever [`discover`](crate::discovery::discover) may return where its transfers reach a
/// firmware that answers by a personality, it is that personality.
pub proof fn lemma_discover_returns_the_personality<
    E,
    F: FnMut(SetupPacket, &[u8]) -> Result<Option<Vec<u8>>, E>,
>(
    firmware: Firmware,
    speed: UsbSpeed,
    transfer: F,
    replies: Seq<Option<Seq<u8>>>,
    outcome: Result<UsbPersonality, DiscoveryError<E>>,
)
    requires
        answers_fully(firmware),
        speaks_for::<E, F>(transfer, firmware),
        conversation::<E, F>(transfer, speed, replies),
        ends_with::<E, F>(transfer, speed, replies, outcome),
    ensures
        outcome is Ok,
        outcome->Ok_0@ == discovered_personality(firmware.personality, speed),
{
    lemma_replies_follow::<E, F>(firmware, speed, transfer, replies);
    lemma_discovery_reads_back_a_firmware(firmware, speed);
    let steps = choose|steps: nat|
        {
            let state = #[trigger] conversed(firmware, speed, steps);
            &&& next_request(state) is None
            &&& concluded(state) == Ok::<PersonalityModel, DiscoveryFault>(
                discovered_personality(firmware.personality, speed),
            )
        };
    let state = after_replies(speed, replies);
    if next_request(state) is Some {
        let packet = next_request(state)->0;
        if outcome is Err && outcome->Err_0 is Transfer {
            assert(fails::<E, F>(transfer, packet, outcome->Err_0->Transfer_0));
        }
    }
    if steps <= replies.len() {
        lemma_end_is_kept(firmware, speed, steps, (replies.len() - steps) as nat);
    } else {
        lemma_end_is_kept(firmware, speed, replies.len(), (steps - replies.len()) as nat);
    }
}

} // verus!
