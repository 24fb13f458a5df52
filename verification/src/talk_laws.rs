//! What a host asks a firmware, and which answers it takes.

use crate::bytes::{le16, le16_at, le32_at, lemma_le16_round_trip};
use crate::conversation::{
    after_replies, after_reply, ask_webusb, compatible_sections, concluded, find_webusb, is_webusb,
    next_request, property_at, property_list, url_prefix, webusb_uuid, words_of, DiscoveryFault,
    DiscoveryModel, SetupPacket, Stage,
};
use crate::discovery::{answers, fails};
use crate::personality::UsbSpeed;
use crate::text::encode_utf16;
use vstd::prelude::*;
use vstd::utf8::valid_utf8;

verus! {

/// Whether a packet has these fields.
pub open spec fn is_packet(
    packet: Option<SetupPacket>,
    request_type: int,
    request: int,
    value: int,
    index: int,
    length: int,
) -> bool {
    packet matches Some(packet) && packet.request_type == request_type && packet.request == request
        && packet.value == value && packet.index == index && packet.length == length
}

/// A packet goes to the bus as its two request bytes and then its three words, low byte first.
pub proof fn lemma_packet_bytes(packet: SetupPacket)
    ensures
        ({
            let bytes = packet.bytes();
            &&& bytes.len() == 8
            &&& bytes[0] == packet.request_type
            &&& bytes[1] == packet.request
            &&& bytes[2] + 256 * bytes[3] == packet.value
            &&& bytes[4] + 256 * bytes[5] == packet.index
            &&& bytes[6] + 256 * bytes[7] == packet.length
        }),
{
    lemma_le16_round_trip(packet.value);
    let bytes = packet.bytes();
    assert(bytes[2] == le16(packet.value)[0] && bytes[3] == le16(packet.value)[1]);
    assert(bytes[4] == le16(packet.index)[0] && bytes[5] == le16(packet.index)[1]);
    assert(bytes[6] == le16(packet.length)[0] && bytes[7] == le16(packet.length)[1]);
}

/// What a host asks for at each stage, as the USB standard, Microsoft and WebUSB number it.
pub proof fn lemma_host_asks(state: DiscoveryModel)
    requires
        state.wf(),
    ensures
        ({
            let packet = next_request(state);
            let code = (state.microsoft->0).vendor_code as int;
            &&& state.stage is Device ==> is_packet(packet, 128, 6, 0x100, 0, 18)
            &&& state.stage is Languages ==> is_packet(packet, 128, 6, 0x300, 0, 255)
            &&& state.stage is ConfigurationHeader ==> is_packet(packet, 128, 6, 0x200, 0, 9)
            &&& state.stage is Configuration ==> is_packet(
                packet,
                128,
                6,
                0x200,
                0,
                state.length as int,
            )
            &&& state.stage is Text ==> {
                let place = state.position as int;
                let count = state.indices.len() as int;
                is_packet(
                    packet,
                    128,
                    6,
                    0x300 + state.indices[place % count],
                    state.languages[place / count] as int,
                    255,
                )
            }
            &&& state.stage is OsText ==> is_packet(packet, 128, 6, 0x3ee, 0, 255)
            &&& state.stage is CompatibleIds ==> is_packet(packet, 192, code, 0, 4, 255)
            &&& state.stage is Properties ==> is_packet(
                packet,
                193,
                code,
                state.interfaces[state.position as int] as int,
                5,
                255,
            )
            &&& state.stage is BosHeader ==> is_packet(packet, 128, 6, 0xf00, 0, 5)
            &&& state.stage is Bos ==> is_packet(packet, 128, 6, 0xf00, 0, state.length as int)
            &&& state.stage is SelectConfiguration ==> is_packet(packet, 0, 9, 1, 0, 0)
            &&& state.stage is LandingPage ==> is_packet(
                packet,
                192,
                state.capability.vendor_code as int,
                state.capability.landing_index as int,
                2,
                255,
            )
            &&& packet is None <==> state.stage is Complete || state.stage is Failed
        }),
{
    reveal(next_request);
}

/// A firmware must answer for its device, its languages, its configuration and its texts; it may
/// stall what is for Windows and browsers, but not a landing page that it has declared.
pub proof fn lemma_stalls_are_judged(state: DiscoveryModel)
    ensures
        ({
            let after = after_reply(state, None);
            let stage = state.stage;
            &&& stage is Device || stage is Languages || stage is ConfigurationHeader || stage is
                Configuration || stage is Text || stage is Bos ==> after.stage == Stage::Failed(
                DiscoveryFault::Stalled,
            )
            &&& stage is SelectConfiguration ==> after.stage == Stage::Failed(
                DiscoveryFault::ConfigurationRejected,
            )
            &&& stage is LandingPage ==> after.stage == Stage::Failed(DiscoveryFault::StalledUrl)
            &&& stage is BosHeader ==> after.stage == Stage::Complete
            &&& stage is OsText || stage is CompatibleIds || stage is Properties ==> !(after.stage
                is Failed)
            &&& after.microsoft == state.microsoft
            &&& after.webusb == state.webusb
            &&& after.strings == state.strings
        }),
{
    reveal(after_reply);
}

/// Which answers about the device, its languages and its configuration a host takes.
#[verifier::rlimit(60)]
pub proof fn lemma_standard_answers_are_judged(state: DiscoveryModel, bytes: Seq<u8>)
    ensures
        ({
            let after = after_reply(state, Some(bytes));
            let stage = state.stage;
            &&& stage is Device ==> (!(after.stage is Failed) <==> bytes.len() == 18 && bytes[0]
                == 18 && bytes[1] == 1 && bytes[17] == 1)
            &&& stage is Device && !(after.stage is Failed) ==> after.device == bytes
                && after.stage == Stage::Languages
            &&& stage is Languages ==> (!(after.stage is Failed) <==> bytes.len() >= 4
                && bytes.len() % 2 == 0 && bytes[0] == bytes.len() && bytes[1] == 3)
            &&& stage is ConfigurationHeader ==> (!(after.stage is Failed) <==> bytes.len() == 9
                && bytes[0] == 9 && bytes[1] == 2 && bytes[2] + 256 * bytes[3] >= 9)
            &&& stage is ConfigurationHeader && !(after.stage is Failed) ==> after.length
                == bytes[2] + 256 * bytes[3] && after.stage == Stage::Configuration
            &&& stage is Configuration && bytes.len() != state.length ==> after.stage
                == Stage::Failed(DiscoveryFault::TruncatedConfiguration)
            &&& stage is Configuration && !(after.stage is Failed) ==> after.configuration == bytes
            &&& stage is Text ==> (!(after.stage is Failed) <==> bytes.len() >= 2 && bytes[1] == 3)
            &&& stage is Text && !(after.stage is Failed) ==> after.strings.last().descriptor
                == bytes && after.position == state.position + 1
        }),
{
    reveal(after_reply);
}

/// Which answers about Windows and browsers a host takes.
#[verifier::rlimit(60)]
pub proof fn lemma_capability_answers_are_judged(state: DiscoveryModel, bytes: Seq<u8>)
    ensures
        ({
            let after = after_reply(state, Some(bytes));
            let stage = state.stage;
            &&& stage is OsText && !(after.stage is Failed) ==> {
                &&& bytes.len() >= 18
                &&& bytes[1] == 3
                &&& bytes[16] != 0
                &&& after.microsoft matches Some(microsoft) && microsoft.vendor_code == bytes[16]
                &&& after.stage == Stage::CompatibleIds
            }
            &&& stage is CompatibleIds && !(after.stage is Failed) ==> {
                &&& bytes.len() >= 16 + 24 * bytes[8]
                &&& bytes[8] > 0
                &&& le32_at(bytes, 0) <= bytes.len()
            }
            &&& stage is Properties && !(after.stage is Failed) ==> {
                &&& bytes.len() >= 10
                &&& le32_at(bytes, 0) <= bytes.len()
            }
            &&& stage is BosHeader ==> (!(after.stage is Failed) <==> bytes.len() == 5 && bytes[1]
                == 15)
            &&& stage is BosHeader && !(after.stage is Failed) ==> after.length == bytes[2] + 256
                * bytes[3] && after.stage == Stage::Bos
            &&& stage is Bos && bytes.len() != state.length ==> after.stage == Stage::Failed(
                DiscoveryFault::TruncatedBos,
            )
            &&& stage is SelectConfiguration ==> after.stage == Stage::LandingPage
            &&& stage is LandingPage && !(after.stage is Failed) ==> {
                &&& bytes.len() >= 3
                &&& 3 <= bytes[0] <= bytes.len()
                &&& bytes[1] == 3
                &&& bytes[2] == 0 || bytes[2] == 1 || bytes[2] == 255
                &&& valid_utf8(bytes.subrange(3, bytes[0] as int))
                &&& after.stage == Stage::Complete
            }
        }),
{
    reveal(after_reply);
}

/// The units of an ASCII text are its characters.
proof fn lemma_ascii_units(text: Seq<char>)
    requires
        forall|i: int| 0 <= i < text.len() ==> #[trigger] (text[i] as u32) < 128,
    ensures
        encode_utf16(text).len() == text.len(),
        forall|i: int| 0 <= i < text.len() ==> #[trigger] encode_utf16(text)[i] == text[i] as u32,
    decreases text.len(),
{
    if text.len() > 0 {
        let init = text.drop_last();
        assert forall|i: int| 0 <= i < init.len() implies #[trigger] (init[i] as u32) < 128 by {
            assert((text[i] as u32) < 128);
        }
        lemma_ascii_units(init);
        assert((text[text.len() - 1] as u32) < 128);
        crate::os_laws::lemma_ascii_char(text.last());
        assert forall|i: int| 0 <= i < text.len() implies #[trigger] encode_utf16(text)[i]
            == text[i] as u32 by {
            if i < init.len() {
                assert(encode_utf16(text)[i] == encode_utf16(init)[i]);
                assert(init[i] == text[i]);
            }
        }
    }
}

/// A firmware is taken to be for Windows only where its string says `MSFT100` in UTF-16.
pub proof fn lemma_windows_says_its_name(state: DiscoveryModel, bytes: Seq<u8>)
    requires
        state.stage == Stage::OsText,
        !(after_reply(state, Some(bytes)).stage is Failed),
    ensures
        bytes[2] == 77 && bytes[4] == 83 && bytes[6] == 70 && bytes[8] == 84,
        bytes[10] == 49 && bytes[12] == 48 && bytes[14] == 48,
        bytes[3] == 0 && bytes[5] == 0 && bytes[7] == 0 && bytes[9] == 0,
        bytes[11] == 0 && bytes[13] == 0 && bytes[15] == 0,
{
    reveal(after_reply);
    reveal_strlit("MSFT100");
    let name = "MSFT100"@;
    let words = words_of(bytes.subrange(2, 16));
    assert(name.len() == 7);
    assert(name[0] == 'M' && name[1] == 'S' && name[2] == 'F' && name[3] == 'T' && name[4] == '1'
        && name[5] == '0' && name[6] == '0');
    assert(encode_utf16(name) == words);
    lemma_ascii_units(name);
    assert forall|i: int| 0 <= i < 7 implies #[trigger] words[i] == bytes[2 + 2 * i] + 256 * bytes[3
        + 2 * i] by {}
    assert(words[0] == 77 && words[1] == 83 && words[2] == 70 && words[3] == 84 && words[4] == 49
        && words[5] == 48 && words[6] == 48) by {
        assert(encode_utf16(name)[0] == name[0] as u32);
        assert(encode_utf16(name)[1] == name[1] as u32);
        assert(encode_utf16(name)[2] == name[2] as u32);
        assert(encode_utf16(name)[3] == name[3] as u32);
        assert(encode_utf16(name)[4] == name[4] as u32);
        assert(encode_utf16(name)[5] == name[5] as u32);
        assert(encode_utf16(name)[6] == name[6] as u32);
    }
}

/// The texts that the schemes of a landing page stand for.
pub proof fn lemma_url_schemes(scheme: u8)
    ensures
        url_prefix(scheme) is Some <==> scheme == 0 || scheme == 1 || scheme == 255,
        url_prefix(0) == Some("http://"@),
        url_prefix(1) == Some("https://"@),
        url_prefix(255) == Some(Seq::<char>::empty()),
{
}

/// The identifier of the WebUSB capability is 3408b638-09a9-47a0-8bfd-a0768815b665, with its first
/// three parts low byte first.
pub proof fn lemma_webusb_identifier()
    ensures
        webusb_uuid() == seq![
            56u8,
            182,
            8,
            52,
            169,
            9,
            160,
            71,
            139,
            253,
            160,
            118,
            136,
            21,
            182,
            101,
        ],
{
}

/// What is found of WebUSB stands in a capability of the platform type with WebUSB's identifier.
pub proof fn lemma_webusb_stands_there(bytes: Seq<u8>, offset: int)
    requires
        0 <= offset,
        find_webusb(bytes, offset) is Ok,
    ensures
        find_webusb(bytes, offset) matches Ok(Some(found)) ==> exists|at: int|
            {
                &&& offset <= at
                &&& at + 24 <= bytes.len()
                &&& bytes[at + 1] == 16
                &&& bytes[at + 2] == 5
                &&& #[trigger] bytes.subrange(at + 4, at + 20) == webusb_uuid()
                &&& found.version == bytes[at + 20] + 256 * bytes[at + 21]
                &&& found.vendor_code == bytes[at + 22]
                &&& found.landing_index == bytes[at + 23]
            },
    decreases bytes.len() - offset,
{
    if offset < bytes.len() && 3 <= bytes[offset] <= bytes.len() - offset {
        if is_webusb(bytes, offset) {
            assert(bytes.subrange(offset + 4, offset + 20) == webusb_uuid());
        } else {
            lemma_webusb_stands_there(bytes, offset + bytes[offset]);
        }
    }
}

/// What holds of the parts of a conversation as it goes on.
spec fn sound_parts(state: DiscoveryModel) -> bool {
    &&& !(state.stage is Device) && !(state.stage is Failed) ==> state.device.len() == 18
        && state.device[0] == 18 && state.device[1] == 1 && state.device[17] == 1
    &&& forall|k: int|
        0 <= k < state.strings.len() ==> (#[trigger] state.strings[k]).descriptor.len() >= 2
            && state.strings[k].descriptor[1] == 3
    &&& state.microsoft matches Some(microsoft) ==> {
        &&& microsoft.vendor_code != 0
        &&& forall|i: int|
            0 <= i < microsoft.compatible_ids.len() ==> state.interfaces.contains(
                (#[trigger] microsoft.compatible_ids[i]).interface,
            )
        &&& forall|i: int|
            0 <= i < microsoft.registry_properties.len() ==> state.interfaces.contains(
                (#[trigger] microsoft.registry_properties[i]).interface,
            )
    }
    &&& state.microsoft is Some ==> !(state.stage is Device || state.stage is Languages
        || state.stage is ConfigurationHeader || state.stage is Configuration || state.stage is Text
        || state.stage is OsText)
    &&& state.stage is Properties ==> state.position < state.interfaces.len()
}

proof fn lemma_sections_are_on_interfaces(
    bytes: Seq<u8>,
    offset: int,
    count: nat,
    interfaces: Seq<u8>,
    found: Seq<crate::personality::CompatibleIdModel>,
)
    requires
        forall|i: int|
            0 <= i < found.len() ==> interfaces.contains((#[trigger] found[i]).interface),
    ensures
        compatible_sections(bytes, offset, count, interfaces, found) matches Ok(ids) ==> {
            &&& ids.len() == found.len() + count
            &&& forall|i: int|
                0 <= i < ids.len() ==> interfaces.contains((#[trigger] ids[i]).interface)
        },
    decreases count,
{
    if count > 0 && compatible_sections(bytes, offset, count, interfaces, found) is Ok {
        let first = crate::conversation::identifier_text(bytes.subrange(offset + 2, offset + 10))->0;
        let second = crate::conversation::identifier_text(
            bytes.subrange(offset + 10, offset + 18),
        )->0;
        let next = found.push(
            crate::personality::CompatibleIdModel {
                interface: bytes[offset],
                compatible_id: first,
                sub_compatible_id: second,
            },
        );
        assert forall|i: int| 0 <= i < next.len() implies interfaces.contains(
            (#[trigger] next[i]).interface,
        ) by {
            if i < found.len() {
                assert(next[i] == found[i]);
            }
        }
        lemma_sections_are_on_interfaces(bytes, offset + 24, (count - 1) as nat, interfaces, next);
    }
}

proof fn lemma_properties_are_on_interfaces(
    bytes: Seq<u8>,
    offset: int,
    count: nat,
    interface: u8,
    interfaces: Seq<u8>,
    found: Seq<crate::personality::PropertyModel>,
)
    requires
        interfaces.contains(interface),
        forall|i: int|
            0 <= i < found.len() ==> interfaces.contains((#[trigger] found[i]).interface),
    ensures
        property_list(bytes, offset, count, interface, found) matches Ok(properties) ==> {
            &&& properties.len() == found.len() + count
            &&& forall|i: int|
                0 <= i < properties.len() ==> interfaces.contains(
                    (#[trigger] properties[i]).interface,
                )
        },
    decreases count,
{
    if count > 0 {
        if let Ok(property) = property_at(bytes, offset, interface) {
            let next = found.push(property);
            assert(property.interface == interface);
            assert forall|i: int| 0 <= i < next.len() implies interfaces.contains(
                (#[trigger] next[i]).interface,
            ) by {
                if i < found.len() {
                    assert(next[i] == found[i]);
                }
            }
            lemma_properties_are_on_interfaces(
                bytes,
                offset + le32_at(bytes, offset),
                (count - 1) as nat,
                interface,
                interfaces,
                next,
            );
        }
    }
}

#[verifier::rlimit(80)]
proof fn lemma_reply_keeps_parts(state: DiscoveryModel, reply: Option<Seq<u8>>)
    requires
        sound_parts(state),
    ensures
        sound_parts(after_reply(state, reply)),
{
    reveal(after_reply);
    let after = after_reply(state, reply);
    if let Some(bytes) = reply {
        match state.stage {
            Stage::CompatibleIds => {
                lemma_sections_are_on_interfaces(
                    bytes,
                    16,
                    bytes[8] as nat,
                    state.interfaces,
                    seq![],
                );
            },
            Stage::Properties => {
                let interface = state.interfaces[state.position as int];
                assert(state.interfaces.contains(interface));
                lemma_properties_are_on_interfaces(
                    bytes,
                    10,
                    le16_at(bytes, 8) as nat,
                    interface,
                    state.interfaces,
                    crate::conversation::properties_so_far(state),
                );
            },
            _ => {},
        }
    }
}

proof fn lemma_sound_parts(speed: UsbSpeed, replies: Seq<Option<Seq<u8>>>)
    ensures
        sound_parts(after_replies(speed, replies)),
    decreases replies.len(),
{
    if replies.len() > 0 {
        lemma_sound_parts(speed, replies.drop_last());
        lemma_reply_keeps_parts(after_replies(speed, replies.drop_last()), replies.last());
    }
}

/// What a discovered personality has been found fit for: a whole device descriptor with one
/// configuration, whole strings, and a declaration for Windows, if there is one, with a vendor
/// code and for interfaces of the device alone.
pub proof fn lemma_discovered_parts_are_sound(speed: UsbSpeed, replies: Seq<Option<Seq<u8>>>)
    requires
        after_replies(speed, replies).stage == Stage::Complete,
        concluded(after_replies(speed, replies)) is Ok,
    ensures
        ({
            let personality = concluded(after_replies(speed, replies))->Ok_0;
            let interfaces = after_replies(speed, replies).interfaces;
            &&& personality.device.len() == 18
            &&& personality.device[0] == 18 && personality.device[1] == 1
            &&& personality.device[17] == 1
            &&& personality.configuration[0] == 9 && personality.configuration[1] == 2
            &&& personality.configuration[2] + 256 * personality.configuration[3]
                == personality.configuration.len()
            &&& forall|k: int|
                0 <= k < personality.strings.len() ==> (
                #[trigger] personality.strings[k]).descriptor.len() >= 2
                    && personality.strings[k].descriptor[1] == 3
            &&& personality.microsoft matches Some(microsoft) ==> {
                &&& microsoft.vendor_code != 0
                &&& forall|i: int|
                    0 <= i < microsoft.compatible_ids.len() ==> interfaces.contains(
                        (#[trigger] microsoft.compatible_ids[i]).interface,
                    )
                &&& forall|i: int|
                    0 <= i < microsoft.registry_properties.len() ==> interfaces.contains(
                        (#[trigger] microsoft.registry_properties[i]).interface,
                    )
            }
        }),
{
    lemma_sound_parts(speed, replies);
    reveal(concluded);
}

/// What came of a conversation: its fault, or a personality of the speed that was asked for and of
/// the parts that were found.
pub proof fn lemma_conclusions_are_told(state: DiscoveryModel)
    ensures
        state.stage matches Stage::Failed(fault) ==> concluded(state) == Err::<
            crate::personality::PersonalityModel,
            DiscoveryFault,
        >(fault),
        concluded(state) matches Ok(personality) ==> {
            &&& !(state.stage is Failed)
            &&& personality.schema == 1
            &&& personality.max_speed == state.speed
            &&& personality.device == state.device
            &&& personality.configuration == state.configuration
            &&& personality.strings == state.strings
            &&& personality.microsoft == state.microsoft
            &&& personality.webusb == state.webusb
        },
{
    reveal(concluded);
}

/// A conversation keeps the speed that it began with.
pub proof fn lemma_speed_is_kept(speed: UsbSpeed, replies: Seq<Option<Seq<u8>>>)
    ensures
        after_replies(speed, replies).speed == speed,
    decreases replies.len(),
{
    if replies.len() > 0 {
        lemma_speed_is_kept(speed, replies.drop_last());
        lemma_reply_keeps_speed(after_replies(speed, replies.drop_last()), replies.last());
    }
}

#[verifier::rlimit(60)]
proof fn lemma_reply_keeps_speed(state: DiscoveryModel, reply: Option<Seq<u8>>)
    ensures
        after_reply(state, reply).speed == state.speed,
{
    reveal(after_reply);
}

/// A transfer is asked for without data, and what it brings or that it fails is what the transfer
/// itself said.
pub proof fn lemma_transfers_carry_no_data<
    E,
    F: FnMut(SetupPacket, &[u8]) -> Result<Option<Vec<u8>>, E>,
>(transfer: F, packet: SetupPacket, reply: Option<Seq<u8>>, error: E)
    ensures
        answers::<E, F>(transfer, packet, reply) ==> exists|data: &[u8], bytes: Option<Vec<u8>>|
            #![trigger call_ensures(transfer, (packet, data), Ok(bytes))]
            {
                &&& data@ == Seq::<u8>::empty()
                &&& call_ensures(transfer, (packet, data), Ok(bytes))
                &&& reply is Some <==> bytes is Some
                &&& reply is Some ==> reply->0 == (bytes->0)@
            },
        fails::<E, F>(transfer, packet, error) ==> exists|data: &[u8]|
            #![trigger call_ensures(transfer, (packet, data), Err(error))]
            data@ == Seq::<u8>::empty() && call_ensures(transfer, (packet, data), Err(error)),
{
    if answers::<E, F>(transfer, packet, reply) {
        let (data, bytes) = choose|data: &[u8], bytes: Option<Vec<u8>>|
            #![trigger call_ensures(transfer, (packet, data), Ok(bytes))]
            data@.len() == 0 && crate::discovery::reply_view(bytes) == reply && call_ensures(
                transfer,
                (packet, data),
                Ok(bytes),
            );
        assert(data@ =~= Seq::<u8>::empty());
        assert(call_ensures(transfer, (packet, data), Ok(bytes)));
    }
    if fails::<E, F>(transfer, packet, error) {
        let data = choose|data: &[u8]|
            #![trigger call_ensures(transfer, (packet, data), Err(error))]
            data@.len() == 0 && call_ensures(transfer, (packet, data), Err(error));
        assert(data@ =~= Seq::<u8>::empty());
        assert(call_ensures(transfer, (packet, data), Err(error)));
    }
}

/// Whether a text is what stands in eight bytes before the first zero.
pub open spec fn identifier_in(bytes: Seq<u8>, at: int, text: Seq<char>) -> bool {
    &&& text.len() <= 8
    &&& forall|j: int|
        0 <= j < text.len() ==> (#[trigger] text[j]) as u32 == bytes[at + j] && bytes[at + j] != 0
            && bytes[at + j] < 128
    &&& text.len() < 8 ==> bytes[at + text.len()] == 0
}

proof fn lemma_identifier(bytes: Seq<u8>, at: int)
    requires
        0 <= at,
        at + 8 <= bytes.len(),
    ensures
        crate::conversation::identifier_text(bytes.subrange(at, at + 8)) matches Some(text)
            ==> identifier_in(bytes, at, text),
{
    let part = bytes.subrange(at, at + 8);
    if let Some(text) = crate::conversation::identifier_text(part) {
        lemma_zero(part, 0);
        let front = crate::conversation::before_nul(part);
        assert forall|j: int| 0 <= j < text.len() implies (#[trigger] text[j]) as u32 == bytes[at
            + j] && bytes[at + j] != 0 && bytes[at + j] < 128 by {
            assert(text[j] == front[j] as char);
            assert(front[j] == part[j]);
            assert(front[j] < 128);
        }
    }
}

proof fn lemma_zero(bytes: Seq<u8>, from: int)
    requires
        0 <= from <= bytes.len(),
    ensures
        crate::functionfs::nul_at(bytes, from) matches Some(nul) ==> from <= nul < bytes.len()
            && bytes[nul] == 0 && forall|i: int| from <= i < nul ==> bytes[i] != 0,
        crate::functionfs::nul_at(bytes, from) is None ==> forall|i: int|
            from <= i < bytes.len() ==> bytes[i] != 0,
    decreases bytes.len() - from,
{
    if from < bytes.len() && bytes[from] != 0 {
        lemma_zero(bytes, from + 1);
    }
}

/// The compatible IDs that are found are those that stand in the answer, in their order.
pub proof fn lemma_ids_stand_in_the_answer(
    bytes: Seq<u8>,
    offset: int,
    count: nat,
    interfaces: Seq<u8>,
    found: Seq<crate::personality::CompatibleIdModel>,
    i: int,
)
    requires
        0 <= offset,
        offset + 24 * count <= bytes.len(),
        compatible_sections(bytes, offset, count, interfaces, found) is Ok,
        0 <= i < count,
    ensures
        ({
            let ids = compatible_sections(bytes, offset, count, interfaces, found)->Ok_0;
            let id = ids[found.len() + i];
            let at = offset + 24 * i;
            &&& ids.len() == found.len() + count
            &&& ids.take(found.len() as int) == found
            &&& id.interface == bytes[at]
            &&& identifier_in(bytes, at + 2, id.compatible_id)
            &&& identifier_in(bytes, at + 10, id.sub_compatible_id)
        }),
    decreases count,
{
    let ids = compatible_sections(bytes, offset, count, interfaces, found)->Ok_0;
    let first = crate::conversation::identifier_text(bytes.subrange(offset + 2, offset + 10))->0;
    let second = crate::conversation::identifier_text(bytes.subrange(offset + 10, offset + 18))->0;
    let id = crate::personality::CompatibleIdModel {
        interface: bytes[offset],
        compatible_id: first,
        sub_compatible_id: second,
    };
    let next = found.push(id);
    lemma_identifier(bytes, offset + 2);
    lemma_identifier(bytes, offset + 10);
    assert(ids == compatible_sections(
        bytes,
        offset + 24,
        (count - 1) as nat,
        interfaces,
        next,
    )->Ok_0);
    if count > 1 {
        lemma_ids_stand_in_the_answer(
            bytes,
            offset + 24,
            (count - 1) as nat,
            interfaces,
            next,
            if i > 0 {
                i - 1
            } else {
                0
            },
        );
    }
    assert(ids.take(next.len() as int) =~= next);
    assert(ids.take(next.len() as int)[found.len() as int] == id);
    assert(ids.take(found.len() as int) =~= found) by {
        assert forall|j: int| 0 <= j < found.len() implies ids[j] == found[j] by {
            assert(ids.take(next.len() as int)[j] == next[j]);
        }
    }
    if i > 0 {
        assert(offset + 24 + 24 * (i - 1) == offset + 24 * i);
    }
}

/// A property that is found is the one that stands in the answer: its interface, its type, its
/// name without a zero at its end, and its data.
pub proof fn lemma_property_stands_in_the_answer(bytes: Seq<u8>, offset: int, interface: u8)
    requires
        0 <= offset,
        property_at(bytes, offset, interface) is Ok,
    ensures
        ({
            let property = property_at(bytes, offset, interface)->Ok_0;
            let size = le32_at(bytes, offset) as int;
            let name_length = le16_at(bytes, offset + 8) as int;
            let data = offset + 14 + name_length;
            let length = le32_at(bytes, offset + 10 + name_length) as int;
            let units = encode_utf16(property.name);
            &&& 14 <= size <= bytes.len() - offset
            &&& name_length % 2 == 0 && 14 + name_length + length <= size
            &&& property.interface == interface
            &&& property.data_type == le32_at(bytes, offset + 4)
            &&& property.data == bytes.subrange(data, data + length)
            &&& name_length == 2 * units.len() || name_length == 2 * units.len() + 2
            &&& name_length == 2 * units.len() + 2 ==> le16_at(
                bytes,
                offset + 10 + 2 * units.len() as int,
            ) == 0
            &&& forall|j: int|
                0 <= j < units.len() ==> #[trigger] units[j] == le16_at(bytes, offset + 10 + 2 * j)
        }),
{
    let name_length = le16_at(bytes, offset + 8) as int;
    let name_end = offset + 10 + name_length;
    let part = bytes.subrange(offset + 10, name_end);
    let words = words_of(part);
    let property = property_at(bytes, offset, interface)->Ok_0;
    let units = encode_utf16(property.name);
    assert forall|j: int| 0 <= j < words.len() implies #[trigger] words[j] == le16_at(
        bytes,
        offset + 10 + 2 * j,
    ) by {}
    let trimmed = if words.len() > 0 && words.last() == 0 {
        words.drop_last()
    } else {
        words
    };
    assert(units == trimmed);
    assert forall|j: int| 0 <= j < units.len() implies #[trigger] units[j] == le16_at(
        bytes,
        offset + 10 + 2 * j,
    ) by {
        assert(units[j] == words[j]);
    }
}

/// A device before USB 2.1 is not asked for capabilities.
pub proof fn lemma_old_devices_are_not_asked(state: DiscoveryModel)
    ensures
        ask_webusb(state).stage == Stage::Complete <==> le16_at(state.device, 2) < 513,
        ask_webusb(state).stage == Stage::BosHeader <==> le16_at(state.device, 2) >= 513,
        ask_webusb(state) == (DiscoveryModel { stage: ask_webusb(state).stage, ..state }),
{
}

/// What a discovery returns is what its conversation came to: the failure of a transfer that was
/// asked for, or, once nothing more was asked for, its fault or its personality.
pub proof fn lemma_outcomes_are_told<
    E,
    F: FnMut(SetupPacket, &[u8]) -> Result<Option<Vec<u8>>, E>,
>(
    transfer: F,
    speed: UsbSpeed,
    replies: Seq<Option<Seq<u8>>>,
    outcome: Result<crate::personality::UsbPersonality, crate::discovery::DiscoveryError<E>>,
)
    requires
        crate::discovery::ends_with::<E, F>(transfer, speed, replies, outcome),
    ensures
        ({
            let state = after_replies(speed, replies);
            match outcome {
                Ok(personality) => next_request(state) is None && concluded(state) == Ok::<
                    crate::personality::PersonalityModel,
                    DiscoveryFault,
                >(personality@),
                Err(crate::discovery::DiscoveryError::Fault(fault)) => next_request(state) is None
                    && concluded(state) == Err::<
                    crate::personality::PersonalityModel,
                    DiscoveryFault,
                >(fault),
                Err(crate::discovery::DiscoveryError::Transfer(error)) => next_request(state)
                    is Some && fails::<E, F>(transfer, next_request(state)->0, error),
            }
        }),
{
}

} // verus!
