//! The conversation by which a USB host learns a firmware's personality: what it asks for next,
//! and what each reply makes of it.

use crate::bytes::{le16, le16_at, le32_at, push_le16};
use crate::functionfs::{nul_at, USB_DT_INTERFACE};
use crate::personality::{
    finished, BuilderModel, CompatibleIdModel, MicrosoftModel, PersonalityError, PersonalityModel,
    PropertyModel, StringModel, UsbSpeed, WebUsbModel,
};
use crate::sets::{ascending_bytes, ascending_words};
use crate::text::{ascii_text, decode_utf16};
use crate::usb_personality::{USB_DT_CONFIGURATION, USB_DT_DEVICE, USB_DT_STRING};
use vstd::prelude::*;
use vstd::utf8::{decode_utf8, valid_utf8};

verus! {

/// The standard request for a descriptor.
pub const USB_REQ_GET_DESCRIPTOR: u8 = 6;

/// The standard request that selects a configuration.
pub const USB_REQ_SET_CONFIGURATION: u8 = 9;

/// Descriptor type of the binary device object store.
pub const USB_DT_BOS: u8 = 15;

/// Descriptor type of a device capability.
pub const USB_DT_DEVICE_CAPABILITY: u8 = 16;

/// Capability type of a platform capability.
pub const USB_DC_PLATFORM: u8 = 5;

/// The string index under which Windows asks for Microsoft OS descriptors.
pub const MICROSOFT_STRING_INDEX: u8 = 0xee;

/// The setup stage of a control transfer.
#[derive(Clone, Copy, Debug, Eq, PartialEq, Structural)]
pub struct SetupPacket {
    pub request_type: u8,
    pub request: u8,
    pub value: u16,
    pub index: u16,
    pub length: u16,
}

impl SetupPacket {
    /// The eight bytes of a setup stage.
    pub open spec fn bytes(self) -> Seq<u8> {
        seq![self.request_type, self.request] + le16(self.value) + le16(self.index) + le16(
            self.length,
        )
    }

    /// The eight bytes of this setup stage.
    pub fn encode(self) -> (bytes: Vec<u8>)
        ensures
            bytes@ == self.bytes(),
            bytes@.len() == 8,
    {
        let mut bytes: Vec<u8> = Vec::new();
        bytes.push(self.request_type);
        bytes.push(self.request);
        push_le16(&mut bytes, self.value);
        push_le16(&mut bytes, self.index);
        push_le16(&mut bytes, self.length);
        assert(bytes@ =~= self.bytes());
        bytes
    }
}

/// Why discovery fails.
#[derive(Clone, Copy, Debug, Eq, PartialEq, Structural)]
pub enum DiscoveryFault {
    Stalled,
    InvalidDevice,
    ConfigurationCount,
    InvalidLanguages,
    InvalidConfigurationHeader,
    InvalidConfigurationLength,
    TruncatedConfiguration,
    TruncatedDescriptor,
    MalformedDescriptor,
    ShortInterface,
    InvalidString,
    InvalidOsString,
    UnsupportedOsString,
    InvalidCompatibleIds,
    TruncatedCompatibleIds,
    UnknownInterface,
    CompatibleIdText,
    InvalidProperties,
    TruncatedProperty,
    InvalidProperty,
    TruncatedPropertyValue,
    OddPropertyName,
    PropertyNameEncoding,
    InvalidBosHeader,
    TruncatedBos,
    MalformedCapability,
    ConfigurationRejected,
    StalledUrl,
    InvalidUrl,
    UrlScheme,
    UrlEncoding,
    Personality(PersonalityError),
}

/// The transfer whose reply a conversation waits for, or how the conversation ended.
#[derive(Clone, Copy, Debug, Eq, PartialEq, Structural)]
pub enum Stage {
    Device,
    Languages,
    ConfigurationHeader,
    Configuration,
    Text,
    OsText,
    CompatibleIds,
    Properties,
    BosHeader,
    Bos,
    SelectConfiguration,
    LandingPage,
    Complete,
    Failed(DiscoveryFault),
}

/// A WebUSB platform capability as the firmware declares it.
#[derive(Clone, Copy, Debug, Eq, PartialEq, Structural)]
pub struct Capability {
    pub version: u16,
    pub vendor_code: u8,
    pub landing_index: u8,
}

/// The contents of a [`Discovery`].
#[verifier::ext_equal]
pub struct DiscoveryModel {
    pub speed: UsbSpeed,
    pub stage: Stage,
    pub device: Seq<u8>,
    pub languages: Seq<u16>,
    pub length: u16,
    pub configuration: Seq<u8>,
    pub indices: Seq<u8>,
    pub interfaces: Seq<u8>,
    pub position: nat,
    pub strings: Seq<StringModel>,
    pub microsoft: Option<MicrosoftModel>,
    pub capability: Capability,
    pub webusb: Option<WebUsbModel>,
}

/// A conversation that has not begun.
pub open spec fn initial(speed: UsbSpeed) -> DiscoveryModel {
    DiscoveryModel {
        speed,
        stage: Stage::Device,
        device: seq![],
        languages: seq![],
        length: 0,
        configuration: seq![],
        indices: seq![],
        interfaces: seq![],
        position: 0,
        strings: seq![],
        microsoft: None,
        capability: Capability { version: 0, vendor_code: 0, landing_index: 0 },
        webusb: None,
    }
}

/// The standard request for a descriptor.
pub open spec fn descriptor_request(kind: u8, index: u8, language: u16, length: u16) -> SetupPacket {
    SetupPacket {
        request_type: 0x80,
        request: USB_REQ_GET_DESCRIPTOR,
        value: (256 * kind + index) as u16,
        index: language,
        length,
    }
}

/// The number of texts to ask for: each string index in each language.
pub open spec fn text_total(state: DiscoveryModel) -> nat {
    state.languages.len() * state.indices.len()
}

/// The index and the language of the text at a position: languages in ascending order, and in
/// each of them the indices in ascending order.
pub open spec fn text_key(state: DiscoveryModel, position: nat) -> (u8, u16) {
    (
        state.indices[position as int % state.indices.len() as int],
        state.languages[position as int / state.indices.len() as int],
    )
}

/// The transfer that a conversation asks for next, if it goes on.
#[verifier::opaque]
pub open spec fn next_request(state: DiscoveryModel) -> Option<SetupPacket> {
    let vendor_code = match state.microsoft {
        Some(microsoft) => microsoft.vendor_code,
        None => 0,
    };
    match state.stage {
        Stage::Device => Some(descriptor_request(USB_DT_DEVICE, 0, 0, 18)),
        Stage::Languages => Some(descriptor_request(USB_DT_STRING, 0, 0, 255)),
        Stage::ConfigurationHeader => Some(descriptor_request(USB_DT_CONFIGURATION, 0, 0, 9)),
        Stage::Configuration => Some(
            descriptor_request(USB_DT_CONFIGURATION, 0, 0, state.length),
        ),
        Stage::Text => {
            let (index, language) = text_key(state, state.position);
            Some(descriptor_request(USB_DT_STRING, index, language, 255))
        },
        Stage::OsText => Some(descriptor_request(USB_DT_STRING, MICROSOFT_STRING_INDEX, 0, 255)),
        Stage::CompatibleIds => Some(
            SetupPacket {
                request_type: 0xc0,
                request: vendor_code,
                value: 0,
                index: 4,
                length: 255,
            },
        ),
        Stage::Properties => Some(
            SetupPacket {
                request_type: 0xc1,
                request: vendor_code,
                value: state.interfaces[state.position as int] as u16,
                index: 5,
                length: 255,
            },
        ),
        Stage::BosHeader => Some(descriptor_request(USB_DT_BOS, 0, 0, 5)),
        Stage::Bos => Some(descriptor_request(USB_DT_BOS, 0, 0, state.length)),
        Stage::SelectConfiguration => Some(
            SetupPacket {
                request_type: 0x00,
                request: USB_REQ_SET_CONFIGURATION,
                value: 1,
                index: 0,
                length: 0,
            },
        ),
        Stage::LandingPage => Some(
            SetupPacket {
                request_type: 0xc0,
                request: state.capability.vendor_code,
                value: state.capability.landing_index as u16,
                index: 2,
                length: 255,
            },
        ),
        Stage::Complete => None,
        Stage::Failed(_) => None,
    }
}

/// A conversation that has failed.
pub open spec fn failed(state: DiscoveryModel, fault: DiscoveryFault) -> DiscoveryModel {
    DiscoveryModel { stage: Stage::Failed(fault), ..state }
}

/// After a device descriptor.
pub open spec fn after_device(state: DiscoveryModel, reply: Seq<u8>) -> DiscoveryModel {
    if reply.len() != 18 || reply[0] != 18 || reply[1] != USB_DT_DEVICE {
        failed(state, DiscoveryFault::InvalidDevice)
    } else if reply[17] != 1 {
        failed(state, DiscoveryFault::ConfigurationCount)
    } else {
        DiscoveryModel { device: reply, stage: Stage::Languages, ..state }
    }
}

/// The 16-bit words in `bytes`, low byte first.
pub open spec fn words_of(bytes: Seq<u8>) -> Seq<u16> {
    Seq::new(bytes.len() / 2, |i: int| le16_at(bytes, 2 * i))
}

/// After a language descriptor.
pub open spec fn after_languages(state: DiscoveryModel, reply: Seq<u8>) -> DiscoveryModel {
    if reply.len() < 4 || reply[1] != USB_DT_STRING || reply[0] != reply.len() || reply.len() % 2
        != 0 {
        failed(state, DiscoveryFault::InvalidLanguages)
    } else {
        DiscoveryModel {
            languages: ascending_words(words_of(reply.skip(2))),
            strings: seq![StringModel { index: 0, language_id: 0, descriptor: reply }],
            stage: Stage::ConfigurationHeader,
            ..state
        }
    }
}

/// After the first nine bytes of a configuration.
pub open spec fn after_configuration_header(state: DiscoveryModel, reply: Seq<u8>) -> DiscoveryModel {
    if reply.len() != 9 || reply[0] != 9 || reply[1] != USB_DT_CONFIGURATION {
        failed(state, DiscoveryFault::InvalidConfigurationHeader)
    } else if le16_at(reply, 2) < 9 {
        failed(state, DiscoveryFault::InvalidConfigurationLength)
    } else {
        DiscoveryModel { length: le16_at(reply, 2), stage: Stage::Configuration, ..state }
    }
}

/// Adds a string index to those in use, unless it is zero.
pub open spec fn with_index(indices: Set<u8>, index: u8) -> Set<u8> {
    if index == 0 {
        indices
    } else {
        indices.insert(index)
    }
}

/// Adds the interface numbers and string indices of the descriptors from `offset` on.
pub open spec fn survey(
    bytes: Seq<u8>,
    offset: int,
    interfaces: Set<u8>,
    indices: Set<u8>,
) -> Result<(Set<u8>, Set<u8>), DiscoveryFault>
    decreases bytes.len() - offset,
{
    if offset >= bytes.len() {
        Ok((interfaces, indices))
    } else if bytes.len() - offset < 2 {
        Err(DiscoveryFault::TruncatedDescriptor)
    } else if bytes[offset] < 2 || bytes[offset] > bytes.len() - offset {
        Err(DiscoveryFault::MalformedDescriptor)
    } else if bytes[offset + 1] != USB_DT_INTERFACE {
        survey(bytes, offset + bytes[offset], interfaces, indices)
    } else if bytes[offset] < 9 {
        Err(DiscoveryFault::ShortInterface)
    } else {
        survey(
            bytes,
            offset + bytes[offset],
            interfaces.insert(bytes[offset + 2]),
            with_index(indices, bytes[offset + 8]),
        )
    }
}

/// The string indices of a device descriptor and of a configuration's first descriptor.
pub open spec fn leading_indices(device: Seq<u8>, configuration: Seq<u8>) -> Set<u8> {
    with_index(
        with_index(with_index(with_index(Set::empty(), device[14]), device[15]), device[16]),
        configuration[6],
    )
}

/// After a whole configuration.
pub open spec fn after_configuration(state: DiscoveryModel, reply: Seq<u8>) -> DiscoveryModel {
    if reply.len() != state.length {
        failed(state, DiscoveryFault::TruncatedConfiguration)
    } else {
        match survey(reply, 9, Set::empty(), leading_indices(state.device, reply)) {
            Err(fault) => failed(state, fault),
            Ok((interfaces, indices)) => ask_text(
                DiscoveryModel {
                    configuration: reply,
                    interfaces: ascending_bytes(interfaces),
                    indices: ascending_bytes(indices),
                    position: 0,
                    ..state
                },
            ),
        }
    }
}

/// Asks for the text at the current position, or for the Microsoft OS string behind the last.
pub open spec fn ask_text(state: DiscoveryModel) -> DiscoveryModel {
    DiscoveryModel {
        stage: if state.position < text_total(state) {
            Stage::Text
        } else {
            Stage::OsText
        },
        ..state
    }
}

/// After a text.
pub open spec fn after_text(state: DiscoveryModel, reply: Seq<u8>) -> DiscoveryModel {
    let (index, language_id) = text_key(state, state.position);
    if reply.len() < 2 || reply[1] != USB_DT_STRING {
        failed(state, DiscoveryFault::InvalidString)
    } else {
        ask_text(
            DiscoveryModel {
                strings: state.strings.push(
                    StringModel { index, language_id, descriptor: reply },
                ),
                position: state.position + 1,
                ..state
            },
        )
    }
}

/// After a Microsoft OS string.
pub open spec fn after_os_text(state: DiscoveryModel, reply: Seq<u8>) -> DiscoveryModel {
    if reply.len() < 18 || reply[1] != USB_DT_STRING {
        failed(state, DiscoveryFault::InvalidOsString)
    } else if decode_utf16(words_of(reply.subrange(2, 16))) != Some("MSFT100"@) || reply[16] == 0 {
        failed(state, DiscoveryFault::UnsupportedOsString)
    } else {
        DiscoveryModel {
            strings: state.strings.push(
                StringModel {
                    index: MICROSOFT_STRING_INDEX,
                    language_id: 0,
                    descriptor: reply,
                },
            ),
            microsoft: Some(
                MicrosoftModel {
                    vendor_code: reply[16],
                    compatible_ids: seq![],
                    registry_properties: seq![],
                },
            ),
            stage: Stage::CompatibleIds,
            ..state
        }
    }
}

/// The bytes before the first zero.
pub open spec fn before_nul(bytes: Seq<u8>) -> Seq<u8> {
    match nul_at(bytes, 0) {
        None => bytes,
        Some(nul) => bytes.take(nul),
    }
}

/// The text of a zero-padded identifier, if it is ASCII.
pub open spec fn identifier_text(bytes: Seq<u8>) -> Option<Seq<char>> {
    let text = before_nul(bytes);
    if forall|i: int| 0 <= i < text.len() ==> text[i] < 128 {
        Some(ascii_text(text))
    } else {
        None
    }
}

/// Appends the compatible IDs in the `count` sections from `offset` on to `found`.
pub open spec fn compatible_sections(
    bytes: Seq<u8>,
    offset: int,
    count: nat,
    interfaces: Seq<u8>,
    found: Seq<CompatibleIdModel>,
) -> Result<Seq<CompatibleIdModel>, DiscoveryFault>
    decreases count,
{
    if count == 0 {
        Ok(found)
    } else if !interfaces.contains(bytes[offset]) {
        Err(DiscoveryFault::UnknownInterface)
    } else {
        match (
            identifier_text(bytes.subrange(offset + 2, offset + 10)),
            identifier_text(bytes.subrange(offset + 10, offset + 18)),
        ) {
            (Some(compatible_id), Some(sub_compatible_id)) => compatible_sections(
                bytes,
                offset + 24,
                (count - 1) as nat,
                interfaces,
                found.push(
                    CompatibleIdModel {
                        interface: bytes[offset],
                        compatible_id,
                        sub_compatible_id,
                    },
                ),
            ),
            _ => Err(DiscoveryFault::CompatibleIdText),
        }
    }
}

/// A Microsoft declaration with these compatible IDs.
pub open spec fn with_ids(microsoft: Option<MicrosoftModel>, ids: Seq<CompatibleIdModel>) -> Option<
    MicrosoftModel,
> {
    match microsoft {
        None => None,
        Some(microsoft) => Some(MicrosoftModel { compatible_ids: ids, ..microsoft }),
    }
}

/// A Microsoft declaration with these registry properties.
pub open spec fn with_properties(
    microsoft: Option<MicrosoftModel>,
    properties: Seq<PropertyModel>,
) -> Option<MicrosoftModel> {
    match microsoft {
        None => None,
        Some(microsoft) => Some(MicrosoftModel { registry_properties: properties, ..microsoft }),
    }
}

/// After an answer about compatible IDs.
pub open spec fn after_compatible_ids(state: DiscoveryModel, reply: Seq<u8>) -> DiscoveryModel {
    if reply.len() < 16 || le32_at(reply, 0) > reply.len() {
        failed(state, DiscoveryFault::InvalidCompatibleIds)
    } else if reply[8] == 0 || 16 + 24 * reply[8] > reply.len() {
        failed(state, DiscoveryFault::TruncatedCompatibleIds)
    } else {
        match compatible_sections(reply, 16, reply[8] as nat, state.interfaces, seq![]) {
            Err(fault) => failed(state, fault),
            Ok(ids) => ask_properties(
                DiscoveryModel { microsoft: with_ids(state.microsoft, ids), position: 0, ..state },
            ),
        }
    }
}

/// Asks for the properties of the interface at the current position, or goes on to WebUSB
/// behind the last.
pub open spec fn ask_properties(state: DiscoveryModel) -> DiscoveryModel {
    if state.position < state.interfaces.len() {
        DiscoveryModel { stage: Stage::Properties, ..state }
    } else {
        ask_webusb(state)
    }
}

/// The text of a property name, without a zero at its end.
pub open spec fn property_name_text(bytes: Seq<u8>) -> Result<Seq<char>, DiscoveryFault> {
    let words = words_of(bytes);
    let trimmed = if words.len() > 0 && words.last() == 0 {
        words.drop_last()
    } else {
        words
    };
    if bytes.len() % 2 != 0 {
        Err(DiscoveryFault::OddPropertyName)
    } else {
        match decode_utf16(trimmed) {
            None => Err(DiscoveryFault::PropertyNameEncoding),
            Some(text) => Ok(text),
        }
    }
}

/// The property that starts at `offset`.
pub open spec fn property_at(bytes: Seq<u8>, offset: int, interface: u8) -> Result<
    PropertyModel,
    DiscoveryFault,
> {
    if bytes.len() - offset < 14 {
        Err(DiscoveryFault::TruncatedProperty)
    } else {
        let length = le32_at(bytes, offset);
        let name_length = le16_at(bytes, offset + 8);
        if length < 14 || length > bytes.len() - offset || name_length > length - 14 {
            Err(DiscoveryFault::InvalidProperty)
        } else {
            let name_end = offset + 10 + name_length;
            let data_length = le32_at(bytes, name_end);
            if data_length > offset + length - name_end - 4 {
                Err(DiscoveryFault::TruncatedPropertyValue)
            } else {
                match property_name_text(bytes.subrange(offset + 10, name_end)) {
                    Err(fault) => Err(fault),
                    Ok(name) => Ok(
                        PropertyModel {
                            interface,
                            data_type: le32_at(bytes, offset + 4),
                            name,
                            data: bytes.subrange(name_end + 4, name_end + 4 + data_length),
                        },
                    ),
                }
            }
        }
    }
}

/// Appends the `count` properties from `offset` on to `found`.
pub open spec fn property_list(
    bytes: Seq<u8>,
    offset: int,
    count: nat,
    interface: u8,
    found: Seq<PropertyModel>,
) -> Result<Seq<PropertyModel>, DiscoveryFault>
    decreases count,
{
    if count == 0 {
        Ok(found)
    } else {
        match property_at(bytes, offset, interface) {
            Err(fault) => Err(fault),
            Ok(property) => property_list(
                bytes,
                offset + le32_at(bytes, offset),
                (count - 1) as nat,
                interface,
                found.push(property),
            ),
        }
    }
}

/// The registry properties found so far.
pub open spec fn properties_so_far(state: DiscoveryModel) -> Seq<PropertyModel> {
    match state.microsoft {
        None => seq![],
        Some(microsoft) => microsoft.registry_properties,
    }
}

/// After an answer about the properties of an interface.
pub open spec fn after_properties(state: DiscoveryModel, reply: Seq<u8>) -> DiscoveryModel {
    if reply.len() < 10 || le32_at(reply, 0) > reply.len() {
        failed(state, DiscoveryFault::InvalidProperties)
    } else {
        match property_list(
            reply,
            10,
            le16_at(reply, 8) as nat,
            state.interfaces[state.position as int],
            properties_so_far(state),
        ) {
            Err(fault) => failed(state, fault),
            Ok(properties) => ask_properties(
                DiscoveryModel {
                    microsoft: with_properties(state.microsoft, properties),
                    position: state.position + 1,
                    ..state
                },
            ),
        }
    }
}

/// Asks for the device capabilities, which devices before USB 2.1 do not have.
pub open spec fn ask_webusb(state: DiscoveryModel) -> DiscoveryModel {
    DiscoveryModel {
        stage: if le16_at(state.device, 2) < 0x0201 {
            Stage::Complete
        } else {
            Stage::BosHeader
        },
        ..state
    }
}

/// After the first five bytes of the device capabilities.
pub open spec fn after_bos_header(state: DiscoveryModel, reply: Seq<u8>) -> DiscoveryModel {
    if reply.len() != 5 || reply[1] != USB_DT_BOS {
        failed(state, DiscoveryFault::InvalidBosHeader)
    } else {
        DiscoveryModel { length: le16_at(reply, 2), stage: Stage::Bos, ..state }
    }
}

/// The identifier of the WebUSB platform capability.
pub open spec fn webusb_uuid() -> Seq<u8> {
    seq![
        0x38u8,
        0xb6,
        0x08,
        0x34,
        0xa9,
        0x09,
        0xa0,
        0x47,
        0x8b,
        0xfd,
        0xa0,
        0x76,
        0x88,
        0x15,
        0xb6,
        0x65,
    ]
}

/// Whether the capability of `length` bytes at `offset` is WebUSB's.
pub open spec fn is_webusb(bytes: Seq<u8>, offset: int) -> bool {
    &&& bytes[offset] >= 24
    &&& bytes[offset + 1] == USB_DT_DEVICE_CAPABILITY
    &&& bytes[offset + 2] == USB_DC_PLATFORM
    &&& bytes.subrange(offset + 4, offset + 20) == webusb_uuid()
}

/// The first WebUSB capability from `offset` on.
pub open spec fn find_webusb(bytes: Seq<u8>, offset: int) -> Result<
    Option<Capability>,
    DiscoveryFault,
>
    decreases bytes.len() - offset,
{
    if offset >= bytes.len() {
        Ok(None)
    } else if bytes[offset] < 3 || bytes[offset] > bytes.len() - offset {
        Err(DiscoveryFault::MalformedCapability)
    } else if is_webusb(bytes, offset) {
        Ok(
            Some(
                Capability {
                    version: le16_at(bytes, offset + 20),
                    vendor_code: bytes[offset + 22],
                    landing_index: bytes[offset + 23],
                },
            ),
        )
    } else {
        find_webusb(bytes, offset + bytes[offset])
    }
}

/// A conversation that ends with a WebUSB capability.
pub open spec fn complete_webusb(
    state: DiscoveryModel,
    capability: Capability,
    landing_page: Seq<char>,
) -> DiscoveryModel {
    DiscoveryModel {
        webusb: Some(
            WebUsbModel {
                version: capability.version,
                vendor_code: capability.vendor_code,
                landing_page,
            },
        ),
        stage: Stage::Complete,
        ..state
    }
}

/// After the device capabilities. A landing page can be asked for once the device is
/// configured.
pub open spec fn after_bos(state: DiscoveryModel, reply: Seq<u8>) -> DiscoveryModel {
    if reply.len() != state.length {
        failed(state, DiscoveryFault::TruncatedBos)
    } else {
        match find_webusb(reply, 5) {
            Err(fault) => failed(state, fault),
            Ok(None) => DiscoveryModel { stage: Stage::Complete, ..state },
            Ok(Some(capability)) => if capability.landing_index == 0 {
                complete_webusb(state, capability, seq![])
            } else {
                DiscoveryModel { capability, stage: Stage::SelectConfiguration, ..state }
            },
        }
    }
}

/// The text that a WebUSB address scheme stands for.
pub open spec fn url_prefix(scheme: u8) -> Option<Seq<char>> {
    if scheme == 0 {
        Some("http://"@)
    } else if scheme == 1 {
        Some("https://"@)
    } else if scheme == 255 {
        Some(seq![])
    } else {
        None
    }
}

/// The address in a WebUSB URL descriptor.
pub open spec fn url_text(bytes: Seq<u8>) -> Result<Seq<char>, DiscoveryFault> {
    if bytes.len() < 3 || !(3 <= bytes[0] <= bytes.len()) || bytes[1] != 3 {
        Err(DiscoveryFault::InvalidUrl)
    } else {
        let suffix = bytes.subrange(3, bytes[0] as int);
        match url_prefix(bytes[2]) {
            None => Err(DiscoveryFault::UrlScheme),
            Some(prefix) => if !valid_utf8(suffix) {
                Err(DiscoveryFault::UrlEncoding)
            } else {
                Ok(prefix + decode_utf8(suffix))
            },
        }
    }
}

/// After a WebUSB URL descriptor.
pub open spec fn after_landing_page(state: DiscoveryModel, reply: Seq<u8>) -> DiscoveryModel {
    match url_text(reply) {
        Err(fault) => failed(state, fault),
        Ok(landing_page) => complete_webusb(state, state.capability, landing_page),
    }
}

/// After a transfer that the firmware stalled.
pub open spec fn after_stall(state: DiscoveryModel) -> DiscoveryModel {
    match state.stage {
        Stage::OsText => ask_webusb(state),
        Stage::CompatibleIds => ask_properties(DiscoveryModel { position: 0, ..state }),
        Stage::Properties => ask_properties(
            DiscoveryModel { position: state.position + 1, ..state },
        ),
        Stage::BosHeader => DiscoveryModel { stage: Stage::Complete, ..state },
        Stage::SelectConfiguration => failed(state, DiscoveryFault::ConfigurationRejected),
        Stage::LandingPage => failed(state, DiscoveryFault::StalledUrl),
        Stage::Complete => state,
        Stage::Failed(_) => state,
        _ => failed(state, DiscoveryFault::Stalled),
    }
}

/// After a reply: the bytes that the firmware sent, or nothing where it stalled.
#[verifier::opaque]
pub open spec fn after_reply(state: DiscoveryModel, reply: Option<Seq<u8>>) -> DiscoveryModel {
    match reply {
        None => after_stall(state),
        Some(bytes) => match state.stage {
            Stage::Device => after_device(state, bytes),
            Stage::Languages => after_languages(state, bytes),
            Stage::ConfigurationHeader => after_configuration_header(state, bytes),
            Stage::Configuration => after_configuration(state, bytes),
            Stage::Text => after_text(state, bytes),
            Stage::OsText => after_os_text(state, bytes),
            Stage::CompatibleIds => after_compatible_ids(state, bytes),
            Stage::Properties => after_properties(state, bytes),
            Stage::BosHeader => after_bos_header(state, bytes),
            Stage::Bos => after_bos(state, bytes),
            Stage::SelectConfiguration => DiscoveryModel { stage: Stage::LandingPage, ..state },
            Stage::LandingPage => after_landing_page(state, bytes),
            Stage::Complete => state,
            Stage::Failed(_) => state,
        },
    }
}

/// A conversation after all of `replies`.
pub open spec fn after_replies(speed: UsbSpeed, replies: Seq<Option<Seq<u8>>>) -> DiscoveryModel
    decreases replies.len(),
{
    if replies.len() == 0 {
        initial(speed)
    } else {
        after_reply(after_replies(speed, replies.drop_last()), replies.last())
    }
}

/// What a conversation that asks for nothing more amounts to.
#[verifier::opaque]
pub open spec fn concluded(state: DiscoveryModel) -> Result<PersonalityModel, DiscoveryFault> {
    match state.stage {
        Stage::Failed(fault) => Err(fault),
        _ => match finished(
            BuilderModel {
                max_speed: state.speed,
                device: Some(state.device),
                configuration: Some(state.configuration),
                strings: state.strings,
                microsoft: state.microsoft,
                webusb: state.webusb,
            },
        ) {
            Err(error) => Err(DiscoveryFault::Personality(error)),
            Ok(personality) => Ok(personality),
        },
    }
}

impl DiscoveryModel {
    /// What holds of every conversation that began with [`initial`].
    pub open spec fn wf(self) -> bool {
        &&& self.languages.len() <= 126
        &&& self.indices.len() <= 256
        &&& self.interfaces.len() <= 256
        &&& !(self.stage is Device) && !(self.stage is Failed) ==> self.device.len() == 18
        &&& self.stage is Configuration ==> self.length >= 9
        &&& self.stage is Text ==> self.position < text_total(self)
        &&& self.stage is CompatibleIds || self.stage is Properties ==> self.microsoft is Some
        &&& self.stage is Properties ==> self.position < self.interfaces.len()
    }

    /// How many steps of the conversation are left at most, beside those of the current stage.
    pub open spec fn stages_left(self) -> nat {
        match self.stage {
            Stage::Device => 12,
            Stage::Languages => 11,
            Stage::ConfigurationHeader => 10,
            Stage::Configuration => 9,
            Stage::Text => 8,
            Stage::OsText => 7,
            Stage::CompatibleIds => 6,
            Stage::Properties => 5,
            Stage::BosHeader => 4,
            Stage::Bos => 3,
            Stage::SelectConfiguration => 2,
            Stage::LandingPage => 1,
            Stage::Complete => 0,
            Stage::Failed(_) => 0,
        }
    }

    /// How many transfers the current stage asks for at most.
    pub open spec fn transfers_left(self) -> int {
        match self.stage {
            Stage::Text => text_total(self) - self.position,
            Stage::Properties => self.interfaces.len() - self.position,
            _ => 0,
        }
    }
}

} // verus!
