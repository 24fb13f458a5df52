//! Validation of a published personality and its projection to Linux FunctionFS.

use crate::bytes::{
    le16, le16_at, le32, le_word, length_word, low_word, push_bytes, push_le16, push_le32,
};
use crate::functionfs::{
    ALL_CTRL_RECIP, CONFIG0_SETUP, DESCRIPTORS_MAGIC_V2, HAS_FS_DESC, HAS_MS_OS_DESC,
    STRINGS_MAGIC, USB_DT_ENDPOINT, USB_DT_INTERFACE,
};
use crate::microsoft::{
    count_functionfs_os_descriptors, microsoft_projection, os_descriptor_count,
    project_microsoft_os_1,
};
use crate::personality::{
    strings_view, webusb_view, PersonalityModel, StringDescriptor, StringModel, UsbPersonality,
    WebUsb as BundleWebUsb, WebUsbModel, PERSONALITY_SCHEMA,
};
use crate::sets::ByteSet;
use crate::text::{decode_utf16, from_utf16, has_char, starts_with, text_view, to_chars};
use vstd::prelude::*;
use vstd::slice::slice_subrange;
use vstd::utf8::encode_utf8;

verus! {

/// Descriptor type of a device.
pub const USB_DT_DEVICE: u8 = 1;

/// Descriptor type of a configuration.
pub const USB_DT_CONFIGURATION: u8 = 2;

/// Descriptor type of a string.
pub const USB_DT_STRING: u8 = 3;

/// The most string descriptors that a personality may carry.
pub const MAX_STRING_DESCRIPTORS: usize = 256;

/// Why a personality is refused.
#[derive(Clone, Copy, Debug, Eq, PartialEq, Structural)]
pub enum ProjectionError {
    Schema(u16),
    TooManyStrings,
    DuplicateString,
    InvalidDevice,
    ConfigurationCount,
    NoLanguages,
    InvalidLanguages,
    MissingString(u8),
    InvalidString(u8),
    StringEncoding,
    InvalidConfiguration,
    ConfigurationLength,
    UnsupportedConfiguration,
    TruncatedDescriptor,
    DescriptorLength,
    ShortInterface,
    TooManyFunctionStrings,
    ShortEndpoint,
    EmbeddedNul,
    ZeroVendorCode,
    TooManyCompatibleIds,
    CompatibleIdInterface,
    CompatibleIdText,
    PropertyTarget,
    PropertyNameTooLong,
    PropertyTooLarge,
    TooManyProperties,
    WebUsb,
    LandingPage,
    TruncatedOsDescriptor,
    OsDescriptorLength,
    BlobTooLarge,
}

/// Who the device says it is.
#[derive(Clone, Debug, Eq, PartialEq)]
pub struct DeviceIdentity {
    pub vendor_id: u16,
    pub product_id: u16,
    pub bcd_usb: u16,
    pub bcd_device: u16,
    pub device_class: u8,
    pub device_subclass: u8,
    pub device_protocol: u8,
    pub manufacturer: Option<String>,
    pub product: Option<String>,
    pub serial: Option<String>,
}

/// The contents of a [`DeviceIdentity`].
#[verifier::ext_equal]
pub struct IdentityModel {
    pub vendor_id: u16,
    pub product_id: u16,
    pub bcd_usb: u16,
    pub bcd_device: u16,
    pub device_class: u8,
    pub device_subclass: u8,
    pub device_protocol: u8,
    pub manufacturer: Option<Seq<char>>,
    pub product: Option<Seq<char>>,
    pub serial: Option<Seq<char>>,
}

impl View for DeviceIdentity {
    type V = IdentityModel;

    open spec fn view(&self) -> IdentityModel {
        IdentityModel {
            vendor_id: self.vendor_id,
            product_id: self.product_id,
            bcd_usb: self.bcd_usb,
            bcd_device: self.bcd_device,
            device_class: self.device_class,
            device_subclass: self.device_subclass,
            device_protocol: self.device_protocol,
            manufacturer: text_view(self.manufacturer),
            product: text_view(self.product),
            serial: text_view(self.serial),
        }
    }
}

/// One endpoint of the device.
#[derive(Clone, Copy, Debug, Eq, PartialEq, Structural)]
pub struct Endpoint {
    pub address: u8,
    pub transfer_type: u8,
    pub max_packet_size: u16,
}

/// The Microsoft OS 1.0 attributes of a gadget.
#[derive(Clone, Debug, Eq, PartialEq)]
pub struct MicrosoftOs10 {
    pub vendor_code: u8,
    pub signature: String,
}

/// The WebUSB attributes of a gadget.
#[derive(Clone, Debug, Eq, PartialEq)]
pub struct WebUsb {
    pub version: u16,
    pub vendor_code: u8,
    pub landing_page: String,
}

/// What a gadget needs in order to show a personality.
#[derive(Clone, Debug, Eq, PartialEq)]
pub struct Personality {
    pub device: DeviceIdentity,
    pub max_speed: &'static str,
    pub configuration_attributes: u8,
    pub max_power_ma: u16,
    pub descriptors: Vec<u8>,
    pub strings: Vec<u8>,
    pub endpoints: Vec<Endpoint>,
    pub microsoft_os_1: Option<MicrosoftOs10>,
    pub webusb: Option<WebUsb>,
}

/// The contents of a [`Personality`].
#[verifier::ext_equal]
pub struct ProjectionModel {
    pub device: IdentityModel,
    pub max_speed: Seq<char>,
    pub configuration_attributes: u8,
    pub max_power_ma: u16,
    pub descriptors: Seq<u8>,
    pub strings: Seq<u8>,
    pub endpoints: Seq<Endpoint>,
    pub microsoft: Option<(u8, Seq<char>)>,
    pub webusb: Option<WebUsbModel>,
}

impl View for Personality {
    type V = ProjectionModel;

    open spec fn view(&self) -> ProjectionModel {
        ProjectionModel {
            device: self.device@,
            max_speed: self.max_speed@,
            configuration_attributes: self.configuration_attributes,
            max_power_ma: self.max_power_ma,
            descriptors: self.descriptors@,
            strings: self.strings@,
            endpoints: self.endpoints@,
            microsoft: gadget_microsoft_view(self.microsoft_os_1),
            webusb: gadget_webusb_view(self.webusb),
        }
    }
}

/// The contents of optional Microsoft OS 1.0 attributes.
pub open spec fn gadget_microsoft_view(attributes: Option<MicrosoftOs10>) -> Option<
    (u8, Seq<char>),
> {
    match attributes {
        None => None,
        Some(attributes) => Some((attributes.vendor_code, attributes.signature@)),
    }
}

/// The contents of optional WebUSB attributes.
pub open spec fn gadget_webusb_view(attributes: Option<WebUsb>) -> Option<WebUsbModel> {
    match attributes {
        None => None,
        Some(attributes) => Some(
            WebUsbModel {
                version: attributes.version,
                vendor_code: attributes.vendor_code,
                landing_page: attributes.landing_page@,
            },
        ),
    }
}

/// The descriptor under an index and a language.
pub open spec fn find_string(strings: Seq<StringModel>, index: u8, language: u16) -> Option<Seq<u8>>
    decreases strings.len(),
{
    if strings.len() == 0 {
        None
    } else if strings[0].index == index && strings[0].language_id == language {
        Some(strings[0].descriptor)
    } else {
        find_string(strings.skip(1), index, language)
    }
}

/// The first language of a personality.
pub open spec fn first_language(strings: Seq<StringModel>) -> Result<u16, ProjectionError> {
    match find_string(strings, 0, 0) {
        None => Err(ProjectionError::NoLanguages),
        Some(descriptor) => if descriptor.len() < 4 || descriptor[1] != USB_DT_STRING
            || descriptor[0] > descriptor.len() {
            Err(ProjectionError::InvalidLanguages)
        } else {
            Ok(le16_at(descriptor, 2))
        },
    }
}

/// The UTF-16 code units in a string descriptor.
pub open spec fn descriptor_words(descriptor: Seq<u8>) -> Seq<u16> {
    Seq::new(((descriptor[0] - 2) / 2) as nat, |i: int| le16_at(descriptor, 2 + 2 * i))
}

/// The text under an index and a language.
pub open spec fn text_of(strings: Seq<StringModel>, index: u8, language: u16) -> Result<
    Seq<char>,
    ProjectionError,
> {
    match find_string(strings, index, language) {
        None => Err(ProjectionError::MissingString(index)),
        Some(descriptor) => if descriptor.len() < 2 || descriptor[1] != USB_DT_STRING || !(2
            <= descriptor[0] <= descriptor.len()) || descriptor[0] % 2 != 0 {
            Err(ProjectionError::InvalidString(index))
        } else {
            match decode_utf16(descriptor_words(descriptor)) {
                None => Err(ProjectionError::StringEncoding),
                Some(text) => Ok(text),
            }
        },
    }
}

/// The text under an index that may be zero for none.
pub open spec fn optional_text_of(strings: Seq<StringModel>, index: u8, language: u16) -> Result<
    Option<Seq<char>>,
    ProjectionError,
> {
    if index == 0 {
        Ok(None)
    } else {
        match text_of(strings, index, language) {
            Err(error) => Err(error),
            Ok(text) => Ok(Some(text)),
        }
    }
}

/// Who a device descriptor says the device is.
pub open spec fn identity_of(device: Seq<u8>, strings: Seq<StringModel>, language: u16) -> Result<
    IdentityModel,
    ProjectionError,
> {
    match (
        optional_text_of(strings, device[14], language),
        optional_text_of(strings, device[15], language),
        optional_text_of(strings, device[16], language),
    ) {
        (Err(error), _, _) => Err(error),
        (_, Err(error), _) => Err(error),
        (_, _, Err(error)) => Err(error),
        (Ok(manufacturer), Ok(product), Ok(serial)) => Ok(
            IdentityModel {
                vendor_id: le16_at(device, 8),
                product_id: le16_at(device, 10),
                bcd_usb: le16_at(device, 2),
                bcd_device: le16_at(device, 12),
                device_class: device[4],
                device_subclass: device[5],
                device_protocol: device[6],
                manufacturer,
                product,
                serial,
            },
        ),
    }
}

/// What the descriptors of a configuration amount to once their strings are renumbered: the
/// new descriptors and their number, the endpoints, the old string indices in the order of the
/// new ones, and the interface numbers.
pub struct Rewritten {
    pub body: Seq<u8>,
    pub count: nat,
    pub endpoints: Seq<Endpoint>,
    pub originals: Seq<u8>,
    pub interfaces: Set<u8>,
}

/// Nothing read yet.
pub open spec fn nothing_rewritten() -> Rewritten {
    Rewritten {
        body: seq![],
        count: 0,
        endpoints: seq![],
        originals: seq![],
        interfaces: Set::empty(),
    }
}

/// The position of the first `byte`, or the length where there is none.
pub open spec fn rank(bytes: Seq<u8>, byte: u8) -> nat
    decreases bytes.len(),
{
    if bytes.len() == 0 || bytes[0] == byte {
        0
    } else {
        1 + rank(bytes.skip(1), byte)
    }
}

/// What one more descriptor makes of `state`.
pub open spec fn rewrite_descriptor(state: Rewritten, descriptor: Seq<u8>) -> Result<
    Rewritten,
    ProjectionError,
> {
    let copied = Rewritten {
        body: state.body + descriptor,
        count: state.count + 1,
        ..state
    };
    if descriptor[1] == USB_DT_INTERFACE {
        let original = descriptor[8];
        let position = rank(state.originals, original);
        let interfaces = state.interfaces.insert(descriptor[2]);
        if descriptor.len() < 9 {
            Err(ProjectionError::ShortInterface)
        } else if original == 0 {
            Ok(Rewritten { interfaces, ..copied })
        } else if state.originals.len() >= 255 {
            Err(ProjectionError::TooManyFunctionStrings)
        } else {
            Ok(
                Rewritten {
                    body: state.body + descriptor.update(8, (position + 1) as u8),
                    originals: if position < state.originals.len() {
                        state.originals
                    } else {
                        state.originals.push(original)
                    },
                    interfaces,
                    ..copied
                },
            )
        }
    } else if descriptor[1] == USB_DT_ENDPOINT {
        if descriptor.len() < 7 {
            Err(ProjectionError::ShortEndpoint)
        } else {
            Ok(
                Rewritten {
                    endpoints: state.endpoints.push(
                        Endpoint {
                            address: descriptor[2],
                            transfer_type: descriptor[3] & 0x03,
                            max_packet_size: le16_at(descriptor, 4),
                        },
                    ),
                    ..copied
                },
            )
        }
    } else {
        Ok(copied)
    }
}

/// What the descriptors from `offset` on make of `state`.
pub open spec fn rewrite(bytes: Seq<u8>, offset: int, state: Rewritten) -> Result<
    Rewritten,
    ProjectionError,
>
    decreases bytes.len() - offset,
{
    if offset >= bytes.len() {
        Ok(state)
    } else if bytes.len() - offset < 2 {
        Err(ProjectionError::TruncatedDescriptor)
    } else if bytes[offset] < 2 || offset + bytes[offset] > bytes.len() {
        Err(ProjectionError::DescriptorLength)
    } else {
        match rewrite_descriptor(state, bytes.subrange(offset, offset + bytes[offset])) {
            Err(error) => Err(error),
            Ok(next) => rewrite(bytes, offset + bytes[offset], next),
        }
    }
}

/// Appends the texts under `indices` to `out`, each with a zero byte behind it.
pub open spec fn text_run(
    strings: Seq<StringModel>,
    language: u16,
    indices: Seq<u8>,
    out: Seq<u8>,
) -> Result<Seq<u8>, ProjectionError>
    decreases indices.len(),
{
    if indices.len() == 0 {
        Ok(out)
    } else {
        match text_of(strings, indices[0], language) {
            Err(error) => Err(error),
            Ok(text) => if text.contains('\0') {
                Err(ProjectionError::EmbeddedNul)
            } else {
                text_run(
                    strings,
                    language,
                    indices.skip(1),
                    out + encode_utf8(text) + seq![0u8],
                )
            },
        }
    }
}

/// The FunctionFS string blob with the texts under `indices`.
pub open spec fn string_blob(strings: Seq<StringModel>, language: u16, indices: Seq<u8>) -> Result<
    Seq<u8>,
    ProjectionError,
> {
    let start = if indices.len() == 0 {
        seq![]
    } else {
        le16(language)
    };
    match text_run(strings, language, indices, start) {
        Err(error) => Err(error),
        Ok(body) => Ok(
            le32(STRINGS_MAGIC) + le32(low_word(16 + body.len())) + le32(indices.len() as u32)
                + le32(
                if indices.len() == 0 {
                    0
                } else {
                    1
                },
            ) + body,
        ),
    }
}

/// Whether a landing page is empty or an ASCII HTTP(S) address that fits its descriptor.
pub open spec fn landing_page_valid(page: Seq<char>) -> bool {
    &&& page.len() <= 252
    &&& forall|i: int| 0 <= i < page.len() ==> #[trigger] (page[i] as u32) < 128
    &&& page.len() == 0 || "https://"@.is_prefix_of(page) || "http://"@.is_prefix_of(page)
}

/// The gadget attributes of an optional WebUSB capability.
pub open spec fn webusb_projection(declaration: Option<WebUsbModel>, bcd_usb: u16) -> Result<
    Option<WebUsbModel>,
    ProjectionError,
> {
    match declaration {
        None => Ok(None),
        Some(capability) => if bcd_usb < 0x0201 || capability.version != 0x0100
            || capability.vendor_code == 0 {
            Err(ProjectionError::WebUsb)
        } else if !landing_page_valid(capability.landing_page) {
            Err(ProjectionError::LandingPage)
        } else {
            Ok(Some(capability))
        },
    }
}

/// The flags of a projected descriptor blob.
pub open spec fn blob_flags(has_os: bool) -> u32 {
    if has_os {
        201
    } else {
        193
    }
}

/// The FunctionFS descriptor blob of a configuration's descriptors and Microsoft OS descriptors.
pub open spec fn descriptor_blob(count: nat, body: Seq<u8>, os: Seq<u8>) -> Result<
    Seq<u8>,
    ProjectionError,
> {
    match os_descriptor_count(os, 0, 0) {
        Err(error) => Err(error),
        Ok(os_count) => {
            let counts = if os.len() == 0 {
                le32(count as u32)
            } else {
                le32(count as u32) + le32(os_count as u32)
            };
            let length = 12 + counts.len() + body.len() + os.len();
            if length > u32::MAX {
                Err(ProjectionError::BlobTooLarge)
            } else {
                Ok(
                    le32(DESCRIPTORS_MAGIC_V2) + le32(length as u32) + le32(
                        blob_flags(os.len() > 0),
                    ) + counts + body + os,
                )
            }
        },
    }
}

/// Why a configuration's first descriptor is refused, if it is.
pub open spec fn configuration_error(configuration: Seq<u8>) -> Option<ProjectionError> {
    if configuration.len() < 9 || configuration[0] != 9 || configuration[1]
        != USB_DT_CONFIGURATION {
        Some(ProjectionError::InvalidConfiguration)
    } else if le16_at(configuration, 2) < 9 {
        Some(ProjectionError::ConfigurationLength)
    } else if configuration.len() != le16_at(configuration, 2) || configuration[5] != 1 {
        Some(ProjectionError::UnsupportedConfiguration)
    } else {
        None
    }
}

/// Why a device descriptor is refused, if it is.
pub open spec fn device_error(device: Seq<u8>) -> Option<ProjectionError> {
    if device.len() != 18 || device[0] != 18 || device[1] != USB_DT_DEVICE {
        Some(ProjectionError::InvalidDevice)
    } else if device[17] != 1 {
        Some(ProjectionError::ConfigurationCount)
    } else {
        None
    }
}

/// What a gadget shows of a configuration whose frame is valid.
pub open spec fn projected_configuration(
    identity: IdentityModel,
    language: u16,
    bundle: PersonalityModel,
) -> Result<ProjectionModel, ProjectionError> {
    let configuration = bundle.configuration;
    match rewrite(configuration.skip(9), 0, nothing_rewritten()) {
        Err(error) => Err(error),
        Ok(rewritten) => match (
            string_blob(bundle.strings, language, rewritten.originals),
            microsoft_projection(bundle.microsoft, rewritten.interfaces),
            webusb_projection(bundle.webusb, identity.bcd_usb),
        ) {
            (Err(error), _, _) => Err(error),
            (_, Err(error), _) => Err(error),
            (_, _, Err(error)) => Err(error),
            (Ok(strings), Ok((microsoft, os)), Ok(webusb)) => match descriptor_blob(
                rewritten.count,
                rewritten.body,
                os,
            ) {
                Err(error) => Err(error),
                Ok(descriptors) => Ok(
                    ProjectionModel {
                        device: identity,
                        max_speed: bundle.max_speed.name(),
                        configuration_attributes: configuration[7],
                        max_power_ma: (2 * configuration[8]) as u16,
                        descriptors,
                        strings,
                        endpoints: rewritten.endpoints,
                        microsoft,
                        webusb,
                    },
                ),
            },
        },
    }
}

/// What a gadget shows of a personality, whatever its layout version and number of strings.
pub open spec fn projected(bundle: PersonalityModel) -> Result<ProjectionModel, ProjectionError> {
    match device_error(bundle.device) {
        Some(error) => Err(error),
        None => match first_language(bundle.strings) {
            Err(error) => Err(error),
            Ok(language) => match (
                identity_of(bundle.device, bundle.strings, language),
                configuration_error(bundle.configuration),
            ) {
                (Err(error), _) => Err(error),
                (Ok(_), Some(error)) => Err(error),
                (Ok(identity), None) => projected_configuration(identity, language, bundle),
            },
        },
    }
}

/// Whether no two descriptors share an index and a language.
pub open spec fn distinct_strings(strings: Seq<StringModel>) -> bool {
    forall|i: int, j: int|
        0 <= i < j < strings.len() ==> !(strings[i].index == strings[j].index
            && strings[i].language_id == strings[j].language_id)
}

/// What a gadget shows of a personality, or why the personality is refused.
pub open spec fn discovered(bundle: PersonalityModel) -> Result<ProjectionModel, ProjectionError> {
    if bundle.schema != PERSONALITY_SCHEMA {
        Err(ProjectionError::Schema(bundle.schema))
    } else if bundle.strings.len() > MAX_STRING_DESCRIPTORS {
        Err(ProjectionError::TooManyStrings)
    } else if !distinct_strings(bundle.strings) {
        Err(ProjectionError::DuplicateString)
    } else {
        projected(bundle)
    }
}

/// The contents of what projecting a personality gave.
pub open spec fn projection_view(outcome: Result<Personality, ProjectionError>) -> Result<
    ProjectionModel,
    ProjectionError,
> {
    match outcome {
        Err(error) => Err(error),
        Ok(personality) => Ok(personality@),
    }
}

/// Checks a published personality and projects it.
pub fn discover_bundle(bundle: UsbPersonality) -> (outcome: Result<
    (UsbPersonality, Personality),
    ProjectionError,
>)
    ensures
        match outcome {
            Err(error) => discovered(bundle@) == Err::<ProjectionModel, ProjectionError>(error),
            Ok((kept, personality)) => kept == bundle && discovered(bundle@) == Ok::<
                ProjectionModel,
                ProjectionError,
            >(personality@),
        },
{
    if bundle.schema != PERSONALITY_SCHEMA {
        return Err(ProjectionError::Schema(bundle.schema));
    }
    if bundle.strings.len() > MAX_STRING_DESCRIPTORS {
        return Err(ProjectionError::TooManyStrings);
    }
    if !strings_distinct(&bundle.strings) {
        return Err(ProjectionError::DuplicateString);
    }
    let personality = project(&bundle)?;
    Ok((bundle, personality))
}

fn strings_distinct(strings: &Vec<StringDescriptor>) -> (distinct: bool)
    ensures
        distinct == distinct_strings(strings_view(strings@)),
{
    let ghost model = strings_view(strings@);
    let mut j: usize = 0;
    while j < strings.len()
        invariant
            j <= strings@.len(),
            model == strings_view(strings@),
            forall|a: int, b: int|
                0 <= a < b < j ==> !(strings@[a].index == strings@[b].index
                    && strings@[a].language_id == strings@[b].language_id),
        decreases strings@.len() - j,
    {
        let mut i: usize = 0;
        while i < j
            invariant
                i <= j < strings@.len(),
                model == strings_view(strings@),
                forall|a: int|
                    0 <= a < i ==> !(strings@[a].index == strings@[j as int].index
                        && strings@[a].language_id == strings@[j as int].language_id),
            decreases j - i,
        {
            if strings[i].index == strings[j].index && strings[i].language_id
                == strings[j].language_id {
                assert(model[i as int].index == model[j as int].index);
                assert(model[i as int].language_id == model[j as int].language_id);
                return false;
            }
            i = i + 1;
        }
        j = j + 1;
    }
    true
}

/// Projects a personality.
pub fn project(bundle: &UsbPersonality) -> (outcome: Result<Personality, ProjectionError>)
    ensures
        projection_view(outcome) == projected(bundle@),
{
    let device = bundle.device_descriptor.as_slice();
    if device.len() != 18 || device[0] != 18 || device[1] != USB_DT_DEVICE {
        return Err(ProjectionError::InvalidDevice);
    }
    if device[17] != 1 {
        return Err(ProjectionError::ConfigurationCount);
    }
    let language: u16 = language_id(&bundle.strings)?;
    let identity = read_identity(device, &bundle.strings, language)?;

    let config = bundle.configuration_descriptor.as_slice();
    if config.len() < 9 || config[0] != 9 || config[1] != USB_DT_CONFIGURATION {
        return Err(ProjectionError::InvalidConfiguration);
    }
    let total_length: u16 = le_word(config, 2);
    if total_length < 9 {
        return Err(ProjectionError::ConfigurationLength);
    }
    if config.len() != total_length as usize || config[5] != 1 {
        return Err(ProjectionError::UnsupportedConfiguration);
    }
    let rest = slice_subrange(config, 9, config.len());
    assert(rest@ =~= bundle@.configuration.skip(9));
    let inspection = inspect_and_rewrite_configuration(rest)?;
    let strings = functionfs_strings(&bundle.strings, language, &inspection.originals)?;
    let (microsoft_os_1, os_descriptors) = project_microsoft_os_1(
        &bundle.microsoft_os_1,
        &inspection.interfaces,
    )?;
    let webusb = project_webusb(&bundle.webusb, identity.bcd_usb)?;
    let descriptors = functionfs_descriptors(
        inspection.count,
        inspection.body.as_slice(),
        os_descriptors.as_slice(),
    )?;
    Ok(
        Personality {
            device: identity,
            max_speed: bundle.max_speed.configfs_name(),
            configuration_attributes: config[7],
            max_power_ma: config[8] as u16 * 2,
            descriptors,
            strings,
            endpoints: inspection.endpoints,
            microsoft_os_1,
            webusb,
        },
    )
}

fn read_identity(device: &[u8], strings: &Vec<StringDescriptor>, language: u16) -> (outcome: Result<
    DeviceIdentity,
    ProjectionError,
>)
    requires
        device@.len() == 18,
    ensures
        match outcome {
            Err(error) => identity_of(device@, strings_view(strings@), language) == Err::<
                IdentityModel,
                ProjectionError,
            >(error),
            Ok(identity) => identity_of(device@, strings_view(strings@), language) == Ok::<
                IdentityModel,
                ProjectionError,
            >(identity@),
        },
{
    Ok(
        DeviceIdentity {
            vendor_id: le_word(device, 8),
            product_id: le_word(device, 10),
            bcd_usb: le_word(device, 2),
            bcd_device: le_word(device, 12),
            device_class: device[4],
            device_subclass: device[5],
            device_protocol: device[6],
            manufacturer: optional_string(strings, device[14], language)?,
            product: optional_string(strings, device[15], language)?,
            serial: optional_string(strings, device[16], language)?,
        },
    )
}

/// The position of the descriptor under an index and a language.
fn locate_string(strings: &Vec<StringDescriptor>, index: u8, language: u16) -> (found: Option<usize>)
    ensures
        match found {
            None => find_string(strings_view(strings@), index, language) is None,
            Some(at) => at < strings@.len() && find_string(strings_view(strings@), index, language)
                == Some(strings@[at as int].descriptor@),
        },
{
    let ghost model = strings_view(strings@);
    let mut i: usize = 0;
    assert(model.skip(0) =~= model);
    while i < strings.len()
        invariant
            i <= strings@.len(),
            model == strings_view(strings@),
            find_string(model, index, language) == find_string(
                model.skip(i as int),
                index,
                language,
            ),
        decreases strings@.len() - i,
    {
        assert(model.skip(i as int).skip(1) =~= model.skip(i + 1));
        assert(model.skip(i as int)[0] == strings@[i as int]@);
        if strings[i].index == index && strings[i].language_id == language {
            return Some(i);
        }
        i = i + 1;
    }
    None
}

/// The first language of a personality.
fn language_id(strings: &Vec<StringDescriptor>) -> (outcome: Result<u16, ProjectionError>)
    ensures
        outcome == first_language(strings_view(strings@)),
{
    let at: usize = match locate_string(strings, 0, 0) {
        Some(at) => at,
        None => return Err(ProjectionError::NoLanguages),
    };
    let descriptor = strings[at].descriptor.as_slice();
    if descriptor.len() < 4 || descriptor[1] != USB_DT_STRING || descriptor[0] as usize
        > descriptor.len() {
        return Err(ProjectionError::InvalidLanguages);
    }
    Ok(le_word(descriptor, 2))
}

/// The text under an index that may be zero for none.
fn optional_string(strings: &Vec<StringDescriptor>, index: u8, language: u16) -> (outcome: Result<
    Option<String>,
    ProjectionError,
>)
    ensures
        match outcome {
            Err(error) => optional_text_of(strings_view(strings@), index, language) == Err::<
                Option<Seq<char>>,
                ProjectionError,
            >(error),
            Ok(text) => optional_text_of(strings_view(strings@), index, language) == Ok::<
                Option<Seq<char>>,
                ProjectionError,
            >(text_view(text)),
        },
{
    if index == 0 {
        return Ok(None);
    }
    let text = usb_string(strings, index, language)?;
    Ok(Some(text))
}

/// The text under an index and a language.
fn usb_string(strings: &Vec<StringDescriptor>, index: u8, language: u16) -> (outcome: Result<
    String,
    ProjectionError,
>)
    ensures
        match outcome {
            Err(error) => text_of(strings_view(strings@), index, language) == Err::<
                Seq<char>,
                ProjectionError,
            >(error),
            Ok(text) => text_of(strings_view(strings@), index, language) == Ok::<
                Seq<char>,
                ProjectionError,
            >(text@),
        },
{
    let at: usize = match locate_string(strings, index, language) {
        Some(at) => at,
        None => return Err(ProjectionError::MissingString(index)),
    };
    let descriptor = strings[at].descriptor.as_slice();
    if descriptor.len() < 2 || descriptor[1] != USB_DT_STRING || descriptor[0] < 2
        || descriptor[0] as usize > descriptor.len() || descriptor[0] % 2 != 0 {
        return Err(ProjectionError::InvalidString(index));
    }
    let words = read_words(descriptor);
    match from_utf16(words.as_slice()) {
        Some(text) => Ok(text),
        None => Err(ProjectionError::StringEncoding),
    }
}

/// The UTF-16 code units in a string descriptor.
fn read_words(descriptor: &[u8]) -> (words: Vec<u16>)
    requires
        descriptor@.len() >= 2,
        2 <= descriptor@[0] <= descriptor@.len(),
    ensures
        words@ == descriptor_words(descriptor@),
{
    let count: usize = (descriptor[0] as usize - 2) / 2;
    let mut words: Vec<u16> = Vec::new();
    let mut i: usize = 0;
    while i < count
        invariant
            i <= count,
            words@.len() == i,
            2 + 2 * count <= descriptor@.len(),
            count <= 127,
            forall|k: int| 0 <= k < i ==> words@[k] == le16_at(descriptor@, 2 + 2 * k),
        decreases count - i,
    {
        words.push(le_word(descriptor, 2 + 2 * i));
        i = i + 1;
    }
    assert(words@ =~= descriptor_words(descriptor@));
    words
}

/// A configuration's descriptors with renumbered strings.
struct ConfigurationInspection {
    count: u32,
    body: Vec<u8>,
    endpoints: Vec<Endpoint>,
    originals: Vec<u8>,
    interfaces: ByteSet,
}

impl ConfigurationInspection {
    spec fn model(self) -> Rewritten {
        Rewritten {
            body: self.body@,
            count: self.count as nat,
            endpoints: self.endpoints@,
            originals: self.originals@,
            interfaces: self.interfaces@,
        }
    }
}

/// The position of the first `byte`, or the length where there is none.
fn find_byte(bytes: &Vec<u8>, byte: u8) -> (position: usize)
    ensures
        position == rank(bytes@, byte),
        position <= bytes@.len(),
{
    let mut i: usize = 0;
    assert(bytes@.skip(0) =~= bytes@);
    while i < bytes.len()
        invariant
            i <= bytes@.len(),
            rank(bytes@, byte) == i + rank(bytes@.skip(i as int), byte),
        decreases bytes@.len() - i,
    {
        assert(bytes@.skip(i as int).skip(1) =~= bytes@.skip(i + 1));
        if bytes[i] == byte {
            return i;
        }
        i = i + 1;
    }
    i
}

/// Reads the descriptors of a configuration and renumbers the strings of its interfaces by
/// their first appearance.
fn inspect_and_rewrite_configuration(bytes: &[u8]) -> (outcome: Result<
    ConfigurationInspection,
    ProjectionError,
>)
    requires
        bytes@.len() <= 65535,
    ensures
        match outcome {
            Err(error) => rewrite(bytes@, 0, nothing_rewritten()) == Err::<
                Rewritten,
                ProjectionError,
            >(error),
            Ok(inspection) => rewrite(bytes@, 0, nothing_rewritten()) == Ok::<
                Rewritten,
                ProjectionError,
            >(inspection.model()) && inspection.body@.len() == bytes@.len()
                && inspection.originals@.len() <= 255,
        },
{
    let mut state = ConfigurationInspection {
        count: 0,
        body: Vec::new(),
        endpoints: Vec::new(),
        originals: Vec::new(),
        interfaces: ByteSet::new(),
    };
    let mut offset: usize = 0;
    assert(state.model() == nothing_rewritten()) by {
        assert(state.body@ =~= seq![]);
        assert(state.endpoints@ =~= seq![]);
        assert(state.originals@ =~= seq![]);
    }
    while offset < bytes.len()
        invariant
            offset <= bytes@.len() <= 65535,
            state.count <= offset,
            state.body@.len() == offset,
            state.originals@.len() <= 255,
            rewrite(bytes@, 0, nothing_rewritten()) == rewrite(
                bytes@,
                offset as int,
                state.model(),
            ),
        decreases bytes@.len() - offset,
    {
        if bytes.len() - offset < 2 {
            return Err(ProjectionError::TruncatedDescriptor);
        }
        let length: usize = bytes[offset] as usize;
        if length < 2 || length > bytes.len() - offset {
            return Err(ProjectionError::DescriptorLength);
        }
        let descriptor = slice_subrange(bytes, offset, offset + length);
        rewrite_one(&mut state, descriptor)?;
        offset = offset + length;
    }
    Ok(state)
}

fn rewrite_one(state: &mut ConfigurationInspection, descriptor: &[u8]) -> (outcome: Result<
    (),
    ProjectionError,
>)
    requires
        2 <= descriptor@.len() <= 255,
        old(state).count < u32::MAX,
    ensures
        match outcome {
            Err(error) => rewrite_descriptor(old(state).model(), descriptor@) == Err::<
                Rewritten,
                ProjectionError,
            >(error),
            Ok(()) => rewrite_descriptor(old(state).model(), descriptor@) == Ok::<
                Rewritten,
                ProjectionError,
            >(final(state).model()) && final(state).body@.len() == old(state).body@.len()
                + descriptor@.len(),
        },
        old(state).originals@.len() <= 255 ==> final(state).originals@.len() <= 255,
{
    if descriptor[1] == USB_DT_INTERFACE {
        if descriptor.len() < 9 {
            return Err(ProjectionError::ShortInterface);
        }
        state.interfaces.insert(descriptor[2]);
        let original: u8 = descriptor[8];
        if original == 0 {
            push_bytes(&mut state.body, descriptor);
        } else {
            if state.originals.len() >= 255 {
                return Err(ProjectionError::TooManyFunctionStrings);
            }
            let position: usize = find_byte(&state.originals, original);
            if position == state.originals.len() {
                state.originals.push(original);
            }
            push_bytes(&mut state.body, slice_subrange(descriptor, 0, 8));
            state.body.push((position + 1) as u8);
            push_bytes(&mut state.body, slice_subrange(descriptor, 9, descriptor.len()));
            assert(state.body@ =~= old(state).body@ + descriptor@.update(8, (position + 1) as u8));
        }
    } else if descriptor[1] == USB_DT_ENDPOINT {
        if descriptor.len() < 7 {
            return Err(ProjectionError::ShortEndpoint);
        }
        state.endpoints.push(
            Endpoint {
                address: descriptor[2],
                transfer_type: descriptor[3] & 0x03,
                max_packet_size: le_word(descriptor, 4),
            },
        );
        push_bytes(&mut state.body, descriptor);
    } else {
        push_bytes(&mut state.body, descriptor);
    }
    state.count = state.count + 1;
    Ok(())
}

/// Writes the FunctionFS string blob with the texts under `indices`.
pub fn functionfs_strings(
    strings: &Vec<StringDescriptor>,
    language: u16,
    indices: &Vec<u8>,
) -> (outcome: Result<Vec<u8>, ProjectionError>)
    requires
        indices@.len() <= 256,
    ensures
        match outcome {
            Err(error) => string_blob(strings_view(strings@), language, indices@) == Err::<
                Seq<u8>,
                ProjectionError,
            >(error),
            Ok(blob) => string_blob(strings_view(strings@), language, indices@) == Ok::<
                Seq<u8>,
                ProjectionError,
            >(blob@),
        },
{
    let body = functionfs_texts(strings, language, indices)?;
    let mut blob: Vec<u8> = Vec::new();
    push_le32(&mut blob, STRINGS_MAGIC);
    push_le32(&mut blob, length_word(body.len(), 16));
    push_le32(&mut blob, indices.len() as u32);
    push_le32(
        &mut blob,
        if indices.len() == 0 {
            0
        } else {
            1
        },
    );
    push_bytes(&mut blob, body.as_slice());
    assert(blob@ =~= string_blob(strings_view(strings@), language, indices@)->Ok_0);
    Ok(blob)
}

fn functionfs_texts(strings: &Vec<StringDescriptor>, language: u16, indices: &Vec<u8>) -> (outcome:
    Result<Vec<u8>, ProjectionError>)
    ensures
        match outcome {
            Err(error) => text_run(
                strings_view(strings@),
                language,
                indices@,
                if indices@.len() == 0 {
                    seq![]
                } else {
                    le16(language)
                },
            ) == Err::<Seq<u8>, ProjectionError>(error),
            Ok(body) => text_run(
                strings_view(strings@),
                language,
                indices@,
                if indices@.len() == 0 {
                    seq![]
                } else {
                    le16(language)
                },
            ) == Ok::<Seq<u8>, ProjectionError>(body@),
        },
{
    let mut body: Vec<u8> = Vec::new();
    if indices.len() != 0 {
        push_le16(&mut body, language);
    }
    let ghost start = body@;
    proof {
        assert(start =~= if indices@.len() == 0 {
            seq![]
        } else {
            le16(language)
        });
        assert(indices@.skip(0) =~= indices@);
    }
    let mut i: usize = 0;
    while i < indices.len()
        invariant
            i <= indices@.len(),
            text_run(strings_view(strings@), language, indices@, start) == text_run(
                strings_view(strings@),
                language,
                indices@.skip(i as int),
                body@,
            ),
            start == if indices@.len() == 0 {
                seq![]
            } else {
                le16(language)
            },
        decreases indices@.len() - i,
    {
        assert(indices@.skip(i as int).skip(1) =~= indices@.skip(i + 1));
        let value = usb_string(strings, indices[i], language)?;
        if has_char(value.as_str(), '\0') {
            return Err(ProjectionError::EmbeddedNul);
        }
        let ghost before = body@;
        push_bytes(&mut body, value.as_str().as_bytes());
        body.push(0);
        assert(body@ =~= before + encode_utf8(value@) + seq![0u8]);
        i = i + 1;
    }
    Ok(body)
}

/// Whether every character is ASCII.
fn all_ascii(chars: &Vec<char>) -> (ascii: bool)
    ensures
        ascii == forall|i: int| 0 <= i < chars@.len() ==> #[trigger] (chars@[i] as u32) < 128,
{
    let mut i: usize = 0;
    while i < chars.len()
        invariant
            i <= chars@.len(),
            forall|k: int| 0 <= k < i ==> #[trigger] (chars@[k] as u32) < 128,
        decreases chars@.len() - i,
    {
        if chars[i] as u32 >= 128 {
            assert(!((chars@[i as int] as u32) < 128));
            return false;
        }
        i = i + 1;
    }
    true
}

/// Projects an optional WebUSB capability to gadget attributes.
pub fn project_webusb(declaration: &Option<BundleWebUsb>, bcd_usb: u16) -> (outcome: Result<
    Option<WebUsb>,
    ProjectionError,
>)
    ensures
        match outcome {
            Err(error) => webusb_projection(webusb_view(*declaration), bcd_usb) == Err::<
                Option<WebUsbModel>,
                ProjectionError,
            >(error),
            Ok(attributes) => webusb_projection(webusb_view(*declaration), bcd_usb) == Ok::<
                Option<WebUsbModel>,
                ProjectionError,
            >(gadget_webusb_view(attributes)),
        },
{
    let declaration = match declaration {
        None => return Ok(None),
        Some(declaration) => declaration,
    };
    if bcd_usb < 0x0201 || declaration.version != 0x0100 || declaration.vendor_code == 0 {
        return Err(ProjectionError::WebUsb);
    }
    let page = to_chars(declaration.landing_page.as_str());
    if page.len() > 252 || !all_ascii(&page) || (page.len() != 0 && !starts_with(
        declaration.landing_page.as_str(),
        "https://",
    ) && !starts_with(declaration.landing_page.as_str(), "http://")) {
        return Err(ProjectionError::LandingPage);
    }
    Ok(
        Some(
            WebUsb {
                version: declaration.version,
                vendor_code: declaration.vendor_code,
                landing_page: declaration.landing_page.clone(),
            },
        ),
    )
}

/// Writes the FunctionFS descriptor blob.
fn functionfs_descriptors(count: u32, body: &[u8], os: &[u8]) -> (outcome: Result<
    Vec<u8>,
    ProjectionError,
>)
    ensures
        match outcome {
            Err(error) => descriptor_blob(count as nat, body@, os@) == Err::<
                Seq<u8>,
                ProjectionError,
            >(error),
            Ok(blob) => descriptor_blob(count as nat, body@, os@) == Ok::<
                Seq<u8>,
                ProjectionError,
            >(blob@),
        },
{
    let os_count: usize = count_functionfs_os_descriptors(os)?;
    let header: u128 = if os.len() == 0 {
        16
    } else {
        20
    };
    let length: u128 = header + body.len() as u128 + os.len() as u128;
    if length > u32::MAX as u128 {
        return Err(ProjectionError::BlobTooLarge);
    }
    let mut flags: u32 = HAS_FS_DESC | ALL_CTRL_RECIP | CONFIG0_SETUP;
    assert(1u32 | 64u32 | 128u32 == 193u32) by (bit_vector);
    if os.len() != 0 {
        flags = flags | HAS_MS_OS_DESC;
        assert(193u32 | 8u32 == 201u32) by (bit_vector);
    }
    let mut blob: Vec<u8> = Vec::new();
    push_le32(&mut blob, DESCRIPTORS_MAGIC_V2);
    push_le32(&mut blob, length as u32);
    push_le32(&mut blob, flags);
    push_le32(&mut blob, count);
    if os.len() != 0 {
        push_le32(&mut blob, os_count as u32);
    }
    push_bytes(&mut blob, body);
    push_bytes(&mut blob, os);
    assert(blob@ =~= descriptor_blob(count as nat, body@, os@)->Ok_0);
    Ok(blob)
}

} // verus!
