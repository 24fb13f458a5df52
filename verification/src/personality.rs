//! The USB personality that a worker publishes, and the ways to build one.

use crate::bytes::{le16_at, le_u16};
use vstd::prelude::*;

verus! {

/// The version of the personality layout.
pub const PERSONALITY_SCHEMA: u16 = 1;

/// Why a personality cannot be built.
#[derive(Clone, Copy, Debug, Eq, PartialEq, Structural)]
pub enum PersonalityError {
    MissingDevice,
    MissingConfiguration,
    InvalidDevice,
    InvalidConfiguration,
    NoInterfaces,
    DuplicateInterfaceNumber,
    InvalidInterface,
    ConfigurationTooLarge,
    StringTooLong,
    InvalidSpeed,
    DuplicateInterface,
    ZeroVendorCode,
    ConflictingVendorCodes,
    InvalidText,
    TrailingData,
}

/// The fastest speed at which a device works.
#[derive(Clone, Copy, Debug, Eq, PartialEq, Structural)]
pub enum UsbSpeed {
    LowSpeed,
    FullSpeed,
    HighSpeed,
}

impl UsbSpeed {
    /// The name of a speed in a gadget's attributes.
    pub open spec fn name(self) -> Seq<char> {
        match self {
            UsbSpeed::LowSpeed => "low-speed"@,
            UsbSpeed::FullSpeed => "full-speed"@,
            UsbSpeed::HighSpeed => "high-speed"@,
        }
    }

    /// The name of this speed in a gadget's attributes.
    pub fn configfs_name(self) -> (name: &'static str)
        ensures
            name@ == self.name(),
    {
        match self {
            UsbSpeed::LowSpeed => "low-speed",
            UsbSpeed::FullSpeed => "full-speed",
            UsbSpeed::HighSpeed => "high-speed",
        }
    }
}

/// The speed that a caller in another language names by a number.
pub fn ffi_speed(speed: u8) -> (outcome: Result<UsbSpeed, PersonalityError>)
    ensures
        outcome == match speed {
            0 => Ok::<UsbSpeed, PersonalityError>(UsbSpeed::LowSpeed),
            1 => Ok(UsbSpeed::FullSpeed),
            2 => Ok(UsbSpeed::HighSpeed),
            _ => Err(PersonalityError::InvalidSpeed),
        },
{
    match speed {
        0 => Ok(UsbSpeed::LowSpeed),
        1 => Ok(UsbSpeed::FullSpeed),
        2 => Ok(UsbSpeed::HighSpeed),
        _ => Err(PersonalityError::InvalidSpeed),
    }
}

/// A USB string descriptor with the index and language under which the host asks for it.
#[derive(Clone, Debug)]
pub struct StringDescriptor {
    pub index: u8,
    pub language_id: u16,
    pub descriptor: Vec<u8>,
}

/// The contents of a [`StringDescriptor`].
#[verifier::ext_equal]
pub struct StringModel {
    pub index: u8,
    pub language_id: u16,
    pub descriptor: Seq<u8>,
}

impl View for StringDescriptor {
    type V = StringModel;

    open spec fn view(&self) -> StringModel {
        StringModel {
            index: self.index,
            language_id: self.language_id,
            descriptor: self.descriptor@,
        }
    }
}

impl StringDescriptor {
    /// A descriptor with these fields.
    pub fn new(index: u8, language_id: u16, descriptor: Vec<u8>) -> (made: Self)
        ensures
            made@ == (StringModel { index, language_id, descriptor: descriptor@ }),
    {
        StringDescriptor { index, language_id, descriptor }
    }
}

/// The contents of a list of string descriptors.
pub open spec fn strings_view(strings: Seq<StringDescriptor>) -> Seq<StringModel> {
    strings.map_values(|descriptor: StringDescriptor| descriptor@)
}

/// A Microsoft compatible ID of one interface.
#[derive(Clone, Debug)]
pub struct MicrosoftCompatibleId {
    pub interface: u8,
    pub compatible_id: String,
    pub sub_compatible_id: String,
}

/// The contents of a [`MicrosoftCompatibleId`].
#[verifier::ext_equal]
pub struct CompatibleIdModel {
    pub interface: u8,
    pub compatible_id: Seq<char>,
    pub sub_compatible_id: Seq<char>,
}

impl View for MicrosoftCompatibleId {
    type V = CompatibleIdModel;

    open spec fn view(&self) -> CompatibleIdModel {
        CompatibleIdModel {
            interface: self.interface,
            compatible_id: self.compatible_id@,
            sub_compatible_id: self.sub_compatible_id@,
        }
    }
}

impl MicrosoftCompatibleId {
    /// A compatible ID with these fields.
    pub fn new(interface: u8, compatible_id: &str, sub_compatible_id: &str) -> (made: Self)
        ensures
            made@ == (CompatibleIdModel {
                interface,
                compatible_id: compatible_id@,
                sub_compatible_id: sub_compatible_id@,
            }),
    {
        MicrosoftCompatibleId {
            interface,
            compatible_id: compatible_id.to_owned(),
            sub_compatible_id: sub_compatible_id.to_owned(),
        }
    }

    /// An equal compatible ID.
    pub fn copied(&self) -> (made: Self)
        ensures
            made@ == self@,
    {
        MicrosoftCompatibleId {
            interface: self.interface,
            compatible_id: self.compatible_id.clone(),
            sub_compatible_id: self.sub_compatible_id.clone(),
        }
    }
}

/// A registry value that Windows stores for one interface.
#[derive(Clone, Debug)]
pub struct MicrosoftRegistryProperty {
    pub interface: u8,
    pub data_type: u32,
    pub name: String,
    pub data: Vec<u8>,
}

/// The contents of a [`MicrosoftRegistryProperty`].
#[verifier::ext_equal]
pub struct PropertyModel {
    pub interface: u8,
    pub data_type: u32,
    pub name: Seq<char>,
    pub data: Seq<u8>,
}

impl View for MicrosoftRegistryProperty {
    type V = PropertyModel;

    open spec fn view(&self) -> PropertyModel {
        PropertyModel {
            interface: self.interface,
            data_type: self.data_type,
            name: self.name@,
            data: self.data@,
        }
    }
}

impl MicrosoftRegistryProperty {
    /// A property with these fields.
    pub fn new(interface: u8, data_type: u32, name: &str, data: Vec<u8>) -> (made: Self)
        ensures
            made@ == (PropertyModel { interface, data_type, name: name@, data: data@ }),
    {
        MicrosoftRegistryProperty { interface, data_type, name: name.to_owned(), data }
    }

    /// An equal property.
    pub fn copied(&self) -> (made: Self)
        ensures
            made@ == self@,
    {
        let data = self.data.clone();
        assert(data@ =~= self.data@);
        MicrosoftRegistryProperty {
            interface: self.interface,
            data_type: self.data_type,
            name: self.name.clone(),
            data,
        }
    }
}

/// The Microsoft OS 1.0 descriptors of a device.
#[derive(Clone, Debug)]
pub struct MicrosoftOs10 {
    pub vendor_code: u8,
    pub compatible_ids: Vec<MicrosoftCompatibleId>,
    pub registry_properties: Vec<MicrosoftRegistryProperty>,
}

/// The contents of a [`MicrosoftOs10`].
#[verifier::ext_equal]
pub struct MicrosoftModel {
    pub vendor_code: u8,
    pub compatible_ids: Seq<CompatibleIdModel>,
    pub registry_properties: Seq<PropertyModel>,
}

impl View for MicrosoftOs10 {
    type V = MicrosoftModel;

    open spec fn view(&self) -> MicrosoftModel {
        MicrosoftModel {
            vendor_code: self.vendor_code,
            compatible_ids: self.compatible_ids@.map_values(|id: MicrosoftCompatibleId| id@),
            registry_properties: self.registry_properties@.map_values(
                |property: MicrosoftRegistryProperty| property@,
            ),
        }
    }
}

impl MicrosoftOs10 {
    /// A declaration of the vendor code alone.
    pub fn new(vendor_code: u8) -> (made: Self)
        ensures
            made@ == (MicrosoftModel {
                vendor_code,
                compatible_ids: seq![],
                registry_properties: seq![],
            }),
    {
        let made = MicrosoftOs10 {
            vendor_code,
            compatible_ids: Vec::new(),
            registry_properties: Vec::new(),
        };
        assert(made@.compatible_ids =~= seq![]);
        assert(made@.registry_properties =~= seq![]);
        made
    }

    /// Adds a compatible ID behind the others.
    pub fn with_compatible_id(self, compatible_id: MicrosoftCompatibleId) -> (made: Self)
        ensures
            made@ == (MicrosoftModel {
                compatible_ids: self@.compatible_ids.push(compatible_id@),
                ..self@
            }),
    {
        let mut made = self;
        made.compatible_ids.push(compatible_id);
        assert(made@.compatible_ids =~= self@.compatible_ids.push(compatible_id@));
        made
    }

    /// Adds a registry property behind the others.
    pub fn with_registry_property(self, property: MicrosoftRegistryProperty) -> (made: Self)
        ensures
            made@ == (MicrosoftModel {
                registry_properties: self@.registry_properties.push(property@),
                ..self@
            }),
    {
        let mut made = self;
        made.registry_properties.push(property);
        assert(made@.registry_properties =~= self@.registry_properties.push(property@));
        made
    }

    /// An equal declaration.
    pub fn copied(&self) -> (made: Self)
        ensures
            made@ == self@,
    {
        let mut compatible_ids: Vec<MicrosoftCompatibleId> = Vec::new();
        let mut i: usize = 0;
        while i < self.compatible_ids.len()
            invariant
                i <= self.compatible_ids@.len(),
                compatible_ids@.len() == i,
                forall|k: int| 0 <= k < i ==> compatible_ids@[k]@ == self.compatible_ids@[k]@,
            decreases self.compatible_ids@.len() - i,
        {
            compatible_ids.push(self.compatible_ids[i].copied());
            i = i + 1;
        }
        let mut registry_properties: Vec<MicrosoftRegistryProperty> = Vec::new();
        let mut j: usize = 0;
        while j < self.registry_properties.len()
            invariant
                j <= self.registry_properties@.len(),
                registry_properties@.len() == j,
                forall|k: int|
                    0 <= k < j ==> registry_properties@[k]@ == self.registry_properties@[k]@,
            decreases self.registry_properties@.len() - j,
        {
            registry_properties.push(self.registry_properties[j].copied());
            j = j + 1;
        }
        let made = MicrosoftOs10 {
            vendor_code: self.vendor_code,
            compatible_ids,
            registry_properties,
        };
        assert(made@ =~= self@);
        made
    }
}

/// The WebUSB platform capability of a device.
#[derive(Clone, Debug)]
pub struct WebUsb {
    pub version: u16,
    pub vendor_code: u8,
    pub landing_page: String,
}

/// The contents of a [`WebUsb`].
#[verifier::ext_equal]
pub struct WebUsbModel {
    pub version: u16,
    pub vendor_code: u8,
    pub landing_page: Seq<char>,
}

impl View for WebUsb {
    type V = WebUsbModel;

    open spec fn view(&self) -> WebUsbModel {
        WebUsbModel {
            version: self.version,
            vendor_code: self.vendor_code,
            landing_page: self.landing_page@,
        }
    }
}

impl WebUsb {
    /// A capability with these fields.
    pub fn new(version: u16, vendor_code: u8, landing_page: &str) -> (made: Self)
        ensures
            made@ == (WebUsbModel { version, vendor_code, landing_page: landing_page@ }),
    {
        WebUsb { version, vendor_code, landing_page: landing_page.to_owned() }
    }

    /// An equal capability.
    pub fn copied(&self) -> (made: Self)
        ensures
            made@ == self@,
    {
        WebUsb {
            version: self.version,
            vendor_code: self.vendor_code,
            landing_page: self.landing_page.clone(),
        }
    }
}

/// The contents of an optional Microsoft declaration.
pub open spec fn microsoft_view(declaration: Option<MicrosoftOs10>) -> Option<MicrosoftModel> {
    match declaration {
        None => None,
        Some(declaration) => Some(declaration@),
    }
}

/// The contents of an optional WebUSB capability.
pub open spec fn webusb_view(capability: Option<WebUsb>) -> Option<WebUsbModel> {
    match capability {
        None => None,
        Some(capability) => Some(capability@),
    }
}

/// Everything that a worker publishes about its USB device.
#[derive(Clone, Debug)]
pub struct UsbPersonality {
    pub schema: u16,
    pub max_speed: UsbSpeed,
    pub device_descriptor: Vec<u8>,
    pub configuration_descriptor: Vec<u8>,
    pub strings: Vec<StringDescriptor>,
    pub microsoft_os_1: Option<MicrosoftOs10>,
    pub webusb: Option<WebUsb>,
}

/// The contents of a [`UsbPersonality`].
#[verifier::ext_equal]
pub struct PersonalityModel {
    pub schema: u16,
    pub max_speed: UsbSpeed,
    pub device: Seq<u8>,
    pub configuration: Seq<u8>,
    pub strings: Seq<StringModel>,
    pub microsoft: Option<MicrosoftModel>,
    pub webusb: Option<WebUsbModel>,
}

impl View for UsbPersonality {
    type V = PersonalityModel;

    open spec fn view(&self) -> PersonalityModel {
        PersonalityModel {
            schema: self.schema,
            max_speed: self.max_speed,
            device: self.device_descriptor@,
            configuration: self.configuration_descriptor@,
            strings: strings_view(self.strings@),
            microsoft: microsoft_view(self.microsoft_os_1),
            webusb: webusb_view(self.webusb),
        }
    }
}

impl UsbPersonality {
    /// A personality of the current layout without strings and capabilities.
    pub fn new(
        max_speed: UsbSpeed,
        device_descriptor: Vec<u8>,
        configuration_descriptor: Vec<u8>,
    ) -> (made: Self)
        ensures
            made@ == (PersonalityModel {
                schema: PERSONALITY_SCHEMA,
                max_speed,
                device: device_descriptor@,
                configuration: configuration_descriptor@,
                strings: seq![],
                microsoft: None,
                webusb: None,
            }),
    {
        let made = UsbPersonality {
            schema: PERSONALITY_SCHEMA,
            max_speed,
            device_descriptor,
            configuration_descriptor,
            strings: Vec::new(),
            microsoft_os_1: None,
            webusb: None,
        };
        assert(made@.strings =~= seq![]);
        made
    }

    /// Adds a string descriptor behind the others.
    pub fn with_string(self, descriptor: StringDescriptor) -> (made: Self)
        ensures
            made@ == (PersonalityModel { strings: self@.strings.push(descriptor@), ..self@ }),
    {
        let mut made = self;
        made.strings.push(descriptor);
        assert(made@.strings =~= self@.strings.push(descriptor@));
        made
    }

    /// Sets the Microsoft OS 1.0 declaration.
    pub fn with_microsoft_os_1(self, capability: MicrosoftOs10) -> (made: Self)
        ensures
            made@ == (PersonalityModel { microsoft: Some(capability@), ..self@ }),
    {
        let mut made = self;
        made.microsoft_os_1 = Some(capability);
        made
    }

    /// Sets the WebUSB capability.
    pub fn with_webusb(self, capability: WebUsb) -> (made: Self)
        ensures
            made@ == (PersonalityModel { webusb: Some(capability@), ..self@ }),
    {
        let mut made = self;
        made.webusb = Some(capability);
        made
    }

    /// Accepts a decoded personality only where decoding used up the whole input.
    pub fn from_decoded(decoded: UsbPersonality, position: u64, length: u64) -> (outcome: Result<
        UsbPersonality,
        PersonalityError,
    >)
        ensures
            outcome == if position == length {
                Ok::<UsbPersonality, PersonalityError>(decoded)
            } else {
                Err(PersonalityError::TrailingData)
            },
    {
        if position != length {
            return Err(PersonalityError::TrailingData);
        }
        Ok(decoded)
    }
}

/// Gathers the parts of a personality, whether firmware answered with them or a native worker
/// made them up from its platform's configuration calls.
#[derive(Clone, Debug)]
pub struct UsbPersonalityBuilder {
    max_speed: UsbSpeed,
    device_descriptor: Option<Vec<u8>>,
    configuration_descriptor: Option<Vec<u8>>,
    strings: Vec<StringDescriptor>,
    microsoft_os_1: Option<MicrosoftOs10>,
    webusb: Option<WebUsb>,
}

/// The contents of a [`UsbPersonalityBuilder`].
#[verifier::ext_equal]
pub struct BuilderModel {
    pub max_speed: UsbSpeed,
    pub device: Option<Seq<u8>>,
    pub configuration: Option<Seq<u8>>,
    pub strings: Seq<StringModel>,
    pub microsoft: Option<MicrosoftModel>,
    pub webusb: Option<WebUsbModel>,
}

spec fn bytes_view(bytes: Option<Vec<u8>>) -> Option<Seq<u8>> {
    match bytes {
        None => None,
        Some(bytes) => Some(bytes@),
    }
}

impl View for UsbPersonalityBuilder {
    type V = BuilderModel;

    closed spec fn view(&self) -> BuilderModel {
        BuilderModel {
            max_speed: self.max_speed,
            device: bytes_view(self.device_descriptor),
            configuration: bytes_view(self.configuration_descriptor),
            strings: strings_view(self.strings@),
            microsoft: microsoft_view(self.microsoft_os_1),
            webusb: webusb_view(self.webusb),
        }
    }
}

/// Whether `bytes` is a device descriptor as far as its frame shows.
pub open spec fn device_framed(bytes: Seq<u8>) -> bool {
    bytes.len() == 18 && bytes[0] == 18 && bytes[1] == 1
}

/// Whether `bytes` is a whole configuration as far as the frame of its first descriptor shows.
pub open spec fn configuration_framed(bytes: Seq<u8>) -> bool {
    bytes.len() >= 9 && bytes[0] == 9 && bytes[1] == 2 && le16_at(bytes, 2) == bytes.len()
}

/// What the parts in a builder amount to.
pub open spec fn finished(parts: BuilderModel) -> Result<PersonalityModel, PersonalityError> {
    match (parts.device, parts.configuration) {
        (None, _) => Err(PersonalityError::MissingDevice),
        (_, None) => Err(PersonalityError::MissingConfiguration),
        (Some(device), Some(configuration)) => if !device_framed(device) {
            Err(PersonalityError::InvalidDevice)
        } else if !configuration_framed(configuration) {
            Err(PersonalityError::InvalidConfiguration)
        } else {
            Ok(
                PersonalityModel {
                    schema: PERSONALITY_SCHEMA,
                    max_speed: parts.max_speed,
                    device,
                    configuration,
                    strings: parts.strings,
                    microsoft: parts.microsoft,
                    webusb: parts.webusb,
                },
            )
        },
    }
}

/// The contents of what building a personality gave.
pub open spec fn built_view(outcome: Result<UsbPersonality, PersonalityError>) -> Result<
    PersonalityModel,
    PersonalityError,
> {
    match outcome {
        Err(error) => Err(error),
        Ok(personality) => Ok(personality@),
    }
}

impl UsbPersonalityBuilder {
    /// A builder that holds no part yet.
    pub fn new(max_speed: UsbSpeed) -> (made: Self)
        ensures
            made@ == (BuilderModel {
                max_speed,
                device: None,
                configuration: None,
                strings: seq![],
                microsoft: None,
                webusb: None,
            }),
    {
        let made = UsbPersonalityBuilder {
            max_speed,
            device_descriptor: None,
            configuration_descriptor: None,
            strings: Vec::new(),
            microsoft_os_1: None,
            webusb: None,
        };
        assert(made@.strings =~= seq![]);
        made
    }

    /// Sets the device descriptor.
    pub fn device_descriptor(&mut self, descriptor: Vec<u8>) -> (this: &mut Self)
        ensures
            this@ == (BuilderModel { device: Some(descriptor@), ..old(self)@ }),
            *final(self) == *final(this),
    {
        self.device_descriptor = Some(descriptor);
        self
    }

    /// Sets the configuration descriptor, with all that follows it.
    pub fn configuration_descriptor(&mut self, descriptor: Vec<u8>) -> (this: &mut Self)
        ensures
            this@ == (BuilderModel { configuration: Some(descriptor@), ..old(self)@ }),
            *final(self) == *final(this),
    {
        self.configuration_descriptor = Some(descriptor);
        self
    }

    /// Adds a string descriptor behind the others.
    pub fn string_descriptor(&mut self, descriptor: StringDescriptor) -> (this: &mut Self)
        ensures
            this@ == (BuilderModel {
                strings: old(self)@.strings.push(descriptor@),
                ..old(self)@
            }),
            *final(self) == *final(this),
    {
        self.strings.push(descriptor);
        assert(self@.strings =~= old(self)@.strings.push(descriptor@));
        self
    }

    /// Sets the Microsoft OS 1.0 declaration.
    pub fn microsoft_os_1(&mut self, capability: MicrosoftOs10) -> (this: &mut Self)
        ensures
            this@ == (BuilderModel { microsoft: Some(capability@), ..old(self)@ }),
            *final(self) == *final(this),
    {
        self.microsoft_os_1 = Some(capability);
        self
    }

    /// Sets the WebUSB capability.
    pub fn webusb(&mut self, capability: WebUsb) -> (this: &mut Self)
        ensures
            this@ == (BuilderModel { webusb: Some(capability@), ..old(self)@ }),
            *final(self) == *final(this),
    {
        self.webusb = Some(capability);
        self
    }

    /// Checks the frames of both descriptors and puts the parts together.
    pub fn finish(self) -> (outcome: Result<UsbPersonality, PersonalityError>)
        ensures
            built_view(outcome) == finished(self@),
    {
        let device_descriptor = match self.device_descriptor {
            Some(descriptor) => descriptor,
            None => return Err(PersonalityError::MissingDevice),
        };
        let configuration_descriptor = match self.configuration_descriptor {
            Some(descriptor) => descriptor,
            None => return Err(PersonalityError::MissingConfiguration),
        };
        if device_descriptor.len() != 18 || device_descriptor[0] != 18 || device_descriptor[1]
            != 1 {
            return Err(PersonalityError::InvalidDevice);
        }
        let total_length: Option<u16> = le_u16(configuration_descriptor.as_slice(), 2);
        if configuration_descriptor.len() < 9 || configuration_descriptor[0] != 9
            || configuration_descriptor[1] != 2 {
            return Err(PersonalityError::InvalidConfiguration);
        }
        match total_length {
            Some(length) if length as usize == configuration_descriptor.len() => {},
            _ => return Err(PersonalityError::InvalidConfiguration),
        }
        Ok(
            UsbPersonality {
                schema: PERSONALITY_SCHEMA,
                max_speed: self.max_speed,
                device_descriptor,
                configuration_descriptor,
                strings: self.strings,
                microsoft_os_1: self.microsoft_os_1,
                webusb: self.webusb,
            },
        )
    }
}

} // verus!
