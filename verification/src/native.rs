//! Personalities of native workers, built from their platform's USB configuration calls.

use crate::bytes::{le16, le16_at, lemma_le16_round_trip, push_bytes, push_le16};
use crate::personality::{
    built_view, microsoft_view, webusb_view, CompatibleIdModel, MicrosoftCompatibleId,
    MicrosoftModel, MicrosoftOs10, PersonalityError, PersonalityModel, StringDescriptor,
    StringModel, UsbPersonality, UsbPersonalityBuilder, UsbSpeed, WebUsb, PERSONALITY_SCHEMA,
};
use crate::sets::{ascending_bytes, lemma_ascending_bytes, ByteSet};
use crate::text::{encode_utf16, text_view, utf16_words};
use vstd::prelude::*;

verus! {

/// The language of every string that a native personality carries.
pub const NATIVE_LANGUAGE: u16 = 0x0409;

/// The fields of a native device.
#[derive(Clone, Debug)]
pub struct NativeDevice {
    pub usb_version: u16,
    pub vendor_id: u16,
    pub product_id: u16,
    pub device_version: u16,
    pub device_class: u8,
    pub device_subclass: u8,
    pub device_protocol: u8,
    pub max_packet_size_0: u8,
    pub manufacturer: String,
    pub product: String,
    pub serial_number: String,
    pub interface_name: String,
}

/// The fields of a native interface with one endpoint in each direction.
#[derive(Clone, Debug)]
pub struct NativeInterface {
    pub number: u8,
    pub class_code: u8,
    pub subclass: u8,
    pub protocol: u8,
    pub string_index: u8,
    pub endpoint_in: u8,
    pub endpoint_out: u8,
    pub transfer_type: u8,
    pub max_packet_size: u16,
    pub interval: u8,
    pub class_descriptors: Vec<u8>,
}

/// Gathers native platform configuration and hands it to [`UsbPersonalityBuilder`].
pub struct UgspPersonalityBuilder {
    pub max_speed: UsbSpeed,
    pub device: NativeDevice,
    pub interfaces: Vec<NativeInterface>,
    pub microsoft_os_1: Option<MicrosoftOs10>,
    pub webusb: Option<WebUsb>,
}

/// The bytes of 16-bit words, low byte first.
pub open spec fn words_bytes(words: Seq<u16>) -> Seq<u8>
    decreases words.len(),
{
    if words.len() == 0 {
        seq![]
    } else {
        words_bytes(words.drop_last()) + le16(words.last())
    }
}

/// The words take two bytes each.
pub proof fn lemma_words_bytes_len(words: Seq<u16>)
    ensures
        words_bytes(words).len() == 2 * words.len(),
    decreases words.len(),
{
    if words.len() > 0 {
        lemma_words_bytes_len(words.drop_last());
    }
}

/// Appends words, low byte first.
pub fn push_words(out: &mut Vec<u8>, words: &Vec<u16>)
    ensures
        final(out)@ == old(out)@ + words_bytes(words@),
{
    let mut i: usize = 0;
    assert(words@.take(0) =~= seq![]);
    assert(out@ =~= old(out)@ + words_bytes(words@.take(0)));
    while i < words.len()
        invariant
            i <= words@.len(),
            out@ == old(out)@ + words_bytes(words@.take(i as int)),
        decreases words@.len() - i,
    {
        assert(words@.take(i + 1).drop_last() =~= words@.take(i as int));
        push_le16(out, words[i]);
        assert(out@ =~= old(out)@ + words_bytes(words@.take(i + 1)));
        i = i + 1;
    }
    assert(words@.take(words@.len() as int) =~= words@);
}

/// The USB string descriptor of a text.
pub open spec fn string_descriptor_bytes(value: Seq<char>) -> Seq<u8> {
    seq![(2 + 2 * encode_utf16(value).len()) as u8, 3] + words_bytes(encode_utf16(value))
}

/// Whether a text fits into a USB string descriptor.
pub open spec fn string_fits(value: Seq<char>) -> bool {
    2 + 2 * encode_utf16(value).len() <= 255
}

/// Encodes a text as a USB string descriptor.
pub fn string_descriptor(index: u8, language_id: u16, value: &str) -> (outcome: Result<
    StringDescriptor,
    PersonalityError,
>)
    ensures
        match outcome {
            Err(error) => error == PersonalityError::StringTooLong && !string_fits(value@),
            Ok(made) => string_fits(value@) && made@ == (StringModel {
                index,
                language_id,
                descriptor: string_descriptor_bytes(value@),
            }),
        },
{
    let words = utf16_words(value);
    proof {
        lemma_words_bytes_len(words@);
    }
    if words.len() > 126 {
        return Err(PersonalityError::StringTooLong);
    }
    let mut descriptor: Vec<u8> = Vec::new();
    descriptor.push((2 + 2 * words.len()) as u8);
    descriptor.push(3);
    push_words(&mut descriptor, &words);
    assert(descriptor@ =~= string_descriptor_bytes(value@));
    Ok(StringDescriptor::new(index, language_id, descriptor))
}

/// The device descriptor of a native device: one configuration, and strings under the indices
/// one, two and three.
pub open spec fn native_device_bytes(device: NativeDevice) -> Seq<u8> {
    seq![18u8, 1] + le16(device.usb_version) + seq![
        device.device_class,
        device.device_subclass,
        device.device_protocol,
        device.max_packet_size_0,
    ] + le16(device.vendor_id) + le16(device.product_id) + le16(device.device_version) + seq![
        1u8,
        2,
        3,
        1,
    ]
}

/// The descriptor of one endpoint of a native interface.
pub open spec fn native_endpoint_bytes(interface: NativeInterface, address: u8) -> Seq<u8> {
    seq![7u8, 5, address, interface.transfer_type] + le16(interface.max_packet_size) + seq![
        interface.interval,
    ]
}

/// The descriptors of a native interface, with its endpoint to the host first.
pub open spec fn native_interface_bytes(interface: NativeInterface) -> Seq<u8> {
    seq![
        9u8,
        4,
        interface.number,
        0,
        2,
        interface.class_code,
        interface.subclass,
        interface.protocol,
        interface.string_index,
    ] + interface.class_descriptors@ + native_endpoint_bytes(interface, interface.endpoint_in)
        + native_endpoint_bytes(interface, interface.endpoint_out)
}

/// The descriptors of several native interfaces, one behind the other.
pub open spec fn native_interfaces_bytes(interfaces: Seq<NativeInterface>) -> Seq<u8>
    decreases interfaces.len(),
{
    if interfaces.len() == 0 {
        seq![]
    } else {
        native_interfaces_bytes(interfaces.drop_last()) + native_interface_bytes(interfaces.last())
    }
}

/// The interface numbers in use.
pub open spec fn interface_numbers(interfaces: Seq<NativeInterface>) -> Set<u8> {
    interfaces.map_values(|interface: NativeInterface| interface.number).to_set()
}

/// Whether no two interfaces share a number.
pub open spec fn distinct_numbers(interfaces: Seq<NativeInterface>) -> bool {
    forall|i: int, j: int|
        0 <= i < j < interfaces.len() ==> interfaces[i].number != interfaces[j].number
}

/// The interface with this number.
pub open spec fn interface_numbered(interfaces: Seq<NativeInterface>, number: u8) -> NativeInterface {
    let i = choose|i: int| 0 <= i < interfaces.len() && interfaces[i].number == number;
    interfaces[i]
}

/// The interfaces by ascending number.
pub open spec fn ascending_interfaces(interfaces: Seq<NativeInterface>) -> Seq<NativeInterface> {
    ascending_bytes(interface_numbers(interfaces)).map_values(
        |number: u8| interface_numbered(interfaces, number),
    )
}

/// Whether an interface can be described: its endpoints run in their directions and can carry
/// data.
pub open spec fn native_interface_valid(interface: NativeInterface) -> bool {
    &&& interface.endpoint_in & 0x80 != 0
    &&& interface.endpoint_out & 0x80 == 0
    &&& interface.max_packet_size != 0
    &&& interface.transfer_type <= 3
}

/// The configuration descriptor of native interfaces, with all that follows it.
pub open spec fn native_configuration_bytes(interfaces: Seq<NativeInterface>) -> Seq<u8> {
    let body = native_interfaces_bytes(ascending_interfaces(interfaces));
    seq![9u8, 2] + le16((9 + body.len()) as u16) + seq![
        interfaces.len() as u8,
        1,
        0,
        0x80,
        0x32,
    ] + body
}

/// The strings of a native personality: its languages, then the texts of the device and of its
/// interfaces.
pub open spec fn native_strings(device: NativeDevice) -> Seq<StringModel> {
    seq![
        StringModel { index: 0, language_id: 0, descriptor: seq![4u8, 3, 0x09, 0x04] },
        native_string(1, device.manufacturer@),
        native_string(2, device.product@),
        native_string(3, device.serial_number@),
        native_string(4, device.interface_name@),
    ]
}

/// A string of a native personality.
pub open spec fn native_string(index: u8, value: Seq<char>) -> StringModel {
    StringModel {
        index,
        language_id: NATIVE_LANGUAGE,
        descriptor: string_descriptor_bytes(value),
    }
}

/// Whether all texts of a device fit into string descriptors.
pub open spec fn native_strings_fit(device: NativeDevice) -> bool {
    &&& string_fits(device.manufacturer@)
    &&& string_fits(device.product@)
    &&& string_fits(device.serial_number@)
    &&& string_fits(device.interface_name@)
}

/// The personality of a native worker, or why it has none.
pub open spec fn native_personality(builder: UgspPersonalityBuilder) -> Result<
    PersonalityModel,
    PersonalityError,
> {
    let interfaces = builder.interfaces@;
    if interfaces.len() == 0 || interfaces.len() > 255 {
        Err(PersonalityError::NoInterfaces)
    } else if !distinct_numbers(interfaces) {
        Err(PersonalityError::DuplicateInterfaceNumber)
    } else if exists|i: int|
        0 <= i < interfaces.len() && !native_interface_valid(#[trigger] interfaces[i]) {
        Err(PersonalityError::InvalidInterface)
    } else if 9 + native_interfaces_bytes(ascending_interfaces(interfaces)).len() > 65535 {
        Err(PersonalityError::ConfigurationTooLarge)
    } else if !native_strings_fit(builder.device) {
        Err(PersonalityError::StringTooLong)
    } else {
        Ok(
            PersonalityModel {
                schema: PERSONALITY_SCHEMA,
                max_speed: builder.max_speed,
                device: native_device_bytes(builder.device),
                configuration: native_configuration_bytes(interfaces),
                strings: native_strings(builder.device),
                microsoft: microsoft_view(builder.microsoft_os_1),
                webusb: webusb_view(builder.webusb),
            },
        )
    }
}

pub proof fn lemma_numbers_contain(interfaces: Seq<NativeInterface>, number: u8)
    ensures
        interface_numbers(interfaces).contains(number) <==> exists|i: int|
            0 <= i < interfaces.len() && interfaces[i].number == number,
{
    let numbers = interfaces.map_values(|interface: NativeInterface| interface.number);
    if numbers.to_set().contains(number) {
        let i = choose|i: int| 0 <= i < numbers.len() && numbers[i] == number;
        assert(interfaces[i].number == number);
    }
    if exists|i: int| 0 <= i < interfaces.len() && interfaces[i].number == number {
        let i = choose|i: int| 0 <= i < interfaces.len() && interfaces[i].number == number;
        assert(numbers[i] == number);
        assert(numbers.contains(number));
    }
}

/// The interfaces by ascending number are the given ones: none is lost and none is added.
pub proof fn lemma_ascending_interfaces(interfaces: Seq<NativeInterface>)
    requires
        distinct_numbers(interfaces),
    ensures
        forall|i: int|
            0 <= i < ascending_interfaces(interfaces).len() ==> interfaces.contains(
                #[trigger] ascending_interfaces(interfaces)[i],
            ),
        forall|i: int|
            0 <= i < interfaces.len() ==> ascending_interfaces(interfaces).contains(
                #[trigger] interfaces[i],
            ),
        forall|i: int, j: int|
            0 <= i < j < ascending_interfaces(interfaces).len() ==> ascending_interfaces(
                interfaces,
            )[i].number < ascending_interfaces(interfaces)[j].number,
{
    let numbers = interface_numbers(interfaces);
    let ordered = ascending_bytes(numbers);
    let sorted = ascending_interfaces(interfaces);
    lemma_ascending_bytes(numbers);
    assert forall|i: int| 0 <= i < sorted.len() implies interfaces.contains(#[trigger] sorted[i])
        && sorted[i].number == ordered[i] by {
        assert(ordered.contains(ordered[i]));
        lemma_numbers_contain(interfaces, ordered[i]);
    }
    assert forall|i: int| 0 <= i < interfaces.len() implies sorted.contains(
        #[trigger] interfaces[i],
    ) by {
        let number = interfaces[i].number;
        lemma_numbers_contain(interfaces, number);
        assert(ordered.contains(number));
        let k = choose|k: int| 0 <= k < ordered.len() && ordered[k] == number;
        let found = choose|j: int| 0 <= j < interfaces.len() && interfaces[j].number == number;
        assert(found == i);
        assert(sorted[k] == interfaces[i]);
    }
    assert forall|i: int, j: int| 0 <= i < j < sorted.len() implies sorted[i].number
        < sorted[j].number by {
        assert(sorted[i].number == ordered[i]);
        assert(sorted[j].number == ordered[j]);
    }
}

impl UgspPersonalityBuilder {
    /// A builder for a device that has no interface yet.
    pub fn new(max_speed: UsbSpeed, device: NativeDevice) -> (made: Self)
        ensures
            made.max_speed == max_speed,
            made.device == device,
            made.interfaces@ == Seq::<NativeInterface>::empty(),
            made.microsoft_os_1 is None,
            made.webusb is None,
    {
        UgspPersonalityBuilder {
            max_speed,
            device,
            interfaces: Vec::new(),
            microsoft_os_1: None,
            webusb: None,
        }
    }

    /// Adds an interface whose number is not in use.
    pub fn add_interface(&mut self, interface: NativeInterface) -> (outcome: Result<
        (),
        PersonalityError,
    >)
        ensures
            match outcome {
                Err(error) => {
                    &&& error == PersonalityError::DuplicateInterface
                    &&& interface_numbers(old(self).interfaces@).contains(interface.number)
                    &&& *final(self) == *old(self)
                },
                Ok(()) => {
                    &&& !interface_numbers(old(self).interfaces@).contains(interface.number)
                    &&& final(self).interfaces@ == old(self).interfaces@.push(interface)
                    &&& final(self).max_speed == old(self).max_speed
                    &&& final(self).device == old(self).device
                    &&& final(self).microsoft_os_1 == old(self).microsoft_os_1
                    &&& final(self).webusb == old(self).webusb
                },
            },
            distinct_numbers(old(self).interfaces@) ==> distinct_numbers(final(self).interfaces@),
    {
        proof {
            lemma_numbers_contain(self.interfaces@, interface.number);
        }
        let mut i: usize = 0;
        while i < self.interfaces.len()
            invariant
                i <= self.interfaces@.len(),
                forall|k: int| 0 <= k < i ==> self.interfaces@[k].number != interface.number,
                *self == *old(self),
                interface_numbers(old(self).interfaces@).contains(interface.number) <==> exists|
                    i: int,
                |
                    0 <= i < old(self).interfaces@.len() && old(self).interfaces@[i].number
                        == interface.number,
            decreases self.interfaces@.len() - i,
        {
            if self.interfaces[i].number == interface.number {
                return Err(PersonalityError::DuplicateInterface);
            }
            i = i + 1;
        }
        self.interfaces.push(interface);
        Ok(())
    }

    /// Replaces the serial number.
    pub fn set_serial_number(&mut self, serial_number: String)
        ensures
            *final(self) == (UgspPersonalityBuilder {
                device: NativeDevice { serial_number, ..old(self).device },
                ..*old(self)
            }),
    {
        self.device.serial_number = serial_number;
    }

    /// Adds a Microsoft compatible ID; `None` stands for a text that could not be read. The
    /// vendor code of the first call is kept even where its texts are refused.
    pub fn add_microsoft_compatible_id(
        &mut self,
        vendor_code: u8,
        interface: u8,
        compatible_id: Option<String>,
        sub_compatible_id: Option<String>,
    ) -> (outcome: Result<(), PersonalityError>)
        ensures
            (microsoft_view(final(self).microsoft_os_1), outcome) == compatible_id_added(
                microsoft_view(old(self).microsoft_os_1),
                vendor_code,
                interface,
                text_view(compatible_id),
                text_view(sub_compatible_id),
            ),
            final(self).max_speed == old(self).max_speed,
            final(self).device == old(self).device,
            final(self).interfaces == old(self).interfaces,
            final(self).webusb == old(self).webusb,
    {
        if vendor_code == 0 {
            return Err(PersonalityError::ZeroVendorCode);
        }
        let mut microsoft = match self.microsoft_os_1.take() {
            Some(microsoft) => microsoft,
            None => MicrosoftOs10::new(vendor_code),
        };
        if microsoft.vendor_code != vendor_code {
            self.microsoft_os_1 = Some(microsoft);
            return Err(PersonalityError::ConflictingVendorCodes);
        }
        match (compatible_id, sub_compatible_id) {
            (Some(compatible_id), Some(sub_compatible_id)) => {
                let ghost before = microsoft@;
                let id = MicrosoftCompatibleId { interface, compatible_id, sub_compatible_id };
                microsoft.compatible_ids.push(id);
                assert(microsoft@.compatible_ids =~= before.compatible_ids.push(id@));
                self.microsoft_os_1 = Some(microsoft);
                Ok(())
            },
            _ => {
                self.microsoft_os_1 = Some(microsoft);
                Err(PersonalityError::InvalidText)
            },
        }
    }

    /// Sets the WebUSB capability, or clears it where `enabled` is zero; `None` stands for a
    /// landing page that could not be read.
    pub fn set_webusb(
        &mut self,
        enabled: u8,
        version: u16,
        vendor_code: u8,
        landing_page: Option<String>,
    ) -> (outcome: Result<(), PersonalityError>)
        ensures
            match (enabled, landing_page) {
                (0, _) => outcome is Ok && *final(self) == (UgspPersonalityBuilder {
                    webusb: None,
                    ..*old(self)
                }),
                (_, None) => outcome == Err::<(), PersonalityError>(PersonalityError::InvalidText)
                    && *final(self) == *old(self),
                (_, Some(page)) => outcome is Ok && *final(self) == (UgspPersonalityBuilder {
                    webusb: Some(WebUsb { version, vendor_code, landing_page: page }),
                    ..*old(self)
                }),
            },
    {
        if enabled == 0 {
            self.webusb = None;
            return Ok(());
        }
        match landing_page {
            None => Err(PersonalityError::InvalidText),
            Some(landing_page) => {
                self.webusb = Some(WebUsb { version, vendor_code, landing_page });
                Ok(())
            },
        }
    }

    /// The personality of the device and its interfaces, with the descriptors written out.
    pub fn personality(&self) -> (outcome: Result<UsbPersonality, PersonalityError>)
        ensures
            built_view(outcome) == native_personality(*self),
    {
        if self.interfaces.len() == 0 || self.interfaces.len() > 255 {
            return Err(PersonalityError::NoInterfaces);
        }
        let numbers = match collect_numbers(&self.interfaces) {
            Some(numbers) => numbers,
            None => return Err(PersonalityError::DuplicateInterfaceNumber),
        };
        let body = match interfaces_body(&self.interfaces, &numbers) {
            Some(body) => body,
            None => return Err(PersonalityError::InvalidInterface),
        };
        if body.len() > 65526 {
            return Err(PersonalityError::ConfigurationTooLarge);
        }
        let mut configuration: Vec<u8> = Vec::new();
        push_bytes(&mut configuration, &[9, 2]);
        push_le16(&mut configuration, (9 + body.len()) as u16);
        push_bytes(&mut configuration, &[self.interfaces.len() as u8, 1, 0, 0x80, 0x32]);
        push_bytes(&mut configuration, body.as_slice());
        assert(configuration@ =~= native_configuration_bytes(self.interfaces@));
        let device = device_bytes(&self.device);

        let languages = StringDescriptor::new(0, 0, vec![4, 3, 0x09, 0x04]);
        assert(languages.descriptor@ =~= seq![4u8, 3, 0x09, 0x04]);
        let manufacturer = string_descriptor(
            1,
            NATIVE_LANGUAGE,
            self.device.manufacturer.as_str(),
        )?;
        let product = string_descriptor(2, NATIVE_LANGUAGE, self.device.product.as_str())?;
        let serial_number = string_descriptor(
            3,
            NATIVE_LANGUAGE,
            self.device.serial_number.as_str(),
        )?;
        let interface_name = string_descriptor(
            4,
            NATIVE_LANGUAGE,
            self.device.interface_name.as_str(),
        )?;
        let ghost total = (9 + body@.len()) as u16;
        proof {
            lemma_le16_round_trip(total);
            assert(configuration@.subrange(2, 4) =~= le16(total));
            assert(le16_at(configuration@, 2) == total);
        }
        let mut builder = UsbPersonalityBuilder::new(self.max_speed);
        builder.device_descriptor(device).configuration_descriptor(configuration).string_descriptor(
            languages,
        ).string_descriptor(manufacturer).string_descriptor(product).string_descriptor(
            serial_number,
        ).string_descriptor(interface_name);
        assert(builder@.strings =~= native_strings(self.device));
        if let Some(microsoft) = &self.microsoft_os_1 {
            builder.microsoft_os_1(microsoft.copied());
        }
        if let Some(webusb) = &self.webusb {
            builder.webusb(webusb.copied());
        }
        builder.finish()
    }
}

/// The device descriptor of a native device.
fn device_bytes(device: &NativeDevice) -> (bytes: Vec<u8>)
    ensures
        bytes@ == native_device_bytes(*device),
{
    let mut bytes: Vec<u8> = Vec::new();
    push_bytes(&mut bytes, &[18, 1]);
    push_le16(&mut bytes, device.usb_version);
    push_bytes(
        &mut bytes,
        &[
            device.device_class,
            device.device_subclass,
            device.device_protocol,
            device.max_packet_size_0,
        ],
    );
    push_le16(&mut bytes, device.vendor_id);
    push_le16(&mut bytes, device.product_id);
    push_le16(&mut bytes, device.device_version);
    push_bytes(&mut bytes, &[1, 2, 3, 1]);
    assert(bytes@ =~= native_device_bytes(*device));
    bytes
}

/// The numbers of the interfaces, or nothing where two share one.
fn collect_numbers(interfaces: &Vec<NativeInterface>) -> (numbers: Option<ByteSet>)
    ensures
        match numbers {
            None => !distinct_numbers(interfaces@),
            Some(numbers) => distinct_numbers(interfaces@) && numbers@ == interface_numbers(
                interfaces@,
            ),
        },
{
    let mut numbers = ByteSet::new();
    let mut i: usize = 0;
    assert(interfaces@.take(0) =~= seq![]);
    assert(numbers@ =~= interface_numbers(interfaces@.take(0)));
    while i < interfaces.len()
        invariant
            i <= interfaces@.len(),
            distinct_numbers(interfaces@.take(i as int)),
            numbers@ == interface_numbers(interfaces@.take(i as int)),
        decreases interfaces@.len() - i,
    {
        let number: u8 = interfaces[i].number;
        let ghost before = interfaces@.take(i as int);
        let ghost after = interfaces@.take(i + 1);
        proof {
            lemma_numbers_contain(before, number);
            assert forall|n: u8| interface_numbers(after).contains(n) <==> interface_numbers(
                before,
            ).insert(number).contains(n) by {
                lemma_numbers_contain(before, n);
                lemma_numbers_contain(after, n);
                assert(forall|k: int| 0 <= k < i ==> after[k] == before[k]);
                assert(after[i as int].number == number);
            }
            assert(interface_numbers(after) =~= interface_numbers(before).insert(number));
        }
        if !numbers.insert(number) {
            proof {
                let k = choose|k: int| 0 <= k < before.len() && before[k].number == number;
                assert(interfaces@[k].number == interfaces@[i as int].number);
            }
            return None;
        }
        assert(distinct_numbers(after)) by {
            assert forall|k: int, m: int| 0 <= k < m < after.len() implies after[k].number
                != after[m].number by {
                assert(after[k] == before[k]);
                if m < i {
                    assert(after[m] == before[m]);
                }
            }
        }
        i = i + 1;
    }
    assert(interfaces@.take(interfaces@.len() as int) =~= interfaces@);
    Some(numbers)
}

/// The descriptors of the interfaces by ascending number, or nothing where one cannot be
/// described.
fn interfaces_body(interfaces: &Vec<NativeInterface>, numbers: &ByteSet) -> (body: Option<Vec<u8>>)
    requires
        distinct_numbers(interfaces@),
        numbers@ == interface_numbers(interfaces@),
    ensures
        match body {
            None => exists|i: int|
                0 <= i < interfaces@.len() && !native_interface_valid(#[trigger] interfaces@[i]),
            Some(body) => body@ == native_interfaces_bytes(ascending_interfaces(interfaces@))
                && forall|i: int|
                0 <= i < interfaces@.len() ==> native_interface_valid(#[trigger] interfaces@[i]),
        },
{
    let ordered = numbers.to_vec();
    let ghost sorted = ascending_interfaces(interfaces@);
    proof {
        lemma_ascending_interfaces(interfaces@);
        lemma_ascending_bytes(numbers@);
    }
    let mut body: Vec<u8> = Vec::new();
    let mut i: usize = 0;
    assert(sorted.take(0) =~= seq![]);
    assert(body@ =~= native_interfaces_bytes(sorted.take(0)));
    while i < ordered.len()
        invariant
            i <= ordered@.len(),
            ordered@ == ascending_bytes(interface_numbers(interfaces@)),
            sorted == ascending_interfaces(interfaces@),
            distinct_numbers(interfaces@),
            forall|byte: u8| #[trigger]
                ordered@.contains(byte) <==> interface_numbers(interfaces@).contains(byte),
            forall|k: int| 0 <= k < i ==> native_interface_valid(#[trigger] sorted[k]),
            body@ == native_interfaces_bytes(sorted.take(i as int)),
        decreases ordered@.len() - i,
    {
        proof {
            assert(ordered@.contains(ordered@[i as int]));
            lemma_numbers_contain(interfaces@, ordered@[i as int]);
            assert(sorted.take(i + 1).drop_last() =~= sorted.take(i as int));
        }
        let at = find_interface(interfaces, ordered[i]);
        let interface = &interfaces[at];
        assert(*interface == sorted[i as int]);
        if interface.endpoint_in & 0x80 == 0 || interface.endpoint_out & 0x80 != 0
            || interface.max_packet_size == 0 || interface.transfer_type > 3 {
            assert(!native_interface_valid(interfaces@[at as int]));
            return None;
        }
        push_interface(&mut body, interface);
        i = i + 1;
    }
    assert(sorted.take(sorted.len() as int) =~= sorted);
    assert forall|i: int| 0 <= i < interfaces@.len() implies native_interface_valid(
        #[trigger] interfaces@[i],
    ) by {
        assert(sorted.contains(interfaces@[i]));
        let k = choose|k: int| 0 <= k < sorted.len() && sorted[k] == interfaces@[i];
        assert(native_interface_valid(sorted[k]));
    }
    Some(body)
}

fn find_interface(interfaces: &Vec<NativeInterface>, number: u8) -> (at: usize)
    requires
        distinct_numbers(interfaces@),
        exists|i: int| 0 <= i < interfaces@.len() && interfaces@[i].number == number,
    ensures
        at < interfaces@.len(),
        interfaces@[at as int] == interface_numbered(interfaces@, number),
{
    let ghost found = choose|i: int| 0 <= i < interfaces@.len() && interfaces@[i].number == number;
    let mut at: usize = 0;
    while interfaces[at].number != number
        invariant
            at <= found < interfaces@.len(),
            interfaces@[found].number == number,
        decreases found - at,
    {
        assert(interfaces@.len() == interfaces.len());
        at = at + 1;
    }
    at
}

fn push_interface(out: &mut Vec<u8>, interface: &NativeInterface)
    ensures
        final(out)@ == old(out)@ + native_interface_bytes(*interface),
{
    push_bytes(
        out,
        &[
            9,
            4,
            interface.number,
            0,
            2,
            interface.class_code,
            interface.subclass,
            interface.protocol,
            interface.string_index,
        ],
    );
    push_bytes(out, interface.class_descriptors.as_slice());
    push_endpoint(out, interface, interface.endpoint_in);
    push_endpoint(out, interface, interface.endpoint_out);
    assert(out@ =~= old(out)@ + native_interface_bytes(*interface));
}

fn push_endpoint(out: &mut Vec<u8>, interface: &NativeInterface, address: u8)
    ensures
        final(out)@ == old(out)@ + native_endpoint_bytes(*interface, address),
{
    push_bytes(out, &[7, 5, address, interface.transfer_type]);
    push_le16(out, interface.max_packet_size);
    out.push(interface.interval);
    assert(out@ =~= old(out)@ + native_endpoint_bytes(*interface, address));
}

/// A Microsoft declaration after a compatible ID was handed in, and what the caller is told.
pub open spec fn compatible_id_added(
    before: Option<MicrosoftModel>,
    vendor_code: u8,
    interface: u8,
    compatible_id: Option<Seq<char>>,
    sub_compatible_id: Option<Seq<char>>,
) -> (Option<MicrosoftModel>, Result<(), PersonalityError>) {
    let declared = before.unwrap_or(
        MicrosoftModel { vendor_code, compatible_ids: seq![], registry_properties: seq![] },
    );
    if vendor_code == 0 {
        (before, Err(PersonalityError::ZeroVendorCode))
    } else if declared.vendor_code != vendor_code {
        (before, Err(PersonalityError::ConflictingVendorCodes))
    } else {
        match (compatible_id, sub_compatible_id) {
            (Some(compatible_id), Some(sub_compatible_id)) => (
                Some(
                    MicrosoftModel {
                        compatible_ids: declared.compatible_ids.push(
                            CompatibleIdModel { interface, compatible_id, sub_compatible_id },
                        ),
                        ..declared
                    },
                ),
                Ok(()),
            ),
            _ => (Some(declared), Err(PersonalityError::InvalidText)),
        }
    }
}

} // verus!
