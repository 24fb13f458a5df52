//! Discovery of a firmware's USB personality by the control transfers of a USB host.
//!
//! [`Discovery`] holds the state of the conversation: it names the next control transfer and
//! takes the reply to it. [`discover`] carries the conversation on until it ends.

use crate::bytes::{le16_at, le32_at, le_double_word, le_word};
use crate::conversation::{
    after_bos, after_bos_header, after_compatible_ids, after_configuration,
    after_configuration_header, after_device, after_landing_page, after_languages, after_os_text,
    after_properties, after_replies, after_reply, after_stall, after_text, ask_properties,
    ask_text, ask_webusb, before_nul, compatible_sections, concluded, descriptor_request,
    find_webusb, identifier_text, initial, leading_indices, next_request, property_at,
    property_list, property_name_text, survey, text_key, url_text, webusb_uuid,
    with_index, words_of, Capability, DiscoveryFault, DiscoveryModel, SetupPacket, Stage,
    MICROSOFT_STRING_INDEX, USB_DC_PLATFORM, USB_DT_BOS, USB_DT_DEVICE_CAPABILITY,
    USB_REQ_GET_DESCRIPTOR, USB_REQ_SET_CONFIGURATION,
};
use crate::functionfs::{nul_at, USB_DT_INTERFACE};
use crate::microsoft::properties_view;
use crate::personality::{
    microsoft_view, strings_view, webusb_view, BuilderModel, CompatibleIdModel,
    MicrosoftCompatibleId, MicrosoftOs10, MicrosoftRegistryProperty, PersonalityModel,
    PropertyModel, StringDescriptor, StringModel, UsbPersonality, UsbPersonalityBuilder, UsbSpeed,
    WebUsb,
};
use crate::sets::{
    ascending_words, insert_word, lemma_ascending_bytes, lemma_increasing_unique,
    strictly_increasing, ByteSet,
};
use crate::text::{from_utf16, lemma_ascii_utf8, same_bytes, same_text, utf8_string};
use crate::usb_personality::{USB_DT_CONFIGURATION, USB_DT_DEVICE, USB_DT_STRING};
use vstd::prelude::*;
use vstd::slice::{slice_subrange, slice_to_vec};

verus! {

/// Why [`discover`] fails: the transfer itself did, or a reply to it was refused.
#[derive(Clone, Copy, Debug, Eq, PartialEq)]
pub enum DiscoveryError<E> {
    Transfer(E),
    Fault(DiscoveryFault),
}

/// A conversation with a firmware, seen from the host.
pub struct Discovery {
    speed: UsbSpeed,
    stage: Stage,
    device: Vec<u8>,
    languages: Vec<u16>,
    length: u16,
    configuration: Vec<u8>,
    indices: Vec<u8>,
    interfaces: Vec<u8>,
    position: usize,
    strings: Vec<StringDescriptor>,
    microsoft: Option<MicrosoftOs10>,
    capability: Capability,
    webusb: Option<WebUsb>,
}

impl View for Discovery {
    type V = DiscoveryModel;

    closed spec fn view(&self) -> DiscoveryModel {
        DiscoveryModel {
            speed: self.speed,
            stage: self.stage,
            device: self.device@,
            languages: self.languages@,
            length: self.length,
            configuration: self.configuration@,
            indices: self.indices@,
            interfaces: self.interfaces@,
            position: self.position as nat,
            strings: strings_view(self.strings@),
            microsoft: microsoft_view(self.microsoft),
            capability: self.capability,
            webusb: webusb_view(self.webusb),
        }
    }
}

/// The contents of a reply.
pub open spec fn reply_view(reply: Option<Vec<u8>>) -> Option<Seq<u8>> {
    match reply {
        None => None,
        Some(bytes) => Some(bytes@),
    }
}

/// The transfer for a descriptor.
fn get_descriptor(kind: u8, index: u8, language: u16, length: u16) -> (packet: SetupPacket)
    ensures
        packet == descriptor_request(kind, index, language, length),
{
    SetupPacket {
        request_type: 0x80,
        request: USB_REQ_GET_DESCRIPTOR,
        value: 256 * kind as u16 + index as u16,
        index: language,
        length,
    }
}

/// Each text position names a string index and a language.
pub proof fn lemma_text_position(languages: nat, indices: nat, position: nat)
    requires
        position < languages * indices,
    ensures
        indices > 0,
        0 <= (position as int / indices as int) < languages,
        0 <= (position as int % indices as int) < indices,
{
    assert(indices > 0) by (nonlinear_arith)
        requires
            position < languages * indices,
            position >= 0,
    ;
    let quotient = position as int / indices as int;
    assert(position as int == quotient * indices + position as int % indices as int)
        by (nonlinear_arith)
        requires
            indices > 0,
            quotient == position as int / indices as int,
    ;
    assert(quotient < languages) by (nonlinear_arith)
        requires
            quotient * indices <= position,
            position < languages * indices,
            indices > 0,
    ;
    assert(quotient >= 0) by (nonlinear_arith)
        requires
            quotient == position as int / indices as int,
            indices > 0,
            position >= 0,
    ;
}

impl Discovery {
    /// A conversation that has not begun.
    pub fn new(speed: UsbSpeed) -> (made: Self)
        ensures
            made@ == initial(speed),
            made@.wf(),
    {
        let made = Discovery {
            speed,
            stage: Stage::Device,
            device: Vec::new(),
            languages: Vec::new(),
            length: 0,
            configuration: Vec::new(),
            indices: Vec::new(),
            interfaces: Vec::new(),
            position: 0,
            strings: Vec::new(),
            microsoft: None,
            capability: Capability { version: 0, vendor_code: 0, landing_index: 0 },
            webusb: None,
        };
        assert(made@ =~= initial(speed));
        made
    }

    /// The transfer to perform next, or nothing where the conversation has ended.
    pub fn request(&self) -> (packet: Option<SetupPacket>)
        requires
            self@.wf(),
        ensures
            packet == next_request(self@),
    {
        proof {
            reveal(next_request);
        }
        let vendor_code: u8 = match &self.microsoft {
            Some(microsoft) => microsoft.vendor_code,
            None => 0,
        };
        match self.stage {
            Stage::Device => Some(get_descriptor(USB_DT_DEVICE, 0, 0, 18)),
            Stage::Languages => Some(get_descriptor(USB_DT_STRING, 0, 0, 255)),
            Stage::ConfigurationHeader => Some(get_descriptor(USB_DT_CONFIGURATION, 0, 0, 9)),
            Stage::Configuration => Some(get_descriptor(USB_DT_CONFIGURATION, 0, 0, self.length)),
            Stage::Text => {
                let (index, language) = self.key();
                Some(get_descriptor(USB_DT_STRING, index, language, 255))
            },
            Stage::OsText => Some(get_descriptor(USB_DT_STRING, MICROSOFT_STRING_INDEX, 0, 255)),
            Stage::CompatibleIds => Some(
                SetupPacket {
                    request_type: 0xc0,
                    request: vendor_code,
                    value: 0,
                    index: 4,
                    length: 255,
                },
            ),
            Stage::Properties => Some(
                SetupPacket {
                    request_type: 0xc1,
                    request: vendor_code,
                    value: self.interfaces[self.position] as u16,
                    index: 5,
                    length: 255,
                },
            ),
            Stage::BosHeader => Some(get_descriptor(USB_DT_BOS, 0, 0, 5)),
            Stage::Bos => Some(get_descriptor(USB_DT_BOS, 0, 0, self.length)),
            Stage::SelectConfiguration => Some(
                SetupPacket {
                    request_type: 0x00,
                    request: USB_REQ_SET_CONFIGURATION,
                    value: 1,
                    index: 0,
                    length: 0,
                },
            ),
            Stage::LandingPage => Some(
                SetupPacket {
                    request_type: 0xc0,
                    request: self.capability.vendor_code,
                    value: self.capability.landing_index as u16,
                    index: 2,
                    length: 255,
                },
            ),
            Stage::Complete => None,
            Stage::Failed(_) => None,
        }
    }

    /// The index and the language of the text at the current position.
    fn key(&self) -> (key: (u8, u16))
        requires
            self@.wf(),
            self.stage is Text,
        ensures
            key == text_key(self@, self@.position),
    {
        proof {
            lemma_text_position(self.languages@.len(), self.indices@.len(), self.position as nat);
        }
        (
            self.indices[self.position % self.indices.len()],
            self.languages[self.position / self.indices.len()],
        )
    }

    /// Takes the reply to the transfer that was asked for: the bytes that the firmware sent, or
    /// nothing where it stalled.
    pub fn accept(&mut self, reply: Option<Vec<u8>>)
        requires
            old(self)@.wf(),
        ensures
            final(self)@ == after_reply(old(self)@, reply_view(reply)),
            final(self)@.wf(),
            next_request(old(self)@) is Some ==> final(self)@.stages_left() < old(
                self
            )@.stages_left() || (final(self)@.stages_left() == old(self)@.stages_left()
                && final(self)@.transfers_left() < old(self)@.transfers_left()),
    {
        proof {
            reveal(next_request);
            reveal(after_reply);
        }
        match reply {
            None => self.stalled(),
            Some(bytes) => match self.stage {
                Stage::Device => self.take_device(bytes),
                Stage::Languages => self.take_languages(bytes),
                Stage::ConfigurationHeader => self.take_configuration_header(bytes.as_slice()),
                Stage::Configuration => self.take_configuration(bytes),
                Stage::Text => self.take_text(bytes),
                Stage::OsText => self.take_os_text(bytes),
                Stage::CompatibleIds => self.take_compatible_ids(bytes.as_slice()),
                Stage::Properties => self.take_properties(bytes.as_slice()),
                Stage::BosHeader => self.take_bos_header(bytes.as_slice()),
                Stage::Bos => self.take_bos(bytes.as_slice()),
                Stage::SelectConfiguration => {
                    self.stage = Stage::LandingPage;
                },
                Stage::LandingPage => self.take_landing_page(bytes.as_slice()),
                Stage::Complete => {},
                Stage::Failed(_) => {},
            },
        }
    }

    fn stalled(&mut self)
        requires
            old(self)@.wf(),
        ensures
            final(self)@ == after_stall(old(self)@),
            final(self)@.wf(),
    {
        match self.stage {
            Stage::OsText => self.ask_webusb(),
            Stage::CompatibleIds => {
                self.position = 0;
                self.ask_properties();
            },
            Stage::Properties => {
                self.position = self.position + 1;
                self.ask_properties();
            },
            Stage::BosHeader => {
                self.stage = Stage::Complete;
            },
            Stage::SelectConfiguration => {
                self.stage = Stage::Failed(DiscoveryFault::ConfigurationRejected);
            },
            Stage::LandingPage => {
                self.stage = Stage::Failed(DiscoveryFault::StalledUrl);
            },
            Stage::Complete => {},
            Stage::Failed(_) => {},
            _ => {
                self.stage = Stage::Failed(DiscoveryFault::Stalled);
            },
        }
    }

    fn ask_properties(&mut self)
        requires
            old(self).device@.len() == 18,
            old(self).microsoft is Some,
            old(self)@.languages.len() <= 126,
            old(self)@.indices.len() <= 256,
            old(self)@.interfaces.len() <= 256,
        ensures
            final(self)@ == ask_properties(old(self)@),
            final(self)@.wf(),
    {
        if self.position < self.interfaces.len() {
            self.stage = Stage::Properties;
        } else {
            self.ask_webusb();
        }
    }

    fn ask_webusb(&mut self)
        requires
            old(self).device@.len() == 18,
            old(self)@.languages.len() <= 126,
            old(self)@.indices.len() <= 256,
            old(self)@.interfaces.len() <= 256,
        ensures
            final(self)@ == ask_webusb(old(self)@),
            final(self)@.wf(),
    {
        let bcd_usb: u16 = le_word(self.device.as_slice(), 2);
        self.stage = if bcd_usb < 0x0201 {
            Stage::Complete
        } else {
            Stage::BosHeader
        };
    }

    fn take_device(&mut self, reply: Vec<u8>)
        requires
            old(self)@.wf(),
        ensures
            final(self)@ == after_device(old(self)@, reply@),
            final(self)@.wf(),
    {
        if reply.len() != 18 || reply[0] != 18 || reply[1] != USB_DT_DEVICE {
            self.stage = Stage::Failed(DiscoveryFault::InvalidDevice);
        } else if reply[17] != 1 {
            self.stage = Stage::Failed(DiscoveryFault::ConfigurationCount);
        } else {
            self.device = reply;
            self.stage = Stage::Languages;
        }
    }

    fn take_languages(&mut self, reply: Vec<u8>)
        requires
            old(self)@.wf(),
            old(self).stage is Languages,
        ensures
            final(self)@ == after_languages(old(self)@, reply@),
            final(self)@.wf(),
    {
        if reply.len() < 4 || reply[1] != USB_DT_STRING || reply[0] as usize != reply.len()
            || reply.len() % 2 != 0 {
            self.stage = Stage::Failed(DiscoveryFault::InvalidLanguages);
            return ;
        }
        self.languages = sorted_words(slice_subrange(reply.as_slice(), 2, reply.len()));
        let mut strings: Vec<StringDescriptor> = Vec::new();
        assert(reply@.subrange(2, reply@.len() as int) =~= reply@.skip(2));
        strings.push(StringDescriptor::new(0, 0, reply));
        self.strings = strings;
        self.stage = Stage::ConfigurationHeader;
        assert(self@ =~= after_languages(old(self)@, reply@));
    }

    fn take_configuration_header(&mut self, reply: &[u8])
        requires
            old(self)@.wf(),
            old(self).stage is ConfigurationHeader,
        ensures
            final(self)@ == after_configuration_header(old(self)@, reply@),
            final(self)@.wf(),
    {
        if reply.len() != 9 || reply[0] != 9 || reply[1] != USB_DT_CONFIGURATION {
            self.stage = Stage::Failed(DiscoveryFault::InvalidConfigurationHeader);
            return ;
        }
        let length: u16 = le_word(reply, 2);
        if length < 9 {
            self.stage = Stage::Failed(DiscoveryFault::InvalidConfigurationLength);
        } else {
            self.length = length;
            self.stage = Stage::Configuration;
        }
    }

    fn take_configuration(&mut self, reply: Vec<u8>)
        requires
            old(self)@.wf(),
            old(self).stage is Configuration,
        ensures
            final(self)@ == after_configuration(old(self)@, reply@),
            final(self)@.wf(),
    {
        if reply.len() != self.length as usize {
            self.stage = Stage::Failed(DiscoveryFault::TruncatedConfiguration);
            return ;
        }
        match survey_configuration(self.device.as_slice(), reply.as_slice()) {
            Err(fault) => {
                self.stage = Stage::Failed(fault);
            },
            Ok((interfaces, indices)) => {
                self.configuration = reply;
                self.interfaces = interfaces.to_vec();
                self.indices = indices.to_vec();
                self.position = 0;
                proof {
                    lemma_ascending_bytes(interfaces@);
                    lemma_ascending_bytes(indices@);
                }
                self.ask_text();
            },
        }
    }

    fn ask_text(&mut self)
        requires
            old(self).device@.len() == 18,
            old(self)@.languages.len() <= 126,
            old(self)@.indices.len() <= 256,
            old(self)@.interfaces.len() <= 256,
        ensures
            final(self)@ == ask_text(old(self)@),
            final(self)@.wf(),
    {
        assert(self.languages@.len() * self.indices@.len() <= 126 * 256) by (nonlinear_arith)
            requires
                self.languages@.len() <= 126,
                self.indices@.len() <= 256,
        ;
        self.stage = if self.position < self.languages.len() * self.indices.len() {
            Stage::Text
        } else {
            Stage::OsText
        };
    }

    fn take_text(&mut self, reply: Vec<u8>)
        requires
            old(self)@.wf(),
            old(self).stage is Text,
        ensures
            final(self)@ == after_text(old(self)@, reply@),
            final(self)@.wf(),
    {
        if reply.len() < 2 || reply[1] != USB_DT_STRING {
            self.stage = Stage::Failed(DiscoveryFault::InvalidString);
            return ;
        }
        assert(self.languages@.len() * self.indices@.len() <= 126 * 256) by (nonlinear_arith)
            requires
                self.languages@.len() <= 126,
                self.indices@.len() <= 256,
        ;
        let (index, language) = self.key();
        self.strings.push(StringDescriptor::new(index, language, reply));
        self.position = self.position + 1;
        assert(self@.strings =~= old(self)@.strings.push(
            StringModel { index, language_id: language, descriptor: reply@ },
        ));
        self.ask_text();
    }

    fn take_os_text(&mut self, reply: Vec<u8>)
        requires
            old(self)@.wf(),
            old(self).stage is OsText,
        ensures
            final(self)@ == after_os_text(old(self)@, reply@),
            final(self)@.wf(),
    {
        if reply.len() < 18 || reply[1] != USB_DT_STRING {
            self.stage = Stage::Failed(DiscoveryFault::InvalidOsString);
            return ;
        }
        let words = read_words(slice_subrange(reply.as_slice(), 2, 16));
        let signed = match from_utf16(words.as_slice()) {
            Some(signature) => same_text(signature.as_str(), "MSFT100"),
            None => false,
        };
        if !signed || reply[16] == 0 {
            self.stage = Stage::Failed(DiscoveryFault::UnsupportedOsString);
            return ;
        }
        let vendor_code: u8 = reply[16];
        self.strings.push(StringDescriptor::new(MICROSOFT_STRING_INDEX, 0, reply));
        self.microsoft = Some(MicrosoftOs10::new(vendor_code));
        self.stage = Stage::CompatibleIds;
        assert(self@ =~= after_os_text(old(self)@, reply@));
    }

    fn take_compatible_ids(&mut self, reply: &[u8])
        requires
            old(self)@.wf(),
            old(self).stage is CompatibleIds,
        ensures
            final(self)@ == after_compatible_ids(old(self)@, reply@),
            final(self)@.wf(),
    {
        if reply.len() < 16 || le_double_word(reply, 0) as usize > reply.len() {
            self.stage = Stage::Failed(DiscoveryFault::InvalidCompatibleIds);
            return ;
        }
        let count: u8 = reply[8];
        if count == 0 || 16 + 24 * count as usize > reply.len() {
            self.stage = Stage::Failed(DiscoveryFault::TruncatedCompatibleIds);
            return ;
        }
        match read_compatible_ids(reply, count, &self.interfaces) {
            Err(fault) => {
                self.stage = Stage::Failed(fault);
            },
            Ok(ids) => {
                if let Some(mut microsoft) = self.microsoft.take() {
                    microsoft.compatible_ids = ids;
                    self.microsoft = Some(microsoft);
                }
                self.position = 0;
                self.ask_properties();
            },
        }
    }

    fn take_properties(&mut self, reply: &[u8])
        requires
            old(self)@.wf(),
            old(self).stage is Properties,
        ensures
            final(self)@ == after_properties(old(self)@, reply@),
            final(self)@.wf(),
    {
        if reply.len() < 10 || le_double_word(reply, 0) as usize > reply.len() {
            self.stage = Stage::Failed(DiscoveryFault::InvalidProperties);
            return ;
        }
        let interface: u8 = self.interfaces[self.position];
        if let Some(mut microsoft) = self.microsoft.take() {
            let ghost before = microsoft@;
            let outcome = read_properties(
                reply,
                le_word(reply, 8),
                interface,
                &mut microsoft.registry_properties,
            );
            match outcome {
                Err(fault) => {
                    self.microsoft = Some(
                        MicrosoftOs10 {
                            vendor_code: microsoft.vendor_code,
                            compatible_ids: microsoft.compatible_ids,
                            registry_properties: microsoft.registry_properties,
                        },
                    );
                    self.stage = Stage::Failed(fault);
                },
                Ok(()) => {
                    self.microsoft = Some(microsoft);
                    self.position = self.position + 1;
                    self.ask_properties();
                },
            }
        }
    }

    fn take_bos_header(&mut self, reply: &[u8])
        requires
            old(self)@.wf(),
            old(self).stage is BosHeader,
        ensures
            final(self)@ == after_bos_header(old(self)@, reply@),
            final(self)@.wf(),
    {
        if reply.len() != 5 || reply[1] != USB_DT_BOS {
            self.stage = Stage::Failed(DiscoveryFault::InvalidBosHeader);
            return ;
        }
        self.length = le_word(reply, 2);
        self.stage = Stage::Bos;
    }

    fn take_bos(&mut self, reply: &[u8])
        requires
            old(self)@.wf(),
            old(self).stage is Bos,
        ensures
            final(self)@ == after_bos(old(self)@, reply@),
            final(self)@.wf(),
    {
        if reply.len() != self.length as usize {
            self.stage = Stage::Failed(DiscoveryFault::TruncatedBos);
            return ;
        }
        match scan_capabilities(reply) {
            Err(fault) => {
                self.stage = Stage::Failed(fault);
            },
            Ok(None) => {
                self.stage = Stage::Complete;
            },
            Ok(Some(capability)) => {
                if capability.landing_index == 0 {
                    let empty = String::new();
                    assert(empty@ =~= seq![]);
                    self.webusb = Some(
                        WebUsb {
                            version: capability.version,
                            vendor_code: capability.vendor_code,
                            landing_page: empty,
                        },
                    );
                    self.stage = Stage::Complete;
                } else {
                    self.capability = capability;
                    self.stage = Stage::SelectConfiguration;
                }
            },
        }
    }

    fn take_landing_page(&mut self, reply: &[u8])
        requires
            old(self)@.wf(),
            old(self).stage is LandingPage,
        ensures
            final(self)@ == after_landing_page(old(self)@, reply@),
            final(self)@.wf(),
    {
        match webusb_url(reply) {
            Err(fault) => {
                self.stage = Stage::Failed(fault);
            },
            Ok(landing_page) => {
                self.webusb = Some(
                    WebUsb {
                        version: self.capability.version,
                        vendor_code: self.capability.vendor_code,
                        landing_page,
                    },
                );
                self.stage = Stage::Complete;
            },
        }
    }

    /// What a conversation that asks for nothing more amounts to.
    pub fn conclude(self) -> (outcome: Result<UsbPersonality, DiscoveryFault>)
        ensures
            match outcome {
                Err(fault) => concluded(self@) == Err::<PersonalityModel, DiscoveryFault>(fault),
                Ok(personality) => concluded(self@) == Ok::<PersonalityModel, DiscoveryFault>(
                    personality@,
                ),
            },
    {
        proof {
            reveal(concluded);
        }
        if let Stage::Failed(fault) = self.stage {
            return Err(fault);
        }
        let mut builder = UsbPersonalityBuilder::new(self.speed);
        builder.device_descriptor(self.device).configuration_descriptor(self.configuration);
        push_strings(&mut builder, self.strings);
        if let Some(microsoft) = self.microsoft {
            builder.microsoft_os_1(microsoft);
        }
        if let Some(webusb) = self.webusb {
            builder.webusb(webusb);
        }
        match builder.finish() {
            Ok(personality) => Ok(personality),
            Err(error) => Err(DiscoveryFault::Personality(error)),
        }
    }
}

/// The 16-bit words in `bytes`.
fn read_words(bytes: &[u8]) -> (words: Vec<u16>)
    ensures
        words@ == words_of(bytes@),
{
    let count: usize = bytes.len() / 2;
    let mut words: Vec<u16> = Vec::new();
    let mut i: usize = 0;
    while i < count
        invariant
            i <= count,
            words@.len() == i,
            count == bytes@.len() / 2,
            bytes@.len() <= usize::MAX,
            forall|k: int| 0 <= k < i ==> words@[k] == le16_at(bytes@, 2 * k),
        decreases count - i,
    {
        words.push(le_word(bytes, 2 * i));
        i = i + 1;
    }
    assert(words@ =~= words_of(bytes@));
    words
}

/// The distinct 16-bit words in `bytes` in ascending order.
fn sorted_words(bytes: &[u8]) -> (sorted: Vec<u16>)
    ensures
        sorted@ == ascending_words(words_of(bytes@)),
        sorted@.len() <= bytes@.len() / 2,
{
    let words = read_words(bytes);
    let mut sorted: Vec<u16> = Vec::new();
    let mut i: usize = 0;
    assert(sorted@.to_set() =~= words@.take(0).to_set());
    while i < words.len()
        invariant
            i <= words@.len(),
            sorted@.len() <= i,
            strictly_increasing(sorted@),
            sorted@.to_set() == words@.take(i as int).to_set(),
        decreases words@.len() - i,
    {
        proof {
            lemma_take_set(words@, i as int);
        }
        insert_word(&mut sorted, words[i]);
        i = i + 1;
    }
    proof {
        assert(words@.take(words@.len() as int) =~= words@);
        let chosen = ascending_words(words@);
        assert(strictly_increasing(sorted@) && sorted@.to_set() == words@.to_set());
        lemma_increasing_unique(chosen, sorted@);
    }
    sorted
}

proof fn lemma_take_set(words: Seq<u16>, i: int)
    requires
        0 <= i < words.len(),
    ensures
        words.take(i + 1).to_set() == words.take(i).to_set().insert(words[i]),
{
    let before = words.take(i);
    let after = words.take(i + 1);
    assert forall|word: u16| after.to_set().contains(word) <==> before.to_set().insert(
        words[i],
    ).contains(word) by {
        if before.contains(word) {
            let k = choose|k: int| 0 <= k < before.len() && before[k] == word;
            assert(after[k] == word);
        }
        if word == words[i] {
            assert(after[i] == word);
        }
        if after.contains(word) && word != words[i] {
            let k = choose|k: int| 0 <= k < after.len() && after[k] == word;
            assert(before[k] == word);
        }
    }
    assert(after.to_set() =~= before.to_set().insert(words[i]));
}

/// Adds string descriptors to a builder that has none.
fn push_strings(builder: &mut UsbPersonalityBuilder, strings: Vec<StringDescriptor>)
    requires
        old(builder)@.strings.len() == 0,
    ensures
        final(builder)@ == (BuilderModel { strings: strings_view(strings@), ..old(builder)@ }),
{
    let mut rest = strings;
    let mut reversed: Vec<StringDescriptor> = Vec::new();
    while rest.len() > 0
        invariant
            rest@.len() + reversed@.len() == strings@.len(),
            rest@ == strings@.take(rest@.len() as int),
            forall|k: int|
                0 <= k < reversed@.len() ==> reversed@[k] == strings@[strings@.len() - 1 - k],
        decreases rest@.len(),
    {
        if let Some(last) = rest.pop() {
            reversed.push(last);
        }
        assert(rest@ =~= strings@.take(rest@.len() as int));
    }
    assert(builder@.strings =~= strings_view(strings@.take(0)));
    while reversed.len() > 0
        invariant
            reversed@.len() <= strings@.len(),
            forall|k: int|
                0 <= k < reversed@.len() ==> reversed@[k] == strings@[strings@.len() - 1 - k],
            builder@ == (BuilderModel {
                strings: strings_view(strings@.take(strings@.len() - reversed@.len())),
                ..old(builder)@
            }),
        decreases reversed@.len(),
    {
        let ghost done = strings@.len() - reversed@.len();
        if let Some(next) = reversed.pop() {
            builder.string_descriptor(next);
        }
        assert(builder@.strings =~= strings_view(strings@.take(done + 1)));
    }
    assert(strings@.take(strings@.len() as int) =~= strings@);
}

/// The interface numbers and string indices of a device and its configuration.
fn survey_configuration(device: &[u8], bytes: &[u8]) -> (outcome: Result<
    (ByteSet, ByteSet),
    DiscoveryFault,
>)
    requires
        device@.len() == 18,
        bytes@.len() >= 9,
    ensures
        match outcome {
            Err(fault) => survey(
                bytes@,
                9,
                Set::empty(),
                leading_indices(device@, bytes@),
            ) == Err::<(Set<u8>, Set<u8>), DiscoveryFault>(fault),
            Ok((interfaces, indices)) => survey(
                bytes@,
                9,
                Set::empty(),
                leading_indices(device@, bytes@),
            ) == Ok::<(Set<u8>, Set<u8>), DiscoveryFault>((interfaces@, indices@)),
        },
{
    let mut interfaces = ByteSet::new();
    let mut indices = ByteSet::new();
    insert_index(&mut indices, device[14]);
    insert_index(&mut indices, device[15]);
    insert_index(&mut indices, device[16]);
    insert_index(&mut indices, bytes[6]);
    let mut offset: usize = 9;
    while offset < bytes.len()
        invariant
            offset <= bytes@.len(),
            survey(bytes@, 9, Set::empty(), leading_indices(device@, bytes@)) == survey(
                bytes@,
                offset as int,
                interfaces@,
                indices@,
            ),
        decreases bytes@.len() - offset,
    {
        if bytes.len() - offset < 2 {
            return Err(DiscoveryFault::TruncatedDescriptor);
        }
        let length: usize = bytes[offset] as usize;
        if length < 2 || length > bytes.len() - offset {
            return Err(DiscoveryFault::MalformedDescriptor);
        }
        if bytes[offset + 1] == USB_DT_INTERFACE {
            if length < 9 {
                return Err(DiscoveryFault::ShortInterface);
            }
            interfaces.insert(bytes[offset + 2]);
            insert_index(&mut indices, bytes[offset + 8]);
        }
        offset = offset + length;
    }
    Ok((interfaces, indices))
}

fn insert_index(indices: &mut ByteSet, index: u8)
    ensures
        final(indices)@ == with_index(old(indices)@, index),
{
    if index != 0 {
        indices.insert(index);
    }
}

fn has_byte(bytes: &Vec<u8>, wanted: u8) -> (found: bool)
    ensures
        found == bytes@.contains(wanted),
{
    let mut i: usize = 0;
    while i < bytes.len()
        invariant
            i <= bytes@.len(),
            forall|k: int| 0 <= k < i ==> bytes@[k] != wanted,
        decreases bytes@.len() - i,
    {
        if bytes[i] == wanted {
            return true;
        }
        i = i + 1;
    }
    false
}

fn read_compatible_ids(reply: &[u8], count: u8, interfaces: &Vec<u8>) -> (outcome: Result<
    Vec<MicrosoftCompatibleId>,
    DiscoveryFault,
>)
    requires
        16 + 24 * count <= reply@.len(),
    ensures
        match outcome {
            Err(fault) => compatible_sections(
                reply@,
                16,
                count as nat,
                interfaces@,
                seq![],
            ) == Err::<Seq<CompatibleIdModel>, DiscoveryFault>(fault),
            Ok(ids) => compatible_sections(reply@, 16, count as nat, interfaces@, seq![]) == Ok::<
                Seq<CompatibleIdModel>,
                DiscoveryFault,
            >(ids@.map_values(|id: MicrosoftCompatibleId| id@)),
        },
{
    let mut ids: Vec<MicrosoftCompatibleId> = Vec::new();
    let ghost mut model: Seq<CompatibleIdModel> = seq![];
    let mut i: u8 = 0;
    let mut offset: usize = 16;
    while i < count
        invariant
            i <= count,
            offset == 16 + 24 * i,
            16 + 24 * count <= reply@.len(),
            model =~= ids@.map_values(|id: MicrosoftCompatibleId| id@),
            compatible_sections(reply@, 16, count as nat, interfaces@, seq![])
                == compatible_sections(
                reply@,
                offset as int,
                (count - i) as nat,
                interfaces@,
                model,
            ),
        decreases count - i,
    {
        let interface: u8 = reply[offset];
        if !has_byte(interfaces, interface) {
            return Err(DiscoveryFault::UnknownInterface);
        }
        let compatible_id = usb_identifier(slice_subrange(reply, offset + 2, offset + 10));
        let sub_compatible_id = usb_identifier(slice_subrange(reply, offset + 10, offset + 18));
        match (compatible_id, sub_compatible_id) {
            (Some(compatible_id), Some(sub_compatible_id)) => {
                let id = MicrosoftCompatibleId { interface, compatible_id, sub_compatible_id };
                ids.push(id);
                proof {
                    model = model.push(id@);
                }
            },
            _ => return Err(DiscoveryFault::CompatibleIdText),
        }
        offset = offset + 24;
        i = i + 1;
    }
    assert(model == ids@.map_values(|id: MicrosoftCompatibleId| id@));
    Ok(ids)
}

/// The text of a zero-padded identifier, if it is ASCII.
fn usb_identifier(bytes: &[u8]) -> (text: Option<String>)
    ensures
        match text {
            None => identifier_text(bytes@) is None,
            Some(text) => identifier_text(bytes@) == Some(text@),
        },
{
    let mut end: usize = 0;
    while end < bytes.len() && bytes[end] != 0
        invariant
            end <= bytes@.len(),
            nul_at(bytes@, 0) == nul_at(bytes@, end as int),
        decreases bytes@.len() - end,
    {
        end = end + 1;
    }
    let head = slice_subrange(bytes, 0, end);
    assert(head@ =~= before_nul(bytes@));
    let mut i: usize = 0;
    while i < head.len()
        invariant
            i <= head@.len(),
            head@ == before_nul(bytes@),
            forall|k: int| 0 <= k < i ==> head@[k] < 128,
        decreases head@.len() - i,
    {
        if head[i] >= 128 {
            return None;
        }
        i = i + 1;
    }
    proof {
        lemma_ascii_utf8(head@);
    }
    utf8_string(head)
}

fn read_properties(
    reply: &[u8],
    count: u16,
    interface: u8,
    found: &mut Vec<MicrosoftRegistryProperty>,
) -> (outcome: Result<(), DiscoveryFault>)
    requires
        reply@.len() >= 10,
    ensures
        match outcome {
            Err(fault) => property_list(
                reply@,
                10,
                count as nat,
                interface,
                properties_view(old(found)@),
            ) == Err::<Seq<PropertyModel>, DiscoveryFault>(fault) && final(found)@ == old(found)@,
            Ok(()) => property_list(
                reply@,
                10,
                count as nat,
                interface,
                properties_view(old(found)@),
            ) == Ok::<Seq<PropertyModel>, DiscoveryFault>(properties_view(final(found)@)),
        },
{
    let mut fresh: Vec<MicrosoftRegistryProperty> = Vec::new();
    let mut offset: usize = 10;
    let mut i: u16 = 0;
    let ghost start = properties_view(found@);
    let ghost mut model = start;
    while i < count
        invariant
            i <= count,
            offset <= reply@.len(),
            found@ == old(found)@,
            start == properties_view(old(found)@),
            model =~= start + properties_view(fresh@),
            property_list(reply@, 10, count as nat, interface, start) == property_list(
                reply@,
                offset as int,
                (count - i) as nat,
                interface,
                model,
            ),
        decreases count - i,
    {
        let (property, next) = read_property(reply, offset, interface)?;
        fresh.push(property);
        proof {
            model = model.push(property@);
        }
        offset = next;
        i = i + 1;
    }
    found.append(&mut fresh);
    assert(model =~= properties_view(found@));
    Ok(())
}

/// The property at an offset, and the offset behind it.
fn read_property(reply: &[u8], offset: usize, interface: u8) -> (outcome: Result<
    (MicrosoftRegistryProperty, usize),
    DiscoveryFault,
>)
    requires
        offset <= reply@.len(),
    ensures
        match outcome {
            Err(fault) => property_at(reply@, offset as int, interface) == Err::<
                PropertyModel,
                DiscoveryFault,
            >(fault),
            Ok((property, next)) => property_at(reply@, offset as int, interface) == Ok::<
                PropertyModel,
                DiscoveryFault,
            >(property@) && next == offset + le32_at(reply@, offset as int) && next <= reply@.len(),
        },
{
    if reply.len() - offset < 14 {
        return Err(DiscoveryFault::TruncatedProperty);
    }
    let length: u32 = le_double_word(reply, offset);
    let data_type: u32 = le_double_word(reply, offset + 4);
    let name_length: u16 = le_word(reply, offset + 8);
    if length < 14 || length as usize > reply.len() - offset || name_length as u32 > length - 14 {
        return Err(DiscoveryFault::InvalidProperty);
    }
    let next: usize = offset + length as usize;
    let name_start: usize = offset + 10;
    let name_end: usize = name_start + name_length as usize;
    let data_length: u32 = le_double_word(reply, name_end);
    let data_start: usize = name_end + 4;
    if data_length as usize > next - data_start {
        return Err(DiscoveryFault::TruncatedPropertyValue);
    }
    let name = utf16le_string(slice_subrange(reply, name_start, name_end))?;
    let data = slice_to_vec(slice_subrange(reply, data_start, data_start + data_length as usize));
    Ok((MicrosoftRegistryProperty { interface, data_type, name, data }, next))
}

/// The text of a property name, without a zero at its end.
fn utf16le_string(bytes: &[u8]) -> (outcome: Result<String, DiscoveryFault>)
    ensures
        match outcome {
            Err(fault) => property_name_text(bytes@) == Err::<Seq<char>, DiscoveryFault>(fault),
            Ok(text) => property_name_text(bytes@) == Ok::<Seq<char>, DiscoveryFault>(text@),
        },
{
    if bytes.len() % 2 != 0 {
        return Err(DiscoveryFault::OddPropertyName);
    }
    let mut words = read_words(bytes);
    if words.len() > 0 && words[words.len() - 1] == 0 {
        words.pop();
        assert(words@ =~= words_of(bytes@).drop_last());
    }
    match from_utf16(words.as_slice()) {
        Some(text) => Ok(text),
        None => Err(DiscoveryFault::PropertyNameEncoding),
    }
}

/// The first WebUSB capability of a device.
fn scan_capabilities(bos: &[u8]) -> (outcome: Result<Option<Capability>, DiscoveryFault>)
    ensures
        outcome == find_webusb(bos@, 5),
{
    let uuid: [u8; 16] = [
        0x38,
        0xb6,
        0x08,
        0x34,
        0xa9,
        0x09,
        0xa0,
        0x47,
        0x8b,
        0xfd,
        0xa0,
        0x76,
        0x88,
        0x15,
        0xb6,
        0x65,
    ];
    assert(uuid@ =~= webusb_uuid());
    let mut offset: usize = 5;
    while offset < bos.len()
        invariant
            offset <= bos@.len() || offset == 5,
            uuid@ == webusb_uuid(),
            find_webusb(bos@, 5) == find_webusb(bos@, offset as int),
        decreases bos@.len() - offset,
    {
        let length: usize = bos[offset] as usize;
        if length < 3 || length > bos.len() - offset {
            return Err(DiscoveryFault::MalformedCapability);
        }
        if length >= 24 && bos[offset + 1] == USB_DT_DEVICE_CAPABILITY && bos[offset + 2]
            == USB_DC_PLATFORM && same_bytes(
            slice_subrange(bos, offset + 4, offset + 20),
            uuid.as_slice(),
        ) {
            return Ok(
                Some(
                    Capability {
                        version: le_word(bos, offset + 20),
                        vendor_code: bos[offset + 22],
                        landing_index: bos[offset + 23],
                    },
                ),
            );
        }
        offset = offset + length;
    }
    Ok(None)
}

/// The address in a WebUSB URL descriptor.
fn webusb_url(bytes: &[u8]) -> (outcome: Result<String, DiscoveryFault>)
    ensures
        match outcome {
            Err(fault) => url_text(bytes@) == Err::<Seq<char>, DiscoveryFault>(fault),
            Ok(text) => url_text(bytes@) == Ok::<Seq<char>, DiscoveryFault>(text@),
        },
{
    if bytes.len() < 3 || bytes[0] < 3 || bytes[0] as usize > bytes.len() || bytes[1] != 3 {
        return Err(DiscoveryFault::InvalidUrl);
    }
    let mut url: String = match bytes[2] {
        0 => "http://".to_owned(),
        1 => "https://".to_owned(),
        255 => String::new(),
        _ => return Err(DiscoveryFault::UrlScheme),
    };
    let ghost prefix = url@;
    assert(bytes@[2] == 255 ==> prefix =~= seq![]);
    match utf8_string(slice_subrange(bytes, 3, bytes[0] as usize)) {
        None => Err(DiscoveryFault::UrlEncoding),
        Some(suffix) => {
            url.append(suffix.as_str());
            Ok(url)
        },
    }
}

/// Whether `transfer` can answer a request without data by `reply`.
pub open spec fn answers<E, F: FnMut(SetupPacket, &[u8]) -> Result<Option<Vec<u8>>, E>>(
    transfer: F,
    packet: SetupPacket,
    reply: Option<Seq<u8>>,
) -> bool {
    exists|data: &[u8], bytes: Option<Vec<u8>>|
        #![trigger call_ensures(transfer, (packet, data), Ok(bytes))]
        data@.len() == 0 && reply_view(bytes) == reply && call_ensures(
            transfer,
            (packet, data),
            Ok(bytes),
        )
}

/// Whether `transfer` can fail on a request without data with `error`.
pub open spec fn fails<E, F: FnMut(SetupPacket, &[u8]) -> Result<Option<Vec<u8>>, E>>(
    transfer: F,
    packet: SetupPacket,
    error: E,
) -> bool {
    exists|data: &[u8]|
        #![trigger call_ensures(transfer, (packet, data), Err(error))]
        data@.len() == 0 && call_ensures(transfer, (packet, data), Err(error))
}

/// Whether `transfer` can give `replies[i]` to what discovery asks for after the replies before.
pub open spec fn answered<E, F: FnMut(SetupPacket, &[u8]) -> Result<Option<Vec<u8>>, E>>(
    transfer: F,
    speed: UsbSpeed,
    replies: Seq<Option<Seq<u8>>>,
    i: int,
) -> bool {
    match next_request(after_replies(speed, replies.take(i))) {
        None => false,
        Some(packet) => answers::<E, F>(transfer, packet, replies[i]),
    }
}

/// Whether `transfer` can give `replies`, one after the other, to what discovery asks for.
pub open spec fn conversation<E, F: FnMut(SetupPacket, &[u8]) -> Result<Option<Vec<u8>>, E>>(
    transfer: F,
    speed: UsbSpeed,
    replies: Seq<Option<Seq<u8>>>,
) -> bool {
    forall|i: int| 0 <= i < replies.len() ==> #[trigger] answered::<E, F>(transfer, speed, replies, i)
}

/// Whether a conversation ends with `outcome` after `replies`: the transfer failed on what was
/// asked for next, or nothing more was asked for.
pub open spec fn ends_with<E, F: FnMut(SetupPacket, &[u8]) -> Result<Option<Vec<u8>>, E>>(
    transfer: F,
    speed: UsbSpeed,
    replies: Seq<Option<Seq<u8>>>,
    outcome: Result<UsbPersonality, DiscoveryError<E>>,
) -> bool {
    let state = after_replies(speed, replies);
    match (next_request(state), outcome) {
        (Some(packet), Err(DiscoveryError::Transfer(error))) => fails::<E, F>(
            transfer,
            packet,
            error,
        ),
        (None, Err(DiscoveryError::Fault(fault))) => concluded(state) == Err::<
            PersonalityModel,
            DiscoveryFault,
        >(fault),
        (None, Ok(personality)) => concluded(state) == Ok::<PersonalityModel, DiscoveryFault>(
            personality@,
        ),
        _ => false,
    }
}

proof fn lemma_conversation_grows<E, F: FnMut(SetupPacket, &[u8]) -> Result<Option<Vec<u8>>, E>>(
    transfer: F,
    speed: UsbSpeed,
    replies: Seq<Option<Seq<u8>>>,
    packet: SetupPacket,
    reply: Option<Seq<u8>>,
)
    requires
        conversation::<E, F>(transfer, speed, replies),
        next_request(after_replies(speed, replies)) == Some(packet),
        answers::<E, F>(transfer, packet, reply),
    ensures
        conversation::<E, F>(transfer, speed, replies.push(reply)),
        after_replies(speed, replies.push(reply)) == after_reply(
            after_replies(speed, replies),
            reply,
        ),
{
    let grown = replies.push(reply);
    assert(grown.drop_last() =~= replies);
    assert forall|i: int| 0 <= i < grown.len() implies #[trigger] answered::<E, F>(
        transfer,
        speed,
        grown,
        i,
    ) by {
        assert(grown.take(i) =~= replies.take(i));
        if i < replies.len() {
            assert(answered::<E, F>(transfer, speed, replies, i));
        } else {
            assert(replies.take(i) =~= replies);
        }
    }
}

/// Asks a firmware for its personality through `transfer`, which performs one control transfer
/// and gives the bytes that came back, or nothing where the firmware stalled.
pub fn discover<E, F>(speed: UsbSpeed, transfer: F) -> (outcome: Result<
    UsbPersonality,
    DiscoveryError<E>,
>) where F: FnMut(SetupPacket, &[u8]) -> Result<Option<Vec<u8>>, E>
    requires
        forall|packet: SetupPacket, data: &[u8]| #[trigger]
            call_requires(transfer, (packet, data)),
    ensures
        exists|replies: Seq<Option<Seq<u8>>>| #[trigger]
            conversation::<E, F>(transfer, speed, replies) && ends_with::<E, F>(
                transfer,
                speed,
                replies,
                outcome,
            ),
{
    let mut channel = transfer;
    let mut state = Discovery::new(speed);
    let ghost mut replies: Seq<Option<Seq<u8>>> = seq![];
    let empty: Vec<u8> = Vec::new();
    loop
        invariant
            channel == transfer,
            forall|packet: SetupPacket, data: &[u8]| #[trigger]
                call_requires(transfer, (packet, data)),
            empty@.len() == 0,
            state@.wf(),
            state@ == after_replies(speed, replies),
            conversation::<E, F>(transfer, speed, replies),
        ensures
            next_request(state@) is None,
            state@ == after_replies(speed, replies),
            conversation::<E, F>(transfer, speed, replies),
        decreases state@.stages_left(), state@.transfers_left(),
    {
        let packet = match state.request() {
            Some(packet) => packet,
            None => break,
        };
        match channel(packet, empty.as_slice()) {
            Err(error) => {
                assert(fails::<E, F>(transfer, packet, error));
                return Err(DiscoveryError::Transfer(error));
            },
            Ok(reply) => {
                proof {
                    assert(answers::<E, F>(transfer, packet, reply_view(reply)));
                    lemma_conversation_grows::<E, F>(
                        transfer,
                        speed,
                        replies,
                        packet,
                        reply_view(reply),
                    );
                    replies = replies.push(reply_view(reply));
                }
                state.accept(reply);
            },
        }
    }
    match state.conclude() {
        Ok(personality) => Ok(personality),
        Err(fault) => Err(DiscoveryError::Fault(fault)),
    }
}

} // verus!
