//! What is said of a value's contents is said of the value itself, field by field and item by item.

use crate::discovery::reply_view;
use crate::ep0::{events_view, Ep0Event, Ep0EventModel, Ep0Reply, Ep0ReplyModel};
use crate::functionfs::{inspection_view, Inspection};
use crate::gadget::{steps_view, GadgetStep, StepModel};
use crate::paths::names_view;
use crate::personality::{
    built_view, microsoft_view, strings_view, webusb_view, MicrosoftCompatibleId, MicrosoftOs10,
    MicrosoftRegistryProperty, PersonalityError, StringDescriptor, UsbPersonality, WebUsb,
};
use crate::protocol::Record;
use crate::supervisor::{Configuration, ConfigurationModel};
use crate::text::{chars_view, text_view};
use crate::usb_personality::{projection_view, DeviceIdentity, Personality, ProjectionError};
use vstd::prelude::*;

verus! {

/// Lists keep their items in their order.
pub proof fn lemma_lists_keep_their_order(
    strings: Seq<StringDescriptor>,
    steps: Seq<GadgetStep>,
    events: Seq<Ep0Event>,
    pieces: Seq<Vec<char>>,
    i: int,
)
    ensures
        strings_view(strings).len() == strings.len(),
        steps_view(steps).len() == steps.len(),
        events_view(events).len() == events.len(),
        chars_view(pieces).len() == pieces.len(),
        names_view(pieces).len() == pieces.len(),
        0 <= i < strings.len() ==> strings_view(strings)[i] == strings[i]@,
        0 <= i < steps.len() ==> steps_view(steps)[i] == steps[i]@,
        0 <= i < events.len() ==> events_view(events)[i] == events[i]@,
        0 <= i < pieces.len() ==> chars_view(pieces)[i] == pieces[i]@,
        0 <= i < pieces.len() ==> names_view(pieces)[i] == pieces[i]@,
{
}

/// What may be missing is missing on both sides.
pub proof fn lemma_options_stay_options(
    text: Option<String>,
    reply: Option<Vec<u8>>,
    microsoft: Option<MicrosoftOs10>,
    webusb: Option<WebUsb>,
)
    ensures
        text_view(text) == (match text {
            None => None,
            Some(text) => Some(text@),
        }),
        reply_view(reply) == (match reply {
            None => None,
            Some(bytes) => Some(bytes@),
        }),
        microsoft_view(microsoft) is Some <==> microsoft is Some,
        microsoft is Some ==> microsoft_view(microsoft)->0 == (microsoft->0)@,
        webusb_view(webusb) is Some <==> webusb is Some,
        webusb is Some ==> webusb_view(webusb)->0 == (webusb->0)@,
{
}

/// The parts of a personality are its own.
pub proof fn lemma_personality_parts(
    personality: UsbPersonality,
    string: StringDescriptor,
    id: MicrosoftCompatibleId,
    property: MicrosoftRegistryProperty,
    microsoft: MicrosoftOs10,
    webusb: WebUsb,
    i: int,
)
    ensures
        personality@.schema == personality.schema,
        personality@.max_speed == personality.max_speed,
        personality@.device == personality.device_descriptor@,
        personality@.configuration == personality.configuration_descriptor@,
        personality@.strings == strings_view(personality.strings@),
        personality@.microsoft == microsoft_view(personality.microsoft_os_1),
        personality@.webusb == webusb_view(personality.webusb),
        string@.index == string.index,
        string@.language_id == string.language_id,
        string@.descriptor == string.descriptor@,
        id@.interface == id.interface,
        id@.compatible_id == id.compatible_id@,
        id@.sub_compatible_id == id.sub_compatible_id@,
        property@.interface == property.interface,
        property@.data_type == property.data_type,
        property@.name == property.name@,
        property@.data == property.data@,
        microsoft@.vendor_code == microsoft.vendor_code,
        microsoft@.compatible_ids.len() == microsoft.compatible_ids@.len(),
        microsoft@.registry_properties.len() == microsoft.registry_properties@.len(),
        0 <= i < microsoft.compatible_ids@.len() ==> microsoft@.compatible_ids[i]
            == microsoft.compatible_ids@[i]@,
        0 <= i < microsoft.registry_properties@.len() ==> microsoft@.registry_properties[i]
            == microsoft.registry_properties@[i]@,
        webusb@.version == webusb.version,
        webusb@.vendor_code == webusb.vendor_code,
        webusb@.landing_page == webusb.landing_page@,
{
}

/// The parts of what a gadget shows are its own.
pub proof fn lemma_shown_parts(shown: Personality, device: DeviceIdentity)
    ensures
        shown@.device == shown.device@,
        shown@.max_speed == shown.max_speed@,
        shown@.configuration_attributes == shown.configuration_attributes,
        shown@.max_power_ma == shown.max_power_ma,
        shown@.descriptors == shown.descriptors@,
        shown@.strings == shown.strings@,
        shown@.endpoints == shown.endpoints@,
        shown@.microsoft is Some <==> shown.microsoft_os_1 is Some,
        shown.microsoft_os_1 matches Some(attributes) ==> shown@.microsoft == Some(
            (attributes.vendor_code, attributes.signature@),
        ),
        shown@.webusb is Some <==> shown.webusb is Some,
        shown.webusb matches Some(attributes) ==> {
            &&& (shown@.webusb->0).version == attributes.version
            &&& (shown@.webusb->0).vendor_code == attributes.vendor_code
            &&& (shown@.webusb->0).landing_page == attributes.landing_page@
        },
        device@.vendor_id == device.vendor_id,
        device@.product_id == device.product_id,
        device@.bcd_usb == device.bcd_usb,
        device@.bcd_device == device.bcd_device,
        device@.device_class == device.device_class,
        device@.device_subclass == device.device_subclass,
        device@.device_protocol == device.device_protocol,
        device@.manufacturer == text_view(device.manufacturer),
        device@.product == text_view(device.product),
        device@.serial == text_view(device.serial),
{
}

/// The parts of records, steps, events and replies are their own.
pub proof fn lemma_message_parts(
    record: Record,
    step: GadgetStep,
    event: Ep0Event,
    reply: Ep0Reply,
)
    ensures
        record@.kind == record.kind,
        record@.generation == record.generation,
        record@.request_id == record.request_id,
        record@.body == record.body@,
        record@.descriptors == record.descriptors@,
        step@ == (match step {
            GadgetStep::MakeDirectory(path) => StepModel::MakeDirectory(path@),
            GadgetStep::Write(path, value) => StepModel::Write(path@, value@),
            GadgetStep::Link(target, path) => StepModel::Link(target@, path@),
            GadgetStep::RemoveFile(path) => StepModel::RemoveFile(path@),
            GadgetStep::RemoveDirectory(path) => StepModel::RemoveDirectory(path@),
        }),
        event@ == (match event {
            Ep0Event::Bus(event) => Ep0EventModel::Bus(event),
            Ep0Event::Setup(setup) => Ep0EventModel::Setup(setup@),
            Ep0Event::Unknown(kind) => Ep0EventModel::Unknown(kind),
        }),
        reply@ == (match reply {
            Ep0Reply::Stall => Ep0ReplyModel::Stall,
            Ep0Reply::Acknowledge => Ep0ReplyModel::Acknowledge,
            Ep0Reply::Data(data) => Ep0ReplyModel::Data(data@),
        }),
{
}

/// What a configuration calls for is the same on both sides.
pub proof fn lemma_configuration_parts(configuration: Configuration)
    ensures
        configuration@ == (match configuration {
            Configuration::Mismatched => ConfigurationModel::Mismatched,
            Configuration::Ready => ConfigurationModel::Ready,
            Configuration::NothingToRemove => ConfigurationModel::NothingToRemove,
            Configuration::Remove(plan) => ConfigurationModel::Remove(plan@),
            Configuration::Refuse(refusal, plan) => ConfigurationModel::Refuse(refusal, plan@),
            Configuration::Install(shown, endpoints, plan) => ConfigurationModel::Install(
                shown@,
                endpoints@,
                plan@,
            ),
        }),
{
}

/// A success is told as one, with its contents, and an error as itself.
pub proof fn lemma_outcomes_stay_outcomes(
    built: Result<UsbPersonality, PersonalityError>,
    shown: Result<Personality, ProjectionError>,
    inspection: Result<Inspection, crate::functionfs::FunctionFsError>,
)
    ensures
        built matches Ok(personality) ==> built_view(built) == Ok::<
            crate::personality::PersonalityModel,
            PersonalityError,
        >(personality@),
        built matches Err(error) ==> built_view(built) == Err::<
            crate::personality::PersonalityModel,
            PersonalityError,
        >(error),
        shown matches Ok(personality) ==> projection_view(shown) == Ok::<
            crate::usb_personality::ProjectionModel,
            ProjectionError,
        >(personality@),
        shown matches Err(error) ==> projection_view(shown) == Err::<
            crate::usb_personality::ProjectionModel,
            ProjectionError,
        >(error),
        inspection matches Ok(found) ==> inspection_view(inspection) == Ok::<
            (Seq<crate::functionfs::Endpoint>, bool),
            crate::functionfs::FunctionFsError,
        >((found.endpoints@, found.has_ms_os_descriptors)),
        inspection matches Err(error) ==> inspection_view(inspection) == Err::<
            (Seq<crate::functionfs::Endpoint>, bool),
            crate::functionfs::FunctionFsError,
        >(error),
{
}

} // verus!
