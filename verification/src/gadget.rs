//! What a gadget's directory holds, how it is filled and how it is emptied.
//!
//! Paths are relative to the gadget's directory.

use crate::format::{decimal, decimal_text, hex_byte, hex_byte_text, hex_word, hex_word_text};
use crate::functionfs::{Direction, Endpoint};
use crate::personality::WebUsbModel;
use crate::text::{text_view, to_chars};
use crate::usb_personality::{
    gadget_microsoft_view, gadget_webusb_view, DeviceIdentity, IdentityModel, MicrosoftOs10,
    Personality, ProjectionModel, WebUsb,
};
use vstd::prelude::*;

verus! {

/// One change of a gadget's directory.
#[derive(Clone, Debug, Eq, PartialEq)]
pub enum GadgetStep {
    MakeDirectory(String),
    /// Write a value to an attribute.
    Write(String, String),
    /// Make a link to the first path at the second.
    Link(String, String),
    RemoveFile(String),
    RemoveDirectory(String),
}

/// The contents of a [`GadgetStep`].
pub enum StepModel {
    MakeDirectory(Seq<char>),
    Write(Seq<char>, Seq<char>),
    Link(Seq<char>, Seq<char>),
    RemoveFile(Seq<char>),
    RemoveDirectory(Seq<char>),
}

impl View for GadgetStep {
    type V = StepModel;

    open spec fn view(&self) -> StepModel {
        match self {
            GadgetStep::MakeDirectory(path) => StepModel::MakeDirectory(path@),
            GadgetStep::Write(path, value) => StepModel::Write(path@, value@),
            GadgetStep::Link(target, path) => StepModel::Link(target@, path@),
            GadgetStep::RemoveFile(path) => StepModel::RemoveFile(path@),
            GadgetStep::RemoveDirectory(path) => StepModel::RemoveDirectory(path@),
        }
    }
}

/// The contents of a list of steps.
pub open spec fn steps_view(steps: Seq<GadgetStep>) -> Seq<StepModel> {
    steps.map_values(|step: GadgetStep| step@)
}

/// Writing an attribute that may be missing.
pub open spec fn optional_write(path: Seq<char>, value: Option<Seq<char>>) -> Seq<StepModel> {
    match value {
        None => seq![],
        Some(value) => seq![StepModel::Write(path, value)],
    }
}

/// Writing who the device is.
pub open spec fn identity_steps(device: IdentityModel) -> Seq<StepModel> {
    seq![
        StepModel::Write("idVendor"@, hex_word_text(device.vendor_id)),
        StepModel::Write("idProduct"@, hex_word_text(device.product_id)),
        StepModel::Write("bcdUSB"@, hex_word_text(device.bcd_usb)),
        StepModel::Write("bcdDevice"@, hex_word_text(device.bcd_device)),
        StepModel::Write("bDeviceClass"@, hex_byte_text(device.device_class)),
        StepModel::Write("bDeviceSubClass"@, hex_byte_text(device.device_subclass)),
        StepModel::Write("bDeviceProtocol"@, hex_byte_text(device.device_protocol)),
        StepModel::MakeDirectory("strings/0x409"@),
    ] + optional_write("strings/0x409/manufacturer"@, device.manufacturer) + optional_write(
        "strings/0x409/product"@,
        device.product,
    ) + optional_write("strings/0x409/serialnumber"@, device.serial)
}

/// Declaring Microsoft OS 1.0 descriptors.
pub open spec fn microsoft_steps(microsoft: Option<(u8, Seq<char>)>) -> Seq<StepModel> {
    match microsoft {
        None => seq![],
        Some((vendor_code, signature)) => seq![
            StepModel::Write("os_desc/b_vendor_code"@, hex_byte_text(vendor_code)),
            StepModel::Write("os_desc/qw_sign"@, signature),
            StepModel::Write("os_desc/use"@, "1"@),
            StepModel::Link("configs/c.1"@, "os_desc/c.1"@),
        ],
    }
}

/// Declaring a WebUSB capability.
pub open spec fn webusb_steps(webusb: Option<WebUsbModel>) -> Seq<StepModel> {
    match webusb {
        None => seq![],
        Some(webusb) => seq![
            StepModel::Write("webusb/bcdVersion"@, hex_word_text(webusb.version)),
            StepModel::Write("webusb/bVendorCode"@, hex_byte_text(webusb.vendor_code)),
        ] + optional_write(
            "webusb/landingPage"@,
            if webusb.landing_page.len() == 0 {
                None
            } else {
                Some(webusb.landing_page)
            },
        ) + seq![StepModel::Write("webusb/use"@, "1"@)],
    }
}

/// The directory of a gadget's FunctionFS function.
pub open spec fn function_path(name: Seq<char>) -> Seq<char> {
    "functions/ffs."@ + name
}

/// The link to a gadget's function in its configuration.
pub open spec fn function_link(name: Seq<char>) -> Seq<char> {
    "configs/c.1/ffs."@ + name
}

/// Filling a gadget's directory.
pub open spec fn populate_steps(name: Seq<char>, personality: ProjectionModel) -> Seq<StepModel> {
    seq![StepModel::Write("max_speed"@, personality.max_speed)] + identity_steps(personality.device)
        + seq![
        StepModel::MakeDirectory("configs/c.1"@),
        StepModel::Write("configs/c.1/MaxPower"@, decimal_text(personality.max_power_ma as nat)),
        StepModel::Write(
            "configs/c.1/bmAttributes"@,
            hex_byte_text(personality.configuration_attributes),
        ),
    ] + microsoft_steps(personality.microsoft) + webusb_steps(personality.webusb) + seq![
        StepModel::MakeDirectory(function_path(name)),
    ]
}

/// Putting a gadget's function into its configuration.
pub open spec fn link_step(name: Seq<char>) -> StepModel {
    StepModel::Link(function_path(name), function_link(name))
}

/// Emptying a gadget's directory and removing it.
pub open spec fn removal_steps(name: Seq<char>) -> Seq<StepModel> {
    seq![
        StepModel::RemoveFile("os_desc/c.1"@),
        StepModel::RemoveFile(function_link(name)),
        StepModel::RemoveDirectory(function_path(name)),
        StepModel::RemoveDirectory("configs/c.1/strings/0x409"@),
        StepModel::RemoveDirectory("configs/c.1"@),
        StepModel::RemoveDirectory("strings/0x409"@),
        StepModel::RemoveDirectory(""@),
    ]
}

/// Whether a step undoes another, where the other leaves something behind.
pub open spec fn undoes(removal: StepModel, step: StepModel) -> bool {
    match step {
        StepModel::MakeDirectory(path) => removal == StepModel::RemoveDirectory(path),
        StepModel::Link(_, path) => removal == StepModel::RemoveFile(path),
        _ => true,
    }
}

/// Whether one of the removal steps undoes a step.
pub open spec fn undone(name: Seq<char>, step: StepModel) -> bool {
    exists|i: int| 0 <= i < removal_steps(name).len() && undoes(#[trigger] removal_steps(name)[i], step)
}

proof fn lemma_undone(name: Seq<char>, step: StepModel, i: int)
    requires
        0 <= i < removal_steps(name).len(),
        undoes(removal_steps(name)[i], step),
    ensures
        undone(name, step),
{
}

/// Removing a gadget removes every directory and every link that filling it has made.
pub proof fn lemma_removal_undoes_population(
    name: Seq<char>,
    personality: ProjectionModel,
    i: int,
)
    requires
        0 <= i < populate_steps(name, personality).len(),
    ensures
        undone(name, populate_steps(name, personality)[i]),
        undone(name, link_step(name)),
{
    let step = populate_steps(name, personality)[i];
    lemma_undone(name, link_step(name), 1);
    match step {
        StepModel::MakeDirectory(path) => {
            assert(path == "strings/0x409"@ || path == "configs/c.1"@ || path == function_path(
                name,
            ));
            if path == "strings/0x409"@ {
                lemma_undone(name, step, 5);
            } else if path == "configs/c.1"@ {
                lemma_undone(name, step, 4);
            } else {
                lemma_undone(name, step, 2);
            }
        },
        StepModel::Link(target, path) => {
            assert(path == "os_desc/c.1"@);
            lemma_undone(name, step, 0);
        },
        _ => {
            assert(step is Write);
            lemma_undone(name, step, 0);
        },
    }
}

fn push_write(steps: &mut Vec<GadgetStep>, path: &str, value: &str)
    ensures
        steps_view(final(steps)@) == steps_view(old(steps)@).push(StepModel::Write(path@, value@)),
{
    steps.push(GadgetStep::Write(path.to_owned(), value.to_owned()));
    assert(steps_view(steps@) =~= steps_view(old(steps)@).push(StepModel::Write(path@, value@)));
}

fn push_optional(steps: &mut Vec<GadgetStep>, path: &str, value: &Option<String>)
    ensures
        steps_view(final(steps)@) == steps_view(old(steps)@) + optional_write(
            path@,
            text_view(*value),
        ),
{
    match value {
        None => {},
        Some(value) => push_write(steps, path, value.as_str()),
    }
    assert(steps_view(steps@) =~= steps_view(old(steps)@) + optional_write(
        path@,
        text_view(*value),
    ));
}

fn push_directory(steps: &mut Vec<GadgetStep>, path: String)
    ensures
        steps_view(final(steps)@) == steps_view(old(steps)@).push(StepModel::MakeDirectory(path@)),
{
    steps.push(GadgetStep::MakeDirectory(path));
    assert(steps_view(steps@) =~= steps_view(old(steps)@).push(StepModel::MakeDirectory(path@)));
}

fn push_identity(steps: &mut Vec<GadgetStep>, device: &DeviceIdentity)
    ensures
        steps_view(final(steps)@) == steps_view(old(steps)@) + identity_steps(device@),
{
    push_write(steps, "idVendor", hex_word(device.vendor_id).as_str());
    push_write(steps, "idProduct", hex_word(device.product_id).as_str());
    push_write(steps, "bcdUSB", hex_word(device.bcd_usb).as_str());
    push_write(steps, "bcdDevice", hex_word(device.bcd_device).as_str());
    push_write(steps, "bDeviceClass", hex_byte(device.device_class).as_str());
    push_write(steps, "bDeviceSubClass", hex_byte(device.device_subclass).as_str());
    push_write(steps, "bDeviceProtocol", hex_byte(device.device_protocol).as_str());
    push_directory(steps, "strings/0x409".to_owned());
    push_optional(steps, "strings/0x409/manufacturer", &device.manufacturer);
    push_optional(steps, "strings/0x409/product", &device.product);
    push_optional(steps, "strings/0x409/serialnumber", &device.serial);
    assert(steps_view(steps@) =~= steps_view(old(steps)@) + identity_steps(device@));
}

fn push_microsoft(steps: &mut Vec<GadgetStep>, microsoft: &Option<MicrosoftOs10>)
    ensures
        steps_view(final(steps)@) == steps_view(old(steps)@) + microsoft_steps(
            gadget_microsoft_view(*microsoft),
        ),
{
    if let Some(microsoft) = microsoft {
        push_write(steps, "os_desc/b_vendor_code", hex_byte(microsoft.vendor_code).as_str());
        push_write(steps, "os_desc/qw_sign", microsoft.signature.as_str());
        push_write(steps, "os_desc/use", "1");
        let ghost before = steps@;
        steps.push(GadgetStep::Link("configs/c.1".to_owned(), "os_desc/c.1".to_owned()));
        assert(steps_view(steps@) =~= steps_view(before).push(
            StepModel::Link("configs/c.1"@, "os_desc/c.1"@),
        ));
    }
    assert(steps_view(steps@) =~= steps_view(old(steps)@) + microsoft_steps(
        gadget_microsoft_view(*microsoft),
    ));
}

fn push_webusb(steps: &mut Vec<GadgetStep>, webusb: &Option<WebUsb>)
    ensures
        steps_view(final(steps)@) == steps_view(old(steps)@) + webusb_steps(
            gadget_webusb_view(*webusb),
        ),
{
    if let Some(webusb) = webusb {
        push_write(steps, "webusb/bcdVersion", hex_word(webusb.version).as_str());
        push_write(steps, "webusb/bVendorCode", hex_byte(webusb.vendor_code).as_str());
        let chars = to_chars(webusb.landing_page.as_str());
        if chars.len() > 0 {
            push_write(steps, "webusb/landingPage", webusb.landing_page.as_str());
        }
        push_write(steps, "webusb/use", "1");
    }
    assert(steps_view(steps@) =~= steps_view(old(steps)@) + webusb_steps(
        gadget_webusb_view(*webusb),
    ));
}

/// The directory of a gadget's FunctionFS function.
pub fn function_directory(name: &str) -> (path: String)
    ensures
        path@ == function_path(name@),
{
    let mut path = "functions/ffs.".to_owned();
    path.append(name);
    path
}

fn function_link_path(name: &str) -> (path: String)
    ensures
        path@ == function_link(name@),
{
    let mut path = "configs/c.1/ffs.".to_owned();
    path.append(name);
    path
}

/// The steps that fill the directory of the gadget `name`.
pub fn populate_gadget(name: &str, personality: &Personality) -> (steps: Vec<GadgetStep>)
    ensures
        steps_view(steps@) == populate_steps(name@, personality@),
{
    let mut steps: Vec<GadgetStep> = Vec::new();
    assert(steps_view(steps@) =~= seq![]);
    push_write(&mut steps, "max_speed", personality.max_speed);
    push_identity(&mut steps, &personality.device);
    push_directory(&mut steps, "configs/c.1".to_owned());
    push_write(
        &mut steps,
        "configs/c.1/MaxPower",
        decimal(personality.max_power_ma as u64).as_str(),
    );
    push_write(
        &mut steps,
        "configs/c.1/bmAttributes",
        hex_byte(personality.configuration_attributes).as_str(),
    );
    push_microsoft(&mut steps, &personality.microsoft_os_1);
    push_webusb(&mut steps, &personality.webusb);
    push_directory(&mut steps, function_directory(name));
    assert(steps_view(steps@) =~= populate_steps(name@, personality@));
    steps
}

/// The step that puts the function of the gadget `name` into its configuration.
pub fn link_function(name: &str) -> (step: GadgetStep)
    ensures
        step@ == link_step(name@),
{
    GadgetStep::Link(function_directory(name), function_link_path(name))
}

/// The steps that empty and remove the directory of the gadget `name`.
pub fn remove_gadget_tree(name: &str) -> (steps: Vec<GadgetStep>)
    ensures
        steps_view(steps@) == removal_steps(name@),
{
    let steps: Vec<GadgetStep> = vec![
        GadgetStep::RemoveFile("os_desc/c.1".to_owned()),
        GadgetStep::RemoveFile(function_link_path(name)),
        GadgetStep::RemoveDirectory(function_directory(name)),
        GadgetStep::RemoveDirectory("configs/c.1/strings/0x409".to_owned()),
        GadgetStep::RemoveDirectory("configs/c.1".to_owned()),
        GadgetStep::RemoveDirectory("strings/0x409".to_owned()),
        GadgetStep::RemoveDirectory("".to_owned()),
    ];
    assert(steps_view(steps@) =~= removal_steps(name@));
    steps
}

/// The name of the file of the endpoint at a position, counted from zero.
pub open spec fn endpoint_file(position: int) -> Seq<char> {
    "ep"@ + decimal_text((position + 1) as nat)
}

/// The files of the endpoints, in the order in which FunctionFS numbers them, with the direction
/// of each: a file of an endpoint to the host is written, the others are read.
pub fn endpoint_files(endpoints: &Vec<Endpoint>) -> (files: Vec<(String, Direction)>)
    ensures
        files@.len() == endpoints@.len(),
        forall|i: int|
            0 <= i < files@.len() ==> (#[trigger] files@[i]).0@ == endpoint_file(i) && files@[i].1
                == endpoints@[i].direction,
{
    let mut files: Vec<(String, Direction)> = Vec::new();
    let mut i: usize = 0;
    while i < endpoints.len()
        invariant
            i <= endpoints@.len(),
            files@.len() == i,
            forall|k: int|
                0 <= k < i ==> (#[trigger] files@[k]).0@ == endpoint_file(k) && files@[k].1
                    == endpoints@[k].direction,
        decreases endpoints@.len() - i,
    {
        let mut name = "ep".to_owned();
        assert(endpoints@.len() == endpoints.len());
        name.append(decimal((i + 1) as u64).as_str());
        files.push((name, endpoints[i].direction));
        i = i + 1;
    }
    files
}

} // verus!
