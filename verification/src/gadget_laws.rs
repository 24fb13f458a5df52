//! What a gadget's directory shows of a personality, attribute by attribute.

use crate::format::{decimal_text, hex_byte_text, hex_word_text};
use crate::gadget::{
    endpoint_file, function_path, identity_steps, link_step, microsoft_steps, optional_write,
    populate_steps, removal_steps, webusb_steps, StepModel,
};
use crate::usb_personality::ProjectionModel;
use vstd::prelude::*;

verus! {

/// Whether what some steps write to an attribute is this value, or nothing where there is none.
pub open spec fn wrote(steps: Seq<StepModel>, path: Seq<char>, value: Option<Seq<char>>) -> bool {
    &&& value matches Some(text) ==> exists|k: int|
        0 <= k < steps.len() && #[trigger] steps[k] == StepModel::Write(path, text)
    &&& forall|k: int|
        0 <= k < steps.len() && (#[trigger] steps[k]) is Write && steps[k]->Write_0 == path
            ==> value == Some(steps[k]->Write_1)
}

/// Whether one step comes before another.
pub open spec fn goes_before(steps: Seq<StepModel>, first: StepModel, second: StepModel) -> bool {
    exists|i: int, j: int|
        0 <= i < j < steps.len() && #[trigger] steps[i] == first && #[trigger] steps[j] == second
}

/// The paths of the attributes have these lengths, and differ where the lengths do not.
proof fn lemma_attribute_paths()
    ensures
        "max_speed"@.len() == 9,
        "max_speed"@[0] == 'm',
        "max_speed"@[7] == 'e',
        "idVendor"@.len() == 8,
        "idVendor"@[0] == 'i',
        "idVendor"@[7] == 'r',
        "idProduct"@.len() == 9,
        "idProduct"@[0] == 'i',
        "idProduct"@[7] == 'c',
        "bcdUSB"@.len() == 6,
        "bcdUSB"@[0] == 'b',
        "bcdDevice"@.len() == 9,
        "bcdDevice"@[0] == 'b',
        "bcdDevice"@[7] == 'c',
        "bDeviceClass"@.len() == 12,
        "bDeviceClass"@[0] == 'b',
        "bDeviceClass"@[7] == 'C',
        "bDeviceSubClass"@.len() == 15,
        "bDeviceSubClass"@[0] == 'b',
        "bDeviceSubClass"@[7] == 'S',
        "bDeviceSubClass"@[14] == 's',
        "bDeviceProtocol"@.len() == 15,
        "bDeviceProtocol"@[0] == 'b',
        "bDeviceProtocol"@[7] == 'P',
        "bDeviceProtocol"@[14] == 'l',
        "strings/0x409/manufacturer"@.len() == 26,
        "strings/0x409/manufacturer"@[0] == 's',
        "strings/0x409/manufacturer"@[7] == '/',
        "strings/0x409/manufacturer"@[14] == 'm',
        "strings/0x409/product"@.len() == 21,
        "strings/0x409/product"@[0] == 's',
        "strings/0x409/product"@[7] == '/',
        "strings/0x409/product"@[14] == 'p',
        "strings/0x409/serialnumber"@.len() == 26,
        "strings/0x409/serialnumber"@[0] == 's',
        "strings/0x409/serialnumber"@[7] == '/',
        "strings/0x409/serialnumber"@[14] == 's',
        "configs/c.1/MaxPower"@.len() == 20,
        "configs/c.1/MaxPower"@[0] == 'c',
        "configs/c.1/MaxPower"@[7] == '/',
        "configs/c.1/MaxPower"@[14] == 'x',
        "configs/c.1/bmAttributes"@.len() == 24,
        "configs/c.1/bmAttributes"@[0] == 'c',
        "configs/c.1/bmAttributes"@[7] == '/',
        "configs/c.1/bmAttributes"@[14] == 'A',
        "os_desc/b_vendor_code"@.len() == 21,
        "os_desc/b_vendor_code"@[0] == 'o',
        "os_desc/b_vendor_code"@[7] == '/',
        "os_desc/b_vendor_code"@[14] == 'o',
        "os_desc/qw_sign"@.len() == 15,
        "os_desc/qw_sign"@[0] == 'o',
        "os_desc/qw_sign"@[7] == '/',
        "os_desc/qw_sign"@[14] == 'n',
        "os_desc/use"@.len() == 11,
        "os_desc/use"@[0] == 'o',
        "os_desc/use"@[7] == '/',
        "webusb/bcdVersion"@.len() == 17,
        "webusb/bcdVersion"@[0] == 'w',
        "webusb/bcdVersion"@[7] == 'b',
        "webusb/bcdVersion"@[14] == 'i',
        "webusb/bVendorCode"@.len() == 18,
        "webusb/bVendorCode"@[0] == 'w',
        "webusb/bVendorCode"@[7] == 'b',
        "webusb/bVendorCode"@[14] == 'C',
        "webusb/landingPage"@.len() == 18,
        "webusb/landingPage"@[0] == 'w',
        "webusb/landingPage"@[7] == 'l',
        "webusb/landingPage"@[14] == 'P',
        "webusb/use"@.len() == 10,
        "webusb/use"@[0] == 'w',
        "webusb/use"@[7] == 'u',
{
    reveal_strlit("max_speed");
    reveal_strlit("idVendor");
    reveal_strlit("idProduct");
    reveal_strlit("bcdUSB");
    reveal_strlit("bcdDevice");
    reveal_strlit("bDeviceClass");
    reveal_strlit("bDeviceSubClass");
    reveal_strlit("bDeviceProtocol");
    reveal_strlit("strings/0x409/manufacturer");
    reveal_strlit("strings/0x409/product");
    reveal_strlit("strings/0x409/serialnumber");
    reveal_strlit("configs/c.1/MaxPower");
    reveal_strlit("configs/c.1/bmAttributes");
    reveal_strlit("os_desc/b_vendor_code");
    reveal_strlit("os_desc/qw_sign");
    reveal_strlit("os_desc/use");
    reveal_strlit("webusb/bcdVersion");
    reveal_strlit("webusb/bVendorCode");
    reveal_strlit("webusb/landingPage");
    reveal_strlit("webusb/use");
}

/// The writes that fill a gadget's directory.
spec fn known_write(p: ProjectionModel, step: StepModel) -> bool {
    ||| step == StepModel::Write("max_speed"@, p.max_speed)
    ||| step == StepModel::Write("idVendor"@, hex_word_text(p.device.vendor_id))
    ||| step == StepModel::Write("idProduct"@, hex_word_text(p.device.product_id))
    ||| step == StepModel::Write("bcdUSB"@, hex_word_text(p.device.bcd_usb))
    ||| step == StepModel::Write("bcdDevice"@, hex_word_text(p.device.bcd_device))
    ||| step == StepModel::Write("bDeviceClass"@, hex_byte_text(p.device.device_class))
    ||| step == StepModel::Write("bDeviceSubClass"@, hex_byte_text(p.device.device_subclass))
    ||| step == StepModel::Write("bDeviceProtocol"@, hex_byte_text(p.device.device_protocol))
    ||| p.device.manufacturer is Some && step == StepModel::Write(
        "strings/0x409/manufacturer"@,
        p.device.manufacturer->0)
    ||| p.device.product is Some && step == StepModel::Write(
        "strings/0x409/product"@,
        p.device.product->0)
    ||| p.device.serial is Some && step == StepModel::Write(
        "strings/0x409/serialnumber"@,
        p.device.serial->0)
    ||| step == StepModel::Write("configs/c.1/MaxPower"@, decimal_text(p.max_power_ma as nat))
    ||| step == StepModel::Write(
        "configs/c.1/bmAttributes"@,
        hex_byte_text(p.configuration_attributes))
    ||| p.microsoft is Some && (step == StepModel::Write(
        "os_desc/b_vendor_code"@,
        hex_byte_text((p.microsoft->0).0))
        || step == StepModel::Write("os_desc/qw_sign"@, (p.microsoft->0).1)
        || step == StepModel::Write("os_desc/use"@, "1"@))
    ||| p.webusb is Some && (step == StepModel::Write(
        "webusb/bcdVersion"@,
        hex_word_text(p.webusb->0.version))
        || step == StepModel::Write("webusb/bVendorCode"@, hex_byte_text(p.webusb->0.vendor_code))
        || step == StepModel::Write("webusb/use"@, "1"@)
        || (p.webusb->0.landing_page.len() > 0 && step == StepModel::Write(
            "webusb/landingPage"@,
            p.webusb->0.landing_page)))
}

/// Every step that fills a gadget's directory is one of these.
#[verifier::rlimit(60)]
proof fn lemma_step_cases(name: Seq<char>, p: ProjectionModel, k: int)
    requires
        0 <= k < populate_steps(name, p).len(),
        populate_steps(name, p)[k] is Write,
    ensures
        known_write(p, populate_steps(name, p)[k]),
{
    let speed = seq![StepModel::Write("max_speed"@, p.max_speed)];
    let identity = identity_steps(p.device);
    let microsoft = microsoft_steps(p.microsoft);
    let webusb = webusb_steps(p.webusb);
    let steps = populate_steps(name, p);
    let a = 1 + identity.len() as int;
    let b = a + 3;
    let c = b + microsoft.len();
    let d = c + webusb.len();
    assert(steps.len() == d + 1);
    if k < 1 {
        assert(steps[k] == speed[k]);
    } else if k < a {
        assert(steps[k] == identity[k - 1]);
        lemma_identity_cases(p, k - 1);
    } else if k < b {
    } else if k < c {
        assert(steps[k] == microsoft[k - b]);
    } else if k < d {
        assert(steps[k] == webusb[k - c]);
    } else {
        assert(steps[k] == StepModel::MakeDirectory(function_path(name)));
    }
}

proof fn lemma_identity_cases(p: ProjectionModel, k: int)
    requires
        0 <= k < identity_steps(p.device).len(),
        identity_steps(p.device)[k] is Write,
    ensures
        ({
            let step = identity_steps(p.device)[k];
            ||| step == StepModel::Write("idVendor"@, hex_word_text(p.device.vendor_id))
            ||| step == StepModel::Write("idProduct"@, hex_word_text(p.device.product_id))
            ||| step == StepModel::Write("bcdUSB"@, hex_word_text(p.device.bcd_usb))
            ||| step == StepModel::Write("bcdDevice"@, hex_word_text(p.device.bcd_device))
            ||| step == StepModel::Write("bDeviceClass"@, hex_byte_text(p.device.device_class))
            ||| step == StepModel::Write(
                "bDeviceSubClass"@,
                hex_byte_text(p.device.device_subclass))
            ||| step == StepModel::Write(
                "bDeviceProtocol"@,
                hex_byte_text(p.device.device_protocol))
            ||| p.device.manufacturer is Some && step == StepModel::Write(
                "strings/0x409/manufacturer"@,
                p.device.manufacturer->0)
            ||| p.device.product is Some && step == StepModel::Write(
                "strings/0x409/product"@,
                p.device.product->0)
            ||| p.device.serial is Some && step == StepModel::Write(
                "strings/0x409/serialnumber"@,
                p.device.serial->0)
        }),
{
    let first = optional_write("strings/0x409/manufacturer"@, p.device.manufacturer);
    let second = optional_write("strings/0x409/product"@, p.device.product);
    let third = optional_write("strings/0x409/serialnumber"@, p.device.serial);
    let steps = identity_steps(p.device);
    if k >= 8 && k < 8 + first.len() {
        assert(steps[k] == first[k - 8]);
    } else if k >= 8 + first.len() && k < 8 + first.len() + second.len() {
        assert(steps[k] == second[k - 8 - first.len()]);
    } else if k >= 8 + first.len() + second.len() {
        assert(steps[k] == third[k - 8 - first.len() - second.len()]);
    }
}

/// A gadget shows the device's numbers and its speed, each as its attribute has it.
#[verifier::rlimit(60)]
pub proof fn lemma_gadget_shows_the_device(name: Seq<char>, p: ProjectionModel)
    ensures
        wrote(populate_steps(name, p), "max_speed"@, Some(p.max_speed)),
        wrote(populate_steps(name, p), "idVendor"@, Some(hex_word_text(p.device.vendor_id))),
        wrote(populate_steps(name, p), "idProduct"@, Some(hex_word_text(p.device.product_id))),
        wrote(populate_steps(name, p), "bcdUSB"@, Some(hex_word_text(p.device.bcd_usb))),
        wrote(populate_steps(name, p), "bcdDevice"@, Some(hex_word_text(p.device.bcd_device))),
        wrote(populate_steps(name, p), "bDeviceClass"@, Some(hex_byte_text(p.device.device_class))),
        wrote(
            populate_steps(name,
            p), "bDeviceSubClass"@, Some(hex_byte_text(p.device.device_subclass))),
        wrote(
            populate_steps(name,
            p), "bDeviceProtocol"@, Some(hex_byte_text(p.device.device_protocol))),
{
    let steps = populate_steps(name, p);
    lemma_attribute_paths();
    assert forall|k: int| 0 <= k < steps.len() && (#[trigger] steps[k]) is Write implies known_write(p, steps[k]) by {
        lemma_step_cases(name, p, k);
    }
    assert(steps[0] == StepModel::Write("max_speed"@, p.max_speed));
    assert(steps[1] == StepModel::Write("idVendor"@, hex_word_text(p.device.vendor_id)));
    assert(steps[2] == StepModel::Write("idProduct"@, hex_word_text(p.device.product_id)));
    assert(steps[3] == StepModel::Write("bcdUSB"@, hex_word_text(p.device.bcd_usb)));
    assert(steps[4] == StepModel::Write("bcdDevice"@, hex_word_text(p.device.bcd_device)));
    assert(steps[5] == StepModel::Write("bDeviceClass"@, hex_byte_text(p.device.device_class)));
    assert(steps[6] == StepModel::Write("bDeviceSubClass"@, hex_byte_text(p.device.device_subclass)));
    assert(steps[7] == StepModel::Write("bDeviceProtocol"@, hex_byte_text(p.device.device_protocol)));
}

/// A gadget shows those texts that the device has, and no others, in a directory made for them.
#[verifier::rlimit(60)]
pub proof fn lemma_gadget_shows_the_texts(name: Seq<char>, p: ProjectionModel)
    ensures
        wrote(populate_steps(name, p), "strings/0x409/manufacturer"@, p.device.manufacturer),
        wrote(populate_steps(name, p), "strings/0x409/product"@, p.device.product),
        wrote(populate_steps(name, p), "strings/0x409/serialnumber"@, p.device.serial),
        p.device.manufacturer matches Some(text) ==> goes_before(
            populate_steps(name, p),
            StepModel::MakeDirectory("strings/0x409"@),
            StepModel::Write("strings/0x409/manufacturer"@, text),
        ),
        p.device.product matches Some(text) ==> goes_before(
            populate_steps(name, p),
            StepModel::MakeDirectory("strings/0x409"@),
            StepModel::Write("strings/0x409/product"@, text),
        ),
        p.device.serial matches Some(text) ==> goes_before(
            populate_steps(name, p),
            StepModel::MakeDirectory("strings/0x409"@),
            StepModel::Write("strings/0x409/serialnumber"@, text),
        ),
{
    let steps = populate_steps(name, p);
    lemma_attribute_paths();
    assert forall|k: int| 0 <= k < steps.len() && (#[trigger] steps[k]) is Write implies known_write(p, steps[k]) by {
        lemma_step_cases(name, p, k);
    }
    let identity = identity_steps(p.device);
    let first = optional_write("strings/0x409/manufacturer"@, p.device.manufacturer);
    let second = optional_write("strings/0x409/product"@, p.device.product);
    let third = optional_write("strings/0x409/serialnumber"@, p.device.serial);
    assert(steps[8] == StepModel::MakeDirectory("strings/0x409"@));
    if p.device.manufacturer is Some {
        assert(identity[8] == first[0]);
        assert(steps[9] == first[0]);
    }
    if p.device.product is Some {
        assert(identity[8 + first.len() as int] == second[0]);
        assert(steps[9 + first.len() as int] == second[0]);
    }
    if p.device.serial is Some {
        assert(identity[8 + first.len() + second.len() as int] == third[0]);
        assert(steps[9 + first.len() + second.len() as int] == third[0]);
    }
}

/// A gadget shows the power and the attributes of the configuration, in a directory made for it,
/// and ends with a directory for its function.
#[verifier::rlimit(60)]
pub proof fn lemma_gadget_shows_the_configuration(name: Seq<char>, p: ProjectionModel)
    ensures
        wrote(
            populate_steps(name,
            p), "configs/c.1/MaxPower"@, Some(decimal_text(p.max_power_ma as nat))),
        wrote(
            populate_steps(name,
            p), "configs/c.1/bmAttributes"@, Some(hex_byte_text(p.configuration_attributes))),
        goes_before(
            populate_steps(name, p),
            StepModel::MakeDirectory("configs/c.1"@),
            StepModel::Write("configs/c.1/MaxPower"@, decimal_text(p.max_power_ma as nat)),
        ),
        goes_before(
            populate_steps(name, p),
            StepModel::MakeDirectory("configs/c.1"@),
            StepModel::Write("configs/c.1/bmAttributes"@, hex_byte_text(p.configuration_attributes)),
        ),
        populate_steps(name, p).last() == StepModel::MakeDirectory("functions/ffs."@ + name),
{
    let steps = populate_steps(name, p);
    lemma_attribute_paths();
    assert forall|k: int| 0 <= k < steps.len() && (#[trigger] steps[k]) is Write implies known_write(p, steps[k]) by {
        lemma_step_cases(name, p, k);
    }
    let a = 1 + identity_steps(p.device).len() as int;
    assert(steps[a] == StepModel::MakeDirectory("configs/c.1"@));
    assert(steps[a + 1] == StepModel::Write("configs/c.1/MaxPower"@, decimal_text(p.max_power_ma as nat)));
    assert(steps[a + 2] == StepModel::Write("configs/c.1/bmAttributes"@, hex_byte_text(p.configuration_attributes)));
}

/// A gadget for Windows shows its vendor code and signature and puts its configuration under them;
/// another shows nothing of the kind.
#[verifier::rlimit(60)]
pub proof fn lemma_gadget_shows_windows(name: Seq<char>, p: ProjectionModel)
    ensures
        wrote(populate_steps(name, p), "os_desc/b_vendor_code"@, match p.microsoft { None => None, Some((code, _)) => Some(hex_byte_text(code)) }),
        wrote(populate_steps(name, p), "os_desc/qw_sign"@, match p.microsoft { None => None, Some((_, signature)) => Some(signature) }),
        wrote(populate_steps(name, p), "os_desc/use"@, if p.microsoft is Some { Some("1"@) } else { None }),
        p.microsoft is Some ==> goes_before(
            populate_steps(name, p),
            StepModel::MakeDirectory("configs/c.1"@),
            StepModel::Link("configs/c.1"@, "os_desc/c.1"@),
        ),
{
    let steps = populate_steps(name, p);
    lemma_attribute_paths();
    assert forall|k: int| 0 <= k < steps.len() && (#[trigger] steps[k]) is Write implies known_write(p, steps[k]) by {
        lemma_step_cases(name, p, k);
    }
    let a = 1 + identity_steps(p.device).len() as int;
    let b = a + 3;
    let microsoft = microsoft_steps(p.microsoft);
    assert(steps[a] == StepModel::MakeDirectory("configs/c.1"@));
    if p.microsoft is Some {
        assert(steps[b] == microsoft[0]);
        assert(steps[b + 1] == microsoft[1]);
        assert(steps[b + 2] == microsoft[2]);
        assert(steps[b + 3] == microsoft[3]);
    }
}

/// A gadget for browsers shows its version, its vendor code and its landing page, if it has one;
/// another shows nothing of the kind.
#[verifier::rlimit(60)]
pub proof fn lemma_gadget_shows_webusb(name: Seq<char>, p: ProjectionModel)
    ensures
        wrote(populate_steps(name, p), "webusb/bcdVersion"@, match p.webusb { None => None, Some(webusb) => Some(hex_word_text(webusb.version)) }),
        wrote(populate_steps(name, p), "webusb/bVendorCode"@, match p.webusb { None => None, Some(webusb) => Some(hex_byte_text(webusb.vendor_code)) }),
        wrote(populate_steps(name, p), "webusb/landingPage"@, match p.webusb { None => None, Some(webusb) => if webusb.landing_page.len() == 0 { None } else { Some(webusb.landing_page) } }),
        wrote(populate_steps(name, p), "webusb/use"@, if p.webusb is Some { Some("1"@) } else { None }),
{
    let steps = populate_steps(name, p);
    lemma_attribute_paths();
    assert forall|k: int| 0 <= k < steps.len() && (#[trigger] steps[k]) is Write implies known_write(p, steps[k]) by {
        lemma_step_cases(name, p, k);
    }
    let c = 4 + identity_steps(p.device).len() + microsoft_steps(p.microsoft).len() as int;
    let webusb = webusb_steps(p.webusb);
    if p.webusb is Some {
        assert(steps[c] == webusb[0]);
        assert(steps[c + 1] == webusb[1]);
        let last = webusb.len() - 1;
        assert(steps[c + last] == webusb[last]);
        if p.webusb->0.landing_page.len() > 0 {
            assert(steps[c + 2] == webusb[2]);
        }
    }
}

/// A gadget's function stands under its name, is linked into the configuration under its name, and
/// its endpoint files are numbered from one.
pub proof fn lemma_function_is_linked(name: Seq<char>, position: int)
    requires
        position >= 0,
    ensures
        link_step(name) == StepModel::Link("functions/ffs."@ + name, "configs/c.1/ffs."@ + name),
        endpoint_file(position) == "ep"@ + decimal_text((position + 1) as nat),
{
}

/// A gadget's directory is emptied from the inside: links go before what they stand in, what stands
/// in a directory goes before it, and the directory itself goes last.
pub proof fn lemma_removal_goes_from_the_inside(name: Seq<char>)
    ensures
        ({
            let steps = removal_steps(name);
            &&& steps.last() == StepModel::RemoveDirectory(""@)
            &&& goes_before(
                steps,
                StepModel::RemoveFile("os_desc/c.1"@),
                StepModel::RemoveDirectory("configs/c.1"@),
            )
            &&& goes_before(
                steps,
                StepModel::RemoveFile("configs/c.1/ffs."@ + name),
                StepModel::RemoveDirectory("configs/c.1"@),
            )
            &&& goes_before(
                steps,
                StepModel::RemoveFile("configs/c.1/ffs."@ + name),
                StepModel::RemoveDirectory("functions/ffs."@ + name),
            )
            &&& goes_before(
                steps,
                StepModel::RemoveDirectory("configs/c.1/strings/0x409"@),
                StepModel::RemoveDirectory("configs/c.1"@),
            )
            &&& goes_before(
                steps,
                StepModel::RemoveDirectory("strings/0x409"@),
                StepModel::RemoveDirectory(""@),
            )
        }),
{
    let steps = removal_steps(name);
    assert(steps[0] == StepModel::RemoveFile("os_desc/c.1"@));
    assert(steps[1] == StepModel::RemoveFile("configs/c.1/ffs."@ + name));
    assert(steps[2] == StepModel::RemoveDirectory("functions/ffs."@ + name));
    assert(steps[3] == StepModel::RemoveDirectory("configs/c.1/strings/0x409"@));
    assert(steps[4] == StepModel::RemoveDirectory("configs/c.1"@));
    assert(steps[5] == StepModel::RemoveDirectory("strings/0x409"@));
    assert(steps[6] == StepModel::RemoveDirectory(""@));
}

/// Filling a gadget's directory does nothing else: it writes no other attribute, makes no other
/// directory than three, and no other link than that for Windows. Emptying it takes seven steps.
#[verifier::rlimit(60)]
pub proof fn lemma_gadget_shows_nothing_else(name: Seq<char>, p: ProjectionModel, k: int)
    requires
        0 <= k < populate_steps(name, p).len(),
    ensures
        match populate_steps(name, p)[k] {
            StepModel::Write(path, _) => path == "max_speed"@
                    || path == "idVendor"@
                    || path == "idProduct"@
                    || path == "bcdUSB"@
                    || path == "bcdDevice"@
                    || path == "bDeviceClass"@
                    || path == "bDeviceSubClass"@
                    || path == "bDeviceProtocol"@
                    || path == "strings/0x409/manufacturer"@
                    || path == "strings/0x409/product"@
                    || path == "strings/0x409/serialnumber"@
                    || path == "configs/c.1/MaxPower"@
                    || path == "configs/c.1/bmAttributes"@
                    || path == "os_desc/b_vendor_code"@
                    || path == "os_desc/qw_sign"@
                    || path == "os_desc/use"@
                    || path == "webusb/bcdVersion"@
                    || path == "webusb/bVendorCode"@
                    || path == "webusb/landingPage"@
                    || path == "webusb/use"@,
            StepModel::MakeDirectory(path) => path == "strings/0x409"@ || path == "configs/c.1"@
                || path == "functions/ffs."@ + name,
            StepModel::Link(target, path) => p.microsoft is Some && target == "configs/c.1"@ && path
                == "os_desc/c.1"@,
            _ => false,
        },
        removal_steps(name).len() == 7,
{
    let steps = populate_steps(name, p);
    let identity = identity_steps(p.device);
    let microsoft = microsoft_steps(p.microsoft);
    let webusb = webusb_steps(p.webusb);
    let a = 1 + identity.len() as int;
    let b = a + 3;
    let c = b + microsoft.len();
    let d = c + webusb.len();
    if steps[k] is Write {
        lemma_step_cases(name, p, k);
    } else if 1 <= k && k < a {
        assert(steps[k] == identity[k - 1]);
    } else if b <= k && k < c {
        assert(steps[k] == microsoft[k - b]);
    } else if c <= k && k < d {
        assert(steps[k] == webusb[k - c]);
    }
}

} // verus!
