use usb_gadget_supervisor::functionfs::{Direction, Endpoint};
use usb_gadget_supervisor::gadget::{
    endpoint_files, link_function, populate_gadget, remove_gadget_tree, GadgetStep,
};
use usb_gadget_supervisor::usb_personality::{DeviceIdentity, MicrosoftOs10, Personality, WebUsb};

fn personality() -> Personality {
    Personality {
        device: DeviceIdentity {
            vendor_id: 0x1209,
            product_id: 0x53c1,
            bcd_usb: 0x0210,
            bcd_device: 0x0001,
            device_class: 0,
            device_subclass: 0xef,
            device_protocol: 0x0a,
            manufacturer: Some("Maker".to_owned()),
            product: None,
            serial: Some("42".to_owned()),
        },
        max_speed: "high-speed",
        configuration_attributes: 0x80,
        max_power_ma: 100,
        descriptors: vec![],
        strings: vec![],
        endpoints: vec![],
        microsoft_os_1: Some(MicrosoftOs10 {
            vendor_code: 0x21,
            signature: "MSFT100".to_owned(),
        }),
        webusb: Some(WebUsb {
            version: 0x0100,
            vendor_code: 1,
            landing_page: "https://x".to_owned(),
        }),
    }
}

fn write(path: &str, value: &str) -> GadgetStep {
    GadgetStep::Write(path.to_owned(), value.to_owned())
}

fn make(path: &str) -> GadgetStep {
    GadgetStep::MakeDirectory(path.to_owned())
}

#[test]
fn gadgets_are_filled_in_order() {
    assert_eq!(
        populate_gadget("dev", &personality()),
        [
            write("max_speed", "high-speed"),
            write("idVendor", "0x1209"),
            write("idProduct", "0x53c1"),
            write("bcdUSB", "0x0210"),
            write("bcdDevice", "0x0001"),
            write("bDeviceClass", "0x00"),
            write("bDeviceSubClass", "0xef"),
            write("bDeviceProtocol", "0x0a"),
            make("strings/0x409"),
            write("strings/0x409/manufacturer", "Maker"),
            write("strings/0x409/serialnumber", "42"),
            make("configs/c.1"),
            write("configs/c.1/MaxPower", "100"),
            write("configs/c.1/bmAttributes", "0x80"),
            write("os_desc/b_vendor_code", "0x21"),
            write("os_desc/qw_sign", "MSFT100"),
            write("os_desc/use", "1"),
            GadgetStep::Link("configs/c.1".to_owned(), "os_desc/c.1".to_owned()),
            write("webusb/bcdVersion", "0x0100"),
            write("webusb/bVendorCode", "0x01"),
            write("webusb/landingPage", "https://x"),
            write("webusb/use", "1"),
            make("functions/ffs.dev"),
        ]
    );
}

#[test]
fn plain_gadgets_have_no_capabilities() {
    let mut plain = personality();
    plain.microsoft_os_1 = None;
    plain.webusb = None;
    plain.max_power_ma = 0;
    let steps = populate_gadget("dev", &plain);
    assert_eq!(steps.len(), 15);
    assert_eq!(steps[12], write("configs/c.1/MaxPower", "0"));
    let mut silent = personality();
    silent.webusb.as_mut().unwrap().landing_page.clear();
    let steps = populate_gadget("dev", &silent);
    assert!(!steps.contains(&write("webusb/landingPage", "")));
    assert!(steps.contains(&write("webusb/use", "1")));
}

#[test]
fn removal_undoes_population() {
    let removal = remove_gadget_tree("dev");
    let mut steps = populate_gadget("dev", &personality());
    steps.push(link_function("dev"));
    for step in steps {
        match step {
            GadgetStep::MakeDirectory(path) => {
                assert!(removal.contains(&GadgetStep::RemoveDirectory(path)))
            }
            GadgetStep::Link(_, path) => assert!(removal.contains(&GadgetStep::RemoveFile(path))),
            GadgetStep::Write(_, _) => {}
            other => panic!("unexpected step {other:?}"),
        }
    }
    assert_eq!(removal.len(), 7);
    assert_eq!(removal[6], GadgetStep::RemoveDirectory(String::new()));
    assert_eq!(
        link_function("dev"),
        GadgetStep::Link(
            "functions/ffs.dev".to_owned(),
            "configs/c.1/ffs.dev".to_owned()
        )
    );
}

#[test]
fn endpoint_files_are_numbered() {
    let endpoint = |direction| Endpoint {
        direction,
        transfer_type: 2,
    };
    let mut list = vec![endpoint(Direction::Out); 9];
    list.push(endpoint(Direction::In));
    let files = endpoint_files(&list);
    assert_eq!(files[0], ("ep1".to_owned(), Direction::Out));
    assert_eq!(files[9], ("ep10".to_owned(), Direction::In));
}
