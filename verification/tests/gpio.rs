use gpiocdev_uapi::v2::{LineAttributeValue, LineFlags, LineValues};
use usb_gadget_supervisor::gpio::{gpio_line_request, plan_lines};
use usb_gadget_supervisor::profile::{GpioBias, GpioDirection, GpioEdge, GpioLinesResource};

fn buttons() -> GpioLinesResource {
    GpioLinesResource {
        name: "buttons".to_owned(),
        path: "/dev/gpiochip0".to_owned(),
        offsets: vec![5, 26, 13],
        direction: GpioDirection::Input,
        active_low: true,
        bias: Some(GpioBias::PullUp),
        edge: Some(GpioEdge::Both),
        initial_values: None,
    }
}

fn display() -> GpioLinesResource {
    GpioLinesResource {
        name: "display-control".to_owned(),
        path: "/dev/gpiochip0".to_owned(),
        offsets: vec![25, 27, 24],
        direction: GpioDirection::Output,
        active_low: false,
        bias: None,
        edge: None,
        initial_values: Some(vec![false, true, false]),
    }
}

#[test]
fn input_lines_are_requested_with_their_flags() {
    let request = gpio_line_request(&buttons());
    assert_eq!(
        request.config.flags,
        LineFlags::INPUT
            | LineFlags::ACTIVE_LOW
            | LineFlags::BIAS_PULL_UP
            | LineFlags::EDGE_RISING
            | LineFlags::EDGE_FALLING
    );
    assert_eq!(request.config.num_attrs, 0);
    assert_eq!(request.num_lines, 3);
    assert_eq!(request.offsets.0[..4], [5, 26, 13, 0]);
    assert_eq!(&request.consumer.0[..8], b"buttons\0");
    assert_eq!(plan_lines(&buttons()).flags, 310);
}

#[test]
fn output_lines_are_requested_with_their_values() {
    let request = gpio_line_request(&display());
    assert_eq!(request.config.flags, LineFlags::OUTPUT);
    assert_eq!(request.config.num_attrs, 1);
    assert_eq!(request.config.attr(0).mask, 7);
    match request.config.attr(0).attr.to_value() {
        Some(LineAttributeValue::Values(bits)) => assert_eq!(bits, 2),
        other => panic!("unexpected attribute {other:?}"),
    }
    assert_eq!(request.offsets.0[..3], [25, 27, 24]);
    assert_eq!(plan_lines(&display()).values, Some((2, 7)));
}

#[test]
fn every_setting_has_its_flag() {
    let flags = |change: &dyn Fn(&mut GpioLinesResource)| {
        let mut lines = buttons();
        lines.active_low = false;
        lines.bias = None;
        lines.edge = None;
        change(&mut lines);
        plan_lines(&lines).flags
    };
    assert_eq!(flags(&|_| {}), LineFlags::INPUT.bits());
    assert_eq!(
        flags(&|lines| lines.bias = Some(GpioBias::PullDown)),
        (LineFlags::INPUT | LineFlags::BIAS_PULL_DOWN).bits()
    );
    assert_eq!(
        flags(&|lines| lines.bias = Some(GpioBias::Disabled)),
        (LineFlags::INPUT | LineFlags::BIAS_DISABLED).bits()
    );
    assert_eq!(
        flags(&|lines| lines.edge = Some(GpioEdge::Rising)),
        (LineFlags::INPUT | LineFlags::EDGE_RISING).bits()
    );
    assert_eq!(
        flags(&|lines| lines.edge = Some(GpioEdge::Falling)),
        (LineFlags::INPUT | LineFlags::EDGE_FALLING).bits()
    );
}

#[test]
fn sixty_four_lines_fit() {
    let mut lines = display();
    lines.offsets = (100..164).collect();
    lines.initial_values = Some(vec![true; 64]);
    let plan = plan_lines(&lines);
    assert_eq!(plan.values, Some((u64::MAX, u64::MAX)));
    assert_eq!(plan.offsets[63], 163);
    assert_eq!(plan.num_lines, 64);
    let packed = LineValues::from_slice(&[true, false, true]);
    assert_eq!((packed.bits, packed.mask), (5, 7));
}

#[test]
fn long_names_are_cut_between_characters() {
    let consumer = |name: &str| {
        let mut lines = buttons();
        lines.name = name.to_owned();
        plan_lines(&lines).consumer
    };
    assert_eq!(consumer(&"a".repeat(40)), [b'a'; 32]);
    let name = format!("{}\u{e4}bc", "a".repeat(31));
    let cut = consumer(&name);
    assert_eq!(cut[30], b'a');
    assert_eq!(cut[31], 0);
}
