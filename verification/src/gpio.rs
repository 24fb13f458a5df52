//! Requests for GPIO lines in the form that the kernel takes.

use crate::bytes::{length_word, low_word};
use crate::profile::{GpioBias, GpioDirection, GpioEdge, GpioLinesResource};
use gpiocdev_uapi::v2::LineRequest;
use vstd::prelude::*;
use vstd::utf8::encode_utf8;

verus! {

/// A request for GPIO lines.
#[verifier::external_type_specification]
#[verifier::external_body]
pub struct ExLineRequest(gpiocdev_uapi::v2::LineRequest);

/// The flag of an active-low line.
pub const ACTIVE_LOW: u64 = 2;

/// The flag of an input line.
pub const INPUT: u64 = 4;

/// The flag of an output line.
pub const OUTPUT: u64 = 8;

/// The flag of a line that reports rising edges.
pub const EDGE_RISING: u64 = 16;

/// The flag of a line that reports falling edges.
pub const EDGE_FALLING: u64 = 32;

/// The flag of a line that is pulled up.
pub const BIAS_PULL_UP: u64 = 256;

/// The flag of a line that is pulled down.
pub const BIAS_PULL_DOWN: u64 = 512;

/// The flag of a line without bias.
pub const BIAS_DISABLED: u64 = 1024;

/// The flag of a direction.
pub open spec fn direction_flag(direction: GpioDirection) -> u64 {
    match direction {
        GpioDirection::Input => INPUT,
        GpioDirection::Output => OUTPUT,
    }
}

/// The flag of a bias.
pub open spec fn bias_flag(bias: Option<GpioBias>) -> u64 {
    match bias {
        None => 0,
        Some(GpioBias::PullUp) => BIAS_PULL_UP,
        Some(GpioBias::PullDown) => BIAS_PULL_DOWN,
        Some(GpioBias::Disabled) => BIAS_DISABLED,
    }
}

/// The flags of reported edges.
pub open spec fn edge_flags(edge: Option<GpioEdge>) -> u64 {
    match edge {
        None => 0,
        Some(GpioEdge::Rising) => EDGE_RISING,
        Some(GpioEdge::Falling) => EDGE_FALLING,
        Some(GpioEdge::Both) => 48,
    }
}

/// The flags of GPIO lines. No two of the settings share a bit, so the flags are their sum.
pub open spec fn lines_flags(lines: GpioLinesResource) -> u64 {
    (direction_flag(lines.direction) + (if lines.active_low {
        ACTIVE_LOW
    } else {
        0
    }) + bias_flag(lines.bias) + edge_flags(lines.edge)) as u64
}

/// The bits of the values that are set: the first value is the lowest bit.
pub open spec fn value_bits(values: Seq<bool>) -> nat
    decreases values.len(),
{
    if values.len() == 0 {
        0
    } else {
        (if values[0] {
            1nat
        } else {
            0nat
        }) + 2 * value_bits(values.skip(1))
    }
}

/// The bits of all values.
pub open spec fn mask_bits(values: Seq<bool>) -> nat
    decreases values.len(),
{
    if values.len() == 0 {
        0
    } else {
        1 + 2 * mask_bits(values.skip(1))
    }
}

/// Calls [`gpiocdev_uapi::v2::LineValues::from_slice`], which packs at most 64 values into bits.
/// The contract says that the first number has the bit of each value that is set, and the second
/// the bit of each value that was given, with the first value as the lowest bit.
#[verifier::external_body]
fn line_values(values: &[bool]) -> (packed: (u64, u64))
    requires
        values@.len() <= 64,
    ensures
        packed.0 == value_bits(values@),
        packed.1 == mask_bits(values@),
{
    let packed = gpiocdev_uapi::v2::LineValues::from_slice(values);
    (packed.bits, packed.mask)
}

/// The offset at a position of a request: zero behind the last that was given.
pub open spec fn offset_at(offsets: Seq<u32>, i: int) -> u32 {
    if i < offsets.len() {
        offsets[i]
    } else {
        0
    }
}

/// Calls [`gpiocdev_uapi::v2::Offsets::from_slice`], which copies at most 64 offsets. The contract
/// says that they come first, in their order, and that zeros fill the rest.
#[verifier::external_body]
fn line_offsets(offsets: &[u32]) -> (filled: [u32; 64])
    ensures
        forall|i: int| 0 <= i < 64 ==> #[trigger] filled@[i] == offset_at(offsets@, i),
{
    gpiocdev_uapi::v2::Offsets::from_slice(offsets).0
}

/// How many bytes of a name fit into 32: a character that would be cut is left out.
pub open spec fn consumer_length(name: Seq<u8>) -> int {
    if name.len() < 32 {
        name.len() as int
    } else if name[29] >= 0xf0 {
        29
    } else if name[30] >= 0xe0 {
        30
    } else if name[31] >= 0xc0 {
        31
    } else {
        32
    }
}

/// The byte at a position of a consumer's name: zero behind the last that fits.
pub open spec fn consumer_byte(name: Seq<u8>, i: int) -> u8 {
    if i < consumer_length(name) {
        name[i]
    } else {
        0
    }
}

/// Calls `<gpiocdev_uapi::v2::Name as From<&str>>::from`, which copies the UTF-8 of a name into 32
/// bytes. The contract says how much of the name is copied and that zeros fill the rest.
#[verifier::external_body]
fn consumer_name(name: &str) -> (filled: [u8; 32])
    ensures
        forall|i: int| 0 <= i < 32 ==> #[trigger] filled@[i] == consumer_byte(encode_utf8(name@), i),
{
    gpiocdev_uapi::v2::Name::from(name).0
}

/// The [`gpiocdev_uapi::v2::LineRequest`] with these flags, offsets, consumer's name and number
/// of lines, and with defaults for the rest.
pub uninterp spec fn bare_request_of(
    flags: u64,
    offsets: Seq<u32>,
    consumer: Seq<u8>,
    num_lines: u32,
) -> LineRequest;

/// Builds a [`gpiocdev_uapi::v2::LineRequest`] without initial values. The contract says that the
/// request depends on these fields alone; it leaves unsaid that the request holds them, because
/// nothing can be said of the inside of the type.
#[verifier::external_body]
fn bare_request(
    flags: u64,
    offsets: [u32; 64],
    consumer: [u8; 32],
    num_lines: u32,
) -> (request: LineRequest)
    ensures
        request == bare_request_of(flags, offsets@, consumer@, num_lines),
{
    let flags = gpiocdev_uapi::v2::LineFlags::from_bits_retain(flags);
    LineRequest {
        offsets: gpiocdev_uapi::v2::Offsets(offsets),
        consumer: gpiocdev_uapi::v2::Name(consumer),
        config: gpiocdev_uapi::v2::LineConfig { flags, ..Default::default() },
        num_lines,
        ..Default::default()
    }
}

/// The [`gpiocdev_uapi::v2::LineRequest`] with these flags, offsets, consumer's name and number
/// of lines, with initial values in these bits under this mask, and with defaults for the rest.
pub uninterp spec fn valued_request_of(
    flags: u64,
    values: (u64, u64),
    offsets: Seq<u32>,
    consumer: Seq<u8>,
    num_lines: u32,
) -> LineRequest;

/// Builds a [`gpiocdev_uapi::v2::LineRequest`] whose initial values are added by
/// [`gpiocdev_uapi::v2::LineConfig::add_values`]. The contract says that the request depends on
/// these fields alone; it leaves unsaid that the request holds them, because nothing can be said of
/// the inside of the type.
#[verifier::external_body]
fn valued_request(
    flags: u64,
    values: (u64, u64),
    offsets: [u32; 64],
    consumer: [u8; 32],
    num_lines: u32,
) -> (request: LineRequest)
    ensures
        request == valued_request_of(flags, values, offsets@, consumer@, num_lines),
{
    let flags = gpiocdev_uapi::v2::LineFlags::from_bits_retain(flags);
    let mut config = gpiocdev_uapi::v2::LineConfig { flags, ..Default::default() };
    config.add_values(&gpiocdev_uapi::v2::LineValues { bits: values.0, mask: values.1 });
    LineRequest {
        offsets: gpiocdev_uapi::v2::Offsets(offsets),
        consumer: gpiocdev_uapi::v2::Name(consumer),
        config,
        num_lines,
        ..Default::default()
    }
}

/// The fields of a request for GPIO lines.
#[derive(Clone, Copy, Debug, Eq, PartialEq)]
pub struct LinePlan {
    pub flags: u64,
    pub values: Option<(u64, u64)>,
    pub offsets: [u32; 64],
    pub consumer: [u8; 32],
    pub num_lines: u32,
}

/// Whether the fields are those of a request for the lines of a resource.
pub open spec fn plans_lines(plan: LinePlan, lines: GpioLinesResource) -> bool {
    &&& plan.flags == lines_flags(lines)
    &&& plan.values == (match lines.initial_values {
        None => None,
        Some(values) => Some((value_bits(values@) as u64, mask_bits(values@) as u64)),
    })
    &&& forall|i: int|
        0 <= i < 64 ==> #[trigger] plan.offsets@[i] == offset_at(lines.offsets@, i)
    &&& forall|i: int|
        0 <= i < 32 ==> #[trigger] plan.consumer@[i] == consumer_byte(encode_utf8(lines.name@), i)
    &&& plan.num_lines == low_word(lines.offsets@.len())
}

/// The fields of a request for the lines of a resource.
pub fn plan_lines(lines: &GpioLinesResource) -> (plan: LinePlan)
    requires
        lines.initial_values matches Some(values) ==> values@.len() <= 64,
    ensures
        plans_lines(plan, *lines),
{
    let direction: u64 = match lines.direction {
        GpioDirection::Input => INPUT,
        GpioDirection::Output => OUTPUT,
    };
    let active_low: u64 = if lines.active_low {
        ACTIVE_LOW
    } else {
        0
    };
    let bias: u64 = match lines.bias {
        None => 0,
        Some(GpioBias::PullUp) => BIAS_PULL_UP,
        Some(GpioBias::PullDown) => BIAS_PULL_DOWN,
        Some(GpioBias::Disabled) => BIAS_DISABLED,
    };
    let edge: u64 = match lines.edge {
        None => 0,
        Some(GpioEdge::Rising) => EDGE_RISING,
        Some(GpioEdge::Falling) => EDGE_FALLING,
        Some(GpioEdge::Both) => EDGE_RISING + EDGE_FALLING,
    };
    let values: Option<(u64, u64)> = match &lines.initial_values {
        None => None,
        Some(values) => Some(line_values(values.as_slice())),
    };
    LinePlan {
        flags: direction + active_low + bias + edge,
        values,
        offsets: line_offsets(lines.offsets.as_slice()),
        consumer: consumer_name(lines.name.as_str()),
        num_lines: length_word(lines.offsets.len(), 0),
    }
}

/// The request that a plan stands for.
pub open spec fn planned_request(plan: LinePlan) -> LineRequest {
    match plan.values {
        None => bare_request_of(plan.flags, plan.offsets@, plan.consumer@, plan.num_lines),
        Some(values) => valued_request_of(
            plan.flags,
            values,
            plan.offsets@,
            plan.consumer@,
            plan.num_lines,
        ),
    }
}

/// The request for the lines of a resource.
pub fn gpio_line_request(lines: &GpioLinesResource) -> (request: LineRequest)
    requires
        lines.initial_values matches Some(values) ==> values@.len() <= 64,
    ensures
        exists|plan: LinePlan| #[trigger]
            plans_lines(plan, *lines) && request == planned_request(plan),
{
    let plan = plan_lines(lines);
    match plan.values {
        None => bare_request(plan.flags, plan.offsets, plan.consumer, plan.num_lines),
        Some(values) => valued_request(
            plan.flags,
            values,
            plan.offsets,
            plan.consumer,
            plan.num_lines,
        ),
    }
}

} // verus!
