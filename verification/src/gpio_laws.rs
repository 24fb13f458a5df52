//! What a GPIO resource asks of the kernel, setting by setting.

use crate::gpio::{
    consumer_byte, lines_flags, mask_bits, offset_at, plans_lines, value_bits, LinePlan,
};
use crate::profile::{GpioBias, GpioDirection, GpioEdge, GpioLinesResource};
use vstd::arithmetic::power2::{lemma_pow2_unfold, pow2};
use vstd::prelude::*;
use vstd::utf8::encode_utf8;

verus! {

/// The flags of a request have one bit for each setting of the resource, and no other bit.
pub proof fn lemma_flags_are_the_settings(lines: GpioLinesResource)
    ensures
        ({
            let flags = lines_flags(lines) as int;
            &&& flags < 2048 && flags % 2 == 0
            &&& flags / 2 % 2 == 1 <==> lines.active_low
            &&& flags / 4 % 2 == 1 <==> lines.direction == GpioDirection::Input
            &&& flags / 8 % 2 == 1 <==> lines.direction == GpioDirection::Output
            &&& flags / 16 % 2 == 1 <==> lines.edge == Some(GpioEdge::Rising) || lines.edge == Some(
                GpioEdge::Both,
            )
            &&& flags / 32 % 2 == 1 <==> lines.edge == Some(GpioEdge::Falling) || lines.edge
                == Some(GpioEdge::Both)
            &&& flags / 64 % 4 == 0
            &&& flags / 256 % 2 == 1 <==> lines.bias == Some(GpioBias::PullUp)
            &&& flags / 512 % 2 == 1 <==> lines.bias == Some(GpioBias::PullDown)
            &&& flags / 1024 % 2 == 1 <==> lines.bias == Some(GpioBias::Disabled)
        }),
{
}

/// Each initial value is one bit, the first the lowest, and each line that has one is in the mask.
pub proof fn lemma_values_are_bits(values: Seq<bool>, i: nat)
    requires
        i < values.len(),
    ensures
        (value_bits(values) as int / pow2(i) as int) % 2 == (if values[i as int] {
            1int
        } else {
            0
        }),
        (mask_bits(values) as int / pow2(i) as int) % 2 == 1,
        mask_bits(values) == pow2(values.len()) - 1,
    decreases values.len(),
{
    let rest = values.skip(1);
    lemma_mask(values);
    vstd::arithmetic::power2::lemma2_to64();
    let low = if values[0] {
        1int
    } else {
        0
    };
    if i > 0 {
        let k = (i - 1) as nat;
        lemma_values_are_bits(rest, k);
        lemma_pow2_unfold(i);
        vstd::arithmetic::power2::lemma_pow2_pos(k);
        assert(rest[k as int] == values[i as int]);
        lemma_half(value_bits(rest) as int, low, pow2(k) as int);
        lemma_half(mask_bits(rest) as int, 1, pow2(k) as int);
    }
}

proof fn lemma_mask(values: Seq<bool>)
    ensures
        mask_bits(values) == pow2(values.len()) - 1,
    decreases values.len(),
{
    vstd::arithmetic::power2::lemma2_to64();
    if values.len() > 0 {
        lemma_mask(values.skip(1));
        lemma_pow2_unfold(values.len());
    }
}

/// Halving first and dividing then is dividing at once.
proof fn lemma_half(rest: int, low: int, power: int)
    requires
        rest >= 0,
        0 <= low < 2,
        power > 0,
    ensures
        (low + 2 * rest) / (2 * power) == rest / power,
{
    let whole = low + 2 * rest;
    vstd::arithmetic::div_mod::lemma_div_denominator(whole, 2, power);
    assert(whole / 2 == rest);
}

/// A request asks for the resource's own lines in their order, under the resource's name.
pub proof fn lemma_request_asks_for_the_lines(plan: LinePlan, lines: GpioLinesResource)
    requires
        plans_lines(plan, lines),
        lines.offsets@.len() <= 64,
    ensures
        plan.num_lines == lines.offsets@.len(),
        forall|i: int| 0 <= i < lines.offsets@.len() ==> plan.offsets@[i] == #[trigger] lines.offsets@[i],
        plan.values is Some <==> lines.initial_values is Some,
        encode_utf8(lines.name@).len() < 32 ==> {
            &&& plan.consumer@.take(encode_utf8(lines.name@).len() as int) =~= encode_utf8(
                lines.name@,
            )
            &&& forall|i: int|
                encode_utf8(lines.name@).len() <= i < 32 ==> #[trigger] plan.consumer@[i] == 0
        },
{
    assert forall|i: int| 0 <= i < lines.offsets@.len() implies plan.offsets@[i]
        == #[trigger] lines.offsets@[i] by {
        assert(plan.offsets@[i] == offset_at(lines.offsets@, i));
    }
    let name = encode_utf8(lines.name@);
    if name.len() < 32 {
        assert forall|i: int| 0 <= i < name.len() implies plan.consumer@[i] == name[i] by {
            assert(plan.consumer@[i] == consumer_byte(name, i));
        }
    }
}

/// The initial values of a request are those of the resource.
pub proof fn lemma_request_sets_the_values(plan: LinePlan, lines: GpioLinesResource, i: nat)
    requires
        plans_lines(plan, lines),
        lines.initial_values is Some,
        (lines.initial_values->0)@.len() <= 64,
        i < (lines.initial_values->0)@.len(),
    ensures
        ({
            let values = (lines.initial_values->0)@;
            let (bits, mask) = plan.values->0;
            &&& plan.values is Some
            &&& (bits as int / pow2(i) as int) % 2 == (if values[i as int] {
                1int
            } else {
                0
            })
            &&& (mask as int / pow2(i) as int) % 2 == 1
            &&& mask == pow2(values.len()) - 1
            &&& plan.flags == lines_flags(lines)
        }),
{
    let values = (lines.initial_values->0)@;
    lemma_values_are_bits(values, i);
    lemma_bits_fit(values);
    vstd::arithmetic::power2::lemma2_to64();
    vstd::arithmetic::power2::lemma2_to64_rest();
    if values.len() < 64 {
        vstd::arithmetic::power2::lemma_pow2_strictly_increases(values.len(), 64);
    }
}

proof fn lemma_bits_fit(values: Seq<bool>)
    ensures
        value_bits(values) <= mask_bits(values),
    decreases values.len(),
{
    if values.len() > 0 {
        lemma_bits_fit(values.skip(1));
    }
}

} // verus!
