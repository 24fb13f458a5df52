//! What a gadget shows of a personality, read from the personality's own bytes.

use crate::bytes::{le16, le16_at, le32, le32_at, lemma_le32_round_trip};
use crate::microsoft::{microsoft_projection, os_descriptor_count, os_descriptors};
use crate::os_laws::stands_at;
use crate::personality::{PersonalityModel, StringModel, UsbSpeed};
use crate::projection_laws::lemma_word_in;
use crate::survey_laws::lemma_strings_are_found;
use crate::text::encode_utf16;
use crate::usb_personality::{
    blob_flags, descriptor_blob, descriptor_words, find_string, first_language, nothing_rewritten,
    projected, rewrite, text_of, text_run, Endpoint, ProjectionError,
};
use crate::walk_laws::{
    endpoints_on, interface_on, lemma_interface_shift, lemma_rewritten, lemma_walk_grows,
    lemma_walk_shift, numbered_on, renumbered, walk,
};
use vstd::prelude::*;
use vstd::utf8::encode_utf8;

verus! {

/// Whether a text is what a personality's string under this index and language says: the units of
/// its UTF-16 stand in the descriptor, low byte first, behind its length and its type.
pub open spec fn says(strings: Seq<StringModel>, index: u8, language: u16, text: Seq<char>) -> bool {
    exists|k: int|
        {
            &&& 0 <= k < strings.len()
            &&& (#[trigger] strings[k]).index == index
            &&& strings[k].language_id == language
            &&& holds_text(strings[k].descriptor, text)
        }
}

/// Whether a string descriptor holds a text.
pub open spec fn holds_text(descriptor: Seq<u8>, text: Seq<char>) -> bool {
    let units = encode_utf16(text);
    &&& descriptor.len() >= 2 + 2 * units.len()
    &&& descriptor[0] == 2 + 2 * units.len()
    &&& descriptor[1] == 3
    &&& forall|j: int|
        0 <= j < units.len() ==> #[trigger] units[j] == descriptor[2 + 2 * j] + 256 * descriptor[3
            + 2 * j]
}

/// Whether a language is the first that a personality's strings offer.
pub open spec fn speaks(strings: Seq<StringModel>, language: u16) -> bool {
    exists|k: int|
        {
            &&& 0 <= k < strings.len()
            &&& (#[trigger] strings[k]).index == 0
            &&& strings[k].language_id == 0
            &&& strings[k].descriptor.len() >= 4
            &&& strings[k].descriptor[2] + 256 * strings[k].descriptor[3] == language
        }
}

/// A text is read from the string descriptor that holds it.
pub proof fn lemma_texts_are_said(strings: Seq<StringModel>, index: u8, language: u16)
    requires
        text_of(strings, index, language) is Ok,
    ensures
        says(strings, index, language, text_of(strings, index, language)->Ok_0),
{
    let descriptor = find_string(strings, index, language)->0;
    let words = descriptor_words(descriptor);
    let text = text_of(strings, index, language)->Ok_0;
    lemma_strings_are_found(strings, index, language);
    let k = choose|k: int|
        {
            &&& 0 <= k < strings.len()
            &&& (#[trigger] strings[k]).index == index
            &&& strings[k].language_id == language
            &&& strings[k].descriptor == descriptor
            &&& forall|j: int|
                0 <= j < k ==> !((#[trigger] strings[j]).index == index && strings[j].language_id
                    == language)
        };
    assert(encode_utf16(text) == words);
    assert forall|j: int| 0 <= j < words.len() implies #[trigger] words[j] == descriptor[2 + 2 * j]
        + 256 * descriptor[3 + 2 * j] by {}
    assert(holds_text(strings[k].descriptor, text));
}

/// The first language of a personality stands in its language descriptor.
pub proof fn lemma_language_is_spoken(strings: Seq<StringModel>)
    requires
        first_language(strings) is Ok,
    ensures
        speaks(strings, first_language(strings)->Ok_0),
{
    let descriptor = find_string(strings, 0, 0)->0;
    lemma_strings_are_found(strings, 0, 0);
    let k = choose|k: int|
        {
            &&& 0 <= k < strings.len()
            &&& (#[trigger] strings[k]).index == 0
            &&& strings[k].language_id == 0
            &&& strings[k].descriptor == descriptor
            &&& forall|j: int|
                0 <= j < k ==> !((#[trigger] strings[j]).index == 0 && strings[j].language_id == 0)
        };
    assert(strings[k].descriptor[2] + 256 * strings[k].descriptor[3] == le16_at(descriptor, 2));
}

/// Whether an optional text of the device is what its string says: none under index zero.
pub open spec fn says_optional(
    strings: Seq<StringModel>,
    index: u8,
    language: u16,
    text: Option<Seq<char>>,
) -> bool {
    match text {
        None => index == 0,
        Some(text) => index != 0 && says(strings, index, language, text),
    }
}

/// A gadget shows the device's own numbers: each stands in the device descriptor, low byte first.
pub proof fn lemma_gadget_has_the_numbers(bundle: PersonalityModel)
    requires
        projected(bundle) is Ok,
    ensures
        ({
            let shown = projected(bundle)->Ok_0;
            let device = bundle.device;
            &&& device.len() == 18
            &&& shown.device.bcd_usb == device[2] + 256 * device[3]
            &&& shown.device.device_class == device[4]
            &&& shown.device.device_subclass == device[5]
            &&& shown.device.device_protocol == device[6]
            &&& shown.device.vendor_id == device[8] + 256 * device[9]
            &&& shown.device.product_id == device[10] + 256 * device[11]
            &&& shown.device.bcd_device == device[12] + 256 * device[13]
        }),
{
}

/// A gadget shows the device's own texts, in the first language of the personality.
pub proof fn lemma_gadget_has_the_texts(bundle: PersonalityModel)
    requires
        projected(bundle) is Ok,
    ensures
        exists|language: u16|
            {
                let shown = projected(bundle)->Ok_0;
                let device = bundle.device;
                &&& #[trigger] speaks(bundle.strings, language)
                &&& says_optional(bundle.strings, device[14], language, shown.device.manufacturer)
                &&& says_optional(bundle.strings, device[15], language, shown.device.product)
                &&& says_optional(bundle.strings, device[16], language, shown.device.serial)
            },
{
    let device = bundle.device;
    let language = first_language(bundle.strings)->Ok_0;
    lemma_language_is_spoken(bundle.strings);
    if device[14] != 0 {
        lemma_texts_are_said(bundle.strings, device[14], language);
    }
    if device[15] != 0 {
        lemma_texts_are_said(bundle.strings, device[15], language);
    }
    if device[16] != 0 {
        lemma_texts_are_said(bundle.strings, device[16], language);
    }
    let shown = projected(bundle)->Ok_0;
    assert(says_optional(bundle.strings, device[14], language, shown.device.manufacturer));
}

/// A gadget shows the configuration's own attributes, twice its power number in milliamperes, the
/// speed that the worker declared, and the endpoints in the order of their descriptors.
pub proof fn lemma_gadget_has_the_configuration(bundle: PersonalityModel)
    requires
        projected(bundle) is Ok,
    ensures
        ({
            let shown = projected(bundle)->Ok_0;
            let configuration = bundle.configuration;
            &&& configuration.len() >= 9
            &&& shown.configuration_attributes == configuration[7]
            &&& shown.max_power_ma == 2 * configuration[8]
            &&& shown.endpoints == endpoints_on(configuration, walk(configuration, 9))
            &&& shown.max_speed == (match bundle.max_speed {
                UsbSpeed::LowSpeed => "low-speed"@,
                UsbSpeed::FullSpeed => "full-speed"@,
                UsbSpeed::HighSpeed => "high-speed"@,
            })
        }),
{
    let configuration = bundle.configuration;
    let body = configuration.skip(9);
    lemma_rewritten(body, 0, nothing_rewritten());
    lemma_walk_shift(configuration, 0);
    assert(Seq::<Endpoint>::empty() + endpoints_on(body, walk(body, 0)) =~= endpoints_on(
        body,
        walk(body, 0),
    ));
}

/// A gadget shows the capabilities that were declared, as they were declared, and no others.
pub proof fn lemma_gadget_has_the_capabilities(bundle: PersonalityModel)
    requires
        projected(bundle) is Ok,
    ensures
        ({
            let shown = projected(bundle)->Ok_0;
            &&& shown.webusb == bundle.webusb
            &&& bundle.webusb matches Some(webusb) ==> {
                &&& webusb.version == 256
                &&& webusb.vendor_code != 0
                &&& bundle.device[2] + 256 * bundle.device[3] >= 513
                &&& webusb.landing_page.len() <= 252
            }
            &&& shown.microsoft is Some <==> bundle.microsoft is Some
            &&& bundle.microsoft matches Some(microsoft) ==> {
                &&& microsoft.vendor_code != 0
                &&& shown.microsoft == Some((microsoft.vendor_code, "MSFT100"@))
            }
        }),
{
}

/// How long the header of a projected descriptor blob is: it counts Microsoft OS descriptors only
/// where there are any.
pub open spec fn header_length(blob: Seq<u8>) -> int {
    if blob[8] == 201 {
        20
    } else {
        16
    }
}

/// The descriptor blob of a gadget tells its own length and the number of its descriptors, and
/// then holds the configuration's descriptors byte for byte. Only the numbers of interface strings
/// are changed: a zero stays, and any other leads to a string of the string blob.
#[verifier::rlimit(60)]
pub proof fn lemma_blob_holds_the_descriptors(bundle: PersonalityModel)
    requires
        projected(bundle) is Ok,
    ensures
        ({
            let blob = (projected(bundle)->Ok_0).descriptors;
            let configuration = bundle.configuration;
            let head = header_length(blob);
            &&& blob.len() >= head + configuration.len() - 9
            &&& le32_at(blob, 0) == 3
            &&& le32_at(blob, 4) == blob.len()
            &&& le32_at(blob, 8) == 193 || le32_at(blob, 8) == 201
            &&& le32_at(blob, 8) == 193 ==> blob.len() == head + configuration.len() - 9
            &&& le32_at(blob, 12) == walk(configuration, 9).len()
            &&& forall|p: int|
                9 <= p < configuration.len() ==> #[trigger] blob[head + p - 9] == configuration[p]
                    || interface_on(configuration, 9, p - 8)
            &&& forall|at: int| #[trigger]
                interface_on(configuration, 9, at) ==> at + 9 <= configuration.len() && (blob[head
                    + at - 1] == 0 <==> configuration[at + 8] == 0)
        }),
{
    let configuration = bundle.configuration;
    let body = configuration.skip(9);
    let end = rewrite(body, 0, nothing_rewritten())->Ok_0;
    let (_, os) = microsoft_projection(bundle.microsoft, end.interfaces)->Ok_0;
    let blob = (projected(bundle)->Ok_0).descriptors;
    lemma_rewritten(body, 0, nothing_rewritten());
    lemma_walk_shift(configuration, 0);
    lemma_walk_is_short(body, 0);
    assert(configuration.len() <= 65535);
    lemma_blob_parts(end.count, end.body, os);
    let head = header_length(blob);
    assert forall|p: int| 9 <= p < configuration.len() implies #[trigger] blob[head + p - 9]
        == configuration[p] || interface_on(configuration, 9, p - 8) by {
        assert(blob.subrange(head, head + end.body.len() as int)[p - 9] == end.body[p - 9]);
        assert(end.body[(p - 9) + 0] == body[p - 9] || interface_on(body, 0, p - 9 - 8));
        lemma_interface_shift(configuration, p - 17);
    }
    assert forall|at: int| #[trigger] interface_on(configuration, 9, at) implies at + 9
        <= configuration.len() && (blob[head + at - 1] == 0 <==> configuration[at + 8] == 0) by {
        lemma_interface_shift(configuration, at - 9);
        assert(interface_on(body, 0, at - 9));
        assert(renumbered(body, at - 9, end.body[(at - 9) + 8 + 0], end));
        let inner = walk(body, 0);
        let i = choose|i: int| 0 <= i < inner.len() && inner[i] == at - 9;
        lemma_walk_grows(body, 0, i);
        assert(blob.subrange(head, head + end.body.len() as int)[at - 1] == end.body[at - 1]);
    }
}

proof fn lemma_walk_is_short(bytes: Seq<u8>, from: int)
    requires
        0 <= from <= bytes.len(),
    ensures
        2 * walk(bytes, from).len() <= bytes.len() - from,
    decreases bytes.len() - from,
{
    if from + 2 <= bytes.len() && 2 <= bytes[from] && from + bytes[from] <= bytes.len() {
        lemma_walk_is_short(bytes, from + bytes[from]);
    }
}

proof fn lemma_count_is_small(bytes: Seq<u8>, offset: int, count: nat)
    requires
        0 <= offset,
    ensures
        os_descriptor_count(bytes, offset, count) matches Ok(total) ==> total <= count + if offset
            < bytes.len() {
            bytes.len() - offset
        } else {
            0
        },
    decreases bytes.len() - offset,
{
    if offset + 5 <= bytes.len() {
        let length = le32_at(bytes, offset + 1) as int;
        if 11 <= length <= bytes.len() - offset {
            lemma_count_is_small(bytes, offset + length, count + 1);
        }
    }
}

proof fn lemma_blob_parts(count: nat, body: Seq<u8>, os: Seq<u8>)
    requires
        descriptor_blob(count, body, os) is Ok,
        count <= 65535,
    ensures
        ({
            let blob = descriptor_blob(count, body, os)->Ok_0;
            let head = header_length(blob);
            &&& le32_at(blob, 0) == 3
            &&& le32_at(blob, 4) == blob.len()
            &&& le32_at(blob, 8) == (if os.len() > 0 {
                201u32
            } else {
                193
            })
            &&& head == (if os.len() > 0 {
                20int
            } else {
                16
            })
            &&& le32_at(blob, 12) == count
            &&& blob.len() == head + body.len() + os.len()
            &&& blob.subrange(head, head + body.len() as int) == body
            &&& blob.subrange(head + body.len() as int, blob.len() as int) == os
            &&& os.len() > 0 ==> blob[8] == 201 && os_descriptor_count(os, 0, 0) == Ok::<
                nat,
                ProjectionError,
            >(le32_at(blob, 16) as nat)
        }),
{
    let blob = descriptor_blob(count, body, os)->Ok_0;
    if os.len() > 0 {
        let os_count = os_descriptor_count(os, 0, 0)->Ok_0;
        lemma_count_is_small(os, 0, 0);
        assert(blob.subrange(16, 20) =~= le32(os_count as u32));
        lemma_word_in(blob, 16, os_count as u32);
    }
    let flags = blob_flags(os.len() > 0);
    let length = blob.len() as u32;
    lemma_le32_round_trip(flags);
    assert(blob.subrange(0, 4) =~= le32(3));
    assert(blob.subrange(4, 8) =~= le32(length));
    assert(blob.subrange(8, 12) =~= le32(flags));
    assert(blob.subrange(12, 16) =~= le32(count as u32));
    lemma_word_in(blob, 0, 3);
    lemma_word_in(blob, 4, length);
    lemma_word_in(blob, 8, flags);
    lemma_word_in(blob, 12, count as u32);
    assert(blob[8] == le32(flags)[0]);
    assert(le32(201)[0] == 201 && le32(193)[0] == 193);
    let head = header_length(blob);
    assert(blob.subrange(head, head + body.len() as int) =~= body);
    assert(blob.subrange(head + body.len() as int, blob.len() as int) =~= os);
}

/// Whether the descriptor blob of a gadget ends with what Windows reads of the declaration, made
/// for these interfaces, which are those of the configuration.
pub open spec fn ends_with_windows(bundle: PersonalityModel, interfaces: Set<u8>) -> bool {
    let blob = (projected(bundle)->Ok_0).descriptors;
    let configuration = bundle.configuration;
    let tail = blob.subrange(header_length(blob) + configuration.len() - 9, blob.len() as int);
    &&& forall|number: u8| #[trigger]
        interfaces.contains(number) <==> numbered_on(configuration, 9, number)
    &&& match bundle.microsoft {
        None => tail.len() == 0,
        Some(declaration) => {
            &&& os_descriptors(declaration, interfaces) == Ok::<Seq<u8>, ProjectionError>(tail)
            &&& tail.len() > 0 ==> blob[8] == 201 && os_descriptor_count(tail, 0, 0) == Ok::<
                nat,
                ProjectionError,
            >(le32_at(blob, 16) as nat)
        },
    }
}

/// Behind the configuration's descriptors the descriptor blob has what Windows reads of the
/// personality's declaration, made for the interfaces of the configuration; without a declaration
/// it has nothing there.
#[verifier::rlimit(60)]
pub proof fn lemma_blob_ends_with_windows(bundle: PersonalityModel)
    requires
        projected(bundle) is Ok,
    ensures
        exists|interfaces: Set<u8>| #[trigger] ends_with_windows(bundle, interfaces),
{
    let configuration = bundle.configuration;
    let body = configuration.skip(9);
    let end = rewrite(body, 0, nothing_rewritten())->Ok_0;
    let (_, os) = microsoft_projection(bundle.microsoft, end.interfaces)->Ok_0;
    lemma_rewritten(body, 0, nothing_rewritten());
    lemma_walk_is_short(body, 0);
    lemma_blob_parts(end.count, end.body, os);
    assert forall|number: u8| #[trigger]
        end.interfaces.contains(number) <==> numbered_on(configuration, 9, number) by {
        lemma_number_shift(configuration, number);
    }
    assert(ends_with_windows(bundle, end.interfaces));
}

proof fn lemma_number_shift(bytes: Seq<u8>, number: u8)
    requires
        bytes.len() >= 9,
        forall|at: int| #[trigger]
            interface_on(bytes.skip(9), 0, at) ==> at + 9 <= bytes.len() - 9,
    ensures
        numbered_on(bytes.skip(9), 0, number) <==> numbered_on(bytes, 9, number),
{
    let body = bytes.skip(9);
    if numbered_on(body, 0, number) {
        let at = choose|at: int| #[trigger] interface_on(body, 0, at) && body[at + 2] == number;
        lemma_interface_shift(bytes, at);
        lemma_at_is_positive(body, at);
        assert(interface_on(bytes, 9, at + 9));
        assert(bytes[at + 9 + 2] == number);
    }
    if numbered_on(bytes, 9, number) {
        let at = choose|at: int| #[trigger] interface_on(bytes, 9, at) && bytes[at + 2] == number;
        lemma_interface_shift(bytes, at - 9);
        assert(interface_on(body, 0, at - 9));
        lemma_at_is_positive(body, at - 9);
        assert(body[at - 9 + 2] == number);
    }
}

proof fn lemma_at_is_positive(bytes: Seq<u8>, at: int)
    requires
        interface_on(bytes, 0, at),
    ensures
        at >= 0,
{
    let all = walk(bytes, 0);
    let k = choose|k: int| 0 <= k < all.len() && all[k] == at;
    lemma_walk_grows(bytes, 0, k);
}

/// Where a text ends: at the first zero at or behind a position.
pub open spec fn text_end(bytes: Seq<u8>, at: int) -> int
    decreases bytes.len() - at,
{
    if at >= bytes.len() || bytes[at] == 0 {
        at
    } else {
        text_end(bytes, at + 1)
    }
}

/// Where the text number `count`, counted from zero, begins in a run of zero-terminated texts.
pub open spec fn text_begins(bytes: Seq<u8>, at: int, count: nat) -> int
    decreases count,
{
    if count == 0 {
        at
    } else {
        text_begins(bytes, text_end(bytes, at) + 1, (count - 1) as nat)
    }
}

/// The bytes of a zero-terminated text.
pub open spec fn text_at(bytes: Seq<u8>, at: int) -> Seq<u8> {
    bytes.subrange(at, text_end(bytes, at))
}

proof fn lemma_text_end(bytes: Seq<u8>, at: int, end: int)
    requires
        0 <= at <= end < bytes.len(),
        bytes[end] == 0,
        forall|i: int| at <= i < end ==> bytes[i] != 0,
    ensures
        text_end(bytes, at) == end,
    decreases end - at,
{
    if at < end {
        lemma_text_end(bytes, at + 1, end);
    }
}

/// A run of texts holds them in their order.
#[verifier::rlimit(60)]
proof fn lemma_run_holds_texts(
    strings: Seq<StringModel>,
    language: u16,
    indices: Seq<u8>,
    out: Seq<u8>,
    blob: Seq<u8>,
    base: int,
    k: int,
)
    requires
        text_run(strings, language, indices, out) is Ok,
        stands_at(blob, base, text_run(strings, language, indices, out)->Ok_0),
        0 <= k < indices.len(),
    ensures
        out.is_prefix_of(text_run(strings, language, indices, out)->Ok_0),
        text_of(strings, indices[k], language) is Ok,
        text_at(blob, text_begins(blob, base + out.len(), k as nat)) == encode_utf8(
            text_of(strings, indices[k], language)->Ok_0,
        ),
    decreases indices.len(),
{
    let body = text_run(strings, language, indices, out)->Ok_0;
    let text = text_of(strings, indices[0], language)->Ok_0;
    let bytes = encode_utf8(text);
    let next = out + bytes + seq![0u8];
    let rest = indices.skip(1);
    assert(text_run(strings, language, rest, next)->Ok_0 == body);
    lemma_run_is_prefix(strings, language, rest, next);
    let start = base + out.len();
    let end = start + bytes.len();
    assert forall|i: int| 0 <= i < next.len() implies blob[base + i] == next[i] by {
        assert(body.subrange(0, next.len() as int)[i] == next[i]);
        assert(blob.subrange(base, base + body.len())[i] == body[i]);
    }
    assert(out =~= body.subrange(0, out.len() as int)) by {
        assert(next =~= body.subrange(0, next.len() as int));
    }
    assert(blob[base + (out.len() + bytes.len())] == next[(out.len() + bytes.len()) as int]);
    crate::projection_laws::lemma_text_bytes(text);
    assert forall|i: int| start <= i < end implies blob[i] != 0 by {
        assert(blob[base + (i - base)] == next[i - base]);
        assert(next[i - base] == bytes[i - start]);
    }
    lemma_text_end(blob, start, end);
    assert(blob.subrange(start, end) =~= bytes) by {
        assert forall|i: int| 0 <= i < bytes.len() implies blob.subrange(start, end)[i]
            == bytes[i] by {
            assert(blob[base + (out.len() + i)] == next[out.len() + i]);
        }
    }
    if k > 0 {
        lemma_run_holds_texts(strings, language, rest, next, blob, base, k - 1);
        assert(rest[k - 1] == indices[k]);
        assert(base + next.len() == end + 1);
    }
}

proof fn lemma_run_is_prefix(
    strings: Seq<StringModel>,
    language: u16,
    indices: Seq<u8>,
    out: Seq<u8>,
)
    requires
        text_run(strings, language, indices, out) is Ok,
    ensures
        out.is_prefix_of(text_run(strings, language, indices, out)->Ok_0),
    decreases indices.len(),
{
    let body = text_run(strings, language, indices, out)->Ok_0;
    if indices.len() > 0 {
        let text = text_of(strings, indices[0], language)->Ok_0;
        let next = out + encode_utf8(text) + seq![0u8];
        lemma_run_is_prefix(strings, language, indices.skip(1), next);
        assert(out =~= body.subrange(0, out.len() as int)) by {
            assert(next =~= body.subrange(0, next.len() as int));
        }
    } else {
        assert(out =~= out.subrange(0, out.len() as int));
    }
}

/// Each interface of the descriptor blob is named as its own descriptor names it: the new number
/// of its string leads, in the string blob, to the text that the personality has under the old
/// one, in the language that the string blob tells.
#[verifier::rlimit(60)]
pub proof fn lemma_blob_names_the_interfaces(bundle: PersonalityModel, at: int)
    requires
        projected(bundle) is Ok,
        interface_on(bundle.configuration, 9, at),
        bundle.configuration[at + 8] != 0,
    ensures
        ({
            let shown = projected(bundle)->Ok_0;
            let number = shown.descriptors[header_length(shown.descriptors) + at - 1];
            let blob = shown.strings;
            let place = text_begins(blob, 18, (number - 1) as nat);
            &&& number > 0
            &&& le32_at(blob, 0) == 2
            &&& le32_at(blob, 4) == blob.len()
            &&& number <= le32_at(blob, 8)
            &&& le32_at(blob, 12) == 1
            &&& speaks(bundle.strings, le16_at(blob, 16))
            &&& exists|text: Seq<char>|
                #![trigger encode_utf8(text)]
                says(bundle.strings, bundle.configuration[at + 8], le16_at(blob, 16), text)
                    && text_at(blob, place) == encode_utf8(text)
        }),
{
    let configuration = bundle.configuration;
    let body = configuration.skip(9);
    let end = rewrite(body, 0, nothing_rewritten())->Ok_0;
    let (_, os) = microsoft_projection(bundle.microsoft, end.interfaces)->Ok_0;
    let shown = projected(bundle)->Ok_0;
    let language = first_language(bundle.strings)->Ok_0;
    lemma_rewritten(body, 0, nothing_rewritten());
    lemma_interface_shift(configuration, at - 9);
    assert(renumbered(body, at - 9, end.body[(at - 9) + 8 + 0], end));
    let inner = walk(body, 0);
    let i = choose|i: int| 0 <= i < inner.len() && inner[i] == at - 9;
    lemma_walk_grows(body, 0, i);
    lemma_walk_is_short(body, 0);
    lemma_blob_parts(end.count, end.body, os);
    let head = header_length(shown.descriptors);
    let number = shown.descriptors[head + at - 1];
    assert(shown.descriptors.subrange(head, head + end.body.len() as int)[at - 1] == end.body[at
        - 1]);
    assert(number == end.body[at - 1]);
    let original = configuration[at + 8];
    assert(body[at - 9 + 8] == original);
    assert(end.originals[number - 1] == original);
    let blob = shown.strings;
    let start = le16(language);
    let run = text_run(bundle.strings, language, end.originals, start)->Ok_0;
    assert(blob.subrange(16, 16 + run.len() as int) =~= run);
    lemma_run_holds_texts(
        bundle.strings,
        language,
        end.originals,
        start,
        blob,
        16,
        number - 1,
    );
    lemma_originals_are_few(body, 0, nothing_rewritten());
    crate::projection_laws::lemma_string_blob_is_valid(bundle.strings, language, end.originals);
    assert(blob.subrange(0, 4) =~= le32(2));
    lemma_word_in(blob, 0, 2);
    assert(run.subrange(0, 2) == start);
    assert(blob[16] == run[0] && blob[17] == run[1]);
    assert(run[0] == run.subrange(0, 2)[0] && run[1] == run.subrange(0, 2)[1]);
    assert(le16_at(blob, 16) == language);
    lemma_language_is_spoken(bundle.strings);
    lemma_texts_are_said(bundle.strings, original, language);
}

proof fn lemma_originals_are_few(
    bytes: Seq<u8>,
    offset: int,
    state: crate::usb_personality::Rewritten,
)
    requires
        0 <= offset,
        state.originals.len() <= 255,
        rewrite(bytes, offset, state) is Ok,
    ensures
        (rewrite(bytes, offset, state)->Ok_0).originals.len() <= 255,
    decreases bytes.len() - offset,
{
    if offset < bytes.len() {
        let descriptor = bytes.subrange(offset, offset + bytes[offset]);
        let next = crate::usb_personality::rewrite_descriptor(state, descriptor)->Ok_0;
        lemma_originals_are_few(bytes, offset + bytes[offset], next);
    }
}

} // verus!
