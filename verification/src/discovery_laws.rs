//! What holds of every discovery, whatever the firmware answers.

use crate::conversation::{
    after_os_text, after_replies, after_reply, after_text, concluded, descriptor_request,
    leading_indices, next_request, survey, text_key, text_total, with_index, words_of,
    DiscoveryModel, SetupPacket, Stage, MICROSOFT_STRING_INDEX,
};
use crate::discovery::lemma_text_position;
use crate::personality::{StringModel, UsbSpeed};
use crate::sets::{
    ascending_bytes, lemma_ascending_bytes, lemma_ascending_words, strictly_increasing,
};
use crate::usb_personality::{
    distinct_strings, USB_DT_CONFIGURATION, USB_DT_DEVICE, USB_DT_STRING,
};
use vstd::prelude::*;

verus! {

/// The index and the language of a string.
pub open spec fn key_of(string: StringModel) -> (u8, u16) {
    (string.index, string.language_id)
}

/// Whether the strings are the languages and the first `count` texts, in their order, and
/// perhaps the Microsoft OS string.
pub open spec fn keyed(state: DiscoveryModel, count: nat, microsoft: bool) -> bool {
    &&& state.strings.len() == 1 + count + (if microsoft {
        1nat
    } else {
        0nat
    })
    &&& key_of(state.strings[0]) == (0u8, 0u16)
    &&& forall|k: int|
        0 <= k < count ==> key_of(#[trigger] state.strings[k + 1]) == text_key(state, k as nat)
    &&& microsoft ==> key_of(state.strings.last()) == (MICROSOFT_STRING_INDEX, 0u16)
}

/// Whether bytes are strictly increasing and not zero.
pub open spec fn proper_indices(indices: Seq<u8>) -> bool {
    &&& forall|i: int, j: int| 0 <= i < j < indices.len() ==> indices[i] < indices[j]
    &&& forall|i: int| 0 <= i < indices.len() ==> indices[i] != 0
}

/// Which strings a conversation has at each stage.
pub open spec fn strings_in_order(state: DiscoveryModel) -> bool {
    &&& strictly_increasing(state.languages)
    &&& proper_indices(state.indices)
    &&& match state.stage {
        Stage::Device | Stage::Languages => state.strings.len() == 0 && state.microsoft is None,
        Stage::ConfigurationHeader | Stage::Configuration => keyed(state, 0, false)
            && state.microsoft is None,
        Stage::Text => keyed(state, state.position, false) && state.position < text_total(state)
            && state.microsoft is None,
        Stage::OsText => keyed(state, text_total(state), false) && state.microsoft is None,
        Stage::Failed(_) => true,
        _ => keyed(state, text_total(state), state.microsoft is Some),
    }
}

proof fn lemma_indices_proper(indices: Set<u8>)
    requires
        !indices.contains(0),
    ensures
        proper_indices(ascending_bytes(indices)),
{
    lemma_ascending_bytes(indices);
    assert forall|i: int| 0 <= i < ascending_bytes(indices).len() implies ascending_bytes(
        indices,
    )[i] != 0 by {
        assert(ascending_bytes(indices).contains(ascending_bytes(indices)[i]));
    }
}

proof fn lemma_survey_never_finds_zero(
    bytes: Seq<u8>,
    offset: int,
    interfaces: Set<u8>,
    indices: Set<u8>,
)
    requires
        0 <= offset,
        !indices.contains(0),
    ensures
        survey(bytes, offset, interfaces, indices) matches Ok((_, found))
            ==> !found.contains(0),
    decreases bytes.len() - offset,
{
    if offset < bytes.len() && 2 <= bytes[offset] <= bytes.len() - offset {
        lemma_survey_never_finds_zero(bytes, offset + bytes[offset], interfaces, indices);
        lemma_survey_never_finds_zero(
            bytes,
            offset + bytes[offset],
            interfaces.insert(bytes[offset + 2]),
            with_index(indices, bytes[offset + 8]),
        );
    }
}

/// Each reply keeps the strings in order.
#[verifier::rlimit(40)]
proof fn lemma_reply_keeps_order(state: DiscoveryModel, reply: Option<Seq<u8>>)
    requires
        strings_in_order(state),
    ensures
        strings_in_order(after_reply(state, reply)),
{
    reveal(after_reply);
    if let Some(bytes) = reply {
        match state.stage {
            Stage::Languages => {
                lemma_ascending_words(words_of(bytes.skip(2)));
            },
            Stage::Configuration => {
                let leading = leading_indices(state.device, bytes);
                lemma_survey_never_finds_zero(bytes, 9, Set::empty(), leading);
                if let Ok((interfaces, indices)) = survey(
                    bytes,
                    9,
                    Set::empty(),
                    leading,
                ) {
                    lemma_indices_proper(indices);
                }
            },
            Stage::Text => {
                let after = after_text(state, bytes);
                if !(after.stage is Failed) {
                    assert(keyed(after, state.position + 1, false)) by {
                        assert forall|k: int| 0 <= k < state.position + 1 implies key_of(
                            #[trigger] after.strings[k + 1],
                        ) == text_key(after, k as nat) by {
                            if k < state.position {
                                assert(after.strings[k + 1] == state.strings[k + 1]);
                            }
                            assert(text_key(after, k as nat) == text_key(state, k as nat));
                        }
                        assert(after.strings[0] == state.strings[0]);
                    }
                }
            },
            Stage::OsText => {
                let after = after_os_text(state, bytes);
                if !(after.stage is Failed) {
                    let total = text_total(state);
                    assert(keyed(after, total, true)) by {
                        assert forall|k: int| 0 <= k < total implies key_of(
                            #[trigger] after.strings[k + 1],
                        ) == text_key(after, k as nat) by {
                            assert(after.strings[k + 1] == state.strings[k + 1]);
                            assert(text_key(after, k as nat) == text_key(state, k as nat));
                        }
                        assert(after.strings[0] == state.strings[0]);
                    }
                }
            },
            _ => {
                lemma_rest_keeps_strings(state, reply);
            },
        }
    } else {
        lemma_rest_keeps_strings(state, reply);
    }
}

/// From the compatible IDs on, no reply changes the strings; nor does a stall.
#[verifier::rlimit(40)]
proof fn lemma_rest_keeps_strings(state: DiscoveryModel, reply: Option<Seq<u8>>)
    requires
        strings_in_order(state),
        reply is None || !(state.stage is Languages || state.stage is Configuration || state.stage
            is Text || state.stage is OsText),
    ensures
        strings_in_order(after_reply(state, reply)),
{
    reveal(after_reply);
    let after = after_reply(state, reply);
    assert(after.strings == state.strings);
    assert(after.microsoft is Some == state.microsoft is Some);
    assert(after.languages == state.languages);
    assert(after.indices == state.indices);
    assert(forall|k: nat| #[trigger] text_key(after, k) == text_key(state, k));
    assert(text_total(after) == text_total(state));
    assert(keyed(after, text_total(state), false) == keyed(state, text_total(state), false));
    assert(keyed(after, text_total(state), true) == keyed(state, text_total(state), true));
    assert(keyed(after, 0, false) == keyed(state, 0, false));
}

/// Strings are in order throughout a conversation.
pub proof fn lemma_strings_in_order(speed: UsbSpeed, replies: Seq<Option<Seq<u8>>>)
    ensures
        strings_in_order(after_replies(speed, replies)),
    decreases replies.len(),
{
    if replies.len() > 0 {
        lemma_strings_in_order(speed, replies.drop_last());
        lemma_reply_keeps_order(after_replies(speed, replies.drop_last()), replies.last());
    }
}

/// Two positions name the same text only where they are the same.
proof fn lemma_text_keys_differ(state: DiscoveryModel, i: nat, j: nat)
    requires
        strictly_increasing(state.languages),
        proper_indices(state.indices),
        i < j < text_total(state),
    ensures
        text_key(state, i) != text_key(state, j),
        text_key(state, i).0 != 0,
        text_key(state, j).0 != 0,
        state.indices.contains(text_key(state, i).0),
        state.languages.contains(text_key(state, i).1),
{
    let n = state.indices.len();
    lemma_text_position(state.languages.len(), n, i);
    lemma_text_position(state.languages.len(), n, j);
    let a = i as int / n as int;
    let b = j as int / n as int;
    let c = i as int % n as int;
    let d = j as int % n as int;
    assert(i == a * n + c && j == b * n + d) by (nonlinear_arith)
        requires
            n > 0,
            a == i as int / n as int,
            b == j as int / n as int,
            c == i as int % n as int,
            d == j as int % n as int,
    ;
    if a == b && c == d {
        assert(i == j);
    }
    if c != d {
        if c < d {
            assert(state.indices[c] < state.indices[d]);
        } else {
            assert(state.indices[d] < state.indices[c]);
        }
    } else {
        if a < b {
            assert(state.languages[a] < state.languages[b]);
        } else {
            assert(state.languages[b] < state.languages[a]);
        }
    }
}

/// A discovered personality never has two strings under one index and language. The one exception
/// is a firmware for Windows that also uses the index of the Microsoft OS string for a text in
/// language zero.
pub proof fn lemma_discovered_strings_are_distinct(
    speed: UsbSpeed,
    replies: Seq<Option<Seq<u8>>>,
)
    requires
        after_replies(speed, replies).stage == Stage::Complete,
        ({
            let state = after_replies(speed, replies);
            !(state.microsoft is Some && state.indices.contains(MICROSOFT_STRING_INDEX)
                && state.languages.contains(0))
        }),
    ensures
        distinct_strings(after_replies(speed, replies).strings),
{
    let state = after_replies(speed, replies);
    let strings = state.strings;
    let total = text_total(state);
    lemma_strings_in_order(speed, replies);
    assert forall|i: int, j: int| 0 <= i < j < strings.len() implies !(strings[i].index
        == strings[j].index && strings[i].language_id == strings[j].language_id) by {
        if j <= total {
            assert(key_of(strings[(j - 1) + 1]) == text_key(state, (j - 1) as nat));
            if i == 0 {
                lemma_text_key_proper(state, (j - 1) as nat);
            } else {
                assert(key_of(strings[(i - 1) + 1]) == text_key(state, (i - 1) as nat));
                lemma_text_keys_differ(state, (i - 1) as nat, (j - 1) as nat);
            }
        } else {
            assert(key_of(strings[j]) == (MICROSOFT_STRING_INDEX, 0u16));
            if i > 0 {
                assert(key_of(strings[(i - 1) + 1]) == text_key(state, (i - 1) as nat));
                lemma_text_key_proper(state, (i - 1) as nat);
            }
        }
    }
}

proof fn lemma_text_key_proper(state: DiscoveryModel, i: nat)
    requires
        proper_indices(state.indices),
        i < text_total(state),
    ensures
        text_key(state, i).0 != 0,
        state.indices.contains(text_key(state, i).0),
        state.languages.contains(text_key(state, i).1),
{
    lemma_text_position(state.languages.len(), state.indices.len(), i);
}

/// Whether the firmware answered `packet` with `bytes` in the course of a conversation.
pub open spec fn heard(
    speed: UsbSpeed,
    replies: Seq<Option<Seq<u8>>>,
    packet: SetupPacket,
    bytes: Seq<u8>,
) -> bool {
    exists|i: int|
        0 <= i < replies.len() && next_request(
            #[trigger] after_replies(speed, replies.take(i)),
        ) == Some(packet) && replies[i] == Some(bytes)
}

/// What was heard stays heard.
proof fn lemma_heard_stays(
    speed: UsbSpeed,
    replies: Seq<Option<Seq<u8>>>,
    packet: SetupPacket,
    bytes: Seq<u8>,
)
    requires
        replies.len() > 0,
        heard(speed, replies.drop_last(), packet, bytes),
    ensures
        heard(speed, replies, packet, bytes),
{
    let before = replies.drop_last();
    let i = choose|i: int|
        0 <= i < before.len() && next_request(
            #[trigger] after_replies(speed, before.take(i)),
        ) == Some(packet) && before[i] == Some(bytes);
    assert(before.take(i) =~= replies.take(i));
    assert(next_request(after_replies(speed, replies.take(i))) == Some(packet));
}

/// The last reply was heard as the answer to what was asked for last.
proof fn lemma_last_is_heard(
    speed: UsbSpeed,
    replies: Seq<Option<Seq<u8>>>,
    packet: SetupPacket,
    bytes: Seq<u8>,
)
    requires
        replies.len() > 0,
        next_request(after_replies(speed, replies.drop_last())) == Some(packet),
        replies.last() == Some(bytes),
    ensures
        heard(speed, replies, packet, bytes),
{
    let i = replies.len() - 1;
    assert(replies.take(i) =~= replies.drop_last());
    assert(next_request(after_replies(speed, replies.take(i))) == Some(packet));
}

/// The request for a string.
pub open spec fn string_request(string: StringModel) -> SetupPacket {
    descriptor_request(USB_DT_STRING, string.index, string.language_id, 255)
}

/// Whether a conversation has come past the configuration.
spec fn past_configuration(stage: Stage) -> bool {
    match stage {
        Stage::Device | Stage::Languages | Stage::ConfigurationHeader | Stage::Configuration
        | Stage::Failed(_) => false,
        _ => true,
    }
}

/// Whether all that a conversation holds was heard.
spec fn all_heard(speed: UsbSpeed, replies: Seq<Option<Seq<u8>>>) -> bool {
    let state = after_replies(speed, replies);
    &&& !(state.stage is Device) && !(state.stage is Failed) ==> heard(
        speed,
        replies,
        descriptor_request(USB_DT_DEVICE, 0, 0, 18),
        state.device,
    )
    &&& past_configuration(state.stage) ==> state.configuration.len() <= 65535 && heard(
        speed,
        replies,
        descriptor_request(USB_DT_CONFIGURATION, 0, 0, state.configuration.len() as u16),
        state.configuration,
    )
    &&& forall|k: int|
        0 <= k < state.strings.len() ==> heard(
            speed,
            replies,
            string_request(#[trigger] state.strings[k]),
            state.strings[k].descriptor,
        )
}

/// What one reply adds to what a conversation holds.
#[verifier::rlimit(40)]
proof fn lemma_reply_adds(before: DiscoveryModel, reply: Option<Seq<u8>>)
    ensures
        ({
            let after = after_reply(before, reply);
            let asked = next_request(before);
            let newest = after.strings.last();
            let length = after.configuration.len();
            &&& !(after.stage is Device) && !(after.stage is Failed) ==> {
                ||| asked == Some(descriptor_request(USB_DT_DEVICE, 0, 0, 18)) && reply == Some(
                    after.device,
                )
                ||| !(before.stage is Device) && !(before.stage is Failed) && after.device
                    == before.device
            }
            &&& past_configuration(after.stage) ==> {
                ||| length <= 65535 && asked == Some(
                    descriptor_request(USB_DT_CONFIGURATION, 0, 0, length as u16),
                ) && reply == Some(after.configuration)
                ||| past_configuration(before.stage) && after.configuration
                    == before.configuration
            }
            &&& {
                ||| after.strings == before.strings
                ||| (after.strings == before.strings.push(newest) || after.strings == seq![newest])
                    && asked == Some(string_request(newest)) && reply == Some(newest.descriptor)
            }
        }),
{
    reveal(after_reply);
    reveal(next_request);
    let after = after_reply(before, reply);
    if let Some(bytes) = reply {
        match before.stage {
            Stage::Languages => {
                if !(after.stage is Failed) {
                    assert(after.strings =~= seq![after.strings.last()]);
                }
            },
            Stage::Text => {
                if !(after.stage is Failed) {
                    assert(after.strings =~= before.strings.push(after.strings.last()));
                }
            },
            Stage::OsText => {
                if !(after.stage is Failed) {
                    assert(after.strings =~= before.strings.push(after.strings.last()));
                }
            },
            _ => {},
        }
    }
}

proof fn lemma_all_heard(speed: UsbSpeed, replies: Seq<Option<Seq<u8>>>)
    ensures
        all_heard(speed, replies),
    decreases replies.len(),
{
    if replies.len() > 0 {
        let init = replies.drop_last();
        lemma_all_heard(speed, init);
        let before = after_replies(speed, init);
        let after = after_replies(speed, replies);
        let reply = replies.last();
        lemma_reply_adds(before, reply);
        let device_packet = descriptor_request(USB_DT_DEVICE, 0, 0, 18);
        if !(after.stage is Device) && !(after.stage is Failed) {
            if next_request(before) == Some(device_packet) && reply == Some(after.device) {
                lemma_last_is_heard(speed, replies, device_packet, after.device);
            } else {
                lemma_heard_stays(speed, replies, device_packet, before.device);
            }
        }
        if past_configuration(after.stage) {
            let packet = descriptor_request(
                USB_DT_CONFIGURATION,
                0,
                0,
                after.configuration.len() as u16,
            );
            if next_request(before) == Some(packet) && reply == Some(after.configuration)
                && after.configuration.len() <= 65535 {
                lemma_last_is_heard(speed, replies, packet, after.configuration);
            } else {
                lemma_heard_stays(speed, replies, packet, before.configuration);
            }
        }
        assert forall|k: int| 0 <= k < after.strings.len() implies heard(
            speed,
            replies,
            string_request(#[trigger] after.strings[k]),
            after.strings[k].descriptor,
        ) by {
            let string = after.strings[k];
            if k < before.strings.len() && before.strings[k] == string {
                lemma_heard_stays(speed, replies, string_request(string), string.descriptor);
            } else {
                assert(string == after.strings.last());
                lemma_last_is_heard(speed, replies, string_request(string), string.descriptor);
            }
        }
    }
}

/// A discovered personality holds the firmware's own descriptors, byte for byte: the device
/// descriptor, the configuration and every string are what the firmware answered to the request
/// for it.
pub proof fn lemma_discovered_bytes_are_replies(speed: UsbSpeed, replies: Seq<Option<Seq<u8>>>)
    requires
        after_replies(speed, replies).stage == Stage::Complete,
        concluded(after_replies(speed, replies)) is Ok,
    ensures
        ({
            let personality = concluded(after_replies(speed, replies))->Ok_0;
            &&& personality.max_speed == after_replies(speed, replies).speed
            &&& heard(
                speed,
                replies,
                descriptor_request(USB_DT_DEVICE, 0, 0, 18),
                personality.device,
            )
            &&& heard(
                speed,
                replies,
                descriptor_request(
                    USB_DT_CONFIGURATION,
                    0,
                    0,
                    personality.configuration.len() as u16,
                ),
                personality.configuration,
            )
            &&& forall|k: int|
                0 <= k < personality.strings.len() ==> heard(
                    speed,
                    replies,
                    string_request(#[trigger] personality.strings[k]),
                    personality.strings[k].descriptor,
                )
        }),
{
    lemma_all_heard(speed, replies);
    reveal(concluded);
}

} // verus!
