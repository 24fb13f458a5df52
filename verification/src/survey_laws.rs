//! Which strings a discovery asks for, and why no string is missing afterwards.

use crate::conversation::{
    after_replies, after_reply, concluded, leading_indices, survey, text_key, text_total,
    with_index, words_of, DiscoveryModel, Stage,
};
use crate::discovery::lemma_text_position;
use crate::discovery_laws::{key_of, lemma_strings_in_order};
use crate::microsoft::{
    compatible_features, compatible_id_section, microsoft_projection, os_descriptor_count,
    properties_error, property_groups, property_interfaces, os_header, compatible_id_bytes,
    property_count, property_features,
};
use crate::bytes::low_word;
use crate::personality::{CompatibleIdModel, PersonalityModel, PropertyModel, StringModel, UsbSpeed};
use crate::sets::{ascending_bytes, ascending_words, lemma_ascending_bytes, lemma_ascending_words};
use crate::usb_personality::{
    find_string, first_language, identity_of, nothing_rewritten, projected, projected_configuration,
    rewrite, rewrite_descriptor, text_of, text_run, Rewritten,
};
use crate::walk_laws::{
    interface_on, lemma_interface_shift, lemma_rewritten, lemma_walk_grows, lemma_walk_parts,
    named_on, numbered_on, walk,
};
use vstd::prelude::*;

verus! {

/// Whether the device descriptor, the configuration's first descriptor or one of its interfaces
/// uses this string index.
pub open spec fn names_string(device: Seq<u8>, configuration: Seq<u8>, index: u8) -> bool {
    &&& index != 0
    &&& {
        ||| device[14] == index
        ||| device[15] == index
        ||| device[16] == index
        ||| configuration[6] == index
        ||| named_on(configuration, 9, index)
    }
}

/// Whether a language descriptor offers this language.
pub open spec fn offers_language(descriptor: Seq<u8>, language: u16) -> bool {
    exists|k: int|
        0 <= k && 2 * k + 4 <= descriptor.len() && #[trigger] descriptor[2 * k + 2] + 256
            * descriptor[2 * k + 3] == language
}

/// A survey finds the string indices and the numbers of exactly the interfaces that stand in a
/// configuration.
pub proof fn lemma_survey_finds_every_interface(
    bytes: Seq<u8>,
    offset: int,
    interfaces: Set<u8>,
    indices: Set<u8>,
)
    requires
        0 <= offset <= bytes.len(),
        survey(bytes, offset, interfaces, indices) is Ok,
    ensures
        forall|number: u8| #[trigger]
            (survey(bytes, offset, interfaces, indices)->Ok_0).0.contains(number)
                <==> interfaces.contains(number) || numbered_on(bytes, offset, number),
        forall|index: u8| #[trigger]
            (survey(bytes, offset, interfaces, indices)->Ok_0).1.contains(index)
                <==> indices.contains(index) || named_on(bytes, offset, index),
    decreases bytes.len() - offset,
{
    let found = survey(bytes, offset, interfaces, indices)->Ok_0;
    if offset >= bytes.len() {
        assert(walk(bytes, offset) =~= seq![]);
        assert forall|at: int| !(#[trigger] interface_on(bytes, offset, at)) by {}
    } else {
        let next = offset + bytes[offset];
        let is_interface = bytes[offset + 1] == 4;
        let grown = if is_interface {
            interfaces.insert(bytes[offset + 2])
        } else {
            interfaces
        };
        let named = if is_interface {
            with_index(indices, bytes[offset + 8])
        } else {
            indices
        };
        assert(survey(bytes, offset, interfaces, indices) == survey(bytes, next, grown, named));
        lemma_survey_finds_every_interface(bytes, next, grown, named);
        assert forall|number: u8| #[trigger] found.0.contains(number) <==> interfaces.contains(
            number,
        ) || numbered_on(bytes, offset, number) by {
            lemma_numbers_parted(bytes, offset, number);
            assert(grown.contains(number) <==> interfaces.contains(number) || (is_interface
                && bytes[offset + 2] == number));
        }
        assert forall|index: u8| #[trigger] found.1.contains(index) <==> indices.contains(index)
            || named_on(bytes, offset, index) by {
            lemma_names_parted(bytes, offset, index);
            assert(named.contains(index) <==> indices.contains(index) || (is_interface
                && bytes[offset + 8] == index && index != 0));
        }
    }
}

/// Whether descriptors follow each other to the end of a configuration, whole, with nine bytes for
/// an interface.
pub open spec fn surveyable(bytes: Seq<u8>, from: int) -> bool
    decreases bytes.len() - from,
{
    from >= bytes.len() || {
        &&& 0 <= from
        &&& from + 2 <= bytes.len()
        &&& 2 <= bytes[from] <= bytes.len() - from
        &&& bytes[from + 1] == 4 ==> bytes[from] >= 9
        &&& surveyable(bytes, from + bytes[from])
    }
}

/// A configuration is surveyed exactly where its descriptors follow each other to its end.
pub proof fn lemma_surveys_succeed(
    bytes: Seq<u8>,
    offset: int,
    interfaces: Set<u8>,
    indices: Set<u8>,
)
    requires
        0 <= offset,
    ensures
        survey(bytes, offset, interfaces, indices) is Ok <==> surveyable(bytes, offset),
    decreases bytes.len() - offset,
{
    if offset + 2 <= bytes.len() && 2 <= bytes[offset] <= bytes.len() - offset {
        lemma_surveys_succeed(bytes, offset + bytes[offset], interfaces, indices);
        lemma_surveys_succeed(
            bytes,
            offset + bytes[offset],
            interfaces.insert(bytes[offset + 2]),
            with_index(indices, bytes[offset + 8]),
        );
    }
}

proof fn lemma_numbers_parted(bytes: Seq<u8>, offset: int, number: u8)
    requires
        0 <= offset,
        offset + 2 <= bytes.len(),
        2 <= bytes[offset] <= bytes.len() - offset,
    ensures
        numbered_on(bytes, offset, number) <==> (bytes[offset + 1] == 4 && bytes[offset + 2]
            == number) || numbered_on(bytes, offset + bytes[offset], number),
{
    let next = offset + bytes[offset];
    lemma_walk_parts(bytes, offset, offset);
    if bytes[offset + 1] == 4 && bytes[offset + 2] == number {
        assert(interface_on(bytes, offset, offset));
    }
    if numbered_on(bytes, next, number) {
        let at = choose|at: int| #[trigger]
            interface_on(bytes, next, at) && bytes[at + 2] == number;
        lemma_walk_parts(bytes, offset, at);
        assert(interface_on(bytes, offset, at));
    }
    if numbered_on(bytes, offset, number) {
        let at = choose|at: int| #[trigger]
            interface_on(bytes, offset, at) && bytes[at + 2] == number;
        lemma_walk_parts(bytes, offset, at);
        if at != offset {
            assert(interface_on(bytes, next, at));
        }
    }
}

proof fn lemma_names_parted(bytes: Seq<u8>, offset: int, index: u8)
    requires
        0 <= offset,
        offset + 2 <= bytes.len(),
        2 <= bytes[offset] <= bytes.len() - offset,
        bytes[offset + 1] == 4 ==> bytes[offset] >= 9,
    ensures
        named_on(bytes, offset, index) <==> (bytes[offset + 1] == 4 && bytes[offset + 8] == index
            && index != 0) || named_on(bytes, offset + bytes[offset], index),
{
    let next = offset + bytes[offset];
    lemma_walk_parts(bytes, offset, offset);
    if bytes[offset + 1] == 4 && bytes[offset + 8] == index && index != 0 {
        assert(interface_on(bytes, offset, offset));
    }
    if named_on(bytes, next, index) {
        let at = choose|at: int| #[trigger]
            interface_on(bytes, next, at) && at + 9 <= bytes.len() && bytes[at + 8] == index;
        lemma_walk_parts(bytes, offset, at);
        assert(interface_on(bytes, offset, at));
    }
    if named_on(bytes, offset, index) {
        let at = choose|at: int| #[trigger]
            interface_on(bytes, offset, at) && at + 9 <= bytes.len() && bytes[at + 8] == index;
        lemma_walk_parts(bytes, offset, at);
        if at != offset {
            assert(interface_on(bytes, next, at));
        }
    }
}

/// What a conversation knows at each stage of the strings in use.
spec fn knows_strings(state: DiscoveryModel) -> bool {
    let past_device = !(state.stage is Device) && !(state.stage is Failed);
    let past_languages = past_device && !(state.stage is Languages);
    let past_configuration = past_languages && !(state.stage is ConfigurationHeader) && !(
    state.stage is Configuration);
    &&& past_device ==> state.device.len() == 18
    &&& past_languages ==> {
        let descriptor = state.strings[0].descriptor;
        &&& state.strings.len() > 0
        &&& descriptor.len() >= 4
        &&& descriptor.len() % 2 == 0
        &&& state.languages == ascending_words(words_of(descriptor.skip(2)))
    }
    &&& past_configuration ==> {
        let found = survey(
            state.configuration,
            9,
            Set::empty(),
            leading_indices(state.device, state.configuration),
        );
        &&& found is Ok
        &&& state.configuration.len() >= 9
        &&& state.indices == ascending_bytes((found->Ok_0).1)
        &&& state.interfaces == ascending_bytes((found->Ok_0).0)
    }
    &&& state.stage is Configuration ==> state.length >= 9
}

#[verifier::rlimit(60)]
proof fn lemma_reply_keeps_knowledge(state: DiscoveryModel, reply: Option<Seq<u8>>)
    requires
        knows_strings(state),
    ensures
        knows_strings(after_reply(state, reply)),
{
    reveal(after_reply);
    let after = after_reply(state, reply);
    if let Some(bytes) = reply {
        match state.stage {
            Stage::Device => {},
            Stage::Languages => {},
            Stage::ConfigurationHeader => {},
            Stage::Configuration => {},
            Stage::Text => {
                if !(after.stage is Failed) {
                    assert(after.strings[0] == state.strings[0]);
                }
            },
            Stage::OsText => {
                if !(after.stage is Failed) {
                    assert(after.strings[0] == state.strings[0]);
                }
            },
            _ => {
                lemma_later_reply(state, reply);
            },
        }
    } else {
        lemma_later_reply(state, reply);
    }
}

#[verifier::rlimit(60)]
proof fn lemma_later_reply(state: DiscoveryModel, reply: Option<Seq<u8>>)
    requires
        knows_strings(state),
        reply is None || !(state.stage is Device || state.stage is Languages || state.stage is
            ConfigurationHeader || state.stage is Configuration || state.stage is Text
            || state.stage is OsText),
    ensures
        knows_strings(after_reply(state, reply)),
{
    reveal(after_reply);
    let after = after_reply(state, reply);
    assert(after.strings == state.strings);
    assert(after.device == state.device);
    assert(after.configuration == state.configuration);
    assert(after.languages == state.languages);
    assert(after.indices == state.indices);
    assert(after.interfaces == state.interfaces);
}

proof fn lemma_knows_strings(speed: UsbSpeed, replies: Seq<Option<Seq<u8>>>)
    ensures
        knows_strings(after_replies(speed, replies)),
    decreases replies.len(),
{
    if replies.len() > 0 {
        lemma_knows_strings(speed, replies.drop_last());
        lemma_reply_keeps_knowledge(after_replies(speed, replies.drop_last()), replies.last());
    }
}

proof fn lemma_language_offered(descriptor: Seq<u8>, language: u16)
    requires
        descriptor.len() >= 4,
        descriptor.len() % 2 == 0,
    ensures
        ascending_words(words_of(descriptor.skip(2))).contains(language) <==> offers_language(
            descriptor,
            language,
        ),
{
    let words = words_of(descriptor.skip(2));
    let sorted = ascending_words(words);
    lemma_ascending_words(words);
    assert(sorted.contains(language) <==> sorted.to_set().contains(language));
    assert(words.contains(language) <==> words.to_set().contains(language));
    if words.contains(language) {
        let k = choose|k: int| 0 <= k < words.len() && words[k] == language;
        assert(descriptor[2 * k + 2] + 256 * descriptor[2 * k + 3] == language);
    }
    if offers_language(descriptor, language) {
        let k = choose|k: int|
            0 <= k && 2 * k + 4 <= descriptor.len() && #[trigger] descriptor[2 * k + 2] + 256
                * descriptor[2 * k + 3] == language;
        assert(words[k] == language);
    }
}

proof fn lemma_indices_named(state: DiscoveryModel, index: u8)
    requires
        knows_strings(state),
        state.stage == Stage::Complete,
    ensures
        state.indices.contains(index) <==> names_string(state.device, state.configuration, index),
{
    let leading = leading_indices(state.device, state.configuration);
    let found = survey(state.configuration, 9, Set::empty(), leading)->Ok_0;
    lemma_survey_finds_every_interface(state.configuration, 9, Set::empty(), leading);
    lemma_ascending_bytes(found.1);
    assert(state.indices.contains(index) <==> found.1.contains(index));
    assert(leading.contains(index) <==> index != 0 && (state.device[14] == index
        || state.device[15] == index || state.device[16] == index || state.configuration[6]
        == index));
}

/// Whether a personality has a string under this index and language.
pub open spec fn has_string(personality: PersonalityModel, index: u8, language: u16) -> bool {
    exists|k: int|
        0 <= k < personality.strings.len() && (#[trigger] personality.strings[k]).index == index
            && personality.strings[k].language_id == language
}

/// A discovered personality has every string that its device descriptor, its configuration or one
/// of its interfaces uses, in every language that its language descriptor offers.
pub proof fn lemma_every_named_string_is_discovered(
    speed: UsbSpeed,
    replies: Seq<Option<Seq<u8>>>,
    index: u8,
    language: u16,
)
    requires
        after_replies(speed, replies).stage == Stage::Complete,
        concluded(after_replies(speed, replies)) is Ok,
        ({
            let personality = concluded(after_replies(speed, replies))->Ok_0;
            &&& names_string(personality.device, personality.configuration, index)
            &&& offers_language(personality.strings[0].descriptor, language)
        }),
    ensures
        has_string(concluded(after_replies(speed, replies))->Ok_0, index, language),
{
    reveal(concluded);
    let state = after_replies(speed, replies);
    lemma_knows_strings(speed, replies);
    lemma_strings_in_order(speed, replies);
    lemma_indices_named(state, index);
    lemma_language_offered(state.strings[0].descriptor, language);
    let i = choose|i: int| 0 <= i < state.indices.len() && state.indices[i] == index;
    let j = choose|j: int| 0 <= j < state.languages.len() && state.languages[j] == language;
    let count = state.indices.len() as int;
    let k = j * count + i;
    assert(0 <= k < text_total(state) && k / count == j && k % count == i) by (nonlinear_arith)
        requires
            0 <= i < count,
            0 <= j < state.languages.len(),
            count == state.indices.len(),
            k == j * count + i,
            text_total(state) == state.languages.len() * state.indices.len(),
    ;
    assert(text_key(state, k as nat) == (index, language));
    assert(key_of(state.strings[k + 1]) == text_key(state, k as nat));
    let personality = concluded(state)->Ok_0;
    assert(personality.strings[k + 1].index == index);
}

/// A discovered personality has no other strings: the first is its language descriptor, the last
/// may be that for Windows, and each between them is used and in a language that is offered.
pub proof fn lemma_no_other_string_is_discovered(
    speed: UsbSpeed,
    replies: Seq<Option<Seq<u8>>>,
    k: int,
)
    requires
        after_replies(speed, replies).stage == Stage::Complete,
        concluded(after_replies(speed, replies)) is Ok,
        0 <= k < (concluded(after_replies(speed, replies))->Ok_0).strings.len(),
    ensures
        ({
            let personality = concluded(after_replies(speed, replies))->Ok_0;
            let string = personality.strings[k];
            let last = personality.strings.len() - 1;
            if k == 0 {
                string.index == 0 && string.language_id == 0
            } else if k == last && personality.microsoft is Some {
                string.index == 238 && string.language_id == 0
            } else {
                names_string(personality.device, personality.configuration, string.index)
                    && offers_language(personality.strings[0].descriptor, string.language_id)
            }
        }),
{
    reveal(concluded);
    let state = after_replies(speed, replies);
    let personality = concluded(state)->Ok_0;
    lemma_knows_strings(speed, replies);
    lemma_strings_in_order(speed, replies);
    if 0 < k && !(k == personality.strings.len() - 1 && personality.microsoft is Some) {
        let at = (k - 1) as nat;
        assert(key_of(state.strings[(k - 1) + 1]) == text_key(state, at));
        lemma_text_position(state.languages.len(), state.indices.len(), at);
        let (index, language) = text_key(state, at);
        assert(state.indices.contains(index));
        assert(state.languages.contains(language));
        lemma_indices_named(state, index);
        lemma_language_offered(state.strings[0].descriptor, language);
    }
}

/// A string that is there is found, and what is found is the first under its index and language.
pub proof fn lemma_strings_are_found(strings: Seq<StringModel>, index: u8, language: u16)
    ensures
        find_string(strings, index, language) is None <==> forall|k: int|
            0 <= k < strings.len() ==> !((#[trigger] strings[k]).index == index
                && strings[k].language_id == language),
        find_string(strings, index, language) matches Some(descriptor) ==> exists|k: int|
            {
                &&& 0 <= k < strings.len()
                &&& (#[trigger] strings[k]).index == index
                &&& strings[k].language_id == language
                &&& strings[k].descriptor == descriptor
                &&& forall|j: int|
                    0 <= j < k ==> !((#[trigger] strings[j]).index == index
                        && strings[j].language_id == language)
            },
    decreases strings.len(),
{
    if strings.len() > 0 {
        let rest = strings.skip(1);
        if strings[0].index == index && strings[0].language_id == language {
            assert(strings[0].descriptor == find_string(strings, index, language)->0);
        } else {
            lemma_strings_are_found(rest, index, language);
            if find_string(rest, index, language) is Some {
                let k = choose|k: int|
                    {
                        &&& 0 <= k < rest.len()
                        &&& (#[trigger] rest[k]).index == index
                        &&& rest[k].language_id == language
                        &&& rest[k].descriptor == find_string(rest, index, language)->0
                        &&& forall|j: int|
                            0 <= j < k ==> !((#[trigger] rest[j]).index == index
                                && rest[j].language_id == language)
                    };
                assert(strings[k + 1] == rest[k]);
                assert forall|j: int| 0 <= j < k + 1 implies !((#[trigger] strings[j]).index
                    == index && strings[j].language_id == language) by {
                    if j > 0 {
                        assert(strings[j] == rest[j - 1]);
                    }
                }
            } else {
                assert forall|k: int| 0 <= k < strings.len() implies !((#[trigger] strings[k]).index
                    == index && strings[k].language_id == language) by {
                    if k > 0 {
                        assert(strings[k] == rest[k - 1]);
                    }
                }
            }
        }
    }
}

proof fn lemma_run_misses_nothing(
    strings: Seq<StringModel>,
    language: u16,
    indices: Seq<u8>,
    out: Seq<u8>,
)
    requires
        forall|k: int|
            0 <= k < indices.len() ==> find_string(strings, #[trigger] indices[k], language) is Some,
    ensures
        text_run(strings, language, indices, out) matches Err(error) ==> !(error is MissingString),
    decreases indices.len(),
{
    if indices.len() > 0 {
        assert(find_string(strings, indices[0], language) is Some);
        if let Ok(text) = text_of(strings, indices[0], language) {
            let rest = indices.skip(1);
            assert forall|k: int| 0 <= k < rest.len() implies find_string(
                strings,
                #[trigger] rest[k],
                language,
            ) is Some by {
                assert(rest[k] == indices[k + 1]);
            }
            lemma_run_misses_nothing(
                strings,
                language,
                rest,
                out + vstd::utf8::encode_utf8(text) + seq![0u8],
            );
        }
    }
}

proof fn lemma_rewrite_misses_nothing(bytes: Seq<u8>, offset: int, state: Rewritten)
    requires
        0 <= offset,
    ensures
        rewrite(bytes, offset, state) matches Err(error) ==> !(error is MissingString),
    decreases bytes.len() - offset,
{
    if offset < bytes.len() && offset + 2 <= bytes.len() && bytes[offset] >= 2 && offset
        + bytes[offset] <= bytes.len() {
        if let Ok(next) = rewrite_descriptor(
            state,
            bytes.subrange(offset, offset + bytes[offset]),
        ) {
            lemma_rewrite_misses_nothing(bytes, offset + bytes[offset], next);
        }
    }
}

proof fn lemma_features_miss_nothing(
    ids: Seq<CompatibleIdModel>,
    interfaces: Set<u8>,
    seen: Set<u8>,
    out: Seq<u8>,
)
    ensures
        compatible_features(ids, interfaces, seen, out) matches Err(error) ==> !(error is
            MissingString),
    decreases ids.len(),
{
    if ids.len() > 0 {
        lemma_features_miss_nothing(
            ids.skip(1),
            interfaces,
            seen.insert(ids[0].interface),
            out + compatible_id_bytes(ids[0]),
        );
    }
}

proof fn lemma_properties_miss_nothing(properties: Seq<PropertyModel>, interfaces: Set<u8>)
    ensures
        properties_error(properties, interfaces) matches Some(error) ==> !(error is MissingString),
    decreases properties.len(),
{
    if properties.len() > 0 {
        lemma_properties_miss_nothing(properties.skip(1), interfaces);
    }
}

proof fn lemma_groups_miss_nothing(
    properties: Seq<PropertyModel>,
    groups: Seq<u8>,
    out: Seq<u8>,
)
    ensures
        property_groups(properties, groups, out) matches Err(error) ==> !(error is MissingString),
    decreases groups.len(),
{
    if groups.len() > 0 {
        let features = property_features(properties, groups[0]);
        lemma_groups_miss_nothing(
            properties,
            groups.skip(1),
            out + os_header(
                groups[0],
                low_word(11 + features.len()),
                5,
                property_count(properties, groups[0]) as u16,
            ) + features,
        );
    }
}

proof fn lemma_count_misses_nothing(bytes: Seq<u8>, offset: int, count: nat)
    requires
        0 <= offset,
    ensures
        os_descriptor_count(bytes, offset, count) matches Err(error) ==> !(error is MissingString),
    decreases bytes.len() - offset,
{
    if offset + 5 <= bytes.len() {
        let length = crate::bytes::le32_at(bytes, offset + 1) as int;
        if 11 <= length <= bytes.len() - offset {
            lemma_count_misses_nothing(bytes, offset + length, count + 1);
        }
    }
}

/// A discovered personality is never refused for a string that is missing.
#[verifier::rlimit(60)]
pub proof fn lemma_discovered_personality_misses_no_string(
    speed: UsbSpeed,
    replies: Seq<Option<Seq<u8>>>,
)
    requires
        after_replies(speed, replies).stage == Stage::Complete,
        concluded(after_replies(speed, replies)) is Ok,
    ensures
        projected(concluded(after_replies(speed, replies))->Ok_0) matches Err(error) ==> !(error is
            MissingString),
{
    let bundle = concluded(after_replies(speed, replies))->Ok_0;
    let descriptor = bundle.strings[0].descriptor;
    let state = after_replies(speed, replies);
    lemma_knows_strings(speed, replies);
    lemma_strings_in_order(speed, replies);
    assert(bundle.strings == state.strings && bundle.device == state.device && bundle.configuration
        == state.configuration) by {
        reveal(concluded);
    }
    assert(key_of(bundle.strings[0]) == (0u8, 0u16));
    lemma_strings_are_found(bundle.strings, 0, 0);
    assert(find_string(bundle.strings, 0, 0) == Some(descriptor));
    if let Ok(language) = first_language(bundle.strings) {
        let k: int = 0;
        assert(descriptor[2 * k + 2] + 256 * descriptor[2 * k + 3] == language);
        assert(offers_language(descriptor, language));
        assert forall|index: u8| #[trigger]
            names_string(bundle.device, bundle.configuration, index) implies find_string(
            bundle.strings,
            index,
            language,
        ) is Some by {
            lemma_every_named_string_is_discovered(speed, replies, index, language);
            lemma_strings_are_found(bundle.strings, index, language);
        }
        lemma_identity_misses_nothing(bundle, language);
        if let Ok(identity) = identity_of(bundle.device, bundle.strings, language) {
            lemma_configuration_misses_nothing(bundle, identity, language);
        }
    }
}

proof fn lemma_identity_misses_nothing(bundle: PersonalityModel, language: u16)
    requires
        forall|index: u8| #[trigger]
            names_string(bundle.device, bundle.configuration, index) ==> find_string(
                bundle.strings,
                index,
                language,
            ) is Some,
    ensures
        identity_of(bundle.device, bundle.strings, language) matches Err(error) ==> !(error is
            MissingString),
{
    let device = bundle.device;
    let configuration = bundle.configuration;
    assert(device[14] != 0 ==> names_string(device, configuration, device[14]));
    assert(device[15] != 0 ==> names_string(device, configuration, device[15]));
    assert(device[16] != 0 ==> names_string(device, configuration, device[16]));
}

#[verifier::rlimit(60)]
proof fn lemma_configuration_misses_nothing(
    bundle: PersonalityModel,
    identity: crate::usb_personality::IdentityModel,
    language: u16,
)
    requires
        bundle.configuration.len() >= 9,
        forall|index: u8| #[trigger]
            names_string(bundle.device, bundle.configuration, index) ==> find_string(
                bundle.strings,
                index,
                language,
            ) is Some,
    ensures
        projected_configuration(identity, language, bundle) matches Err(error) ==> !(error is
            MissingString),
{
    let configuration = bundle.configuration;
    let body = configuration.skip(9);
    let start = nothing_rewritten();
    lemma_rewrite_misses_nothing(body, 0, start);
    if let Ok(end) = rewrite(body, 0, start) {
        lemma_rewritten(body, 0, start);
        assert forall|k: int| 0 <= k < end.originals.len() implies find_string(
            bundle.strings,
            #[trigger] end.originals[k],
            language,
        ) is Some by {
            let index = end.originals[k];
            assert(named_on(body, 0, index));
            let at = choose|at: int| #[trigger]
                interface_on(body, 0, at) && at + 9 <= body.len() && body[at + 8] == index;
            lemma_interface_shift(configuration, at);
            let inner = walk(body, 0);
            let i = choose|i: int| 0 <= i < inner.len() && inner[i] == at;
            lemma_walk_grows(body, 0, i);
            assert(interface_on(configuration, 9, at + 9));
            assert(configuration[at + 9 + 8] == index);
            assert(named_on(configuration, 9, index));
            assert(names_string(bundle.device, configuration, index));
        }
        let head = if end.originals.len() == 0 {
            seq![]
        } else {
            crate::bytes::le16(language)
        };
        lemma_run_misses_nothing(bundle.strings, language, end.originals, head);
        lemma_windows_misses_nothing(bundle, end.interfaces);
        if let Ok((_, os)) = microsoft_projection(bundle.microsoft, end.interfaces) {
            lemma_count_misses_nothing(os, 0, 0);
        }
    }
}

proof fn lemma_windows_misses_nothing(bundle: PersonalityModel, interfaces: Set<u8>)
    ensures
        microsoft_projection(bundle.microsoft, interfaces) matches Err(error) ==> !(error is
            MissingString),
{
    if let Some(declaration) = bundle.microsoft {
        let ids = declaration.compatible_ids;
        let properties = declaration.registry_properties;
        if ids.len() > 0 {
            lemma_features_miss_nothing(
                ids,
                interfaces,
                Set::empty(),
                os_header(ids[0].interface, (11 + 24 * ids.len()) as u32, 4, ids.len() as u16),
            );
        }
        lemma_properties_miss_nothing(properties, interfaces);
        if let Ok(section) = compatible_id_section(ids, interfaces) {
            lemma_groups_miss_nothing(
                properties,
                ascending_bytes(property_interfaces(properties)),
                section,
            );
        }
    }
}

} // verus!
