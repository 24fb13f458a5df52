//! Why personalities are refused: never without a cause in their own bytes.

use crate::bytes::{le16, le32_at, low_word};
use crate::microsoft::{
    compatible_features, compatible_id_bytes, compatible_id_section, identifier_valid,
    microsoft_projection, os_descriptor_count, os_header, properties_error, property_count,
    property_error, property_features, property_groups, property_interfaces,
};
use crate::personality::{CompatibleIdModel, PersonalityModel, PropertyModel, StringModel};
use crate::sets::ascending_bytes;
use crate::survey_laws::{has_string, lemma_strings_are_found};
use crate::text::encode_utf16;
use crate::usb_personality::{
    configuration_error, device_error, discovered, distinct_strings, find_string, first_language,
    identity_of, landing_page_valid, nothing_rewritten, projected, projected_configuration, rewrite,
    rewrite_descriptor, text_of, text_run, IdentityModel, ProjectionError, ProjectionModel,
    Rewritten,
};
use vstd::prelude::*;
use vstd::utf8::encode_utf8;

verus! {

/// Whether an error is about the descriptors of a configuration.
pub open spec fn walk_fault(error: ProjectionError) -> bool {
    error is TruncatedDescriptor || error is DescriptorLength || error is ShortInterface || error is
        ShortEndpoint || error is TooManyFunctionStrings
}

/// Whether an error is about a text.
pub open spec fn text_fault(error: ProjectionError) -> bool {
    error is MissingString || error is InvalidString || error is StringEncoding || error is
        EmbeddedNul
}

/// Whether an error is about a declaration for Windows.
pub open spec fn windows_fault(error: ProjectionError) -> bool {
    error is ZeroVendorCode || error is TooManyCompatibleIds || error is CompatibleIdInterface
        || error is CompatibleIdText || error is PropertyTarget || error is PropertyNameTooLong
        || error is PropertyTooLarge || error is TooManyProperties
}

/// Whether an error is about the size of a blob.
pub open spec fn blob_fault(error: ProjectionError) -> bool {
    error is TruncatedOsDescriptor || error is OsDescriptorLength || error is BlobTooLarge
}

/// Whether the descriptors of a configuration follow each other to its end, whole, with nine bytes
/// for an interface and seven for an endpoint.
pub open spec fn whole_descriptors(bytes: Seq<u8>, from: int) -> bool
    decreases bytes.len() - from,
{
    from == bytes.len() || {
        &&& 0 <= from
        &&& from + 2 <= bytes.len()
        &&& 2 <= bytes[from] <= bytes.len() - from
        &&& bytes[from + 1] == 4 ==> bytes[from] >= 9
        &&& bytes[from + 1] == 5 ==> bytes[from] >= 7
        &&& whole_descriptors(bytes, from + bytes[from])
    }
}

proof fn lemma_rewrite_fails(bytes: Seq<u8>, offset: int, state: Rewritten)
    requires
        0 <= offset <= bytes.len(),
    ensures
        rewrite(bytes, offset, state) matches Err(error) ==> walk_fault(error) && (error is
            TooManyFunctionStrings || !whole_descriptors(bytes, offset)),
        rewrite(bytes, offset, state) is Ok ==> whole_descriptors(bytes, offset),
    decreases bytes.len() - offset,
{
    if offset < bytes.len() && offset + 2 <= bytes.len() && bytes[offset] >= 2 && offset
        + bytes[offset] <= bytes.len() {
        let descriptor = bytes.subrange(offset, offset + bytes[offset]);
        assert(descriptor[1] == bytes[offset + 1]);
        if let Ok(next) = rewrite_descriptor(state, descriptor) {
            lemma_rewrite_fails(bytes, offset + bytes[offset], next);
        }
    }
}

proof fn lemma_run_fails(
    strings: Seq<StringModel>,
    language: u16,
    indices: Seq<u8>,
    out: Seq<u8>,
)
    ensures
        text_run(strings, language, indices, out) matches Err(error) ==> text_fault(error) && (error
            matches ProjectionError::MissingString(index) ==> find_string(
            strings,
            index,
            language,
        ) is None && indices.contains(index)),
    decreases indices.len(),
{
    if indices.len() > 0 {
        if let Ok(text) = text_of(strings, indices[0], language) {
            let rest = indices.skip(1);
            lemma_run_fails(strings, language, rest, out + encode_utf8(text) + seq![0u8]);
            if let Err(ProjectionError::MissingString(index)) = text_run(
                strings,
                language,
                indices,
                out,
            ) {
                let k = choose|k: int| 0 <= k < rest.len() && rest[k] == index;
                assert(indices[k + 1] == index);
            }
        } else {
            assert(indices.contains(indices[0]));
        }
    }
}

proof fn lemma_features_fail(
    ids: Seq<CompatibleIdModel>,
    interfaces: Set<u8>,
    seen: Set<u8>,
    out: Seq<u8>,
)
    ensures
        compatible_features(ids, interfaces, seen, out) matches Err(error) ==> {
            &&& error is CompatibleIdInterface || error is CompatibleIdText
            &&& error is CompatibleIdText ==> exists|i: int|
                0 <= i < ids.len() && !(identifier_valid((#[trigger] ids[i]).compatible_id)
                    && identifier_valid(ids[i].sub_compatible_id))
            &&& error is CompatibleIdInterface ==> exists|i: int|
                0 <= i < ids.len() && (!interfaces.contains((#[trigger] ids[i]).interface)
                    || seen.contains(ids[i].interface) || exists|j: int|
                    0 <= j < i && (#[trigger] ids[j]).interface == ids[i].interface)
        },
    decreases ids.len(),
{
    if ids.len() > 0 {
        let rest = ids.skip(1);
        let seen_next = seen.insert(ids[0].interface);
        lemma_features_fail(rest, interfaces, seen_next, out + compatible_id_bytes(ids[0]));
        if let Err(error) = compatible_features(ids, interfaces, seen, out) {
            if !interfaces.contains(ids[0].interface) || seen.contains(ids[0].interface) {
                assert(!interfaces.contains(ids[0].interface) || seen.contains(ids[0].interface));
            } else if !identifier_valid(ids[0].compatible_id) || !identifier_valid(
                ids[0].sub_compatible_id,
            ) {
                assert(!(identifier_valid(ids[0].compatible_id) && identifier_valid(
                    ids[0].sub_compatible_id,
                )));
            } else if error is CompatibleIdText {
                let i = choose|i: int|
                    0 <= i < rest.len() && !(identifier_valid((#[trigger] rest[i]).compatible_id)
                        && identifier_valid(rest[i].sub_compatible_id));
                assert(ids[i + 1] == rest[i]);
            } else {
                let i = choose|i: int|
                    0 <= i < rest.len() && (!interfaces.contains((#[trigger] rest[i]).interface)
                        || seen_next.contains(rest[i].interface) || exists|j: int|
                        0 <= j < i && (#[trigger] rest[j]).interface == rest[i].interface);
                assert(ids[i + 1] == rest[i]);
                if exists|j: int| 0 <= j < i && (#[trigger] rest[j]).interface
                    == rest[i].interface {
                    let j = choose|j: int|
                        0 <= j < i && (#[trigger] rest[j]).interface == rest[i].interface;
                    assert(ids[j + 1] == rest[j]);
                } else if seen_next.contains(rest[i].interface) && !seen.contains(
                    rest[i].interface,
                ) {
                    assert(ids[0].interface == ids[i + 1].interface);
                }
            }
        }
    }
}

proof fn lemma_properties_fail(properties: Seq<PropertyModel>, interfaces: Set<u8>)
    ensures
        properties_error(properties, interfaces) matches Some(error) ==> {
            &&& error is PropertyTarget || error is PropertyNameTooLong || error is PropertyTooLarge
            &&& error is PropertyTarget ==> exists|i: int|
                0 <= i < properties.len() && (!interfaces.contains(
                    (#[trigger] properties[i]).interface,
                ) || properties[i].name.contains('\0'))
            &&& error is PropertyNameTooLong ==> exists|i: int|
                0 <= i < properties.len() && 2 * encode_utf16(
                    (#[trigger] properties[i]).name,
                ).len() + 2 > 65535
        },
    decreases properties.len(),
{
    if properties.len() > 0 {
        let rest = properties.skip(1);
        lemma_properties_fail(rest, interfaces);
        if property_error(properties[0], interfaces) is None {
            if let Some(error) = properties_error(properties, interfaces) {
                if error is PropertyTarget {
                    let i = choose|i: int|
                        0 <= i < rest.len() && (!interfaces.contains(
                            (#[trigger] rest[i]).interface,
                        ) || rest[i].name.contains('\0'));
                    assert(properties[i + 1] == rest[i]);
                }
                if error is PropertyNameTooLong {
                    let i = choose|i: int|
                        0 <= i < rest.len() && 2 * encode_utf16((#[trigger] rest[i]).name).len() + 2
                            > 65535;
                    assert(properties[i + 1] == rest[i]);
                }
            }
        } else {
            let first = properties[0];
            assert(first == properties[0]);
            assert(crate::microsoft::property_name(first.name).len() == encode_utf16(
                first.name,
            ).len() + 1);
        }
    }
}

proof fn lemma_groups_fail(properties: Seq<PropertyModel>, groups: Seq<u8>, out: Seq<u8>)
    ensures
        property_groups(properties, groups, out) matches Err(error) ==> error is TooManyProperties,
    decreases groups.len(),
{
    if groups.len() > 0 {
        let features = property_features(properties, groups[0]);
        lemma_groups_fail(
            properties,
            groups.skip(1),
            out + os_header(
                groups[0],
                low_word(11 + features.len()),
                5,
                property_count(properties, groups[0]) as u16,
            ) + features,
        );
    }
}

proof fn lemma_count_fails(bytes: Seq<u8>, offset: int, count: nat)
    requires
        0 <= offset,
    ensures
        os_descriptor_count(bytes, offset, count) matches Err(error) ==> error is
            TruncatedOsDescriptor || error is OsDescriptorLength,
    decreases bytes.len() - offset,
{
    if offset + 5 <= bytes.len() {
        let length = le32_at(bytes, offset + 1) as int;
        if 11 <= length <= bytes.len() - offset {
            lemma_count_fails(bytes, offset + length, count + 1);
        }
    }
}

/// What is wrong with a declaration for Windows that is refused, on a device with these interfaces.
pub open spec fn windows_cause(
    bundle: PersonalityModel,
    interfaces: Set<u8>,
    error: ProjectionError,
) -> bool {
    let declaration = bundle.microsoft->0;
    let ids = declaration.compatible_ids;
    let properties = declaration.registry_properties;
    &&& bundle.microsoft is Some
    &&& error is ZeroVendorCode ==> declaration.vendor_code == 0
    &&& error is TooManyCompatibleIds ==> ids.len() > 255
    &&& error is CompatibleIdText ==> exists|i: int|
        0 <= i < ids.len() && !(identifier_valid((#[trigger] ids[i]).compatible_id)
            && identifier_valid(ids[i].sub_compatible_id))
    &&& error is CompatibleIdInterface ==> exists|i: int|
        0 <= i < ids.len() && (!interfaces.contains((#[trigger] ids[i]).interface) || exists|j: int|
            0 <= j < i && (#[trigger] ids[j]).interface == ids[i].interface)
    &&& error is PropertyTarget ==> exists|i: int|
        0 <= i < properties.len() && (!interfaces.contains((#[trigger] properties[i]).interface)
            || properties[i].name.contains('\0'))
    &&& error is PropertyNameTooLong ==> exists|i: int|
        0 <= i < properties.len() && 2 * encode_utf16((#[trigger] properties[i]).name).len() + 2
            > 65535
}

#[verifier::rlimit(60)]
proof fn lemma_windows_fails(bundle: PersonalityModel, interfaces: Set<u8>)
    ensures
        microsoft_projection(bundle.microsoft, interfaces) matches Err(error) ==> windows_fault(
            error,
        ) && windows_cause(bundle, interfaces, error),
{
    if let Some(declaration) = bundle.microsoft {
        let ids = declaration.compatible_ids;
        let properties = declaration.registry_properties;
        if ids.len() > 0 {
            lemma_features_fail(
                ids,
                interfaces,
                Set::empty(),
                os_header(ids[0].interface, (11 + 24 * ids.len()) as u32, 4, ids.len() as u16),
            );
        }
        lemma_properties_fail(properties, interfaces);
        if let Ok(section) = compatible_id_section(ids, interfaces) {
            lemma_groups_fail(
                properties,
                ascending_bytes(property_interfaces(properties)),
                section,
            );
        }
    }
}

/// Whether a landing page can be shown: it is empty, or an HTTP or HTTPS address of ASCII
/// characters that fits into its descriptor.
pub open spec fn page_fits(page: Seq<char>) -> bool {
    &&& page.len() <= 252
    &&& forall|i: int| 0 <= i < page.len() ==> #[trigger] (page[i] as u32) < 128
    &&& page.len() == 0 || (page.len() >= 7 && page.take(7) == "http://"@) || (page.len() >= 8
        && page.take(8) == "https://"@)
}

proof fn lemma_page(page: Seq<char>)
    ensures
        landing_page_valid(page) <==> page_fits(page),
{
    reveal_strlit("http://");
    reveal_strlit("https://");
    assert("http://"@.len() == 7 && "https://"@.len() == 8);
    if page.len() >= 7 {
        assert(page.take(7) =~= page.subrange(0, 7));
    }
    if page.len() >= 8 {
        assert(page.take(8) =~= page.subrange(0, 8));
    }
}

/// A personality is refused only for a cause that its error names: a device or configuration
/// descriptor without its frame, no language, a string that is missing or no text, descriptors that
/// do not follow each other to the end, or a declaration that cannot be shown.
#[verifier::rlimit(100)]
pub proof fn lemma_refusals_have_causes(bundle: PersonalityModel)
    requires
        projected(bundle) is Err,
    ensures
        ({
            let error = projected(bundle)->Err_0;
            let device = bundle.device;
            let framed = device.len() == 18 && device[0] == 18 && device[1] == 1;
            error is InvalidDevice <==> !framed
        }),
        ({
            let error = projected(bundle)->Err_0;
            let device = bundle.device;
            let framed = device.len() == 18 && device[0] == 18 && device[1] == 1;
            error is ConfigurationCount <==> framed && device[17] != 1
        }),
        ({
            let error = projected(bundle)->Err_0;
            error is NoLanguages ==> !has_string(bundle, 0, 0)
        }),
        ({
            let error = projected(bundle)->Err_0;
            error is InvalidLanguages ==> has_string(bundle, 0, 0)
        }),
        ({
            let error = projected(bundle)->Err_0;
            let configuration = bundle.configuration;
            error is InvalidConfiguration ==> configuration.len() < 9 || configuration[0] != 9
                || configuration[1] != 2
        }),
        ({
            let error = projected(bundle)->Err_0;
            let configuration = bundle.configuration;
            error is ConfigurationLength ==> configuration[2] + 256 * configuration[3] < 9
        }),
        ({
            let error = projected(bundle)->Err_0;
            let configuration = bundle.configuration;
            error is UnsupportedConfiguration ==> configuration[5] != 1 || configuration[2] + 256
                * configuration[3] != configuration.len()
        }),
        ({
            let error = projected(bundle)->Err_0;
            error matches ProjectionError::MissingString(index) ==> exists|language: u16|
                !#[trigger] has_string(bundle, index, language)
        }),
        ({
            let error = projected(bundle)->Err_0;
            let configuration = bundle.configuration;
            walk_fault(error) ==> error is TooManyFunctionStrings || !whole_descriptors(
                configuration.skip(9),
                0,
            )
        }),
        ({
            let error = projected(bundle)->Err_0;
            windows_fault(error) ==> bundle.microsoft is Some && exists|interfaces: Set<u8>|
                #[trigger]
                windows_cause(bundle, interfaces, error)
        }),
        ({
            let error = projected(bundle)->Err_0;
            let device = bundle.device;
            error is WebUsb ==> bundle.webusb is Some && ((bundle.webusb->0).version != 256 || (
            bundle.webusb->0).vendor_code == 0 || device[2] + 256 * device[3] < 513)
        }),
        ({
            let error = projected(bundle)->Err_0;
            error is LandingPage ==> bundle.webusb is Some && !page_fits(
                (bundle.webusb->0).landing_page,
            )
        }),
        ({
            let error = projected(bundle)->Err_0;
            error is InvalidDevice || error is ConfigurationCount || error is NoLanguages
                || error is InvalidLanguages || error is InvalidConfiguration || error is
                ConfigurationLength || error is UnsupportedConfiguration || error is WebUsb || error
                is LandingPage || text_fault(error) || walk_fault(error) || windows_fault(error)
                || blob_fault(error)
        }),
{
    let error = projected(bundle)->Err_0;
    let device = bundle.device;
    lemma_found(bundle, 0, 0);
    if bundle.webusb is Some {
        lemma_page((bundle.webusb->0).landing_page);
    }
    if device_error(device) is None && first_language(bundle.strings) is Ok {
        let language = first_language(bundle.strings)->Ok_0;
        lemma_found(bundle, device[14], language);
        lemma_found(bundle, device[15], language);
        lemma_found(bundle, device[16], language);
        if configuration_error(bundle.configuration) is None && identity_of(
            device,
            bundle.strings,
            language,
        ) is Ok {
            let identity = identity_of(device, bundle.strings, language)->Ok_0;
            lemma_configuration_causes(bundle, identity, language);
        }
        if let ProjectionError::MissingString(index) = error {
            assert(!has_string(bundle, index, language));
        }
    }
}

proof fn lemma_found(bundle: PersonalityModel, index: u8, language: u16)
    ensures
        find_string(bundle.strings, index, language) is None <==> !has_string(
            bundle,
            index,
            language,
        ),
{
    lemma_strings_are_found(bundle.strings, index, language);
}

#[verifier::rlimit(100)]
proof fn lemma_configuration_causes(
    bundle: PersonalityModel,
    identity: IdentityModel,
    language: u16,
)
    requires
        bundle.configuration.len() >= 9,
    ensures
        projected_configuration(identity, language, bundle) matches Err(error) ==> {
            &&& walk_fault(error) || text_fault(error) || windows_fault(error) || blob_fault(error)
                || error is WebUsb || error is LandingPage
            &&& walk_fault(error) ==> error is TooManyFunctionStrings || !whole_descriptors(
                bundle.configuration.skip(9),
                0,
            )
            &&& error matches ProjectionError::MissingString(index) ==> !has_string(
                bundle,
                index,
                language,
            )
            &&& windows_fault(error) ==> bundle.microsoft is Some && exists|interfaces: Set<u8>|
                #[trigger]
                windows_cause(bundle, interfaces, error)
            &&& error is WebUsb ==> bundle.webusb is Some && ((bundle.webusb->0).version != 256 || (
            bundle.webusb->0).vendor_code == 0 || identity.bcd_usb < 513)
            &&& error is LandingPage ==> bundle.webusb is Some && !landing_page_valid(
                (bundle.webusb->0).landing_page,
            )
        },
{
    let body = bundle.configuration.skip(9);
    let start = nothing_rewritten();
    lemma_rewrite_fails(body, 0, start);
    if let Ok(end) = rewrite(body, 0, start) {
        let head = if end.originals.len() == 0 {
            seq![]
        } else {
            le16(language)
        };
        lemma_run_fails(bundle.strings, language, end.originals, head);
        if let Err(ProjectionError::MissingString(index)) = text_run(
            bundle.strings,
            language,
            end.originals,
            head,
        ) {
            lemma_found(bundle, index, language);
        }
        lemma_windows_fails(bundle, end.interfaces);
        if let Ok((_, os)) = microsoft_projection(bundle.microsoft, end.interfaces) {
            lemma_count_fails(os, 0, 0);
        }
    }
}

/// A personality that is shown has both descriptors with their frames, one configuration that is
/// numbered one, and descriptors that follow each other to its end.
pub proof fn lemma_shown_personalities_are_whole(bundle: PersonalityModel)
    requires
        projected(bundle) is Ok,
    ensures
        ({
            let device = bundle.device;
            let configuration = bundle.configuration;
            &&& device.len() == 18 && device[0] == 18 && device[1] == 1 && device[17] == 1
            &&& configuration.len() >= 9
            &&& configuration[0] == 9 && configuration[1] == 2 && configuration[5] == 1
            &&& configuration[2] + 256 * configuration[3] == configuration.len()
            &&& whole_descriptors(configuration.skip(9), 0)
            &&& has_string(bundle, 0, 0)
            &&& bundle.webusb matches Some(webusb) ==> page_fits(webusb.landing_page)
        }),
{
    lemma_rewrite_fails(bundle.configuration.skip(9), 0, nothing_rewritten());
    lemma_found(bundle, 0, 0);
    if bundle.webusb is Some {
        lemma_page((bundle.webusb->0).landing_page);
    }
}

/// Before that, a personality is refused for another layout, for more than 256 strings, or for two
/// strings under one index and language; otherwise its projection decides.
pub proof fn lemma_bundles_are_judged_first(bundle: PersonalityModel)
    ensures
        ({
            let doubled = exists|i: int, j: int|
                0 <= i < j < bundle.strings.len() && (#[trigger] bundle.strings[i]).index == (
                #[trigger] bundle.strings[j]).index && bundle.strings[i].language_id
                    == bundle.strings[j].language_id;
            &&& bundle.schema != 1 ==> discovered(bundle) == Err::<ProjectionModel, ProjectionError>(
                ProjectionError::Schema(bundle.schema),
            )
            &&& bundle.schema == 1 && bundle.strings.len() > 256 ==> discovered(bundle) == Err::<
                ProjectionModel,
                ProjectionError,
            >(ProjectionError::TooManyStrings)
            &&& bundle.schema == 1 && bundle.strings.len() <= 256 && doubled ==> discovered(bundle)
                == Err::<ProjectionModel, ProjectionError>(ProjectionError::DuplicateString)
            &&& bundle.schema == 1 && bundle.strings.len() <= 256 && !doubled ==> discovered(bundle)
                == projected(bundle)
        }),
{
    let doubled = exists|i: int, j: int|
        0 <= i < j < bundle.strings.len() && (#[trigger] bundle.strings[i]).index == (
        #[trigger] bundle.strings[j]).index && bundle.strings[i].language_id
            == bundle.strings[j].language_id;
    if distinct_strings(bundle.strings) && doubled {
        let (i, j) = choose|i: int, j: int|
            0 <= i < j < bundle.strings.len() && (#[trigger] bundle.strings[i]).index == (
            #[trigger] bundle.strings[j]).index && bundle.strings[i].language_id
                == bundle.strings[j].language_id;
        assert(false);
    }
    if !distinct_strings(bundle.strings) {
        let (i, j) = choose|i: int, j: int|
            0 <= i < j < bundle.strings.len() && bundle.strings[i].index
                == bundle.strings[j].index && bundle.strings[i].language_id
                == bundle.strings[j].language_id;
        assert(bundle.strings[i].index == bundle.strings[j].index);
    }
}

/// Whether a string descriptor is one: its type is three, and its length is even, counts its first
/// two bytes and does not go beyond its end.
pub open spec fn string_framed(descriptor: Seq<u8>) -> bool {
    &&& descriptor.len() >= 2
    &&& descriptor[1] == 3
    &&& 2 <= descriptor[0] <= descriptor.len()
    &&& descriptor[0] % 2 == 0
}

/// A text is read exactly where there is a string under its index and language, the string is
/// framed as one, and its units are those of a text.
pub proof fn lemma_texts_are_read(strings: Seq<StringModel>, index: u8, language: u16)
    ensures
        match text_of(strings, index, language) {
            Err(ProjectionError::MissingString(missing)) => missing == index && find_string(
                strings,
                index,
                language,
            ) is None,
            Err(ProjectionError::InvalidString(invalid)) => invalid == index && (find_string(
                strings,
                index,
                language,
            ) matches Some(descriptor) && !string_framed(descriptor)),
            Err(ProjectionError::StringEncoding) => find_string(strings, index, language) matches
                Some(descriptor) && string_framed(descriptor) && forall|text: Seq<char>|
                !#[trigger] crate::picture_laws::holds_text(descriptor, text),
            Err(_) => false,
            Ok(text) => find_string(strings, index, language) matches Some(descriptor)
                && string_framed(descriptor) && crate::picture_laws::holds_text(descriptor, text),
        },
{
    if let Some(descriptor) = find_string(strings, index, language) {
        if string_framed(descriptor) {
            let words = crate::usb_personality::descriptor_words(descriptor);
            assert forall|j: int| 0 <= j < words.len() implies #[trigger] words[j] == descriptor[2
                + 2 * j] + 256 * descriptor[3 + 2 * j] by {}
            if crate::text::decode_utf16(words) is None {
                assert forall|text: Seq<char>|
                    !#[trigger] crate::picture_laws::holds_text(descriptor, text) by {
                    if crate::picture_laws::holds_text(descriptor, text) {
                        assert(encode_utf16(text) =~= words);
                    }
                }
            }
        }
    }
}

/// A language is read exactly where there is a language descriptor of at least four bytes that is
/// a string and does not claim to be longer than it is.
pub proof fn lemma_languages_are_read(strings: Seq<StringModel>)
    ensures
        first_language(strings) is Ok <==> (find_string(strings, 0, 0) matches Some(descriptor)
            && descriptor.len() >= 4 && descriptor[1] == 3 && descriptor[0] <= descriptor.len()),
        first_language(strings) matches Err(error) ==> error is NoLanguages || error is
            InvalidLanguages,
{
}

} // verus!
