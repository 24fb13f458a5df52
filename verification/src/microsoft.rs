//! Microsoft OS 1.0 descriptors in the form that FunctionFS takes.

use crate::bytes::{
    le16, le32, le32_at, le_double_word, length_word, low_word, push_bytes, push_le16, push_le32,
};
use crate::native::{push_words, words_bytes};
use crate::personality::{
    microsoft_view, CompatibleIdModel, MicrosoftCompatibleId, MicrosoftModel,
    MicrosoftOs10 as BundleMicrosoftOs10, MicrosoftRegistryProperty, PropertyModel,
};
use crate::sets::{ascending_bytes, ByteSet};
use crate::text::{encode_utf16, has_char, to_chars, utf16_words};
use crate::usb_personality::{gadget_microsoft_view, MicrosoftOs10, ProjectionError};
use vstd::prelude::*;

verus! {

/// Whether a text can be a Microsoft identifier.
pub open spec fn identifier_valid(value: Seq<char>) -> bool {
    value.len() <= 8 && forall|i: int| 0 <= i < value.len() ==> 0 < #[trigger] (value[i] as u32) < 128
}

/// A Microsoft identifier, filled up with zeros to eight bytes.
pub open spec fn identifier_bytes(value: Seq<char>) -> Seq<u8> {
    Seq::new(
        8,
        |i: int|
            if i < value.len() {
                value[i] as u8
            } else {
                0
            },
    )
}

/// The header of a Microsoft OS descriptor for FunctionFS.
pub open spec fn os_header(interface: u8, length: u32, index: u16, count: u16) -> Seq<u8> {
    seq![interface] + le32(length) + le16(0x0100) + le16(index) + le16(count)
}

/// One compatible-ID feature.
pub open spec fn compatible_id_bytes(id: CompatibleIdModel) -> Seq<u8> {
    seq![id.interface, 1u8] + identifier_bytes(id.compatible_id) + identifier_bytes(
        id.sub_compatible_id,
    ) + seq![0u8, 0, 0, 0, 0, 0]
}

/// Appends the features of `ids` to `out`; `seen` holds the interfaces that have one.
pub open spec fn compatible_features(
    ids: Seq<CompatibleIdModel>,
    interfaces: Set<u8>,
    seen: Set<u8>,
    out: Seq<u8>,
) -> Result<Seq<u8>, ProjectionError>
    decreases ids.len(),
{
    if ids.len() == 0 {
        Ok(out)
    } else if !interfaces.contains(ids[0].interface) || seen.contains(ids[0].interface) {
        Err(ProjectionError::CompatibleIdInterface)
    } else if !identifier_valid(ids[0].compatible_id) || !identifier_valid(
        ids[0].sub_compatible_id,
    ) {
        Err(ProjectionError::CompatibleIdText)
    } else {
        compatible_features(
            ids.skip(1),
            interfaces,
            seen.insert(ids[0].interface),
            out + compatible_id_bytes(ids[0]),
        )
    }
}

/// The compatible-ID descriptor, or nothing where there are no compatible IDs.
pub open spec fn compatible_id_section(ids: Seq<CompatibleIdModel>, interfaces: Set<u8>) -> Result<
    Seq<u8>,
    ProjectionError,
> {
    if ids.len() == 0 {
        Ok(seq![])
    } else if ids.len() > 255 {
        Err(ProjectionError::TooManyCompatibleIds)
    } else {
        compatible_features(
            ids,
            interfaces,
            Set::empty(),
            os_header(ids[0].interface, (11 + 24 * ids.len()) as u32, 4, ids.len() as u16),
        )
    }
}

/// The name of a property as zero-terminated UTF-16.
pub open spec fn property_name(name: Seq<char>) -> Seq<u16> {
    encode_utf16(name).push(0)
}

/// One extended property.
pub open spec fn property_bytes(property: PropertyModel) -> Seq<u8> {
    let name = property_name(property.name);
    le32(low_word(14 + 2 * name.len() + property.data.len())) + le32(property.data_type) + le16(
        (2 * name.len()) as u16,
    ) + words_bytes(name) + le32(low_word(property.data.len())) + property.data
}

/// Why a property cannot be written, if it cannot.
pub open spec fn property_error(property: PropertyModel, interfaces: Set<u8>) -> Option<
    ProjectionError,
> {
    let name_length = 2 * property_name(property.name).len();
    if !interfaces.contains(property.interface) || property.name.contains('\0') {
        Some(ProjectionError::PropertyTarget)
    } else if name_length > 65535 {
        Some(ProjectionError::PropertyNameTooLong)
    } else if 14 + name_length + property.data.len() > usize::MAX {
        Some(ProjectionError::PropertyTooLarge)
    } else {
        None
    }
}

/// Why the first property that cannot be written cannot, if there is one.
pub open spec fn properties_error(properties: Seq<PropertyModel>, interfaces: Set<u8>) -> Option<
    ProjectionError,
>
    decreases properties.len(),
{
    if properties.len() == 0 {
        None
    } else {
        match property_error(properties[0], interfaces) {
            Some(error) => Some(error),
            None => properties_error(properties.skip(1), interfaces),
        }
    }
}

/// The interfaces that have a property.
pub open spec fn property_interfaces(properties: Seq<PropertyModel>) -> Set<u8> {
    properties.map_values(|property: PropertyModel| property.interface).to_set()
}

/// The number of properties of an interface.
pub open spec fn property_count(properties: Seq<PropertyModel>, interface: u8) -> nat
    decreases properties.len(),
{
    if properties.len() == 0 {
        0
    } else {
        property_count(properties.drop_last(), interface) + if properties.last().interface
            == interface {
            1nat
        } else {
            0nat
        }
    }
}

/// The properties of an interface, in their order.
pub open spec fn property_features(properties: Seq<PropertyModel>, interface: u8) -> Seq<u8>
    decreases properties.len(),
{
    if properties.len() == 0 {
        seq![]
    } else {
        property_features(properties.drop_last(), interface) + if properties.last().interface
            == interface {
            property_bytes(properties.last())
        } else {
            seq![]
        }
    }
}

/// Appends the extended-properties descriptors of `groups`, one per interface, to `out`.
pub open spec fn property_groups(
    properties: Seq<PropertyModel>,
    groups: Seq<u8>,
    out: Seq<u8>,
) -> Result<Seq<u8>, ProjectionError>
    decreases groups.len(),
{
    if groups.len() == 0 {
        Ok(out)
    } else {
        let count = property_count(properties, groups[0]);
        let features = property_features(properties, groups[0]);
        if count > 65535 {
            Err(ProjectionError::TooManyProperties)
        } else {
            property_groups(
                properties,
                groups.skip(1),
                out + os_header(groups[0], low_word(11 + features.len()), 5, count as u16)
                    + features,
            )
        }
    }
}

/// The Microsoft OS descriptors of a declaration: compatible IDs first, then the properties by
/// ascending interface.
pub open spec fn os_descriptors(declaration: MicrosoftModel, interfaces: Set<u8>) -> Result<
    Seq<u8>,
    ProjectionError,
> {
    let properties = declaration.registry_properties;
    if declaration.vendor_code == 0 {
        Err(ProjectionError::ZeroVendorCode)
    } else {
        match (
            compatible_id_section(declaration.compatible_ids, interfaces),
            properties_error(properties, interfaces),
        ) {
            (Err(error), _) => Err(error),
            (Ok(_), Some(error)) => Err(error),
            (Ok(section), None) => property_groups(
                properties,
                ascending_bytes(property_interfaces(properties)),
                section,
            ),
        }
    }
}

/// The gadget attributes and descriptors of an optional Microsoft declaration.
pub open spec fn microsoft_projection(
    declaration: Option<MicrosoftModel>,
    interfaces: Set<u8>,
) -> Result<(Option<(u8, Seq<char>)>, Seq<u8>), ProjectionError> {
    match declaration {
        None => Ok((None, seq![])),
        Some(declaration) => match os_descriptors(declaration, interfaces) {
            Err(error) => Err(error),
            Ok(bytes) => Ok((Some((declaration.vendor_code, "MSFT100"@)), bytes)),
        },
    }
}

/// Adds the number of Microsoft OS descriptors from `offset` on to `count`.
pub open spec fn os_descriptor_count(bytes: Seq<u8>, offset: int, count: nat) -> Result<
    nat,
    ProjectionError,
>
    decreases bytes.len() - offset,
{
    if offset >= bytes.len() {
        Ok(count)
    } else if bytes.len() - offset < 5 {
        Err(ProjectionError::TruncatedOsDescriptor)
    } else {
        let length = le32_at(bytes, offset + 1);
        if length < 11 || offset + length > bytes.len() {
            Err(ProjectionError::OsDescriptorLength)
        } else {
            os_descriptor_count(bytes, offset + length, count + 1)
        }
    }
}

/// The contents of a list of compatible IDs.
pub open spec fn ids_view(ids: Seq<MicrosoftCompatibleId>) -> Seq<CompatibleIdModel> {
    ids.map_values(|id: MicrosoftCompatibleId| id@)
}

/// The contents of a list of registry properties.
pub open spec fn properties_view(properties: Seq<MicrosoftRegistryProperty>) -> Seq<PropertyModel> {
    properties.map_values(|property: MicrosoftRegistryProperty| property@)
}

/// Projects an optional Microsoft declaration to gadget attributes and FunctionFS descriptors.
pub fn project_microsoft_os_1(
    declaration: &Option<BundleMicrosoftOs10>,
    interfaces: &ByteSet,
) -> (outcome: Result<(Option<MicrosoftOs10>, Vec<u8>), ProjectionError>)
    ensures
        match outcome {
            Err(error) => microsoft_projection(microsoft_view(*declaration), interfaces@) == Err::<
                (Option<(u8, Seq<char>)>, Seq<u8>),
                ProjectionError,
            >(error),
            Ok((attributes, bytes)) => microsoft_projection(
                microsoft_view(*declaration),
                interfaces@,
            ) == Ok::<(Option<(u8, Seq<char>)>, Seq<u8>), ProjectionError>(
                (gadget_microsoft_view(attributes), bytes@),
            ),
        },
{
    let declaration = match declaration {
        None => {
            let empty: Vec<u8> = Vec::new();
            assert(empty@ =~= seq![]);
            return Ok((None, empty));
        },
        Some(declaration) => declaration,
    };
    if declaration.vendor_code == 0 {
        return Err(ProjectionError::ZeroVendorCode);
    }
    let mut output = compatible_section(&declaration.compatible_ids, interfaces)?;
    check_properties(&declaration.registry_properties, interfaces)?;
    push_property_groups(&declaration.registry_properties, interfaces, &mut output)?;
    Ok(
        (
            Some(
                MicrosoftOs10 {
                    vendor_code: declaration.vendor_code,
                    signature: "MSFT100".to_owned(),
                },
            ),
            output,
        ),
    )
}

fn compatible_section(ids: &Vec<MicrosoftCompatibleId>, interfaces: &ByteSet) -> (outcome: Result<
    Vec<u8>,
    ProjectionError,
>)
    ensures
        match outcome {
            Err(error) => compatible_id_section(ids_view(ids@), interfaces@) == Err::<
                Seq<u8>,
                ProjectionError,
            >(error),
            Ok(bytes) => compatible_id_section(ids_view(ids@), interfaces@) == Ok::<
                Seq<u8>,
                ProjectionError,
            >(bytes@),
        },
{
    let mut output: Vec<u8> = Vec::new();
    assert(output@ =~= seq![]);
    if ids.len() == 0 {
        return Ok(output);
    }
    if ids.len() > 255 {
        return Err(ProjectionError::TooManyCompatibleIds);
    }
    push_os_header(
        &mut output,
        ids[0].interface,
        (11 + 24 * ids.len()) as u32,
        4,
        ids.len() as u16,
    );
    let ghost model = ids_view(ids@);
    let ghost header = os_header(
        model[0].interface,
        (11 + 24 * model.len()) as u32,
        4,
        model.len() as u16,
    );
    assert(output@ =~= header);
    let mut seen = ByteSet::new();
    let mut i: usize = 0;
    assert(model.skip(0) =~= model);
    while i < ids.len()
        invariant
            i <= ids@.len() <= 255,
            0 < ids@.len(),
            model == ids_view(ids@),
            compatible_id_section(model, interfaces@) == compatible_features(
                model.skip(i as int),
                interfaces@,
                seen@,
                output@,
            ),
        decreases ids@.len() - i,
    {
        let id = &ids[i];
        assert(model.skip(i as int).skip(1) =~= model.skip(i + 1));
        assert(model.skip(i as int)[0] == id@);
        if !interfaces.contains(id.interface) || !seen.insert(id.interface) {
            return Err(ProjectionError::CompatibleIdInterface);
        }
        let ghost before = output@;
        output.push(id.interface);
        output.push(1);
        push_identifier(&mut output, id.compatible_id.as_str())?;
        push_identifier(&mut output, id.sub_compatible_id.as_str())?;
        push_bytes(&mut output, &[0, 0, 0, 0, 0, 0]);
        assert(output@ =~= before + compatible_id_bytes(id@));
        i = i + 1;
    }
    Ok(output)
}

fn push_os_header(out: &mut Vec<u8>, interface: u8, length: u32, index: u16, count: u16)
    ensures
        final(out)@ == old(out)@ + os_header(interface, length, index, count),
{
    out.push(interface);
    push_le32(out, length);
    push_le16(out, 0x0100);
    push_le16(out, index);
    push_le16(out, count);
    assert(out@ =~= old(out)@ + os_header(interface, length, index, count));
}

/// Appends a Microsoft identifier, filled up with zeros.
fn push_identifier(out: &mut Vec<u8>, value: &str) -> (outcome: Result<(), ProjectionError>)
    ensures
        match outcome {
            Err(error) => error == ProjectionError::CompatibleIdText && !identifier_valid(value@),
            Ok(()) => identifier_valid(value@) && final(out)@ == old(out)@ + identifier_bytes(
                value@,
            ),
        },
{
    let chars = to_chars(value);
    if chars.len() > 8 {
        return Err(ProjectionError::CompatibleIdText);
    }
    let mut i: usize = 0;
    while i < 8
        invariant
            i <= 8,
            chars@ == value@,
            chars@.len() <= 8,
            out@.len() == old(out)@.len() + i,
            out@ == old(out)@ + identifier_bytes(value@).take(i as int),
            forall|k: int| 0 <= k < i && k < value@.len() ==> 0 < #[trigger] (value@[k] as u32) < 128,
        decreases 8 - i,
    {
        if i < chars.len() {
            let c = chars[i];
            if c as u32 == 0 || c as u32 >= 128 {
                assert(!(0 < (value@[i as int] as u32) < 128));
                return Err(ProjectionError::CompatibleIdText);
            }
            out.push(c as u8);
        } else {
            out.push(0);
        }
        assert(out@ =~= old(out)@ + identifier_bytes(value@).take(i + 1));
        i = i + 1;
    }
    assert(identifier_bytes(value@).take(8) =~= identifier_bytes(value@));
    Ok(())
}

fn check_properties(properties: &Vec<MicrosoftRegistryProperty>, interfaces: &ByteSet) -> (outcome:
    Result<(), ProjectionError>)
    ensures
        match outcome {
            Err(error) => properties_error(properties_view(properties@), interfaces@) == Some(
                error,
            ),
            Ok(()) => properties_error(properties_view(properties@), interfaces@) is None
                && forall|k: int|
                0 <= k < properties@.len() ==> property_error(
                    #[trigger] properties@[k]@,
                    interfaces@,
                ) is None,
        },
{
    let ghost model = properties_view(properties@);
    let mut i: usize = 0;
    assert(model.skip(0) =~= model);
    while i < properties.len()
        invariant
            i <= properties@.len(),
            model == properties_view(properties@),
            properties_error(model, interfaces@) == properties_error(
                model.skip(i as int),
                interfaces@,
            ),
            forall|k: int|
                0 <= k < i ==> property_error(#[trigger] properties@[k]@, interfaces@) is None,
        decreases properties@.len() - i,
    {
        let property = &properties[i];
        assert(model.skip(i as int).skip(1) =~= model.skip(i + 1));
        assert(model.skip(i as int)[0] == property@);
        if !interfaces.contains(property.interface) || has_char(property.name.as_str(), '\0') {
            return Err(ProjectionError::PropertyTarget);
        }
        let words = utf16_words(property.name.as_str());
        if words.len() > 32766 {
            return Err(ProjectionError::PropertyNameTooLong);
        }
        if property.data.len() > usize::MAX - 16 - 2 * words.len() {
            return Err(ProjectionError::PropertyTooLarge);
        }
        i = i + 1;
    }
    Ok(())
}

fn push_property(out: &mut Vec<u8>, property: &MicrosoftRegistryProperty)
    requires
        2 * property_name(property@.name).len() <= 65535,
    ensures
        final(out)@ == old(out)@ + property_bytes(property@),
{
    let mut name = utf16_words(property.name.as_str());
    name.push(0);
    let name_length: u16 = (2 * name.len()) as u16;
    push_le32(out, length_word(property.data.len(), 14 + name_length as u32));
    push_le32(out, property.data_type);
    push_le16(out, name_length);
    push_words(out, &name);
    push_le32(out, length_word(property.data.len(), 0));
    push_bytes(out, property.data.as_slice());
    assert(out@ =~= old(out)@ + property_bytes(property@));
}

/// Appends the extended-properties descriptors by ascending interface.
fn push_property_groups(
    properties: &Vec<MicrosoftRegistryProperty>,
    interfaces: &ByteSet,
    out: &mut Vec<u8>,
) -> (outcome: Result<(), ProjectionError>)
    requires
        forall|k: int|
            0 <= k < properties@.len() ==> property_error(
                #[trigger] properties@[k]@,
                interfaces@,
            ) is None,
    ensures
        match outcome {
            Err(error) => property_groups(
                properties_view(properties@),
                ascending_bytes(property_interfaces(properties_view(properties@))),
                old(out)@,
            ) == Err::<Seq<u8>, ProjectionError>(error),
            Ok(()) => property_groups(
                properties_view(properties@),
                ascending_bytes(property_interfaces(properties_view(properties@))),
                old(out)@,
            ) == Ok::<Seq<u8>, ProjectionError>(final(out)@),
        },
{
    let ghost model = properties_view(properties@);
    let groups = collect_interfaces(properties).to_vec();
    let mut i: usize = 0;
    assert(groups@.skip(0) =~= groups@);
    while i < groups.len()
        invariant
            i <= groups@.len(),
            model == properties_view(properties@),
            groups@ == ascending_bytes(property_interfaces(model)),
            property_groups(model, groups@, old(out)@) == property_groups(
                model,
                groups@.skip(i as int),
                out@,
            ),
            forall|k: int|
                0 <= k < properties@.len() ==> property_error(
                    #[trigger] properties@[k]@,
                    interfaces@,
                ) is None,
        decreases groups@.len() - i,
    {
        assert(groups@.skip(i as int).skip(1) =~= groups@.skip(i + 1));
        let interface: u8 = groups[i];
        let (count, features) = interface_features(properties, interfaces, interface);
        if count > 65535 {
            return Err(ProjectionError::TooManyProperties);
        }
        push_os_header(out, interface, length_word(features.len(), 11), 5, count as u16);
        push_bytes(out, features.as_slice());
        i = i + 1;
    }
    Ok(())
}

fn collect_interfaces(properties: &Vec<MicrosoftRegistryProperty>) -> (found: ByteSet)
    ensures
        found@ == property_interfaces(properties_view(properties@)),
{
    let ghost numbers = properties_view(properties@).map_values(
        |property: PropertyModel| property.interface,
    );
    let mut found = ByteSet::new();
    let mut i: usize = 0;
    assert(numbers.take(0) =~= seq![]);
    assert(found@ =~= numbers.take(0).to_set());
    while i < properties.len()
        invariant
            i <= properties@.len(),
            numbers == properties_view(properties@).map_values(
                |property: PropertyModel| property.interface,
            ),
            found@ == numbers.take(i as int).to_set(),
        decreases properties@.len() - i,
    {
        found.insert(properties[i].interface);
        proof {
            let before = numbers.take(i as int);
            let after = numbers.take(i + 1);
            assert(after =~= before.push(numbers[i as int]));
            assert forall|n: u8| after.to_set().contains(n) <==> before.to_set().insert(
                numbers[i as int],
            ).contains(n) by {
                if before.contains(n) {
                    let k = choose|k: int| 0 <= k < before.len() && before[k] == n;
                    assert(after[k] == n);
                }
                if n == numbers[i as int] {
                    assert(after[i as int] == n);
                }
                if after.contains(n) && n != numbers[i as int] {
                    let k = choose|k: int| 0 <= k < after.len() && after[k] == n;
                    assert(before[k] == n);
                }
            }
            assert(after.to_set() =~= before.to_set().insert(numbers[i as int]));
        }
        i = i + 1;
    }
    assert(numbers.take(numbers.len() as int) =~= numbers);
    found
}

/// The number of properties of an interface, and their bytes.
fn interface_features(
    properties: &Vec<MicrosoftRegistryProperty>,
    interfaces: &ByteSet,
    interface: u8,
) -> (found: (usize, Vec<u8>))
    requires
        forall|k: int|
            0 <= k < properties@.len() ==> property_error(
                #[trigger] properties@[k]@,
                interfaces@,
            ) is None,
    ensures
        found.0 == property_count(properties_view(properties@), interface),
        found.1@ == property_features(properties_view(properties@), interface),
{
    let ghost model = properties_view(properties@);
    let mut count: usize = 0;
    let mut features: Vec<u8> = Vec::new();
    let mut i: usize = 0;
    assert(features@ =~= property_features(model.take(0), interface));
    while i < properties.len()
        invariant
            i <= properties@.len(),
            count <= i,
            model == properties_view(properties@),
            count == property_count(model.take(i as int), interface),
            features@ == property_features(model.take(i as int), interface),
            forall|k: int|
                0 <= k < properties@.len() ==> property_error(
                    #[trigger] properties@[k]@,
                    interfaces@,
                ) is None,
        decreases properties@.len() - i,
    {
        let property = &properties[i];
        assert(model.take(i + 1).drop_last() =~= model.take(i as int));
        assert(model.take(i + 1).last() == properties@[i as int]@);
        let ghost before = features@;
        if property.interface == interface {
            count = count + 1;
            push_property(&mut features, property);
        }
        assert(features@ =~= property_features(model.take(i + 1), interface));
        i = i + 1;
    }
    assert(model.take(model.len() as int) =~= model);
    (count, features)
}

/// Counts the Microsoft OS descriptors in a run of them.
pub fn count_functionfs_os_descriptors(bytes: &[u8]) -> (outcome: Result<usize, ProjectionError>)
    ensures
        match outcome {
            Err(error) => os_descriptor_count(bytes@, 0, 0) == Err::<nat, ProjectionError>(error),
            Ok(count) => os_descriptor_count(bytes@, 0, 0) == Ok::<nat, ProjectionError>(
                count as nat,
            ) && count <= bytes@.len(),
        },
{
    let mut offset: usize = 0;
    let mut count: usize = 0;
    while offset < bytes.len()
        invariant
            count <= offset <= bytes@.len(),
            os_descriptor_count(bytes@, 0, 0) == os_descriptor_count(
                bytes@,
                offset as int,
                count as nat,
            ),
        decreases bytes@.len() - offset,
    {
        if bytes.len() - offset < 5 {
            return Err(ProjectionError::TruncatedOsDescriptor);
        }
        let length: u32 = le_double_word(bytes, offset + 1);
        if length < 11 || length as usize > bytes.len() - offset {
            return Err(ProjectionError::OsDescriptorLength);
        }
        offset = offset + length as usize;
        count = count + 1;
    }
    Ok(count)
}

} // verus!
