//! What holds of projected Microsoft OS descriptors: FunctionFS takes them.

use crate::bytes::{
    le16, le16_at, le32, le32_at, lemma_le16_round_trip, lemma_le32_round_trip, low_word,
};
use crate::functionfs::{
    all_zero, compatible_ids, extended_compat_id, extended_properties, os_descriptor_end,
    os_descriptors_end, padded_graphic, properties, property_end, FunctionFsError,
};
use crate::microsoft::{
    compatible_features, compatible_id_bytes, compatible_id_section, identifier_bytes,
    identifier_valid, os_descriptor_count, os_descriptors, os_header, property_bytes,
    property_count, property_error, property_features, property_groups, property_interfaces,
    property_name, properties_error,
};
use crate::native::{lemma_words_bytes_len, words_bytes};
use crate::personality::{CompatibleIdModel, MicrosoftModel, PropertyModel};
use crate::projection_laws::{lemma_word_in, lemma_words_in_bytes};
use crate::sets::{ascending_bytes, lemma_ascending_bytes};
use crate::text::{encode_utf16, lemma_ascii_utf8, utf16_units};
use crate::usb_personality::ProjectionError;
use vstd::prelude::*;
use vstd::utf8::valid_utf8;

verus! {

/// Whether a text is made of printable ASCII characters other than blanks.
pub open spec fn graphic(text: Seq<char>) -> bool {
    forall|i: int| 0 <= i < text.len() ==> 0x21 <= #[trigger] (text[i] as u32) <= 0x7e
}

/// Whether FunctionFS can take a compatible ID: it is not empty, and both of its texts are
/// printable.
pub open spec fn id_acceptable(id: CompatibleIdModel) -> bool {
    id.compatible_id.len() > 0 && graphic(id.compatible_id) && graphic(id.sub_compatible_id)
}

/// Whether FunctionFS can take a registry property: its type is known, and the bytes of its name
/// before the last are well-formed UTF-8, as they are where the name is ASCII.
pub open spec fn property_acceptable(property: PropertyModel) -> bool {
    &&& 1 <= property.data_type <= 7
    &&& valid_utf8(words_bytes(property_name(property.name)).drop_last())
}

/// Whether FunctionFS can take a Microsoft declaration.
pub open spec fn declaration_acceptable(declaration: MicrosoftModel) -> bool {
    &&& forall|i: int|
        0 <= i < declaration.compatible_ids.len() ==> id_acceptable(
            #[trigger] declaration.compatible_ids[i],
        )
    &&& forall|i: int|
        0 <= i < declaration.registry_properties.len() ==> property_acceptable(
            #[trigger] declaration.registry_properties[i],
        )
}

/// Whether `part` stands at a position of a blob.
pub open spec fn stands_at(blob: Seq<u8>, at: int, part: Seq<u8>) -> bool {
    0 <= at && at + part.len() <= blob.len() && blob.subrange(at, at + part.len()) == part
}

/// Whether FunctionFS takes a Microsoft OS descriptor, wherever it stands in a blob.
#[verifier::opaque]
spec fn chunk_taken(chunk: Seq<u8>, interfaces: Set<u8>) -> bool {
    &&& chunk.len() >= 11
    &&& le32_at(chunk, 1) == chunk.len()
    &&& forall|blob: Seq<u8>, at: int| #[trigger]
        stands_at(blob, at, chunk) && blob.len() <= u32::MAX ==> os_descriptor_end(
            blob,
            at,
            interfaces,
        ) == Ok::<int, FunctionFsError>(at + chunk.len())
}

/// Chunks, one behind the other.
pub open spec fn joined(chunks: Seq<Seq<u8>>) -> Seq<u8>
    decreases chunks.len(),
{
    if chunks.len() == 0 {
        seq![]
    } else {
        chunks[0] + joined(chunks.skip(1))
    }
}

/// A part of what stands in a blob stands in the blob.
pub proof fn lemma_part_stands(blob: Seq<u8>, at: int, whole: Seq<u8>, from: int, part: Seq<u8>)
    requires
        stands_at(blob, at, whole),
        0 <= from,
        from + part.len() <= whole.len(),
        whole.subrange(from, from + part.len()) == part,
    ensures
        stands_at(blob, at + from, part),
{
    assert forall|i: int| 0 <= i < part.len() implies blob.subrange(
        at + from,
        at + from + part.len(),
    )[i] == part[i] by {
        assert(whole.subrange(from, from + part.len())[i] == whole[from + i]);
        assert(blob.subrange(at, at + whole.len())[from + i] == blob[at + from + i]);
    }
    assert(blob.subrange(at + from, at + from + part.len()) =~= part);
}

/// Each byte of what stands in a blob.
pub proof fn lemma_byte_stands(blob: Seq<u8>, at: int, part: Seq<u8>, i: int)
    requires
        stands_at(blob, at, part),
        0 <= i < part.len(),
    ensures
        blob[at + i] == part[i],
{
    assert(blob.subrange(at, at + part.len())[i] == part[i]);
}

/// A half word that stands in a blob is read there.
pub proof fn lemma_half_word_in(blob: Seq<u8>, at: int, word: u16)
    requires
        stands_at(blob, at, le16(word)),
    ensures
        le16_at(blob, at) == word,
{
    lemma_le16_round_trip(word);
    lemma_byte_stands(blob, at, le16(word), 0);
    lemma_byte_stands(blob, at, le16(word), 1);
}

/// FunctionFS takes a run of chunks that it takes one by one.
proof fn lemma_chunks_taken(chunks: Seq<Seq<u8>>, interfaces: Set<u8>, blob: Seq<u8>, at: int)
    requires
        forall|i: int| 0 <= i < chunks.len() ==> chunk_taken(#[trigger] chunks[i], interfaces),
        stands_at(blob, at, joined(chunks)),
        blob.len() <= u32::MAX,
    ensures
        os_descriptors_end(blob, at, chunks.len(), interfaces) == Ok::<int, FunctionFsError>(
            at + joined(chunks).len(),
        ),
    decreases chunks.len(),
{
    reveal(chunk_taken);
    if chunks.len() > 0 {
        let rest = chunks.skip(1);
        let whole = joined(chunks);
        assert(chunk_taken(chunks[0], interfaces));
        assert(whole.subrange(0, chunks[0].len() as int) =~= chunks[0]);
        assert(whole.subrange(chunks[0].len() as int, whole.len() as int) =~= joined(rest));
        lemma_part_stands(blob, at, whole, 0, chunks[0]);
        lemma_part_stands(blob, at, whole, chunks[0].len() as int, joined(rest));
        assert forall|i: int| 0 <= i < rest.len() implies chunk_taken(
            #[trigger] rest[i],
            interfaces,
        ) by {
            assert(rest[i] == chunks[i + 1]);
        }
        lemma_chunks_taken(rest, interfaces, blob, at + chunks[0].len());
    }
}

/// The chunks of a run are counted by their lengths.
proof fn lemma_chunks_counted(
    chunks: Seq<Seq<u8>>,
    interfaces: Set<u8>,
    os: Seq<u8>,
    offset: int,
    count: nat,
)
    requires
        forall|i: int| 0 <= i < chunks.len() ==> chunk_taken(#[trigger] chunks[i], interfaces),
        stands_at(os, offset, joined(chunks)),
        offset + joined(chunks).len() == os.len(),
    ensures
        os_descriptor_count(os, offset, count) == Ok::<nat, ProjectionError>(
            count + chunks.len(),
        ),
    decreases chunks.len(),
{
    reveal(chunk_taken);
    if chunks.len() > 0 {
        let rest = chunks.skip(1);
        let whole = joined(chunks);
        let first = chunks[0];
        assert(chunk_taken(first, interfaces));
        assert(whole.subrange(0, first.len() as int) =~= first);
        assert(whole.subrange(first.len() as int, whole.len() as int) =~= joined(rest));
        lemma_part_stands(os, offset, whole, 0, first);
        lemma_part_stands(os, offset, whole, first.len() as int, joined(rest));
        lemma_byte_stands(os, offset, first, 1);
        lemma_byte_stands(os, offset, first, 2);
        lemma_byte_stands(os, offset, first, 3);
        lemma_byte_stands(os, offset, first, 4);
        assert(le32_at(os, offset + 1) == first.len());
        assert forall|i: int| 0 <= i < rest.len() implies chunk_taken(
            #[trigger] rest[i],
            interfaces,
        ) by {
            assert(rest[i] == chunks[i + 1]);
        }
        lemma_chunks_counted(rest, interfaces, os, offset + first.len(), count + 1);
    }
}

/// The fields of a header that stands in a blob are read there.
proof fn lemma_header_read(
    blob: Seq<u8>,
    at: int,
    interface: u8,
    length: u32,
    index: u16,
    count: u16,
)
    requires
        stands_at(blob, at, os_header(interface, length, index, count)),
    ensures
        os_header(interface, length, index, count).len() == 11,
        at + 11 <= blob.len(),
        blob[at] == interface,
        le32_at(blob, at + 1) == length,
        le16_at(blob, at + 5) == 0x0100,
        le16_at(blob, at + 7) == index,
        le16_at(blob, at + 9) == count,
{
    let header = os_header(interface, length, index, count);
    lemma_byte_stands(blob, at, header, 0);
    assert(header.subrange(1, 5) =~= le32(length));
    assert(header.subrange(5, 7) =~= le16(0x0100));
    assert(header.subrange(7, 9) =~= le16(index));
    assert(header.subrange(9, 11) =~= le16(count));
    lemma_part_stands(blob, at, header, 1, le32(length));
    lemma_part_stands(blob, at, header, 5, le16(0x0100));
    lemma_part_stands(blob, at, header, 7, le16(index));
    lemma_part_stands(blob, at, header, 9, le16(count));
    lemma_word_in(blob, at + 1, length);
    lemma_half_word_in(blob, at + 5, 0x0100);
    lemma_half_word_in(blob, at + 7, index);
    lemma_half_word_in(blob, at + 9, count);
}

/// An ASCII character is one byte, and one UTF-16 code unit.
pub proof fn lemma_ascii_char(c: char)
    requires
        (c as u32) < 128,
    ensures
        c as u8 == c as u32,
        utf16_units(c) == seq![c as u16],
        c as u16 == c as u32,
{
}

/// FunctionFS takes a compatible-ID feature that stands in a blob.
#[verifier::rlimit(40)]
proof fn lemma_feature_taken(blob: Seq<u8>, at: int, id: CompatibleIdModel, interfaces: Set<u8>)
    requires
        stands_at(blob, at, compatible_id_bytes(id)),
        id_acceptable(id),
        identifier_valid(id.compatible_id),
        identifier_valid(id.sub_compatible_id),
        interfaces.contains(id.interface),
    ensures
        compatible_id_bytes(id).len() == 24,
        interfaces.contains(blob[at]),
        blob[at + 1] == 1,
        !all_zero(blob.subrange(at + 2, at + 10)),
        padded_graphic(blob.subrange(at + 2, at + 18)),
        all_zero(blob.subrange(at + 18, at + 24)),
{
    let feature = compatible_id_bytes(id);
    let first = identifier_bytes(id.compatible_id);
    let second = identifier_bytes(id.sub_compatible_id);
    assert forall|i: int| 0 <= i < 24 implies blob[at + i] == #[trigger] feature[i] by {
        lemma_byte_stands(blob, at, feature, i);
    }
    assert(feature[0] == id.interface && feature[1] == 1);
    assert(blob[at + 0] == feature[0]);
    assert(blob[at + 1] == feature[1]);
    assert forall|i: int| 0 <= i < 8 implies feature[2 + i] == #[trigger] first[i] by {}
    assert forall|i: int| 0 <= i < 8 implies feature[10 + i] == #[trigger] second[i] by {}
    assert(first[0] != 0) by {
        assert(0x21 <= (id.compatible_id[0] as u32) <= 0x7e);
        lemma_ascii_char(id.compatible_id[0]);
    }
    assert(blob.subrange(at + 2, at + 10)[0] == feature[2]);
    let texts = blob.subrange(at + 2, at + 18);
    let reserved = blob.subrange(at + 18, at + 24);
    assert forall|i: int| 0 <= i < 16 implies #[trigger] texts[i] == 0 || 0x21 <= texts[i]
        <= 0x7e by {
        assert(texts[i] == feature[2 + i]);
        if i < 8 {
            assert(feature[2 + i] == first[i]);
            if i < id.compatible_id.len() {
                assert(0x21 <= (id.compatible_id[i] as u32) <= 0x7e);
                lemma_ascii_char(id.compatible_id[i]);
            }
        } else {
            assert(feature[10 + (i - 8)] == second[i - 8]);
            if i - 8 < id.sub_compatible_id.len() {
                assert(0x21 <= (id.sub_compatible_id[i - 8] as u32) <= 0x7e);
                lemma_ascii_char(id.sub_compatible_id[i - 8]);
            }
        }
    }
    assert forall|i: int| 0 <= i < 6 implies #[trigger] reserved[i] == 0 by {
        assert(reserved[i] == feature[18 + i]);
    }
}

/// What writing features appends to `out`.
proof fn lemma_features_appended(
    ids: Seq<CompatibleIdModel>,
    interfaces: Set<u8>,
    seen: Set<u8>,
    out: Seq<u8>,
)
    requires
        compatible_features(ids, interfaces, seen, out) is Ok,
    ensures
        out.is_prefix_of(compatible_features(ids, interfaces, seen, out)->Ok_0),
        compatible_features(ids, interfaces, seen, out)->Ok_0.len() == out.len() + 24 * ids.len(),
    decreases ids.len(),
{
    let end = compatible_features(ids, interfaces, seen, out)->Ok_0;
    if ids.len() > 0 {
        let next = out + compatible_id_bytes(ids[0]);
        lemma_features_appended(ids.skip(1), interfaces, seen.insert(ids[0].interface), next);
        assert(compatible_id_bytes(ids[0]).len() == 24);
        assert(out =~= next.subrange(0, out.len() as int));
        assert(out =~= end.subrange(0, out.len() as int)) by {
            assert(next =~= end.subrange(0, next.len() as int));
        }
    } else {
        assert(out =~= out.subrange(0, out.len() as int));
    }
}

/// FunctionFS takes features as they were written.
proof fn lemma_features_taken(
    ids: Seq<CompatibleIdModel>,
    interfaces: Set<u8>,
    seen: Set<u8>,
    out: Seq<u8>,
    blob: Seq<u8>,
    base: int,
)
    requires
        compatible_features(ids, interfaces, seen, out) is Ok,
        forall|i: int| 0 <= i < ids.len() ==> id_acceptable(#[trigger] ids[i]),
        stands_at(blob, base, compatible_features(ids, interfaces, seen, out)->Ok_0),
    ensures
        compatible_ids(blob, base + out.len(), ids.len(), interfaces) == Ok::<
            (),
            FunctionFsError,
        >(()),
    decreases ids.len(),
{
    if ids.len() > 0 {
        let end = compatible_features(ids, interfaces, seen, out)->Ok_0;
        let next = out + compatible_id_bytes(ids[0]);
        let rest = ids.skip(1);
        assert(id_acceptable(ids[0]));
        lemma_features_appended(rest, interfaces, seen.insert(ids[0].interface), next);
        assert(compatible_id_bytes(ids[0]).len() == 24);
        assert(end.subrange(out.len() as int, out.len() as int + 24) =~= compatible_id_bytes(ids[0])) by {
            assert(next =~= end.subrange(0, next.len() as int));
            assert forall|i: int| 0 <= i < 24 implies end[out.len() + i] == compatible_id_bytes(
                ids[0],
            )[i] by {
                assert(end.subrange(0, next.len() as int)[out.len() + i] == next[out.len() + i]);
            }
        }
        lemma_part_stands(blob, base, end, out.len() as int, compatible_id_bytes(ids[0]));
        lemma_feature_taken(blob, base + out.len(), ids[0], interfaces);
        assert forall|i: int| 0 <= i < rest.len() implies id_acceptable(#[trigger] rest[i]) by {
            assert(rest[i] == ids[i + 1]);
        }
        lemma_features_taken(
            rest,
            interfaces,
            seen.insert(ids[0].interface),
            next,
            blob,
            base,
        );
    }
}

/// FunctionFS takes a compatible-ID section that has compatible IDs.
#[verifier::rlimit(40)]
proof fn lemma_section_taken(ids: Seq<CompatibleIdModel>, interfaces: Set<u8>)
    requires
        compatible_id_section(ids, interfaces) is Ok,
        ids.len() > 0,
        forall|i: int| 0 <= i < ids.len() ==> id_acceptable(#[trigger] ids[i]),
    ensures
        chunk_taken(compatible_id_section(ids, interfaces)->Ok_0, interfaces),
{
    reveal(chunk_taken);
    let chunk = compatible_id_section(ids, interfaces)->Ok_0;
    let length = (11 + 24 * ids.len()) as u32;
    let count = ids.len() as u16;
    let header = os_header(ids[0].interface, length, 4, count);
    lemma_features_appended(ids, interfaces, Set::empty(), header);
    lemma_le32_round_trip(length);
    assert(header.len() == 11);
    assert(chunk.len() == length);
    assert(stands_at(chunk, 0, header)) by {
        assert(header =~= chunk.subrange(0, header.len() as int));
    }
    lemma_header_read(chunk, 0, ids[0].interface, length, 4, count);
    assert forall|blob: Seq<u8>, at: int| #[trigger]
        stands_at(blob, at, chunk) && blob.len() <= u32::MAX implies os_descriptor_end(
        blob,
        at,
        interfaces,
    ) == Ok::<int, FunctionFsError>(at + chunk.len()) by {
        lemma_part_stands(blob, at, chunk, 0, header);
        lemma_header_read(blob, at, ids[0].interface, length, 4, count);
        lemma_features_taken(ids, interfaces, Set::empty(), header, blob, at);
        assert(interfaces.contains(ids[0].interface));
        lemma_le16_round_trip(count);
        lemma_byte_stands(blob, at, header, 9);
        lemma_byte_stands(blob, at, header, 10);
        assert(header[9] == le16(count)[0] && header[10] == le16(count)[1]);
        assert(blob[at + 9] == count && blob[at + 10] == 0);
        assert(extended_compat_id(blob, at, at + chunk.len(), interfaces) == Ok::<
            (),
            FunctionFsError,
        >(()));
    }
}

/// The name of a property takes two bytes for each code unit, and ends with a zero.
pub proof fn lemma_property_name(property: PropertyModel)
    ensures
        ({
            let bytes = words_bytes(property_name(property.name));
            &&& bytes.len() == 2 * property_name(property.name).len()
            &&& bytes.len() > 0
            &&& bytes.last() == 0
        }),
{
    let words = property_name(property.name);
    lemma_words_bytes_len(words);
    lemma_words_in_bytes(words, words.len() - 1);
    assert(words.last() == 0);
}

/// An ASCII name of a property is well-formed UTF-8 in the bytes before the last.
pub proof fn lemma_ascii_names_are_acceptable(property: PropertyModel)
    requires
        1 <= property.data_type <= 7,
        forall|i: int|
            0 <= i < property.name.len() ==> #[trigger] (property.name[i] as u32) < 128,
    ensures
        property_acceptable(property),
{
    let words = property_name(property.name);
    let bytes = words_bytes(words);
    lemma_words_bytes_len(words);
    lemma_ascii_words(property.name);
    assert forall|i: int| 0 <= i < bytes.len() implies bytes[i] < 128 by {
        let k = i / 2;
        lemma_words_in_bytes(words, k);
        assert(words[k] < 128);
        assert(i == 2 * k || i == 2 * k + 1);
    }
    lemma_ascii_utf8(bytes.drop_last());
}

proof fn lemma_ascii_words(name: Seq<char>)
    requires
        forall|i: int| 0 <= i < name.len() ==> #[trigger] (name[i] as u32) < 128,
    ensures
        forall|i: int| 0 <= i < encode_utf16(name).len() ==> encode_utf16(name)[i] < 128,
    decreases name.len(),
{
    if name.len() > 0 {
        let init = name.drop_last();
        assert forall|i: int| 0 <= i < init.len() implies #[trigger] (init[i] as u32) < 128 by {
            assert((name[i] as u32) < 128);
        }
        lemma_ascii_words(init);
        assert((name[name.len() - 1] as u32) < 128);
        lemma_ascii_char(name.last());
        let head = encode_utf16(init);
        let words = encode_utf16(name);
        assert(words == head + seq![name.last() as u16]);
        assert forall|i: int| 0 <= i < words.len() implies words[i] < 128 by {
            if i < head.len() {
                assert(words[i] == head[i]);
            }
        }
    }
}

/// Where fields stand that are written one behind the other.
pub proof fn lemma_fields(
    size: Seq<u8>,
    kind: Seq<u8>,
    name_length: Seq<u8>,
    name: Seq<u8>,
    data_length: Seq<u8>,
    data: Seq<u8>,
)
    requires
        size.len() == 4,
        kind.len() == 4,
        name_length.len() == 2,
        data_length.len() == 4,
    ensures
        ({
            let whole = size + kind + name_length + name + data_length + data;
            let end = 10 + name.len() as int;
            &&& whole.len() == 14 + name.len() + data.len()
            &&& whole.subrange(0, 4) == size
            &&& whole.subrange(4, 8) == kind
            &&& whole.subrange(8, 10) == name_length
            &&& whole.subrange(10, end) == name
            &&& whole.subrange(end, end + 4) == data_length
            &&& whole.subrange(end + 4, whole.len() as int) == data
        }),
{
    let whole = size + kind + name_length + name + data_length + data;
    let end = 10 + name.len() as int;
    assert(whole.subrange(0, 4) =~= size);
    assert(whole.subrange(4, 8) =~= kind);
    assert(whole.subrange(8, 10) =~= name_length);
    assert(whole.subrange(10, end) =~= name);
    assert(whole.subrange(end, end + 4) =~= data_length);
    assert(whole.subrange(end + 4, whole.len() as int) =~= data);
}

/// FunctionFS takes an acceptable property that stands in a blob.
#[verifier::rlimit(40)]
proof fn lemma_property_taken(blob: Seq<u8>, at: int, end: int, property: PropertyModel)
    requires
        stands_at(blob, at, property_bytes(property)),
        blob.len() <= u32::MAX,
        property_acceptable(property),
        2 * property_name(property.name).len() <= 65535,
        at + property_bytes(property).len() <= end <= blob.len(),
    ensures
        property_end(blob, at, end) == Ok::<int, FunctionFsError>(
            at + property_bytes(property).len(),
        ),
{
    let bytes = property_bytes(property);
    let name = property_name(property.name);
    let text = words_bytes(name);
    let name_length = (2 * name.len()) as u16;
    lemma_property_name(property);
    let size = bytes.len() as u32;
    let data_length = property.data.len() as u32;
    let full = 14 + 2 * name.len() + property.data.len();
    lemma_le32_round_trip(low_word(full));
    lemma_le32_round_trip(property.data_type);
    lemma_le16_round_trip(name_length);
    lemma_le32_round_trip(low_word(property.data.len()));
    lemma_fields(
        le32(low_word(full)),
        le32(property.data_type),
        le16(name_length),
        text,
        le32(low_word(property.data.len())),
        property.data,
    );
    assert(bytes.len() == full);
    assert(low_word(full) == size);
    assert(low_word(property.data.len()) == data_length);
    lemma_property_read(blob, at, end, bytes, property.data_type, text, data_length);
}

/// FunctionFS takes the fields of a property where they stand.
#[verifier::rlimit(40)]
proof fn lemma_property_read(
    blob: Seq<u8>,
    at: int,
    end: int,
    bytes: Seq<u8>,
    data_type: u32,
    text: Seq<u8>,
    data_length: u32,
)
    requires
        stands_at(blob, at, bytes),
        blob.len() <= u32::MAX,
        at + bytes.len() <= end <= blob.len(),
        1 <= data_type <= 7,
        0 < text.len() <= 65535,
        text.last() == 0,
        valid_utf8(text.drop_last()),
        bytes.len() == 14 + text.len() + data_length,
        bytes.subrange(0, 4) == le32(bytes.len() as u32),
        bytes.subrange(4, 8) == le32(data_type),
        bytes.subrange(8, 10) == le16(text.len() as u16),
        bytes.subrange(10, 10 + text.len() as int) == text,
        bytes.subrange(10 + text.len() as int, 14 + text.len() as int) == le32(data_length),
    ensures
        property_end(blob, at, end) == Ok::<int, FunctionFsError>(at + bytes.len()),
{
    let size = bytes.len() as u32;
    let name_length = text.len() as u16;
    let name_end = 10 + text.len() as int;
    lemma_part_stands(blob, at, bytes, 0, le32(size));
    lemma_part_stands(blob, at, bytes, 4, le32(data_type));
    lemma_part_stands(blob, at, bytes, 8, le16(name_length));
    lemma_part_stands(blob, at, bytes, 10, text);
    lemma_part_stands(blob, at, bytes, name_end, le32(data_length));
    lemma_word_in(blob, at, size);
    lemma_word_in(blob, at + 4, data_type);
    lemma_half_word_in(blob, at + 8, name_length);
    lemma_word_in(blob, at + name_end, data_length);
    assert(blob.subrange(at + 10, at + name_end) == text);
}

/// FunctionFS takes the properties of an interface as they were written: behind the first `done`
/// of all properties it stands behind what was written of them.
#[verifier::rlimit(40)]
proof fn lemma_features_read(
    all: Seq<PropertyModel>,
    interface: u8,
    done: int,
    interfaces: Set<u8>,
    blob: Seq<u8>,
    start: int,
)
    requires
        0 <= done <= all.len(),
        forall|i: int| 0 <= i < all.len() ==> property_acceptable(#[trigger] all[i]),
        forall|i: int|
            0 <= i < all.len() ==> property_error(#[trigger] all[i], interfaces) is None,
        stands_at(blob, start, property_features(all, interface)),
        blob.len() <= u32::MAX,
    ensures
        property_count(all.take(done), interface) <= property_count(all, interface),
        property_features(all.take(done), interface).is_prefix_of(
            property_features(all, interface),
        ),
        properties(
            blob,
            start,
            property_count(all, interface),
            start + property_features(all, interface).len(),
        ) == properties(
            blob,
            start + property_features(all.take(done), interface).len(),
            (property_count(all, interface) - property_count(all.take(done), interface)) as nat,
            start + property_features(all, interface).len(),
        ),
    decreases done,
{
    let whole = property_features(all, interface);
    lemma_features_prefix(all, interface, done);
    if done > 0 {
        let before = all.take(done - 1);
        let after = all.take(done);
        assert(after.drop_last() =~= before);
        lemma_features_read(all, interface, done - 1, interfaces, blob, start);
        let property = all[done - 1];
        if property.interface == interface {
            let head = property_features(before, interface);
            let bytes = property_bytes(property);
            let end = property_features(after, interface);
            assert(end == head + bytes);
            assert(whole.subrange(head.len() as int, head.len() + bytes.len() as int) =~= bytes) by {
                assert(end =~= whole.subrange(0, end.len() as int));
                assert forall|i: int| 0 <= i < bytes.len() implies whole[head.len() + i]
                    == bytes[i] by {
                    assert(whole.subrange(0, end.len() as int)[head.len() + i] == end[head.len()
                        + i]);
                }
            }
            lemma_part_stands(blob, start, whole, head.len() as int, bytes);
            assert(property_error(property, interfaces) is None);
            lemma_property_taken(
                blob,
                start + head.len(),
                start + whole.len(),
                property,
            );
            let left = (property_count(all, interface) - property_count(before, interface)) as nat;
            assert(left > 0);
        } else {
            assert(property_features(after, interface) =~= property_features(before, interface));
        }
    } else {
        assert(all.take(0) =~= seq![]);
        assert(property_features(all.take(0), interface) =~= seq![]);
    }
}

/// What was written of the first properties stands first.
pub proof fn lemma_features_prefix(all: Seq<PropertyModel>, interface: u8, done: int)
    requires
        0 <= done <= all.len(),
    ensures
        property_count(all.take(done), interface) <= property_count(all, interface),
        property_features(all.take(done), interface).is_prefix_of(
            property_features(all, interface),
        ),
    decreases all.len() - done,
{
    let part = property_features(all.take(done), interface);
    if done == all.len() {
        assert(all.take(done) =~= all);
        assert(part =~= part.subrange(0, part.len() as int));
    } else {
        lemma_features_prefix(all, interface, done + 1);
        assert(all.take(done + 1).drop_last() =~= all.take(done));
        let next = property_features(all.take(done + 1), interface);
        let whole = property_features(all, interface);
        assert(part =~= next.subrange(0, part.len() as int));
        assert(part =~= whole.subrange(0, part.len() as int)) by {
            assert(next =~= whole.subrange(0, next.len() as int));
        }
    }
}

/// An interface that has properties has at least one.
proof fn lemma_group_is_not_empty(all: Seq<PropertyModel>, interface: u8)
    requires
        property_interfaces(all).contains(interface),
    ensures
        property_count(all, interface) > 0,
{
    let numbers = all.map_values(|property: PropertyModel| property.interface);
    let k = choose|k: int| 0 <= k < numbers.len() && numbers[k] == interface;
    assert(all[k].interface == interface);
    assert(all.take(k + 1).last() == all[k]);
    lemma_features_prefix(all, interface, k + 1);
}

/// The extended-properties descriptor of an interface.
spec fn group_chunk(all: Seq<PropertyModel>, interface: u8) -> Seq<u8> {
    let features = property_features(all, interface);
    os_header(
        interface,
        low_word(11 + features.len()),
        5,
        property_count(all, interface) as u16,
    ) + features
}

/// FunctionFS takes the extended-properties descriptor of an interface where it stands.
#[verifier::rlimit(40)]
proof fn lemma_group_read(
    all: Seq<PropertyModel>,
    interface: u8,
    interfaces: Set<u8>,
    blob: Seq<u8>,
    at: int,
)
    requires
        0 < property_count(all, interface) <= 65535,
        interfaces.contains(interface),
        forall|i: int| 0 <= i < all.len() ==> property_acceptable(#[trigger] all[i]),
        forall|i: int|
            0 <= i < all.len() ==> property_error(#[trigger] all[i], interfaces) is None,
        11 + property_features(all, interface).len() <= u32::MAX,
        stands_at(blob, at, group_chunk(all, interface)),
        blob.len() <= u32::MAX,
    ensures
        os_descriptor_end(blob, at, interfaces) == Ok::<int, FunctionFsError>(
            at + group_chunk(all, interface).len(),
        ),
{
    let chunk = group_chunk(all, interface);
    let features = property_features(all, interface);
    let length = (11 + features.len()) as u32;
    let count = property_count(all, interface) as u16;
    let header = os_header(interface, length, 5, count);
    let end = at + chunk.len();
    assert(low_word(11 + features.len()) == length);
    assert(header.len() == 11);
    assert(chunk.subrange(0, 11) =~= header);
    assert(chunk.subrange(11, chunk.len() as int) =~= features);
    lemma_part_stands(blob, at, chunk, 0, header);
    lemma_part_stands(blob, at, chunk, 11, features);
    lemma_header_read(blob, at, interface, length, 5, count);
    lemma_features_read(all, interface, all.len() as int, interfaces, blob, at + 11);
    assert(all.take(all.len() as int) =~= all);
    assert(properties(blob, end, 0, end) == Ok::<(), FunctionFsError>(()));
    assert(extended_properties(blob, at, end) == Ok::<(), FunctionFsError>(()));
}

/// FunctionFS takes the extended-properties descriptor of an interface.
#[verifier::rlimit(40)]
proof fn lemma_group_taken(all: Seq<PropertyModel>, interface: u8, interfaces: Set<u8>)
    requires
        property_interfaces(all).contains(interface),
        property_count(all, interface) <= 65535,
        forall|i: int| 0 <= i < all.len() ==> property_acceptable(#[trigger] all[i]),
        forall|i: int|
            0 <= i < all.len() ==> property_error(#[trigger] all[i], interfaces) is None,
        11 + property_features(all, interface).len() <= u32::MAX,
    ensures
        chunk_taken(group_chunk(all, interface), interfaces),
{
    reveal(chunk_taken);
    let chunk = group_chunk(all, interface);
    let features = property_features(all, interface);
    let length = (11 + features.len()) as u32;
    let count = property_count(all, interface) as u16;
    let header = os_header(interface, length, 5, count);
    assert(low_word(11 + features.len()) == length);
    assert(header.len() == 11);
    lemma_group_is_not_empty(all, interface);
    assert(stands_at(chunk, 0, header)) by {
        assert(chunk.subrange(0, 11) =~= header);
    }
    lemma_header_read(chunk, 0, interface, length, 5, count);
    assert(chunk.subrange(11, chunk.len() as int) =~= features);
    assert(interfaces.contains(interface)) by {
        let numbers = all.map_values(|property: PropertyModel| property.interface);
        let k = choose|k: int| 0 <= k < numbers.len() && numbers[k] == interface;
        assert(property_error(all[k], interfaces) is None);
        assert(all[k].interface == interface);
    }
    assert forall|blob: Seq<u8>, at: int| #[trigger]
        stands_at(blob, at, chunk) && blob.len() <= u32::MAX implies os_descriptor_end(
        blob,
        at,
        interfaces,
    ) == Ok::<int, FunctionFsError>(at + chunk.len()) by {
        lemma_group_read(all, interface, interfaces, blob, at);
    }
}

/// The extended-properties descriptors of several interfaces.
spec fn group_chunks(all: Seq<PropertyModel>, groups: Seq<u8>) -> Seq<Seq<u8>> {
    groups.map_values(|interface: u8| group_chunk(all, interface))
}

/// Writing property groups appends their chunks.
proof fn lemma_groups_appended(all: Seq<PropertyModel>, groups: Seq<u8>, out: Seq<u8>)
    requires
        property_groups(all, groups, out) is Ok,
    ensures
        property_groups(all, groups, out)->Ok_0 == out + joined(group_chunks(all, groups)),
        forall|i: int| 0 <= i < groups.len() ==> property_count(all, #[trigger] groups[i]) <= 65535,
    decreases groups.len(),
{
    let chunks = group_chunks(all, groups);
    if groups.len() > 0 {
        let rest = groups.skip(1);
        let next = out + group_chunk(all, groups[0]);
        let features = property_features(all, groups[0]);
        let header = os_header(
            groups[0],
            low_word(11 + features.len()),
            5,
            property_count(all, groups[0]) as u16,
        );
        assert(out + header + features =~= next);
        lemma_groups_appended(all, rest, next);
        assert(chunks[0] == group_chunk(all, groups[0]));
        assert(chunks.skip(1) =~= group_chunks(all, rest));
        assert(out + joined(chunks) =~= next + joined(group_chunks(all, rest)));
        assert forall|i: int| 0 <= i < groups.len() implies property_count(
            all,
            #[trigger] groups[i],
        ) <= 65535 by {
            if i > 0 {
                assert(rest[i - 1] == groups[i]);
            }
        }
    } else {
        assert(chunks =~= seq![]);
        assert(out + joined(chunks) =~= out);
    }
}

/// No chunk is longer than the run that it belongs to.
proof fn lemma_chunk_within(chunks: Seq<Seq<u8>>, i: int)
    requires
        0 <= i < chunks.len(),
    ensures
        chunks[i].len() <= joined(chunks).len(),
    decreases chunks.len(),
{
    if i > 0 {
        lemma_chunk_within(chunks.skip(1), i - 1);
        assert(chunks.skip(1)[i - 1] == chunks[i]);
    }
}

proof fn lemma_each_property(all: Seq<PropertyModel>, interfaces: Set<u8>, i: int)
    requires
        properties_error(all, interfaces) is None,
        0 <= i < all.len(),
    ensures
        property_error(all[i], interfaces) is None,
    decreases all.len(),
{
    if i > 0 {
        lemma_each_property(all.skip(1), interfaces, i - 1);
        assert(all.skip(1)[i - 1] == all[i]);
    }
}

/// The Microsoft OS descriptors of a declaration, one by one.
spec fn declaration_chunks(declaration: MicrosoftModel, interfaces: Set<u8>) -> Seq<Seq<u8>> {
    let groups = group_chunks(
        declaration.registry_properties,
        ascending_bytes(property_interfaces(declaration.registry_properties)),
    );
    if declaration.compatible_ids.len() == 0 {
        groups
    } else {
        seq![compatible_id_section(declaration.compatible_ids, interfaces)->Ok_0] + groups
    }
}

/// The descriptors of an acceptable declaration are chunks that FunctionFS takes.
#[verifier::rlimit(40)]
proof fn lemma_declaration_chunks(declaration: MicrosoftModel, interfaces: Set<u8>)
    requires
        os_descriptors(declaration, interfaces) is Ok,
        declaration_acceptable(declaration),
        os_descriptors(declaration, interfaces)->Ok_0.len() <= u32::MAX,
    ensures
        os_descriptors(declaration, interfaces)->Ok_0 == joined(
            declaration_chunks(declaration, interfaces),
        ),
        forall|i: int|
            0 <= i < declaration_chunks(declaration, interfaces).len() ==> chunk_taken(
                #[trigger] declaration_chunks(declaration, interfaces)[i],
                interfaces,
            ),
{
    let all = declaration.registry_properties;
    let ids = declaration.compatible_ids;
    let numbers = ascending_bytes(property_interfaces(all));
    let section = compatible_id_section(ids, interfaces)->Ok_0;
    let groups = group_chunks(all, numbers);
    let chunks = declaration_chunks(declaration, interfaces);
    lemma_groups_appended(all, numbers, section);
    lemma_groups_taken(all, interfaces, section);
    if ids.len() == 0 {
        assert(section + joined(groups) =~= joined(groups));
    } else {
        assert(chunks.skip(1) =~= groups);
        assert(chunks[0] == section);
        lemma_section_taken(ids, interfaces);
    }
    assert forall|i: int| 0 <= i < chunks.len() implies chunk_taken(
        #[trigger] chunks[i],
        interfaces,
    ) by {
        if ids.len() == 0 {
            assert(chunks[i] == groups[i]);
        } else if i > 0 {
            assert(chunks[i] == groups[i - 1]);
        }
    }
}

/// FunctionFS takes every property group.
proof fn lemma_groups_taken(all: Seq<PropertyModel>, interfaces: Set<u8>, out: Seq<u8>)
    requires
        properties_error(all, interfaces) is None,
        forall|i: int| 0 <= i < all.len() ==> property_acceptable(#[trigger] all[i]),
        property_groups(all, ascending_bytes(property_interfaces(all)), out) is Ok,
        property_groups(all, ascending_bytes(property_interfaces(all)), out)->Ok_0.len()
            <= u32::MAX,
    ensures
        forall|k: int|
            0 <= k < ascending_bytes(property_interfaces(all)).len() ==> chunk_taken(
                #[trigger] group_chunks(all, ascending_bytes(property_interfaces(all)))[k],
                interfaces,
            ),
{
    let numbers = ascending_bytes(property_interfaces(all));
    let groups = group_chunks(all, numbers);
    lemma_groups_appended(all, numbers, out);
    lemma_ascending_bytes(property_interfaces(all));
    assert forall|i: int| 0 <= i < all.len() implies property_error(
        #[trigger] all[i],
        interfaces,
    ) is None by {
        lemma_each_property(all, interfaces, i);
    }
    assert forall|k: int| 0 <= k < numbers.len() implies chunk_taken(
        #[trigger] groups[k],
        interfaces,
    ) by {
        assert(numbers.contains(numbers[k]));
        lemma_chunk_within(groups, k);
        assert(groups[k] == group_chunk(all, numbers[k]));
        lemma_group_length(all, numbers[k]);
        lemma_group_taken(all, numbers[k], interfaces);
    }
}

proof fn lemma_group_length(all: Seq<PropertyModel>, interface: u8)
    ensures
        group_chunk(all, interface).len() == 11 + property_features(all, interface).len(),
{
}

/// FunctionFS takes the Microsoft OS descriptors of an acceptable declaration, wherever they stand
/// in a blob: it finds as many as the projection counts, and they end where they were written to
/// end.
pub proof fn lemma_os_descriptors_are_taken(
    declaration: MicrosoftModel,
    interfaces: Set<u8>,
    blob: Seq<u8>,
    at: int,
)
    requires
        os_descriptors(declaration, interfaces) is Ok,
        declaration_acceptable(declaration),
        stands_at(blob, at, os_descriptors(declaration, interfaces)->Ok_0),
        blob.len() <= u32::MAX,
    ensures
        ({
            let os = os_descriptors(declaration, interfaces)->Ok_0;
            &&& os_descriptor_count(os, 0, 0) is Ok
            &&& os.len() > 0 ==> os_descriptor_count(os, 0, 0)->Ok_0 > 0
            &&& os_descriptor_count(os, 0, 0)->Ok_0 <= u32::MAX
            &&& os_descriptors_end(blob, at, os_descriptor_count(os, 0, 0)->Ok_0, interfaces)
                == Ok::<int, FunctionFsError>(at + os.len())
        }),
{
    let os = os_descriptors(declaration, interfaces)->Ok_0;
    let chunks = declaration_chunks(declaration, interfaces);
    lemma_declaration_chunks(declaration, interfaces);
    lemma_chunks_taken(chunks, interfaces, blob, at);
    assert(os.subrange(0, os.len() as int) =~= os);
    lemma_chunks_counted(chunks, interfaces, os, 0, 0);
    lemma_chunk_count(chunks, interfaces);
}

proof fn lemma_chunk_count(chunks: Seq<Seq<u8>>, interfaces: Set<u8>)
    requires
        forall|i: int| 0 <= i < chunks.len() ==> chunk_taken(#[trigger] chunks[i], interfaces),
    ensures
        chunks.len() <= joined(chunks).len(),
        joined(chunks).len() > 0 ==> chunks.len() > 0,
    decreases chunks.len(),
{
    reveal(chunk_taken);
    if chunks.len() > 0 {
        let rest = chunks.skip(1);
        assert(chunk_taken(chunks[0], interfaces));
        assert forall|i: int| 0 <= i < rest.len() implies chunk_taken(
            #[trigger] rest[i],
            interfaces,
        ) by {
            assert(rest[i] == chunks[i + 1]);
        }
        lemma_chunk_count(rest, interfaces);
    }
}

} // verus!
