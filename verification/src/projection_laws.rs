//! What holds of projected personalities: their texts read back, and FunctionFS takes their blobs.

use crate::bytes::{
    le16, le16_at, le32, le32_at, lemma_le16_round_trip, lemma_le32_round_trip, low_word,
};
use crate::functionfs::{
    language_tables_end, nul_at, string_run_end, strings_verdict, FunctionFsError, STRINGS_MAGIC,
};
use crate::native::{
    lemma_words_bytes_len, native_device_bytes, native_personality, native_strings, string_descriptor_bytes, string_fits,
    words_bytes, UgspPersonalityBuilder, NATIVE_LANGUAGE,
};
use crate::personality::StringModel;
use crate::text::{encode_utf16, lemma_utf16_round_trip};
use crate::usb_personality::{
    descriptor_words, find_string, first_language, identity_of, string_blob, text_of, text_run,
    IdentityModel, ProjectionError,
};
use vstd::prelude::*;
use vstd::utf8::{encode_scalar, encode_utf8, encode_utf8_valid_utf8};

verus! {

/// The first descriptor that fits an index and a language is found.
pub proof fn lemma_first_string_is_found(
    strings: Seq<StringModel>,
    index: u8,
    language: u16,
    at: int,
)
    requires
        0 <= at < strings.len(),
        strings[at].index == index && strings[at].language_id == language,
        forall|j: int|
            0 <= j < at ==> !((#[trigger] strings[j]).index == index && strings[j].language_id
                == language),
    ensures
        find_string(strings, index, language) == Some(strings[at].descriptor),
    decreases at,
{
    if at > 0 {
        let rest = strings.skip(1);
        assert forall|j: int| 0 <= j < at - 1 implies !((#[trigger] rest[j]).index == index
            && rest[j].language_id == language) by {
            assert(rest[j] == strings[j + 1]);
        }
        assert(rest[at - 1] == strings[at]);
        assert(!(strings[0].index == index && strings[0].language_id == language));
        lemma_first_string_is_found(rest, index, language, at - 1);
    }
}

/// The bytes of words hold the words, two bytes each.
pub proof fn lemma_words_in_bytes(words: Seq<u16>, i: int)
    requires
        0 <= i < words.len(),
    ensures
        words_bytes(words).len() == 2 * words.len(),
        words_bytes(words)[2 * i] == le16(words[i])[0],
        words_bytes(words)[2 * i + 1] == le16(words[i])[1],
    decreases words.len(),
{
    let init = words.drop_last();
    lemma_words_bytes_len(words);
    lemma_words_bytes_len(init);
    if i < init.len() {
        lemma_words_in_bytes(init, i);
    }
}

/// A text that fits into a string descriptor reads back from it.
pub proof fn lemma_string_descriptor_reads_back(
    strings: Seq<StringModel>,
    index: u8,
    language: u16,
    value: Seq<char>,
)
    requires
        string_fits(value),
        find_string(strings, index, language) == Some(string_descriptor_bytes(value)),
    ensures
        text_of(strings, index, language) == Ok::<Seq<char>, ProjectionError>(value),
{
    let words = encode_utf16(value);
    let descriptor = string_descriptor_bytes(value);
    lemma_words_bytes_len(words);
    assert(descriptor[0] == 2 + 2 * words.len());
    assert(descriptor[1] == 3);
    assert forall|i: int| 0 <= i < words.len() implies le16_at(descriptor, 2 + 2 * i) == words[i] by {
        lemma_words_in_bytes(words, i);
        lemma_le16_round_trip(words[i]);
        assert(descriptor[2 + 2 * i] == words_bytes(words)[2 * i]);
        assert(descriptor[2 + 2 * i + 1] == words_bytes(words)[2 * i + 1]);
    }
    assert(descriptor_words(descriptor) =~= words);
    lemma_utf16_round_trip(value);
}

/// A native device's identity reads back from the personality that was built for it: its
/// numbers, and its manufacturer, product and serial number.
#[verifier::rlimit(40)]
pub proof fn lemma_native_identity_reads_back(builder: UgspPersonalityBuilder)
    requires
        native_personality(builder) is Ok,
    ensures
        ({
            let personality = native_personality(builder)->Ok_0;
            let device = builder.device;
            &&& first_language(personality.strings) == Ok::<u16, ProjectionError>(NATIVE_LANGUAGE)
            &&& identity_of(personality.device, personality.strings, NATIVE_LANGUAGE) == Ok::<
                IdentityModel,
                ProjectionError,
            >(
                IdentityModel {
                    vendor_id: device.vendor_id,
                    product_id: device.product_id,
                    bcd_usb: device.usb_version,
                    bcd_device: device.device_version,
                    device_class: device.device_class,
                    device_subclass: device.device_subclass,
                    device_protocol: device.device_protocol,
                    manufacturer: Some(device.manufacturer@),
                    product: Some(device.product@),
                    serial: Some(device.serial_number@),
                },
            )
            &&& text_of(personality.strings, 4, NATIVE_LANGUAGE) == Ok::<
                Seq<char>,
                ProjectionError,
            >(device.interface_name@)
        }),
{
    let device = builder.device;
    let strings = native_strings(device);
    let bytes = native_device_bytes(device);
    lemma_first_string_is_found(strings, 0, 0, 0);
    lemma_first_string_is_found(strings, 1, NATIVE_LANGUAGE, 1);
    lemma_first_string_is_found(strings, 2, NATIVE_LANGUAGE, 2);
    lemma_first_string_is_found(strings, 3, NATIVE_LANGUAGE, 3);
    lemma_first_string_is_found(strings, 4, NATIVE_LANGUAGE, 4);
    lemma_string_descriptor_reads_back(strings, 1, NATIVE_LANGUAGE, device.manufacturer@);
    lemma_string_descriptor_reads_back(strings, 2, NATIVE_LANGUAGE, device.product@);
    lemma_string_descriptor_reads_back(strings, 3, NATIVE_LANGUAGE, device.serial_number@);
    lemma_string_descriptor_reads_back(strings, 4, NATIVE_LANGUAGE, device.interface_name@);
    let languages = strings[0].descriptor;
    assert(languages =~= seq![4u8, 3, 0x09, 0x04]);
    assert(le16_at(languages, 2) == NATIVE_LANGUAGE);
    lemma_le16_round_trip(device.usb_version);
    lemma_le16_round_trip(device.vendor_id);
    lemma_le16_round_trip(device.product_id);
    lemma_le16_round_trip(device.device_version);
    assert(bytes.subrange(2, 4) =~= le16(device.usb_version));
    assert(bytes.subrange(8, 10) =~= le16(device.vendor_id));
    assert(bytes.subrange(10, 12) =~= le16(device.product_id));
    assert(bytes.subrange(12, 14) =~= le16(device.device_version));
    assert(le16_at(bytes, 2) == le16_at(bytes.subrange(2, 4), 0));
    assert(le16_at(bytes, 8) == le16_at(bytes.subrange(8, 10), 0));
    assert(le16_at(bytes, 10) == le16_at(bytes.subrange(10, 12), 0));
    assert(le16_at(bytes, 12) == le16_at(bytes.subrange(12, 14), 0));
    assert(bytes[14] == 1 && bytes[15] == 2 && bytes[16] == 3 && bytes[17] == 1);
}

/// Whether no byte is zero.
pub open spec fn no_zero(bytes: Seq<u8>) -> bool {
    forall|i: int| 0 <= i < bytes.len() ==> bytes[i] != 0
}

/// The bytes of a character other than zero are not zero, and there are at most four of them.
proof fn lemma_scalar_bytes(scalar: u32)
    requires
        scalar != 0,
    ensures
        encode_scalar(scalar).len() <= 4,
        no_zero(encode_scalar(scalar)),
{
    assert(forall|b: u8| #[trigger] (0x80u8 | b) != 0) by (bit_vector);
    assert(forall|b: u8| #[trigger] (0xc0u8 | b) != 0) by (bit_vector);
    assert(forall|b: u8| #[trigger] (0xe0u8 | b) != 0) by (bit_vector);
    assert(forall|b: u8| #[trigger] (0xf0u8 | b) != 0) by (bit_vector);
    if scalar <= 0x7f {
        assert(scalar & 0x7f == scalar) by (bit_vector)
            requires
                scalar <= 0x7f,
        ;
    }
}

proof fn lemma_char_bytes(c: char)
    requires
        c != '\0',
    ensures
        encode_scalar(c as u32).len() <= 4,
        no_zero(encode_scalar(c as u32)),
{
    lemma_scalar_bytes(c as u32);
}

/// The UTF-8 of a text without zero characters has no zero byte, and at most four bytes for each
/// character.
pub proof fn lemma_text_bytes(text: Seq<char>)
    requires
        !text.contains('\0'),
    ensures
        encode_utf8(text).len() <= 4 * text.len(),
        no_zero(encode_utf8(text)),
    decreases text.len(),
{
    if text.len() > 0 {
        let rest = text.drop_first();
        assert(!rest.contains('\0')) by {
            if rest.contains('\0') {
                let k = choose|k: int| 0 <= k < rest.len() && rest[k] == '\0';
                assert(text[k + 1] == '\0');
            }
        }
        assert(text[0] != '\0');
        lemma_text_bytes(rest);
        lemma_char_bytes(text[0]);
    }
}

/// A text has at most as many characters as UTF-16 code units.
proof fn lemma_text_len(text: Seq<char>)
    ensures
        text.len() <= encode_utf16(text).len(),
    decreases text.len(),
{
    if text.len() > 0 {
        lemma_text_len(text.drop_last());
    }
}

/// The first zero byte behind bytes that are not zero.
proof fn lemma_nul_behind(bytes: Seq<u8>, offset: int, nul: int)
    requires
        0 <= offset <= nul < bytes.len(),
        bytes[nul] == 0,
        forall|i: int| offset <= i < nul ==> bytes[i] != 0,
    ensures
        nul_at(bytes, offset) == Some(nul),
    decreases nul - offset,
{
    if offset < nul {
        lemma_nul_behind(bytes, offset + 1, nul);
    }
}

/// A text in a personality has at most 127 characters.
proof fn lemma_text_of_len(strings: Seq<StringModel>, index: u8, language: u16)
    requires
        text_of(strings, index, language) is Ok,
    ensures
        text_of(strings, index, language)->Ok_0.len() <= 127,
{
    let descriptor = find_string(strings, index, language)->0;
    let words = descriptor_words(descriptor);
    let text = text_of(strings, index, language)->Ok_0;
    assert(encode_utf16(text) == words);
    lemma_text_len(text);
}

/// A run of texts is read as it was written, wherever it stands in a blob.
#[verifier::rlimit(40)]
proof fn lemma_text_run_is_read(
    strings: Seq<StringModel>,
    language: u16,
    indices: Seq<u8>,
    out: Seq<u8>,
    blob: Seq<u8>,
    base: int,
)
    requires
        text_run(strings, language, indices, out) is Ok,
        0 <= base,
        base + text_run(strings, language, indices, out)->Ok_0.len() <= blob.len(),
        blob.subrange(base, base + text_run(strings, language, indices, out)->Ok_0.len())
            == text_run(strings, language, indices, out)->Ok_0,
    ensures
        out.is_prefix_of(text_run(strings, language, indices, out)->Ok_0),
        text_run(strings, language, indices, out)->Ok_0.len() <= out.len() + 512 * indices.len(),
        string_run_end(blob, base + out.len(), indices.len()) == Ok::<int, FunctionFsError>(
            base + text_run(strings, language, indices, out)->Ok_0.len(),
        ),
    decreases indices.len(),
{
    let body = text_run(strings, language, indices, out)->Ok_0;
    if indices.len() > 0 {
        let text = text_of(strings, indices[0], language)->Ok_0;
        let bytes = encode_utf8(text);
        let next = out + bytes + seq![0u8];
        lemma_text_of_len(strings, indices[0], language);
        lemma_text_bytes(text);
        encode_utf8_valid_utf8(text);
        lemma_text_run_is_read(strings, language, indices.skip(1), next, blob, base);
        assert(next.is_prefix_of(body));
        let start = base + out.len();
        let nul = start + bytes.len();
        assert forall|i: int| 0 <= i < next.len() implies blob[base + i] == next[i] by {
            assert(body.subrange(0, next.len() as int)[i] == next[i]);
            assert(blob.subrange(base, base + body.len())[i] == body[i]);
        }
        assert(blob.subrange(start, nul) =~= bytes) by {
            assert forall|i: int| 0 <= i < bytes.len() implies blob.subrange(start, nul)[i]
                == bytes[i] by {
                assert(blob[base + (out.len() + i)] == next[out.len() + i]);
            }
        }
        assert(blob[base + (out.len() + bytes.len())] == next[(out.len() + bytes.len()) as int]);
        assert forall|i: int| start <= i < nul implies blob[i] != 0 by {
            assert(blob.subrange(start, nul)[i - start] == bytes[i - start]);
        }
        lemma_nul_behind(blob, start, nul);
        assert(out.is_prefix_of(body)) by {
            assert(out =~= next.subrange(0, out.len() as int));
            assert(out =~= body.subrange(0, out.len() as int));
        }
    } else {
        assert(out =~= out.subrange(0, out.len() as int));
    }
}

/// FunctionFS takes every string blob that a projection writes: the blob tells its own length, the
/// number of its strings and whether there is a language. With one more byte behind it the blob is
/// refused.
#[verifier::rlimit(40)]
pub proof fn lemma_string_blob_is_valid(
    strings: Seq<StringModel>,
    language: u16,
    indices: Seq<u8>,
)
    requires
        string_blob(strings, language, indices) is Ok,
        indices.len() <= 256,
    ensures
        ({
            let blob = string_blob(strings, language, indices)->Ok_0;
            &&& strings_verdict(blob) == Ok::<(), FunctionFsError>(())
            &&& le32_at(blob, 4) == blob.len()
            &&& le32_at(blob, 8) == indices.len()
            &&& le32_at(blob, 12) == (if indices.len() == 0 {
                0u32
            } else {
                1
            })
            &&& forall|byte: u8| #[trigger]
                strings_verdict(blob.push(byte)) == Err::<(), FunctionFsError>(
                    FunctionFsError::StringBlobLength,
                )
        }),
{
    let start = if indices.len() == 0 {
        seq![]
    } else {
        le16(language)
    };
    let body = text_run(strings, language, indices, start)->Ok_0;
    let blob = string_blob(strings, language, indices)->Ok_0;
    let languages: u32 = if indices.len() == 0 {
        0
    } else {
        1
    };
    assert(blob.subrange(16, 16 + body.len() as int) =~= body);
    lemma_text_run_is_read(strings, language, indices, start, blob, 16);
    let length = (16 + body.len()) as u32;
    assert(low_word(16 + body.len()) == length);
    assert(blob.subrange(0, 4) =~= le32(STRINGS_MAGIC));
    assert(blob.subrange(4, 8) =~= le32(length));
    assert(blob.subrange(8, 12) =~= le32(indices.len() as u32));
    assert(blob.subrange(12, 16) =~= le32(languages));
    lemma_word_in(blob, 0, STRINGS_MAGIC);
    lemma_word_in(blob, 4, length);
    lemma_word_in(blob, 8, indices.len() as u32);
    lemma_word_in(blob, 12, languages);
    if indices.len() == 0 {
        assert(body =~= seq![]);
        assert(language_tables_end(blob, 16, 0, 0) == Ok::<int, FunctionFsError>(16));
    } else {
        assert(language_tables_end(blob, blob.len() as int, 0, indices.len()) == Ok::<
            int,
            FunctionFsError,
        >(blob.len() as int));
        assert(language_tables_end(blob, 16, 1, indices.len()) == Ok::<int, FunctionFsError>(
            blob.len() as int,
        ));
    }
    assert forall|byte: u8| #[trigger]
        strings_verdict(blob.push(byte)) == Err::<(), FunctionFsError>(
            FunctionFsError::StringBlobLength,
        ) by {
        let longer = blob.push(byte);
        assert(longer.subrange(0, 4) =~= le32(STRINGS_MAGIC));
        assert(longer.subrange(4, 8) =~= le32(length));
        lemma_word_in(longer, 0, STRINGS_MAGIC);
        lemma_word_in(longer, 4, length);
    }
}

/// A word that stands in a blob is read there.
pub proof fn lemma_word_in(blob: Seq<u8>, at: int, word: u32)
    requires
        0 <= at,
        at + 4 <= blob.len(),
        blob.subrange(at, at + 4) == le32(word),
    ensures
        le32_at(blob, at) == word,
{
    lemma_le32_round_trip(word);
    let bytes = blob.subrange(at, at + 4);
    assert(bytes[0] == blob[at] && bytes[1] == blob[at + 1] && bytes[2] == blob[at + 2] && bytes[3]
        == blob[at + 3]);
}

} // verus!
