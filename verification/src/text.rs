//! Characters, UTF-8 and UTF-16.

use vstd::prelude::*;
use vstd::string::*;
use vstd::utf8::*;

verus! {

/// The contents of a text that may be missing.
pub open spec fn text_view(text: Option<String>) -> Option<Seq<char>> {
    match text {
        None => None,
        Some(text) => Some(text@),
    }
}

/// The UTF-16 code units of one character.
pub open spec fn utf16_units(c: char) -> Seq<u16> {
    let value = c as u32;
    if value < 0x10000 {
        seq![value as u16]
    } else {
        seq![
            (0xd800 + (value - 0x10000) / 0x400) as u16,
            (0xdc00 + (value - 0x10000) % 0x400) as u16,
        ]
    }
}

/// The UTF-16 code units of a text.
pub open spec fn encode_utf16(text: Seq<char>) -> Seq<u16>
    decreases text.len(),
{
    if text.len() == 0 {
        seq![]
    } else {
        encode_utf16(text.drop_last()) + utf16_units(text.last())
    }
}

proof fn lemma_units_differ(a: char, b: char)
    requires
        utf16_units(a).last() == utf16_units(b).last(),
        utf16_units(a).len() == utf16_units(b).len() ==> utf16_units(a)[0] == utf16_units(b)[0],
    ensures
        a == b,
{
    assert(a as u32 <= 0x10ffff && !(0xd800 <= a as u32 <= 0xdfff));
    assert(b as u32 <= 0x10ffff && !(0xd800 <= b as u32 <= 0xdfff));
    assert(a as u32 == b as u32);
}

/// Different texts have different UTF-16 encodings.
pub proof fn lemma_utf16_injective(a: Seq<char>, b: Seq<char>)
    requires
        encode_utf16(a) == encode_utf16(b),
    ensures
        a == b,
    decreases a.len(),
{
    if a.len() == 0 {
        if b.len() > 0 {
            assert(encode_utf16(b).len() > 0);
        }
        assert(a =~= b);
    } else if b.len() == 0 {
        assert(encode_utf16(a).len() > 0);
    } else {
        let ea = encode_utf16(a.drop_last());
        let eb = encode_utf16(b.drop_last());
        let ua = utf16_units(a.last());
        let ub = utf16_units(b.last());
        let whole = ea + ua;
        assert(whole == eb + ub);
        assert(whole.last() == ua.last());
        assert(whole.last() == ub.last());
        if ua.len() == ub.len() {
            assert(whole[whole.len() - ua.len()] == ua[0]);
            assert(whole[whole.len() - ub.len()] == ub[0]);
        }
        lemma_units_differ(a.last(), b.last());
        assert(ea =~= whole.take(whole.len() - ua.len()));
        assert(eb =~= whole.take(whole.len() - ub.len()));
        lemma_utf16_injective(a.drop_last(), b.drop_last());
        assert(a =~= a.drop_last().push(a.last()));
        assert(b =~= b.drop_last().push(b.last()));
    }
}

/// The UTF-16 code units of `text`.
pub fn utf16_words(text: &str) -> (words: Vec<u16>)
    ensures
        words@ == encode_utf16(text@),
{
    let chars = to_chars(text);
    let mut words: Vec<u16> = Vec::new();
    let mut i: usize = 0;
    while i < chars.len()
        invariant
            i <= chars@.len(),
            words@ == encode_utf16(chars@.take(i as int)),
        decreases chars@.len() - i,
    {
        let c = chars[i];
        let value: u32 = c as u32;
        proof {
            assert(chars@.take(i + 1).drop_last() =~= chars@.take(i as int));
            assert(chars@.take(i + 1).last() == c);
        }
        if value < 0x10000 {
            words.push(value as u16);
        } else {
            words.push((0xd800 + (value - 0x10000) / 0x400) as u16);
            words.push((0xdc00 + (value - 0x10000) % 0x400) as u16);
        }
        assert(words@ =~= encode_utf16(chars@.take(i as int)) + utf16_units(c));
        i = i + 1;
    }
    assert(chars@.take(chars@.len() as int) =~= chars@);
    words
}

/// The characters of `text`.
pub fn to_chars(text: &str) -> (chars: Vec<char>)
    ensures
        chars@ == text@,
{
    let mut chars: Vec<char> = Vec::new();
    for c in it: text.chars()
        invariant
            chars@ == text@.take(it.index()),
            it.seq() == text@,
    {
        assert(text@.take(it.index() + 1) =~= text@.take(it.index()).push(c));
        chars.push(c);
    }
    assert(text@.take(text@.len() as int) =~= text@);
    chars
}

/// Whether two texts are the same.
pub fn same_text(a: &str, b: &str) -> (same: bool)
    ensures
        same == (a@ == b@),
{
    let left = to_chars(a);
    let right = to_chars(b);
    same_chars(left.as_slice(), right.as_slice())
}

/// Whether two character slices are the same.
pub fn same_chars(a: &[char], b: &[char]) -> (same: bool)
    ensures
        same == (a@ == b@),
{
    if a.len() != b.len() {
        return false;
    }
    let mut i: usize = 0;
    while i < a.len()
        invariant
            i <= a@.len(),
            a@.len() == b@.len(),
            forall|k: int| 0 <= k < i ==> a@[k] == b@[k],
        decreases a@.len() - i,
    {
        if a[i] != b[i] {
            return false;
        }
        i = i + 1;
    }
    assert(a@ =~= b@);
    true
}

/// Whether two byte slices are the same.
pub fn same_bytes(a: &[u8], b: &[u8]) -> (same: bool)
    ensures
        same == (a@ == b@),
{
    if a.len() != b.len() {
        return false;
    }
    let mut i: usize = 0;
    while i < a.len()
        invariant
            i <= a@.len(),
            a@.len() == b@.len(),
            forall|k: int| 0 <= k < i ==> a@[k] == b@[k],
        decreases a@.len() - i,
    {
        if a[i] != b[i] {
            return false;
        }
        i = i + 1;
    }
    assert(a@ =~= b@);
    true
}

/// Whether `text` starts with `prefix`.
pub fn starts_with(text: &str, prefix: &str) -> (found: bool)
    ensures
        found == prefix@.is_prefix_of(text@),
{
    let chars = to_chars(text);
    let head = to_chars(prefix);
    if head.len() > chars.len() {
        return false;
    }
    let same = same_chars(
        vstd::slice::slice_subrange(chars.as_slice(), 0, head.len()),
        head.as_slice(),
    );
    same
}

/// Whether `text` has the character `wanted`.
pub fn has_char(text: &str, wanted: char) -> (found: bool)
    ensures
        found == text@.contains(wanted),
{
    let chars = to_chars(text);
    let mut i: usize = 0;
    while i < chars.len()
        invariant
            i <= chars@.len(),
            chars@ == text@,
            forall|k: int| 0 <= k < i ==> chars@[k] != wanted,
        decreases chars@.len() - i,
    {
        if chars[i] == wanted {
            return true;
        }
        i = i + 1;
    }
    false
}

/// Calls [`String::from_utf16`], which decodes UTF-16 code units. The contract says that a text
/// comes back exactly where the units are the UTF-16 encoding of one, and that it is that text.
#[verifier::external_body]
pub(crate) fn utf16_string(words: &[u16]) -> (text: Option<String>)
    ensures
        text matches Some(decoded) ==> encode_utf16(decoded@) == words@,
        text is None ==> forall|other: Seq<char>| #[trigger] encode_utf16(other) != words@,
{
    String::from_utf16(words).ok()
}

/// Calls [`std::str::from_utf8`], which decodes UTF-8. The contract says that a text comes back
/// exactly where the bytes are well-formed UTF-8, and that it is the text which they encode.
#[verifier::external_body]
pub(crate) fn utf8_string(bytes: &[u8]) -> (text: Option<String>)
    ensures
        text is Some <==> valid_utf8(bytes@),
        text matches Some(decoded) ==> decoded@ == decode_utf8(bytes@),
{
    std::str::from_utf8(bytes).ok().map(str::to_owned)
}

/// What decoding `words` as UTF-16 gives.
pub open spec fn decode_utf16(words: Seq<u16>) -> Option<Seq<char>> {
    if exists|text: Seq<char>| encode_utf16(text) == words {
        Some(choose|text: Seq<char>| encode_utf16(text) == words)
    } else {
        None
    }
}

/// Encoding a text as UTF-16 and decoding it gives the text back.
pub proof fn lemma_utf16_round_trip(text: Seq<char>)
    ensures
        decode_utf16(encode_utf16(text)) == Some(text),
{
    let words = encode_utf16(text);
    let found = choose|found: Seq<char>| encode_utf16(found) == words;
    lemma_utf16_injective(found, text);
}

/// The text that `words` encode in UTF-16, if they encode one.
pub fn from_utf16(words: &[u16]) -> (text: Option<String>)
    ensures
        text is Some <==> decode_utf16(words@) is Some,
        text matches Some(decoded) ==> decode_utf16(words@) == Some(decoded@),
{
    let text = utf16_string(words);
    proof {
        if text is Some {
            lemma_utf16_round_trip(text->0@);
        }
    }
    text
}

/// The characters that bytes below 128 stand for.
pub open spec fn ascii_text(bytes: Seq<u8>) -> Seq<char> {
    Seq::new(bytes.len(), |i: int| bytes[i] as char)
}

/// Bytes below 128 are well-formed UTF-8, one character each.
pub proof fn lemma_ascii_utf8(bytes: Seq<u8>)
    requires
        forall|i: int| 0 <= i < bytes.len() ==> bytes[i] < 128,
    ensures
        valid_utf8(bytes),
        decode_utf8(bytes) == ascii_text(bytes),
        encode_utf8(ascii_text(bytes)) == bytes,
{
    let text = ascii_text(bytes);
    assert(is_ascii_chars(text)) by {
        assert forall|i: int| 0 <= i < text.len() implies '\0' <= #[trigger] text[i] <= '\u{7f}' by {
            assert(bytes[i] < 128);
        }
    }
    is_ascii_chars_encode_utf8(text);
    assert(encode_utf8(text) =~= bytes);
    encode_utf8_valid_utf8(text);
    encode_utf8_decode_utf8(text);
}

/// The text of bytes below 128.
pub fn ascii_string(bytes: &[u8]) -> (text: String)
    requires
        forall|i: int| 0 <= i < bytes@.len() ==> bytes@[i] < 128,
    ensures
        text@ == ascii_text(bytes@),
{
    proof {
        lemma_ascii_utf8(bytes@);
    }
    match utf8_string(bytes) {
        Some(text) => text,
        None => String::new(),
    }
}

/// Whether a character is white space.
pub open spec fn white_space(c: char) -> bool {
    let code = c as u32;
    ||| 0x09 <= code <= 0x0d
    ||| code == 0x20
    ||| code == 0x85
    ||| code == 0xa0
    ||| code == 0x1680
    ||| 0x2000 <= code <= 0x200a
    ||| code == 0x2028
    ||| code == 0x2029
    ||| code == 0x202f
    ||| code == 0x205f
    ||| code == 0x3000
}

/// Whether a character is white space.
pub fn is_white_space(c: char) -> (found: bool)
    ensures
        found == white_space(c),
{
    let code: u32 = c as u32;
    (0x09 <= code && code <= 0x0d) || code == 0x20 || code == 0x85 || code == 0xa0 || code == 0x1680
        || (0x2000 <= code && code <= 0x200a) || code == 0x2028 || code == 0x2029 || code == 0x202f
        || code == 0x205f || code == 0x3000
}

/// What parts a text into pieces.
#[derive(Clone, Copy, Debug, Eq, PartialEq, Structural)]
pub enum Separator {
    Newline,
    WhiteSpace,
}

/// Whether a character parts a text.
pub open spec fn separates(separator: Separator, c: char) -> bool {
    match separator {
        Separator::Newline => c == '\n',
        Separator::WhiteSpace => white_space(c),
    }
}

/// Adds a piece to those found, unless it is empty.
pub open spec fn with_piece(found: Seq<Seq<char>>, piece: Seq<char>) -> Seq<Seq<char>> {
    if piece.len() == 0 {
        found
    } else {
        found.push(piece)
    }
}

/// The pieces of the rest of a text, behind those in `found` and the beginning `piece` of the
/// next one.
pub open spec fn pieces_from(
    rest: Seq<char>,
    separator: Separator,
    piece: Seq<char>,
    found: Seq<Seq<char>>,
) -> Seq<Seq<char>>
    decreases rest.len(),
{
    if rest.len() == 0 {
        with_piece(found, piece)
    } else if separates(separator, rest[0]) {
        pieces_from(rest.skip(1), separator, seq![], with_piece(found, piece))
    } else {
        pieces_from(rest.skip(1), separator, piece.push(rest[0]), found)
    }
}

/// The pieces of a text: the longest runs of characters that do not part it.
pub open spec fn pieces(text: Seq<char>, separator: Separator) -> Seq<Seq<char>> {
    pieces_from(text, separator, seq![], seq![])
}

/// The contents of a list of character vectors.
pub open spec fn chars_view(list: Seq<Vec<char>>) -> Seq<Seq<char>> {
    list.map_values(|piece: Vec<char>| piece@)
}

/// Splits characters into pieces.
pub fn split_pieces(chars: &Vec<char>, separator: Separator) -> (list: Vec<Vec<char>>)
    ensures
        chars_view(list@) == pieces(chars@, separator),
{
    let mut list: Vec<Vec<char>> = Vec::new();
    let mut piece: Vec<char> = Vec::new();
    let mut i: usize = 0;
    assert(chars@.skip(0) =~= chars@);
    assert(chars_view(list@) =~= seq![]);
    assert(piece@ =~= seq![]);
    while i < chars.len()
        invariant
            i <= chars@.len(),
            pieces(chars@, separator) == pieces_from(
                chars@.skip(i as int),
                separator,
                piece@,
                chars_view(list@),
            ),
        decreases chars@.len() - i,
    {
        let c = chars[i];
        assert(chars@.skip(i as int).skip(1) =~= chars@.skip(i + 1));
        let parts = match separator {
            Separator::Newline => c == '\n',
            Separator::WhiteSpace => is_white_space(c),
        };
        if parts {
            push_piece(&mut list, piece);
            piece = Vec::new();
            assert(piece@ =~= seq![]);
        } else {
            piece.push(c);
        }
        i = i + 1;
    }
    push_piece(&mut list, piece);
    list
}

fn push_piece(list: &mut Vec<Vec<char>>, piece: Vec<char>)
    ensures
        chars_view(final(list)@) == with_piece(chars_view(old(list)@), piece@),
{
    if piece.len() > 0 {
        list.push(piece);
        assert(chars_view(list@) =~= chars_view(old(list)@).push(piece@));
    }
}

} // verus!
