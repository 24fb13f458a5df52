//! Fixed-width integers inside byte sequences.

use vstd::arithmetic::div_mod::lemma_mod_multiples_vanish;
use vstd::prelude::*;

verus! {

/// The little-endian bytes of a 16-bit word.
pub open spec fn le16(x: u16) -> Seq<u8> {
    seq![(x % 256) as u8, (x / 256) as u8]
}

/// The little-endian bytes of a 32-bit word.
pub open spec fn le32(x: u32) -> Seq<u8> {
    seq![
        (x % 256) as u8,
        ((x / 256) % 256) as u8,
        ((x / 65536) % 256) as u8,
        (x / 16777216) as u8,
    ]
}

/// The big-endian bytes of a 16-bit word.
pub open spec fn be16(x: u16) -> Seq<u8> {
    seq![(x / 256) as u8, (x % 256) as u8]
}

/// The big-endian bytes of a 32-bit word.
pub open spec fn be32(x: u32) -> Seq<u8> {
    seq![
        (x / 16777216) as u8,
        ((x / 65536) % 256) as u8,
        ((x / 256) % 256) as u8,
        (x % 256) as u8,
    ]
}

/// The big-endian bytes of a 64-bit word.
pub open spec fn be64(x: u64) -> Seq<u8> {
    be32((x / 4294967296) as u32) + be32((x % 4294967296) as u32)
}

/// The little-endian 16-bit word that starts at index `at`.
pub open spec fn le16_at(bytes: Seq<u8>, at: int) -> u16 {
    (bytes[at] + 256 * bytes[at + 1]) as u16
}

/// The little-endian 32-bit word that starts at index `at`.
pub open spec fn le32_at(bytes: Seq<u8>, at: int) -> u32 {
    (bytes[at] + 256 * bytes[at + 1] + 65536 * bytes[at + 2] + 16777216 * bytes[at + 3]) as u32
}

/// The big-endian 16-bit word that starts at index `at`.
pub open spec fn be16_at(bytes: Seq<u8>, at: int) -> u16 {
    (256 * bytes[at] + bytes[at + 1]) as u16
}

/// The big-endian 32-bit word that starts at index `at`.
pub open spec fn be32_at(bytes: Seq<u8>, at: int) -> u32 {
    (16777216 * bytes[at] + 65536 * bytes[at + 1] + 256 * bytes[at + 2] + bytes[at + 3]) as u32
}

/// The big-endian 64-bit word that starts at index `at`.
pub open spec fn be64_at(bytes: Seq<u8>, at: int) -> u64 {
    (4294967296 * be32_at(bytes, at) + be32_at(bytes, at + 4)) as u64
}

/// A 16-bit little-endian word reads back as written.
pub proof fn lemma_le16_round_trip(x: u16)
    ensures
        le16(x).len() == 2,
        le16_at(le16(x), 0) == x,
{
}

/// A 32-bit little-endian word reads back as written.
pub proof fn lemma_le32_round_trip(x: u32)
    ensures
        le32(x).len() == 4,
        le32_at(le32(x), 0) == x,
{
}

/// A 16-bit big-endian word reads back as written.
pub proof fn lemma_be16_round_trip(x: u16)
    ensures
        be16(x).len() == 2,
        be16_at(be16(x), 0) == x,
{
}

/// A 32-bit big-endian word reads back as written.
pub proof fn lemma_be32_round_trip(x: u32)
    ensures
        be32(x).len() == 4,
        be32_at(be32(x), 0) == x,
{
}

/// A 64-bit big-endian word reads back as written.
pub proof fn lemma_be64_round_trip(x: u64)
    ensures
        be64(x).len() == 8,
        be64_at(be64(x), 0) == x,
{
    let high = (x / 4294967296) as u32;
    let low = (x % 4294967296) as u32;
    lemma_be32_round_trip(high);
    lemma_be32_round_trip(low);
    let bytes = be64(x);
    assert(forall|i: int| 0 <= i < 4 ==> bytes[i] == be32(high)[i]);
    assert(forall|i: int| 0 <= i < 4 ==> bytes[4 + i] == be32(low)[i]);
    assert(bytes[4] == be32(low)[0]);
    assert(bytes[5] == be32(low)[1]);
    assert(bytes[6] == be32(low)[2]);
    assert(bytes[7] == be32(low)[3]);
    assert(be32_at(bytes, 0) == high);
    assert(be32_at(bytes, 4) == low);
}

/// Reads the little-endian 16-bit word at `offset`, or nothing if the bytes end before it does.
pub fn le_u16(bytes: &[u8], offset: usize) -> (word: Option<u16>)
    ensures
        word == (if offset + 2 <= bytes@.len() {
            Some(le16_at(bytes@, offset as int))
        } else {
            None::<u16>
        }),
{
    if offset >= bytes.len() || bytes.len() - offset < 2 {
        return None;
    }
    Some(bytes[offset] as u16 + 256 * (bytes[offset + 1] as u16))
}

/// Reads the little-endian 32-bit word at `offset`, or nothing if the bytes end before it does.
pub fn le_u32(bytes: &[u8], offset: usize) -> (word: Option<u32>)
    ensures
        word == (if offset + 4 <= bytes@.len() {
            Some(le32_at(bytes@, offset as int))
        } else {
            None::<u32>
        }),
{
    if offset >= bytes.len() || bytes.len() - offset < 4 {
        return None;
    }
    Some(
        bytes[offset] as u32 + 256 * (bytes[offset + 1] as u32) + 65536 * (bytes[offset + 2] as u32)
            + 16777216 * (bytes[offset + 3] as u32),
    )
}

/// Reads the big-endian 16-bit word at `offset`.
pub fn be_u16(bytes: &[u8], offset: usize) -> (word: u16)
    requires
        offset + 2 <= bytes@.len(),
    ensures
        word == be16_at(bytes@, offset as int),
{
    256 * (bytes[offset] as u16) + bytes[offset + 1] as u16
}

/// Reads the big-endian 32-bit word at `offset`.
pub fn be_u32(bytes: &[u8], offset: usize) -> (word: u32)
    requires
        offset + 4 <= bytes@.len(),
    ensures
        word == be32_at(bytes@, offset as int),
{
    16777216 * (bytes[offset] as u32) + 65536 * (bytes[offset + 1] as u32) + 256 * (
    bytes[offset + 2] as u32) + bytes[offset + 3] as u32
}

/// Reads the big-endian 64-bit word at `offset`.
pub fn be_u64(bytes: &[u8], offset: usize) -> (word: u64)
    requires
        offset + 8 <= bytes@.len(),
    ensures
        word == be64_at(bytes@, offset as int),
{
    assert(bytes@.len() == bytes.len());
    4294967296 * (be_u32(bytes, offset) as u64) + be_u32(bytes, offset + 4) as u64
}

/// Appends `tail` to `out`.
pub fn push_bytes(out: &mut Vec<u8>, tail: &[u8])
    ensures
        final(out)@ == old(out)@ + tail@,
{
    out.extend_from_slice(tail);
    assert(out@ =~= old(out)@ + tail@);
}

/// Appends a 16-bit word in little-endian order.
pub fn push_le16(out: &mut Vec<u8>, x: u16)
    ensures
        final(out)@ == old(out)@ + le16(x),
{
    out.push((x % 256) as u8);
    out.push((x / 256) as u8);
    assert(out@ =~= old(out)@ + le16(x));
}

/// Appends a 32-bit word in little-endian order.
pub fn push_le32(out: &mut Vec<u8>, x: u32)
    ensures
        final(out)@ == old(out)@ + le32(x),
{
    out.push((x % 256) as u8);
    out.push(((x / 256) % 256) as u8);
    out.push(((x / 65536) % 256) as u8);
    out.push((x / 16777216) as u8);
    assert(out@ =~= old(out)@ + le32(x));
}

/// Appends a 16-bit word in big-endian order.
pub fn push_be16(out: &mut Vec<u8>, x: u16)
    ensures
        final(out)@ == old(out)@ + be16(x),
{
    out.push((x / 256) as u8);
    out.push((x % 256) as u8);
    assert(out@ =~= old(out)@ + be16(x));
}

/// Appends a 32-bit word in big-endian order.
pub fn push_be32(out: &mut Vec<u8>, x: u32)
    ensures
        final(out)@ == old(out)@ + be32(x),
{
    out.push((x / 16777216) as u8);
    out.push(((x / 65536) % 256) as u8);
    out.push(((x / 256) % 256) as u8);
    out.push((x % 256) as u8);
    assert(out@ =~= old(out)@ + be32(x));
}

/// Appends a 64-bit word in big-endian order.
pub fn push_be64(out: &mut Vec<u8>, x: u64)
    ensures
        final(out)@ == old(out)@ + be64(x),
{
    push_be32(out, (x / 4294967296) as u32);
    push_be32(out, (x % 4294967296) as u32);
    assert(out@ =~= old(out)@ + be64(x));
}

/// The little-endian 16-bit word at an offset that is known to be within the bytes.
pub fn le_word(bytes: &[u8], offset: usize) -> (word: u16)
    requires
        offset + 2 <= bytes@.len(),
    ensures
        word == le16_at(bytes@, offset as int),
{
    match le_u16(bytes, offset) {
        Some(word) => word,
        None => 0,
    }
}

/// The little-endian 32-bit word at an offset that is known to be within the bytes.
pub fn le_double_word(bytes: &[u8], offset: usize) -> (word: u32)
    requires
        offset + 4 <= bytes@.len(),
    ensures
        word == le32_at(bytes@, offset as int),
{
    match le_u32(bytes, offset) {
        Some(word) => word,
        None => 0,
    }
}

/// The low 32 bits of a number.
pub open spec fn low_word(number: nat) -> u32 {
    (number % 0x1_0000_0000) as u32
}

/// The low 32 bits of `length + extra`.
pub fn length_word(length: usize, extra: u32) -> (word: u32)
    ensures
        word == low_word((length + extra) as nat),
{
    let low: u64 = length as u64 % 0x1_0000_0000;
    proof {
        let whole = length as int / 0x1_0000_0000;
        lemma_mod_multiples_vanish(whole, low + extra, 0x1_0000_0000);
        assert(0x1_0000_0000 * whole + (low + extra) == length + extra);
    }
    ((low + extra as u64) % 0x1_0000_0000) as u32
}

} // verus!
