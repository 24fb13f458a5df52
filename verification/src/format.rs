//! Numbers as texts.

use crate::text::{ascii_string, ascii_text};
use vstd::prelude::*;

verus! {

/// The decimal digits of a number, as ASCII.
pub open spec fn decimal_digits(number: nat) -> Seq<u8>
    decreases number,
{
    if number < 10 {
        seq![(48 + number) as u8]
    } else {
        decimal_digits(number / 10).push((48 + number % 10) as u8)
    }
}

/// A number in decimal.
pub open spec fn decimal_text(number: nat) -> Seq<char> {
    ascii_text(decimal_digits(number))
}

/// The hexadecimal digit of a number below sixteen, as ASCII.
pub open spec fn hex_digit(value: int) -> u8 {
    if value < 10 {
        (48 + value) as u8
    } else {
        (87 + value) as u8
    }
}

/// A byte as `0x` and two hexadecimal digits.
pub open spec fn hex_byte_text(byte: u8) -> Seq<char> {
    ascii_text(seq![48u8, 120, hex_digit(byte as int / 16), hex_digit(byte as int % 16)])
}

/// A 16-bit word as `0x` and four hexadecimal digits.
pub open spec fn hex_word_text(word: u16) -> Seq<char> {
    ascii_text(
        seq![
            48u8,
            120,
            hex_digit(word as int / 4096),
            hex_digit(word as int / 256 % 16),
            hex_digit(word as int / 16 % 16),
            hex_digit(word as int % 16),
        ],
    )
}

proof fn lemma_digits_are_ascii(number: nat)
    ensures
        forall|i: int|
            0 <= i < decimal_digits(number).len() ==> 48 <= #[trigger] decimal_digits(number)[i]
                <= 57,
    decreases number,
{
    if number >= 10 {
        lemma_digits_are_ascii(number / 10);
        let head = decimal_digits(number / 10);
        let last = (48 + number % 10) as u8;
        assert(48 <= last <= 57);
        assert(decimal_digits(number) == head.push(last));
        assert forall|i: int| 0 <= i < decimal_digits(number).len() implies 48
            <= #[trigger] decimal_digits(number)[i] <= 57 by {
            if i < head.len() {
                assert(decimal_digits(number)[i] == head[i]);
            }
        }
    }
}

fn digits(number: u64) -> (bytes: Vec<u8>)
    ensures
        bytes@ == decimal_digits(number as nat),
    decreases number,
{
    if number < 10 {
        let bytes: Vec<u8> = vec![48 + number as u8];
        assert(bytes@ =~= decimal_digits(number as nat));
        return bytes;
    }
    let mut bytes = digits(number / 10);
    bytes.push(48 + (number % 10) as u8);
    bytes
}

/// Writes a number in decimal.
pub fn decimal(number: u64) -> (text: String)
    ensures
        text@ == decimal_text(number as nat),
{
    let bytes = digits(number);
    proof {
        lemma_digits_are_ascii(number as nat);
    }
    ascii_string(bytes.as_slice())
}

fn nibble(value: u8) -> (digit: u8)
    requires
        value < 16,
    ensures
        digit == hex_digit(value as int),
        digit < 128,
{
    if value < 10 {
        48 + value
    } else {
        87 + value
    }
}

/// Writes a byte as `0x` and two hexadecimal digits.
pub fn hex_byte(byte: u8) -> (text: String)
    ensures
        text@ == hex_byte_text(byte),
{
    let bytes: [u8; 4] = [48, 120, nibble(byte / 16), nibble(byte % 16)];
    assert(bytes@ =~= seq![48u8, 120, hex_digit(byte as int / 16), hex_digit(byte as int % 16)]);
    ascii_string(bytes.as_slice())
}

/// Writes a 16-bit word as `0x` and four hexadecimal digits.
pub fn hex_word(word: u16) -> (text: String)
    ensures
        text@ == hex_word_text(word),
{
    let bytes: [u8; 6] = [
        48,
        120,
        nibble((word / 4096) as u8),
        nibble((word / 256 % 16) as u8),
        nibble((word / 16 % 16) as u8),
        nibble((word % 16) as u8),
    ];
    assert(bytes@ =~= seq![
        48u8,
        120,
        hex_digit(word as int / 4096),
        hex_digit(word as int / 256 % 16),
        hex_digit(word as int / 16 % 16),
        hex_digit(word as int % 16),
    ]);
    ascii_string(bytes.as_slice())
}

} // verus!
