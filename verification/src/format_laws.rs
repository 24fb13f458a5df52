//! Numbers read back from their texts.

use crate::format::{decimal_digits, decimal_text, hex_byte_text, hex_digit, hex_word_text};
use vstd::prelude::*;

verus! {

/// The value of a decimal digit.
pub open spec fn digit_value(c: char) -> int {
    c as int - '0' as int
}

/// The value of decimal digits, the highest first.
pub open spec fn decimal_value(text: Seq<char>) -> int
    decreases text.len(),
{
    if text.len() == 0 {
        0
    } else {
        10 * decimal_value(text.drop_last()) + digit_value(text.last())
    }
}

/// The value of a hexadecimal digit.
pub open spec fn nibble_value(c: char) -> int {
    if '0' <= c && c <= '9' {
        c as int - '0' as int
    } else {
        c as int - 'a' as int + 10
    }
}

/// Whether a character is a hexadecimal digit.
pub open spec fn is_nibble(c: char) -> bool {
    ('0' <= c && c <= '9') || ('a' <= c && c <= 'f')
}

proof fn lemma_nibble(value: int)
    requires
        0 <= value < 16,
    ensures
        is_nibble(hex_digit(value) as char),
        nibble_value(hex_digit(value) as char) == value,
{
}

/// A byte in hexadecimal is `0x` and two digits with its value.
pub proof fn lemma_hex_byte_reads_back(byte: u8)
    ensures
        ({
            let text = hex_byte_text(byte);
            &&& text.len() == 4
            &&& text[0] == '0' && text[1] == 'x'
            &&& is_nibble(text[2]) && is_nibble(text[3])
            &&& 16 * nibble_value(text[2]) + nibble_value(text[3]) == byte
        }),
{
    lemma_nibble(byte as int / 16);
    lemma_nibble(byte as int % 16);
}

/// A word in hexadecimal is `0x` and four digits with its value.
pub proof fn lemma_hex_word_reads_back(word: u16)
    ensures
        ({
            let text = hex_word_text(word);
            &&& text.len() == 6
            &&& text[0] == '0' && text[1] == 'x'
            &&& is_nibble(text[2]) && is_nibble(text[3]) && is_nibble(text[4]) && is_nibble(text[5])
            &&& 4096 * nibble_value(text[2]) + 256 * nibble_value(text[3]) + 16 * nibble_value(
                text[4],
            ) + nibble_value(text[5]) == word
        }),
{
    let (a, b, c, d) = (
        word as int / 4096,
        word as int / 256 % 16,
        word as int / 16 % 16,
        word as int % 16,
    );
    lemma_nibble(a);
    lemma_nibble(b);
    lemma_nibble(c);
    lemma_nibble(d);
    let text = hex_word_text(word);
    assert(text.len() == 6);
    assert(text[0] == 48u8 as char && text[1] == 120u8 as char);
    assert(text[2] == hex_digit(a) as char);
    assert(text[3] == hex_digit(b) as char);
    assert(text[4] == hex_digit(c) as char);
    assert(text[5] == hex_digit(d) as char);
    lemma_four_digits(word as int);
}

proof fn lemma_four_digits(word: int)
    requires
        0 <= word < 65536,
    ensures
        4096 * (word / 4096) + 256 * (word / 256 % 16) + 16 * (word / 16 % 16) + word % 16 == word,
        0 <= word / 4096 < 16,
{
    assert(word / 256 == 16 * (word / 4096) + word / 256 % 16);
    assert(word / 16 == 16 * (word / 256) + word / 16 % 16);
}

/// A number in decimal is made of digits, has its value, and has no zero before it.
pub proof fn lemma_decimal_reads_back(number: nat)
    ensures
        decimal_value(decimal_text(number)) == number,
        decimal_text(number).len() > 0,
        forall|i: int|
            0 <= i < decimal_text(number).len() ==> '0' <= #[trigger] decimal_text(number)[i]
                <= '9',
        decimal_text(number).len() > 1 ==> decimal_text(number)[0] != '0',
    decreases number,
{
    let text = decimal_text(number);
    if number < 10 {
        assert(text =~= seq![(48 + number) as u8 as char]);
        assert(text.drop_last() =~= seq![]);
        assert(decimal_value(text.drop_last()) == 0);
    } else {
        let head = decimal_text(number / 10);
        let last = (48 + number % 10) as u8 as char;
        lemma_decimal_reads_back(number / 10);
        assert(decimal_digits(number) == decimal_digits(number / 10).push(
            (48 + number % 10) as u8,
        ));
        assert(text =~= head.push(last));
        assert(text.drop_last() =~= head);
        assert forall|i: int| 0 <= i < text.len() implies '0' <= #[trigger] text[i] <= '9' by {
            if i < head.len() {
                assert(text[i] == head[i]);
            }
        }
        assert(text[0] == head[0]);
        if head.len() == 1 {
            assert(head.drop_last() =~= seq![]);
            assert(decimal_value(head.drop_last()) == 0);
            assert(decimal_value(head) == 10 * decimal_value(head.drop_last()) + digit_value(
                head.last(),
            ));
            assert(number / 10 > 0);
        }
    }
}

} // verus!
