//! Text: facts about UTF-8, numbers in base ten, hexadecimal and JSON string
//! literals.
//!
//! The last four functions of this file call code that Verus does not see:
//! `String::push` and `core::str::from_utf8` of the standard library,
//! `hex::encode` and `serde_json::to_string`. Their contracts are believed,
//! not proved.
use vstd::prelude::*;
use vstd::utf8::{encode_scalar, encode_utf8, valid_utf8};

verus! {

/// Encoding a concatenation is concatenating the encodings.
pub proof fn lemma_encode_utf8_concat(front: Seq<char>, back: Seq<char>)
    ensures
        encode_utf8(front + back) == encode_utf8(front) + encode_utf8(back),
    decreases front.len(),
{
    if front.len() > 0 {
        lemma_encode_utf8_concat(front.drop_first(), back);
        assert((front + back).drop_first() =~= front.drop_first() + back);
    }
}

/// Every char takes at least one byte.
pub proof fn lemma_encode_utf8_len(chars: Seq<char>)
    ensures
        chars.len() <= encode_utf8(chars).len(),
    decreases chars.len(),
{
    if chars.len() > 0 {
        lemma_encode_utf8_len(chars.drop_first());
    }
}

/// Encoding one more char appends that char's encoding.
pub proof fn lemma_encode_utf8_push(chars: Seq<char>, item: char)
    ensures
        encode_utf8(chars.push(item)) == encode_utf8(chars) + encode_scalar(item as u32),
        encode_scalar(item as u32).len() >= 1,
        item as u32 <= 0x7f ==> encode_scalar(item as u32) == seq![item as u8],
{
    lemma_encode_utf8_concat(chars, seq![item]);
    assert(chars.push(item) =~= chars + seq![item]);
    assert(encode_utf8(seq![item]) =~= encode_scalar(item as u32)) by {
        reveal_with_fuel(encode_utf8, 2);
    }
    let scalar = item as u32;
    if scalar <= 0x7f {
        assert(scalar as u8 == vstd::utf8::leading_byte_width_1(scalar)) by (bit_vector)
            requires
                scalar <= 0x7f,
        ;
    }
}

/// An ASCII char is encoded as the byte with its number.
pub proof fn lemma_encode_ascii_char(item: char)
    requires
        item as u32 <= 0x7f,
    ensures
        encode_utf8(seq![item]) == seq![item as u8],
{
    lemma_encode_utf8_push(seq![], item);
}

/// ASCII bytes are valid UTF-8.
pub proof fn lemma_ascii_is_utf8(bytes: Seq<u8>)
    requires
        forall|i: int| 0 <= i < bytes.len() ==> #[trigger] bytes[i] < 0x80,
    ensures
        valid_utf8(bytes),
{
    let chars = Seq::new(bytes.len(), |i: int| bytes[i] as char);
    vstd::utf8::is_ascii_chars_encode_utf8(chars);
    assert(encode_utf8(chars) =~= bytes);
    vstd::utf8::encode_utf8_valid_utf8(chars);
}

/// A number in base ten, as ASCII digits, without leading zeros.
pub open spec fn decimal_text(number: nat) -> Seq<u8>
    decreases number,
{
    if number < 10 {
        seq![(0x30 + number) as u8]
    } else {
        decimal_text(number / 10).push((0x30 + number % 10) as u8)
    }
}

/// A number in base ten, as ASCII digits.
pub fn decimal(number: u64) -> (digits: Vec<u8>)
    ensures
        digits@ == decimal_text(number as nat),
    decreases number,
{
    if number < 10 {
        let mut digits = Vec::new();
        digits.push(0x30 + number as u8);
        digits
    } else {
        let mut digits = decimal(number / 10);
        digits.push(0x30 + (number % 10) as u8);
        digits
    }
}

/// A number in base ten, as chars.
pub open spec fn decimal_chars(number: nat) -> Seq<char> {
    Seq::new(decimal_text(number).len(), |i: int| decimal_text(number)[i] as char)
}

/// Appends a number in base ten to a string.
pub fn append_decimal(text: &mut String, number: u64)
    ensures
        final(text)@ == old(text)@ + decimal_chars(number as nat),
{
    let digits = decimal(number);
    let mut index: usize = 0;
    while index < digits.len()
        invariant
            index <= digits@.len(),
            digits@ == decimal_text(number as nat),
            text@ == old(text)@ + decimal_chars(number as nat).take(index as int),
        decreases digits@.len() - index,
    {
        push_char(text, digits[index] as char);
        index = index + 1;
    }
}

/// The lower-case hexadecimal digit for a number below sixteen.
pub open spec fn hex_digit(nibble: u8) -> char {
    if nibble < 10 {
        ((0x30 + nibble) as u8) as char
    } else {
        ((0x57 + nibble) as u8) as char
    }
}

/// The bytes written in hexadecimal, two lower-case digits for each.
pub open spec fn hex_text(bytes: Seq<u8>) -> Seq<char>
    decreases bytes.len(),
{
    if bytes.len() == 0 {
        seq![]
    } else {
        hex_text(bytes.drop_last()) + seq![
            hex_digit(bytes.last() / 16),
            hex_digit(bytes.last() % 16),
        ]
    }
}

/// How one char stands inside a JSON string literal: a quote, a backslash
/// and the control characters are escaped, every other char stands for
/// itself.
pub open spec fn json_escape(item: char) -> Seq<char> {
    if item == '"' {
        seq!['\\', '"']
    } else if item == '\\' {
        seq!['\\', '\\']
    } else if item == '\u{08}' {
        seq!['\\', 'b']
    } else if item == '\u{0c}' {
        seq!['\\', 'f']
    } else if item == '\n' {
        seq!['\\', 'n']
    } else if item == '\r' {
        seq!['\\', 'r']
    } else if item == '\t' {
        seq!['\\', 't']
    } else if (item as u32) < 0x20 {
        seq![
            '\\',
            'u',
            '0',
            '0',
            hex_digit(((item as u32) / 16) as u8),
            hex_digit(((item as u32) % 16) as u8),
        ]
    } else {
        seq![item]
    }
}

/// The text with each char as it stands inside a JSON string literal.
pub open spec fn json_escaped(text: Seq<char>) -> Seq<char>
    decreases text.len(),
{
    if text.len() == 0 {
        seq![]
    } else {
        json_escaped(text.drop_last()) + json_escape(text.last())
    }
}

/// A text none of whose chars needs an escape stands for itself.
pub proof fn lemma_plain_text_escaped(text: Seq<char>)
    requires
        forall|i: int| 0 <= i < text.len() ==> json_escape(#[trigger] text[i]) == seq![text[i]],
    ensures
        json_escaped(text) == text,
    decreases text.len(),
{
    if text.len() > 0 {
        lemma_plain_text_escaped(text.drop_last());
    }
}

/// The JSON string literal for a text: the escaped text between quotes.
pub open spec fn json_string_literal(text: Seq<char>) -> Seq<char> {
    seq!['"'] + json_escaped(text) + seq!['"']
}

/// `String::push`: appends one char to the string.
#[verifier::external_body]
pub(crate) fn push_char(text: &mut String, item: char)
    ensures
        final(text)@ == old(text)@.push(item),
{
    text.push(item);
}

/// `core::str::from_utf8`: the bytes as text if they are valid UTF-8, and
/// nothing otherwise. The text, encoded again, is the bytes.
#[verifier::external_body]
pub(crate) fn utf8_text(bytes: &[u8]) -> (text: Option<&str>)
    ensures
        text is Some <==> valid_utf8(bytes@),
        text matches Some(chars) ==> encode_utf8(chars@) == bytes@,
{
    core::str::from_utf8(bytes).ok()
}

/// `hex::encode`: the bytes in hexadecimal, two lower-case digits for each,
/// the high half of a byte first.
#[verifier::external_body]
pub(crate) fn hex_encode(bytes: &[u8]) -> (text: String)
    ensures
        text@ == hex_text(bytes@),
{
    hex::encode(bytes)
}

/// `serde_json::to_string` on a string: its JSON string literal. The call
/// writes into a vector of its own, which cannot fail, so there always is a
/// literal.
#[verifier::external_body]
pub(crate) fn json_quote(text: &str) -> (literal: Option<String>)
    ensures
        literal is Some,
        literal matches Some(quoted) ==> quoted@ == json_string_literal(text@),
{
    serde_json::to_string(text).ok()
}

} // verus!
