//! This lib contains functions to convert bencoded bytes into a JSON string.
//!
//! Bencode is a simple encoding format that is used to encode arbitrary
//! data structures. It is commonly used in the context of torrent files.
//!
//! The conversion never builds the whole bencoded value in memory: a
//! tokenizer hands out one token at a time and a generator writes the JSON
//! text for it, keeping only a stack of the lists and dictionaries that are
//! still open.
//!
//! A bencoded string that is valid UTF-8 becomes the JSON string
//! `"<string>...</string>"`; any other becomes `"<hex>...</hex>"`, with its
//! bytes in lower-case hexadecimal.
pub mod error;
pub mod generators;
pub mod laws;
pub mod rw;
pub mod text;
pub mod tokenizer;

use error::{diagnose, Error};
use generators::json::{convert, text_output_context, Generator};
use text::{decimal, decimal_text};
use vstd::prelude::*;
use vstd::slice::slice_to_vec;
use vstd::utf8::{decode_utf8, encode_utf8};

verus! {

/// It converts bencoded bytes into a JSON string.
///
/// The input may hold several values one after the other, and line breaks
/// between tokens. It fails with the first error that the conversion meets.
pub fn try_bencode_to_json(input_buffer: &[u8]) -> (result: Result<String, Error>)
    ensures
        match convert(input_buffer@).fault {
            None => result matches Ok(json) && json@ == decode_utf8(convert(input_buffer@).bytes),
            Some(fault) => result matches Err(error) && error@ == diagnose(
                fault,
                input_buffer@,
                text_output_context(convert(input_buffer@).bytes),
            ),
        },
{
    let mut output = String::new();
    let mut parser = Generator::new(input_buffer);
    match parser.write_str(&mut output) {
        Ok(()) => Ok(output),
        Err(err) => Err(err),
    }
}

/// The bencoded string whose value is the UTF-8 encoding of `text`.
pub open spec fn bencoded_text(text: Seq<char>) -> Seq<u8> {
    decimal_text(encode_utf8(text).len()) + seq![tokenizer::END_OF_STRING_LENGTH_BYTE]
        + encode_utf8(text)
}

/// Helper to convert a string into a bencoded string.
pub fn to_bencode(value: &str) -> (bencoded: Vec<u8>)
    ensures
        bencoded@ == bencoded_text(value@),
{
    let bytes = value.as_bytes();
    let mut bencoded = decimal(bytes.len() as u64);
    bencoded.push(tokenizer::END_OF_STRING_LENGTH_BYTE);
    let mut value_bytes = slice_to_vec(bytes);
    bencoded.append(&mut value_bytes);
    bencoded
}

} // verus!
