use bencode2json::error::Error;
use bencode2json::rw::byte_reader::ByteReader;
use bencode2json::tokenizer::integer::parse;

fn integer_unchecked(input_buffer: &[u8]) -> Vec<u8> {
    try_integer(input_buffer).expect("Bencode to JSON conversion failed")
}

fn try_integer(input_buffer: &[u8]) -> Result<Vec<u8>, Error> {
    let mut reader = ByteReader::new(input_buffer);

    parse(&mut reader)
}

#[test]
fn integer_bencode_to_json_wrapper_succeeds() {
    assert_eq!(try_integer(b"i0e").unwrap(), "0".as_bytes());
}

#[test]
fn integer_bencode_to_json_wrapper_fails() {
    assert!(try_integer(b"i").is_err());
}

#[test]
fn integer_zero() {
    assert_eq!(integer_unchecked(b"i0e"), "0".as_bytes());
}

#[test]
fn integer_one_digit_integer() {
    assert_eq!(integer_unchecked(b"i1e"), "1".as_bytes());
}

#[test]
fn integer_two_digits_integer() {
    assert_eq!(integer_unchecked(b"i42e"), "42".as_bytes());
}

#[test]
fn integer_negative_integer() {
    assert_eq!(integer_unchecked(b"i-1e"), "-1".as_bytes());
}

#[test]
fn when_it_cannot_read_more_bytes_from_input() {
    let unfinished_int = b"i42";

    let result = try_integer(unfinished_int);

    assert!(matches!(
        result,
        Err(Error::UnexpectedEndOfInputParsingInteger { .. })
    ));
}

#[test]
fn integer_when_it_finds_an_invalid_byte() {
    let int_with_invalid_byte = b"iae";

    let result = try_integer(int_with_invalid_byte);

    assert!(matches!(
        result,
        Err(Error::UnexpectedByteParsingInteger { .. })
    ));
}

#[test]
fn when_it_finds_leading_zeros() {
    // Leading zeros are not allowed.Only the zero integer can start with zero.

    let int_with_invalid_byte = b"i00e";

    let result = try_integer(int_with_invalid_byte);

    assert!(matches!(
        result,
        Err(Error::LeadingZerosInIntegersNotAllowed { .. })
    ));
}

#[test]
fn when_it_finds_leading_zeros_in_a_negative_integer() {
    // Leading zeros are not allowed.Only the zero integer can start with zero.

    let int_with_invalid_byte = b"i-00e";

    let result = try_integer(int_with_invalid_byte);

    assert!(matches!(
        result,
        Err(Error::LeadingZerosInIntegersNotAllowed { .. })
    ));
}

#[test]
fn while_expecting_a_digit_or_sign() {
    let int_with_invalid_byte = b"ia";

    let result = try_integer(int_with_invalid_byte);

    assert!(matches!(
        result,
        Err(Error::UnexpectedByteParsingInteger { .. })
    ));
}

#[test]
fn while_expecting_digit_after_the_sign() {
    let int_with_invalid_byte = b"i-a";

    let result = try_integer(int_with_invalid_byte);

    assert!(matches!(
        result,
        Err(Error::UnexpectedByteParsingInteger { .. })
    ));
}

#[test]
fn while_expecting_digit_or_end() {
    let int_with_invalid_byte = b"i-1a";

    let result = try_integer(int_with_invalid_byte);

    assert!(matches!(
        result,
        Err(Error::UnexpectedByteParsingInteger { .. })
    ));
}
