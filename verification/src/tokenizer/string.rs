//! Bencoded string parser.
//!
//! It reads the bytes of one bencoded string from the input and returns the
//! bytes of its value. Whether they are text is for the caller to find out.
use super::{
    digit_run, is_digit, lemma_digit_run, lemma_digit_run_bound, Lexed, DIGIT_NINE, DIGIT_ZERO,
    END_OF_STRING_LENGTH_BYTE,
};
use crate::error::{lexical_error, Error, ErrorKind, ReadContext};
use crate::rw::byte_reader::ByteReader;
use crate::text::decimal_text;
use vstd::prelude::*;

verus! {

/// The number that a sequence of ASCII digits writes in base ten.
pub open spec fn decimal_value(digits: Seq<u8>) -> nat
    decreases digits.len(),
{
    if digits.len() == 0 {
        0
    } else {
        decimal_value(digits.drop_last()) * 10 + (digits.last() - DIGIT_ZERO) as nat
    }
}

/// One more digit behind a number written in base ten makes the number ten
/// times as large and adds the digit. No digits write zero.
pub proof fn lemma_decimal_value_push(digits: Seq<u8>, digit: u8)
    ensures
        decimal_value(digits.push(digit)) == decimal_value(digits) * 10 + (digit
            - DIGIT_ZERO) as nat,
        decimal_value(Seq::<u8>::empty()) == 0,
{
    assert(digits.push(digit).drop_last() =~= digits);
}

/// A number written in base ten is digits only, and they write that number.
pub proof fn lemma_decimal_text_value(number: nat)
    ensures
        decimal_text(number).len() > 0,
        forall|i: int| 0 <= i < decimal_text(number).len() ==> is_digit(
            #[trigger] decimal_text(number)[i],
        ),
        decimal_value(decimal_text(number)) == number,
    decreases number,
{
    let digits = decimal_text(number);
    if number < 10 {
        assert(digits.drop_last() =~= Seq::<u8>::empty());
        assert(decimal_value(digits.drop_last()) == 0);
        assert(digits.last() == DIGIT_ZERO + number);
    } else {
        lemma_decimal_text_value(number / 10);
        assert(digits.drop_last() =~= decimal_text(number / 10));
        assert(digits.last() == DIGIT_ZERO + number % 10);
    }
}

/// What the string parser makes of the bytes `rem` that lie ahead.
///
/// A run of digits gives the length, leading zeros allowed. A colon must
/// follow, and after it as many bytes as the length says: they are the
/// value.
pub open spec fn scan_string(rem: Seq<u8>) -> Lexed<Seq<u8>> {
    let run = digit_run(rem);
    let length = decimal_value(rem.take(run as int));
    let start = run + 1;
    if run >= rem.len() {
        Lexed::Failed { kind: ErrorKind::UnexpectedEndOfInputParsingStringLength, len: rem.len() }
    } else if rem[run as int] != END_OF_STRING_LENGTH_BYTE {
        Lexed::Failed { kind: ErrorKind::InvalidStringLengthByte, len: run + 1 }
    } else if start + length > rem.len() {
        Lexed::Failed { kind: ErrorKind::UnexpectedEndOfInputParsingStringValue, len: rem.len() }
    } else {
        Lexed::Done {
            value: rem.subrange(start as int, (start + length) as int),
            len: start + length,
        }
    }
}

/// A length in digits, a colon and as many bytes as the length says are
/// what the string parser accepts, whatever follows.
pub proof fn lemma_scan_string(digits: Seq<u8>, value: Seq<u8>, rest: Seq<u8>)
    requires
        forall|i: int| 0 <= i < digits.len() ==> is_digit(#[trigger] digits[i]),
        decimal_value(digits) == value.len(),
    ensures
        scan_string(digits + seq![END_OF_STRING_LENGTH_BYTE] + value + rest) == (Lexed::Done {
            value,
            len: digits.len() + 1 + value.len(),
        }),
{
    let rem = digits + seq![END_OF_STRING_LENGTH_BYTE] + value + rest;
    let run = digits.len();
    assert forall|i: int| 0 <= i < run implies is_digit(#[trigger] rem[i]) by {}
    lemma_digit_run(rem, run);
    assert(rem.take(run as int) =~= digits);
    assert(rem.subrange((run + 1) as int, (run + 1 + value.len()) as int) =~= value);
}

/// What the string parser accepts depends only on the bytes it spans.
pub proof fn lemma_scan_string_prefix(rem: Seq<u8>, other: Seq<u8>)
    requires
        scan_string(rem) matches Lexed::Done { len, .. } && len <= other.len() && other.take(
            len as int,
        ) == rem.take(len as int),
    ensures
        scan_string(other) == scan_string(rem),
{
    let value = scan_string(rem)->Done_value;
    let len = scan_string(rem)->Done_len;
    let run = digit_run(rem);
    let digits = rem.take(run as int);
    lemma_digit_run_bound(rem);
    let rest = other.skip(len as int);
    let spelled = digits + seq![END_OF_STRING_LENGTH_BYTE] + value + rest;
    assert(spelled =~= other) by {
        assert forall|i: int| 0 <= i < len implies other[i] == rem[i] by {
            assert(other[i] == other.take(len as int)[i]);
        }
        assert forall|i: int| 0 <= i < other.len() implies spelled[i] == other[i] by {}
    }
    lemma_scan_string(digits, value, rest);
}

/// It parses a string bencoded value.
///
/// The reader stands before the length. On success it stands behind the last
/// byte of the value, and the value is returned.
pub fn parse(reader: &mut ByteReader) -> (result: Result<Vec<u8>, Error>)
    requires
        old(reader).wf(),
    ensures
        final(reader).wf(),
        final(reader).input() == old(reader).input(),
        !final(reader).holds_peeked(),
        match scan_string(old(reader).remaining()) {
            Lexed::Done { value, len } => {
                &&& result matches Ok(bytes)
                &&& bytes@ == value
                &&& final(reader).consumed() == old(reader).consumed() + len
            },
            Lexed::Failed { kind, len } => {
                &&& result matches Err(error)
                &&& error@ == lexical_error(
                    kind,
                    old(reader).input(),
                    old(reader).consumed() + len,
                )
                &&& final(reader).consumed() == old(reader).consumed() + len
            },
        },
{
    let ghost rem = reader.remaining();
    proof {
        reader.lemma_bounds();
    }
    let mut length = Length::new();
    match length.parse(reader) {
        Ok(()) => {},
        Err(error) => {
            return Err(error);
        },
    }
    let value = Value::new(length.number);
    let ghost start = digit_run(rem) + 1;
    let ghost size = decimal_value(rem.take(digit_run(rem) as int));
    proof {
        reader.lemma_bounds();
        if start + size <= rem.len() {
            assert(rem.skip(start as int).take(size as int) =~= rem.subrange(
                start as int,
                (start + size) as int,
            ));
        }
    }
    value.parse(reader, Ghost(size))
}

/// A length that does not fit the machine is held as the largest one that
/// does: no input is long enough for either.
pub open spec fn saturated(length: nat) -> usize {
    if length > usize::MAX {
        usize::MAX
    } else {
        length as usize
    }
}

/// The length part of a bencoded string, as far as it has been read.
struct Length {
    /// The parsed length at the current read digit.
    number: usize,
}

impl Length {
    /// A length of which no digit has been read.
    fn new() -> (length: Self)
        ensures
            length.number == 0,
    {
        Length { number: 0 }
    }

    /// Reads digits up to the colon that ends the length.
    fn parse(&mut self, reader: &mut ByteReader) -> (result: Result<(), Error>)
        requires
            old(self).number == 0,
            old(reader).wf(),
        ensures
            final(reader).wf(),
            final(reader).input() == old(reader).input(),
            !final(reader).holds_peeked(),
            ({
                let rem = old(reader).remaining();
                let run = digit_run(rem);
                match result {
                    Ok(_) => {
                        &&& run < rem.len()
                        &&& rem[run as int] == END_OF_STRING_LENGTH_BYTE
                        &&& final(self).number == saturated(decimal_value(rem.take(run as int)))
                        &&& final(reader).consumed() == old(reader).consumed() + run + 1
                    },
                    Err(error) => {
                        &&& scan_string(rem) matches Lexed::Failed { kind, len }
                        &&& !(kind is UnexpectedEndOfInputParsingStringValue)
                        &&& error@ == lexical_error(
                            kind,
                            old(reader).input(),
                            old(reader).consumed() + len,
                        )
                        &&& final(reader).consumed() == old(reader).consumed() + len
                    },
                }
            }),
    {
        let ghost rem = reader.remaining();
        let ghost base = reader.consumed();
        let ghost mut count: int = 0;
        proof {
            reader.lemma_bounds();
        }
        loop
            invariant
                reader.wf(),
                reader.input() == old(reader).input(),
                rem == old(reader).remaining(),
                base == old(reader).consumed(),
                base + rem.len() == reader.input().len(),
                0 <= count <= rem.len(),
                reader.consumed() == base + count,
                count > 0 ==> !reader.holds_peeked(),
                reader.remaining() == rem.skip(count),
                forall|i: int| 0 <= i < count ==> is_digit(#[trigger] rem[i]),
                self.number == saturated(decimal_value(rem.take(count))),
            decreases rem.len() - count,
        {
            proof {
                reader.lemma_bounds();
                if count == rem.len() || !is_digit(rem[count]) {
                    lemma_digit_run(rem, count as nat);
                }
            }
            let byte = match Self::next_byte(reader) {
                Ok(byte) => byte,
                Err(error) => {
                    return Err(error);
                },
            };
            if byte == END_OF_STRING_LENGTH_BYTE {
                return Ok(());
            }
            proof {
                reader.lemma_bounds();
                assert(byte == rem[count]);
            }
            match self.add_byte(byte, reader) {
                Ok(()) => {},
                Err(error) => {
                    return Err(error);
                },
            }
            proof {
                assert(rem.take(count + 1).drop_last() =~= rem.take(count));
                count = count + 1;
            }
        }
    }

    /// It reads the next byte of the length from the input.
    fn next_byte(reader: &mut ByteReader) -> (result: Result<u8, Error>)
        requires
            old(reader).wf(),
        ensures
            final(reader).wf(),
            final(reader).input() == old(reader).input(),
            !final(reader).holds_peeked(),
            match result {
                Ok(byte) => {
                    &&& old(reader).remaining().len() > 0
                    &&& byte == old(reader).remaining()[0]
                    &&& final(reader).consumed() == old(reader).consumed() + 1
                },
                Err(error) => {
                    &&& old(reader).remaining().len() == 0
                    &&& final(reader).consumed() == old(reader).consumed()
                    &&& error@ == lexical_error(
                        ErrorKind::UnexpectedEndOfInputParsingStringLength,
                        old(reader).input(),
                        old(reader).consumed(),
                    )
                },
            },
    {
        match reader.read_byte() {
            Ok(byte) => Ok(byte),
            Err(_) => Err(
                Error::UnexpectedEndOfInputParsingStringLength(
                    ReadContext::capture(reader, None),
                ),
            ),
        }
    }

    /// It adds a new byte (digit) to the string length.
    ///
    /// It fails if the byte, which the reader has just handed out, is not a
    /// digit (0..9).
    fn add_byte(&mut self, byte: u8, reader: &ByteReader) -> (result: Result<(), Error>)
        requires
            reader.wf(),
            0 < reader.consumed() <= reader.input().len(),
            byte == reader.input()[reader.consumed() - 1],
        ensures
            match result {
                Ok(_) => {
                    &&& is_digit(byte)
                    &&& final(self).number == Self::with_digit(
                        old(self).number,
                        (byte - DIGIT_ZERO) as nat,
                    )
                },
                Err(error) => {
                    &&& !is_digit(byte)
                    &&& error@ == lexical_error(
                        ErrorKind::InvalidStringLengthByte,
                        reader.input(),
                        reader.consumed(),
                    )
                },
            },
    {
        if !(byte >= DIGIT_ZERO && byte <= DIGIT_NINE) {
            return Err(Error::InvalidStringLengthByte(ReadContext::capture(reader, Some(byte))));
        }
        self.add_digit_to_length(Self::byte_to_digit(byte));
        Ok(())
    }

    /// It converts a byte containing an ASCII digit into a number `usize`.
    fn byte_to_digit(byte: u8) -> (digit: usize)
        requires
            is_digit(byte),
        ensures
            digit == byte - DIGIT_ZERO,
    {
        (byte - DIGIT_ZERO) as usize
    }

    /// The length after one more digit, held at the largest `usize` once it
    /// no longer fits.
    spec fn with_digit(number: usize, digit: nat) -> usize {
        if number * 10 + digit > usize::MAX {
            usize::MAX
        } else {
            (number * 10 + digit) as usize
        }
    }

    /// It adds the new digit to the number.
    fn add_digit_to_length(&mut self, digit: usize)
        requires
            digit <= 9,
        ensures
            final(self).number == Self::with_digit(old(self).number, digit as nat),
    {
        if self.number > (usize::MAX - digit) / 10 {
            self.number = usize::MAX;
        } else {
            self.number = (self.number * 10) + digit;
        }
    }
}

/// The value part of a bencoded string, as far as it has been read.
struct Value {
    length: usize,
    bytes: Vec<u8>,
    bytes_counter: usize,
}

impl Value {
    /// A value of the given length of which no byte has been read.
    fn new(length: usize) -> (value: Self)
        ensures
            value.length == length,
            value.bytes@.len() == 0,
            value.bytes_counter == 0,
    {
        Self { length, bytes: Vec::new(), bytes_counter: 0 }
    }

    /// Reads as many bytes as the length says and returns them. `length` is
    /// the length as the input writes it, which `self.length` holds as far
    /// as it fits.
    fn parse(self, reader: &mut ByteReader, Ghost(length): Ghost<nat>) -> (result: Result<
        Vec<u8>,
        Error,
    >)
        requires
            self.bytes@.len() == 0,
            self.bytes_counter == 0,
            self.length == saturated(length),
            old(reader).wf(),
            !old(reader).holds_peeked(),
            old(reader).consumed() > 0,
        ensures
            final(reader).wf(),
            final(reader).input() == old(reader).input(),
            !final(reader).holds_peeked(),
            match result {
                Ok(bytes) => {
                    &&& length <= old(reader).remaining().len()
                    &&& bytes@ == old(reader).remaining().take(length as int)
                    &&& final(reader).consumed() == old(reader).consumed() + length
                },
                Err(error) => {
                    &&& length > old(reader).remaining().len()
                    &&& error@ == lexical_error(
                        ErrorKind::UnexpectedEndOfInputParsingStringValue,
                        old(reader).input(),
                        old(reader).input().len(),
                    )
                    &&& final(reader).consumed() == old(reader).input().len()
                },
            },
    {
        let mut value = self;
        let ghost rem = reader.remaining();
        let ghost base = reader.consumed();
        proof {
            reader.lemma_bounds();
        }
        while value.bytes_counter < value.length
            invariant
                reader.wf(),
                reader.input() == old(reader).input(),
                !reader.holds_peeked(),
                value.length == saturated(length),
                rem == old(reader).remaining(),
                base == old(reader).consumed(),
                base + rem.len() == reader.input().len(),
                rem.len() < usize::MAX,
                value.bytes_counter <= value.length,
                value.bytes_counter <= rem.len(),
                reader.consumed() == base + value.bytes_counter,
                reader.remaining() == rem.skip(value.bytes_counter as int),
                value.bytes@ == rem.take(value.bytes_counter as int),
            decreases value.length - value.bytes_counter,
        {
            let byte = match Self::next_byte(reader) {
                Ok(byte) => byte,
                Err(error) => {
                    return Err(error);
                },
            };
            value.add_byte(byte);
        }
        Ok(value.bytes)
    }

    /// It reads the next byte of the value from the input.
    fn next_byte(reader: &mut ByteReader) -> (result: Result<u8, Error>)
        requires
            old(reader).wf(),
        ensures
            final(reader).wf(),
            final(reader).input() == old(reader).input(),
            !final(reader).holds_peeked(),
            match result {
                Ok(byte) => {
                    &&& old(reader).remaining().len() > 0
                    &&& byte == old(reader).remaining()[0]
                    &&& final(reader).consumed() == old(reader).consumed() + 1
                },
                Err(error) => {
                    &&& old(reader).remaining().len() == 0
                    &&& final(reader).consumed() == old(reader).consumed()
                    &&& error@ == lexical_error(
                        ErrorKind::UnexpectedEndOfInputParsingStringValue,
                        old(reader).input(),
                        old(reader).consumed(),
                    )
                },
            },
    {
        match reader.read_byte() {
            Ok(byte) => Ok(byte),
            Err(_) => Err(
                Error::UnexpectedEndOfInputParsingStringValue(ReadContext::capture(reader, None)),
            ),
        }
    }

    /// It adds a new byte to the value.
    fn add_byte(&mut self, byte: u8)
        requires
            old(self).bytes_counter < usize::MAX,
        ensures
            final(self).bytes@ == old(self).bytes@.push(byte),
            final(self).bytes_counter == old(self).bytes_counter + 1,
            final(self).length == old(self).length,
    {
        self.bytes.push(byte);
        self.bytes_counter += 1;
    }
}

} // verus!
