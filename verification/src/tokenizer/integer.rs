//! Bencoded integer parser.
//!
//! It reads the bytes of one bencoded integer from the input and returns its
//! digits, with the sign if there is one, as they stand in the input.
use super::{
    digit_run, is_digit, lemma_digit_run, lemma_digit_run_bound, Lexed, BENCODE_END_INTEGER,
    DIGIT_NINE, DIGIT_ZERO, MINUS_SIGN,
};
use crate::error::{lexical_error, Error, ErrorKind, ReadContext};
use crate::rw::byte_reader::ByteReader;
use vstd::prelude::*;

verus! {

/// The current state parsing the integer.
#[derive(Clone, Copy, PartialEq, Eq, Structural)]
enum StateExpecting {
    Start,
    DigitOrSign,
    DigitAfterSign,
    DigitOrEnd,
}

/// Whether `text` is an integer as bencode writes it between `i` and `e`:
/// an optional minus sign, then one or more digits, the first of which is a
/// zero only if it is the only one.
pub open spec fn is_integer_text(text: Seq<u8>) -> bool {
    let sign: int = if text.len() > 0 && text[0] == MINUS_SIGN {
        1
    } else {
        0
    };
    &&& text.len() > sign
    &&& forall|i: int| sign <= i < text.len() ==> is_digit(#[trigger] text[i])
    &&& text[sign] == DIGIT_ZERO ==> text.len() == sign + 1
}

/// What the integer parser makes of the bytes `rem` that lie ahead.
///
/// The first byte is the begin mark and is passed over. Then come an
/// optional minus sign and a run of digits, which must not be empty nor go
/// on after a leading zero, and the end mark.
pub open spec fn scan_integer(rem: Seq<u8>) -> Lexed<Seq<u8>> {
    let sign: int = if rem.len() > 1 && rem[1] == MINUS_SIGN {
        1
    } else {
        0
    };
    let start = 1 + sign;
    let run = if start <= rem.len() {
        digit_run(rem.skip(start))
    } else {
        0
    };
    let stop = start + run;
    if start >= rem.len() {
        Lexed::Failed { kind: ErrorKind::UnexpectedEndOfInputParsingInteger, len: rem.len() }
    } else if run == 0 {
        Lexed::Failed { kind: ErrorKind::UnexpectedByteParsingInteger, len: (start + 1) as nat }
    } else if rem[start] == DIGIT_ZERO && run >= 2 {
        Lexed::Failed {
            kind: ErrorKind::LeadingZerosInIntegersNotAllowed,
            len: (start + 2) as nat,
        }
    } else if stop >= rem.len() {
        Lexed::Failed { kind: ErrorKind::UnexpectedEndOfInputParsingInteger, len: rem.len() }
    } else if rem[stop] == BENCODE_END_INTEGER {
        Lexed::Done { value: rem.subrange(1, stop), len: (stop + 1) as nat }
    } else {
        Lexed::Failed { kind: ErrorKind::UnexpectedByteParsingInteger, len: (stop + 1) as nat }
    }
}

/// What the integer parser accepts is an integer as bencode writes it.
pub proof fn lemma_integer_text(rem: Seq<u8>)
    ensures
        scan_integer(rem) matches Lexed::Done { value, .. } ==> is_integer_text(value),
{
    if let Lexed::Done { value, len } = scan_integer(rem) {
        let sign: int = if rem[1] == MINUS_SIGN {
            1
        } else {
            0
        };
        let start = 1 + sign;
        let digits = rem.skip(start);
        lemma_digit_run_bound(digits);
        assert forall|i: int| sign <= i < value.len() implies is_digit(#[trigger] value[i]) by {
            assert(value[i] == digits[i - sign]);
        }
    }
}

/// An integer as bencode writes it, between any first byte and the end mark,
/// is what the integer parser accepts, whatever follows.
pub proof fn lemma_scan_integer(mark: u8, text: Seq<u8>, rest: Seq<u8>)
    requires
        is_integer_text(text),
    ensures
        scan_integer(seq![mark] + text + seq![BENCODE_END_INTEGER] + rest) == (Lexed::Done {
            value: text,
            len: text.len() + 2,
        }),
{
    let rem = seq![mark] + text + seq![BENCODE_END_INTEGER] + rest;
    let sign: int = if text[0] == MINUS_SIGN {
        1
    } else {
        0
    };
    let start = 1 + sign;
    let digits = rem.skip(start);
    let run = (text.len() - sign) as nat;
    assert forall|i: int| 0 <= i < run implies is_digit(#[trigger] digits[i]) by {}
    lemma_digit_run(digits, run);
    assert(rem.subrange(1, start + run) =~= text);
}

/// What the integer parser accepts depends only on the bytes it spans.
pub proof fn lemma_scan_integer_prefix(rem: Seq<u8>, other: Seq<u8>)
    requires
        scan_integer(rem) matches Lexed::Done { len, .. } && len <= other.len() && other.take(
            len as int,
        ) == rem.take(len as int),
    ensures
        scan_integer(other) == scan_integer(rem),
{
    let value = scan_integer(rem)->Done_value;
    let len = scan_integer(rem)->Done_len;
    lemma_integer_text(rem);
    if rem.len() > 1 {
        lemma_digit_run_bound(rem.skip(1));
    }
    if rem.len() > 2 {
        lemma_digit_run_bound(rem.skip(2));
    }
    let rest = other.skip(len as int);
    let spelled = seq![rem[0]] + value + seq![BENCODE_END_INTEGER] + rest;
    assert(spelled =~= other) by {
        assert forall|i: int| 0 <= i < len implies other[i] == rem[i] by {
            assert(other[i] == other.take(len as int)[i]);
        }
        assert forall|i: int| 0 <= i < other.len() implies spelled[i] == other[i] by {}
    }
    lemma_scan_integer(rem[0], value, rest);
}

/// It parses an integer bencoded value.
///
/// The reader stands before the begin mark. On success the reader stands
/// behind the end mark and the digits are returned, sign included.
pub fn parse(reader: &mut ByteReader) -> (result: Result<Vec<u8>, Error>)
    requires
        old(reader).wf(),
    ensures
        final(reader).wf(),
        final(reader).input() == old(reader).input(),
        !final(reader).holds_peeked(),
        match scan_integer(old(reader).remaining()) {
            Lexed::Done { value, len } => {
                &&& result matches Ok(digits)
                &&& digits@ == value
                &&& is_integer_text(value)
                &&& final(reader).consumed() == old(reader).consumed() + len
            },
            Lexed::Failed { kind, len } => {
                &&& result matches Err(error)
                &&& error@ == lexical_error(
                    kind,
                    old(reader).input(),
                    old(reader).consumed() + len,
                )
                &&& final(reader).consumed() == old(reader).consumed() + len
            },
        },
{
    let mut state = StateExpecting::Start;
    let mut first_digit_is_zero = false;
    let mut value: Vec<u8> = Vec::new();
    let ghost rem = reader.remaining();
    let ghost base = reader.consumed();
    let ghost sign: int = if rem.len() > 1 && rem[1] == MINUS_SIGN {
        1
    } else {
        0
    };
    let ghost start = 1 + sign;
    let ghost mut count: int = 0;
    proof {
        reader.lemma_bounds();
    }

    loop
        invariant
            reader.wf(),
            reader.input() == old(reader).input(),
            rem == old(reader).remaining(),
            base == old(reader).consumed(),
            base + rem.len() == reader.input().len(),
            sign == (if rem.len() > 1 && rem[1] == MINUS_SIGN {
                1int
            } else {
                0int
            }),
            start == 1 + sign,
            0 <= count <= rem.len(),
            reader.consumed() == base + count,
            count > 0 ==> !reader.holds_peeked(),
            reader.remaining() == rem.skip(count),
            state != StateExpecting::DigitOrEnd ==> !first_digit_is_zero,
            match state {
                StateExpecting::Start => count == 0 && value@.len() == 0,
                StateExpecting::DigitOrSign => count == 1 && value@.len() == 0,
                StateExpecting::DigitAfterSign => count == 2 && sign == 1 && value@ == rem.subrange(
                    1,
                    2,
                ),
                StateExpecting::DigitOrEnd => {
                    &&& start < count
                    &&& value@ == rem.subrange(1, count)
                    &&& forall|i: int| start <= i < count ==> is_digit(#[trigger] rem[i])
                    &&& first_digit_is_zero == (rem[start] == DIGIT_ZERO)
                    &&& first_digit_is_zero ==> count == start + 1
                },
            },
        decreases rem.len() - count,
    {
        proof {
            reader.lemma_bounds();
            if state == StateExpecting::DigitOrEnd {
                if count < rem.len() && !is_digit(rem[count]) || count == rem.len() {
                    lemma_digit_run(rem.skip(start), (count - start) as nat);
                }
                if count < rem.len() && is_digit(rem[count]) && first_digit_is_zero {
                    lemma_digit_run_at_least(rem.skip(start), 2);
                }
            } else if count == start && count < rem.len() && !is_digit(rem[count]) {
                lemma_digit_run(rem.skip(start), 0);
            }
        }
        let byte = match next_byte(reader) {
            Ok(byte) => byte,
            Err(error) => {
                return Err(error);
            },
        };

        state =
        match state {
            StateExpecting::Start => {
                // Discard the begin mark
                proof {
                    count = count + 1;
                }
                StateExpecting::DigitOrSign
            },
            StateExpecting::DigitOrSign => {
                if byte == MINUS_SIGN {
                    value.push(byte);
                    proof {
                        count = count + 1;
                    }
                    StateExpecting::DigitAfterSign
                } else if byte >= DIGIT_ZERO && byte <= DIGIT_NINE {
                    value.push(byte);
                    if byte == DIGIT_ZERO {
                        first_digit_is_zero = true;
                    }
                    proof {
                        count = count + 1;
                    }
                    StateExpecting::DigitOrEnd
                } else {
                    return Err(
                        Error::UnexpectedByteParsingInteger(ReadContext::capture(reader, Some(byte))),
                    );
                }
            },
            StateExpecting::DigitAfterSign => {
                if byte >= DIGIT_ZERO && byte <= DIGIT_NINE {
                    value.push(byte);
                    if byte == DIGIT_ZERO {
                        first_digit_is_zero = true;
                    }
                    proof {
                        count = count + 1;
                    }
                    StateExpecting::DigitOrEnd
                } else {
                    return Err(
                        Error::UnexpectedByteParsingInteger(ReadContext::capture(reader, Some(byte))),
                    );
                }
            },
            StateExpecting::DigitOrEnd => {
                if byte >= DIGIT_ZERO && byte <= DIGIT_NINE {
                    if first_digit_is_zero {
                        return Err(
                            Error::LeadingZerosInIntegersNotAllowed(
                                ReadContext::capture(reader, Some(byte)),
                            ),
                        );
                    }
                    value.push(byte);
                    proof {
                        count = count + 1;
                    }
                    StateExpecting::DigitOrEnd
                } else if byte == BENCODE_END_INTEGER {
                    return Ok(value);
                } else {
                    return Err(
                        Error::UnexpectedByteParsingInteger(ReadContext::capture(reader, Some(byte))),
                    );
                }
            },
        };
    }
}

/// A run of digits that holds `n` digits at its head is at least `n` long.
proof fn lemma_digit_run_at_least(bytes: Seq<u8>, n: nat)
    requires
        n <= bytes.len(),
        forall|i: int| 0 <= i < n ==> is_digit(#[trigger] bytes[i]),
    ensures
        digit_run(bytes) >= n,
    decreases n,
{
    if n > 0 {
        lemma_digit_run_at_least(bytes.drop_first(), (n - 1) as nat);
    }
}

/// It reads the next byte of the integer from the input.
fn next_byte(reader: &mut ByteReader) -> (result: Result<u8, Error>)
    requires
        old(reader).wf(),
    ensures
        final(reader).wf(),
        final(reader).input() == old(reader).input(),
        !final(reader).holds_peeked(),
        match result {
            Ok(byte) => {
                &&& old(reader).remaining().len() > 0
                &&& byte == old(reader).remaining()[0]
                &&& final(reader).consumed() == old(reader).consumed() + 1
            },
            Err(error) => {
                &&& old(reader).remaining().len() == 0
                &&& final(reader).consumed() == old(reader).consumed()
                &&& error@ == lexical_error(
                    ErrorKind::UnexpectedEndOfInputParsingInteger,
                    old(reader).input(),
                    old(reader).consumed(),
                )
            },
        },
{
    match reader.read_byte() {
        Ok(byte) => Ok(byte),
        Err(_) => Err(
            Error::UnexpectedEndOfInputParsingInteger(ReadContext::capture(reader, None)),
        ),
    }
}

} // verus!
