//! Parser errors.
use super::generators::BencodeType;
use crate::rw;
use crate::rw::byte_reader::ByteReader;
use crate::rw::recent;
use crate::rw::writer::Writer;
use crate::rw::HISTORY_LIMIT;
use crate::text::{append_decimal, decimal_chars, push_char, utf8_text};
use vstd::prelude::*;
use vstd::string::StringExecFns;
use vstd::utf8::{decode_utf8, valid_utf8};

verus! {

/// Errors that can occur while parsing a bencoded value.
#[derive(Debug)]
pub enum Error {
    /// R/W error.
    Rw(rw::error::Error),
    /// Read byte after peeking does match peeked byte.
    ///
    /// The tokenizer peeks one byte ahead to know what kind of bencoded value
    /// is being parsed. If the byte read after peeking does not match the
    /// peeked byte, it means the input is being consumed somewhere else.
    ReadByteAfterPeekingDoesMatchPeekedByte(ReadContext),
    /// Unrecognized first byte for new bencoded value.
    ///
    /// This error is raised when the peeked byte is not a valid first byte
    /// for a bencoded value.
    UnrecognizedFirstBencodeValueByte(ReadContext),
    /// Unexpected byte parsing integer.
    ///
    /// This error is raised when the byte read is not a valid byte for an
    /// integer bencoded value.
    UnexpectedByteParsingInteger(ReadContext),
    /// Unexpected end of input parsing integer.
    ///
    /// The input ends before the integer ends.
    UnexpectedEndOfInputParsingInteger(ReadContext),
    /// Leading zeros in integers are not allowed, for example b'i00e'.
    LeadingZerosInIntegersNotAllowed(ReadContext),
    /// Invalid string length byte, expected a digit.
    ///
    /// The length can only be made of digits (0-9).
    InvalidStringLengthByte(ReadContext),
    /// Unexpected end of input parsing string length.
    ///
    /// The input ends before the string length ends.
    UnexpectedEndOfInputParsingStringLength(ReadContext),
    /// Unexpected end of input parsing string value.
    ///
    /// The input ends before the string value ends.
    UnexpectedEndOfInputParsingStringValue(ReadContext),
    /// Unexpected end of input parsing list. Expecting first list item or
    /// list end.
    UnexpectedEndOfInputExpectingFirstListItemOrEnd(ReadContext, WriteContext),
    /// Unexpected end of input parsing list. Expecting next list item.
    UnexpectedEndOfInputExpectingNextListItem(ReadContext, WriteContext),
    /// Unexpected end of input parsing dictionary. Expecting first
    /// dictionary field or dictionary end.
    UnexpectedEndOfInputExpectingFirstDictFieldOrEnd(ReadContext, WriteContext),
    /// Unexpected end of input parsing dictionary. Expecting dictionary
    /// field value.
    UnexpectedEndOfInputExpectingDictFieldValue(ReadContext, WriteContext),
    /// Unexpected end of input parsing dictionary. Expecting dictionary
    /// field key or end.
    UnexpectedEndOfInputExpectingDictFieldKeyOrEnd(ReadContext, WriteContext),
    /// Unexpected end of dictionary. Premature end of dictionary.
    PrematureEndOfDict(ReadContext, WriteContext),
    /// Expected string for dictionary field key.
    ExpectedStringForDictKeyGot(BencodeType, ReadContext, WriteContext),
    /// Unexpected end of list or dict. No matching start for the list or
    /// dict end.
    NoMatchingStartForListOrDictEnd(ReadContext, WriteContext),
}

/// The reader context when the error occurred.
#[derive(Debug)]
pub struct ReadContext {
    /// The read byte that caused the error if any.
    pub byte: Option<u8>,
    /// The position of the read byte that caused the error.
    pub pos: u64,
    /// The latest bytes read from input.
    pub latest_bytes: Vec<u8>,
}

/// The writer context when the error occurred.
#[derive(Debug)]
pub struct WriteContext {
    /// The written byte that caused the error if any.
    pub byte: Option<u8>,
    /// The position of the written byte that caused the error.
    pub pos: u64,
    /// The latest bytes written to the output.
    pub latest_bytes: Vec<u8>,
}

/// What went wrong, without the diagnostics.
#[derive(Debug, Clone, Copy, PartialEq, Eq, Structural)]
pub enum ErrorKind {
    Rw,
    ReadByteAfterPeekingDoesMatchPeekedByte,
    UnrecognizedFirstBencodeValueByte,
    UnexpectedByteParsingInteger,
    UnexpectedEndOfInputParsingInteger,
    LeadingZerosInIntegersNotAllowed,
    InvalidStringLengthByte,
    UnexpectedEndOfInputParsingStringLength,
    UnexpectedEndOfInputParsingStringValue,
    UnexpectedEndOfInputExpectingFirstListItemOrEnd,
    UnexpectedEndOfInputExpectingNextListItem,
    UnexpectedEndOfInputExpectingFirstDictFieldOrEnd,
    UnexpectedEndOfInputExpectingDictFieldValue,
    UnexpectedEndOfInputExpectingDictFieldKeyOrEnd,
    PrematureEndOfDict,
    ExpectedStringForDictKeyGot(BencodeType),
    NoMatchingStartForListOrDictEnd,
}

/// A read or write context as plain values.
pub struct ContextView {
    pub byte: Option<u8>,
    pub pos: u64,
    pub latest_bytes: Seq<u8>,
}

/// An error as plain values: its kind and the contexts it carries.
pub struct ErrorView {
    pub kind: ErrorKind,
    pub read: Option<ContextView>,
    pub write: Option<ContextView>,
}

/// A failure of the conversion: what went wrong and how many bytes of the
/// input had been read when it did.
pub struct Fault {
    pub kind: ErrorKind,
    pub at: nat,
}

impl View for ReadContext {
    type V = ContextView;

    open spec fn view(&self) -> ContextView {
        ContextView { byte: self.byte, pos: self.pos, latest_bytes: self.latest_bytes@ }
    }
}

impl View for WriteContext {
    type V = ContextView;

    open spec fn view(&self) -> ContextView {
        ContextView { byte: self.byte, pos: self.pos, latest_bytes: self.latest_bytes@ }
    }
}

impl View for Error {
    type V = ErrorView;

    open spec fn view(&self) -> ErrorView {
        match *self {
            Error::Rw(_) => ErrorView { kind: ErrorKind::Rw, read: None, write: None },
            Error::ReadByteAfterPeekingDoesMatchPeekedByte(read) => ErrorView {
                kind: ErrorKind::ReadByteAfterPeekingDoesMatchPeekedByte,
                read: Some(read@),
                write: None,
            },
            Error::UnrecognizedFirstBencodeValueByte(read) => ErrorView {
                kind: ErrorKind::UnrecognizedFirstBencodeValueByte,
                read: Some(read@),
                write: None,
            },
            Error::UnexpectedByteParsingInteger(read) => ErrorView {
                kind: ErrorKind::UnexpectedByteParsingInteger,
                read: Some(read@),
                write: None,
            },
            Error::UnexpectedEndOfInputParsingInteger(read) => ErrorView {
                kind: ErrorKind::UnexpectedEndOfInputParsingInteger,
                read: Some(read@),
                write: None,
            },
            Error::LeadingZerosInIntegersNotAllowed(read) => ErrorView {
                kind: ErrorKind::LeadingZerosInIntegersNotAllowed,
                read: Some(read@),
                write: None,
            },
            Error::InvalidStringLengthByte(read) => ErrorView {
                kind: ErrorKind::InvalidStringLengthByte,
                read: Some(read@),
                write: None,
            },
            Error::UnexpectedEndOfInputParsingStringLength(read) => ErrorView {
                kind: ErrorKind::UnexpectedEndOfInputParsingStringLength,
                read: Some(read@),
                write: None,
            },
            Error::UnexpectedEndOfInputParsingStringValue(read) => ErrorView {
                kind: ErrorKind::UnexpectedEndOfInputParsingStringValue,
                read: Some(read@),
                write: None,
            },
            Error::UnexpectedEndOfInputExpectingFirstListItemOrEnd(read, write) => ErrorView {
                kind: ErrorKind::UnexpectedEndOfInputExpectingFirstListItemOrEnd,
                read: Some(read@),
                write: Some(write@),
            },
            Error::UnexpectedEndOfInputExpectingNextListItem(read, write) => ErrorView {
                kind: ErrorKind::UnexpectedEndOfInputExpectingNextListItem,
                read: Some(read@),
                write: Some(write@),
            },
            Error::UnexpectedEndOfInputExpectingFirstDictFieldOrEnd(read, write) => ErrorView {
                kind: ErrorKind::UnexpectedEndOfInputExpectingFirstDictFieldOrEnd,
                read: Some(read@),
                write: Some(write@),
            },
            Error::UnexpectedEndOfInputExpectingDictFieldValue(read, write) => ErrorView {
                kind: ErrorKind::UnexpectedEndOfInputExpectingDictFieldValue,
                read: Some(read@),
                write: Some(write@),
            },
            Error::UnexpectedEndOfInputExpectingDictFieldKeyOrEnd(read, write) => ErrorView {
                kind: ErrorKind::UnexpectedEndOfInputExpectingDictFieldKeyOrEnd,
                read: Some(read@),
                write: Some(write@),
            },
            Error::PrematureEndOfDict(read, write) => ErrorView {
                kind: ErrorKind::PrematureEndOfDict,
                read: Some(read@),
                write: Some(write@),
            },
            Error::ExpectedStringForDictKeyGot(bencode_type, read, write) => ErrorView {
                kind: ErrorKind::ExpectedStringForDictKeyGot(bencode_type),
                read: Some(read@),
                write: Some(write@),
            },
            Error::NoMatchingStartForListOrDictEnd(read, write) => ErrorView {
                kind: ErrorKind::NoMatchingStartForListOrDictEnd,
                read: Some(read@),
                write: Some(write@),
            },
        }
    }
}

impl ErrorKind {
    /// Whether an error of this kind names the byte that caused it.
    pub open spec fn names_byte(self) -> bool {
        ||| self is ReadByteAfterPeekingDoesMatchPeekedByte
        ||| self is UnrecognizedFirstBencodeValueByte
        ||| self is UnexpectedByteParsingInteger
        ||| self is LeadingZerosInIntegersNotAllowed
        ||| self is InvalidStringLengthByte
    }

    /// The byte that an error of this kind names when it is raised with `at`
    /// bytes of `input` read: the byte ahead, which was peeked, where no
    /// token can begin with it; the last byte read in the other kinds that
    /// name a byte.
    pub open spec fn named_byte(self, input: Seq<u8>, at: nat) -> Option<u8> {
        if self is UnrecognizedFirstBencodeValueByte {
            if at < input.len() {
                Some(input[at as int])
            } else {
                None
            }
        } else if self.names_byte() && 0 < at <= input.len() {
            Some(input[at - 1])
        } else {
            None
        }
    }

    /// Whether an error of this kind comes from the tokenizer, which knows
    /// nothing of the output.
    pub open spec fn is_lexical(self) -> bool {
        ||| self.names_byte()
        ||| self is UnexpectedEndOfInputParsingInteger
        ||| self is UnexpectedEndOfInputParsingStringLength
        ||| self is UnexpectedEndOfInputParsingStringValue
    }

    /// Whether an error of this kind comes from the nesting of lists and
    /// dictionaries.
    pub open spec fn is_structural(self) -> bool {
        !(self is Rw) && !self.is_lexical()
    }
}

/// The read context of an error raised when `at` bytes of `input` had been
/// read: the byte that the error names, if it names one, the position and
/// the latest bytes read. A byte that was only peeked is not among them.
pub open spec fn read_context_at(input: Seq<u8>, at: nat, byte: Option<u8>) -> ContextView {
    ContextView {
        byte,
        pos: at as u64,
        latest_bytes: recent(input.take(at as int), HISTORY_LIMIT as nat),
    }
}

/// The write context of an error raised with a writer in the given state.
pub open spec fn write_context_of<W: Writer>(writer: &W) -> ContextView {
    ContextView { byte: None, pos: writer.position() as u64, latest_bytes: writer.history() }
}

/// The error that reports `fault` on `input`. Only a structural error
/// carries the write context.
pub open spec fn diagnose(fault: Fault, input: Seq<u8>, write: ContextView) -> ErrorView {
    ErrorView {
        kind: fault.kind,
        read: Some(read_context_at(input, fault.at, fault.kind.named_byte(input, fault.at))),
        write: if fault.kind.is_structural() {
            Some(write)
        } else {
            None
        },
    }
}

/// The error that reports a lexical fault.
pub open spec fn lexical_error(kind: ErrorKind, input: Seq<u8>, at: nat) -> ErrorView {
    ErrorView {
        kind,
        read: Some(read_context_at(input, at, kind.named_byte(input, at))),
        write: None,
    }
}

/// The numbers of the bytes, in base ten, with a comma and a blank between
/// two of them.
pub open spec fn byte_list_text(bytes: Seq<u8>) -> Seq<char>
    decreases bytes.len(),
{
    if bytes.len() == 0 {
        seq![]
    } else if bytes.len() == 1 {
        decimal_chars(bytes[0] as nat)
    } else {
        byte_list_text(bytes.drop_last()) + ", "@ + decimal_chars(bytes.last() as nat)
    }
}

/// How a context is written out. `label` says whose context it is and
/// `side` which side of the conversion it saw: the byte, if one is named,
/// as a number and as a char; the position; the latest bytes as numbers
/// and, if they are valid UTF-8, as text.
pub open spec fn context_text(label: Seq<char>, side: Seq<char>, context: ContextView) -> Seq<
    char,
> {
    label + " context:"@ + (match context.byte {
        Some(byte) => " byte `"@ + decimal_chars(byte as nat) + "` (char: `"@ + seq![byte as char]
            + "`),"@,
        None => seq![],
    }) + " "@ + side + " pos "@ + decimal_chars(context.pos as nat) + ", latest "@ + side
        + " bytes dump: ["@ + byte_list_text(context.latest_bytes) + "]"@ + (if valid_utf8(
        context.latest_bytes,
    ) {
        " (UTF-8 string: `"@ + decode_utf8(context.latest_bytes) + "`)"@
    } else {
        seq![]
    })
}

/// Writes out a context.
fn write_context(
    label: &str,
    side: &str,
    byte: Option<u8>,
    pos: u64,
    latest_bytes: &Vec<u8>,
) -> (text: String)
    ensures
        text@ == context_text(
            label@,
            side@,
            ContextView { byte, pos, latest_bytes: latest_bytes@ },
        ),
{
    broadcast use vstd::utf8::encode_utf8_decode_utf8;

    let mut text = String::from_str(label);
    text.append(" context:");
    match byte {
        Some(byte) => {
            text.append(" byte `");
            append_decimal(&mut text, byte as u64);
            text.append("` (char: `");
            push_char(&mut text, byte as char);
            text.append("`),");
            assert(text@ =~= label@ + " context:"@ + (" byte `"@ + decimal_chars(byte as nat)
                + "` (char: `"@ + seq![byte as char] + "`),"@));
        },
        None => {},
    }
    text.append(" ");
    text.append(side);
    text.append(" pos ");
    append_decimal(&mut text, pos);
    text.append(", latest ");
    text.append(side);
    text.append(" bytes dump: [");
    let ghost head = text@;
    let mut index: usize = 0;
    while index < latest_bytes.len()
        invariant
            index <= latest_bytes@.len(),
            text@ == head + byte_list_text(latest_bytes@.take(index as int)),
        decreases latest_bytes@.len() - index,
    {
        let ghost before = latest_bytes@.take(index as int);
        let ghost after = latest_bytes@.take(index + 1);
        assert(after.drop_last() =~= before);
        if index > 0 {
            text.append(", ");
        }
        append_decimal(&mut text, latest_bytes[index] as u64);
        index = index + 1;
    }
    assert(latest_bytes@.take(index as int) =~= latest_bytes@);
    text.append("]");
    let ghost listed = text@;
    match utf8_text(latest_bytes.as_slice()) {
        Some(chars) => {
            text.append(" (UTF-8 string: `");
            text.append(chars);
            text.append("`)");
            assert(text@ =~= listed + (" (UTF-8 string: `"@ + decode_utf8(latest_bytes@)
                + "`)"@));
        },
        None => {},
    }
    text
}

impl ReadContext {
    /// The context written out for a message.
    pub fn to_string(&self) -> (text: String)
        ensures
            text@ == context_text("read"@, "input"@, self@),
    {
        write_context("read", "input", self.byte, self.pos, &self.latest_bytes)
    }

    /// The context of a reader now, naming the given byte or none.
    pub fn capture(reader: &ByteReader, byte: Option<u8>) -> (context: ReadContext)
        requires
            reader.wf(),
        ensures
            context@ == read_context_at(reader.input(), reader.consumed(), byte),
    {
        ReadContext {
            byte,
            pos: reader.input_byte_counter(),
            latest_bytes: reader.captured_bytes(),
        }
    }
}

impl WriteContext {
    /// The context written out for a message.
    pub fn to_string(&self) -> (text: String)
        ensures
            text@ == context_text("write"@, "output"@, self@),
    {
        write_context("write", "output", self.byte, self.pos, &self.latest_bytes)
    }

    /// The context of a writer now.
    pub fn capture<W: Writer>(writer: &W) -> (context: WriteContext)
        requires
            writer.wf(),
        ensures
            context@ == write_context_of(writer),
    {
        WriteContext {
            byte: None,
            pos: writer.output_byte_counter(),
            latest_bytes: writer.captured_bytes(),
        }
    }
}

} // verus!
