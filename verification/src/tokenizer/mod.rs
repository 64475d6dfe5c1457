//! Bencode tokenizer. Given an input, it returns its tokens one by one.
pub mod integer;
pub mod string;

use crate::error::{lexical_error, Error, ErrorKind, ReadContext};
use crate::rw::byte_reader::ByteReader;
use integer::scan_integer;
use string::scan_string;
use vstd::prelude::*;

verus! {

// Bencoded reserved bytes
/// `i`
pub const BENCODE_BEGIN_INTEGER: u8 = 0x69;

/// `e`
pub const BENCODE_END_INTEGER: u8 = 0x65;

/// `l`
pub const BENCODE_BEGIN_LIST: u8 = 0x6c;

/// `d`
pub const BENCODE_BEGIN_DICT: u8 = 0x64;

/// `e`
pub const BENCODE_END_LIST_OR_DICT: u8 = 0x65;

/// `:`
pub const END_OF_STRING_LENGTH_BYTE: u8 = 0x3a;

/// `\n`
pub const LINE_BREAK: u8 = 0x0a;

/// `-`
pub const MINUS_SIGN: u8 = 0x2d;

/// `0`
pub const DIGIT_ZERO: u8 = 0x30;

/// `9`
pub const DIGIT_NINE: u8 = 0x39;

/// Whether the byte is an ASCII digit.
pub open spec fn is_digit(byte: u8) -> bool {
    DIGIT_ZERO <= byte <= DIGIT_NINE
}

/// How many ASCII digits stand at the head of `bytes`.
pub open spec fn digit_run(bytes: Seq<u8>) -> nat
    decreases bytes.len(),
{
    if bytes.len() > 0 && is_digit(bytes[0]) {
        1 + digit_run(bytes.drop_first())
    } else {
        0
    }
}

/// The run of digits at the head of `bytes` is `n` long when `n` digits
/// stand there and what follows, if anything, is no digit.
pub proof fn lemma_digit_run(bytes: Seq<u8>, n: nat)
    requires
        n <= bytes.len(),
        forall|i: int| 0 <= i < n ==> is_digit(#[trigger] bytes[i]),
        n < bytes.len() ==> !is_digit(bytes[n as int]),
    ensures
        digit_run(bytes) == n,
    decreases n,
{
    if n > 0 {
        lemma_digit_run(bytes.drop_first(), (n - 1) as nat);
    }
}

/// A run of digits is no longer than the bytes it stands in, and holds
/// digits only.
pub proof fn lemma_digit_run_bound(bytes: Seq<u8>)
    ensures
        digit_run(bytes) <= bytes.len(),
        forall|i: int| 0 <= i < digit_run(bytes) ==> is_digit(#[trigger] bytes[i]),
        digit_run(bytes) < bytes.len() ==> !is_digit(bytes[digit_run(bytes) as int]),
    decreases bytes.len(),
{
    if bytes.len() > 0 && is_digit(bytes[0]) {
        let rest = bytes.drop_first();
        lemma_digit_run_bound(rest);
        assert forall|i: int| 0 <= i < digit_run(bytes) implies is_digit(#[trigger] bytes[i]) by {
            if i > 0 {
                assert(bytes[i] == rest[i - 1]);
            }
        }
    }
}

/// What a lexer makes of the bytes ahead: a value spanning the first `len`
/// of them, or a failure noticed after reading `len` of them.
pub enum Lexed<T> {
    Done { value: T, len: nat },
    Failed { kind: ErrorKind, len: nat },
}

/// A bencode token: a whole integer or string, or the mark that begins or
/// ends a list or dictionary. A line break between tokens is a token too.
#[derive(Debug, PartialEq, Eq)]
pub enum BencodeToken {
    Integer(Vec<u8>),
    String(Vec<u8>),
    BeginList,
    BeginDict,
    EndListOrDict,
    LineBreak,
}

/// A token as plain values.
pub enum Token {
    Integer(Seq<u8>),
    String(Seq<u8>),
    BeginList,
    BeginDict,
    EndListOrDict,
    LineBreak,
}

impl View for BencodeToken {
    type V = Token;

    open spec fn view(&self) -> Token {
        match *self {
            BencodeToken::Integer(digits) => Token::Integer(digits@),
            BencodeToken::String(bytes) => Token::String(bytes@),
            BencodeToken::BeginList => Token::BeginList,
            BencodeToken::BeginDict => Token::BeginDict,
            BencodeToken::EndListOrDict => Token::EndListOrDict,
            BencodeToken::LineBreak => Token::LineBreak,
        }
    }
}

/// The token at the head of the bytes `rem`, or none if there are no bytes.
///
/// The first byte decides: `i` begins an integer, a digit a string; `l`, `d`,
/// `e` and a line break are tokens by themselves; no other byte can begin a
/// token.
pub open spec fn scan_token(rem: Seq<u8>) -> Option<Lexed<Token>> {
    if rem.len() == 0 {
        None
    } else if rem[0] == BENCODE_BEGIN_INTEGER {
        Some(
            match scan_integer(rem) {
                Lexed::Done { value, len } => Lexed::Done { value: Token::Integer(value), len },
                Lexed::Failed { kind, len } => Lexed::Failed { kind, len },
            },
        )
    } else if is_digit(rem[0]) {
        Some(
            match scan_string(rem) {
                Lexed::Done { value, len } => Lexed::Done { value: Token::String(value), len },
                Lexed::Failed { kind, len } => Lexed::Failed { kind, len },
            },
        )
    } else if rem[0] == BENCODE_BEGIN_LIST {
        Some(Lexed::Done { value: Token::BeginList, len: 1 })
    } else if rem[0] == BENCODE_BEGIN_DICT {
        Some(Lexed::Done { value: Token::BeginDict, len: 1 })
    } else if rem[0] == BENCODE_END_LIST_OR_DICT {
        Some(Lexed::Done { value: Token::EndListOrDict, len: 1 })
    } else if rem[0] == LINE_BREAK {
        Some(Lexed::Done { value: Token::LineBreak, len: 1 })
    } else {
        // The byte is peeked and stays ahead
        Some(Lexed::Failed { kind: ErrorKind::UnrecognizedFirstBencodeValueByte, len: 0 })
    }
}

/// A token spans at least one byte and no more than there are.
pub proof fn lemma_token_len(rem: Seq<u8>)
    ensures
        scan_token(rem) matches Some(Lexed::Done { len, .. }) ==> 0 < len <= rem.len(),
        scan_token(rem) matches Some(Lexed::Failed { len, .. }) ==> len <= rem.len(),
{
    if rem.len() > 0 {
        lemma_digit_run_bound(rem);
        if rem.len() > 1 {
            lemma_digit_run_bound(rem.skip(1));
        }
        if rem.len() > 2 {
            lemma_digit_run_bound(rem.skip(2));
        }
    }
}

/// Which token stands at the head of some bytes depends only on the bytes
/// that the token spans.
pub proof fn lemma_scan_token_prefix(rem: Seq<u8>, other: Seq<u8>)
    requires
        scan_token(rem) matches Some(Lexed::Done { len, .. }) && len <= other.len() && other.take(
            len as int,
        ) == rem.take(len as int),
    ensures
        scan_token(other) == scan_token(rem),
{
    let len = scan_token(rem)->Some_0->Done_len;
    lemma_token_len(rem);
    assert(other[0] == other.take(len as int)[0]);
    if rem[0] == BENCODE_BEGIN_INTEGER {
        integer::lemma_scan_integer_prefix(rem, other);
    } else if is_digit(rem[0]) {
        string::lemma_scan_string_prefix(rem, other);
    }
}

/// Only the tokenizer's own kinds of failure come out of a scan.
pub proof fn lemma_token_kinds(rem: Seq<u8>)
    ensures
        scan_token(rem) matches Some(Lexed::Failed { kind, .. }) ==> kind.is_lexical(),
{
}

/// The tokenizer: it reads an input byte by byte and hands out its tokens.
pub struct Tokenizer<'a> {
    byte_reader: ByteReader<'a>,
}

impl<'a> Tokenizer<'a> {
    /// The reader the tokenizer takes its bytes from.
    pub closed spec fn reader(&self) -> ByteReader<'a> {
        self.byte_reader
    }

    /// The reader is well formed.
    pub open spec fn wf(&self) -> bool {
        self.reader().wf()
    }

    /// A tokenizer at the start of the input.
    pub fn new(reader: &'a [u8]) -> (tokenizer: Self)
        ensures
            tokenizer.wf(),
            tokenizer.reader().input() == reader@,
            tokenizer.reader().consumed() == 0,
            !tokenizer.reader().holds_peeked(),
    {
        Tokenizer { byte_reader: ByteReader::new(reader) }
    }

    /// It parses the next bencoded token from input.
    ///
    /// At the end of the input there is no token. A token leaves the reader
    /// behind its last byte; a failure leaves it where the failure was
    /// noticed.
    pub fn next_token(&mut self) -> (result: Result<Option<BencodeToken>, Error>)
        requires
            old(self).wf(),
        ensures
            final(self).wf(),
            final(self).reader().input() == old(self).reader().input(),
            match scan_token(old(self).reader().remaining()) {
                None => {
                    &&& result matches Ok(None)
                    &&& final(self).reader().consumed() == old(self).reader().consumed()
                    &&& !final(self).reader().holds_peeked()
                },
                Some(Lexed::Done { value, len }) => {
                    &&& result matches Ok(Some(token))
                    &&& token@ == value
                    &&& final(self).reader().consumed() == old(self).reader().consumed() + len
                    &&& !final(self).reader().holds_peeked()
                },
                Some(Lexed::Failed { kind, len }) => {
                    &&& result matches Err(error)
                    &&& error@ == lexical_error(
                        kind,
                        old(self).reader().input(),
                        old(self).reader().consumed() + len,
                    )
                    &&& final(self).reader().consumed() == old(self).reader().consumed() + len
                    &&& final(self).reader().holds_peeked() == (kind
                        is UnrecognizedFirstBencodeValueByte)
                },
            },
    {
        let peeked = Self::peek_byte(&mut self.byte_reader);
        proof {
            self.byte_reader.lemma_bounds();
        }
        match peeked {
            Some(peeked_byte) => {
                if peeked_byte == BENCODE_BEGIN_INTEGER {
                    match integer::parse(&mut self.byte_reader) {
                        Ok(value) => Ok(Some(BencodeToken::Integer(value))),
                        Err(error) => Err(error),
                    }
                } else if peeked_byte >= DIGIT_ZERO && peeked_byte <= DIGIT_NINE {
                    match string::parse(&mut self.byte_reader) {
                        Ok(value) => Ok(Some(BencodeToken::String(value))),
                        Err(error) => Err(error),
                    }
                } else if peeked_byte == BENCODE_BEGIN_LIST {
                    match Self::read_peeked_byte(peeked_byte, &mut self.byte_reader) {
                        Ok(_) => Ok(Some(BencodeToken::BeginList)),
                        Err(error) => Err(error),
                    }
                } else if peeked_byte == BENCODE_BEGIN_DICT {
                    match Self::read_peeked_byte(peeked_byte, &mut self.byte_reader) {
                        Ok(_) => Ok(Some(BencodeToken::BeginDict)),
                        Err(error) => Err(error),
                    }
                } else if peeked_byte == BENCODE_END_LIST_OR_DICT {
                    match Self::read_peeked_byte(peeked_byte, &mut self.byte_reader) {
                        Ok(_) => Ok(Some(BencodeToken::EndListOrDict)),
                        Err(error) => Err(error),
                    }
                } else if peeked_byte == LINE_BREAK {
                    // Line breaks at the beginning, the end, or between values
                    // are passed on as tokens of their own.
                    match Self::read_peeked_byte(peeked_byte, &mut self.byte_reader) {
                        Ok(_) => Ok(Some(BencodeToken::LineBreak)),
                        Err(error) => Err(error),
                    }
                } else {
                    Err(
                        Error::UnrecognizedFirstBencodeValueByte(
                            ReadContext::capture(&self.byte_reader, Some(peeked_byte)),
                        ),
                    )
                }
            },
            None => Ok(None),
        }
    }

    /// It reads the next byte from the input consuming it. It returns `None`
    /// if the input has ended.
    ///
    /// It fails if the byte read is not the expected one (the previously
    /// peeked byte).
    fn read_peeked_byte(peeked_byte: u8, reader: &mut ByteReader) -> (result: Result<
        Option<u8>,
        Error,
    >)
        requires
            old(reader).wf(),
        ensures
            final(reader).wf(),
            final(reader).input() == old(reader).input(),
            !final(reader).holds_peeked(),
            ({
                let rem = old(reader).remaining();
                if rem.len() == 0 {
                    &&& result matches Ok(None)
                    &&& final(reader).consumed() == old(reader).consumed()
                } else if rem[0] == peeked_byte {
                    &&& result matches Ok(Some(byte))
                    &&& byte == peeked_byte
                    &&& final(reader).consumed() == old(reader).consumed() + 1
                } else {
                    &&& result matches Err(error)
                    &&& error@ == lexical_error(
                        ErrorKind::ReadByteAfterPeekingDoesMatchPeekedByte,
                        old(reader).input(),
                        old(reader).consumed() + 1,
                    )
                    &&& final(reader).consumed() == old(reader).consumed() + 1
                }
            }),
    {
        match reader.read_byte() {
            Ok(byte) => {
                if byte == peeked_byte {
                    return Ok(Some(byte));
                }
                proof {
                    reader.lemma_bounds();
                }
                Err(
                    Error::ReadByteAfterPeekingDoesMatchPeekedByte(
                        ReadContext::capture(reader, Some(byte)),
                    ),
                )
            },
            Err(_) => Ok(None),
        }
    }

    /// It peeks the next byte from the input without consuming it. It returns
    /// `None` if the input has ended.
    fn peek_byte(reader: &mut ByteReader) -> (result: Option<u8>)
        requires
            old(reader).wf(),
        ensures
            final(reader).wf(),
            final(reader).input() == old(reader).input(),
            final(reader).consumed() == old(reader).consumed(),
            match result {
                Some(byte) => {
                    &&& old(reader).remaining().len() > 0
                    &&& byte == old(reader).remaining()[0]
                    &&& final(reader).holds_peeked()
                },
                None => {
                    &&& old(reader).remaining().len() == 0
                    &&& !final(reader).holds_peeked()
                },
            },
    {
        match reader.peek_byte() {
            Ok(byte) => Some(byte),
            Err(_) => None,
        }
    }

    /// Returns the number of bytes that have been read from the input.
    pub fn input_byte_counter(&self) -> (count: u64)
        requires
            self.wf(),
        ensures
            count == self.reader().consumed(),
    {
        self.byte_reader.input_byte_counter()
    }

    /// Returns a copy of the latest bytes that have been read from the input.
    pub fn captured_bytes(&self) -> (bytes: Vec<u8>)
        requires
            self.wf(),
        ensures
            bytes@ == self.reader().history(),
    {
        self.byte_reader.captured_bytes()
    }
}

} // verus!
