//! Json generator for bencoded data.
use super::stack::{Stack, State};
use super::BencodeType;
use crate::error::{
    diagnose, write_context_of, ContextView, Error, ErrorKind, Fault, ReadContext, WriteContext,
};
use crate::rw::byte_reader::ByteReader;
use crate::rw::byte_writer::ByteWriter;
use crate::rw::string_writer::StringWriter;
use crate::rw::writer::Writer;
use crate::rw::{recent, HISTORY_LIMIT};
use crate::text::{hex_encode, hex_text, json_quote, json_string_literal, utf8_text};
use crate::tokenizer::integer::{is_integer_text, lemma_integer_text};
use crate::tokenizer::{
    lemma_token_kinds, lemma_token_len, scan_token, BencodeToken, Lexed, Token, Tokenizer,
};
use vstd::prelude::*;
use vstd::string::StringExecFns;
use vstd::utf8::{decode_utf8, encode_utf8, valid_utf8};

verus! {

/// `[`
pub const JSON_ARRAY_BEGIN: u8 = 0x5b;

/// `,`
pub const JSON_ARRAY_ITEMS_SEPARATOR: u8 = 0x2c;

/// `]`
pub const JSON_ARRAY_END: u8 = 0x5d;

/// `{`
pub const JSON_OBJ_BEGIN: u8 = 0x7b;

/// `,`
pub const JSON_OBJ_FIELDS_SEPARATOR: u8 = 0x2c;

/// `:`
pub const JSON_OBJ_FIELD_KEY_VALUE_SEPARATOR: u8 = 0x3a;

/// `}`
pub const JSON_OBJ_END: u8 = 0x7d;

/// The text that stands for the value of a bencoded string: the value
/// itself between `<string>` tags when it is valid UTF-8, and otherwise its
/// bytes in hexadecimal between `<hex>` tags.
pub open spec fn tagged_text(raw: Seq<u8>) -> Seq<char> {
    if valid_utf8(raw) {
        "<string>"@ + decode_utf8(raw) + "</string>"@
    } else {
        "<hex>"@ + hex_text(raw) + "</hex>"@
    }
}

/// The bytes written for a bencoded string: the JSON string literal of its
/// tagged text.
pub open spec fn json_string(raw: Seq<u8>) -> Seq<u8> {
    encode_utf8(json_string_literal(tagged_text(raw)))
}

/// What a value of the given kind does where the nesting stands at `top`:
/// the state that takes the place of `top` and the separator written before
/// the value. There is none when a dictionary key is due and the value is
/// no string.
pub open spec fn begin_value(top: State, kind: BencodeType) -> Option<(State, Seq<u8>)> {
    match top {
        State::Initial => Some((State::Initial, seq![])),
        State::ExpectingFirstListItemOrEnd => Some((State::ExpectingNextListItem, seq![])),
        State::ExpectingNextListItem => Some(
            (State::ExpectingNextListItem, seq![JSON_ARRAY_ITEMS_SEPARATOR]),
        ),
        State::ExpectingFirstDictFieldOrEnd => if kind == BencodeType::String {
            Some((State::ExpectingDictFieldValue, seq![]))
        } else {
            None
        },
        State::ExpectingDictFieldValue => Some(
            (State::ExpectingDictFieldKeyOrEnd, seq![JSON_OBJ_FIELD_KEY_VALUE_SEPARATOR]),
        ),
        State::ExpectingDictFieldKeyOrEnd => if kind == BencodeType::String {
            Some((State::ExpectingDictFieldValue, seq![JSON_OBJ_FIELDS_SEPARATOR]))
        } else {
            None
        },
    }
}

/// What the end mark does where the nesting stands at `top`: the byte that
/// closes the list or dictionary, or the reason why nothing can be closed.
pub open spec fn end_value(top: State) -> Result<u8, ErrorKind> {
    match top {
        State::ExpectingFirstListItemOrEnd | State::ExpectingNextListItem => Ok(JSON_ARRAY_END),
        State::ExpectingFirstDictFieldOrEnd | State::ExpectingDictFieldKeyOrEnd => Ok(
            JSON_OBJ_END,
        ),
        State::ExpectingDictFieldValue => Err(ErrorKind::PrematureEndOfDict),
        State::Initial => Err(ErrorKind::NoMatchingStartForListOrDictEnd),
    }
}

/// Why the input may not end where the nesting stands at `top`, if it may
/// not.
pub open spec fn end_of_input(top: State) -> Option<ErrorKind> {
    match top {
        State::Initial => None,
        State::ExpectingFirstListItemOrEnd => Some(
            ErrorKind::UnexpectedEndOfInputExpectingFirstListItemOrEnd,
        ),
        State::ExpectingNextListItem => Some(ErrorKind::UnexpectedEndOfInputExpectingNextListItem),
        State::ExpectingFirstDictFieldOrEnd => Some(
            ErrorKind::UnexpectedEndOfInputExpectingFirstDictFieldOrEnd,
        ),
        State::ExpectingDictFieldValue => Some(
            ErrorKind::UnexpectedEndOfInputExpectingDictFieldValue,
        ),
        State::ExpectingDictFieldKeyOrEnd => Some(
            ErrorKind::UnexpectedEndOfInputExpectingDictFieldKeyOrEnd,
        ),
    }
}

/// The nesting and the output after one token.
pub struct Step {
    pub stack: Seq<State>,
    pub bytes: Seq<u8>,
}

/// The stack with `top` in place of its top.
pub open spec fn with_top(stack: Seq<State>, top: State) -> Seq<State> {
    stack.drop_last().push(top)
}

/// What one token does to the nesting `stack` and what is written for it.
///
/// A value is preceded by the separator its place asks for. An integer is
/// written as its digits, a string as a JSON string literal; a list or
/// dictionary opens a bracket and a new frame, the end mark closes both. A
/// line break does nothing.
pub open spec fn step(stack: Seq<State>, token: Token) -> Result<Step, ErrorKind> {
    match token {
        Token::LineBreak => Ok(Step { stack, bytes: seq![] }),
        Token::EndListOrDict => match end_value(stack.last()) {
            Ok(closer) => Ok(Step { stack: stack.drop_last(), bytes: seq![closer] }),
            Err(kind) => Err(kind),
        },
        Token::Integer(digits) => match begin_value(stack.last(), BencodeType::Integer) {
            Some((top, separator)) => Ok(
                Step { stack: with_top(stack, top), bytes: separator + digits },
            ),
            None => Err(ErrorKind::ExpectedStringForDictKeyGot(BencodeType::Integer)),
        },
        Token::String(raw) => match begin_value(stack.last(), BencodeType::String) {
            Some((top, separator)) => Ok(
                Step { stack: with_top(stack, top), bytes: separator + json_string(raw) },
            ),
            None => Err(ErrorKind::ExpectedStringForDictKeyGot(BencodeType::String)),
        },
        Token::BeginList => match begin_value(stack.last(), BencodeType::List) {
            Some((top, separator)) => Ok(
                Step {
                    stack: with_top(stack, top).push(State::ExpectingFirstListItemOrEnd),
                    bytes: separator.push(JSON_ARRAY_BEGIN),
                },
            ),
            None => Err(ErrorKind::ExpectedStringForDictKeyGot(BencodeType::List)),
        },
        Token::BeginDict => match begin_value(stack.last(), BencodeType::Dict) {
            Some((top, separator)) => Ok(
                Step {
                    stack: with_top(stack, top).push(State::ExpectingFirstDictFieldOrEnd),
                    bytes: separator.push(JSON_OBJ_BEGIN),
                },
            ),
            None => Err(ErrorKind::ExpectedStringForDictKeyGot(BencodeType::Dict)),
        },
    }
}

/// What a conversion comes to: the bytes written and the failure that
/// stopped it, if one did.
pub struct Outcome {
    pub bytes: Seq<u8>,
    pub fault: Option<Fault>,
}

/// The conversion of `input` from its byte `at` on, with the nesting at
/// `stack`.
///
/// Token after token is taken and written. The conversion stops at the first
/// failure, keeping what was written before. At the end of the input the
/// nesting must be back at the initial state.
pub open spec fn run(input: Seq<u8>, at: nat, stack: Seq<State>) -> Outcome
    decreases input.len() - at,
{
    if at >= input.len() {
        Outcome {
            bytes: seq![],
            fault: match end_of_input(stack.last()) {
                Some(kind) => Some(Fault { kind, at }),
                None => None,
            },
        }
    } else {
        match scan_token(input.skip(at as int)) {
            // There is a byte, so there is a token or a failure
            None => Outcome { bytes: seq![], fault: None },
            Some(Lexed::Failed { kind, len }) => Outcome {
                bytes: seq![],
                fault: Some(Fault { kind, at: at + len }),
            },
            Some(Lexed::Done { value, len }) => match step(stack, value) {
                Err(kind) => Outcome { bytes: seq![], fault: Some(Fault { kind, at: at + len }) },
                // A token spans at least one byte: the other branch is never taken
                Ok(next) => if len > 0 {
                    let rest = run(input, at + len, next.stack);
                    Outcome { bytes: next.bytes + rest.bytes, fault: rest.fault }
                } else {
                    Outcome { bytes: next.bytes, fault: None }
                },
            },
        }
    }
}

/// The nesting that the conversion of `input` from its byte `at` on, begun
/// with the nesting at `stack`, leaves behind: the nesting as it is at the
/// end of the input or, after a failure, as it was before the token at which
/// the conversion failed.
pub open spec fn nesting_left(input: Seq<u8>, at: nat, stack: Seq<State>) -> Seq<State>
    decreases input.len() - at,
{
    if at >= input.len() {
        stack
    } else {
        match scan_token(input.skip(at as int)) {
            Some(Lexed::Done { value, len }) => match step(stack, value) {
                Ok(next) => if len > 0 {
                    nesting_left(input, at + len, next.stack)
                } else {
                    stack
                },
                Err(_) => stack,
            },
            _ => stack,
        }
    }
}

/// How many bytes of the input a conversion had read when it stopped: all
/// of them, or as many as the failure says.
pub open spec fn stopped_at(outcome: Outcome, input: Seq<u8>) -> nat {
    match outcome.fault {
        Some(fault) => fault.at,
        None => input.len(),
    }
}

/// Whether a generator is left as the conversion of `input` from its byte
/// `at` on, begun with the nesting at `stack`, leaves it: with the nesting
/// that is left, and with its reader where the conversion stopped, holding
/// a peeked byte only if that byte cannot begin a token.
pub open spec fn left_by(generator: Generator, input: Seq<u8>, at: nat, stack: Seq<State>) -> bool {
    &&& generator.frames() == nesting_left(input, at, stack)
    &&& generator.reader().consumed() == stopped_at(run(input, at, stack), input)
    &&& generator.reader().holds_peeked() == (run(input, at, stack).fault matches Some(fault)
        && fault.kind is UnrecognizedFirstBencodeValueByte)
}

/// The outcome of a conversion that first writes `bytes` and then comes to
/// `rest`.
pub open spec fn preceded(bytes: Seq<u8>, rest: Outcome) -> Outcome {
    Outcome { bytes: bytes + rest.bytes, fault: rest.fault }
}

/// A conversion that stands before a token which the nesting accepts writes
/// what stands for the token and goes on behind it.
pub proof fn lemma_run_token(input: Seq<u8>, at: nat, stack: Seq<State>)
    requires
        at < input.len(),
        scan_token(input.skip(at as int)) matches Some(Lexed::Done { value, .. }) && step(
            stack,
            value,
        ) is Ok,
    ensures
        ({
            let len = scan_token(input.skip(at as int))->Some_0->Done_len;
            let token = scan_token(input.skip(at as int))->Some_0->Done_value;
            let next = step(stack, token)->Ok_0;
            &&& 0 < len
            &&& at + len <= input.len()
            &&& run(input, at, stack) == preceded(next.bytes, run(input, at + len, next.stack))
        }),
{
    lemma_token_len(input.skip(at as int));
}

/// A conversion that stands at the end of the input writes nothing more,
/// and fails unless the nesting is back at the initial state.
pub proof fn lemma_run_end(input: Seq<u8>, at: nat, stack: Seq<State>)
    requires
        at >= input.len(),
    ensures
        run(input, at, stack) == (Outcome {
            bytes: seq![],
            fault: match end_of_input(stack.last()) {
                Some(kind) => Some(Fault { kind, at }),
                None => None,
            },
        }),
{
}

/// The conversion of a whole input by a fresh generator.
pub open spec fn convert(input: Seq<u8>) -> Outcome {
    run(input, 0, seq![State::Initial])
}

/// Whether `result` is the error that reports `fault` on `input`, raised
/// with the output as `writer` is.
pub open spec fn reports<W: Writer>(
    result: Result<(), Error>,
    fault: Fault,
    input: Seq<u8>,
    writer: &W,
) -> bool {
    result matches Err(error) && error@ == diagnose(fault, input, write_context_of(writer))
}

/// Whether a call that was to come to `outcome` did so: `after` holds what
/// `before` held and the outcome's bytes, and `result` reports the outcome's
/// fault. Where the outcome has bytes to write and the output can fail, the
/// call may instead have failed with that output's error; a call that has
/// nothing to write asks nothing of the output and cannot fail so.
pub open spec fn comes_to<W: Writer>(
    outcome: Outcome,
    input: Seq<u8>,
    before: &W,
    after: &W,
    result: Result<(), Error>,
) -> bool {
    ||| {
        &&& outcome.bytes.len() > 0
        &&& !before.infallible()
        &&& result matches Err(error) && error@.kind is Rw
    }
    ||| {
        &&& after.emitted() == before.emitted() + outcome.bytes
        &&& after.position() == before.position() + outcome.bytes.len()
        &&& match outcome.fault {
            None => result is Ok,
            Some(fault) => reports(result, fault, input, after),
        }
    }
}

/// The write context of a byte writer that has written `bytes` since it was
/// created.
pub open spec fn byte_output_context(bytes: Seq<u8>) -> ContextView {
    ContextView {
        byte: None,
        pos: bytes.len() as u64,
        latest_bytes: recent(bytes, HISTORY_LIMIT as nat),
    }
}

/// The write context of a string writer that has written the text that
/// `bytes` encode since it was created: it remembers the latest chars.
pub open spec fn text_output_context(bytes: Seq<u8>) -> ContextView {
    ContextView {
        byte: None,
        pos: bytes.len() as u64,
        latest_bytes: encode_utf8(recent(decode_utf8(bytes), HISTORY_LIMIT as nat)),
    }
}

/// The tagged text of a bencoded string's value.
pub fn tagged(bytes: &[u8]) -> (text: String)
    ensures
        text@ == tagged_text(bytes@),
{
    broadcast use vstd::utf8::encode_utf8_decode_utf8;

    match utf8_text(bytes) {
        Some(chars) => {
            // The value is valid UTF-8: it is written as it is
            let mut text = String::from_str("<string>");
            text.append(chars);
            text.append("</string>");
            text
        },
        None => {
            // The value is not valid UTF-8: its bytes are written in hexadecimal
            let digits = hex_encode(bytes);
            let mut text = String::from_str("<hex>");
            text.append(digits.as_str());
            text.append("</hex>");
            text
        },
    }
}

/// The generator of JSON text: it takes the tokens of a bencoded input one
/// after the other and writes what stands for each, keeping track of the
/// lists and dictionaries that are open.
pub struct Generator<'a> {
    tokenizer: Tokenizer<'a>,
    stack: Stack,
}

impl<'a> Generator<'a> {
    /// The reader the generator takes its bytes from.
    pub closed spec fn reader(&self) -> ByteReader<'a> {
        self.tokenizer.reader()
    }

    /// The nesting, bottom first.
    pub closed spec fn frames(&self) -> Seq<State> {
        self.stack@
    }

    /// The reader is well formed, and the initial state is at the bottom of
    /// the nesting and nowhere else.
    pub open spec fn wf(&self) -> bool {
        &&& self.reader().wf()
        &&& self.frames().len() > 0
        &&& forall|i: int|
            0 <= i < self.frames().len() ==> (#[trigger] self.frames()[i] == State::Initial <==> i
                == 0)
    }

    /// A generator at the start of the input, with nothing open.
    pub fn new(reader: &'a [u8]) -> (generator: Self)
        ensures
            generator.wf(),
            generator.reader().input() == reader@,
            generator.reader().consumed() == 0,
            !generator.reader().holds_peeked(),
            generator.frames() == seq![State::Initial],
    {
        Generator { tokenizer: Tokenizer::new(reader), stack: Stack::default() }
    }

    /// It parses the bencoded values read from input and writes the
    /// corresponding JSON text to the string.
    ///
    /// What the string held before stays in front of what is written. What
    /// was written before a failure stays too.
    pub fn write_str(&mut self, writer: &mut String) -> (result: Result<(), Error>)
        requires
            old(self).wf(),
        ensures
            final(self).wf(),
            final(self).reader().input() == old(self).reader().input(),
            ({
                let input = old(self).reader().input();
                let outcome = run(input, old(self).reader().consumed(), old(self).frames());
                &&& final(writer)@ == old(writer)@ + decode_utf8(outcome.bytes)
                &&& valid_utf8(outcome.bytes)
                &&& match outcome.fault {
                    None => result is Ok,
                    Some(fault) => result matches Err(error) && error@ == diagnose(
                        fault,
                        input,
                        text_output_context(outcome.bytes),
                    ),
                }
            }),
            left_by(
                *final(self),
                old(self).reader().input(),
                old(self).reader().consumed(),
                old(self).frames(),
            ),
            result is Ok ==> final(self).frames() == seq![State::Initial],
            result is Ok ==> final(self).reader().remaining().len() == 0,
    {
        broadcast use vstd::utf8::encode_utf8_decode_utf8, vstd::utf8::encode_utf8_valid_utf8;

        let mut sink = String::new();
        core::mem::swap(writer, &mut sink);
        let mut string_writer = StringWriter::new(sink);
        let result = self.parse(&mut string_writer);
        proof {
            assert(decode_utf8(string_writer.preserved()) == string_writer.preserved_text());
        }
        *writer = string_writer.into_inner();
        result
    }

    /// It parses the bencoded values read from input and writes the
    /// corresponding JSON text, as UTF-8 bytes, to the vector.
    ///
    /// What the vector held before stays in front of what is written. What
    /// was written before a failure stays too.
    pub fn write_bytes(&mut self, writer: &mut Vec<u8>) -> (result: Result<(), Error>)
        requires
            old(self).wf(),
        ensures
            final(self).wf(),
            final(self).reader().input() == old(self).reader().input(),
            ({
                let input = old(self).reader().input();
                let outcome = run(input, old(self).reader().consumed(), old(self).frames());
                &&& final(writer)@ == old(writer)@ + outcome.bytes
                &&& match outcome.fault {
                    None => result is Ok,
                    Some(fault) => result matches Err(error) && error@ == diagnose(
                        fault,
                        input,
                        byte_output_context(outcome.bytes),
                    ),
                }
            }),
            left_by(
                *final(self),
                old(self).reader().input(),
                old(self).reader().consumed(),
                old(self).frames(),
            ),
            result is Ok ==> final(self).frames() == seq![State::Initial],
            result is Ok ==> final(self).reader().remaining().len() == 0,
    {
        let mut sink = Vec::new();
        core::mem::swap(writer, &mut sink);
        let mut byte_writer = ByteWriter::new(sink);
        let result = self.parse(&mut byte_writer);
        *writer = byte_writer.into_inner();
        result
    }

    /// It parses the bencoded values read from input and writes the
    /// corresponding JSON text to the output.
    ///
    /// It goes on to the end of the input, or to the first failure.
    pub fn parse<W: Writer>(&mut self, writer: &mut W) -> (result: Result<(), Error>)
        requires
            old(self).wf(),
            old(writer).wf(),
        ensures
            final(self).wf(),
            final(writer).wf(),
            final(writer).infallible() == old(writer).infallible(),
            final(writer).preserved() == old(writer).preserved(),
            final(self).reader().input() == old(self).reader().input(),
            comes_to(
                run(
                    old(self).reader().input(),
                    old(self).reader().consumed(),
                    old(self).frames(),
                ),
                old(self).reader().input(),
                old(writer),
                final(writer),
                result,
            ),
            !(result matches Err(error) && error@.kind is Rw) ==> left_by(
                *final(self),
                old(self).reader().input(),
                old(self).reader().consumed(),
                old(self).frames(),
            ),
            result is Ok ==> final(self).frames() == seq![State::Initial],
            result is Ok ==> final(self).reader().remaining().len() == 0,
    {
        let ghost input = self.reader().input();
        let ghost start = self.reader().consumed();
        let ghost nesting = self.frames();
        let ghost whole = run(input, self.reader().consumed(), self.frames());
        let ghost mut done: Seq<u8> = seq![];
        loop
            invariant
                self.wf(),
                writer.wf(),
                writer.infallible() == old(writer).infallible(),
                writer.preserved() == old(writer).preserved(),
                self.reader().input() == input,
                input == old(self).reader().input(),
                whole == run(input, old(self).reader().consumed(), old(self).frames()),
                writer.emitted() == old(writer).emitted() + done,
                writer.position() == old(writer).position() + done.len(),
                whole.bytes == done + run(input, self.reader().consumed(), self.frames()).bytes,
                whole.fault == run(input, self.reader().consumed(), self.frames()).fault,
                start == old(self).reader().consumed(),
                nesting == old(self).frames(),
                nesting_left(input, start, nesting) == nesting_left(
                    input,
                    self.reader().consumed(),
                    self.frames(),
                ),
            ensures
                self.wf(),
                writer.wf(),
                writer.infallible() == old(writer).infallible(),
                writer.preserved() == old(writer).preserved(),
                self.reader().input() == input,
                self.reader().remaining().len() == 0,
                !self.reader().holds_peeked(),
                writer.emitted() == old(writer).emitted() + whole.bytes,
                writer.position() == old(writer).position() + whole.bytes.len(),
                whole.fault == (match end_of_input(self.frames().last()) {
                    Some(kind) => Some(Fault { kind, at: self.reader().consumed() }),
                    None => None,
                }),
                self.frames() == nesting_left(input, start, nesting),
                self.reader().consumed() == input.len(),
            decreases input.len() - self.reader().consumed(),
        {
            let ghost at = self.reader().consumed();
            let ghost frames = self.frames();
            let ghost rem = self.reader().remaining();
            proof {
                self.reader().lemma_bounds();
                lemma_token_len(rem);
                lemma_token_kinds(rem);
                if rem.len() > 0 && rem[0] == crate::tokenizer::BENCODE_BEGIN_INTEGER {
                    lemma_integer_text(rem);
                }
            }
            let token = match self.tokenizer.next_token() {
                Ok(Some(token)) => token,
                Ok(None) => {
                    proof {
                        self.reader().lemma_bounds();
                    }
                    break ;
                },
                Err(error) => {
                    return Err(error);
                },
            };
            let ghost len = scan_token(rem)->Some_0->Done_len;
            let ghost next = step(frames, token@);
            proof {
                self.reader().lemma_bounds();
                assert(self.reader().consumed() == at + len);
            }
            match self.write_token(token, writer) {
                Ok(()) => {},
                Err(error) => {
                    return Err(error);
                },
            }
            proof {
                done = done + next->Ok_0.bytes;
            }
        }

        self.check_bad_end_stack_state(writer)
    }

    /// It writes what stands for one token and moves the nesting on.
    fn write_token<W: Writer>(&mut self, token: BencodeToken, writer: &mut W) -> (result: Result<
        (),
        Error,
    >)
        requires
            old(self).wf(),
            old(writer).wf(),
            token@ matches Token::Integer(digits) ==> is_integer_text(digits),
        ensures
            final(self).wf(),
            final(writer).wf(),
            final(writer).infallible() == old(writer).infallible(),
            final(writer).preserved() == old(writer).preserved(),
            final(self).reader() == old(self).reader(),
            match step(old(self).frames(), token@) {
                Ok(next) => {
                    &&& comes_to(
                        Outcome { bytes: next.bytes, fault: None },
                        old(self).reader().input(),
                        old(writer),
                        final(writer),
                        result,
                    )
                    &&& result is Ok ==> final(self).frames() == next.stack
                },
                Err(kind) => {
                    &&& reports(
                        result,
                        Fault { kind, at: old(self).reader().consumed() },
                        old(self).reader().input(),
                        old(writer),
                    )
                    &&& *final(writer) == *old(writer)
                    &&& final(self).frames() == old(self).frames()
                },
            },
    {
        match token {
            BencodeToken::Integer(integer_bytes) => {
                match self.begin_bencoded_value(BencodeType::Integer, writer) {
                    Ok(()) => {},
                    Err(error) => {
                        return Err(error);
                    },
                }
                let written = Self::write_all(integer_bytes.as_slice(), writer);
                proof {
                    if written is Ok {
                        assert(writer.emitted() =~= old(writer).emitted() + (begin_value(
                            old(self).frames().last(),
                            BencodeType::Integer,
                        ).unwrap().1 + integer_bytes@));
                    }
                }
                written
            },
            BencodeToken::String(string_bytes) => {
                match self.begin_bencoded_value(BencodeType::String, writer) {
                    Ok(()) => {},
                    Err(error) => {
                        return Err(error);
                    },
                }
                let html_tag_style_string = tagged(string_bytes.as_slice());
                let json = json_quote(html_tag_style_string.as_str()).unwrap();
                match writer.write_str(json.as_str()) {
                    Ok(()) => {},
                    Err(error) => {
                        return Err(Error::Rw(error));
                    },
                }
                proof {
                    assert(writer.emitted() =~= old(writer).emitted() + (begin_value(
                        old(self).frames().last(),
                        BencodeType::String,
                    ).unwrap().1 + json_string(string_bytes@)));
                }
                Ok(())
            },
            BencodeToken::BeginList => {
                match self.begin_bencoded_value(BencodeType::List, writer) {
                    Ok(()) => {},
                    Err(error) => {
                        return Err(error);
                    },
                }
                match writer.write_byte(JSON_ARRAY_BEGIN) {
                    Ok(()) => {},
                    Err(error) => {
                        return Err(Error::Rw(error));
                    },
                }
                self.stack.push(State::ExpectingFirstListItemOrEnd);
                Ok(())
            },
            BencodeToken::BeginDict => {
                match self.begin_bencoded_value(BencodeType::Dict, writer) {
                    Ok(()) => {},
                    Err(error) => {
                        return Err(error);
                    },
                }
                match writer.write_byte(JSON_OBJ_BEGIN) {
                    Ok(()) => {},
                    Err(error) => {
                        return Err(Error::Rw(error));
                    },
                }
                self.stack.push(State::ExpectingFirstDictFieldOrEnd);
                Ok(())
            },
            BencodeToken::EndListOrDict => self.end_list_or_dict(writer),
            BencodeToken::LineBreak => {
                // Ignore line breaks at the beginning, the end, or between values
                Ok(())
            },
        }
    }

    /// It writes ASCII bytes one by one.
    fn write_all<W: Writer>(bytes: &[u8], writer: &mut W) -> (result: Result<(), Error>)
        requires
            old(writer).wf(),
            forall|i: int| 0 <= i < bytes@.len() ==> #[trigger] bytes@[i] < 0x80,
        ensures
            final(writer).wf(),
            final(writer).infallible() == old(writer).infallible(),
            final(writer).preserved() == old(writer).preserved(),
            match result {
                Ok(_) => {
                    &&& final(writer).emitted() == old(writer).emitted() + bytes@
                    &&& final(writer).position() == old(writer).position() + bytes@.len()
                },
                Err(error) => !old(writer).infallible() && error@.kind is Rw && bytes@.len() > 0,
            },
    {
        let mut index: usize = 0;
        while index < bytes.len()
            invariant
                writer.wf(),
                writer.infallible() == old(writer).infallible(),
                writer.preserved() == old(writer).preserved(),
                index <= bytes@.len(),
                forall|i: int| 0 <= i < bytes@.len() ==> #[trigger] bytes@[i] < 0x80,
                writer.emitted() == old(writer).emitted() + bytes@.take(index as int),
                writer.position() == old(writer).position() + index,
            decreases bytes@.len() - index,
        {
            match writer.write_byte(bytes[index]) {
                Ok(()) => {},
                Err(error) => {
                    return Err(Error::Rw(error));
                },
            }
            proof {
                assert(bytes@.take(index + 1) =~= bytes@.take(index as int).push(
                    bytes@[index as int],
                ));
            }
            index = index + 1;
        }
        Ok(())
    }

    /// It checks if the stack state is correct at the end of the parsing.
    ///
    /// At the end of the input every list and dictionary must have been
    /// closed.
    fn check_bad_end_stack_state<W: Writer>(&self, writer: &W) -> (result: Result<(), Error>)
        requires
            self.wf(),
            writer.wf(),
        ensures
            match end_of_input(self.frames().last()) {
                None => result is Ok && self.frames() == seq![State::Initial],
                Some(kind) => result matches Err(error) && error@ == diagnose(
                    Fault { kind, at: self.reader().consumed() },
                    self.reader().input(),
                    write_context_of(writer),
                ),
            },
    {
        match self.stack.peek() {
            State::Initial => {
                Ok(())
            },
            State::ExpectingFirstListItemOrEnd => Err(
                Error::UnexpectedEndOfInputExpectingFirstListItemOrEnd(
                    self.read_context(),
                    WriteContext::capture(writer),
                ),
            ),
            State::ExpectingNextListItem => Err(
                Error::UnexpectedEndOfInputExpectingNextListItem(
                    self.read_context(),
                    WriteContext::capture(writer),
                ),
            ),
            State::ExpectingFirstDictFieldOrEnd => Err(
                Error::UnexpectedEndOfInputExpectingFirstDictFieldOrEnd(
                    self.read_context(),
                    WriteContext::capture(writer),
                ),
            ),
            State::ExpectingDictFieldValue => Err(
                Error::UnexpectedEndOfInputExpectingDictFieldValue(
                    self.read_context(),
                    WriteContext::capture(writer),
                ),
            ),
            State::ExpectingDictFieldKeyOrEnd => Err(
                Error::UnexpectedEndOfInputExpectingDictFieldKeyOrEnd(
                    self.read_context(),
                    WriteContext::capture(writer),
                ),
            ),
        }
    }

    /// It updates the stack state and prints the delimiters when needed.
    ///
    /// Called when the first byte of a bencoded value (integer, string, list
    /// or dict) is received.
    pub fn begin_bencoded_value<W: Writer>(
        &mut self,
        bencode_type: BencodeType,
        writer: &mut W,
    ) -> (result: Result<(), Error>)
        requires
            old(self).wf(),
            old(writer).wf(),
        ensures
            final(self).wf(),
            final(writer).wf(),
            final(writer).infallible() == old(writer).infallible(),
            final(writer).preserved() == old(writer).preserved(),
            final(self).reader() == old(self).reader(),
            match begin_value(old(self).frames().last(), bencode_type) {
                Some((top, separator)) => {
                    &&& comes_to(
                        Outcome { bytes: separator, fault: None },
                        old(self).reader().input(),
                        old(writer),
                        final(writer),
                        result,
                    )
                    &&& result is Ok ==> final(self).frames() == with_top(old(self).frames(), top)
                    &&& separator.len() == 0 ==> *final(writer) == *old(writer)
                },
                None => {
                    &&& reports(
                        result,
                        Fault {
                            kind: ErrorKind::ExpectedStringForDictKeyGot(bencode_type),
                            at: old(self).reader().consumed(),
                        },
                        old(self).reader().input(),
                        old(writer),
                    )
                    &&& *final(writer) == *old(writer)
                },
            },
            result is Err ==> final(self).frames() == old(self).frames(),
    {
        let ghost frames = self.frames();
        match self.stack.peek() {
            State::Initial => {},
            State::ExpectingFirstListItemOrEnd => {
                self.stack.swap_top(State::ExpectingNextListItem);
            },
            State::ExpectingNextListItem => {
                match writer.write_byte(JSON_ARRAY_ITEMS_SEPARATOR) {
                    Ok(()) => {},
                    Err(error) => {
                        return Err(Error::Rw(error));
                    },
                }
            },
            State::ExpectingFirstDictFieldOrEnd => {
                if bencode_type != BencodeType::String {
                    return Err(
                        Error::ExpectedStringForDictKeyGot(
                            bencode_type,
                            self.read_context(),
                            WriteContext::capture(writer),
                        ),
                    );
                }
                self.stack.swap_top(State::ExpectingDictFieldValue);
            },
            State::ExpectingDictFieldValue => {
                match writer.write_byte(JSON_OBJ_FIELD_KEY_VALUE_SEPARATOR) {
                    Ok(()) => {},
                    Err(error) => {
                        return Err(Error::Rw(error));
                    },
                }
                self.stack.swap_top(State::ExpectingDictFieldKeyOrEnd);
            },
            State::ExpectingDictFieldKeyOrEnd => {
                if bencode_type != BencodeType::String {
                    return Err(
                        Error::ExpectedStringForDictKeyGot(
                            bencode_type,
                            self.read_context(),
                            WriteContext::capture(writer),
                        ),
                    );
                }
                match writer.write_byte(JSON_OBJ_FIELDS_SEPARATOR) {
                    Ok(()) => {},
                    Err(error) => {
                        return Err(Error::Rw(error));
                    },
                }
                self.stack.swap_top(State::ExpectingDictFieldValue);
            },
        }
        assert(writer.emitted() =~= old(writer).emitted() + begin_value(
            frames.last(),
            bencode_type,
        ).unwrap().1);
        Ok(())
    }

    /// It updates the stack state and prints the delimiters when needed.
    ///
    /// Called when the end of list or dictionary byte is received. End of
    /// integers or strings are processed while parsing them.
    pub fn end_list_or_dict<W: Writer>(&mut self, writer: &mut W) -> (result: Result<(), Error>)
        requires
            old(self).wf(),
            old(writer).wf(),
        ensures
            final(self).wf(),
            final(writer).wf(),
            final(writer).infallible() == old(writer).infallible(),
            final(writer).preserved() == old(writer).preserved(),
            final(self).reader() == old(self).reader(),
            match end_value(old(self).frames().last()) {
                Ok(closer) => {
                    &&& comes_to(
                        Outcome { bytes: seq![closer], fault: None },
                        old(self).reader().input(),
                        old(writer),
                        final(writer),
                        result,
                    )
                    &&& result is Ok ==> final(self).frames() == old(self).frames().drop_last()
                },
                Err(kind) => {
                    &&& reports(
                        result,
                        Fault { kind, at: old(self).reader().consumed() },
                        old(self).reader().input(),
                        old(writer),
                    )
                    &&& *final(writer) == *old(writer)
                },
            },
            result is Err ==> final(self).frames() == old(self).frames(),
    {
        match self.stack.peek() {
            State::ExpectingFirstListItemOrEnd | State::ExpectingNextListItem => {
                match writer.write_byte(JSON_ARRAY_END) {
                    Ok(()) => {},
                    Err(error) => {
                        return Err(Error::Rw(error));
                    },
                }
                self.stack.pop();
            },
            State::ExpectingFirstDictFieldOrEnd | State::ExpectingDictFieldKeyOrEnd => {
                match writer.write_byte(JSON_OBJ_END) {
                    Ok(()) => {},
                    Err(error) => {
                        return Err(Error::Rw(error));
                    },
                }
                self.stack.pop();
            },
            State::ExpectingDictFieldValue => {
                return Err(
                    Error::PrematureEndOfDict(self.read_context(), WriteContext::capture(writer)),
                );
            },
            State::Initial => {
                return Err(
                    Error::NoMatchingStartForListOrDictEnd(
                        self.read_context(),
                        WriteContext::capture(writer),
                    ),
                );
            },
        }
        assert(writer.emitted() =~= old(writer).emitted() + seq![
            end_value(old(self).frames().last()).unwrap(),
        ]);
        Ok(())
    }

    /// The context of the reader now. No byte is named: the nesting is at
    /// fault, not a byte.
    fn read_context(&self) -> (context: ReadContext)
        requires
            self.wf(),
        ensures
            context@ == crate::error::read_context_at(
                self.reader().input(),
                self.reader().consumed(),
                None,
            ),
    {
        ReadContext {
            byte: None,
            pos: self.tokenizer.input_byte_counter(),
            latest_bytes: self.tokenizer.captured_bytes(),
        }
    }
}

} // verus!
