//! What the conversion does on whole families of inputs.
//!
//! The laws on single tokens say what each token does wherever it stands:
//! with them the conversion of a given input can be followed token by token.
use crate::error::ErrorKind;
use crate::generators::json::{
    begin_value, convert, end_value, json_string, lemma_run_end, lemma_run_token, preceded, run,
    step, with_top, Outcome, JSON_OBJ_FIELD_KEY_VALUE_SEPARATOR,
};
use crate::generators::BencodeType;
use crate::generators::json::{JSON_ARRAY_BEGIN, JSON_ARRAY_END, JSON_OBJ_BEGIN, JSON_OBJ_END};
use crate::generators::stack::State;
use crate::test::{
    nested_bencoded_dictionaries, nested_bencoded_lists, nested_json_arrays,
    nested_json_objects, repeated,
};
use crate::tokenizer::{BENCODE_BEGIN_DICT, BENCODE_BEGIN_LIST, BENCODE_END_LIST_OR_DICT};
use crate::text::{hex_text, json_string_literal};
use crate::tokenizer::integer::{is_integer_text, lemma_scan_integer};
use crate::bencoded_text;
use crate::text::decimal_text;
use crate::tokenizer::string::{
    decimal_value, lemma_decimal_text_value, lemma_decimal_value_push, lemma_scan_string,
};
use crate::error::Fault;
use crate::tokenizer::{
    is_digit, lemma_scan_token_prefix, lemma_token_len, scan_token, Lexed, Token,
    BENCODE_BEGIN_INTEGER, BENCODE_END_INTEGER, END_OF_STRING_LENGTH_BYTE, LINE_BREAK,
};
use vstd::prelude::*;
use vstd::utf8::{decode_utf8, encode_utf8, valid_utf8};

verus! {

/// A bencoded integer is converted into its own digits, sign included,
/// however many they are.
pub proof fn law_integer_is_copied(text: Seq<u8>)
    requires
        is_integer_text(text),
    ensures
        convert(seq![BENCODE_BEGIN_INTEGER] + text + seq![BENCODE_END_INTEGER]) == (Outcome {
            bytes: text,
            fault: None,
        }),
{
    let input = seq![BENCODE_BEGIN_INTEGER] + text + seq![BENCODE_END_INTEGER];
    lemma_scan_integer(BENCODE_BEGIN_INTEGER, text, seq![]);
    assert(input.skip(0) =~= input);
    let stack = seq![State::Initial];
    lemma_run_token(input, 0, stack);
    lemma_run_end(input, input.len(), stack);
}

/// A bencoded string, its length written with any number of leading zeros,
/// is converted into the JSON string literal of its tagged text.
pub proof fn law_string_is_quoted(digits: Seq<u8>, raw: Seq<u8>)
    requires
        digits.len() > 0,
        forall|i: int| 0 <= i < digits.len() ==> is_digit(#[trigger] digits[i]),
        decimal_value(digits) == raw.len(),
    ensures
        convert(digits + seq![END_OF_STRING_LENGTH_BYTE] + raw) == (Outcome {
            bytes: json_string(raw),
            fault: None,
        }),
{
    let input = digits + seq![END_OF_STRING_LENGTH_BYTE] + raw;
    lemma_scan_string(digits, raw, seq![]);
    assert(input.skip(0) =~= input);
    let stack = seq![State::Initial];
    lemma_run_token(input, 0, stack);
    lemma_run_end(input, input.len(), stack);
    assert((seq![] + json_string(raw)) + seq![] =~= json_string(raw));
}

/// A bencoded string whose value is valid UTF-8 is converted into a JSON
/// string literal that holds the value as text, between `<string>` tags,
/// with quotes, backslashes and control characters escaped.
pub proof fn law_text_string(digits: Seq<u8>, raw: Seq<u8>)
    requires
        digits.len() > 0,
        forall|i: int| 0 <= i < digits.len() ==> is_digit(#[trigger] digits[i]),
        decimal_value(digits) == raw.len(),
        valid_utf8(raw),
    ensures
        convert(digits + seq![END_OF_STRING_LENGTH_BYTE] + raw) == (Outcome {
            bytes: encode_utf8(
                json_string_literal("<string>"@ + decode_utf8(raw) + "</string>"@),
            ),
            fault: None,
        }),
{
    law_string_is_quoted(digits, raw);
}

/// A bencoded string whose value is not valid UTF-8 is converted into a JSON
/// string literal that holds exactly the bytes of the value in lower-case
/// hexadecimal, between `<hex>` tags.
pub proof fn law_binary_string(digits: Seq<u8>, raw: Seq<u8>)
    requires
        digits.len() > 0,
        forall|i: int| 0 <= i < digits.len() ==> is_digit(#[trigger] digits[i]),
        decimal_value(digits) == raw.len(),
        !valid_utf8(raw),
    ensures
        convert(digits + seq![END_OF_STRING_LENGTH_BYTE] + raw) == (Outcome {
            bytes: encode_utf8(json_string_literal("<hex>"@ + hex_text(raw) + "</hex>"@)),
            fault: None,
        }),
{
    law_string_is_quoted(digits, raw);
}

/// A text that was bencoded is converted into a JSON string literal that
/// holds the text between `<string>` tags.
pub proof fn law_bencoded_text_is_quoted(text: Seq<char>)
    ensures
        convert(bencoded_text(text)) == (Outcome {
            bytes: encode_utf8(json_string_literal("<string>"@ + text + "</string>"@)),
            fault: None,
        }),
{
    broadcast use vstd::utf8::encode_utf8_decode_utf8, vstd::utf8::encode_utf8_valid_utf8;

    let raw = encode_utf8(text);
    lemma_decimal_text_value(raw.len());
    law_text_string(decimal_text(raw.len()), raw);
}

/// An integer in the input, where the nesting takes a value, is written
/// behind the separator that its place asks for, and the conversion goes on
/// behind it.
pub proof fn law_integer_token(input: Seq<u8>, at: nat, text: Seq<u8>, stack: Seq<State>)
    requires
        is_integer_text(text),
        at + text.len() + 2 <= input.len(),
        input.subrange(at as int, (at + text.len() + 2) as int) == seq![BENCODE_BEGIN_INTEGER]
            + text + seq![BENCODE_END_INTEGER],
        stack.len() > 0,
        begin_value(stack.last(), BencodeType::Integer) is Some,
    ensures
        ({
            let place = begin_value(stack.last(), BencodeType::Integer)->Some_0;
            run(input, at, stack) == preceded(
                place.1 + text,
                run(input, at + text.len() + 2, with_top(stack, place.0)),
            )
        }),
{
    let rem = input.skip(at as int);
    let rest = input.skip((at + text.len() + 2) as int);
    let token = seq![BENCODE_BEGIN_INTEGER] + text + seq![BENCODE_END_INTEGER];
    assert(rem =~= token + rest) by {
        assert forall|i: int| 0 <= i < token.len() implies rem[i] == token[i] by {
            assert(input.subrange(at as int, (at + text.len() + 2) as int)[i] == input[at + i]);
        }
    }
    lemma_scan_integer(BENCODE_BEGIN_INTEGER, text, rest);
    assert(rem[0] == BENCODE_BEGIN_INTEGER);
    lemma_run_token(input, at, stack);
}

/// A string in the input, where the nesting takes one, is written as the
/// JSON string literal of its tagged text, behind the separator that its
/// place asks for, and the conversion goes on behind it.
pub proof fn law_string_token(
    input: Seq<u8>,
    at: nat,
    digits: Seq<u8>,
    raw: Seq<u8>,
    stack: Seq<State>,
)
    requires
        digits.len() > 0,
        forall|i: int| 0 <= i < digits.len() ==> is_digit(#[trigger] digits[i]),
        decimal_value(digits) == raw.len(),
        at + digits.len() + 1 + raw.len() <= input.len(),
        input.subrange(at as int, (at + digits.len() + 1 + raw.len()) as int) == digits
            + seq![END_OF_STRING_LENGTH_BYTE] + raw,
        stack.len() > 0,
    ensures
        ({
            let place = begin_value(stack.last(), BencodeType::String)->Some_0;
            run(input, at, stack) == preceded(
                place.1 + json_string(raw),
                run(input, at + digits.len() + 1 + raw.len(), with_top(stack, place.0)),
            )
        }),
{
    let rem = input.skip(at as int);
    let len = digits.len() + 1 + raw.len();
    let rest = input.skip((at + len) as int);
    let token = digits + seq![END_OF_STRING_LENGTH_BYTE] + raw;
    assert(rem =~= token + rest) by {
        assert forall|i: int| 0 <= i < token.len() implies rem[i] == token[i] by {
            assert(input.subrange(at as int, (at + len) as int)[i] == input[at + i]);
        }
    }
    lemma_scan_string(digits, raw, rest);
    assert(rem[0] == digits[0]);
    lemma_run_token(input, at, stack);
}

/// The begin mark of a list, where the nesting takes a value, writes the
/// separator that its place asks for and an opening bracket, and opens a
/// list.
pub proof fn law_list_begins(input: Seq<u8>, at: nat, stack: Seq<State>)
    requires
        at < input.len(),
        input[at as int] == BENCODE_BEGIN_LIST,
        stack.len() > 0,
        begin_value(stack.last(), BencodeType::List) is Some,
    ensures
        ({
            let place = begin_value(stack.last(), BencodeType::List)->Some_0;
            run(input, at, stack) == preceded(
                place.1.push(JSON_ARRAY_BEGIN),
                run(
                    input,
                    at + 1,
                    with_top(stack, place.0).push(State::ExpectingFirstListItemOrEnd),
                ),
            )
        }),
{
    assert(input.skip(at as int)[0] == input[at as int]);
    lemma_run_token(input, at, stack);
}

/// The begin mark of a dictionary, where the nesting takes a value, writes
/// the separator that its place asks for and an opening bracket, and opens a
/// dictionary.
pub proof fn law_dictionary_begins(input: Seq<u8>, at: nat, stack: Seq<State>)
    requires
        at < input.len(),
        input[at as int] == BENCODE_BEGIN_DICT,
        stack.len() > 0,
        begin_value(stack.last(), BencodeType::Dict) is Some,
    ensures
        ({
            let place = begin_value(stack.last(), BencodeType::Dict)->Some_0;
            run(input, at, stack) == preceded(
                place.1.push(JSON_OBJ_BEGIN),
                run(
                    input,
                    at + 1,
                    with_top(stack, place.0).push(State::ExpectingFirstDictFieldOrEnd),
                ),
            )
        }),
{
    assert(input.skip(at as int)[0] == input[at as int]);
    lemma_run_token(input, at, stack);
}

/// The end mark, where a list or a dictionary can end, writes the bracket
/// that closes it, and closes it.
pub proof fn law_end_closes(input: Seq<u8>, at: nat, stack: Seq<State>)
    requires
        at < input.len(),
        input[at as int] == BENCODE_END_LIST_OR_DICT,
        stack.len() > 0,
        end_value(stack.last()) is Ok,
    ensures
        run(input, at, stack) == preceded(
            seq![end_value(stack.last())->Ok_0],
            run(input, at + 1, stack.drop_last()),
        ),
{
    assert(input.skip(at as int)[0] == input[at as int]);
    lemma_run_token(input, at, stack);
}

/// The end mark, where nothing can end, stops the conversion: behind a key
/// that has no value yet, and where nothing is open.
pub proof fn law_end_fails(input: Seq<u8>, at: nat, stack: Seq<State>)
    requires
        at < input.len(),
        input[at as int] == BENCODE_END_LIST_OR_DICT,
        stack.len() > 0,
        end_value(stack.last()) is Err,
    ensures
        run(input, at, stack) == (Outcome {
            bytes: seq![],
            fault: Some(Fault { kind: end_value(stack.last())->Err_0, at: at + 1 }),
        }),
{
    assert(input.skip(at as int)[0] == input[at as int]);
}

/// A value that is no string, where a dictionary key is due, stops the
/// conversion behind the value's token.
pub proof fn law_key_must_be_string(input: Seq<u8>, at: nat, stack: Seq<State>)
    requires
        at < input.len(),
        stack.len() > 0,
        stack.last() == State::ExpectingFirstDictFieldOrEnd || stack.last()
            == State::ExpectingDictFieldKeyOrEnd,
        scan_token(input.skip(at as int)) matches Some(Lexed::Done { value, .. }) && (value
            is Integer || value is BeginList || value is BeginDict),
    ensures
        ({
            let token = scan_token(input.skip(at as int))->Some_0->Done_value;
            let len = scan_token(input.skip(at as int))->Some_0->Done_len;
            let kind = if token is Integer {
                BencodeType::Integer
            } else if token is BeginList {
                BencodeType::List
            } else {
                BencodeType::Dict
            };
            run(input, at, stack) == (Outcome {
                bytes: seq![],
                fault: Some(
                    Fault { kind: ErrorKind::ExpectedStringForDictKeyGot(kind), at: at + len },
                ),
            })
        }),
{
}

/// A line break between tokens writes nothing and changes nothing.
pub proof fn law_line_break_token(input: Seq<u8>, at: nat, stack: Seq<State>)
    requires
        at < input.len(),
        input[at as int] == LINE_BREAK,
    ensures
        run(input, at, stack) == run(input, at + 1, stack),
{
    assert(input.skip(at as int)[0] == input[at as int]);
    lemma_token_len(input.skip(at as int));
    assert(seq![] + run(input, at + 1, stack).bytes =~= run(input, at + 1, stack).bytes);
}

/// The bytes `<string>`.
pub open spec fn string_tag() -> Seq<u8> {
    seq![0x3cu8, 0x73u8, 0x74u8, 0x72u8, 0x69u8, 0x6eu8, 0x67u8, 0x3eu8]
}

/// The bytes `</string>`.
pub open spec fn string_end_tag() -> Seq<u8> {
    seq![0x3cu8, 0x2fu8, 0x73u8, 0x74u8, 0x72u8, 0x69u8, 0x6eu8, 0x67u8, 0x3eu8]
}

/// A string of printable ASCII characters without quotes and backslashes is
/// written as it is, between the tags and the quotes.
pub proof fn law_plain_string(raw: Seq<u8>)
    requires
        forall|i: int|
            0 <= i < raw.len() ==> 0x20 <= #[trigger] raw[i] < 0x80 && raw[i] != 0x22 && raw[i]
                != 0x5c,
    ensures
        json_string(raw) == seq![0x22u8] + string_tag() + raw + string_end_tag() + seq![0x22u8],
{
    broadcast use vstd::utf8::encode_utf8_decode_utf8;

    reveal_strlit("<string>");
    reveal_strlit("</string>");
    let chars = Seq::new(raw.len(), |i: int| raw[i] as char);
    vstd::utf8::is_ascii_chars_encode_utf8(chars);
    assert(encode_utf8(chars) =~= raw);
    crate::text::lemma_ascii_is_utf8(raw);
    assert(decode_utf8(raw) == chars);
    let tagged = "<string>"@ + chars + "</string>"@;
    assert forall|i: int| 0 <= i < tagged.len() implies crate::text::json_escape(
        #[trigger] tagged[i],
    ) == seq![tagged[i]] by {
        if 8 <= i < 8 + chars.len() {
            assert(tagged[i] == chars[i - 8]);
        }
    }
    crate::text::lemma_plain_text_escaped(tagged);
    let literal = json_string_literal(tagged);
    assert(literal =~= seq!['"'] + tagged + seq!['"']);
    let bytes = seq![0x22u8] + string_tag() + raw + string_end_tag() + seq![0x22u8];
    assert(vstd::utf8::is_ascii_chars(literal)) by {
        assert forall|i: int| 0 <= i < literal.len() implies '\0' <= #[trigger] literal[i]
            <= '\u{7f}' by {
            if 9 <= i < 9 + chars.len() {
                assert(literal[i] == chars[i - 9]);
            }
        }
    }
    vstd::utf8::is_ascii_chars_encode_utf8(literal);
    assert(encode_utf8(literal) =~= bytes) by {
        assert forall|i: int| 0 <= i < literal.len() implies encode_utf8(literal)[i]
            == bytes[i] by {
            assert(literal[i] as u8 == encode_utf8(literal)[i]);
            if 9 <= i < 9 + chars.len() {
                assert(literal[i] == chars[i - 9]);
            }
        }
    }
}

/// What is written for one token is valid UTF-8.
proof fn lemma_step_is_text(rem: Seq<u8>, stack: Seq<State>)
    requires
        scan_token(rem) matches Some(Lexed::Done { value, .. }) && step(stack, value) is Ok,
    ensures
        valid_utf8(step(stack, scan_token(rem)->Some_0->Done_value)->Ok_0.bytes),
{
    broadcast use vstd::utf8::encode_utf8_valid_utf8, vstd::utf8::valid_utf8_concat;

    let token = scan_token(rem)->Some_0->Done_value;
    let bytes = step(stack, token)->Ok_0.bytes;
    match token {
        Token::Integer(digits) => {
            crate::tokenizer::integer::lemma_integer_text(rem);
            let separator = begin_value(stack.last(), BencodeType::Integer)->Some_0.1;
            crate::text::lemma_ascii_is_utf8(separator);
            crate::text::lemma_ascii_is_utf8(digits);
        },
        Token::String(raw) => {
            let separator = begin_value(stack.last(), BencodeType::String)->Some_0.1;
            crate::text::lemma_ascii_is_utf8(separator);
        },
        _ => {
            crate::text::lemma_ascii_is_utf8(bytes);
        },
    }
}

/// Whatever the conversion writes from some place of the input on is valid
/// UTF-8.
proof fn lemma_run_is_text(input: Seq<u8>, at: nat, stack: Seq<State>)
    ensures
        valid_utf8(run(input, at, stack).bytes),
    decreases input.len() - at,
{
    broadcast use vstd::utf8::valid_utf8_concat;

    if at < input.len() {
        let rem = input.skip(at as int);
        lemma_token_len(rem);
        if let Some(Lexed::Done { value, len }) = scan_token(rem) {
            if let Ok(next) = step(stack, value) {
                lemma_step_is_text(rem, stack);
                lemma_run_is_text(input, at + len, next.stack);
            }
        }
    }
}

/// Whatever the conversion of an input writes is valid UTF-8, also when it
/// fails.
pub proof fn law_output_is_text(input: Seq<u8>)
    ensures
        valid_utf8(convert(input).bytes),
{
    lemma_run_is_text(input, 0, seq![State::Initial]);
}

/// Whether `to` is a place in `input` where a token begins, or the input
/// ends, when tokens are taken one after the other from `from` on.
pub open spec fn token_boundary(input: Seq<u8>, from: nat, to: nat) -> bool
    decreases input.len() - from,
{
    if from == to {
        to <= input.len()
    } else if from >= input.len() {
        false
    } else {
        match scan_token(input.skip(from as int)) {
            Some(Lexed::Done { len, .. }) => len > 0 && from + len <= to && token_boundary(
                input,
                from + len,
                to,
            ),
            _ => false,
        }
    }
}

/// A token boundary lies within the input, not before where the tokens are
/// taken from.
pub proof fn lemma_token_boundary_bounds(input: Seq<u8>, from: nat, to: nat)
    requires
        token_boundary(input, from, to),
    ensures
        from <= to <= input.len(),
    decreases input.len() - from,
{
    if from != to {
        let len = scan_token(input.skip(from as int))->Some_0->Done_len;
        lemma_token_boundary_bounds(input, from + len, to);
    }
}

/// `input` with a line break put in before its byte `at`.
pub open spec fn with_line_break(input: Seq<u8>, at: nat) -> Seq<u8> {
    input.take(at as int) + seq![LINE_BREAK] + input.skip(at as int)
}

/// The fault, if any, noticed one byte further on.
pub open spec fn one_byte_on(fault: Option<Fault>) -> Option<Fault> {
    match fault {
        Some(fault) => Some(Fault { kind: fault.kind, at: fault.at + 1 }),
        None => None,
    }
}

/// Behind a line break that was put in, the conversion goes as it went
/// without it, one byte further on.
proof fn lemma_behind_line_break(input: Seq<u8>, at: nat, from: nat, stack: Seq<State>)
    requires
        at <= from <= input.len(),
    ensures
        run(with_line_break(input, at), from + 1, stack) == (Outcome {
            bytes: run(input, from, stack).bytes,
            fault: one_byte_on(run(input, from, stack).fault),
        }),
    decreases input.len() - from,
{
    let longer = with_line_break(input, at);
    assert(longer.skip((from + 1) as int) =~= input.skip(from as int));
    if from < input.len() {
        let rem = input.skip(from as int);
        lemma_token_len(rem);
        match scan_token(rem) {
            Some(Lexed::Done { value, len }) => {
                if let Ok(next) = step(stack, value) {
                    lemma_behind_line_break(input, at, from + len, next.stack);
                }
            },
            _ => {},
        }
    }
}

/// Up to a line break that was put in where a token begins, the conversion
/// goes as it went without it.
proof fn lemma_before_line_break(input: Seq<u8>, at: nat, from: nat, stack: Seq<State>)
    requires
        token_boundary(input, from, at),
    ensures
        run(with_line_break(input, at), from, stack).bytes == run(input, from, stack).bytes,
        run(with_line_break(input, at), from, stack).fault == run(input, from, stack).fault
            || run(with_line_break(input, at), from, stack).fault == one_byte_on(
            run(input, from, stack).fault,
        ),
    decreases input.len() - from,
{
    let longer = with_line_break(input, at);
    lemma_token_boundary_bounds(input, from, at);
    if from == at {
        assert(longer[at as int] == LINE_BREAK);
        law_line_break_token(longer, at, stack);
        lemma_behind_line_break(input, at, at, stack);
    } else {
        let rem = input.skip(from as int);
        let len = scan_token(rem)->Some_0->Done_len;
        let token = scan_token(rem)->Some_0->Done_value;
        let other = longer.skip(from as int);
        assert(other.take(len as int) =~= rem.take(len as int));
        lemma_scan_token_prefix(rem, other);
        assert(scan_token(other) == scan_token(rem));
        if let Ok(next) = step(stack, token) {
            lemma_run_token(input, from, stack);
            lemma_run_token(longer, from, stack);
            lemma_before_line_break(input, at, from + len, next.stack);
        }
    }
}

/// A line break put in before the first token, behind the last one or
/// between two tokens changes nothing in what is written. What fails without
/// it fails with it in the same way, where it did or one byte further on.
pub proof fn law_line_break_is_skipped(input: Seq<u8>, at: nat)
    requires
        token_boundary(input, 0, at),
    ensures
        convert(with_line_break(input, at)).bytes == convert(input).bytes,
        convert(with_line_break(input, at)).fault == convert(input).fault || convert(
            with_line_break(input, at),
        ).fault == one_byte_on(convert(input).fault),
{
    lemma_before_line_break(input, at, 0, seq![State::Initial]);
}

/// The nesting while lists only are open: the initial state below, and above
/// it a state of a list for each open list.
pub open spec fn list_frames(stack: Seq<State>) -> bool {
    &&& stack.len() > 0
    &&& stack[0] == State::Initial
    &&& forall|i: int|
        1 <= i < stack.len() ==> #[trigger] stack[i] == State::ExpectingFirstListItemOrEnd
            || stack[i] == State::ExpectingNextListItem
}

/// With `closed` of the `n` nested lists closed, the conversion closes the
/// others.
proof fn lemma_lists_close(n: nat, closed: nat, stack: Seq<State>)
    requires
        closed <= n,
        stack.len() == n - closed + 1,
        list_frames(stack),
    ensures
        run(nested_bencoded_lists(n), n + closed, stack) == (Outcome {
            bytes: repeated(JSON_ARRAY_END, (n - closed) as nat),
            fault: None,
        }),
    decreases n - closed,
{
    let input = nested_bencoded_lists(n);
    if closed == n {
        lemma_run_end(input, n + closed, stack);
        assert(repeated(JSON_ARRAY_END, 0) =~= seq![]);
    } else {
        let rem = input.skip((n + closed) as int);
        assert(rem[0] == BENCODE_END_LIST_OR_DICT);
        lemma_run_token(input, n + closed, stack);
        lemma_lists_close(n, closed + 1, stack.drop_last());
        assert(seq![JSON_ARRAY_END] + repeated(JSON_ARRAY_END, (n - closed - 1) as nat)
            =~= repeated(JSON_ARRAY_END, (n - closed) as nat));
    }
}

/// With `opened` of the `n` nested lists opened, the conversion opens the
/// others and closes them all.
proof fn lemma_lists_open(n: nat, opened: nat, stack: Seq<State>)
    requires
        opened <= n,
        stack.len() == opened + 1,
        list_frames(stack),
        opened > 0 ==> stack.last() == State::ExpectingFirstListItemOrEnd,
    ensures
        run(nested_bencoded_lists(n), opened, stack) == (Outcome {
            bytes: repeated(JSON_ARRAY_BEGIN, (n - opened) as nat) + repeated(JSON_ARRAY_END, n),
            fault: None,
        }),
    decreases n - opened,
{
    let input = nested_bencoded_lists(n);
    if opened == n {
        lemma_lists_close(n, 0, stack);
    } else {
        let top = stack.last();
        assert(top == stack[stack.len() - 1]);
        lemma_run_token(input, opened, stack);
        let next = step(stack, Token::BeginList)->Ok_0;
        lemma_lists_open(n, opened + 1, next.stack);
        assert(seq![JSON_ARRAY_BEGIN] + (repeated(JSON_ARRAY_BEGIN, (n - opened - 1) as nat)
            + repeated(JSON_ARRAY_END, n)) =~= repeated(JSON_ARRAY_BEGIN, (n - opened) as nat)
            + repeated(JSON_ARRAY_END, n));
    }
}

/// Lists nested `n` deep, all empty but for the next one, are converted into
/// JSON arrays nested as deep: `n` opening brackets and then `n` closing
/// ones.
pub proof fn law_nested_lists(n: nat)
    ensures
        convert(nested_bencoded_lists(n)) == (Outcome {
            bytes: encode_utf8(nested_json_arrays(n)),
            fault: None,
        }),
        decode_utf8(convert(nested_bencoded_lists(n)).bytes) == nested_json_arrays(n),
{
    broadcast use vstd::utf8::encode_utf8_decode_utf8;

    lemma_lists_open(n, 0, seq![State::Initial]);
    let text = nested_json_arrays(n);
    let bytes = repeated(JSON_ARRAY_BEGIN, n) + repeated(JSON_ARRAY_END, n);
    vstd::utf8::is_ascii_chars_encode_utf8(text);
    assert(encode_utf8(text) =~= bytes) by {
        assert forall|i: int| 0 <= i < text.len() implies encode_utf8(text)[i] == bytes[i] by {}
    }
}

/// The key `foo` becomes the JSON string literal of `<string>foo</string>`.
proof fn lemma_foo_key()
    ensures
        json_string(seq![0x66u8, 0x6fu8, 0x6fu8]) == encode_utf8(
            seq!['"'] + "<string>foo</string>"@ + seq!['"'],
        ),
{
    broadcast use vstd::utf8::encode_utf8_decode_utf8, vstd::utf8::encode_utf8_valid_utf8;

    reveal_strlit("foo");
    reveal_strlit("<string>");
    reveal_strlit("</string>");
    reveal_strlit("<string>foo</string>");
    let raw = seq![0x66u8, 0x6fu8, 0x6fu8];
    let text = "foo"@;
    vstd::utf8::is_ascii_chars_encode_utf8(text);
    assert(encode_utf8(text) =~= raw) by {
        assert forall|i: int| 0 <= i < text.len() implies encode_utf8(text)[i] == raw[i] by {
            assert(text[i] as u8 == encode_utf8(text)[i]);
        }
    }
    let tagged = "<string>foo</string>"@;
    assert("<string>"@ + text + "</string>"@ =~= tagged);
    assert forall|i: int| 0 <= i < tagged.len() implies crate::text::json_escape(
        #[trigger] tagged[i],
    ) == seq![tagged[i]] by {}
    crate::text::lemma_plain_text_escaped(tagged);
}

/// The bytes `3:foo`.
pub open spec fn foo_key() -> Seq<u8> {
    seq![0x33u8, END_OF_STRING_LENGTH_BYTE, 0x66u8, 0x6fu8, 0x6fu8]
}

/// How `n` nested dictionaries are laid out: the opener first; then, unless
/// `n` is zero, the key and the dictionaries inside; the closer last.
proof fn lemma_dictionaries_layout(n: nat)
    ensures
        ({
            let dicts = nested_bencoded_dictionaries(n);
            &&& dicts.len() == 7 * n + 2
            &&& dicts[0] == BENCODE_BEGIN_DICT
            &&& dicts.last() == BENCODE_END_LIST_OR_DICT
            &&& n > 0 ==> dicts.subrange(1, 6) == foo_key() && dicts.subrange(
                6,
                dicts.len() - 1,
            ) == nested_bencoded_dictionaries((n - 1) as nat)
        }),
    decreases n,
{
    let dicts = nested_bencoded_dictionaries(n);
    if n > 0 {
        lemma_dictionaries_layout((n - 1) as nat);
        assert(dicts.subrange(1, 6) =~= foo_key());
    }
}

/// What `n` nested objects are in bytes: the brackets around, unless `n` is
/// zero, the key's literal, a colon and the objects inside.
proof fn lemma_objects_encoding(n: nat)
    ensures
        n == 0 ==> encode_utf8(nested_json_objects(n)) == seq![JSON_OBJ_BEGIN, JSON_OBJ_END],
        n > 0 ==> encode_utf8(nested_json_objects(n)) == seq![JSON_OBJ_BEGIN] + json_string(
            seq![0x66u8, 0x6fu8, 0x6fu8],
        ) + seq![JSON_OBJ_FIELD_KEY_VALUE_SEPARATOR] + encode_utf8(
            nested_json_objects((n - 1) as nat),
        ) + seq![JSON_OBJ_END],
{
    reveal_strlit("{}");
    reveal_strlit("}");
    reveal_strlit("{\"<string>foo</string>\":");
    reveal_strlit("<string>foo</string>");
    if n == 0 {
        let text = nested_json_objects(0);
        vstd::utf8::is_ascii_chars_encode_utf8(text);
        assert(encode_utf8(text) =~= seq![JSON_OBJ_BEGIN, JSON_OBJ_END]) by {
            assert(text[1] as u8 == encode_utf8(text)[1]);
        }
    } else {
        lemma_foo_key();
        let quoted = seq!['"'] + "<string>foo</string>"@ + seq!['"'];
        let head = "{\"<string>foo</string>\":"@;
        let objects = nested_json_objects((n - 1) as nat);
        assert(head =~= seq!['{'] + quoted + seq![':']);
        crate::text::lemma_encode_utf8_concat(seq!['{'] + quoted, seq![':']);
        crate::text::lemma_encode_utf8_concat(seq!['{'], quoted);
        crate::text::lemma_encode_ascii_char('{');
        crate::text::lemma_encode_ascii_char(':');
        crate::text::lemma_encode_ascii_char('}');
        assert("}"@ =~= seq!['}']);
        crate::text::lemma_encode_utf8_concat(head + objects, "}"@);
        crate::text::lemma_encode_utf8_concat(head, objects);
    }
}

/// In a dictionary that has just been opened, the key `3:foo` writes its
/// literal.
proof fn lemma_dictionary_key(input: Seq<u8>, at: nat, stack: Seq<State>)
    requires
        at + 5 <= input.len(),
        input.subrange(at as int, (at + 5) as int) == foo_key(),
        stack.len() > 0,
        stack.last() == State::ExpectingFirstDictFieldOrEnd,
    ensures
        run(input, at, stack) == preceded(
            json_string(seq![0x66u8, 0x6fu8, 0x6fu8]),
            run(input, at + 5, with_top(stack, State::ExpectingDictFieldValue)),
        ),
{
    let key = seq![0x66u8, 0x6fu8, 0x6fu8];
    lemma_decimal_value_push(seq![], 0x33);
    assert(Seq::<u8>::empty().push(0x33u8) =~= seq![0x33u8]);
    assert(foo_key() =~= seq![0x33u8] + seq![END_OF_STRING_LENGTH_BYTE] + key);
    law_string_token(input, at, seq![0x33u8], key, stack);
    assert(seq![] + json_string(key) =~= json_string(key));
}

/// Where `n` nested dictionaries stand in the input, there stand their
/// opener, then, unless `n` is zero, the key and the dictionaries inside, and
/// their closer.
proof fn lemma_dictionaries_located(input: Seq<u8>, at: nat, n: nat)
    requires
        at + nested_bencoded_dictionaries(n).len() <= input.len(),
        input.subrange(at as int, (at + nested_bencoded_dictionaries(n).len()) as int)
            == nested_bencoded_dictionaries(n),
    ensures
        nested_bencoded_dictionaries(n).len() == 7 * n + 2,
        input[at as int] == BENCODE_BEGIN_DICT,
        input[(at + 7 * n + 1) as int] == BENCODE_END_LIST_OR_DICT,
        n > 0 ==> input.subrange((at + 1) as int, (at + 6) as int) == foo_key(),
        n > 0 ==> input.subrange((at + 6) as int, (at + 7 * n + 1) as int)
            == nested_bencoded_dictionaries((n - 1) as nat),
{
    let dicts = nested_bencoded_dictionaries(n);
    let part = input.subrange(at as int, (at + dicts.len()) as int);
    lemma_dictionaries_layout(n);
    assert(part[0] == input[at as int]);
    assert(part.last() == input[(at + 7 * n + 1) as int]);
    if n > 0 {
        assert(input.subrange((at + 1) as int, (at + 6) as int) =~= part.subrange(1, 6));
        assert(input.subrange((at + 6) as int, (at + 7 * n + 1) as int) =~= part.subrange(
            6,
            dicts.len() - 1,
        ));
    }
}

/// Where a value may stand, an empty dictionary is converted into an empty
/// object behind the separator that the place asks for.
proof fn lemma_empty_dictionary(input: Seq<u8>, at: nat, stack: Seq<State>)
    requires
        at + 2 <= input.len(),
        input[at as int] == BENCODE_BEGIN_DICT,
        input[(at + 1) as int] == BENCODE_END_LIST_OR_DICT,
        stack.len() > 0,
        stack.last() == State::Initial || stack.last() == State::ExpectingDictFieldValue,
    ensures
        ({
            let place = begin_value(stack.last(), BencodeType::Dict)->Some_0;
            run(input, at, stack) == preceded(
                place.1 + seq![JSON_OBJ_BEGIN, JSON_OBJ_END],
                run(input, at + 2, with_top(stack, place.0)),
            )
        }),
{
    let place = begin_value(stack.last(), BencodeType::Dict)->Some_0;
    let opened = with_top(stack, place.0).push(State::ExpectingFirstDictFieldOrEnd);
    let behind = run(input, at + 2, with_top(stack, place.0));
    law_dictionary_begins(input, at, stack);
    law_end_closes(input, at + 1, opened);
    assert(opened.drop_last() =~= with_top(stack, place.0));
    assert(place.1.push(JSON_OBJ_BEGIN) + (seq![JSON_OBJ_END] + behind.bytes) =~= (place.1
        + seq![JSON_OBJ_BEGIN, JSON_OBJ_END]) + behind.bytes);
}

/// Where a value may stand, a dictionary with the one key `foo` is converted
/// into an object with the one field that the key becomes, if what stands
/// under the key is converted into `objects`.
proof fn lemma_dictionary_around(
    input: Seq<u8>,
    at: nat,
    span: nat,
    objects: Seq<u8>,
    stack: Seq<State>,
)
    requires
        at + span + 7 <= input.len(),
        input[at as int] == BENCODE_BEGIN_DICT,
        input.subrange((at + 1) as int, (at + 6) as int) == foo_key(),
        input[(at + 6 + span) as int] == BENCODE_END_LIST_OR_DICT,
        stack.len() > 0,
        stack.last() == State::Initial || stack.last() == State::ExpectingDictFieldValue,
        ({
            let place = begin_value(stack.last(), BencodeType::Dict)->Some_0;
            let keyed = with_top(stack, place.0).push(State::ExpectingDictFieldValue);
            run(input, at + 6, keyed) == preceded(
                seq![JSON_OBJ_FIELD_KEY_VALUE_SEPARATOR] + objects,
                run(input, at + 6 + span, with_top(keyed, State::ExpectingDictFieldKeyOrEnd)),
            )
        }),
    ensures
        ({
            let place = begin_value(stack.last(), BencodeType::Dict)->Some_0;
            run(input, at, stack) == preceded(
                place.1 + (seq![JSON_OBJ_BEGIN] + json_string(seq![0x66u8, 0x6fu8, 0x6fu8])
                    + seq![JSON_OBJ_FIELD_KEY_VALUE_SEPARATOR] + objects + seq![JSON_OBJ_END]),
                run(input, at + span + 7, with_top(stack, place.0)),
            )
        }),
{
    let place = begin_value(stack.last(), BencodeType::Dict)->Some_0;
    let opened = with_top(stack, place.0).push(State::ExpectingFirstDictFieldOrEnd);
    let keyed = with_top(stack, place.0).push(State::ExpectingDictFieldValue);
    let valued = with_top(keyed, State::ExpectingDictFieldKeyOrEnd);
    let behind = run(input, at + span + 7, with_top(stack, place.0));
    law_dictionary_begins(input, at, stack);
    assert(opened.last() == State::ExpectingFirstDictFieldOrEnd);
    lemma_dictionary_key(input, at + 1, opened);
    assert(with_top(opened, State::ExpectingDictFieldValue) =~= keyed);
    assert(valued.last() == State::ExpectingDictFieldKeyOrEnd);
    assert(end_value(valued.last()) == Ok::<u8, ErrorKind>(JSON_OBJ_END));
    law_end_closes(input, at + 6 + span, valued);
    assert(valued.drop_last() =~= with_top(stack, place.0));
    assert(run(input, at + 6 + span, valued) == preceded(seq![JSON_OBJ_END], behind));
    lemma_dictionaries_assembled(
        place.1,
        json_string(seq![0x66u8, 0x6fu8, 0x6fu8]),
        objects,
        behind.bytes,
    );
}

/// Where a value may stand, `n` nested dictionaries are converted into `n`
/// nested objects, behind the separator that the place asks for, and the
/// conversion goes on behind them.
proof fn lemma_dictionaries_convert(input: Seq<u8>, at: nat, n: nat, stack: Seq<State>)
    requires
        at + nested_bencoded_dictionaries(n).len() <= input.len(),
        input.subrange(at as int, (at + nested_bencoded_dictionaries(n).len()) as int)
            == nested_bencoded_dictionaries(n),
        stack.len() > 0,
        stack.last() == State::Initial || stack.last() == State::ExpectingDictFieldValue,
    ensures
        ({
            let place = begin_value(stack.last(), BencodeType::Dict)->Some_0;
            run(input, at, stack) == preceded(
                place.1 + encode_utf8(nested_json_objects(n)),
                run(
                    input,
                    at + nested_bencoded_dictionaries(n).len(),
                    with_top(stack, place.0),
                ),
            )
        }),
    decreases n,
{
    lemma_dictionaries_located(input, at, n);
    lemma_objects_encoding(n);
    if n == 0 {
        lemma_empty_dictionary(input, at, stack);
    } else {
        let place = begin_value(stack.last(), BencodeType::Dict)->Some_0;
        let keyed = with_top(stack, place.0).push(State::ExpectingDictFieldValue);
        let inside = (7 * (n - 1) + 2) as nat;
        lemma_dictionaries_layout((n - 1) as nat);
        assert(nested_bencoded_dictionaries((n - 1) as nat).len() == inside);
        assert(at + 6 + inside == at + 7 * n + 1);
        lemma_dictionaries_convert(input, at + 6, (n - 1) as nat, keyed);
        assert(begin_value(keyed.last(), BencodeType::Dict) == Some(
            (State::ExpectingDictFieldKeyOrEnd, seq![JSON_OBJ_FIELD_KEY_VALUE_SEPARATOR]),
        ));
        lemma_dictionary_around(
            input,
            at,
            inside,
            encode_utf8(nested_json_objects((n - 1) as nat)),
            stack,
        );
    }
}

/// The pieces written for a dictionary, as the conversion strings them
/// together, are the object's bytes and what follows.
proof fn lemma_dictionaries_assembled(
    separator: Seq<u8>,
    key: Seq<u8>,
    objects: Seq<u8>,
    behind: Seq<u8>,
)
    ensures
        separator.push(JSON_OBJ_BEGIN) + (key + ((seq![JSON_OBJ_FIELD_KEY_VALUE_SEPARATOR]
            + objects) + (seq![JSON_OBJ_END] + behind))) == (separator + (seq![JSON_OBJ_BEGIN]
            + key + seq![JSON_OBJ_FIELD_KEY_VALUE_SEPARATOR] + objects + seq![JSON_OBJ_END]))
            + behind,
{
    assert(separator.push(JSON_OBJ_BEGIN) + (key + ((seq![JSON_OBJ_FIELD_KEY_VALUE_SEPARATOR]
        + objects) + (seq![JSON_OBJ_END] + behind))) =~= (separator + (seq![JSON_OBJ_BEGIN] + key
        + seq![JSON_OBJ_FIELD_KEY_VALUE_SEPARATOR] + objects + seq![JSON_OBJ_END])) + behind);
}

/// Dictionaries nested `n` deep around an empty one, each under the key
/// `foo`, are converted into JSON objects nested as deep.
pub proof fn law_nested_dictionaries(n: nat)
    ensures
        convert(nested_bencoded_dictionaries(n)) == (Outcome {
            bytes: encode_utf8(nested_json_objects(n)),
            fault: None,
        }),
        decode_utf8(convert(nested_bencoded_dictionaries(n)).bytes) == nested_json_objects(n),
{
    broadcast use vstd::utf8::encode_utf8_decode_utf8;

    let input = nested_bencoded_dictionaries(n);
    let stack = seq![State::Initial];
    assert(input.subrange(0, input.len() as int) =~= input);
    lemma_dictionaries_convert(input, 0, n, stack);
    lemma_run_end(input, input.len(), stack);
}

} // verus!
