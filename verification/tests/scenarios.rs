use bencode2json::error::Error;
use bencode2json::generators::json::{tagged, Generator};
use bencode2json::generators::stack::State;
use bencode2json::generators::BencodeType;
use bencode2json::rw::byte_writer::ByteWriter;
use bencode2json::rw::string_writer::StringWriter;
use bencode2json::rw::writer::Writer;
use bencode2json::test::{
    bencode_to_json_unchecked, bencoded_string_with_repeated_byte,
    generate_n_nested_empty_bencoded_dictionaries, generate_n_nested_empty_bencoded_lists,
    generate_n_nested_empty_json_arrays, generate_n_nested_empty_json_objects,
};
use bencode2json::tokenizer::{BencodeToken, Tokenizer};
use bencode2json::{to_bencode, try_bencode_to_json};

#[test]
fn an_integer_is_written_digit_for_digit() {
    for text in [
        "0",
        "-0",
        "7",
        "-7",
        "10",
        "1234567890",
        "-1234567890",
        "340282366920938463463374607431768211456",
        "-340282366920938463463374607431768211456000000000000000000000",
    ] {
        let input = format!("i{text}e");
        assert_eq!(try_bencode_to_json(input.as_bytes()).unwrap(), text);
    }
}

#[test]
fn an_integer_with_a_thousand_digits_is_written_digit_for_digit() {
    let digits = "9".repeat(1000);
    let input = format!("i{digits}e");
    assert_eq!(try_bencode_to_json(input.as_bytes()).unwrap(), digits);
}

#[test]
fn a_zero_may_not_lead_an_integer() {
    for input in ["i00e", "i-00e", "i01e", "i-01e", "i000e", "i0123e"] {
        let result = try_bencode_to_json(input.as_bytes());
        assert!(
            matches!(result, Err(Error::LeadingZerosInIntegersNotAllowed(_))),
            "{input}"
        );
    }
}

#[test]
fn the_digit_after_a_leading_zero_is_the_one_at_fault() {
    match try_bencode_to_json(b"i-0123e") {
        Err(Error::LeadingZerosInIntegersNotAllowed(context)) => {
            assert_eq!(context.byte, Some(b'1'));
            assert_eq!(context.pos, 4);
            assert_eq!(context.latest_bytes, b"i-01".to_vec());
        }
        other => panic!("{other:?}"),
    }
}

#[test]
fn a_text_string_is_quoted_between_string_tags() {
    assert_eq!(
        try_bencode_to_json(b"4:spam").unwrap(),
        "\"<string>spam</string>\""
    );
    assert_eq!(
        try_bencode_to_json(b"004:spam").unwrap(),
        "\"<string>spam</string>\""
    );
    assert_eq!(
        try_bencode_to_json("7:\u{f1}and\u{fa}".as_bytes()).unwrap(),
        "\"<string>\u{f1}and\u{fa}</string>\""
    );
    assert_eq!(
        try_bencode_to_json("4:\u{1f980}".as_bytes()).unwrap(),
        "\"<string>\u{1f980}</string>\""
    );
}

#[test]
fn quotes_backslashes_and_control_characters_are_escaped() {
    assert_eq!(
        try_bencode_to_json(b"3:a\"b").unwrap(),
        "\"<string>a\\\"b</string>\""
    );
    assert_eq!(
        try_bencode_to_json(b"3:a\\b").unwrap(),
        "\"<string>a\\\\b</string>\""
    );
    assert_eq!(
        try_bencode_to_json(b"5:\x08\x0c\n\r\t").unwrap(),
        "\"<string>\\b\\f\\n\\r\\t</string>\""
    );
    assert_eq!(
        try_bencode_to_json(b"4:\x00\x01\x1e\x1f").unwrap(),
        "\"<string>\\u0000\\u0001\\u001e\\u001f</string>\""
    );
    assert_eq!(
        try_bencode_to_json(b"3:\x0b\x0e\x10").unwrap(),
        "\"<string>\\u000b\\u000e\\u0010</string>\""
    );
}

#[test]
fn other_characters_stand_for_themselves() {
    assert_eq!(
        try_bencode_to_json(b"4: /\x7f~").unwrap(),
        "\"<string> /\u{7f}~</string>\""
    );
    assert_eq!(
        try_bencode_to_json(b"8:<string>").unwrap(),
        "\"<string><string></string>\""
    );
}

#[test]
fn every_ascii_character_is_escaped_as_json_asks() {
    for byte in 0u8..0x80 {
        let input = [b'1', b':', byte];
        let json = try_bencode_to_json(&input).unwrap();
        let inner = match byte {
            b'"' => "\\\"".to_string(),
            b'\\' => "\\\\".to_string(),
            0x08 => "\\b".to_string(),
            0x0c => "\\f".to_string(),
            b'\n' => "\\n".to_string(),
            b'\r' => "\\r".to_string(),
            b'\t' => "\\t".to_string(),
            low if low < 0x20 => format!("\\u{low:04x}"),
            other => (other as char).to_string(),
        };
        assert_eq!(json, format!("\"<string>{inner}</string>\""));
    }
}

#[test]
fn a_string_that_is_not_text_is_written_in_hexadecimal() {
    assert_eq!(
        try_bencode_to_json(b"4:\x00\x0f\xf0\xff").unwrap(),
        "\"<hex>000ff0ff</hex>\""
    );
    assert_eq!(
        try_bencode_to_json(b"6:spam\xab\xcd").unwrap(),
        "\"<hex>7370616dabcd</hex>\""
    );
}

#[test]
fn bytes_that_only_look_like_utf8_are_written_in_hexadecimal() {
    // An overlong encoding, a surrogate, a code point too large, a lone
    // continuation byte and a sequence cut short
    assert_eq!(
        try_bencode_to_json(b"2:\xc0\x80").unwrap(),
        "\"<hex>c080</hex>\""
    );
    assert_eq!(
        try_bencode_to_json(b"3:\xed\xa0\x80").unwrap(),
        "\"<hex>eda080</hex>\""
    );
    assert_eq!(
        try_bencode_to_json(b"4:\xf4\x90\x80\x80").unwrap(),
        "\"<hex>f4908080</hex>\""
    );
    assert_eq!(try_bencode_to_json(b"1:\x80").unwrap(), "\"<hex>80</hex>\"");
    assert_eq!(
        try_bencode_to_json(b"2:\xe2\x82").unwrap(),
        "\"<hex>e282</hex>\""
    );
}

#[test]
fn every_byte_is_written_as_two_lower_case_hexadecimal_digits() {
    for byte in 0x80u8..=0xff {
        let input = [b'2', b':', 0xff, byte];
        let json = try_bencode_to_json(&input).unwrap();
        assert_eq!(json, format!("\"<hex>ff{byte:02x}</hex>\""));
    }
    for byte in 0u8..0x80 {
        let input = [b'2', b':', 0xff, byte];
        let json = try_bencode_to_json(&input).unwrap();
        assert_eq!(json, format!("\"<hex>ff{byte:02x}</hex>\""));
    }
}

#[test]
fn the_tagged_text_of_a_value() {
    assert_eq!(tagged(b"spam"), "<string>spam</string>");
    assert_eq!(tagged(b""), "<string></string>");
    assert_eq!(tagged(b"\xff\x00"), "<hex>ff00</hex>");
    assert_eq!(tagged(b"\"\n"), "<string>\"\n</string>");
}

#[test]
fn nested_lists_become_nested_arrays() {
    for n in [0, 1, 2, 3, 10, 100, 1000] {
        let input = generate_n_nested_empty_bencoded_lists(n);
        assert_eq!(input, ["l".repeat(n), "e".repeat(n)].concat().into_bytes());
        let expected = generate_n_nested_empty_json_arrays(n);
        assert_eq!(expected, ["[".repeat(n), "]".repeat(n)].concat());
        assert_eq!(try_bencode_to_json(&input).unwrap(), expected);
    }
}

#[test]
fn nested_dictionaries_become_nested_objects() {
    assert_eq!(generate_n_nested_empty_bencoded_dictionaries(0), b"de");
    assert_eq!(
        generate_n_nested_empty_bencoded_dictionaries(2),
        b"d3:food3:foodeee"
    );
    assert_eq!(generate_n_nested_empty_json_objects(0), "{}");
    assert_eq!(
        generate_n_nested_empty_json_objects(2),
        "{\"<string>foo</string>\":{\"<string>foo</string>\":{}}}"
    );
    for n in [0, 1, 2, 3, 10, 100, 1000] {
        let input = generate_n_nested_empty_bencoded_dictionaries(n);
        let expected = generate_n_nested_empty_json_objects(n);
        assert_eq!(try_bencode_to_json(&input).unwrap(), expected);
    }
}

/// The places in `input` where a token begins, and its end.
fn token_boundaries(input: &[u8]) -> Vec<usize> {
    let mut tokenizer = Tokenizer::new(input);
    let mut boundaries = vec![0];
    while let Ok(Some(_)) = tokenizer.next_token() {
        boundaries.push(tokenizer.input_byte_counter() as usize);
    }
    boundaries
}

#[test]
fn a_line_break_between_tokens_changes_nothing_in_the_output() {
    let inputs: [&[u8]; 8] = [
        b"",
        b"i42e",
        b"4:spam",
        b"li42e5:alicee",
        b"d3:bar4:spam3:fooli1ei2eee",
        b"i1ei2e3:abc",
        b"ld3:foodeee\nle",
        b"2:\n\nl2:\n\ne",
    ];
    for input in inputs {
        let expected = try_bencode_to_json(input).unwrap();
        for at in token_boundaries(input) {
            let mut broken = input[..at].to_vec();
            broken.push(b'\n');
            broken.extend_from_slice(&input[at..]);
            assert_eq!(try_bencode_to_json(&broken).unwrap(), expected);
        }
    }
}

#[test]
fn a_line_break_between_tokens_changes_nothing_in_what_fails() {
    let inputs: [&[u8]; 5] = [b"li42e", b"d3:fooe", b"li1ee e", b"d3:fooi1ei2e", b"lli00e"];
    for input in inputs {
        let mut output = Vec::new();
        let failure = Generator::new(input).write_bytes(&mut output).unwrap_err();
        for at in token_boundaries(input) {
            let mut broken = input[..at].to_vec();
            broken.push(b'\n');
            broken.extend_from_slice(&input[at..]);
            let mut broken_output = Vec::new();
            let broken_failure = Generator::new(&broken)
                .write_bytes(&mut broken_output)
                .unwrap_err();
            assert_eq!(broken_output, output);
            assert_eq!(
                std::mem::discriminant(&broken_failure),
                std::mem::discriminant(&failure)
            );
        }
    }
}

#[test]
fn a_line_break_inside_a_string_belongs_to_the_string() {
    assert_eq!(
        try_bencode_to_json(b"3:a\nb").unwrap(),
        "\"<string>a\\nb</string>\""
    );
    assert!(matches!(
        try_bencode_to_json(b"3\n:abc"),
        Err(Error::InvalidStringLengthByte(_))
    ));
    assert!(matches!(
        try_bencode_to_json(b"i4\n2e"),
        Err(Error::UnexpectedByteParsingInteger(_))
    ));
}

#[test]
fn several_values_follow_each_other_without_a_separator() {
    assert_eq!(try_bencode_to_json(b"i1ei2e").unwrap(), "12");
    assert_eq!(try_bencode_to_json(b"lelede").unwrap(), "[][]{}");
    assert_eq!(try_bencode_to_json(b"\n\n").unwrap(), "");
}

#[test]
fn a_dictionary_keeps_the_order_of_its_fields() {
    assert_eq!(
        try_bencode_to_json(b"d1:zi1e1:ai2e1:mi3ee").unwrap(),
        "{\"<string>z</string>\":1,\"<string>a</string>\":2,\"<string>m</string>\":3}"
    );
}

#[test]
fn a_dictionary_key_may_be_any_string() {
    assert_eq!(
        try_bencode_to_json(b"d1:\xffi1ee").unwrap(),
        "{\"<hex>ff</hex>\":1}"
    );
}

#[test]
fn the_output_is_kept_up_to_a_failure() {
    let mut output = String::new();
    let result = Generator::new(&b"li1ei2ed3:fooe"[..]).write_str(&mut output);
    assert!(matches!(result, Err(Error::PrematureEndOfDict(_, _))));
    assert_eq!(output, "[1,2,{\"<string>foo</string>\"");

    let mut output = Vec::new();
    let result = Generator::new(&b"i1e?"[..]).write_bytes(&mut output);
    assert!(matches!(
        result,
        Err(Error::UnrecognizedFirstBencodeValueByte(_))
    ));
    assert_eq!(output, b"1");
}

#[test]
fn the_output_is_written_behind_what_it_holds() {
    let mut output = String::from("json: ");
    Generator::new(&b"le"[..]).write_str(&mut output).unwrap();
    assert_eq!(output, "json: []");

    let mut output = b"json: ".to_vec();
    Generator::new(&b"de"[..]).write_bytes(&mut output).unwrap();
    assert_eq!(output, b"json: {}");
}

#[test]
fn a_length_too_large_for_the_machine_finds_the_input_too_short() {
    match try_bencode_to_json(b"99999999999999999999999999999999999999:abc") {
        Err(Error::UnexpectedEndOfInputParsingStringValue(context)) => {
            assert_eq!(context.byte, None);
            assert_eq!(context.pos, 42);
        }
        other => panic!("{other:?}"),
    }
    assert!(matches!(
        try_bencode_to_json(b"99999999999999999999999999999999999999a:abc"),
        Err(Error::InvalidStringLengthByte(_))
    ));
    assert!(matches!(
        try_bencode_to_json(b"18446744073709551615:abc"),
        Err(Error::UnexpectedEndOfInputParsingStringValue(_))
    ));
    assert!(matches!(
        try_bencode_to_json(b"18446744073709551616:abc"),
        Err(Error::UnexpectedEndOfInputParsingStringValue(_))
    ));
}

#[test]
fn a_string_is_bencoded_with_its_length_in_bytes() {
    assert_eq!(to_bencode(""), b"0:");
    assert_eq!(to_bencode("spam"), b"4:spam");
    assert_eq!(to_bencode("0123456789"), b"10:0123456789");
    assert_eq!(to_bencode("\u{f1}"), b"2:\xc3\xb1");
    let long = "x".repeat(12345);
    assert_eq!(to_bencode(&long), format!("12345:{long}").into_bytes());
}

#[test]
fn a_byte_is_repeated_in_a_bencoded_string() {
    assert_eq!(bencoded_string_with_repeated_byte(b'a', 0), b"0:");
    assert_eq!(bencoded_string_with_repeated_byte(b'a', 3), b"3:aaa");
    assert_eq!(
        bencoded_string_with_repeated_byte(0xff, 11),
        b"11:\xff\xff\xff\xff\xff\xff\xff\xff\xff\xff\xff"
    );
}

#[test]
fn what_was_bencoded_is_converted_back_to_its_text() {
    for text in ["", "spam", "\u{f1}and\u{fa}", "a\"b\\c\n"] {
        let json = bencode_to_json_unchecked(&to_bencode(text));
        let escaped = text
            .replace('\\', "\\\\")
            .replace('"', "\\\"")
            .replace('\n', "\\n");
        assert_eq!(json, format!("\"<string>{escaped}</string>\""));
    }
}

#[test]
fn the_tokenizer_hands_out_the_tokens_one_by_one() {
    let mut tokenizer = Tokenizer::new(b"li-42e\n2:\xffed3:fooee");
    let mut tokens = Vec::new();
    while let Some(token) = tokenizer.next_token().unwrap() {
        tokens.push(token);
    }
    assert_eq!(
        tokens,
        vec![
            BencodeToken::BeginList,
            BencodeToken::Integer(b"-42".to_vec()),
            BencodeToken::LineBreak,
            BencodeToken::String(vec![0xff, b'e']),
            BencodeToken::BeginDict,
            BencodeToken::String(b"foo".to_vec()),
            BencodeToken::EndListOrDict,
            BencodeToken::EndListOrDict,
        ]
    );
    assert_eq!(tokenizer.next_token().unwrap(), None);
    assert_eq!(tokenizer.next_token().unwrap(), None);
    assert_eq!(tokenizer.input_byte_counter(), 20);
}

#[test]
fn the_tokenizer_counts_and_remembers_what_it_read() {
    let mut tokenizer = Tokenizer::new(b"i1e4:spam");
    tokenizer.next_token().unwrap();
    assert_eq!(tokenizer.input_byte_counter(), 3);
    assert_eq!(tokenizer.captured_bytes(), b"i1e");
    tokenizer.next_token().unwrap();
    assert_eq!(tokenizer.input_byte_counter(), 9);
    assert_eq!(tokenizer.captured_bytes(), b"i1e4:spam");
}

#[test]
fn the_tokenizer_stays_at_a_byte_that_begins_no_token() {
    let mut tokenizer = Tokenizer::new(b"le?");
    assert_eq!(tokenizer.next_token().unwrap(), Some(BencodeToken::BeginList));
    assert_eq!(
        tokenizer.next_token().unwrap(),
        Some(BencodeToken::EndListOrDict)
    );
    for _ in 0..3 {
        match tokenizer.next_token() {
            Err(Error::UnrecognizedFirstBencodeValueByte(context)) => {
                assert_eq!(context.byte, Some(b'?'));
                assert_eq!(context.pos, 2);
                assert_eq!(context.latest_bytes, b"le");
            }
            other => panic!("{other:?}"),
        }
    }
}

#[test]
fn a_value_is_begun_where_the_nesting_allows_it() {
    let mut generator = Generator::new(&b""[..]);
    let mut writer = ByteWriter::new(Vec::new());

    generator
        .begin_bencoded_value(BencodeType::Dict, &mut writer)
        .unwrap();
    assert_eq!(writer.captured_bytes(), b"");
    generator.end_list_or_dict(&mut writer).unwrap_err();

    let mut generator = Generator::new(&b"le"[..]);
    let mut writer = StringWriter::new(String::new());
    generator.parse(&mut writer).unwrap();
    assert_eq!(writer.into_inner(), "[]");
}

#[test]
fn the_states_have_their_letters() {
    let states = [
        (State::Initial, "I"),
        (State::ExpectingFirstListItemOrEnd, "L"),
        (State::ExpectingNextListItem, "M"),
        (State::ExpectingFirstDictFieldOrEnd, "D"),
        (State::ExpectingDictFieldValue, "E"),
        (State::ExpectingDictFieldKeyOrEnd, "F"),
    ];
    for (state, letter) in states {
        assert_eq!(state.to_string(), letter);
    }
    assert_eq!(BencodeType::Integer.to_string(), "Integer");
    assert_eq!(BencodeType::String.to_string(), "String");
    assert_eq!(BencodeType::List.to_string(), "List");
    assert_eq!(BencodeType::Dict.to_string(), "Dict");
}
