use candump::Expected;
use candump::ParseError;
use candump::parser;

#[test]
fn test_parser() {
    let input = "(0000000000.100000) vcan0 211#616C75653A353131";
    let result = parser().parse(input);
    assert!(result.is_ok());
    let frame = result.unwrap();
    assert_eq!(frame.timestamp.as_secs(), 0);
    assert_eq!(frame.timestamp.subsec_millis(), 100);
    assert_eq!(frame.interface, "vcan0");
    assert_eq!(frame.id, 0x211);
    assert_eq!(
        frame.data,
        vec![0x61, 0x6C, 0x75, 0x65, 0x3A, 0x35, 0x31, 0x31]
    );
}

#[test]
fn second_example_frame() {
    let frame = parser()
        .parse("(0000000000.000000) vcan0 212#0D0A4104")
        .unwrap();
    assert_eq!(frame.timestamp.as_secs(), 0);
    assert_eq!(frame.timestamp.subsec_nanos(), 0);
    assert_eq!(frame.interface, "vcan0");
    assert_eq!(frame.id, 0x212);
    assert_eq!(frame.data, vec![0x0D, 0x0A, 0x41, 0x04]);
}

#[test]
fn missing_open_paren_is_syntax_error_at_zero() {
    let r = parser().parse("0000000000.100000) vcan0 211#616C75653A353131");
    assert_eq!(
        r.unwrap_err(),
        ParseError::SyntaxError {
            offset: 0,
            expected: Expected::OpenParen,
        }
    );
}

#[test]
fn one_digit_fraction_is_precision_error() {
    let r = parser().parse("(0000000000.1) vcan0 211#61");
    assert_eq!(r.unwrap_err(), ParseError::PrecisionError);
}

#[test]
fn seven_digit_fraction_is_precision_error() {
    let r = parser().parse("(0000000000.0000000) vcan0 211#61");
    assert_eq!(r.unwrap_err(), ParseError::PrecisionError);
}

#[test]
fn empty_fraction_is_precision_error() {
    let r = parser().parse("(0000000000.) vcan0 211#61");
    assert_eq!(r.unwrap_err(), ParseError::PrecisionError);
}

#[test]
fn odd_payload_is_payload_length_error() {
    let r = parser().parse("(0000000000.000000) vcan0 211#6");
    assert_eq!(r.unwrap_err(), ParseError::PayloadLengthError);
}

#[test]
fn empty_payload_parses_to_no_bytes() {
    let frame = parser().parse("(0000000000.000000) vcan0 211#").unwrap();
    assert_eq!(frame.id, 0x211);
    assert_eq!(frame.data, Vec::<u8>::new());
}

#[test]
fn id_over_32_bits_is_overflow_error() {
    let r = parser().parse("(0000000000.000000) vcan0 1FFFFFFFF#");
    assert_eq!(r.unwrap_err(), ParseError::OverflowError);
}

#[test]
fn id_at_32_bit_limit_parses() {
    let frame = parser().parse("(0000000000.000000) vcan0 FFFFFFFF#").unwrap();
    assert_eq!(frame.id, u32::MAX);
}

#[test]
fn seconds_over_64_bits_is_overflow_error() {
    // One more than u64::MAX.
    let r = parser().parse("(18446744073709551616.000000) vcan0 211#");
    assert_eq!(r.unwrap_err(), ParseError::OverflowError);
}

#[test]
fn seconds_at_64_bit_limit_parses() {
    let frame = parser()
        .parse("(18446744073709551615.000000) vcan0 211#")
        .unwrap();
    assert_eq!(frame.timestamp.as_secs(), u64::MAX);
}

#[test]
fn leftover_text_is_trailing_input_error() {
    let r = parser().parse("(0000000000.000000) vcan0 211#0D0A tail");
    assert_eq!(r.unwrap_err(), ParseError::TrailingInputError);
}

#[test]
fn missing_dot_is_syntax_error_at_run_end() {
    let r = parser().parse("(0000000000100000) vcan0 211#");
    assert_eq!(
        r.unwrap_err(),
        ParseError::SyntaxError {
            offset: 17,
            expected: Expected::Dot,
        }
    );
}

#[test]
fn missing_space_after_timestamp_is_syntax_error() {
    let r = parser().parse("(0000000000.000000)vcan0 211#");
    assert_eq!(
        r.unwrap_err(),
        ParseError::SyntaxError {
            offset: 19,
            expected: Expected::Space,
        }
    );
}

#[test]
fn empty_interface_is_syntax_error() {
    let r = parser().parse("(0000000000.000000)  211#");
    assert_eq!(
        r.unwrap_err(),
        ParseError::SyntaxError {
            offset: 20,
            expected: Expected::Ident,
        }
    );
}

#[test]
fn interface_must_not_start_with_digit() {
    let r = parser().parse("(0000000000.000000) 0can 211#");
    assert_eq!(
        r.unwrap_err(),
        ParseError::SyntaxError {
            offset: 20,
            expected: Expected::Ident,
        }
    );
}

#[test]
fn non_ascii_interface_is_syntax_error_at_char_offset() {
    let r = parser().parse("(0000000000.000000) \u{e9}can 211#");
    assert_eq!(
        r.unwrap_err(),
        ParseError::SyntaxError {
            offset: 20,
            expected: Expected::Ident,
        }
    );
}

#[test]
fn empty_id_is_syntax_error() {
    let r = parser().parse("(0000000000.000000) vcan0 #0D");
    assert_eq!(
        r.unwrap_err(),
        ParseError::SyntaxError {
            offset: 26,
            expected: Expected::HexDigit,
        }
    );
}

#[test]
fn missing_hash_is_syntax_error() {
    let r = parser().parse("(0000000000.000000) vcan0 211");
    assert_eq!(
        r.unwrap_err(),
        ParseError::SyntaxError {
            offset: 29,
            expected: Expected::Hash,
        }
    );
}

#[test]
fn empty_line_is_syntax_error_at_zero() {
    let r = parser().parse("");
    assert_eq!(
        r.unwrap_err(),
        ParseError::SyntaxError {
            offset: 0,
            expected: Expected::OpenParen,
        }
    );
}

#[test]
fn hex_fields_are_case_insensitive() {
    let frame = parser()
        .parse("(0000000001.000001) can_if 2aB#deadBEEF")
        .unwrap();
    assert_eq!(frame.timestamp.as_secs(), 1);
    assert_eq!(frame.timestamp.subsec_micros(), 1);
    assert_eq!(frame.interface, "can_if");
    assert_eq!(frame.id, 0x2AB);
    assert_eq!(frame.data, vec![0xDE, 0xAD, 0xBE, 0xEF]);
}

#[test]
fn timestamp_parts_are_scaled_from_microseconds() {
    let frame = parser().parse("(0000000123.456789) vcan0 1#").unwrap();
    assert_eq!(frame.timestamp.as_secs(), 123);
    assert_eq!(frame.timestamp.subsec_nanos(), 456_789_000);
    assert_eq!(frame.timestamp.subsec_micros(), 456_789);
    assert_eq!(frame.timestamp.subsec_millis(), 456);
}

#[test]
fn overlong_id_with_leading_zeros_parses() {
    let frame = parser()
        .parse("(0000000000.000000) vcan0 000000211#")
        .unwrap();
    assert_eq!(frame.id, 0x211);
}

#[test]
fn trailing_newline_is_accepted() {
    let bare = parser().parse("(0000000000.000000) vcan0 212#0D0A4104");
    let lf = parser().parse("(0000000000.000000) vcan0 212#0D0A4104\n");
    let crlf = parser().parse("(0000000000.000000) vcan0 212#0D0A4104\r\n");
    assert_eq!(bare, lf);
    assert_eq!(bare, crlf);
    assert!(bare.is_ok());
}

#[test]
fn parsing_twice_gives_equal_results() {
    let p = parser();
    let ok_line = "(0000000000.100000) vcan0 211#616C75653A353131";
    assert_eq!(p.parse(ok_line), p.parse(ok_line));
    let bad_line = "(0000000000.1) vcan0 211#61";
    assert_eq!(p.parse(bad_line), p.parse(bad_line));
}

#[test]
fn malformed_inputs_only_yield_typed_errors() {
    let inputs = [
        "",
        "(",
        "()",
        "(x.000000) a 1#",
        "(0.000000",
        "(0.000000)",
        "(0.000000) ",
        "(0.000000) a",
        "(0.000000) a ",
        "(0.000000) a 1",
        "(0.000000) a 1#zz",
        "(0.000000) a 1#00 ",
        "not a capture line at all",
        "\n",
        "\r\n",
    ];
    for input in inputs {
        assert!(parser().parse(input).is_err());
    }
}
