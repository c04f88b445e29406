use trinaryvm_cli::{
    base81_digits, decode_tetragrams_to_bytes, decode_tetragrams_to_number,
    decode_tetragrams_to_text, encode_number_to_tetragrams, encode_text_to_tetragrams,
    encode_universal_to_tetragrams, CodecError,
};

fn symbols(digits: &[u32]) -> String {
    digits
        .iter()
        .map(|d| char::from_u32(0x1D306 + d).unwrap())
        .collect()
}

fn round_trip(bytes: &[u8]) -> Vec<u8> {
    let encoded = encode_universal_to_tetragrams(bytes);
    decode_tetragrams_to_bytes(&encoded).unwrap()
}

#[test]
fn round_trip_reproduces_bytes_with_nonzero_last_byte() {
    let cases: Vec<Vec<u8>> = vec![
        vec![1],
        vec![255],
        vec![0, 1],
        vec![1, 2, 3],
        b"hello, tetragrams".to_vec(),
        vec![0, 0, 0, 7],
        (1..=200u8).collect(),
    ];
    for case in cases {
        assert_eq!(round_trip(&case), case);
    }
}

#[test]
fn round_trip_drops_trailing_zero_bytes() {
    assert_eq!(round_trip(&[0x01, 0x00]), vec![0x01]);
    assert_eq!(round_trip(&[7, 0, 0, 0]), vec![7]);
    assert_eq!(round_trip(&[0, 0]), Vec::<u8>::new());
}

#[test]
fn empty_input_encodes_to_nine_zero_symbols() {
    let encoded = encode_universal_to_tetragrams(&[]);
    assert_eq!(encoded, symbols(&[0; 9]));
    assert_eq!(encoded.chars().count(), 9);
    assert_eq!(decode_tetragrams_to_bytes(&encoded), Ok(Vec::new()));
}

#[test]
fn encoding_length_is_a_multiple_of_nine() {
    for len in 0..40usize {
        let bytes: Vec<u8> = (0..len).map(|i| (i * 37 + 11) as u8).collect();
        let n = encode_universal_to_tetragrams(&bytes).chars().count();
        assert!(n > 0);
        assert_eq!(n % 9, 0);
    }
}

#[test]
fn encoding_is_base_81_least_significant_first() {
    let mut one = vec![1];
    one.extend([0; 8]);
    assert_eq!(encode_universal_to_tetragrams(&[1]), symbols(&one));
    let mut eighty_one = vec![0, 1];
    eighty_one.extend([0; 7]);
    assert_eq!(encode_universal_to_tetragrams(&[81]), symbols(&eighty_one));
    // 256 = 3 * 81 + 13
    let mut two_five_six = vec![13, 3];
    two_five_six.extend([0; 7]);
    assert_eq!(encode_universal_to_tetragrams(&[0, 1]), symbols(&two_five_six));
    assert_eq!(base81_digits(&[0, 1]), vec![13, 3]);
    assert_eq!(base81_digits(&[]), vec![0]);
}

#[test]
fn decoding_reads_base_81_and_skips_white_space() {
    // 13 + 3 * 81 = 256
    let stream = format!(" {}\n{} ", symbols(&[13]), symbols(&[3]));
    assert_eq!(decode_tetragrams_to_bytes(&stream), Ok(vec![0, 1]));
    assert_eq!(decode_tetragrams_to_bytes(&symbols(&[80, 80])), Ok(vec![0xA0, 0x19]));
}

#[test]
fn decoding_reports_the_first_invalid_symbol_and_its_position() {
    let stream = format!("{}a{}b", symbols(&[1]), symbols(&[2]));
    assert_eq!(
        decode_tetragrams_to_bytes(&stream),
        Err(CodecError::InvalidSymbol { symbol: 'a', position: 1 })
    );
    let stream = format!(" {} \u{1D357}", symbols(&[4]));
    assert_eq!(
        decode_tetragrams_to_bytes(&stream),
        Err(CodecError::InvalidSymbol { symbol: '\u{1D357}', position: 3 })
    );
    assert_eq!(
        decode_tetragrams_to_bytes("\u{1D305}"),
        Err(CodecError::InvalidSymbol { symbol: '\u{1D305}', position: 0 })
    );
}

#[test]
fn decoding_nothing_is_empty_input() {
    assert_eq!(decode_tetragrams_to_bytes(""), Err(CodecError::EmptyInput));
    assert_eq!(decode_tetragrams_to_bytes(" \n\t "), Err(CodecError::EmptyInput));
}

#[test]
fn text_round_trips_through_the_universal_codec() {
    let text = "h\u{e9}llo, tetragram \u{1D306}";
    let encoded = encode_text_to_tetragrams(text);
    assert_eq!(decode_tetragrams_to_text(&encoded), Ok(text.to_string()));
}

#[test]
fn text_decoding_rejects_invalid_utf8() {
    let encoded = encode_universal_to_tetragrams(&[0xFF, 0xFE]);
    assert_eq!(decode_tetragrams_to_text(&encoded), Err(CodecError::InvalidUtf8));
    assert_eq!(decode_tetragrams_to_text("x"), Err(CodecError::InvalidSymbol { symbol: 'x', position: 0 }));
}

#[test]
fn numbers_encode_like_their_little_endian_bytes() {
    assert_eq!(encode_number_to_tetragrams("256"), Ok(encode_universal_to_tetragrams(&[0, 1])));
    assert_eq!(encode_number_to_tetragrams("+1_0"), Ok(encode_universal_to_tetragrams(&[10])));
    assert_eq!(encode_number_to_tetragrams("0"), Ok(encode_universal_to_tetragrams(&[])));
}

#[test]
fn malformed_numbers_are_rejected() {
    for bad in ["", "+", "-5", "_1", "12a", "++3", "1.5"] {
        assert_eq!(encode_number_to_tetragrams(bad), Err(CodecError::UnparseableNumber));
    }
}

#[test]
fn numbers_round_trip_in_decimal() {
    let n = "123456789012345678901234567890";
    let encoded = encode_number_to_tetragrams(n).unwrap();
    assert_eq!(decode_tetragrams_to_number(&encoded), Ok(n.to_string()));
    assert_eq!(decode_tetragrams_to_number(&symbols(&[0; 9])), Ok("0".to_string()));
    assert_eq!(decode_tetragrams_to_number(&symbols(&[13, 3])), Ok("256".to_string()));
    assert_eq!(decode_tetragrams_to_number(""), Err(CodecError::EmptyInput));
}
