use trinaryvm_cli::{
    decode_tetragrams_to_text_direct, decode_tetragrams_to_trits_direct,
    encode_text_to_tetragrams_direct, encode_trits_to_tetragrams_direct, text_to_trits,
    trits_to_text, CodecError,
};

fn symbol(index: u32) -> char {
    char::from_u32(0x1D306 + index).unwrap()
}

#[test]
fn text_with_small_bytes_round_trips() {
    for text in ["HELLO", "123 ABC", "", "\0", "P@=42"] {
        let encoded = encode_text_to_tetragrams_direct(text);
        assert_eq!(decode_tetragrams_to_text_direct(&encoded), Ok(text.to_string()));
    }
}

#[test]
fn each_small_byte_takes_four_symbols() {
    let encoded = encode_text_to_tetragrams_direct("HELLO");
    assert_eq!(encoded.chars().count(), 20);
}

#[test]
fn bytes_become_least_significant_trits_first() {
    // 65 = 2 + 0 * 3 + 1 * 9 + 2 * 27
    assert_eq!(text_to_trits("A"), vec![-1, 0, 1, -1]);
    assert_eq!(text_to_trits("\0"), vec![0, 0, 0, 0]);
    // 97 = 1 + 2 * 3 + 1 * 9 + 0 * 27 + 1 * 81: five digits, padded to eight
    assert_eq!(text_to_trits("a"), vec![1, -1, 1, 0, 1, 0, 0, 0]);
    assert_eq!(text_to_trits("A\0"), vec![-1, 0, 1, -1, 0, 0, 0, 0]);
}

#[test]
fn large_bytes_do_not_round_trip() {
    let encoded = encode_text_to_tetragrams_direct("a");
    assert_eq!(encoded.chars().count(), 8);
    assert_ne!(decode_tetragrams_to_text_direct(&encoded), Ok("a".to_string()));
}

#[test]
fn trits_map_to_three_fixed_symbols() {
    let s = encode_trits_to_tetragrams_direct(&[-1, 0, 1]);
    let expected: String = [symbol(0), symbol(27), symbol(54)].iter().collect();
    assert_eq!(s, expected);
}

#[test]
fn symbols_map_back_to_trits_by_third() {
    let s: String = [symbol(0), symbol(26), 'x', symbol(27), ' ', symbol(53), symbol(54), symbol(80)]
        .iter()
        .collect();
    assert_eq!(decode_tetragrams_to_trits_direct(&s), vec![-1, -1, 0, 0, 1, 1]);
}

#[test]
fn trits_group_into_bytes() {
    assert_eq!(trits_to_text(&[-1, 0, 1, -1]), Ok("A".to_string()));
    assert_eq!(trits_to_text(&[]), Ok(String::new()));
}

#[test]
fn incomplete_trit_groups_are_malformed() {
    assert_eq!(trits_to_text(&[1, 0, 1]), Err(CodecError::MalformedTritStream { count: 3 }));
    let s: String = [symbol(60), symbol(60), symbol(60), symbol(60), symbol(60)].iter().collect();
    assert_eq!(
        decode_tetragrams_to_text_direct(&s),
        Err(CodecError::MalformedTritStream { count: 5 })
    );
}
