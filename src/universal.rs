//! The universal codec: a byte sequence read as one little-endian number,
//! written out in base 81 and padded to a multiple of nine symbols.

use vstd::prelude::*;
use vstd::slice::slice_to_vec;
use vstd::string::StringSliceAdditionalSpecFns;
use vstd::utf8::{decode_utf8, valid_utf8};
use crate::alphabet::{
    chars_of, is_symbol, is_white_space, lemma_spelled_digits, lemma_symbol_digits_bound, spells,
    symbol_digit, symbol_digits, symbols_from_digits, white_space,
};
use crate::bignum::{
    add_small, decimal_digits, decimal_of_le, digits_of, div_rem_small, is_zero_le, le_value,
    lemma_digits_of_bound, lemma_digits_of_canonical, lemma_digits_of_unfold,
    lemma_digits_of_value, lemma_le_value_push_zero, lemma_le_value_zero_tail, mul_small,
    parse_decimal, parse_decimal_le, trim_high_zeros,
};
use crate::error::CodecError;
use crate::text::string_from_utf8;

verus! {

/// Number of symbols that every encoded stream is a multiple of.
pub const ALIGNMENT: usize = 9;

/// The base-81 digits of the value of `b`, least significant first; a single
/// zero digit when that value is zero.
pub open spec fn base81_digits_spec(b: Seq<u8>) -> Seq<u8> {
    base81_of(le_value(b, 256))
}

/// The base-81 digits of `n`, least significant first; a single zero digit
/// for zero.
pub open spec fn base81_of(n: nat) -> Seq<u8> {
    let d = digits_of(n, 81);
    if d.len() == 0 {
        seq![0u8]
    } else {
        d
    }
}

/// How many zero digits bring a length `n` up to a multiple of `k`.
pub open spec fn pad_count(n: nat, k: nat) -> nat
    recommends
        k > 0,
{
    if n % k == 0 {
        0
    } else {
        (k - n % k) as nat
    }
}

/// `d` followed by zero digits up to a multiple of `k`.
pub open spec fn pad_zeros(d: Seq<u8>, k: nat) -> Seq<u8> {
    d + Seq::new(pad_count(d.len(), k), |i: int| 0u8)
}

/// The digits spelled by the encoding of `b`.
pub open spec fn universal_digits(b: Seq<u8>) -> Seq<u8> {
    value_digits(le_value(b, 256))
}

/// The digits spelled by the encoding of the number `n`.
pub open spec fn value_digits(n: nat) -> Seq<u8> {
    pad_zeros(base81_of(n), ALIGNMENT as nat)
}

/// The base-81 digits of the number whose little-endian bytes are `input`,
/// least significant first, with one zero digit for zero.
pub fn base81_digits(input: &[u8]) -> (r: Vec<u8>)
    ensures
        r@ == base81_digits_spec(input@),
        forall|i: int| 0 <= i < r.len() ==> r[i] < 81,
{
    let ghost total = le_value(input@, 256);
    let mut value = slice_to_vec(input);
    let mut digits: Vec<u8> = Vec::new();
    while !is_zero_le(&value)
        invariant
            digits@ + digits_of(le_value(value@, 256), 81) == digits_of(total, 81),
            forall|i: int| 0 <= i < digits.len() ==> digits[i] < 81,
        decreases le_value(value@, 256),
    {
        let ghost v = le_value(value@, 256);
        let (q, r) = div_rem_small(&value, 81);
        proof {
            lemma_digits_of_unfold(v, 81);
            assert(digits@.push(r) + digits_of(v / 81, 81) =~= digits@ + digits_of(v, 81));
            vstd::arithmetic::div_mod::lemma_div_decreases(v as int, 81);
        }
        digits.push(r);
        value = q;
    }
    assert(digits@ + digits_of(0, 81) =~= digits@);
    if digits.len() == 0 {
        digits.push(0);
    }
    digits
}

/// Encodes bytes as tetragram symbols: the little-endian number they hold,
/// in base 81 least significant digit first, padded with zero symbols to a
/// multiple of nine.
pub fn encode_universal_to_tetragrams(input: &[u8]) -> (r: String)
    ensures
        spells(r@, universal_digits(input@)),
        r@.len() > 0,
        r@.len() % 9 == 0,
{
    let mut digits = base81_digits(input);
    let ghost unpadded = digits@;
    while digits.len() % ALIGNMENT != 0
        invariant
            digits@ =~= unpadded + Seq::new((digits.len() - unpadded.len()) as nat, |i: int| 0u8),
            unpadded.len() <= digits.len() <= unpadded.len() + pad_count(unpadded.len(), 9),
            forall|i: int| 0 <= i < digits.len() ==> digits[i] < 81,
        decreases unpadded.len() + pad_count(unpadded.len(), 9) - digits.len(),
    {
        digits.push(0);
    }
    assert(digits.len() == unpadded.len() + pad_count(unpadded.len(), 9));
    symbols_from_digits(&digits)
}

/// A character that a symbol stream may not hold: neither a symbol nor
/// white space.
pub open spec fn is_stray(c: char) -> bool {
    !is_symbol(c) && !white_space(c)
}

/// Every character of `s` is a symbol or white space.
pub open spec fn is_clean_stream(s: Seq<char>) -> bool {
    forall|i: int| 0 <= i < s.len() ==> !is_stray(s[i])
}

/// `i` is the position of the first stray character of `s`.
pub open spec fn first_stray_at(s: Seq<char>, i: int) -> bool {
    &&& 0 <= i < s.len()
    &&& is_stray(s[i])
    &&& forall|j: int| 0 <= j < i ==> !is_stray(s[j])
}

/// The bytes that a clean stream decodes to: the canonical little-endian
/// bytes of the number that its digits spell in base 81.
pub open spec fn decoded_bytes(s: Seq<char>) -> Seq<u8> {
    digits_of(le_value(symbol_digits(s), 81), 256)
}

/// `s` decodes: it is clean and holds at least one symbol.
pub open spec fn universal_decodes(s: Seq<char>) -> bool {
    is_clean_stream(s) && symbol_digits(s).len() > 0
}

/// `e` is the error that decoding `s` reports: the first stray character
/// with its position, or, for a clean stream without symbols, `EmptyInput`.
pub open spec fn universal_decode_fails_with(s: Seq<char>, e: CodecError) -> bool {
    match e {
        CodecError::InvalidSymbol { symbol, position } => {
            first_stray_at(s, position as int) && symbol == s[position as int]
        },
        CodecError::EmptyInput => is_clean_stream(s) && symbol_digits(s).len() == 0,
        _ => false,
    }
}

/// Decodes a symbol stream back into bytes. White space is skipped; the
/// first character that is neither white space nor a symbol is reported with
/// its position; a stream without symbols is empty.
pub fn decode_tetragrams_to_bytes(input: &str) -> (r: Result<Vec<u8>, CodecError>)
    ensures
        match r {
            Ok(bytes) => universal_decodes(input@) && bytes@ == decoded_bytes(input@),
            Err(e) => universal_decode_fails_with(input@, e),
        },
{
    let chars = chars_of(input);
    let mut digits: Vec<u8> = Vec::new();
    let mut i: usize = 0;
    while i < chars.len()
        invariant
            i <= chars.len(),
            chars@ == input@,
            forall|j: int| 0 <= j < i ==> !is_stray(chars@[j]),
            digits@ == symbol_digits(chars@.subrange(0, i as int)),
        decreases chars.len() - i,
    {
        let c = chars[i];
        assert(chars@.subrange(0, i + 1).drop_last() =~= chars@.subrange(0, i as int));
        match symbol_digit(c) {
            Some(d) => {
                digits.push(d);
            },
            None => {
                if !is_white_space(c) {
                    return Err(CodecError::InvalidSymbol { symbol: c, position: i });
                }
            },
        }
        i = i + 1;
    }
    assert(chars@.subrange(0, i as int) =~= chars@);
    if digits.len() == 0 {
        return Err(CodecError::EmptyInput);
    }
    proof {
        lemma_symbol_digits_bound(chars@);
    }
    let mut acc: Vec<u8> = Vec::new();
    let mut k: usize = digits.len();
    while k > 0
        invariant
            k <= digits.len(),
            forall|j: int| 0 <= j < digits.len() ==> digits[j] < 81,
            le_value(acc@, 256) == le_value(digits@.subrange(k as int, digits.len() as int), 81),
        decreases k,
    {
        k = k - 1;
        let ghost tail = digits@.subrange(k as int, digits.len() as int);
        assert(tail.drop_first() =~= digits@.subrange(k + 1, digits.len() as int));
        let shifted = mul_small(&acc, 81);
        acc = add_small(&shifted, digits[k]);
    }
    assert(digits@.subrange(0, digits.len() as int) =~= digits@);
    Ok(trim_high_zeros(acc))
}

/// `b` without its most-significant (trailing) zero bytes.
pub open spec fn strip_high_zeros(b: Seq<u8>) -> Seq<u8>
    decreases b.len(),
{
    if b.len() > 0 && b.last() == 0 {
        strip_high_zeros(b.drop_last())
    } else {
        b
    }
}

proof fn lemma_strip_high_zeros(b: Seq<u8>)
    ensures
        digits_of(le_value(b, 256), 256) == strip_high_zeros(b),
    decreases b.len(),
{
    if b.len() > 0 && b.last() == 0 {
        lemma_strip_high_zeros(b.drop_last());
        lemma_le_value_push_zero(b.drop_last(), 256);
        assert(b.drop_last().push(0u8) =~= b);
    } else {
        lemma_digits_of_canonical(b, 256);
    }
}

proof fn lemma_universal_digits_value(b: Seq<u8>)
    ensures
        le_value(universal_digits(b), 81) == le_value(b, 256),
        forall|i: int| 0 <= i < universal_digits(b).len() ==> universal_digits(b)[i] < 81,
        universal_digits(b).len() > 0,
{
    let n = le_value(b, 256);
    let d = base81_digits_spec(b);
    lemma_digits_of_value(n, 81);
    lemma_digits_of_bound(n, 81);
    if digits_of(n, 81).len() == 0 {
        assert(le_value(seq![0u8].drop_first(), 81) == 0);
    }
    lemma_le_value_zero_tail(d, pad_count(d.len(), 9), 81);
    let u = universal_digits(b);
    assert forall|i: int| 0 <= i < u.len() implies u[i] < 81 by {
        if i >= d.len() {
            assert(u[i] == 0);
        } else {
            assert(u[i] == d[i]);
        }
    }
}

/// Decoding the encoding of any byte sequence gives back that sequence
/// without its most-significant (trailing) zero bytes.
pub proof fn lemma_universal_round_trip_strips(b: Seq<u8>, s: Seq<char>)
    requires
        spells(s, universal_digits(b)),
    ensures
        is_clean_stream(s),
        symbol_digits(s).len() > 0,
        decoded_bytes(s) == strip_high_zeros(b),
{
    lemma_universal_digits_value(b);
    lemma_spelled_digits(s, universal_digits(b));
    lemma_strip_high_zeros(b);
    assert forall|i: int| 0 <= i < s.len() implies !is_stray(s[i]) by {
        assert(is_symbol(s[i]));
    }
}

/// Decoding the encoding of a non-empty byte sequence whose last byte is
/// not zero gives back exactly that sequence.
pub proof fn lemma_universal_round_trip(b: Seq<u8>, s: Seq<char>)
    requires
        b.len() > 0,
        b.last() != 0,
        spells(s, universal_digits(b)),
    ensures
        is_clean_stream(s),
        symbol_digits(s).len() > 0,
        decoded_bytes(s) == b,
{
    lemma_universal_round_trip_strips(b, s);
}

/// Encodes the UTF-8 bytes of `input` with the universal codec.
pub fn encode_text_to_tetragrams(input: &str) -> (r: String)
    ensures
        spells(r@, universal_digits(input.spec_bytes())),
{
    encode_universal_to_tetragrams(input.as_bytes())
}

/// Decodes a symbol stream with the universal codec and reads the bytes as
/// UTF-8 text.
pub fn decode_tetragrams_to_text(input: &str) -> (r: Result<String, CodecError>)
    ensures
        match r {
            Ok(text) => {
                &&& universal_decodes(input@)
                &&& valid_utf8(decoded_bytes(input@))
                &&& text@ == decode_utf8(decoded_bytes(input@))
            },
            Err(CodecError::InvalidUtf8) => {
                universal_decodes(input@) && !valid_utf8(decoded_bytes(input@))
            },
            Err(e) => universal_decode_fails_with(input@, e),
        },
{
    let bytes = decode_tetragrams_to_bytes(input)?;
    match string_from_utf8(bytes) {
        Some(text) => Ok(text),
        None => Err(CodecError::InvalidUtf8),
    }
}

/// Encodes a decimal number with the universal codec.
pub fn encode_number_to_tetragrams(input: &str) -> (r: Result<String, CodecError>)
    ensures
        match r {
            Ok(s) => parse_decimal(input@) matches Some(n) && spells(s@, value_digits(n)),
            Err(e) => parse_decimal(input@) is None && e == CodecError::UnparseableNumber,
        },
{
    match parse_decimal_le(input) {
        Some(bytes) => Ok(encode_universal_to_tetragrams(bytes.as_slice())),
        None => Err(CodecError::UnparseableNumber),
    }
}

/// Decodes a symbol stream with the universal codec and writes the number
/// in decimal.
pub fn decode_tetragrams_to_number(input: &str) -> (r: Result<String, CodecError>)
    ensures
        match r {
            Ok(s) => {
                &&& universal_decodes(input@)
                &&& s@ == decimal_digits(le_value(symbol_digits(input@), 81))
            },
            Err(e) => universal_decode_fails_with(input@, e),
        },
{
    let bytes = decode_tetragrams_to_bytes(input)?;
    proof {
        lemma_digits_of_value(le_value(symbol_digits(input@), 81), 256);
    }
    Ok(decimal_of_le(&bytes))
}

} // verus!
