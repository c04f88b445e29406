//! The direct trit codec: each byte becomes its base-3 digits as balanced
//! trits (digit 2 written as -1), at least four per byte, and each trit one of
//! three fixed symbols.

use vstd::prelude::*;
use vstd::string::StringSliceAdditionalSpecFns;
use vstd::utf8::{
    decode_utf8, encode_utf8, encode_utf8_decode_utf8, encode_utf8_valid_utf8, valid_utf8,
};
use crate::alphabet::{
    chars_of, lemma_spelled_digits, spells, symbol_digit, symbol_digits, symbols_from_digits,
};
use crate::bignum::{
    digits_of, le_value, lemma_digits_of_bound, lemma_digits_of_unfold, lemma_digits_of_value,
    lemma_le_value_zero_tail,
};
use crate::error::CodecError;
use crate::text::string_from_utf8;

verus! {

/// Number of trits that one byte occupies at the least.
pub const TRITS_PER_BYTE: usize = 4;

/// A trit is -1, 0 or +1.
pub open spec fn is_trit(t: i8) -> bool {
    -1 <= t && t <= 1
}

/// Every element of `t` is a trit.
pub open spec fn all_trits(t: Seq<i8>) -> bool {
    forall|i: int| 0 <= i < t.len() ==> is_trit(t[i])
}

/// The trit written for a base-3 digit.
pub open spec fn trit_of_digit(d: u8) -> i8 {
    if d == 2 {
        -1i8
    } else {
        d as i8
    }
}

/// The base-3 digit that a trit stands for.
pub open spec fn digit_of_trit(t: i8) -> u8 {
    if t == -1 {
        2u8
    } else {
        t as u8
    }
}

/// The alphabet index of the symbol written for a trit.
pub open spec fn symbol_index_of_trit(t: i8) -> u8 {
    if t == -1 {
        0u8
    } else if t == 0 {
        27u8
    } else {
        54u8
    }
}

/// The trit read from a symbol's index: the lower, middle and upper thirds of
/// the alphabet stand for -1, 0 and +1.
pub open spec fn trit_of_symbol_index(i: u8) -> i8 {
    if i < 27 {
        -1i8
    } else if i < 54 {
        0i8
    } else {
        1i8
    }
}

/// How many trits a byte with `n` base-3 digits occupies: at least four, and a
/// multiple of four.
pub open spec fn trit_width(n: nat) -> nat {
    if n <= 4 {
        4
    } else {
        n + (if n % 4 == 0 { 0nat } else { (4 - n % 4) as nat })
    }
}

/// The trits of one byte: its base-3 digits, least significant first, as
/// trits, padded with zero trits to its width.
pub open spec fn byte_trits(b: u8) -> Seq<i8> {
    let d = digits_of(b as nat, 3);
    d.map_values(|x: u8| trit_of_digit(x)) + Seq::new(
        (trit_width(d.len()) - d.len()) as nat,
        |i: int| 0i8,
    )
}

/// The trits of a byte sequence: the trits of each byte, in order.
pub open spec fn bytes_trits(b: Seq<u8>) -> Seq<i8>
    decreases b.len(),
{
    if b.len() == 0 {
        seq![]
    } else {
        bytes_trits(b.drop_last()) + byte_trits(b.last())
    }
}

/// The alphabet indices of the symbols that spell `t`.
pub open spec fn trit_symbol_indices(t: Seq<i8>) -> Seq<u8> {
    t.map_values(|x: i8| symbol_index_of_trit(x))
}

/// The trits read from the symbols of `s`; other characters are skipped.
pub open spec fn symbol_trits(s: Seq<char>) -> Seq<i8> {
    symbol_digits(s).map_values(|i: u8| trit_of_symbol_index(i))
}

/// The byte read from the group of four trits that starts at `4 * k`: the
/// trits are base-3 digits, least significant first.
pub open spec fn group_value(t: Seq<i8>, k: int) -> u8 {
    (digit_of_trit(t[4 * k]) + 3 * digit_of_trit(t[4 * k + 1]) + 9 * digit_of_trit(t[4 * k + 2])
        + 27 * digit_of_trit(t[4 * k + 3])) as u8
}

/// The bytes read from a trit sequence, four trits per byte.
pub open spec fn trits_bytes(t: Seq<i8>) -> Seq<u8> {
    Seq::new(t.len() / 4, |k: int| group_value(t, k))
}

/// Maps trits to symbols.
pub fn encode_trits_to_tetragrams_direct(trits: &[i8]) -> (r: String)
    requires
        forall|i: int| 0 <= i < trits@.len() ==> is_trit(trits@[i]),
    ensures
        spells(r@, trit_symbol_indices(trits@)),
{
    let mut indices: Vec<u8> = Vec::new();
    let mut i: usize = 0;
    while i < trits.len()
        invariant
            i <= trits@.len(),
            forall|k: int| 0 <= k < trits@.len() ==> is_trit(trits@[k]),
            indices@ == trit_symbol_indices(trits@.subrange(0, i as int)),
            forall|k: int| 0 <= k < indices.len() ==> indices[k] < 81,
        decreases trits@.len() - i,
    {
        let t = trits[i];
        let index: u8 = if t == -1 {
            0
        } else if t == 0 {
            27
        } else {
            54
        };
        indices.push(index);
        i = i + 1;
        assert(indices@ =~= trit_symbol_indices(trits@.subrange(0, i as int)));
    }
    assert(trits@.subrange(0, i as int) =~= trits@);
    symbols_from_digits(&indices)
}

/// Reads the trits from a string of symbols; characters that are not
/// symbols are skipped.
pub fn decode_tetragrams_to_trits_direct(tetragrams: &str) -> (r: Vec<i8>)
    ensures
        r@ == symbol_trits(tetragrams@),
        forall|i: int| 0 <= i < r@.len() ==> is_trit(r@[i]),
{
    let chars = chars_of(tetragrams);
    let mut trits: Vec<i8> = Vec::new();
    let mut i: usize = 0;
    while i < chars.len()
        invariant
            i <= chars.len(),
            chars@ == tetragrams@,
            trits@ == symbol_trits(chars@.subrange(0, i as int)),
            forall|k: int| 0 <= k < trits@.len() ==> is_trit(trits@[k]),
        decreases chars.len() - i,
    {
        let c = chars[i];
        let ghost pre = chars@.subrange(0, i as int);
        assert(chars@.subrange(0, i + 1).drop_last() =~= pre);
        match symbol_digit(c) {
            Some(index) => {
                let t: i8 = if index < 27 {
                    -1
                } else if index < 54 {
                    0
                } else {
                    1
                };
                trits.push(t);
            },
            None => {},
        }
        i = i + 1;
        assert(trits@ =~= symbol_trits(chars@.subrange(0, i as int)));
    }
    assert(chars@.subrange(0, i as int) =~= chars@);
    trits
}

proof fn lemma_byte_trits(b: u8)
    ensures
        all_trits(byte_trits(b)),
        byte_trits(b).len() % 4 == 0,
        byte_trits(b).len() >= 4,
{
    let d = digits_of(b as nat, 3);
    lemma_digits_of_bound(b as nat, 3);
    let t = byte_trits(b);
    assert forall|i: int| 0 <= i < t.len() implies is_trit(t[i]) by {
        if i < d.len() {
            assert(d[i] < 3);
        }
    }
}

/// Appends the trits of one byte.
fn push_byte_trits(trits: &mut Vec<i8>, b: u8)
    ensures
        final(trits)@ == old(trits)@ + byte_trits(b),
{
    let ghost start = trits@;
    let ghost all = digits_of(b as nat, 3);
    let start_len = trits.len();
    let mut v: u8 = b;
    let ghost mut done: Seq<u8> = seq![];
    while v > 0
        invariant
            done + digits_of(v as nat, 3) == all,
            trits@ == start + done.map_values(|x: u8| trit_of_digit(x)),
            start_len == start.len(),
        decreases v,
    {
        let r = v % 3;
        let t: i8 = if r == 2 {
            -1
        } else {
            r as i8
        };
        trits.push(t);
        proof {
            lemma_digits_of_unfold(v as nat, 3);
            assert(done.push(r) + digits_of((v / 3) as nat, 3) =~= done + digits_of(v as nat, 3));
            assert(start + done.push(r).map_values(|x: u8| trit_of_digit(x)) =~= trits@);
            done = done.push(r);
        }
        v = v / 3;
    }
    assert(done + digits_of(0, 3) =~= done);
    proof {
        lemma_digits_of_bound(b as nat, 3);
        assert(3 * 3 * 3 * 3 * 3 * 3 > b);
    }
    let ghost width = trit_width(all.len());
    while trits.len() - start_len < 4 || (trits.len() - start_len) % 4 != 0
        invariant
            start_len == start.len(),
            start_len + all.len() <= trits.len() <= start_len + width,
            width == trit_width(all.len()),
            width % 4 == 0,
            trits@ =~= start + all.map_values(|x: u8| trit_of_digit(x)) + Seq::new(
                (trits.len() - start_len - all.len()) as nat,
                |i: int| 0i8,
            ),
        decreases start_len + width - trits.len(),
    {
        trits.push(0);
    }
    assert(trits@ =~= start + byte_trits(b));
}

/// The trits of the UTF-8 bytes of `text`.
pub fn text_to_trits(text: &str) -> (r: Vec<i8>)
    ensures
        r@ == bytes_trits(text.spec_bytes()),
        forall|i: int| 0 <= i < r@.len() ==> is_trit(r@[i]),
{
    let bytes = text.as_bytes();
    let mut trits: Vec<i8> = Vec::new();
    let mut i: usize = 0;
    while i < bytes.len()
        invariant
            i <= bytes@.len(),
            bytes@ == text.spec_bytes(),
            trits@ == bytes_trits(bytes@.subrange(0, i as int)),
            forall|k: int| 0 <= k < trits@.len() ==> is_trit(trits@[k]),
        decreases bytes@.len() - i,
    {
        let ghost before = trits@;
        push_byte_trits(&mut trits, bytes[i]);
        proof {
            lemma_byte_trits(bytes@[i as int]);
            assert(bytes@.subrange(0, i + 1).drop_last() =~= bytes@.subrange(0, i as int));
            assert forall|k: int| 0 <= k < trits@.len() implies is_trit(trits@[k]) by {
                if k >= before.len() {
                    assert(trits@[k] == byte_trits(bytes@[i as int])[k - before.len()]);
                }
            }
        }
        i = i + 1;
    }
    assert(bytes@.subrange(0, i as int) =~= bytes@);
    trits
}

/// Reads bytes from trits, four trits per byte (least significant first),
/// and the bytes as UTF-8 text.
pub fn trits_to_text(trits: &[i8]) -> (r: Result<String, CodecError>)
    requires
        forall|i: int| 0 <= i < trits@.len() ==> is_trit(trits@[i]),
    ensures
        match r {
            Ok(text) => {
                &&& trits@.len() % 4 == 0
                &&& valid_utf8(trits_bytes(trits@))
                &&& text@ == decode_utf8(trits_bytes(trits@))
            },
            Err(CodecError::MalformedTritStream { count }) => {
                count == trits@.len() && trits@.len() % 4 != 0
            },
            Err(CodecError::InvalidUtf8) => {
                trits@.len() % 4 == 0 && !valid_utf8(trits_bytes(trits@))
            },
            Err(_) => false,
        },
{
    if trits.len() % TRITS_PER_BYTE != 0 {
        return Err(CodecError::MalformedTritStream { count: trits.len() });
    }
    let groups = trits.len() / TRITS_PER_BYTE;
    let mut bytes: Vec<u8> = Vec::new();
    let mut k: usize = 0;
    while k < groups
        invariant
            groups == trits@.len() / 4,
            trits@.len() % 4 == 0,
            trits@.len() <= usize::MAX,
            k <= groups,
            forall|i: int| 0 <= i < trits@.len() ==> is_trit(trits@[i]),
            bytes@ =~= trits_bytes(trits@).subrange(0, k as int),
        decreases groups - k,
    {
        assert(4 * k + 4 <= trits@.len()) by (nonlinear_arith)
            requires
                k < groups,
                groups == trits@.len() / 4,
        ;
        let base = 4 * k;
        let mut value: u8 = 0;
        let mut j: usize = 4;
        while j > 0
            invariant
                base == 4 * k,
                k < groups,
                groups == trits@.len() / 4,
                j <= 4,
                forall|i: int| 0 <= i < trits@.len() ==> is_trit(trits@[i]),
                value as int == (if j == 0 {
                    group_value(trits@, k as int) as int
                } else if j == 1 {
                    digit_of_trit(trits@[4 * k + 1]) + 3 * digit_of_trit(trits@[4 * k + 2]) + 9
                        * digit_of_trit(trits@[4 * k + 3])
                } else if j == 2 {
                    digit_of_trit(trits@[4 * k + 2]) + 3 * digit_of_trit(trits@[4 * k + 3])
                } else if j == 3 {
                    digit_of_trit(trits@[4 * k + 3]) as int
                } else {
                    0
                }),
            decreases j,
        {
            j = j - 1;
            let t = trits[base + j];
            let digit: u8 = if t == -1 {
                2
            } else {
                t as u8
            };
            value = value * 3 + digit;
        }
        bytes.push(value);
        k = k + 1;
    }
    assert(trits_bytes(trits@).subrange(0, groups as int) =~= trits_bytes(trits@));
    match string_from_utf8(bytes) {
        Some(text) => Ok(text),
        None => Err(CodecError::InvalidUtf8),
    }
}

/// Encodes text with the direct trit codec.
pub fn encode_text_to_tetragrams_direct(input: &str) -> (r: String)
    ensures
        spells(r@, trit_symbol_indices(bytes_trits(input.spec_bytes()))),
{
    let trits = text_to_trits(input);
    encode_trits_to_tetragrams_direct(trits.as_slice())
}

/// Decodes text written with the direct trit codec.
pub fn decode_tetragrams_to_text_direct(input: &str) -> (r: Result<String, CodecError>)
    ensures
        match r {
            Ok(text) => {
                &&& symbol_trits(input@).len() % 4 == 0
                &&& valid_utf8(trits_bytes(symbol_trits(input@)))
                &&& text@ == decode_utf8(trits_bytes(symbol_trits(input@)))
            },
            Err(CodecError::MalformedTritStream { count }) => {
                count == symbol_trits(input@).len() && count % 4 != 0
            },
            Err(CodecError::InvalidUtf8) => {
                &&& symbol_trits(input@).len() % 4 == 0
                &&& !valid_utf8(trits_bytes(symbol_trits(input@)))
            },
            Err(_) => false,
        },
{
    let trits = decode_tetragrams_to_trits_direct(input);
    trits_to_text(trits.as_slice())
}

/// `3` to the power `k`.
pub open spec fn pow3(k: nat) -> nat
    decreases k,
{
    if k == 0 {
        1
    } else {
        3 * pow3((k - 1) as nat)
    }
}

proof fn lemma_few_digits(n: nat, k: nat)
    requires
        n < pow3(k),
    ensures
        digits_of(n, 3).len() <= k,
    decreases k,
{
    if n != 0 {
        lemma_digits_of_unfold(n, 3);
        lemma_few_digits(n / 3, (k - 1) as nat);
    }
}

/// A byte below 81 takes exactly four trits, whose base-3 value is the byte.
proof fn lemma_small_byte_group(v: u8)
    requires
        v < 81,
    ensures
        byte_trits(v).len() == 4,
        all_trits(byte_trits(v)),
        digit_of_trit(byte_trits(v)[0]) + 3 * digit_of_trit(byte_trits(v)[1]) + 9 * digit_of_trit(
            byte_trits(v)[2],
        ) + 27 * digit_of_trit(byte_trits(v)[3]) == v,
{
    let d = digits_of(v as nat, 3);
    assert(pow3(0) == 1);
    assert(pow3(1) == 3);
    assert(pow3(2) == 9);
    assert(pow3(3) == 27);
    assert(pow3(4) == 81);
    lemma_few_digits(v as nat, 4);
    lemma_digits_of_bound(v as nat, 3);
    lemma_digits_of_value(v as nat, 3);
    lemma_byte_trits(v);
    let z = (4 - d.len()) as nat;
    let p = d + Seq::new(z, |i: int| 0u8);
    lemma_le_value_zero_tail(d, z, 3);
    let t = byte_trits(v);
    assert forall|j: int| 0 <= j < 4 implies digit_of_trit(#[trigger] t[j]) == p[j] by {
        if j < d.len() {
            assert(d[j] < 3);
        }
    }
    assert(p.drop_first().drop_first().drop_first().drop_first() =~= Seq::<u8>::empty());
    assert(le_value(p, 3) == p[0] + 3 * le_value(p.drop_first(), 3));
    assert(le_value(p.drop_first(), 3) == p[1] + 3 * le_value(p.drop_first().drop_first(), 3));
    assert(le_value(p.drop_first().drop_first(), 3) == p[2] + 3 * le_value(
        p.drop_first().drop_first().drop_first(),
        3,
    ));
    assert(le_value(p.drop_first().drop_first().drop_first(), 3) == p[3] + 3 * le_value(
        p.drop_first().drop_first().drop_first().drop_first(),
        3,
    ));
}

/// The trits of bytes below 81 come four to a byte, in order.
proof fn lemma_small_bytes_trits(b: Seq<u8>)
    requires
        forall|i: int| 0 <= i < b.len() ==> b[i] < 81,
    ensures
        bytes_trits(b).len() == 4 * b.len(),
        all_trits(bytes_trits(b)),
        forall|k: int, j: int|
            0 <= k < b.len() && 0 <= j < 4 ==> #[trigger] bytes_trits(b)[4 * k + j] == byte_trits(
                b[k],
            )[j],
    decreases b.len(),
{
    if b.len() > 0 {
        let init = b.drop_last();
        lemma_small_bytes_trits(init);
        lemma_small_byte_group(b.last());
        let t = bytes_trits(b);
        assert forall|k: int, j: int| 0 <= k < b.len() && 0 <= j < 4 implies #[trigger] t[4 * k
            + j] == byte_trits(b[k])[j] by {
            if k < init.len() {
                assert(t[4 * k + j] == bytes_trits(init)[4 * k + j]);
                assert(init[k] == b[k]);
            } else {
                assert(t[4 * k + j] == byte_trits(b.last())[j]);
            }
        }
        assert forall|i: int| 0 <= i < t.len() implies is_trit(t[i]) by {
            if i < 4 * init.len() {
                assert(t[i] == bytes_trits(init)[i]);
            } else {
                assert(t[i] == byte_trits(b.last())[i - 4 * init.len()]);
            }
        }
    }
}

/// Decoding the direct encoding of text gives back that text, wherever every
/// UTF-8 byte of the text is below 81 (and so takes exactly four trits).
pub proof fn lemma_direct_round_trip(text: Seq<char>, s: Seq<char>)
    requires
        forall|i: int| 0 <= i < encode_utf8(text).len() ==> encode_utf8(text)[i] < 81,
        spells(s, trit_symbol_indices(bytes_trits(encode_utf8(text)))),
    ensures
        symbol_trits(s).len() % 4 == 0,
        valid_utf8(trits_bytes(symbol_trits(s))),
        decode_utf8(trits_bytes(symbol_trits(s))) == text,
{
    let b = encode_utf8(text);
    let t = bytes_trits(b);
    lemma_small_bytes_trits(b);
    let idx = trit_symbol_indices(t);
    assert forall|i: int| 0 <= i < idx.len() implies idx[i] < 81 by {}
    lemma_spelled_digits(s, idx);
    assert(symbol_trits(s) =~= t) by {
        assert forall|i: int| 0 <= i < t.len() implies symbol_trits(s)[i] == t[i] by {
            assert(is_trit(t[i]));
        }
    }
    assert forall|k: int| 0 <= k < b.len() implies group_value(t, k) == b[k] by {
        lemma_small_byte_group(b[k]);
        assert(t[4 * k + 0] == byte_trits(b[k])[0]);
        assert(t[4 * k + 1] == byte_trits(b[k])[1]);
        assert(t[4 * k + 2] == byte_trits(b[k])[2]);
        assert(t[4 * k + 3] == byte_trits(b[k])[3]);
    }
    assert(trits_bytes(t) =~= b);
    encode_utf8_valid_utf8(text);
    encode_utf8_decode_utf8(text);
}

} // verus!
