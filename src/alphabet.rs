//! The tetragram alphabet: 81 consecutive code points, each standing for the
//! digit given by its offset from the first one.

use vstd::prelude::*;

verus! {

/// Code point of the symbol for digit 0.
pub const GLYPH_BASE: u32 = 0x1D306;

/// Number of symbols in the alphabet.
pub const ALPHABET_SIZE: u32 = 81;

/// Whether `c` is one of the 81 symbols.
pub open spec fn is_symbol(c: char) -> bool {
    GLYPH_BASE <= (c as u32) && (c as u32) < GLYPH_BASE + ALPHABET_SIZE
}

/// The digit that a symbol stands for.
pub open spec fn digit_of(c: char) -> u8
    recommends
        is_symbol(c),
{
    ((c as u32) - GLYPH_BASE) as u8
}

/// `s` is the symbol string that spells the digits `d`, one symbol per digit.
pub open spec fn spells(s: Seq<char>, d: Seq<u8>) -> bool {
    &&& s.len() == d.len()
    &&& forall|i: int| 0 <= i < d.len() ==> (s[i] as u32) == GLYPH_BASE + d[i] as u32
}

/// Relies on `char::from_u32`: `Some` exactly for the Unicode scalar values,
/// holding the character with that code point.
#[verifier::external_body]
fn char_from_u32(v: u32) -> (r: Option<char>)
    ensures
        r is Some <==> (v < 0xD800 || (0xE000 <= v && v <= 0x10FFFF)),
        r matches Some(c) ==> c as u32 == v,
{
    char::from_u32(v)
}

/// Relies on `String::push`: appends one character.
#[verifier::external_body]
pub(crate) fn push_char(s: &mut String, c: char)
    ensures
        final(s)@ == old(s)@.push(c),
{
    s.push(c)
}

/// Whether `c` has the Unicode `White_Space` property.
pub uninterp spec fn white_space(c: char) -> bool;

/// Relies on `char::is_whitespace`: the answer depends on the character alone.
#[verifier::external_body]
pub(crate) fn is_white_space(c: char) -> (r: bool)
    ensures
        r == white_space(c),
{
    c.is_whitespace()
}

/// The characters of `s`, in order.
pub fn chars_of(s: &str) -> (r: Vec<char>)
    ensures
        r@ == s@,
{
    let mut v: Vec<char> = Vec::new();
    for c in it: s.chars()
        invariant
            v@ == it.seq().subrange(0, it.index() as int),
            it.seq() == s@,
    {
        v.push(c);
    }
    v
}

/// The symbol for a digit below 81.
pub fn symbol_for_digit(d: u8) -> (c: char)
    requires
        d < 81,
    ensures
        c as u32 == GLYPH_BASE + d as u32,
        is_symbol(c),
        digit_of(c) == d,
{
    match char_from_u32(GLYPH_BASE + d as u32) {
        Some(c) => c,
        None => {
            assert(false);
            '\u{1D306}'
        },
    }
}

/// The digit of `c` when it is a symbol.
pub fn symbol_digit(c: char) -> (r: Option<u8>)
    ensures
        r is Some <==> is_symbol(c),
        r matches Some(d) ==> d == digit_of(c) && d < 81,
{
    let code = c as u32;
    if GLYPH_BASE <= code && code < GLYPH_BASE + ALPHABET_SIZE {
        Some((code - GLYPH_BASE) as u8)
    } else {
        None
    }
}

/// The string of symbols that spells `digits`.
pub fn symbols_from_digits(digits: &Vec<u8>) -> (r: String)
    requires
        forall|i: int| 0 <= i < digits.len() ==> digits[i] < 81,
    ensures
        spells(r@, digits@),
{
    let mut s = String::new();
    let mut i: usize = 0;
    while i < digits.len()
        invariant
            i <= digits.len(),
            forall|k: int| 0 <= k < digits.len() ==> digits[k] < 81,
            spells(s@, digits@.subrange(0, i as int)),
        decreases digits.len() - i,
    {
        let c = symbol_for_digit(digits[i]);
        push_char(&mut s, c);
        i = i + 1;
    }
    assert(digits@.subrange(0, i as int) =~= digits@);
    s
}

/// The digits of the symbols of `s`, in order; other characters are skipped.
pub open spec fn symbol_digits(s: Seq<char>) -> Seq<u8>
    decreases s.len(),
{
    if s.len() == 0 {
        seq![]
    } else if is_symbol(s.last()) {
        symbol_digits(s.drop_last()).push(digit_of(s.last()))
    } else {
        symbol_digits(s.drop_last())
    }
}

/// Every digit carried by a symbol is below 81.
pub proof fn lemma_symbol_digits_bound(s: Seq<char>)
    ensures
        forall|i: int| 0 <= i < symbol_digits(s).len() ==> symbol_digits(s)[i] < 81,
    decreases s.len(),
{
    if s.len() > 0 {
        lemma_symbol_digits_bound(s.drop_last());
        let p = symbol_digits(s.drop_last());
        if is_symbol(s.last()) {
            assert(digit_of(s.last()) < 81);
            assert forall|i: int| 0 <= i < p.len() + 1 implies #[trigger] p.push(
                digit_of(s.last()),
            )[i] < 81 by {
                if i < p.len() {
                    assert(p.push(digit_of(s.last()))[i] == p[i]);
                }
            }
        }
    }
}

/// A string that spells digits below 81 consists of symbols that carry
/// exactly those digits.
pub proof fn lemma_spelled_digits(s: Seq<char>, d: Seq<u8>)
    requires
        spells(s, d),
        forall|i: int| 0 <= i < d.len() ==> d[i] < 81,
    ensures
        forall|i: int| 0 <= i < s.len() ==> is_symbol(s[i]),
        symbol_digits(s) == d,
    decreases s.len(),
{
    if s.len() > 0 {
        let n = s.len() - 1;
        assert(spells(s.drop_last(), d.drop_last()));
        lemma_spelled_digits(s.drop_last(), d.drop_last());
        assert((s[n] as u32) == GLYPH_BASE + d[n] as u32);
        assert(is_symbol(s.last()));
        assert(digit_of(s.last()) == d[n]);
        assert(d.drop_last().push(d[n]) =~= d);
        assert forall|i: int| 0 <= i < s.len() implies is_symbol(s[i]) by {
            if i < n {
                assert(s.drop_last()[i] == s[i]);
            }
        }
    }
}

} // verus!
