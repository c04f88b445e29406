//! Arbitrary-precision unsigned integers held as little-endian byte vectors.
//!
//! The arithmetic itself is done by `num_bigint::BigUint`; this module states
//! what each operation computes over the mathematical value of the bytes.

use num_bigint::BigUint;
use num_integer::Integer;
use num_traits::ToPrimitive;
use vstd::arithmetic::div_mod::{
    lemma_div_decreases, lemma_fundamental_div_mod, lemma_fundamental_div_mod_converse,
};
use vstd::prelude::*;

verus! {

/// The value of a little-endian digit sequence in the given base.
pub open spec fn le_value(d: Seq<u8>, base: nat) -> nat
    decreases d.len(),
{
    if d.len() == 0 {
        0
    } else {
        d[0] as nat + base * le_value(d.drop_first(), base)
    }
}

/// The digits of `n` in the given base, least significant first, with no
/// most-significant zero digit (so zero has no digits at all).
pub open spec fn digits_of(n: nat, base: nat) -> Seq<u8>
    decreases n,
{
    if n == 0 || base < 2 || base > 256 {
        seq![]
    } else {
        proof {
            lemma_div_decreases(n as int, base as int);
        }
        seq![(n % base) as u8] + digits_of(n / base, base)
    }
}

/// The character of a decimal digit.
pub open spec fn digit_char(d: nat) -> char {
    ((48 + d) as u32) as char
}

/// `n` written in decimal, most significant digit first, without leading
/// zeros ("0" for zero).
pub open spec fn decimal_digits(n: nat) -> Seq<char>
    decreases n,
{
    if n < 10 {
        seq![digit_char(n)]
    } else {
        decimal_digits(n / 10).push(digit_char(n % 10))
    }
}

/// Whether `c` is one of `0` to `9`.
pub open spec fn is_decimal_digit(c: char) -> bool {
    '0' <= c && c <= '9'
}

/// The value of the digits of `s`, read in decimal; underscores are skipped.
pub open spec fn decimal_value(s: Seq<char>) -> nat
    decreases s.len(),
{
    if s.len() == 0 {
        0
    } else if s.last() == '_' {
        decimal_value(s.drop_last())
    } else {
        decimal_value(s.drop_last()) * 10 + ((s.last() as u32) - 48) as nat
    }
}

/// The number that `s` writes in decimal: an optional `+`, then a digit,
/// then digits and underscores.
pub open spec fn parse_decimal(s: Seq<char>) -> Option<nat> {
    let t = if s.len() > 0 && s[0] == '+' {
        s.drop_first()
    } else {
        s
    };
    if t.len() > 0 && is_decimal_digit(t[0]) && forall|i: int|
        0 <= i < t.len() ==> is_decimal_digit(#[trigger] t[i]) || t[i] == '_' {
        Some(decimal_value(t))
    } else {
        None
    }
}

/// Relies on `FromStr` for `num_bigint::BigUint` (base 10) and
/// `BigUint::to_bytes_le`: the little-endian bytes of the number that `s`
/// writes, or `None` where `s` is not such a number.
#[verifier::external_body]
pub(crate) fn parse_decimal_le(s: &str) -> (r: Option<Vec<u8>>)
    ensures
        r is Some <==> parse_decimal(s@) is Some,
        r matches Some(b) ==> parse_decimal(s@) == Some(le_value(b@, 256)),
{
    match s.parse::<BigUint>() {
        Ok(n) => Some(n.to_bytes_le()),
        Err(_) => None,
    }
}

/// Relies on `BigUint::from_bytes_le` and `BigUint::to_str_radix` (base 10):
/// the number held in `b`, in decimal.
#[verifier::external_body]
pub(crate) fn decimal_of_le(b: &Vec<u8>) -> (r: String)
    ensures
        r@ == decimal_digits(le_value(b@, 256)),
{
    BigUint::from_bytes_le(b).to_str_radix(10)
}

/// Relies on `Integer::div_rem` of `num_bigint::BigUint`: the quotient and the
/// remainder of the value of `n` divided by `d`.
#[verifier::external_body]
pub(crate) fn div_rem_small(n: &Vec<u8>, d: u8) -> (r: (Vec<u8>, u8))
    requires
        d > 0,
    ensures
        le_value(r.0@, 256) == le_value(n@, 256) / (d as nat),
        r.1 as nat == le_value(n@, 256) % (d as nat),
{
    let (q, rem) = BigUint::from_bytes_le(n).div_rem(&BigUint::from(d));
    (q.to_bytes_le(), rem.to_u8().unwrap())
}

/// Relies on `BigUint`'s `*` by a `u8`: the value of `n` times `m`.
#[verifier::external_body]
pub(crate) fn mul_small(n: &Vec<u8>, m: u8) -> (r: Vec<u8>)
    ensures
        le_value(r@, 256) == le_value(n@, 256) * (m as nat),
{
    (BigUint::from_bytes_le(n) * m).to_bytes_le()
}

/// Relies on `BigUint`'s `+` of a `u8`: the value of `n` plus `a`.
#[verifier::external_body]
pub(crate) fn add_small(n: &Vec<u8>, a: u8) -> (r: Vec<u8>)
    ensures
        le_value(r@, 256) == le_value(n@, 256) + (a as nat),
{
    (BigUint::from_bytes_le(n) + a).to_bytes_le()
}

/// A byte sequence has value zero exactly when every byte is zero.
pub proof fn lemma_le_value_zero(d: Seq<u8>, base: nat)
    requires
        base > 0,
    ensures
        (le_value(d, base) == 0) <==> (forall|i: int| 0 <= i < d.len() ==> d[i] == 0),
    decreases d.len(),
{
    if d.len() > 0 {
        lemma_le_value_zero(d.drop_first(), base);
        assert(le_value(d, base) == d[0] as nat + base * le_value(d.drop_first(), base));
        if le_value(d.drop_first(), base) > 0 {
            assert(base * le_value(d.drop_first(), base) > 0) by (nonlinear_arith)
                requires base > 0, le_value(d.drop_first(), base) > 0;
        }
        if forall|i: int| 0 <= i < d.len() ==> d[i] == 0 {
            assert forall|i: int| 0 <= i < d.drop_first().len() implies d.drop_first()[i] == 0 by {
                assert(d.drop_first()[i] == d[i + 1]);
            }
        }
        if le_value(d, base) == 0 {
            assert forall|i: int| 0 <= i < d.len() implies d[i] == 0 by {
                if i > 0 {
                    assert(d.drop_first()[i - 1] == d[i]);
                }
            }
        }
    }
}

/// Whether the little-endian number held in `n` is zero.
pub fn is_zero_le(n: &Vec<u8>) -> (r: bool)
    ensures
        r == (le_value(n@, 256) == 0),
{
    let mut i: usize = 0;
    while i < n.len()
        invariant
            i <= n.len(),
            forall|j: int| 0 <= j < i ==> n@[j] == 0,
        decreases n.len() - i,
    {
        if n[i] != 0 {
            proof {
                lemma_le_value_zero(n@, 256);
                assert(n@[i as int] != 0);
            }
            return false;
        }
        i = i + 1;
    }
    proof {
        lemma_le_value_zero(n@, 256);
    }
    true
}

/// Every digit is below the base.
pub proof fn lemma_digits_of_bound(n: nat, base: nat)
    ensures
        forall|i: int| 0 <= i < digits_of(n, base).len() ==> digits_of(n, base)[i] < base,
    decreases n,
{
    if n != 0 && 2 <= base <= 256 {
        lemma_digits_of_unfold(n, base);
        lemma_digits_of_bound(n / base, base);
        let d = digits_of(n, base);
        assert forall|i: int| 0 <= i < d.len() implies d[i] < base by {
            if i > 0 {
                assert(d[i] == digits_of(n / base, base)[i - 1]);
            }
        }
    }
}

/// A non-zero number's first digit is its remainder by the base.
pub proof fn lemma_digits_of_unfold(n: nat, base: nat)
    requires
        n != 0,
        2 <= base <= 256,
    ensures
        digits_of(n, base) == seq![(n % base) as u8] + digits_of(n / base, base),
        digits_of(n, base).len() > 0,
{
}

/// A most-significant zero digit does not change the value.
pub proof fn lemma_le_value_push_zero(d: Seq<u8>, base: nat)
    ensures
        le_value(d.push(0u8), base) == le_value(d, base),
    decreases d.len(),
{
    let e = d.push(0u8);
    if d.len() == 0 {
        assert(e.drop_first() =~= Seq::<u8>::empty());
        assert(le_value(e.drop_first(), base) == 0);
        assert(le_value(e, base) == e[0] as nat + base * 0);
    } else {
        assert(e.drop_first() =~= d.drop_first().push(0u8));
        lemma_le_value_push_zero(d.drop_first(), base);
        assert(e[0] == d[0]);
        assert(le_value(e, base) == e[0] as nat + base * le_value(e.drop_first(), base));
    }
}

/// Any run of most-significant zero digits leaves the value unchanged.
pub proof fn lemma_le_value_zero_tail(d: Seq<u8>, n: nat, base: nat)
    ensures
        le_value(d + Seq::new(n, |i: int| 0u8), base) == le_value(d, base),
    decreases n,
{
    if n == 0 {
        assert(d + Seq::new(0, |i: int| 0u8) =~= d);
    } else {
        let m = (n - 1) as nat;
        lemma_le_value_zero_tail(d, m, base);
        assert(d + Seq::new(n, |i: int| 0u8) =~= (d + Seq::new(m, |i: int| 0u8)).push(0u8));
        lemma_le_value_push_zero(d + Seq::new(m, |i: int| 0u8), base);
    }
}

/// Writing a number out in digits and reading them back gives the number.
pub proof fn lemma_digits_of_value(n: nat, base: nat)
    requires
        2 <= base <= 256,
    ensures
        le_value(digits_of(n, base), base) == n,
    decreases n,
{
    if n != 0 {
        lemma_div_decreases(n as int, base as int);
        lemma_digits_of_value(n / base, base);
        lemma_fundamental_div_mod(n as int, base as int);
        let d = digits_of(n, base);
        assert(d.drop_first() =~= digits_of(n / base, base));
    }
}

/// A digit sequence without a most-significant zero is the digit sequence of
/// its own value.
pub proof fn lemma_digits_of_canonical(v: Seq<u8>, base: nat)
    requires
        2 <= base <= 256,
        v.len() == 0 || v.last() != 0,
        forall|i: int| 0 <= i < v.len() ==> v[i] < base,
    ensures
        digits_of(le_value(v, base), base) == v,
    decreases v.len(),
{
    if v.len() > 0 {
        let n = le_value(v, base);
        let rest = v.drop_first();
        lemma_le_value_zero(v, base);
        assert(v[v.len() - 1] != 0);
        assert(n != 0);
        assert(n == le_value(rest, base) * base + v[0] as nat) by (nonlinear_arith)
            requires n == v[0] as nat + base * le_value(rest, base);
        lemma_fundamental_div_mod_converse(
            n as int,
            base as int,
            le_value(rest, base) as int,
            v[0] as int,
        );
        assert(rest.len() == 0 || rest.last() == v.last());
        lemma_digits_of_canonical(rest, base);
        assert(digits_of(n, base) =~= seq![v[0]] + rest);
        assert(seq![v[0]] + rest =~= v);
    }
}

/// The canonical little-endian bytes of the number held in `v`: `v` without
/// its most-significant zero bytes.
pub fn trim_high_zeros(v: Vec<u8>) -> (r: Vec<u8>)
    ensures
        r@ == digits_of(le_value(v@, 256), 256),
{
    let ghost n = le_value(v@, 256);
    let mut v = v;
    while v.len() > 0 && v[v.len() - 1] == 0
        invariant
            le_value(v@, 256) == n,
        decreases v.len(),
    {
        proof {
            lemma_le_value_push_zero(v@.drop_last(), 256);
            assert(v@.drop_last().push(0u8) =~= v@);
        }
        v.pop();
    }
    proof {
        lemma_digits_of_canonical(v@, 256);
    }
    v
}

} // verus!
