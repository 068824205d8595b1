//! The entropy estimate of a password: half its length times the binary logarithm of its
//! alphabet size, rounded to the nearest integer.
//!
//! The estimate is stated and computed over the integers. For an alphabet of `n > 0` symbols
//! and a length `len`, an integer `e` is the rounded value of `len * log2(n) / 2` exactly when
//! `e - 1/2 <= len * log2(n) / 2 < e + 1/2`. Doubling and exponentiating gives
//! `2^(2e - 1) <= n^len < 2^(2e + 1)`, that is `4^e <= 2 * n^len < 4^(e + 1)`: the estimate is
//! the base-4 logarithm of `2 * n^len`, rounded down. A value that lies exactly half way
//! between two integers goes to the larger one.

use vstd::prelude::*;
use vstd::arithmetic::logarithm::log;
use vstd::arithmetic::power::{pow, lemma0_pow, lemma_pow0, lemma_pow_increases, lemma_pow_positive};
use vstd::arithmetic::power2::{lemma_pow2, lemma_pow2_pos, lemma_pow2_unfold};
use crate::charset::ClassSet;
use crate::natural::{bit_length, Natural};
use crate::power_log::{
    lemma_log_brackets,
    lemma_log_unique,
    lemma_pow4_is_pow2,
    lemma_pow_is_no_pow2,
};

verus! {

/// Whether `e` is `len * log2(alphabet) / 2` rounded to the nearest integer, halves going up.
pub open spec fn is_rounded_half_log2(e: nat, len: nat, alphabet: nat) -> bool {
    pow(4, e) <= 2 * pow(alphabet as int, len) < pow(4, e + 1)
}

/// The entropy estimate of a password of `len` characters drawn from `alphabet` symbols.
///
/// An empty alphabet has no logarithm; its estimate is 0.
pub open spec fn entropy_estimate(len: nat, alphabet: nat) -> nat {
    if alphabet == 0 {
        0
    } else {
        log(4, 2 * pow(alphabet as int, len)) as nat
    }
}

/// The estimate over a non-empty alphabet is the rounded value of `len * log2(alphabet) / 2`.
pub proof fn lemma_estimate_is_rounded(len: nat, alphabet: nat)
    requires
        alphabet > 0,
    ensures
        is_rounded_half_log2(entropy_estimate(len, alphabet), len, alphabet),
{
    lemma_pow_positive(alphabet as int, len);
    lemma_log_brackets(4, 2 * pow(alphabet as int, len));
}

/// Rounding is unambiguous: two integers that both are the rounded value of
/// `len * log2(alphabet) / 2` are equal.
pub proof fn lemma_rounding_is_unique(e1: nat, e2: nat, len: nat, alphabet: nat)
    requires
        is_rounded_half_log2(e1, len, alphabet),
        is_rounded_half_log2(e2, len, alphabet),
    ensures
        e1 == e2,
{
    if e1 < e2 {
        lemma_pow_increases(4, e1 + 1, e2);
    } else if e2 < e1 {
        lemma_pow_increases(4, e2 + 1, e1);
    }
}

/// Over a non-empty alphabet the rounded value of `len * log2(alphabet) / 2` is the estimate.
pub proof fn lemma_rounded_is_estimate(e: nat, len: nat, alphabet: nat)
    requires
        alphabet > 0,
        is_rounded_half_log2(e, len, alphabet),
    ensures
        e == entropy_estimate(len, alphabet),
{
    lemma_log_unique(4, 2 * pow(alphabet as int, len), e);
}

/// Over the alphabet of any classes, `len * log2(alphabet) / 2` never lies half way between
/// two integers, so that the estimate does not depend on where a half is rounded to.
///
/// The value is `e + 1/2` exactly when `2 * alphabet^len = 4^(e + 1)`. That asks for a power
/// of the alphabet size that is a power of 2 with an odd exponent, and each alphabet size that
/// the classes span has an odd divisor above 1.
pub proof fn lemma_rounding_meets_no_half(classes: ClassSet, len: nat, e: nat)
    ensures
        2 * pow(classes.alphabet() as int, len) != pow(4, e + 1),
{
    let n: int = classes.alphabet() as int;
    lemma_pow4_is_pow2(e + 1);
    lemma_pow2_unfold(2 * e + 2);
    lemma_pow2(2 * e + 1);
    lemma_pow2_unfold(2 * e + 1);
    lemma_pow2_pos(2 * e);
    if len == 0 {
        lemma_pow0(n);
    } else if n == 0 {
        lemma0_pow(len);
    } else {
        let d: int = if n % 5 == 0 {
            5
        } else if n % 13 == 0 {
            13
        } else if n % 3 == 0 {
            3
        } else if n % 31 == 0 {
            31
        } else {
            n
        };
        lemma_pow_is_no_pow2(n, d, len, 2 * e + 1);
    }
}

/// Half the number of binary digits of a positive number, rounded down, is the base-4
/// logarithm of its double.
pub proof fn lemma_half_bit_length(x: nat)
    requires
        x > 0,
    ensures
        bit_length(x) / 2 == log(4, 2 * (x as int)),
{
    let bits: nat = bit_length(x);
    let e: nat = bits / 2;
    lemma_log_brackets(2, x as int);
    lemma_pow2((bits - 1) as nat);
    lemma_pow2(bits);
    lemma_pow4_is_pow2(e);
    lemma_pow4_is_pow2(e + 1);
    lemma_pow2_unfold(2 * e + 2);
    lemma_pow2_unfold(2 * e + 1);
    if bits == 2 * e {
        lemma_pow2_unfold(2 * e);
    }
    lemma_log_unique(4, 2 * (x as int), e);
}

/// Estimates the entropy of a password of `len` characters drawn from `alphabet` symbols.
///
/// The power `alphabet^len` is computed exactly, and half the number of its binary digits is
/// the estimate. The power has about `len` times the digits of `alphabet`, so the time taken
/// grows with the square of `len`.
pub fn estimate(len: usize, alphabet: u32) -> (e: u128)
    ensures
        e == entropy_estimate(len as nat, alphabet as nat),
        alphabet == 0 ==> e == 0,
        alphabet > 0 ==> is_rounded_half_log2(e as nat, len as nat, alphabet as nat),
{
    if alphabet == 0 {
        return 0;
    }
    let power: Natural = Natural::power(alphabet as u64, len);
    let bits: u128 = power.bit_length();
    proof {
        lemma_pow_positive(alphabet as int, len as nat);
        lemma_half_bit_length(power@);
        lemma_estimate_is_rounded(len as nat, alphabet as nat);
    }
    bits / 2
}

} // verus!
