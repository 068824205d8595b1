//! Facts about integer powers and integer logarithms that the library's proofs share.

use vstd::prelude::*;
use vstd::arithmetic::div_mod::{
    lemma_fundamental_div_mod,
    lemma_mod_multiples_basic,
    lemma_small_mod,
};
use vstd::arithmetic::logarithm::{log, lemma_log0, lemma_log_s};
use vstd::arithmetic::power::{
    pow,
    lemma_pow0,
    lemma_pow1,
    lemma_pow_adds,
    lemma_pow_increases,
    lemma_pow_multiplies,
    lemma_pow_positive,
    lemma_square_is_pow2,
};
use vstd::arithmetic::power2::{pow2, lemma_pow2};

verus! {

/// `pow(base, n + 1)` is `base * pow(base, n)`.
pub proof fn lemma_pow_step(base: int, n: nat)
    ensures
        pow(base, n + 1) == base * pow(base, n),
{
    lemma_pow_adds(base, 1, n);
    lemma_pow1(base);
}

/// The integer logarithm of `x` is the exponent of the largest power of `base` that is at
/// most `x`.
pub proof fn lemma_log_brackets(base: int, x: int)
    requires
        base > 1,
        x >= 1,
    ensures
        log(base, x) >= 0,
        pow(base, log(base, x) as nat) <= x < pow(base, (log(base, x) + 1) as nat),
    decreases x,
{
    if x < base {
        lemma_log0(base, x);
        lemma_pow0(base);
        lemma_pow1(base);
    } else {
        let q: int = x / base;
        lemma_log_s(base, x);
        assert(1 <= q < x && base * q <= x < base * (q + 1)) by (nonlinear_arith)
            requires
                base > 1,
                x >= base,
                q == x / base,
        ;
        lemma_log_brackets(base, q);
        let k: nat = log(base, q) as nat;
        lemma_pow_step(base, k);
        lemma_pow_step(base, k + 1);
        assert(base * pow(base, k) <= base * q) by (nonlinear_arith)
            requires
                base > 1,
                pow(base, k) <= q,
        ;
        assert(base * (q + 1) <= base * pow(base, k + 1)) by (nonlinear_arith)
            requires
                base > 1,
                q + 1 <= pow(base, k + 1),
        ;
    }
}

/// Only the integer logarithm of `x` is the exponent of a power of `base` that is at most `x`
/// while the next power is larger.
pub proof fn lemma_log_unique(base: int, x: int, e: nat)
    requires
        base > 1,
        pow(base, e) <= x < pow(base, e + 1),
    ensures
        log(base, x) == e,
{
    lemma_pow_positive(base, e);
    lemma_log_brackets(base, x);
    let k: nat = log(base, x) as nat;
    if k < e {
        lemma_pow_increases(base as nat, k + 1, e);
    } else if e < k {
        lemma_pow_increases(base as nat, e + 1, k);
    }
}

/// A power of 4 is the power of 2 with twice the exponent.
pub proof fn lemma_pow4_is_pow2(e: nat)
    ensures
        pow(4, e) == pow2(2 * e),
{
    lemma_square_is_pow2(2);
    lemma_pow_multiplies(2, 2, e);
    lemma_pow2(2 * e);
}

/// An odd number that divides the double of `x` divides `x`.
pub proof fn lemma_odd_divisor_of_double(x: int, d: int)
    requires
        d > 0,
        d % 2 == 1,
        (2 * x) % d == 0,
    ensures
        x % d == 0,
{
    let q: int = (2 * x) / d;
    lemma_fundamental_div_mod(2 * x, d);
    assert(q % 2 == 0) by (nonlinear_arith)
        requires
            2 * x == d * q,
            d % 2 == 1,
    {
        if q % 2 != 0 {
            let a: int = d / 2;
            let b: int = q / 2;
            assert(d * q == 2 * (2 * a * b + a + b) + 1);
        }
    }
    let r: int = q / 2;
    assert(x == r * d) by (nonlinear_arith)
        requires
            2 * x == d * q,
            q == 2 * r,
    ;
    lemma_mod_multiples_basic(r, d);
}

/// No odd number above 1 divides a power of 2.
pub proof fn lemma_pow2_has_no_odd_divisor(k: nat, d: int)
    requires
        d > 1,
        d % 2 == 1,
    ensures
        pow(2, k) % d != 0,
    decreases k,
{
    if k == 0 {
        lemma_pow0(2);
        lemma_small_mod(1, d as nat);
    } else {
        lemma_pow_step(2, (k - 1) as nat);
        lemma_pow2_has_no_odd_divisor((k - 1) as nat, d);
        if pow(2, k) % d == 0 {
            lemma_odd_divisor_of_double(pow(2, (k - 1) as nat), d);
        }
    }
}

/// A divisor of `n` divides every power of `n` but the power with exponent 0.
pub proof fn lemma_pow_keeps_divisor(n: int, d: int, e: nat)
    requires
        d > 0,
        n % d == 0,
        e >= 1,
    ensures
        pow(n, e) % d == 0,
{
    let m: int = n / d;
    let rest: int = pow(n, (e - 1) as nat);
    lemma_fundamental_div_mod(n, d);
    lemma_pow_step(n, (e - 1) as nat);
    assert(n * rest == (m * rest) * d) by (nonlinear_arith)
        requires
            n == d * m,
    ;
    lemma_mod_multiples_basic(m * rest, d);
}

/// A number with an odd divisor above 1 has no power that is a power of 2, but the power
/// with exponent 0.
pub proof fn lemma_pow_is_no_pow2(n: int, d: int, e: nat, k: nat)
    requires
        d > 1,
        d % 2 == 1,
        n % d == 0,
        e >= 1,
    ensures
        pow(n, e) != pow(2, k),
{
    lemma_pow_keeps_divisor(n, d, e);
    lemma_pow2_has_no_odd_divisor(k, d);
}

} // verus!
