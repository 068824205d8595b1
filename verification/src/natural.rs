//! Natural numbers of any size, held as 64-bit limbs with the least significant limb first.
//!
//! A power of an alphabet size outgrows every machine integer after a few characters, and
//! the entropy estimate needs the exact number of binary digits of such a power.

use vstd::prelude::*;
use vstd::arithmetic::logarithm::log;
use vstd::arithmetic::power::{
    pow,
    lemma0_pow,
    lemma1_pow,
    lemma_pow0,
    lemma_pow1,
    lemma_pow_adds,
};
use vstd::arithmetic::power2::{
    pow2,
    lemma2_to64,
    lemma2_to64_rest,
    lemma_pow2,
    lemma_pow2_adds,
    lemma_pow2_pos,
    lemma_pow2_unfold,
};
use crate::power_log::{lemma_log_brackets, lemma_log_unique};

verus! {

/// The number of values of a limb, `2^64`.
pub const LIMB_BASE: u128 = 0x1_0000_0000_0000_0000;

/// The number that the limbs `limbs` stand for: limb `i` weighs `2^(64 * i)`.
pub open spec fn limbs_value(limbs: Seq<u64>) -> nat
    decreases limbs.len(),
{
    if limbs.len() == 0 {
        0
    } else {
        limbs_value(limbs.drop_last()) + limbs.last() as nat * pow2(64 * (limbs.len() - 1) as nat)
    }
}

/// The number of binary digits of `x`: 0 for 0, and otherwise the `k` with
/// `2^(k - 1) <= x < 2^k`.
pub open spec fn bit_length(x: nat) -> nat {
    if x == 0 {
        0
    } else {
        (log(2, x as int) + 1) as nat
    }
}

/// The weight of limb `i + 1` is `2^64` times the weight of limb `i`.
pub proof fn lemma_limb_weight_step(i: nat)
    ensures
        pow2(64 * (i + 1)) == LIMB_BASE * pow2(64 * i),
{
    lemma2_to64_rest();
    lemma_pow2_adds(64, 64 * i);
}

/// A number of `n` limbs is less than `2^(64 * n)`.
pub proof fn lemma_limbs_value_bound(limbs: Seq<u64>)
    ensures
        limbs_value(limbs) < pow2(64 * limbs.len()),
    decreases limbs.len(),
{
    if limbs.len() == 0 {
        lemma2_to64();
    } else {
        let n: nat = (limbs.len() - 1) as nat;
        let weight: nat = pow2(64 * n);
        let top: nat = limbs.last() as nat;
        lemma_limbs_value_bound(limbs.drop_last());
        lemma_limb_weight_step(n);
        assert(top * weight + weight <= LIMB_BASE * weight) by (nonlinear_arith)
            requires
                top + 1 <= LIMB_BASE,
        ;
    }
}

/// A number whose last limb is not zero is at least the weight of that limb.
pub proof fn lemma_limbs_value_top(limbs: Seq<u64>)
    requires
        limbs.len() > 0,
    ensures
        limbs.last() * pow2(64 * (limbs.len() - 1) as nat) <= limbs_value(limbs) < (limbs.last()
            + 1) * pow2(64 * (limbs.len() - 1) as nat),
{
    let weight: nat = pow2(64 * (limbs.len() - 1) as nat);
    let top: nat = limbs.last() as nat;
    lemma_limbs_value_bound(limbs.drop_last());
    assert((top + 1) * weight == top * weight + weight) by (nonlinear_arith);
}

/// A number between two neighbouring powers of two has as many binary digits as the exponent
/// of the larger one.
pub proof fn lemma_bit_length_unique(x: nat, bits: nat)
    requires
        bits >= 1,
        pow2((bits - 1) as nat) <= x < pow2(bits),
    ensures
        bit_length(x) == bits,
{
    lemma_pow2(bits);
    lemma_pow2_pos((bits - 1) as nat);
    lemma_log_unique(2, x as int, (bits - 1) as nat);
}

/// The number of binary digits of a limb.
pub fn limb_bit_length(limb: u64) -> (bits: u32)
    ensures
        bits <= 64,
        bits == bit_length(limb as nat),
{
    let mut bits: u32 = 0;
    let mut bound: u128 = 1;
    proof {
        lemma2_to64();
        lemma2_to64_rest();
    }
    while bound <= limb as u128
        invariant
            bits <= 64,
            bound == pow2(bits as nat),
            bits > 0 ==> pow2((bits - 1) as nat) <= limb,
            pow2(64) == LIMB_BASE,
        decreases 64 - bits,
    {
        proof {
            lemma_pow2_unfold((bits + 1) as nat);
        }
        bound = bound * 2;
        bits = bits + 1;
    }
    proof {
        if limb > 0 {
            lemma_bit_length_unique(limb as nat, bits as nat);
        }
    }
    bits
}

/// A natural number of any size.
///
/// The most significant limb is never zero, and zero has no limb at all.
pub struct Natural {
    limbs: Vec<u64>,
}

impl View for Natural {
    type V = nat;

    closed spec fn view(&self) -> nat {
        limbs_value(self.limbs@)
    }
}

impl Natural {
    #[verifier::type_invariant]
    closed spec fn is_normal(&self) -> bool {
        self.limbs@.len() > 0 ==> self.limbs@.last() != 0
    }

    /// The number 1.
    pub fn one() -> (n: Natural)
        ensures
            n@ == 1,
    {
        let mut limbs: Vec<u64> = Vec::new();
        limbs.push(1);
        proof {
            lemma2_to64();
            assert(limbs_value(limbs@.drop_last()) == 0);
        }
        Natural { limbs }
    }

    /// The product of the number and `factor`.
    pub fn mul_small(self, factor: u64) -> (product: Natural)
        ensures
            product@ == self@ * factor,
    {
        proof {
            use_type_invariant(&self);
        }
        if factor == 0 {
            return Natural { limbs: Vec::new() };
        }
        let ghost before: Seq<u64> = self.limbs@;
        let mut limbs: Vec<u64> = self.limbs;
        let n: usize = limbs.len();
        let mut carry: u64 = 0;
        let mut i: usize = 0;
        proof {
            assert(0 * factor == 0);
        }
        while i < n
            invariant
                i <= n,
                n == before.len(),
                limbs@.len() == n,
                factor >= 1,
                forall|j: int| i <= j < n ==> limbs@[j] == before[j],
                limbs_value(limbs@.take(i as int)) + carry * pow2(64 * i as nat) == limbs_value(
                    before.take(i as int),
                ) * factor,
                i > 0 && before[i - 1] != 0 ==> limbs@[i - 1] != 0 || carry != 0,
            decreases n - i,
        {
            let limb: u64 = limbs[i];
            let ghost prefix: Seq<u64> = limbs@.take(i as int);
            let ghost carry_in: u64 = carry;
            assert(limb as u128 * factor as u128 + carry as u128 <= u128::MAX) by (nonlinear_arith)
                requires
                    limb <= u64::MAX,
                    factor <= u64::MAX,
                    carry <= u64::MAX,
            ;
            let wide: u128 = limb as u128 * factor as u128 + carry as u128;
            assert(wide / LIMB_BASE <= u64::MAX) by (nonlinear_arith)
                requires
                    wide == limb as u128 * factor as u128 + carry as u128,
                    limb <= u64::MAX,
                    factor <= u64::MAX,
                    carry <= u64::MAX,
            ;
            let low: u64 = (wide % LIMB_BASE) as u64;
            carry = (wide / LIMB_BASE) as u64;
            limbs[i] = low;
            proof {
                let weight: nat = pow2(64 * i as nat);
                let after: Seq<u64> = limbs@.take(i + 1);
                assert(after.drop_last() =~= prefix);
                assert(before.take(i + 1).drop_last() =~= before.take(i as int));
                lemma_limb_weight_step(i as nat);
                assert(limbs_value(after) + carry * pow2(64 * (i + 1) as nat) == limbs_value(
                    before.take(i + 1),
                ) * factor) by (nonlinear_arith)
                    requires
                        limbs_value(after) == limbs_value(prefix) + low * weight,
                        limbs_value(before.take(i + 1)) == limbs_value(before.take(i as int)) + limb
                            * weight,
                        limbs_value(prefix) + carry_in * weight == limbs_value(
                            before.take(i as int),
                        ) * factor,
                        wide == low + carry * LIMB_BASE,
                        wide == limb * factor + carry_in,
                        pow2(64 * (i + 1) as nat) == LIMB_BASE * weight,
                ;
                assert(limb != 0 ==> wide != 0) by (nonlinear_arith)
                    requires
                        wide == limb * factor + carry_in,
                        factor >= 1,
                ;
            }
            i = i + 1;
        }
        proof {
            assert(limbs@.take(n as int) =~= limbs@);
            assert(before.take(n as int) =~= before);
        }
        if carry != 0 {
            let ghost full: Seq<u64> = limbs@;
            limbs.push(carry);
            proof {
                assert(limbs@.drop_last() =~= full);
            }
        }
        Natural { limbs }
    }

    /// The number of binary digits of the number.
    pub fn bit_length(&self) -> (bits: u128)
        ensures
            bits == bit_length(self@),
    {
        proof {
            use_type_invariant(self);
        }
        let n: usize = self.limbs.len();
        if n == 0 {
            return 0;
        }
        let top: u64 = self.limbs[n - 1];
        let top_bits: u32 = limb_bit_length(top);
        let below: u128 = 64 * (n - 1) as u128;
        proof {
            let weight: nat = pow2(64 * (n - 1) as nat);
            let low: nat = pow2((top_bits - 1) as nat);
            let high: nat = pow2(top_bits as nat);
            lemma_limbs_value_top(self.limbs@);
            lemma_limb_brackets(top);
            lemma_pow2_adds((top_bits - 1) as nat, 64 * (n - 1) as nat);
            lemma_pow2_adds(top_bits as nat, 64 * (n - 1) as nat);
            assert(low * weight <= top * weight) by (nonlinear_arith)
                requires
                    low <= top,
            ;
            assert((top + 1) * weight <= high * weight) by (nonlinear_arith)
                requires
                    top + 1 <= high,
            ;
            lemma_bit_length_unique(self@, (top_bits + 64 * (n - 1)) as nat);
        }
        below + top_bits as u128
    }

    /// The power `base^exponent`, with `0^0 = 1`.
    ///
    /// The power is built from factors of as many copies of `base` as fit a limb, so that it
    /// takes one pass over the limbs for each such factor.
    pub fn power(base: u64, exponent: usize) -> (n: Natural)
        ensures
            n@ == pow(base as int, exponent as nat),
    {
        if base == 0 && exponent > 0 {
            proof {
                lemma0_pow(exponent as nat);
            }
            return Natural { limbs: Vec::new() };
        }
        let mut result: Natural = Natural::one();
        if base <= 1 {
            proof {
                lemma1_pow(exponent as nat);
                lemma_pow0(base as int);
            }
            return result;
        }
        let mut done: usize = 0;
        proof {
            lemma_pow0(base as int);
        }
        while done < exponent
            invariant
                done <= exponent,
                base >= 2,
                result@ == pow(base as int, done as nat),
            decreases exponent - done,
        {
            let mut factor: u64 = base;
            let mut count: usize = 1;
            proof {
                lemma_pow1(base as int);
            }
            while count < exponent - done && factor <= u64::MAX / base
                invariant
                    1 <= count <= exponent - done,
                    base >= 2,
                    factor >= 1,
                    factor == pow(base as int, count as nat),
                decreases exponent - done - count,
            {
                proof {
                    lemma_pow_adds(base as int, count as nat, 1);
                    lemma_pow1(base as int);
                    assert(1 <= factor * base <= u64::MAX) by (nonlinear_arith)
                        requires
                            factor <= u64::MAX / base,
                            factor >= 1,
                            base >= 1,
                    ;
                }
                factor = factor * base;
                count = count + 1;
            }
            result = result.mul_small(factor);
            proof {
                lemma_pow_adds(base as int, done as nat, count as nat);
            }
            done = done + count;
        }
        result
    }
}

/// A limb that is not zero lies between the two powers of two that its number of binary
/// digits names.
pub proof fn lemma_limb_brackets(limb: u64)
    requires
        limb > 0,
    ensures
        bit_length(limb as nat) >= 1,
        pow2((bit_length(limb as nat) - 1) as nat) <= limb < pow2(bit_length(limb as nat)),
{
    lemma_log_brackets(2, limb as int);
    lemma_pow2((bit_length(limb as nat) - 1) as nat);
}

} // verus!
