//! Scaling by powers of two, and what the shifts of a 128-bit value compute.

use vstd::arithmetic::div_mod::{
    lemma_basic_div, lemma_div_denominator, lemma_div_is_ordered, lemma_fundamental_div_mod,
};
use vstd::arithmetic::mul::lemma_mul_inequality;
use vstd::arithmetic::power2::{
    lemma2_to64, lemma2_to64_rest, lemma_pow2_adds, lemma_pow2_pos, lemma_pow2_strictly_increases,
    lemma_pow2_unfold, pow2,
};
use vstd::bits::lemma_u128_shr_is_div;
use vstd::prelude::*;

verus! {

/// `value` times two to the power `shifts`, rounded down where `shifts` is negative.
pub open spec fn shifted(value: int, shifts: int) -> int {
    if shifts < 0 {
        value / (pow2((-shifts) as nat) as int)
    } else {
        value * pow2(shifts as nat)
    }
}

/// Two to the power 128 is one more than the largest 128-bit value.
pub proof fn lemma_pow2_128()
    ensures
        pow2(128) == u128::MAX + 1,
{
    lemma2_to64_rest();
    lemma_pow2_adds(64, 64);
    assert(0x1_0000_0000_0000_0000 * 0x1_0000_0000_0000_0000
        == 0x1_0000_0000_0000_0000_0000_0000_0000_0000int);
}

/// A right shift by fewer than 128 bits divides by the power of two, rounding down.
pub proof fn lemma_shift_right_is_shifted(value: u128, amount: u32)
    requires
        amount < 128,
    ensures
        value >> amount == shifted(value as int, -(amount as int)),
{
    lemma_u128_shr_is_div(value, amount as u128);
    assert(value >> amount == value >> (amount as u128)) by (bit_vector);
    if amount == 0 {
        lemma2_to64();
        assert(shifted(value as int, 0) == value * 1);
    }
}

/// A left shift that pushes no set bit out multiplies by the power of two.
pub proof fn lemma_shift_left_is_shifted(value: u128, amount: u32)
    requires
        amount < 128,
        value <= (u128::MAX >> amount),
    ensures
        value << amount == shifted(value as int, amount as int),
    decreases amount,
{
    if amount == 0 {
        assert(value << 0u32 == value) by (bit_vector);
        lemma2_to64();
        assert(shifted(value as int, 0) == value * 1);
    } else {
        let before: u32 = (amount - 1) as u32;
        assert(value <= (u128::MAX >> before) && (value << amount) == 2 * (value << before))
            by (bit_vector)
            requires
                amount == before + 1,
                amount < 128,
                value <= (u128::MAX >> amount),
        ;
        lemma_shift_left_is_shifted(value, before);
        lemma_pow2_unfold(amount as nat);
        assert(2 * (value * pow2(before as nat)) == value * (2 * pow2(before as nat)))
            by (nonlinear_arith);
    }
}

/// A value above `u128::MAX >> amount`, times the power of two, exceeds 128 bits.
pub proof fn lemma_shift_left_overflows(value: u128, amount: u32)
    requires
        amount < 128,
        value > (u128::MAX >> amount),
    ensures
        shifted(value as int, amount as int) > u128::MAX,
{
    let power = pow2(amount as nat) as int;
    let limit = u128::MAX as int;
    lemma_pow2_pos(amount as nat);
    lemma_u128_shr_is_div(u128::MAX, amount as u128);
    assert(u128::MAX >> amount == u128::MAX >> (amount as u128)) by (bit_vector);
    lemma_fundamental_div_mod(limit, power);
    assert(value * power > limit) by (nonlinear_arith)
        requires
            power > 0,
            value >= limit / power + 1,
            limit == power * (limit / power) + limit % power,
            0 <= limit % power < power,
    ;
}

/// Dividing a 128-bit value by two to the power 128 or more leaves nothing.
pub proof fn lemma_shifted_out(value: u128, shifts: int)
    requires
        shifts <= -128,
    ensures
        shifted(value as int, shifts) == 0,
{
    let amount = (-shifts) as nat;
    lemma_pow2_128();
    if amount > 128 {
        lemma_pow2_strictly_increases(128, amount);
    }
    lemma_basic_div(value as int, pow2(amount) as int);
}

/// Scaling keeps the order of non-negative values.
pub proof fn lemma_shifted_is_ordered(smaller: int, larger: int, shifts: int)
    requires
        0 <= smaller <= larger,
    ensures
        0 <= shifted(smaller, shifts) <= shifted(larger, shifts),
{
    if shifts < 0 {
        let power = pow2((-shifts) as nat) as int;
        lemma_pow2_pos((-shifts) as nat);
        lemma_div_is_ordered(smaller, larger, power);
        lemma_div_is_ordered(0, smaller, power);
    } else {
        let power = pow2(shifts as nat) as int;
        lemma_mul_inequality(smaller, larger, power);
        lemma_mul_inequality(0, smaller, power);
    }
}

/// Doubling a value scales it like one more shift.
pub proof fn lemma_shifted_double(value: int, shifts: int)
    requires
        0 <= value,
    ensures
        shifted(2 * value, shifts) == shifted(value, shifts + 1),
{
    if shifts >= 0 {
        let power = pow2(shifts as nat) as int;
        lemma_pow2_unfold((shifts + 1) as nat);
        assert((2 * value) * power == value * (2 * power)) by (nonlinear_arith);
    } else if shifts == -1 {
        lemma2_to64();
        assert(shifted(value, 0) == value * 1);
    } else {
        let power = pow2((-shifts - 1) as nat) as int;
        lemma_pow2_pos((-shifts - 1) as nat);
        lemma_pow2_unfold((-shifts) as nat);
        lemma_div_denominator(2 * value, 2, power);
        assert(shifted(value, shifts + 1) == value / power);
    }
}

/// A non-negative value scaled by a larger power of two is no smaller.
pub proof fn lemma_shifted_grows_with_shifts(value: int, fewer: int, more: int)
    requires
        0 <= value,
        fewer <= more,
    ensures
        shifted(value, fewer) <= shifted(value, more),
    decreases more - fewer,
{
    if fewer < more {
        lemma_shifted_grows_with_shifts(value, fewer, more - 1);
        lemma_shifted_is_ordered(value, 2 * value, more - 1);
        lemma_shifted_double(value, more - 1);
    }
}

/// Multiplying a value by a power of two scales it like as many more shifts.
pub proof fn lemma_shifted_by_power(value: int, exponent: nat, shifts: int)
    requires
        0 <= value,
    ensures
        shifted(value * pow2(exponent), shifts) == shifted(value, shifts + exponent),
    decreases exponent,
{
    if exponent == 0 {
        lemma2_to64();
        assert(value * pow2(0) == value);
    } else {
        let half = pow2((exponent - 1) as nat) as int;
        lemma_pow2_unfold(exponent);
        assert(value * (2 * half) == 2 * (value * half)) by (nonlinear_arith);
        assert(0 <= value * half) by (nonlinear_arith)
            requires
                0 <= value,
                0 <= half,
        ;
        lemma_shifted_double(value * half, shifts);
        lemma_shifted_by_power(value, (exponent - 1) as nat, shifts + 1);
    }
}

} // verus!
