//! IEEE 754 binary64 numbers, read from their bit patterns.
//!
//! A pattern has one sign bit, eleven bits of biased exponent and fifty-two
//! bits of fraction. The specification functions below give those fields
//! arithmetically; the executable functions compute with masks and are proved
//! to agree with them.

use vstd::arithmetic::power2::{
    lemma_pow2_pos, lemma_pow2_strictly_increases, lemma_pow2_unfold, pow2,
};
use vstd::prelude::*;

verus! {

/// The bit that holds the sign.
pub const SIGN_MASK: u64 = 0x8000_0000_0000_0000;

/// The bits that hold the biased exponent.
pub const EXPONENT_MASK: u64 = 0x7ff0_0000_0000_0000;

/// Every bit but the sign.
pub const MAGNITUDE_MASK: u64 = 0x7fff_ffff_ffff_ffff;

/// The pattern of positive zero.
pub const POSITIVE_ZERO: u64 = 0;

/// Whether the sign bit is set.
pub open spec fn sign_bit(bits: u64) -> bool {
    bits >= 0x8000_0000_0000_0000
}

/// The eleven exponent bits, as a number below 2048.
pub open spec fn biased_exponent(bits: u64) -> nat {
    ((bits / 0x10_0000_0000_0000) % 0x800) as nat
}

/// The fifty-two fraction bits, as a number below 2^52.
pub open spec fn fraction(bits: u64) -> nat {
    (bits % 0x10_0000_0000_0000) as nat
}

/// Exponent and fraction together: the pattern without its sign.
pub open spec fn magnitude(bits: u64) -> nat {
    (bits % 0x8000_0000_0000_0000) as nat
}

/// The pattern encodes no number.
pub open spec fn encodes_nan(bits: u64) -> bool {
    biased_exponent(bits) == 0x7ff && fraction(bits) != 0
}

/// The pattern encodes zero, of either sign.
pub open spec fn encodes_zero(bits: u64) -> bool {
    biased_exponent(bits) == 0 && fraction(bits) == 0
}

/// An integer that orders patterns as the numbers they encode are ordered:
/// the magnitude, negated where the sign bit is set. Both zeros have key 0.
pub open spec fn order_key(bits: u64) -> int {
    if sign_bit(bits) {
        -(magnitude(bits) as int)
    } else {
        magnitude(bits) as int
    }
}

/// The size of the number that a pattern encodes, in units of 2^-1074, the
/// smallest positive binary64 number. With exponent field 0 the number is
/// subnormal and the fraction counts those units directly; otherwise the
/// fraction gains its hidden leading bit and is shifted by the exponent.
///
/// Patterns with the largest exponent field encode no finite number. The
/// formula gives them a size above that of every finite pattern, which is
/// where an infinity belongs in the order.
pub open spec fn scaled_magnitude(bits: u64) -> nat {
    if biased_exponent(bits) == 0 {
        fraction(bits)
    } else {
        (0x10_0000_0000_0000 + fraction(bits)) * pow2((biased_exponent(bits) - 1) as nat)
    }
}

/// The number that a pattern encodes, in units of 2^-1074.
pub open spec fn scaled_value(bits: u64) -> int {
    if sign_bit(bits) {
        -(scaled_magnitude(bits) as int)
    } else {
        scaled_magnitude(bits) as int
    }
}

proof fn lemma_fields(bits: u64)
    ensures
        magnitude(bits) == biased_exponent(bits) * 0x10_0000_0000_0000 + fraction(bits),
        biased_exponent(bits) < 0x800,
        fraction(bits) < 0x10_0000_0000_0000,
{
    assert(bits % 0x8000_0000_0000_0000 == ((bits / 0x10_0000_0000_0000) % 0x800)
        * 0x10_0000_0000_0000 + bits % 0x10_0000_0000_0000) by (bit_vector);
}

proof fn lemma_scaled_magnitude_increases(a: u64, b: u64)
    requires
        magnitude(a) < magnitude(b),
    ensures
        scaled_magnitude(a) < scaled_magnitude(b),
{
    lemma_fields(a);
    lemma_fields(b);
    let unit: int = 0x10_0000_0000_0000;
    let ea = biased_exponent(a);
    let eb = biased_exponent(b);
    let fa: int = fraction(a) as int;
    let fb: int = fraction(b) as int;
    if ea == eb {
        if ea != 0 {
            let p: int = pow2((ea - 1) as nat) as int;
            lemma_pow2_pos((ea - 1) as nat);
            assert((unit + fa) * p < (unit + fb) * p) by (nonlinear_arith)
                requires
                    fa < fb,
                    p > 0,
            ;
        }
    } else {
        assert(ea < eb);
        let pb: int = pow2((eb - 1) as nat) as int;
        lemma_pow2_pos((eb - 1) as nat);
        assert(unit * pb <= (unit + fb) * pb) by (nonlinear_arith)
            requires
                fb >= 0,
                pb > 0,
        ;
        if ea == 0 {
            assert(unit <= unit * pb) by (nonlinear_arith)
                requires
                    unit > 0,
                    pb >= 1,
            ;
        } else {
            let pa: int = pow2((ea - 1) as nat) as int;
            lemma_pow2_pos((ea - 1) as nat);
            lemma_pow2_unfold(ea);
            assert(pow2(ea) == 2 * pa);
            assert((unit + fa) * pa < unit * (2 * pa)) by (nonlinear_arith)
                requires
                    fa < unit,
                    pa > 0,
            ;
            if ea < eb - 1 {
                lemma_pow2_strictly_increases(ea, (eb - 1) as nat);
            }
            assert(pow2(ea) <= pb);
            assert(unit * (2 * pa) <= unit * pb) by (nonlinear_arith)
                requires
                    unit > 0,
                    2 * pa <= pb,
            ;
        }
    }
}

/// The order key is faithful to the numbers: one pattern's key is below
/// another's exactly when its scaled value is, and the keys are equal exactly
/// when the scaled values are. So comparing keys compares the encoded numbers,
/// with both zeros equal and each infinity beyond every finite number.
pub proof fn lemma_order_key_follows_value(a: u64, b: u64)
    ensures
        order_key(a) < order_key(b) <==> scaled_value(a) < scaled_value(b),
        order_key(a) == order_key(b) <==> scaled_value(a) == scaled_value(b),
{
    lemma_fields(a);
    lemma_fields(b);
    lemma_fields(0);
    assert(magnitude(0) == 0 && scaled_magnitude(0) == 0);
    if magnitude(a) > 0 {
        lemma_scaled_magnitude_increases(0, a);
    }
    if magnitude(b) > 0 {
        lemma_scaled_magnitude_increases(0, b);
    }
    if magnitude(a) < magnitude(b) {
        lemma_scaled_magnitude_increases(a, b);
    } else if magnitude(b) < magnitude(a) {
        lemma_scaled_magnitude_increases(b, a);
    } else {
        assert(biased_exponent(a) == biased_exponent(b));
        assert(fraction(a) == fraction(b));
    }
}

/// Tells whether `bits` encodes a NaN.
pub fn is_nan(bits: u64) -> (r: bool)
    ensures
        r == encodes_nan(bits),
{
    assert(((bits & 0x7fff_ffff_ffff_ffff) > 0x7ff0_0000_0000_0000) == ((bits
        / 0x10_0000_0000_0000) % 0x800 == 0x7ff && bits % 0x10_0000_0000_0000 != 0))
        by (bit_vector);
    (bits & MAGNITUDE_MASK) > EXPONENT_MASK
}

/// Tells whether `bits` encodes zero; the sign is not looked at.
pub fn is_zero(bits: u64) -> (r: bool)
    ensures
        r == encodes_zero(bits),
{
    assert(((bits & 0x7fff_ffff_ffff_ffff) == 0) == ((bits / 0x10_0000_0000_0000) % 0x800 == 0
        && bits % 0x10_0000_0000_0000 == 0)) by (bit_vector);
    (bits & MAGNITUDE_MASK) == 0
}

/// Computes the order key of `bits`.
pub fn key(bits: u64) -> (r: i64)
    ensures
        r == order_key(bits),
{
    let low: u64 = bits & MAGNITUDE_MASK;
    assert(low == bits % 0x8000_0000_0000_0000 && low < 0x8000_0000_0000_0000) by (bit_vector)
        requires
            low == bits & 0x7fff_ffff_ffff_ffff,
    ;
    assert(((bits & 0x8000_0000_0000_0000) != 0) == (bits >= 0x8000_0000_0000_0000))
        by (bit_vector);
    let m: i64 = low as i64;
    if (bits & SIGN_MASK) != 0 {
        -m
    } else {
        m
    }
}

} // verus!
