//! Canonical decomposition of IEEE-754 binary64 bit patterns, which gives
//! floating-point payloads an equality that is reflexive for every pattern,
//! NaNs included, and that tells `+0.0` from `-0.0`.
use vstd::prelude::*;

verus! {

/// The 52 fraction bits of a binary64 pattern.
pub open spec fn fraction_bits(bits: u64) -> u64 {
    bits & 0xF_FFFF_FFFF_FFFF
}

/// The 11 raw exponent bits of a binary64 pattern.
pub open spec fn raw_exponent(bits: u64) -> u64 {
    (bits >> 52u64) & 0x7FF
}

/// The `(mantissa, exponent, sign)` triplet of a binary64 pattern: a zero raw
/// exponent marks a subnormal, whose fraction is shifted left by one; any other
/// raw exponent gets the implicit leading bit. The exponent is corrected by
/// the bias and the fraction width (1075). The sign is 1 for a clear sign bit.
pub open spec fn triplet_of(bits: u64) -> (u64, i16, i8) {
    let mantissa = if raw_exponent(bits) == 0 {
        fraction_bits(bits) << 1u64
    } else {
        fraction_bits(bits) | 0x10_0000_0000_0000
    };
    let sign: i8 = if bits >> 63u64 == 0 { 1 } else { 0 };
    (mantissa, (raw_exponent(bits) - 1075) as i16, sign)
}

/// Splits a binary64 bit pattern into its canonical triplet.
pub fn decompose(bits: u64) -> (r: (u64, i16, i8))
    ensures
        r == triplet_of(bits),
{
    let sign: i8 = if bits >> 63u64 == 0 { 1 } else { 0 };
    let raw: u64 = (bits >> 52u64) & 0x7FF;
    assert(((bits >> 52u64) & 0x7FF) <= 0x7FF) by (bit_vector);
    let fraction: u64 = bits & 0xF_FFFF_FFFF_FFFF;
    let mantissa: u64 = if raw == 0 {
        fraction << 1u64
    } else {
        fraction | 0x10_0000_0000_0000
    };
    let exponent: i16 = raw as i16 - 1075;
    (mantissa, exponent, sign)
}

/// Distinct bit patterns have distinct triplets: the decomposition loses
/// nothing, so two payloads have equal triplets exactly when they have
/// equal bits.
pub proof fn lemma_triplet_injective(a: u64, b: u64)
    ensures
        triplet_of(a) == triplet_of(b) <==> a == b,
{
    assert(raw_exponent(a) <= 0x7FF && raw_exponent(b) <= 0x7FF) by (bit_vector);
    if triplet_of(a) == triplet_of(b) {
        assert(raw_exponent(a) == raw_exponent(b));
        assert(a >> 63u64 <= 1 && b >> 63u64 <= 1) by (bit_vector);
        assert(a >> 63u64 == b >> 63u64);
        let fa = fraction_bits(a);
        let fb = fraction_bits(b);
        assert((a & 0xF_FFFF_FFFF_FFFF) < 0x10_0000_0000_0000) by (bit_vector);
        assert((b & 0xF_FFFF_FFFF_FFFF) < 0x10_0000_0000_0000) by (bit_vector);
        if raw_exponent(a) == 0 {
            assert(fa < 0x10_0000_0000_0000 && fb < 0x10_0000_0000_0000 && (fa << 1u64) == (
            fb << 1u64) ==> fa == fb) by (bit_vector);
        } else {
            assert(fa < 0x10_0000_0000_0000 && fb < 0x10_0000_0000_0000 && (fa
                | 0x10_0000_0000_0000) == (fb | 0x10_0000_0000_0000) ==> fa == fb) by (bit_vector);
        }
        assert((a >> 63u64 == b >> 63u64) && ((a >> 52u64) & 0x7FF) == ((b >> 52u64) & 0x7FF) && (a
            & 0xF_FFFF_FFFF_FFFF) == (b & 0xF_FFFF_FFFF_FFFF) ==> a == b) by (bit_vector);
    }
}

} // verus!
