use vstd::prelude::*;

verus! {

/// A position component travels through the toolbox as the bit pattern of an
/// IEEE 754 binary64 value. The coordinate convention never interprets the
/// magnitude of a component; the only arithmetic it asks for is negation,
/// and negating a binary64 value is exactly flipping its sign bit, for every
/// value, zeros and NaNs included. Values are rendered back to their decimal
/// text form only at the output boundary, outside this library.
pub const SIGN_BIT: u64 = 0x8000_0000_0000_0000;

/// The bit pattern of the arithmetic negation of the value carried by `b`.
pub open spec fn spec_negate_bits(b: u64) -> u64 {
    b ^ SIGN_BIT
}

/// Flip the sign bit: the negation of the carried binary64 value.
pub fn negate_bits(b: u64) -> (r: u64)
    ensures
        r == spec_negate_bits(b),
{
    b ^ SIGN_BIT
}

/// Negation is an involution: flipping the sign bit twice restores the value.
pub proof fn lemma_negate_bits_involutive(b: u64)
    ensures
        spec_negate_bits(spec_negate_bits(b)) == b,
{
    assert((b ^ 0x8000_0000_0000_0000u64) ^ 0x8000_0000_0000_0000u64 == b) by (bit_vector);
}

} // verus!
