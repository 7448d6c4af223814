use vstd::prelude::*;

verus! {

/// The host-supplied number capability.
///
/// The engine's numeric values are IEEE-754 double-precision bit patterns,
/// carried as plain `u64` words. Verified code cannot perform double
/// arithmetic itself, so the host injects it, exactly as it injects the
/// native-function table: every operation on the encoded doubles goes through
/// an implementation of this trait. Nothing is assumed about the results; the
/// library's contracts record each answer in an oracle trace and are proved
/// for every possible answer.
pub trait NumberOps {
    /// The bit pattern of the double denoted by a decimal literal
    /// (digits, an optional dot, optional further digits), or `None`
    /// when the literal cannot be represented.
    fn num_parse(&self, text: &Vec<u8>) -> Option<u64>;

    /// Bits of the sum of the doubles encoded by `a` and `b`.
    fn num_add(&self, a: u64, b: u64) -> u64;

    /// Bits of the difference of the doubles encoded by `a` and `b`.
    fn num_sub(&self, a: u64, b: u64) -> u64;

    /// Bits of the product of the doubles encoded by `a` and `b`.
    fn num_mul(&self, a: u64, b: u64) -> u64;

    /// Bits of the quotient of the doubles encoded by `a` and `b`.
    fn num_div(&self, a: u64, b: u64) -> u64;

    /// Bits of the remainder of the doubles encoded by `a` and `b`.
    fn num_rem(&self, a: u64, b: u64) -> u64;

    /// A human-readable decimal rendering of the double encoded by `bits`.
    fn num_render(&self, bits: u64) -> Vec<u8>;
}

/// Whether `b` is the bit pattern of an IEEE-754 double equal to zero.
/// Exactly two patterns compare equal to 0.0: positive and negative zero.
pub open spec fn zero_bits(b: u64) -> bool {
    b == 0u64 || b == 0x8000_0000_0000_0000u64
}

/// Decides whether `b` encodes a double equal to zero.
pub fn is_zero_bits(b: u64) -> (r: bool)
    ensures
        r == zero_bits(b),
{
    b == 0 || b == 0x8000_0000_0000_0000
}

} // verus!
