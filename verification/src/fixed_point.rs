//! Fixed-point numbers with 48 fractional bits.
//!
//! A number is held by its bits: it is `bits / 2^48`. The arithmetic that rounds is that of the
//! `fixed` crate.

use vstd::prelude::*;

verus! {

/// Two to the power of 48: the bits of the number one.
pub const ONE_BITS: i128 = 0x1_0000_0000_0000;

/// A fixed-point number.
#[derive(Clone, Copy, Debug, PartialEq, Eq, Structural)]
pub struct I80F48 {
    pub bits: i128,
}

/// The number is not negative and its whole part fits in 64 bits.
pub open spec fn fits_u64(x: I80F48) -> bool {
    0 <= x.bits && x.bits / ONE_BITS <= u64::MAX
}

/// The whole part of a number that is not negative.
pub open spec fn whole(x: I80F48) -> int {
    x.bits as int / ONE_BITS as int
}

/// The bits of a product, rounded down.
pub open spec fn product_bits(a: I80F48, b: I80F48) -> int {
    (a.bits * b.bits) / (ONE_BITS as int)
}

/// The product, rounded down, if it can be represented.
pub open spec fn product(a: I80F48, b: I80F48) -> Option<I80F48> {
    if i128::MIN <= product_bits(a, b) <= i128::MAX {
        Some(I80F48 { bits: product_bits(a, b) as i128 })
    } else {
        None
    }
}

/// Half of a number, rounded towards zero.
pub open spec fn half_bits(x: I80F48) -> int {
    if x.bits >= 0 {
        x.bits as int / 2
    } else {
        -((-x.bits) / 2)
    }
}

/// `I80F48::to_num::<u64>` of the `fixed` crate discards the fractional bits of a number whose
/// whole part fits.
#[verifier::external_body]
fn fixed_to_u64(x: I80F48) -> (n: u64)
    requires
        fits_u64(x),
    ensures
        n == whole(x),
{
    fixed::types::I80F48::from_bits(x.bits).to_num::<u64>()
}

/// `I80F48::checked_mul` of the `fixed` crate: the product, rounded down to 48 fractional bits,
/// or `None` where it does not fit.
#[verifier::external_body]
fn fixed_checked_mul(a: I80F48, b: I80F48) -> (p: Option<I80F48>)
    ensures
        p == product(a, b),
{
    fixed::types::I80F48::from_bits(a.bits).checked_mul(
        fixed::types::I80F48::from_bits(b.bits),
    ).map(|product| I80F48 { bits: product.to_bits() })
}

/// Division of `I80F48` of the `fixed` crate by the integer two: half of the bits, rounded
/// towards zero.
#[verifier::external_body]
fn fixed_half(x: I80F48) -> (h: I80F48)
    ensures
        h.bits == half_bits(x),
{
    I80F48 { bits: (fixed::types::I80F48::from_bits(x.bits) / 2).to_bits() }
}

impl I80F48 {
    /// The number with these bits.
    pub fn from_bits(bits: i128) -> (x: I80F48)
        ensures
            x.bits == bits,
    {
        I80F48 { bits }
    }

    /// Whether the number is not negative and its whole part fits in 64 bits.
    pub fn is_u64(&self) -> (r: bool)
        ensures
            r == fits_u64(*self),
    {
        0 <= self.bits && self.bits / ONE_BITS <= u64::MAX as i128
    }

    /// The whole part. The fractional part is cut off.
    pub fn to_u64(&self) -> (n: u64)
        requires
            fits_u64(*self),
        ensures
            n == whole(*self),
    {
        fixed_to_u64(*self)
    }

    /// The product, rounded down, or `None` where it does not fit.
    pub fn checked_mul(&self, other: I80F48) -> (p: Option<I80F48>)
        ensures
            p == product(*self, other),
    {
        fixed_checked_mul(*self, other)
    }

    /// Half of the number, rounded towards zero.
    pub fn half(&self) -> (h: I80F48)
        ensures
            h.bits == half_bits(*self),
    {
        fixed_half(*self)
    }

    /// The difference, where it fits.
    pub fn minus(&self, other: I80F48) -> (d: I80F48)
        requires
            i128::MIN <= self.bits - other.bits <= i128::MAX,
        ensures
            d.bits == self.bits - other.bits,
    {
        I80F48 { bits: self.bits - other.bits }
    }

    /// Whether this number is larger than another.
    pub fn exceeds(&self, other: I80F48) -> (r: bool)
        ensures
            r == (self.bits > other.bits),
    {
        self.bits > other.bits
    }
}

// ── Laws ─────────────────────────────────────────────────────────────────────

/// The whole part is the largest whole number that does not exceed the number.
pub proof fn law_the_whole_part_is_cut_off(x: I80F48)
    requires
        0 <= x.bits,
    ensures
        whole(x) >= 0,
        whole(x) * ONE_BITS <= x.bits < (whole(x) + 1) * ONE_BITS,
        fits_u64(x) <==> whole(x) <= u64::MAX,
{
}

/// A product is rounded down by less than the last bit, and there is none only where it cannot be
/// represented.
pub proof fn law_a_product_is_rounded_down(a: I80F48, b: I80F48)
    ensures
        match product(a, b) {
            Some(p) => p.bits * ONE_BITS <= a.bits * b.bits < (p.bits + 1) * ONE_BITS,
            None => a.bits * b.bits >= (i128::MAX + 1) * ONE_BITS || a.bits * b.bits < i128::MIN
                * ONE_BITS,
        },
{
    let n = a.bits * b.bits;
    assert(n == (n / ONE_BITS as int) * ONE_BITS + n % ONE_BITS as int);
}

/// Twice the half is the number, but for the last bit of an odd one, and the half is never further
/// from zero than that.
pub proof fn law_a_half_is_half(x: I80F48)
    ensures
        x.bits >= 0 ==> 0 <= x.bits - 2 * half_bits(x) <= 1,
        x.bits < 0 ==> -1 <= x.bits - 2 * half_bits(x) <= 0,
{
}

}
