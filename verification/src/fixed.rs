//! Signed fixed-point numbers with 56 fractional bits.

use vstd::prelude::*;

verus! {

/// Number of fractional bits of a [`Fixed`].
pub const FRACTION_BITS: u32 = 56;

/// The raw representation of the number one: two to the power of 56.
pub const ONE: i64 = 0x0100_0000_0000_0000;

/// Quotient of `a` by a positive `b`, rounded toward zero.
pub open spec fn trunc_div(a: int, b: int) -> int
    recommends
        b > 0,
{
    if a >= 0 {
        a / b
    } else {
        -((-a) / b)
    }
}

/// Raw representation of the product of the numbers whose raw
/// representations are `a` and `b`, rounded toward zero.
pub open spec fn fx_mul(a: int, b: int) -> int {
    trunc_div(a * b, ONE as int)
}

/// The reciprocal of a positive raw representation, rounded down.
pub open spec fn reciprocal(factor: int) -> int {
    (ONE as int * ONE as int) / factor
}

/// Whether `v` is the raw representation of some [`Fixed`].
pub open spec fn fits(v: int) -> bool {
    i64::MIN <= v <= i64::MAX
}

/// A number `raw / 2^56`, held as the 64-bit integer `raw`.
///
/// The representable range is `[-128, 128)` with a resolution of `2^-56`.
#[derive(Clone, Copy, Debug, PartialEq, Eq, Structural)]
pub struct Fixed {
    raw: i64,
}

impl View for Fixed {
    type V = int;

    /// The raw representation: the number times `2^56`.
    open spec fn view(&self) -> int {
        self.raw() as int
    }
}

impl Fixed {
    /// The raw representation as a machine integer.
    pub closed spec fn raw(self) -> i64 {
        self.raw
    }

    /// The number whose raw representation is `raw`.
    pub fn from_raw(raw: i64) -> (r: Fixed)
        ensures
            r@ == raw,
    {
        Fixed { raw }
    }

    /// The raw representation.
    pub fn to_raw(self) -> (r: i64)
        ensures
            r == self@,
    {
        self.raw
    }

    /// The whole number `n`.
    pub fn from_int(n: i8) -> (r: Fixed)
        ensures
            r@ == n * ONE,
    {
        Fixed { raw: (n as i64) * ONE }
    }

    /// The reciprocal rounded down, or `None` where the number is not
    /// positive or its reciprocal is out of range.
    pub fn reciprocal(self) -> (r: Option<Fixed>)
        ensures
            self@ > 0 && fits(reciprocal(self@)) ==> r.is_some() && r.unwrap()@ == reciprocal(
                self@,
            ),
            !(self@ > 0 && fits(reciprocal(self@))) ==> r.is_none(),
    {
        if self.raw <= 0 {
            return None;
        }
        assert(ONE * ONE == 0x1_0000_0000_0000_0000_0000_0000_0000) by (nonlinear_arith);
        let square: i128 = (ONE as i128) * (ONE as i128);
        let wide: i128 = square / (self.raw as i128);
        if wide > i64::MAX as i128 {
            None
        } else {
            Some(Fixed { raw: wide as i64 })
        }
    }
}

/// The product `fx_mul(a, b)` in a type wide enough for every pair.
pub fn mul_wide(a: i64, b: i64) -> (r: i128)
    ensures
        r == fx_mul(a as int, b as int),
        -0x40_0000_0000_0000_0000 <= r <= 0x40_0000_0000_0000_0000,
{
    proof {
        lemma_product_bound(a as int, b as int, 0x8000_0000_0000_0000, 0x8000_0000_0000_0000);
    }
    let p: i128 = (a as i128) * (b as i128);
    p / (ONE as i128)
}

/// A product is bounded by the product of the bounds of its factors.
pub proof fn lemma_product_bound(a: int, b: int, x: int, y: int)
    requires
        -x <= a <= x,
        -y <= b <= y,
    ensures
        -(x * y) <= a * b <= x * y,
{
    assert(-(x * y) <= a * b <= x * y) by (nonlinear_arith)
        requires
            -x <= a <= x,
            -y <= b <= y,
    ;
}

/// Rounding toward zero commutes with negation.
pub proof fn lemma_trunc_div_neg(a: int, b: int)
    requires
        b > 0,
    ensures
        trunc_div(-a, b) == -trunc_div(a, b),
{
    if a == 0 {
        assert(0int / b == 0) by (nonlinear_arith)
            requires
                b > 0,
        ;
    }
}

/// The fixed-point product is odd in its first factor.
pub proof fn lemma_fx_mul_neg(a: int, b: int)
    ensures
        fx_mul(-a, b) == -fx_mul(a, b),
{
    assert((-a) * b == -(a * b)) by (nonlinear_arith);
    lemma_trunc_div_neg(a * b, ONE as int);
}

} // verus!
