use vstd::prelude::*;

verus! {

/// An exact nonnegative rational number `num / den`.
///
/// Every photometric metric of this crate (hue, saturation, lightness,
/// brightness, and so on) is a ratio of small integers derived from 8-bit
/// channel values, so metric values are kept as exact fractions and compared
/// by cross-multiplication.  The denominator is always positive.
#[derive(Clone, Copy, PartialEq, Eq, Structural, Debug)]
pub struct Frac {
    pub num: u32,
    pub den: u32,
}

impl Frac {
    /// A fraction is well formed when its denominator is positive.
    pub open spec fn wf(self) -> bool {
        self.den >= 1
    }
}

/// `a <= b` as rational numbers: `a.num / a.den <= b.num / b.den`,
/// stated by cross-multiplication (denominators are positive).
pub open spec fn frac_le(a: Frac, b: Frac) -> bool {
    a.num * b.den <= b.num * a.den
}

/// `a < b` as rational numbers.
pub open spec fn frac_lt(a: Frac, b: Frac) -> bool {
    a.num * b.den < b.num * a.den
}

/// Exact `<=` on fractions.  The cross products of two `u32` values always
/// fit in a `u64`.
pub fn frac_le_exec(a: Frac, b: Frac) -> (r: bool)
    ensures
        r == frac_le(a, b),
{
    proof {
        lemma_u32_mul_fits(a.num, b.den);
        lemma_u32_mul_fits(b.num, a.den);
    }
    (a.num as u64) * (b.den as u64) <= (b.num as u64) * (a.den as u64)
}

/// Exact `<` on fractions.
pub fn frac_lt_exec(a: Frac, b: Frac) -> (r: bool)
    ensures
        r == frac_lt(a, b),
{
    proof {
        lemma_u32_mul_fits(a.num, b.den);
        lemma_u32_mul_fits(b.num, a.den);
    }
    (a.num as u64) * (b.den as u64) < (b.num as u64) * (a.den as u64)
}

/// The product of two `u32` values fits in a `u64`, with room to add one
/// more `u32` on top.
pub proof fn lemma_u32_mul_fits(x: u32, y: u32)
    ensures
        x * y <= u64::MAX - u32::MAX,
        x * y <= u64::MAX,
{
    assert(x * y <= (u32::MAX as int) * (u32::MAX as int)) by (nonlinear_arith)
        requires x <= u32::MAX && y <= u32::MAX,
    ;
}

/// Strict and non-strict comparison are complementary.
pub proof fn lemma_frac_lt_not_le(a: Frac, b: Frac)
    ensures
        frac_lt(a, b) <==> !frac_le(b, a),
{
}

/// `<=` on well-formed fractions is transitive.
pub proof fn lemma_frac_le_trans(a: Frac, b: Frac, c: Frac)
    requires
        a.wf(),
        b.wf(),
        c.wf(),
        frac_le(a, b),
        frac_le(b, c),
    ensures
        frac_le(a, c),
{
    assert(a.num * c.den <= c.num * a.den) by (nonlinear_arith)
        requires
            a.den >= 1 && b.den >= 1 && c.den >= 1,
            a.num * b.den <= b.num * a.den,
            b.num * c.den <= c.num * b.den,
    ;
}

} // verus!
