//! Signed fixed-point fractions, used for every intensity budget so that
//! splitting a budget never loses or creates energy.

use vstd::prelude::*;

verus! {

/// Number of raw steps that make up the value one.
pub const UNIT: i64 = 16777216;

/// Half of `UNIT`, the offset used for rounding to the nearest integer.
pub const HALF_UNIT: i64 = 8388608;

/// A signed fixed-point number whose value is `raw / UNIT`.
#[derive(Clone, Copy, Debug, PartialEq, Eq, Structural)]
pub struct Fixed {
    pub raw: i64,
}

/// Whether a mathematical integer can be stored as a raw `i64`.
pub open spec fn fits(x: int) -> bool {
    i64::MIN <= x <= i64::MAX
}

/// The raw value of the product of two raw values, truncated toward zero.
pub open spec fn scaled_product(a: int, b: int) -> int {
    let p = a * b;
    if p >= 0 {
        p / (UNIT as int)
    } else {
        -((-p) / (UNIT as int))
    }
}

impl Fixed {
    /// The value in steps of `1 / UNIT`.
    pub open spec fn val(self) -> int {
        self.raw as int
    }

    /// Zero.
    pub fn zero() -> (r: Fixed)
        ensures
            r.val() == 0,
    {
        Fixed { raw: 0 }
    }

    /// One.
    pub fn one() -> (r: Fixed)
        ensures
            r.val() == UNIT,
    {
        Fixed { raw: UNIT }
    }

    /// The product `self * other`, or `None` when it does not fit.
    pub fn checked_mul(self, other: Fixed) -> (r: Option<Fixed>)
        ensures
            r is Some <==> fits(scaled_product(self.val(), other.val())),
            r matches Some(p) ==> p.val() == scaled_product(self.val(), other.val()),
    {
        proof {
            let a = self.raw as int;
            let b = other.raw as int;
            assert(-0x4000_0000_0000_0000_0000_0000_0000_0000 <= a * b
                <= 0x4000_0000_0000_0000_0000_0000_0000_0000) by (nonlinear_arith)
                requires
                    -0x8000_0000_0000_0000 <= a <= 0x8000_0000_0000_0000,
                    -0x8000_0000_0000_0000 <= b <= 0x8000_0000_0000_0000,
            ;
        }
        let p: i128 = self.raw as i128 * other.raw as i128;
        let q: i128 = if p >= 0 {
            p / (UNIT as i128)
        } else {
            -((-p) / (UNIT as i128))
        };
        if q < i64::MIN as i128 || q > i64::MAX as i128 {
            None
        } else {
            Some(Fixed { raw: q as i64 })
        }
    }

    /// The sum `self + other`, or `None` when it does not fit.
    pub fn checked_add(self, other: Fixed) -> (r: Option<Fixed>)
        ensures
            r is Some <==> fits(self.val() + other.val()),
            r matches Some(s) ==> s.val() == self.val() + other.val(),
    {
        let s: i128 = self.raw as i128 + other.raw as i128;
        if s < i64::MIN as i128 || s > i64::MAX as i128 {
            None
        } else {
            Some(Fixed { raw: s as i64 })
        }
    }

    /// The difference `self - other`, or `None` when it does not fit.
    pub fn checked_sub(self, other: Fixed) -> (r: Option<Fixed>)
        ensures
            r is Some <==> fits(self.val() - other.val()),
            r matches Some(d) ==> d.val() == self.val() - other.val(),
    {
        let d: i128 = self.raw as i128 - other.raw as i128;
        if d < i64::MIN as i128 || d > i64::MAX as i128 {
            None
        } else {
            Some(Fixed { raw: d as i64 })
        }
    }
}

/// Multiplying by zero gives zero.
pub proof fn lemma_scaled_product_zero(a: int)
    ensures
        scaled_product(0, a) == 0,
        scaled_product(a, 0) == 0,
{
}

/// Multiplying by one gives the other factor back.
pub proof fn lemma_scaled_product_unit(a: int)
    ensures
        scaled_product(a, UNIT as int) == a,
        scaled_product(UNIT as int, a) == a,
{
    let u = UNIT as int;
    assert(a * u == u * a) by (nonlinear_arith);
    if a >= 0 {
        assert((a * u) / u == a) by (nonlinear_arith) requires u > 0;
    } else {
        assert(-(a * u) == (-a) * u) by (nonlinear_arith);
        assert(((-a) * u) / u == -a) by (nonlinear_arith) requires u > 0;
    }
}

/// A product of a value in `[0, UNIT]` with any value is no larger in
/// magnitude than that value, and keeps its sign.
pub proof fn lemma_scaled_product_fraction(f: int, a: int)
    requires
        0 <= f <= UNIT,
    ensures
        a >= 0 ==> 0 <= scaled_product(f, a) <= a,
        a < 0 ==> a <= scaled_product(f, a) <= 0,
        scaled_product(a, f) == scaled_product(f, a),
{
    let u = UNIT as int;
    assert(a * f == f * a) by (nonlinear_arith);
    if a >= 0 {
        assert(0 <= f * a <= u * a) by (nonlinear_arith) requires 0 <= f <= u, a >= 0;
        assert((f * a) / u <= a) by (nonlinear_arith) requires 0 <= f * a <= u * a, u > 0;
        assert(0 <= (f * a) / u) by (nonlinear_arith) requires 0 <= f * a, u > 0;
    } else {
        assert(u * a <= f * a <= 0) by (nonlinear_arith) requires 0 <= f <= u, a < 0;
        assert(0 <= -(f * a) <= u * (-a)) by (nonlinear_arith) requires u * a <= f * a <= 0;
        assert((-(f * a)) / u <= -a) by (nonlinear_arith) requires 0 <= -(f * a) <= u * (-a), u > 0;
        assert(0 <= (-(f * a)) / u) by (nonlinear_arith) requires 0 <= -(f * a), u > 0;
    }
}

/// A fixed-point product is the exact product rounded toward zero: it is off
/// by less than one step.
pub proof fn lemma_scaled_product_error(a: int, b: int)
    ensures
        a * b >= 0 ==> scaled_product(a, b) * UNIT <= a * b < (scaled_product(a, b) + 1) * UNIT,
        a * b < 0 ==> (scaled_product(a, b) - 1) * UNIT < a * b <= scaled_product(a, b) * UNIT,
{
    let u = UNIT as int;
    let p = a * b;
    if p >= 0 {
        let q = p / u;
        assert(q * u <= p < (q + 1) * u) by (nonlinear_arith)
            requires
                p >= 0,
                u > 0,
                q == p / u,
        ;
    } else {
        let q = (-p) / u;
        assert(q * u <= -p < (q + 1) * u) by (nonlinear_arith)
            requires
                -p > 0,
                u > 0,
                q == (-p) / u,
        ;
        assert((-q - 1) * u < p <= (-q) * u) by (nonlinear_arith)
            requires
                q * u <= -p < (q + 1) * u,
        ;
    }
}

} // verus!
