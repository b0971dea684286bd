//! Signed fixed-point numbers with sixteen fractional bits.
//!
//! A [`Fixed`] holds `raw`, which stands for the rational `raw / 65536`. The
//! view of a `Fixed` is `raw` as a mathematical integer, and every contract is
//! stated over that integer. Results that leave the range of `i32` saturate;
//! quotients round towards negative infinity.

use vstd::prelude::*;
use vstd::arithmetic::div_mod::lemma_fundamental_div_mod_converse;

verus! {

/// The raw value that stands for `1.0`.
pub const ONE_RAW: i32 = 65536;

/// The nearest value to `x` that an `i32` can hold.
pub open spec fn saturate(x: int) -> int {
    if x < -0x8000_0000 {
        -0x8000_0000
    } else if x > 0x7fff_ffff {
        0x7fff_ffff
    } else {
        x
    }
}

/// Raw product of two raw values: `a * b / 65536`, rounded down, saturated.
pub open spec fn mul_raw(a: int, b: int) -> int {
    saturate((a * b) / 65536)
}

/// Raw value of the fraction `num / den`: `num * 65536 / den`, rounded down,
/// saturated.
pub open spec fn ratio_raw(num: int, den: int) -> int {
    saturate((num * 65536) / den)
}

/// A fixed-point number; `raw` counts units of `1 / 65536`.
#[derive(Clone, Copy, Debug, PartialEq, Eq)]
pub struct Fixed {
    pub raw: i32,
}

impl View for Fixed {
    type V = int;

    open spec fn view(&self) -> int {
        self.raw as int
    }
}

/// Quotient of `a` by a positive `b`, rounded towards negative infinity.
pub(crate) fn floor_div(a: i128, b: i128) -> (q: i128)
    requires
        b > 0,
        -0x4000_0000_0000_0000_0000_0000_0000_0000 < a < 0x4000_0000_0000_0000_0000_0000_0000_0000,
    ensures
        q == (a as int) / (b as int),
        q * b <= a < q * b + b,
{
    if a >= 0 {
        let q: i128 = a / b;
        proof {
            vstd::arithmetic::div_mod::lemma_fundamental_div_mod(a as int, b as int);
            vstd::arithmetic::div_mod::lemma_mod_bound(a as int, b as int);
            assert((b as int) * (q as int) == (q as int) * (b as int)) by (nonlinear_arith);
        }
        q
    } else {
        let n: i128 = -a;
        let t: i128 = (n - 1) / b;
        let q: i128 = -t - 1;
        proof {
            let ti = t as int;
            let bi = b as int;
            let ni = n as int;
            assert(ti * bi <= ni - 1 < ti * bi + bi) by {
                vstd::arithmetic::div_mod::lemma_fundamental_div_mod(ni - 1, bi);
                vstd::arithmetic::div_mod::lemma_mod_bound(ni - 1, bi);
                assert(bi * ti == ti * bi) by (nonlinear_arith);
            }
            let r = (a as int) - (q as int) * bi;
            assert((q as int) * bi == -(ti * bi) - bi) by (nonlinear_arith)
                requires
                    q as int == -ti - 1,
            ;
            assert(0 <= r < bi);
            lemma_fundamental_div_mod_converse(a as int, bi, q as int, r);
        }
        q
    }
}

/// The `i32` nearest to `x`.
pub(crate) fn saturate_to_i32(x: i128) -> (r: i32)
    ensures
        r as int == saturate(x as int),
{
    if x < -0x8000_0000 {
        -0x8000_0000
    } else if x > 0x7fff_ffff {
        0x7fff_ffff
    } else {
        x as i32
    }
}

impl Fixed {
    /// The number whose raw value is `raw`.
    pub fn from_raw(raw: i32) -> (r: Fixed)
        ensures
            r@ == raw,
    {
        Fixed { raw }
    }

    /// The raw value.
    pub fn raw(self) -> (r: i32)
        ensures
            r == self@,
    {
        self.raw
    }

    /// The whole number `n`, saturated.
    pub fn from_int(n: i32) -> (r: Fixed)
        ensures
            r@ == saturate(n * 65536),
    {
        let wide: i128 = (n as i128) * 65536;
        Fixed { raw: saturate_to_i32(wide) }
    }

    /// The fraction `num / den`, rounded down to a multiple of `1 / 65536` and
    /// saturated.
    pub fn from_ratio(num: i64, den: i64) -> (r: Fixed)
        requires
            den > 0,
        ensures
            r@ == ratio_raw(num as int, den as int),
    {
        let scaled: i128 = (num as i128) * 65536;
        let q: i128 = floor_div(scaled, den as i128);
        proof {
            lemma_div_bound(scaled as int, den as int);
        }
        Fixed { raw: saturate_to_i32(q) }
    }

    /// Sum, saturated.
    pub fn saturating_add(self, other: Fixed) -> (r: Fixed)
        ensures
            r@ == saturate(self@ + other@),
    {
        let wide: i128 = (self.raw as i128) + (other.raw as i128);
        Fixed { raw: saturate_to_i32(wide) }
    }

    /// Difference, saturated.
    pub fn saturating_sub(self, other: Fixed) -> (r: Fixed)
        ensures
            r@ == saturate(self@ - other@),
    {
        let wide: i128 = (self.raw as i128) - (other.raw as i128);
        Fixed { raw: saturate_to_i32(wide) }
    }

    /// Product, rounded down and saturated.
    pub fn saturating_mul(self, other: Fixed) -> (r: Fixed)
        ensures
            r@ == mul_raw(self@, other@),
    {
        let a: i128 = self.raw as i128;
        let b: i128 = other.raw as i128;
        assert(-0x4000_0000_0000_0000 <= a * b <= 0x4000_0000_0000_0000) by (nonlinear_arith)
            requires
                -0x8000_0000 <= a <= 0x7fff_ffff,
                -0x8000_0000 <= b <= 0x7fff_ffff,
        ;
        let q: i128 = floor_div(a * b, 65536);
        Fixed { raw: saturate_to_i32(q) }
    }

    /// Quotient by a positive whole number, rounded down.
    pub fn div_int(self, n: u32) -> (r: Fixed)
        requires
            n > 0,
        ensures
            r@ == self@ / (n as int),
    {
        let q: i128 = floor_div(self.raw as i128, n as i128);
        proof {
            lemma_div_bound(self.raw as int, n as int);
        }
        Fixed { raw: q as i32 }
    }

    /// Half of the number, rounded down.
    pub fn half(self) -> (r: Fixed)
        ensures
            r@ == self@ / 2,
    {
        self.div_int(2)
    }

    /// Whether `self` is strictly greater than `other`.
    pub fn gt(self, other: Fixed) -> (r: bool)
        ensures
            r == (self@ > other@),
    {
        self.raw > other.raw
    }

    /// Whether `self` is at least `other`.
    pub fn ge(self, other: Fixed) -> (r: bool)
        ensures
            r == (self@ >= other@),
    {
        self.raw >= other.raw
    }
}

/// A quotient by a positive divisor lies between zero and the dividend.
pub proof fn lemma_div_bound(a: int, b: int)
    requires
        b > 0,
    ensures
        a >= 0 ==> 0 <= a / b <= a,
        a < 0 ==> a <= a / b < 0,
{
    vstd::arithmetic::div_mod::lemma_fundamental_div_mod(a, b);
    vstd::arithmetic::div_mod::lemma_mod_bound(a, b);
    let q = a / b;
    let r = a % b;
    assert(a == b * q + r);
    if a >= 0 {
        assert(q >= 0) by (nonlinear_arith)
            requires
                a == b * q + r,
                0 <= r < b,
                a >= 0,
                b > 0,
        ;
        assert(q <= a) by (nonlinear_arith)
            requires
                a == b * q + r,
                0 <= r < b,
                q >= 0,
                b > 0,
        ;
    } else {
        assert(q < 0) by (nonlinear_arith)
            requires
                a == b * q + r,
                0 <= r < b,
                a < 0,
                b > 0,
        ;
        assert(a <= q) by (nonlinear_arith)
            requires
                a == b * q + r,
                0 <= r < b,
                q < 0,
                b > 0,
        ;
    }
}

} // verus!
