//! Signed fixed-point numbers with sixteen fractional bits.
//!
//! A [`Fixed`] holds `raw`, and stands for the rational `raw / 65536`. Sums and
//! differences are exact on raw values. Products and quotients are rounded
//! down, toward negative infinity. Operations compute in a wider integer and
//! narrow at the end, so a result is `None` exactly when it leaves the 32-bit
//! range.

use vstd::prelude::*;

verus! {

/// Raw value of the number one.
pub const ONE: i32 = 65536;

/// A fixed-point number: `raw / 65536`.
#[derive(Clone, Copy, Debug, PartialEq, Eq, Structural)]
pub struct Fixed {
    pub raw: i32,
}

/// Whether `v` is the raw value of some [`Fixed`].
pub open spec fn fits(v: int) -> bool {
    i32::MIN <= v <= i32::MAX
}

/// The number with raw value `v`, if there is one.
pub open spec fn narrowed(v: int) -> Option<Fixed> {
    if fits(v) {
        Some(Fixed { raw: v as i32 })
    } else {
        None
    }
}

/// Absolute value of an integer.
pub open spec fn magnitude(v: int) -> int {
    if v >= 0 {
        v
    } else {
        -v
    }
}

/// The floor of `n / d`, whatever the sign of `d`.
pub open spec fn floor_quotient(n: int, d: int) -> int {
    if d > 0 {
        n / d
    } else {
        (-n) / (-d)
    }
}

/// `n / d` rounded to the nearest integer, a half going up.
pub open spec fn nearest_quotient(n: int, d: int) -> int {
    floor_quotient(2 * n + d, 2 * d)
}

/// Raw value of the rounded product of the numbers with raw values `a` and `b`.
pub open spec fn scaled_product(a: int, b: int) -> int {
    (a * b) / 65536
}

/// Raw value of the rounded quotient of the numbers with raw values `a` and `b`.
pub open spec fn scaled_quotient(a: int, b: int) -> int {
    floor_quotient(a * 65536, b)
}

/// Whole part of the number with raw value `v`, rounded toward zero.
pub open spec fn whole_part(v: int) -> int {
    if v >= 0 {
        v / 65536
    } else {
        -((-v) / 65536)
    }
}

/// For a positive divisor the quotient lies between zero and the dividend.
pub proof fn lemma_quotient_bound(a: int, b: int)
    requires
        b > 0,
    ensures
        a >= 0 ==> 0 <= a / b <= a,
        a < 0 ==> a <= a / b < 0,
{
    let q = a / b;
    let r = a % b;
    vstd::arithmetic::div_mod::lemma_fundamental_div_mod(a, b);
    vstd::arithmetic::div_mod::lemma_mod_bound(a, b);
    assert((a >= 0 ==> 0 <= q <= a) && (a < 0 ==> a <= q < 0)) by (nonlinear_arith)
        requires
            a == b * q + r,
            0 <= r < b,
            b > 0,
    ;
}

/// A floor quotient is no larger in magnitude than its dividend.
pub proof fn lemma_floor_quotient_bound(n: int, d: int)
    requires
        d != 0,
    ensures
        n >= 0 ==> -n <= floor_quotient(n, d) <= n,
        n < 0 ==> n <= floor_quotient(n, d) <= -n,
{
    if d > 0 {
        lemma_quotient_bound(n, d);
    } else {
        lemma_quotient_bound(-n, -d);
    }
}

/// The nearest quotient is within half a unit of the exact one:
/// `|q d - n| <= |d| / 2`.
pub proof fn lemma_nearest_quotient(n: int, d: int)
    requires
        d != 0,
    ensures
        -magnitude(d) <= 2 * (nearest_quotient(n, d) * d - n) <= magnitude(d),
{
    let q = nearest_quotient(n, d);
    if d > 0 {
        let m = 2 * n + d;
        let r = m % (2 * d);
        vstd::arithmetic::div_mod::lemma_fundamental_div_mod(m, 2 * d);
        vstd::arithmetic::div_mod::lemma_mod_bound(m, 2 * d);
        assert((2 * d) * q == 2 * (q * d)) by (nonlinear_arith);
    } else {
        let e = -d;
        let m = -(2 * n + d);
        let r = m % (2 * e);
        vstd::arithmetic::div_mod::lemma_fundamental_div_mod(m, 2 * e);
        vstd::arithmetic::div_mod::lemma_mod_bound(m, 2 * e);
        assert((2 * e) * q == -(2 * (q * d))) by (nonlinear_arith)
            requires
                e == -d,
        ;
    }
}

/// A rounded product is bounded by the rounded product of the bounds of its
/// factors.
pub proof fn lemma_scaled_product_bound(a: int, b: int, bound_a: int, bound_b: int)
    requires
        -bound_a <= a <= bound_a,
        -bound_b <= b <= bound_b,
    ensures
        (-(bound_a * bound_b)) / 65536 <= scaled_product(a, b) <= (bound_a * bound_b) / 65536,
{
    assert(-(bound_a * bound_b) <= a * b <= bound_a * bound_b) by (nonlinear_arith)
        requires
            -bound_a <= a <= bound_a,
            -bound_b <= b <= bound_b,
    ;
    vstd::arithmetic::div_mod::lemma_div_is_ordered(a * b, bound_a * bound_b, 65536);
    vstd::arithmetic::div_mod::lemma_div_is_ordered(-(bound_a * bound_b), a * b, 65536);
}

/// Floor of `a / b` for a positive divisor.
pub fn floor_div(a: i128, b: i128) -> (q: i128)
    requires
        b > 0,
    ensures
        q == a as int / b as int,
{
    proof {
        lemma_quotient_bound(a as int, b as int);
    }
    match a.checked_div_euclid(b) {
        Some(q) => q,
        None => 0,
    }
}

/// Floor of `n / d` for a divisor of either sign.
pub fn floor_ratio(n: i128, d: i128) -> (q: i128)
    requires
        d != 0,
        d > i128::MIN,
        n > i128::MIN,
    ensures
        q == floor_quotient(n as int, d as int),
{
    if d > 0 {
        floor_div(n, d)
    } else {
        floor_div(-n, -d)
    }
}

/// `n / d` rounded to the nearest integer, a half going up.
pub fn nearest_ratio(n: i128, d: i128) -> (q: i128)
    requires
        d != 0,
        -0x1000_0000_0000_0000_0000_0000_0000_0000 <= n <= 0x1000_0000_0000_0000_0000_0000_0000_0000,
        -0x1000_0000_0000_0000_0000_0000_0000_0000 <= d <= 0x1000_0000_0000_0000_0000_0000_0000_0000,
    ensures
        q == nearest_quotient(n as int, d as int),
{
    floor_ratio(2 * n + d, 2 * d)
}

/// The rounded product of two wide raw values.
pub fn scaled_mul(a: i128, b: i128) -> (p: i128)
    requires
        -0x4000_0000_0000_0000 <= a <= 0x4000_0000_0000_0000,
        -0x4000_0000_0000_0000 <= b <= 0x4000_0000_0000_0000,
    ensures
        p == scaled_product(a as int, b as int),
{
    assert(-0x1000_0000_0000_0000_0000_0000_0000_0000 <= a * b
        <= 0x1000_0000_0000_0000_0000_0000_0000_0000) by (nonlinear_arith)
        requires
            -0x4000_0000_0000_0000 <= a <= 0x4000_0000_0000_0000,
            -0x4000_0000_0000_0000 <= b <= 0x4000_0000_0000_0000,
    ;
    floor_div(a * b, 65536)
}

/// The rounded quotient of two wide raw values.
pub fn scaled_div(a: i128, b: i128) -> (q: i128)
    requires
        b != 0,
        b > i128::MIN,
        -0x4000_0000_0000_0000_0000_0000_0000 <= a <= 0x4000_0000_0000_0000_0000_0000_0000,
    ensures
        q == scaled_quotient(a as int, b as int),
{
    floor_ratio(a * 65536, b)
}

/// The number with raw value `v`, unless `v` is out of range.
pub fn narrow(v: i128) -> (r: Option<Fixed>)
    ensures
        r == narrowed(v as int),
{
    if -2147483648 <= v && v <= 2147483647 {
        Some(Fixed { raw: v as i32 })
    } else {
        None
    }
}

impl Fixed {
    /// The number with the given raw value.
    pub fn from_raw(raw: i32) -> (r: Fixed)
        ensures
            r.raw == raw,
    {
        Fixed { raw }
    }

    /// The whole number `n`.
    pub fn from_int(n: i16) -> (r: Fixed)
        ensures
            r.raw == n * 65536,
    {
        Fixed { raw: (n as i32) * ONE }
    }

    /// The rounded product, unless it is out of range.
    pub fn checked_mul(self, rhs: Fixed) -> (r: Option<Fixed>)
        ensures
            r == narrowed(scaled_product(self.raw as int, rhs.raw as int)),
    {
        narrow(scaled_mul(self.raw as i128, rhs.raw as i128))
    }

    /// The rounded quotient, unless the divisor is zero or the quotient is out of
    /// range.
    pub fn checked_div(self, rhs: Fixed) -> (r: Option<Fixed>)
        ensures
            r == (if rhs.raw == 0 {
                None
            } else {
                narrowed(scaled_quotient(self.raw as int, rhs.raw as int))
            }),
    {
        if rhs.raw == 0 {
            None
        } else {
            narrow(scaled_div(self.raw as i128, rhs.raw as i128))
        }
    }

    /// The whole part, rounded toward zero.
    pub fn to_whole(self) -> (r: i32)
        ensures
            r == whole_part(self.raw as int),
    {
        self.raw / ONE
    }
}

} // verus!
