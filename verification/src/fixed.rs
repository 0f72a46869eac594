//! Fixed-point real numbers.
//!
//! Every quantity that filters compute with (normalized samples, kernel
//! weights, filter responses) is a [`Fixed`]: a signed number with 32
//! fractional bits. Arithmetic saturates at the ends of the representable
//! range and rounds to the nearest representable value, ties away from zero,
//! so every operation is total and deterministic.
use vstd::prelude::*;

verus! {

/// The raw representation of `1.0`.
pub const SCALE: i64 = 0x1_0000_0000;

/// A real number `raw / 2^32`.
#[derive(Clone, Copy, Debug, PartialEq, Eq, Structural)]
pub struct Fixed {
    pub raw: i64,
}

impl View for Fixed {
    type V = int;

    /// The raw representation as a mathematical integer.
    open spec fn view(&self) -> int {
        self.raw as int
    }
}

/// `v` limited to the range of a 64-bit signed integer.
pub open spec fn saturate(v: int) -> int {
    if v < i64::MIN as int {
        i64::MIN as int
    } else if v > i64::MAX as int {
        i64::MAX as int
    } else {
        v
    }
}

/// The absolute value of `v`.
pub open spec fn magnitude(v: int) -> int {
    if v < 0 {
        -v
    } else {
        v
    }
}

/// The integer nearest to `p / d`, ties away from zero. Meaningful for `d != 0`.
pub open spec fn round_div(p: int, d: int) -> int {
    let q = (2 * magnitude(p) + magnitude(d)) / (2 * magnitude(d));
    if (p < 0) != (d < 0) {
        -q
    } else {
        q
    }
}

/// `v` limited to the unit interval `[0, SCALE]`.
pub open spec fn clamp_unit(v: int) -> int {
    if v < 0 {
        0
    } else if v > SCALE as int {
        SCALE as int
    } else {
        v
    }
}

/// The raw sum of two numbers.
pub open spec fn plus_spec(a: int, b: int) -> int {
    saturate(a + b)
}

/// The raw difference of two numbers.
pub open spec fn minus_spec(a: int, b: int) -> int {
    saturate(a - b)
}

/// The raw product of two numbers.
pub open spec fn times_spec(a: int, b: int) -> int {
    saturate(round_div(a * b, SCALE as int))
}

/// The raw quotient of two numbers. A non-zero number over zero is the end of
/// the range on its side; zero over zero is zero.
pub open spec fn over_spec(a: int, b: int) -> int {
    if b == 0 {
        if a > 0 {
            i64::MAX as int
        } else if a < 0 {
            i64::MIN as int
        } else {
            0
        }
    } else {
        saturate(round_div(a * SCALE as int, b))
    }
}

/// The raw remainder of `a` over `b`, with the sign of `a`. The remainder over
/// zero is zero.
pub open spec fn modulo_spec(a: int, b: int) -> int {
    if b == 0 {
        0
    } else if a < 0 {
        -(magnitude(a) % magnitude(b))
    } else {
        magnitude(a) % magnitude(b)
    }
}

/// The raw representation of `num / den`, for `den != 0`.
pub open spec fn ratio_spec(num: int, den: int) -> int {
    saturate(round_div(num * SCALE as int, den))
}

/// Builds the number with signed magnitude `q`, saturating.
fn from_magnitude(negative: bool, q: u128) -> (r: Fixed)
    ensures
        r@ == saturate(
            if negative {
                -(q as int)
            } else {
                q as int
            },
        ),
{
    if negative {
        if q >= 0x8000_0000_0000_0000 {
            Fixed { raw: i64::MIN }
        } else {
            Fixed { raw: -(q as i64) }
        }
    } else {
        if q > 0x7fff_ffff_ffff_ffff {
            Fixed { raw: i64::MAX }
        } else {
            Fixed { raw: q as i64 }
        }
    }
}

/// The absolute value of `v`, which always fits 64 unsigned bits.
fn magnitude_of(v: i64) -> (m: u64)
    ensures
        m == magnitude(v as int),
{
    if v == i64::MIN {
        0x8000_0000_0000_0000
    } else if v < 0 {
        (-v) as u64
    } else {
        v as u64
    }
}

impl Fixed {
    /// Whether the number lies in the unit interval `[0, 1]`.
    pub open spec fn is_unit(self) -> bool {
        0 <= self.raw <= SCALE
    }

    /// The number `0.0`.
    pub fn zero() -> (r: Fixed)
        ensures
            r@ == 0,
    {
        Fixed { raw: 0 }
    }

    /// The number `1.0`.
    pub fn one() -> (r: Fixed)
        ensures
            r@ == SCALE,
    {
        Fixed { raw: SCALE }
    }

    /// The whole number `n`.
    pub fn from_int(n: i32) -> (r: Fixed)
        ensures
            r@ == n * SCALE,
    {
        Fixed { raw: (n as i64) * SCALE }
    }

    /// The number nearest to `num / den`.
    pub fn from_ratio(num: u64, den: u64) -> (r: Fixed)
        requires
            den != 0,
        ensures
            r@ == ratio_spec(num as int, den as int),
    {
        let p: u128 = (num as u128) * 0x1_0000_0000;
        let q: u128 = (2 * p + den as u128) / (2 * (den as u128));
        from_magnitude(false, q)
    }

    /// The sum, saturating.
    pub fn plus(self, other: Fixed) -> (r: Fixed)
        ensures
            r@ == plus_spec(self@, other@),
    {
        let s: i128 = self.raw as i128 + other.raw as i128;
        if s > i64::MAX as i128 {
            Fixed { raw: i64::MAX }
        } else if s < i64::MIN as i128 {
            Fixed { raw: i64::MIN }
        } else {
            Fixed { raw: s as i64 }
        }
    }

    /// The difference, saturating.
    pub fn minus(self, other: Fixed) -> (r: Fixed)
        ensures
            r@ == minus_spec(self@, other@),
    {
        let s: i128 = self.raw as i128 - other.raw as i128;
        if s > i64::MAX as i128 {
            Fixed { raw: i64::MAX }
        } else if s < i64::MIN as i128 {
            Fixed { raw: i64::MIN }
        } else {
            Fixed { raw: s as i64 }
        }
    }

    /// The product, rounded to the nearest representable number and
    /// saturating.
    pub fn times(self, other: Fixed) -> (r: Fixed)
        ensures
            r@ == times_spec(self@, other@),
    {
        let a: u64 = magnitude_of(self.raw);
        let b: u64 = magnitude_of(other.raw);
        proof {
            lemma_magnitude_product(self@, other@);
            assert(a * b <= 0x8000_0000_0000_0000 * 0x8000_0000_0000_0000) by (nonlinear_arith)
                requires
                    0 <= a <= 0x8000_0000_0000_0000,
                    0 <= b <= 0x8000_0000_0000_0000,
            ;
        }
        let p: u128 = (a as u128) * (b as u128);
        let q: u128 = (2 * p + 0x1_0000_0000) / 0x2_0000_0000;
        let negative = (self.raw < 0) != (other.raw < 0);
        proof {
            lemma_product_sign(self@, other@);
            lemma_product_sign(a as int, b as int);
            assert(p == magnitude(self@ * other@));
        }
        if p == 0 {
            Fixed { raw: 0 }
        } else {
            from_magnitude(negative, q)
        }
    }

    /// The quotient, rounded to the nearest representable number and
    /// saturating. Division by zero saturates on the side of the dividend.
    pub fn over(self, other: Fixed) -> (r: Fixed)
        ensures
            r@ == over_spec(self@, other@),
    {
        if other.raw == 0 {
            if self.raw > 0 {
                Fixed { raw: i64::MAX }
            } else if self.raw < 0 {
                Fixed { raw: i64::MIN }
            } else {
                Fixed { raw: 0 }
            }
        } else {
            let a: u64 = magnitude_of(self.raw);
            let b: u64 = magnitude_of(other.raw);
            let p: u128 = (a as u128) * 0x1_0000_0000;
            let q: u128 = (2 * p + b as u128) / (2 * (b as u128));
            let negative = (self.raw < 0) != (other.raw < 0);
            proof {
                let n = self@ * SCALE as int;
                assert(magnitude(n) == p);
                assert((n < 0) == (self@ < 0));
            }
            if self.raw == 0 {
                assert(q == 0) by {
                    assert(p == 0);
                    assert((b as int) / (2 * (b as int)) == 0) by (nonlinear_arith)
                        requires
                            b > 0,
                    ;
                }
                Fixed { raw: 0 }
            } else {
                from_magnitude(negative, q)
            }
        }
    }

    /// The remainder of the division by `other`, with the sign of `self`.
    pub fn modulo(self, other: Fixed) -> (r: Fixed)
        ensures
            r@ == modulo_spec(self@, other@),
    {
        if other.raw == 0 {
            Fixed { raw: 0 }
        } else {
            let a: u64 = magnitude_of(self.raw);
            let b: u64 = magnitude_of(other.raw);
            let m: u64 = a % b;
            assert(m < 0x8000_0000_0000_0000) by {
                assert(a % b < b) by (nonlinear_arith)
                    requires
                        b > 0,
                ;
            }
            if self.raw < 0 {
                Fixed { raw: -(m as i64) }
            } else {
                Fixed { raw: m as i64 }
            }
        }
    }

    /// The number limited to the unit interval `[0, 1]`.
    pub fn clamp_unit(self) -> (r: Fixed)
        ensures
            r@ == clamp_unit(self@),
            r.is_unit(),
    {
        if self.raw < 0 {
            Fixed { raw: 0 }
        } else if self.raw > SCALE {
            Fixed { raw: SCALE }
        } else {
            self
        }
    }
}

/// The magnitude of a product is the product of the magnitudes.
pub proof fn lemma_magnitude_product(a: int, b: int)
    ensures
        magnitude(a * b) == magnitude(a) * magnitude(b),
{
    assert(magnitude(a * b) == magnitude(a) * magnitude(b)) by (nonlinear_arith);
}

/// A non-zero product is negative exactly when its factors differ in sign.
pub proof fn lemma_product_sign(a: int, b: int)
    ensures
        (a * b < 0) == (a != 0 && b != 0 && ((a < 0) != (b < 0))),
        (a * b == 0) == (a == 0 || b == 0),
{
    assert((a * b < 0) == (a != 0 && b != 0 && ((a < 0) != (b < 0)))) by (nonlinear_arith);
    assert((a * b == 0) == (a == 0 || b == 0)) by (nonlinear_arith);
}

} // verus!
