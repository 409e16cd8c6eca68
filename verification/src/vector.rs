use vstd::prelude::*;
use crate::fixed::{
    clamp_wide, floor_div, is_isqrt, isqrt, lemma_isqrt_exists, lemma_product_fits, saturate,
    spec_isqrt, Fixed,
};

verus! {

/// A point or a displacement in the plane. The second coordinate is the depth,
/// which grows downwards.
#[derive(Debug, Clone, Copy, PartialEq, Eq, Hash, Structural)]
pub struct Vec2 {
    pub x: Fixed,
    pub y: Fixed,
}

/// The square of a 64-bit number has room in 127 bits.
proof fn lemma_square_fits(a: int)
    requires
        i64::MIN <= a <= i64::MAX,
    ensures
        0 <= a * a <= 0x4000_0000_0000_0000_0000_0000_0000_0000,
{
    lemma_product_fits(a, a);
    assert(0 <= a * a) by (nonlinear_arith);
}

/// The square of `a`, computed on its magnitude.
pub fn square(a: i64) -> (r: u128)
    ensures
        r == a * a,
        r <= 0x4000_0000_0000_0000_0000_0000_0000_0000,
{
    let m: u128 = if a < 0 {
        (-(a as i128)) as u128
    } else {
        a as u128
    };
    proof {
        lemma_square_fits(a as int);
        assert((m as int) * (m as int) == (a as int) * (a as int)) by (nonlinear_arith)
            requires
                m as int == a as int || m as int == -(a as int),
        ;
    }
    m * m
}

impl Vec2 {
    /// The vector with these coordinates.
    pub open spec fn spec_new(x: Fixed, y: Fixed) -> Vec2 {
        Vec2 { x, y }
    }

    /// The vector of no length.
    pub open spec fn spec_zero() -> Vec2 {
        Vec2 { x: Fixed { raw: 0 }, y: Fixed { raw: 0 } }
    }

    /// The sum, coordinate by coordinate.
    pub open spec fn spec_plus(self, other: Vec2) -> Vec2 {
        Vec2 { x: self.x.plus(other.x), y: self.y.plus(other.y) }
    }

    /// The difference, coordinate by coordinate.
    pub open spec fn spec_minus(self, other: Vec2) -> Vec2 {
        Vec2 { x: self.x.minus(other.x), y: self.y.minus(other.y) }
    }

    /// The vector stretched by `factor`.
    pub open spec fn spec_scale(self, factor: Fixed) -> Vec2 {
        Vec2 { x: self.x.times(factor), y: self.y.times(factor) }
    }

    /// The vector divided by `divisor`.
    pub open spec fn spec_shrink(self, divisor: Fixed) -> Vec2 {
        Vec2 { x: self.x.over(divisor), y: self.y.over(divisor) }
    }

    /// The squared length, in squared raw units. Comparing squared lengths
    /// orders vectors by length without rounding.
    pub open spec fn spec_len_sq(self) -> nat {
        (self.x.raw * self.x.raw + self.y.raw * self.y.raw) as nat
    }

    /// The length in raw units, rounded down.
    pub open spec fn spec_len_raw(self) -> nat {
        spec_isqrt(self.spec_len_sq())
    }

    /// The vector of length one that points the same way. The zero vector,
    /// which points nowhere, stays zero.
    pub open spec fn spec_normalize(self) -> Vec2 {
        let len = self.spec_len_raw() as int;
        if len == 0 {
            Vec2::spec_zero()
        } else {
            Vec2 {
                x: Fixed { raw: saturate((self.x.raw * 1_000_000) / len) as i64 },
                y: Fixed { raw: saturate((self.y.raw * 1_000_000) / len) as i64 },
            }
        }
    }

    /// The vector itself where it is at most `max_len` long (a negative
    /// `max_len` counts as zero), else the vector shortened to that length.
    pub open spec fn spec_clamp_len(self, max_len: Fixed) -> Vec2 {
        let cap: int = if max_len.raw > 0 {
            max_len.raw as int
        } else {
            0
        };
        let len = self.spec_len_raw() as int;
        if self.spec_len_sq() > cap * cap && len > 0 {
            Vec2 {
                x: Fixed { raw: saturate((self.x.raw * cap) / len) as i64 },
                y: Fixed { raw: saturate((self.y.raw * cap) / len) as i64 },
            }
        } else {
            self
        }
    }

    /// The vector with these coordinates.
    #[verifier::when_used_as_spec(spec_new)]
    pub fn new(x: Fixed, y: Fixed) -> (r: Vec2)
        ensures
            r == Vec2::spec_new(x, y),
    {
        Vec2 { x, y }
    }

    /// The vector of no length.
    #[verifier::when_used_as_spec(spec_zero)]
    pub fn zero() -> (r: Vec2)
        ensures
            r == Vec2::spec_zero(),
    {
        Vec2 { x: Fixed { raw: 0 }, y: Fixed { raw: 0 } }
    }

    /// The sum, coordinate by coordinate.
    #[verifier::when_used_as_spec(spec_plus)]
    pub fn plus(self, other: Vec2) -> (r: Vec2)
        ensures
            r == self.spec_plus(other),
    {
        Vec2 { x: self.x.plus(other.x), y: self.y.plus(other.y) }
    }

    /// The difference, coordinate by coordinate.
    #[verifier::when_used_as_spec(spec_minus)]
    pub fn minus(self, other: Vec2) -> (r: Vec2)
        ensures
            r == self.spec_minus(other),
    {
        Vec2 { x: self.x.minus(other.x), y: self.y.minus(other.y) }
    }

    /// The vector stretched by `factor`.
    #[verifier::when_used_as_spec(spec_scale)]
    pub fn scale(self, factor: Fixed) -> (r: Vec2)
        ensures
            r == self.spec_scale(factor),
    {
        Vec2 { x: self.x.times(factor), y: self.y.times(factor) }
    }

    /// The vector divided by `divisor`.
    #[verifier::when_used_as_spec(spec_shrink)]
    pub fn shrink(self, divisor: Fixed) -> (r: Vec2)
        ensures
            r == self.spec_shrink(divisor),
    {
        Vec2 { x: self.x.over(divisor), y: self.y.over(divisor) }
    }

    /// The squared length, in squared raw units.
    pub fn len_sq(self) -> (r: u128)
        ensures
            r == self.spec_len_sq(),
    {
        let a: u128 = square(self.x.raw);
        let b: u128 = square(self.y.raw);
        a + b
    }

    /// The vector of length one that points the same way; the zero vector stays
    /// zero.
    #[verifier::when_used_as_spec(spec_normalize)]
    pub fn normalize(self) -> (r: Vec2)
        ensures
            r == self.spec_normalize(),
    {
        let len: u64 = isqrt(self.len_sq());
        if len == 0 {
            Vec2::zero()
        } else {
            let x: i128 = floor_div((self.x.raw as i128) * 1_000_000, len as i128);
            let y: i128 = floor_div((self.y.raw as i128) * 1_000_000, len as i128);
            Vec2 { x: Fixed { raw: clamp_wide(x) }, y: Fixed { raw: clamp_wide(y) } }
        }
    }

    /// The vector itself where it is at most `max_len` long, else shortened to
    /// that length.
    #[verifier::when_used_as_spec(spec_clamp_len)]
    pub fn clamp_len(self, max_len: Fixed) -> (r: Vec2)
        ensures
            r == self.spec_clamp_len(max_len),
    {
        let cap: i64 = if max_len.raw > 0 {
            max_len.raw
        } else {
            0
        };
        let len_sq: u128 = self.len_sq();
        let cap_sq: u128 = square(cap);
        let len: u64 = isqrt(len_sq);
        if len_sq > cap_sq && len > 0 {
            proof {
                lemma_product_fits(self.x.raw as int, cap as int);
                lemma_product_fits(self.y.raw as int, cap as int);
            }
            let x: i128 = floor_div((self.x.raw as i128) * (cap as i128), len as i128);
            let y: i128 = floor_div((self.y.raw as i128) * (cap as i128), len as i128);
            Vec2 { x: Fixed { raw: clamp_wide(x) }, y: Fixed { raw: clamp_wide(y) } }
        } else {
            self
        }
    }
}

/// A coordinate is no longer than the vector: its share of the length lies
/// between minus one whole and one whole.
proof fn lemma_share_is_bounded(a: int, b: int, len: int)
    requires
        len > 0,
        len * len <= a * a + b * b < (len + 1) * (len + 1),
    ensures
        -1_000_000 <= (a * 1_000_000) / len <= 1_000_000,
{
    assert(0 <= b * b) by (nonlinear_arith);
    assert(-len <= a <= len) by (nonlinear_arith)
        requires
            a * a < (len + 1) * (len + 1),
            len > 0,
    ;
    assert(-1_000_000 <= (a * 1_000_000) / len <= 1_000_000) by (nonlinear_arith)
        requires
            -len <= a <= len,
            len > 0,
    ;
}

/// A direction has no coordinate beyond one whole.
pub proof fn lemma_direction_is_bounded(v: Vec2)
    ensures
        -1_000_000 <= v.spec_normalize().x.raw <= 1_000_000,
        -1_000_000 <= v.spec_normalize().y.raw <= 1_000_000,
{
    let n = v.spec_len_sq();
    let len = spec_isqrt(n) as int;
    lemma_isqrt_exists(n);
    assert(is_isqrt(n, len as nat));
    assert(0 <= v.x.raw * v.x.raw) by (nonlinear_arith);
    assert(0 <= v.y.raw * v.y.raw) by (nonlinear_arith);
    if len > 0 {
        lemma_share_is_bounded(v.x.raw as int, v.y.raw as int, len);
        assert(v.y.raw * v.y.raw + v.x.raw * v.x.raw == v.x.raw * v.x.raw + v.y.raw * v.y.raw);
        lemma_share_is_bounded(v.y.raw as int, v.x.raw as int, len);
    }
}

} // verus!
