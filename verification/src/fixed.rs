use vstd::prelude::*;
use vstd::arithmetic::div_mod::lemma_fundamental_div_mod;
use vstd::arithmetic::div_mod::lemma_fundamental_div_mod_converse;

verus! {

/// Raw units that make up one whole: a `Fixed` counts millionths.
pub const UNIT: i64 = 1_000_000;

/// The nearest `i64` to `x`.
pub open spec fn saturate(x: int) -> int {
    if x < i64::MIN {
        i64::MIN as int
    } else if x > i64::MAX {
        i64::MAX as int
    } else {
        x
    }
}

/// The nearest `i32` to `x`.
pub open spec fn saturate32(x: int) -> int {
    if x < i32::MIN {
        i32::MIN as int
    } else if x > i32::MAX {
        i32::MAX as int
    } else {
        x
    }
}

/// Whether `r` is the largest number whose square is not above `n`.
pub open spec fn is_isqrt(n: nat, r: nat) -> bool {
    r * r <= n < (r + 1) * (r + 1)
}

/// The integer square root: the largest `r` with `r * r <= n`.
pub open spec fn spec_isqrt(n: nat) -> nat {
    choose|r: nat| is_isqrt(n, r)
}

/// Two numbers that both bracket `n` between their square and the next square are equal.
pub proof fn lemma_isqrt_unique(n: nat, a: nat, b: nat)
    requires
        a * a <= n < (a + 1) * (a + 1),
        b * b <= n < (b + 1) * (b + 1),
    ensures
        a == b,
{
    if a < b {
        assert((a + 1) * (a + 1) <= b * b) by (nonlinear_arith)
            requires
                a + 1 <= b,
        ;
    } else if b < a {
        assert((b + 1) * (b + 1) <= a * a) by (nonlinear_arith)
            requires
                b + 1 <= a,
        ;
    }
}

/// Every number has an integer square root.
pub proof fn lemma_isqrt_exists(n: nat)
    ensures
        is_isqrt(n, spec_isqrt(n)),
    decreases n,
{
    if n == 0 {
        assert(0nat * 0nat <= 0nat && 0nat < (0nat + 1) * (0nat + 1)) by (nonlinear_arith);
        assert(is_isqrt(0, 0));
    } else {
        lemma_isqrt_exists((n - 1) as nat);
        let r = spec_isqrt((n - 1) as nat);
        if (r + 1) * (r + 1) <= n {
            assert(n < (r + 2) * (r + 2)) by (nonlinear_arith)
                requires
                    n - 1 < (r + 1) * (r + 1),
            ;
            assert(is_isqrt(n, r + 1));
        } else {
            assert(r * r <= n) by (nonlinear_arith)
                requires
                    r * r <= n - 1,
            ;
            assert(is_isqrt(n, r));
        }
    }
}

/// The product of two 64-bit numbers has room in 128 bits.
pub proof fn lemma_product_fits(a: int, b: int)
    requires
        i64::MIN <= a <= i64::MAX,
        i64::MIN <= b <= i64::MAX,
    ensures
        -0x4000_0000_0000_0000_0000_0000_0000_0000 <= a * b
            <= 0x4000_0000_0000_0000_0000_0000_0000_0000,
{
    assert(-0x4000_0000_0000_0000_0000_0000_0000_0000 <= a * b
        <= 0x4000_0000_0000_0000_0000_0000_0000_0000) by (nonlinear_arith)
        requires
            -0x8000_0000_0000_0000 <= a <= 0x8000_0000_0000_0000,
            -0x8000_0000_0000_0000 <= b <= 0x8000_0000_0000_0000,
    ;
}

/// Narrows a wide number to 64 bits, stopping at the ends of the range.
pub fn clamp_wide(x: i128) -> (r: i64)
    ensures
        r == saturate(x as int),
{
    if x < i64::MIN as i128 {
        i64::MIN
    } else if x > i64::MAX as i128 {
        i64::MAX
    } else {
        x as i64
    }
}

/// Quotient of `n` by a positive `d`, rounded towards negative infinity.
pub fn floor_div(n: i128, d: i128) -> (q: i128)
    requires
        d > 0,
        n > i128::MIN,
    ensures
        q == (n as int) / (d as int),
{
    if n >= 0 {
        let q: u128 = (n as u128) / (d as u128);
        q as i128
    } else {
        let m: u128 = (-n) as u128;
        let du: u128 = d as u128;
        let qm: u128 = m / du;
        let rm: u128 = m % du;
        proof {
            lemma_fundamental_div_mod(m as int, du as int);
        }
        if rm == 0 {
            proof {
                assert((n as int) == (-(qm as int)) * (d as int) + 0) by (nonlinear_arith)
                    requires
                        (m as int) == (du as int) * (qm as int) + 0,
                        (n as int) == -(m as int),
                        du as int == d as int,
                ;
                lemma_fundamental_div_mod_converse(n as int, d as int, -(qm as int), 0);
            }
            -(qm as i128)
        } else {
            proof {
                assert((n as int) == (-(qm as int) - 1) * (d as int) + ((d as int) - (rm as int)))
                    by (nonlinear_arith)
                    requires
                        (m as int) == (du as int) * (qm as int) + (rm as int),
                        (n as int) == -(m as int),
                        du as int == d as int,
                ;
                lemma_fundamental_div_mod_converse(
                    n as int,
                    d as int,
                    -(qm as int) - 1,
                    (d as int) - (rm as int),
                );
            }
            -(qm as i128) - 1
        }
    }
}

/// The integer square root of `n`.
pub fn isqrt(n: u128) -> (r: u64)
    ensures
        r * r <= n < (r + 1) * (r + 1),
        r == spec_isqrt(n as nat),
{
    let mut lo: u128 = 0;
    let mut hi: u128 = 0x1_0000_0000_0000_0000;
    assert(n < hi * hi) by (nonlinear_arith)
        requires
            hi == 0x1_0000_0000_0000_0000,
            n <= u128::MAX,
    ;
    while hi - lo > 1
        invariant
            lo < hi <= 0x1_0000_0000_0000_0000,
            lo * lo <= n < hi * hi,
        decreases hi - lo,
    {
        let mid: u128 = lo + (hi - lo) / 2;
        assert(mid * mid <= 0xffff_ffff_ffff_ffff * 0xffff_ffff_ffff_ffff) by (nonlinear_arith)
            requires
                0 <= mid <= 0xffff_ffff_ffff_ffff,
        ;
        if mid * mid <= n {
            lo = mid;
        } else {
            hi = mid;
        }
    }
    proof {
        assert(hi == lo + 1);
        assert(is_isqrt(n as nat, lo as nat));
        lemma_isqrt_unique(n as nat, lo as nat, spec_isqrt(n as nat));
    }
    lo as u64
}

/// A number with six decimal places, held as a count of millionths.
///
/// Sums, differences and products that leave the 64-bit range stop at its ends,
/// and quotients are rounded towards negative infinity.
#[derive(Debug, Clone, Copy, PartialEq, Eq, Hash, Structural)]
pub struct Fixed {
    pub raw: i64,
}

impl Fixed {
    /// The number of `raw` millionths.
    pub open spec fn spec_from_raw(raw: i64) -> Fixed {
        Fixed { raw }
    }

    /// The whole number `n`.
    pub open spec fn spec_from_int(n: i32) -> Fixed {
        Fixed { raw: (n * 1_000_000) as i64 }
    }

    /// The sum, stopped at the ends of the range.
    pub open spec fn spec_plus(self, other: Fixed) -> Fixed {
        Fixed { raw: saturate(self.raw + other.raw) as i64 }
    }

    /// The difference, stopped at the ends of the range.
    pub open spec fn spec_minus(self, other: Fixed) -> Fixed {
        Fixed { raw: saturate(self.raw - other.raw) as i64 }
    }

    /// The product, rounded down and stopped at the ends of the range.
    pub open spec fn spec_times(self, other: Fixed) -> Fixed {
        Fixed { raw: saturate((self.raw * other.raw) / 1_000_000) as i64 }
    }

    /// Division. A quotient by zero is the end of the range on the side of the
    /// dividend's sign, and zero for a zero dividend.
    pub open spec fn spec_over(self, other: Fixed) -> Fixed {
        if other.raw > 0 {
            Fixed { raw: saturate((self.raw * 1_000_000) / (other.raw as int)) as i64 }
        } else if other.raw < 0 {
            Fixed { raw: saturate((-(self.raw * 1_000_000)) / (-(other.raw as int))) as i64 }
        } else if self.raw > 0 {
            Fixed { raw: i64::MAX }
        } else if self.raw < 0 {
            Fixed { raw: i64::MIN }
        } else {
            Fixed { raw: 0 }
        }
    }

    /// Half of the number, rounded down.
    pub open spec fn spec_half(self) -> Fixed {
        Fixed { raw: (self.raw / 2) as i64 }
    }

    /// The distance from zero, stopped at the upper end of the range.
    pub open spec fn spec_abs(self) -> Fixed {
        if self.raw >= 0 {
            self
        } else {
            Fixed { raw: saturate(-self.raw) as i64 }
        }
    }

    /// The largest whole number that is not above `self`, as a grid coordinate.
    pub open spec fn spec_floor(self) -> i32 {
        saturate32(self.raw / 1_000_000) as i32
    }

    pub open spec fn spec_min(self, other: Fixed) -> Fixed {
        if self.raw <= other.raw {
            self
        } else {
            other
        }
    }

    /// The greater of the two.
    pub open spec fn spec_max(self, other: Fixed) -> Fixed {
        if self.raw >= other.raw {
            self
        } else {
            other
        }
    }

    /// The number of `raw` millionths.
    #[verifier::when_used_as_spec(spec_from_raw)]
    pub fn from_raw(raw: i64) -> (r: Fixed)
        ensures
            r == Fixed::spec_from_raw(raw),
    {
        Fixed { raw }
    }

    /// The whole number `n`.
    #[verifier::when_used_as_spec(spec_from_int)]
    pub fn from_int(n: i32) -> (r: Fixed)
        ensures
            r == Fixed::spec_from_int(n),
    {
        Fixed { raw: (n as i64) * 1_000_000 }
    }

    /// The sum, stopped at the ends of the range.
    #[verifier::when_used_as_spec(spec_plus)]
    pub fn plus(self, other: Fixed) -> (r: Fixed)
        ensures
            r == self.spec_plus(other),
    {
        Fixed { raw: clamp_wide(self.raw as i128 + other.raw as i128) }
    }

    /// The difference, stopped at the ends of the range.
    #[verifier::when_used_as_spec(spec_minus)]
    pub fn minus(self, other: Fixed) -> (r: Fixed)
        ensures
            r == self.spec_minus(other),
    {
        Fixed { raw: clamp_wide(self.raw as i128 - other.raw as i128) }
    }

    /// The product, rounded down and stopped at the ends of the range.
    #[verifier::when_used_as_spec(spec_times)]
    pub fn times(self, other: Fixed) -> (r: Fixed)
        ensures
            r == self.spec_times(other),
    {
        proof {
            lemma_product_fits(self.raw as int, other.raw as int);
        }
        let p: i128 = (self.raw as i128) * (other.raw as i128);
        Fixed { raw: clamp_wide(floor_div(p, 1_000_000)) }
    }

    /// The quotient, rounded down and stopped at the ends of the range.
    #[verifier::when_used_as_spec(spec_over)]
    pub fn over(self, other: Fixed) -> (r: Fixed)
        ensures
            r == self.spec_over(other),
    {
        let n: i128 = (self.raw as i128) * 1_000_000;
        if other.raw > 0 {
            Fixed { raw: clamp_wide(floor_div(n, other.raw as i128)) }
        } else if other.raw < 0 {
            Fixed { raw: clamp_wide(floor_div(-n, -(other.raw as i128))) }
        } else if self.raw > 0 {
            Fixed { raw: i64::MAX }
        } else if self.raw < 0 {
            Fixed { raw: i64::MIN }
        } else {
            Fixed { raw: 0 }
        }
    }

    /// Half of the number, rounded down.
    #[verifier::when_used_as_spec(spec_half)]
    pub fn half(self) -> (r: Fixed)
        ensures
            r == self.spec_half(),
    {
        Fixed { raw: floor_div(self.raw as i128, 2) as i64 }
    }

    /// The distance from zero, stopped at the upper end of the range.
    #[verifier::when_used_as_spec(spec_abs)]
    pub fn abs(self) -> (r: Fixed)
        ensures
            r == self.spec_abs(),
    {
        if self.raw >= 0 {
            self
        } else {
            Fixed { raw: clamp_wide(-(self.raw as i128)) }
        }
    }

    #[verifier::when_used_as_spec(spec_floor)]
    pub fn floor(self) -> (r: i32)
        ensures
            r == self.spec_floor(),
    {
        let q: i128 = floor_div(self.raw as i128, 1_000_000);
        if q < i32::MIN as i128 {
            i32::MIN
        } else if q > i32::MAX as i128 {
            i32::MAX
        } else {
            q as i32
        }
    }

    #[verifier::when_used_as_spec(spec_min)]
    pub fn min(self, other: Fixed) -> (r: Fixed)
        ensures
            r == self.spec_min(other),
    {
        if self.raw <= other.raw {
            self
        } else {
            other
        }
    }

    /// The greater of the two.
    #[verifier::when_used_as_spec(spec_max)]
    pub fn max(self, other: Fixed) -> (r: Fixed)
        ensures
            r == self.spec_max(other),
    {
        if self.raw >= other.raw {
            self
        } else {
            other
        }
    }
}

} // verus!
