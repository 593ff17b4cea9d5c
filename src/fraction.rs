//! Fixed-point fractions in [0, 1], held as parts per billion.

use vstd::prelude::*;

verus! {

/// Number of parts that make one whole.
pub const ONE_PARTS: u32 = 1_000_000_000;

/// Parts in one percent.
pub const PERCENT_PARTS: u32 = 10_000_000;

/// An input rejected at construction or at entry.
#[derive(Debug, Clone, Copy, PartialEq, Eq, Structural)]
pub enum DomainError {
    /// A numerator larger than its denominator, or a zero denominator.
    NumeratorExceedsDenominator,
    /// A sampling domain of zero steps.
    ZeroDomainLength,
    /// Curve parameters that break the shape's invariant.
    InvalidCurve,
}

/// A value in [0, 1]: `parts` out of one billion.
#[derive(Debug, Clone, Copy, PartialEq, Eq, Structural)]
pub struct Fraction {
    pub parts: u32,
}

/// Projects an integer number of parts into [0, one].
pub open spec fn clamp_parts(v: int) -> int {
    if v < 0 {
        0
    } else if v > ONE_PARTS {
        ONE_PARTS as int
    } else {
        v
    }
}

/// `p / q` in parts, rounded down; one whole where `q` is zero or `p > q`.
pub open spec fn ratio_down(p: int, q: int) -> int {
    if q == 0 || p > q {
        ONE_PARTS as int
    } else {
        p * ONE_PARTS / q
    }
}

/// `p` parts of `n`, rounded to the nearest integer, ties going down.
pub open spec fn scale_nearest_down(p: int, n: int) -> int {
    let prod = p * n;
    let q = prod / (ONE_PARTS as int);
    let rem = prod % (ONE_PARTS as int);
    if rem > ONE_PARTS / 2 {
        q + 1
    } else {
        q
    }
}

impl Fraction {
    /// The value lies in [0, 1].
    pub open spec fn wf(self) -> bool {
        self.parts <= ONE_PARTS
    }

    pub fn zero() -> (r: Fraction)
        ensures
            r.parts == 0,
    {
        Fraction { parts: 0 }
    }

    pub fn one() -> (r: Fraction)
        ensures
            r.parts == ONE_PARTS,
    {
        Fraction { parts: ONE_PARTS }
    }

    /// Parts out of one billion, saturating at one.
    pub fn from_parts(parts: u32) -> (r: Fraction)
        ensures
            r.wf(),
            r.parts == if parts > ONE_PARTS { ONE_PARTS } else { parts },
    {
        if parts > ONE_PARTS {
            Fraction { parts: ONE_PARTS }
        } else {
            Fraction { parts }
        }
    }

    /// `x` percent, saturating at one hundred.
    pub fn from_percent(x: u32) -> (r: Fraction)
        ensures
            r.wf(),
            r.parts == (if x > 100 { 100 } else { x }) * PERCENT_PARTS,
    {
        let p: u32 = if x > 100 { 100 } else { x };
        Fraction { parts: p * PERCENT_PARTS }
    }

    /// `numerator / denominator`, rounded down.
    pub fn from_rational(numerator: u64, denominator: u64) -> (r: Result<Fraction, DomainError>)
        ensures
            r is Ok <==> (denominator > 0 && numerator <= denominator),
            r matches Ok(f) ==> f.wf() && f.parts == ratio_down(numerator as int, denominator as int),
            r matches Err(e) ==> e == DomainError::NumeratorExceedsDenominator,
    {
        if denominator == 0 || numerator > denominator {
            return Err(DomainError::NumeratorExceedsDenominator);
        }
        proof {
            assert(0 <= numerator * ONE_PARTS <= u128::MAX) by (nonlinear_arith)
                requires
                    numerator <= u64::MAX,
            ;
        }
        let prod: u128 = numerator as u128 * ONE_PARTS as u128;
        proof {
            lemma_ratio_down_le_one(numerator as int, denominator as int);
        }
        let q: u128 = prod / denominator as u128;
        Ok(Fraction { parts: q as u32 })
    }

    /// `self - other`, saturating at zero.
    pub fn saturating_sub(self, other: Fraction) -> (r: Fraction)
        ensures
            r.parts == if self.parts >= other.parts { self.parts - other.parts } else { 0 },
            self.wf() ==> r.wf(),
    {
        if self.parts >= other.parts {
            Fraction { parts: self.parts - other.parts }
        } else {
            Fraction { parts: 0 }
        }
    }

    /// `self * other`, rounded down.
    pub fn mul(self, other: Fraction) -> (r: Fraction)
        requires
            self.wf(),
            other.wf(),
        ensures
            r.wf(),
            r.parts == self.parts * other.parts / (ONE_PARTS as int),
            r.parts <= self.parts,
            r.parts <= other.parts,
    {
        proof {
            lemma_u32_product(self.parts, other.parts);
        }
        let prod: u64 = self.parts as u64 * other.parts as u64;
        proof {
            lemma_mul_div_le(self.parts as int, other.parts as int);
            lemma_mul_div_le(other.parts as int, self.parts as int);
            assert(self.parts * other.parts == other.parts * self.parts) by (nonlinear_arith);
        }
        let q: u64 = prod / ONE_PARTS as u64;
        Fraction { parts: q as u32 }
    }

    pub fn min(self, other: Fraction) -> (r: Fraction)
        ensures
            r == (if self.parts <= other.parts { self } else { other }),
    {
        if self.parts <= other.parts {
            self
        } else {
            other
        }
    }

    pub fn max(self, other: Fraction) -> (r: Fraction)
        ensures
            r == (if self.parts >= other.parts { self } else { other }),
    {
        if self.parts >= other.parts {
            self
        } else {
            other
        }
    }

    /// `self` taken `n` times, saturating at one.
    pub fn int_mul(self, n: u32) -> (r: Fraction)
        ensures
            r.wf(),
            r.parts == clamp_parts(self.parts * n),
    {
        proof {
            lemma_u32_product(self.parts, n);
        }
        let prod: u64 = self.parts as u64 * n as u64;
        proof {
            assert(0 <= self.parts * n) by (nonlinear_arith);
        }
        if prod > ONE_PARTS as u64 {
            Fraction { parts: ONE_PARTS }
        } else {
            Fraction { parts: prod as u32 }
        }
    }

    /// How many whole times `divisor` fits in `self`.
    pub fn int_div(self, divisor: Fraction) -> (r: u32)
        requires
            divisor.parts > 0,
        ensures
            r == self.parts / divisor.parts,
    {
        self.parts / divisor.parts
    }

    /// `self / divisor`, rounded down, saturating at one (also for a zero divisor).
    pub fn saturating_div_down(self, divisor: Fraction) -> (r: Fraction)
        ensures
            r.wf(),
            r.parts == ratio_down(self.parts as int, divisor.parts as int),
    {
        if divisor.parts == 0 || self.parts > divisor.parts {
            return Fraction { parts: ONE_PARTS };
        }
        proof {
            lemma_u32_product(self.parts, ONE_PARTS);
        }
        let prod: u64 = self.parts as u64 * ONE_PARTS as u64;
        proof {
            lemma_ratio_down_le_one(self.parts as int, divisor.parts as int);
        }
        let q: u64 = prod / divisor.parts as u64;
        Fraction { parts: q as u32 }
    }

    /// `self` of `n`, rounded to the nearest integer, ties going down.
    pub fn scale(self, n: u32) -> (r: u32)
        requires
            self.wf(),
        ensures
            r == scale_nearest_down(self.parts as int, n as int),
            r <= n,
    {
        proof {
            lemma_u32_product(self.parts, n);
        }
        let prod: u64 = self.parts as u64 * n as u64;
        let q: u64 = prod / ONE_PARTS as u64;
        let rem: u64 = prod % ONE_PARTS as u64;
        proof {
            lemma_scale_le(self.parts as int, n as int);
        }
        if rem > (ONE_PARTS / 2) as u64 {
            (q + 1) as u32
        } else {
            q as u32
        }
    }

    /// A signed number of parts projected into [0, 1] by saturation.
    pub fn clamped(v: i128) -> (r: Fraction)
        ensures
            r.wf(),
            r.parts == clamp_parts(v as int),
    {
        if v < 0 {
            Fraction { parts: 0 }
        } else if v > ONE_PARTS as i128 {
            Fraction { parts: ONE_PARTS }
        } else {
            Fraction { parts: v as u32 }
        }
    }

    /// The whole percent below or at the value, as a plotting coordinate.
    pub fn percent_coordinate(self) -> (r: i32)
        ensures
            r == self.parts / PERCENT_PARTS,
    {
        (self.parts / PERCENT_PARTS) as i32
    }
}

/// Two 32-bit factors multiply within 64 bits.
pub(crate) proof fn lemma_u32_product(a: u32, b: u32)
    ensures
        0 <= a * b <= u64::MAX,
{
    assert(0 <= a * b <= u64::MAX) by (nonlinear_arith)
        requires
            a <= u32::MAX,
            b <= u32::MAX,
    ;
}

/// A product of two fractions, rescaled, stays below each of them.
pub(crate) proof fn lemma_mul_div_le(a: int, b: int)
    requires
        0 <= a,
        0 <= b <= ONE_PARTS,
    ensures
        0 <= a * b / (ONE_PARTS as int) <= a,
{
    assert(0 <= a * b <= a * ONE_PARTS) by (nonlinear_arith)
        requires
            0 <= a,
            0 <= b <= ONE_PARTS,
    ;
    assert(a * ONE_PARTS / (ONE_PARTS as int) == a) by (nonlinear_arith);
    assert(a * b / (ONE_PARTS as int) <= a * ONE_PARTS / (ONE_PARTS as int)) by (nonlinear_arith)
        requires
            a * b <= a * ONE_PARTS,
    ;
    assert(0 <= a * b / (ONE_PARTS as int)) by (nonlinear_arith)
        requires
            0 <= a * b,
    ;
}

/// A ratio of `p <= q` stays within one whole.
pub(crate) proof fn lemma_ratio_down_le_one(p: int, q: int)
    requires
        0 <= p <= q,
        0 < q,
    ensures
        0 <= p * ONE_PARTS / q <= ONE_PARTS,
{
    assert(0 <= p * ONE_PARTS <= q * ONE_PARTS) by (nonlinear_arith)
        requires
            0 <= p <= q,
    ;
    assert(q * ONE_PARTS / q == ONE_PARTS) by (nonlinear_arith)
        requires
            0 < q,
    ;
    assert(p * ONE_PARTS / q <= q * ONE_PARTS / q) by (nonlinear_arith)
        requires
            p * ONE_PARTS <= q * ONE_PARTS,
            0 < q,
    ;
    assert(0 <= p * ONE_PARTS / q) by (nonlinear_arith)
        requires
            0 <= p * ONE_PARTS,
            0 < q,
    ;
}

/// Scaling `n` by a fraction never exceeds `n`.
pub(crate) proof fn lemma_scale_le(p: int, n: int)
    requires
        0 <= p <= ONE_PARTS,
        0 <= n,
    ensures
        0 <= scale_nearest_down(p, n) <= n,
{
    let prod = p * n;
    let k = ONE_PARTS as int;
    assert(0 <= prod <= n * k) by (nonlinear_arith)
        requires
            0 <= p <= k,
            0 <= n,
            prod == p * n,
    ;
    let q = prod / k;
    let rem = prod % k;
    assert(prod == k * q + rem && 0 <= rem < k) by (nonlinear_arith)
        requires
            k > 0,
            q == prod / k,
            rem == prod % k,
    ;
    assert(q <= n) by (nonlinear_arith)
        requires
            prod <= n * k,
            prod == k * q + rem,
            0 <= rem,
            k > 0,
    ;
    assert(q >= 0) by (nonlinear_arith)
        requires
            prod == k * q + rem,
            rem < k,
            prod >= 0,
            k > 0,
    ;
    if rem > k / 2 {
        assert(q < n) by (nonlinear_arith)
            requires
                prod <= n * k,
                prod == k * q + rem,
                rem > 0,
                k > 0,
        ;
    }
}

} // verus!
