//! The three curve shapes and their evaluation.

use vstd::prelude::*;
use vstd::arithmetic::div_mod::{
    lemma_div_is_ordered, lemma_div_is_ordered_by_denominator, lemma_div_pos_is_pos,
    lemma_fundamental_div_mod, lemma_fundamental_div_mod_converse_div, lemma_mod_pos_bound,
};
use vstd::arithmetic::mul::lemma_mul_inequality;
use sp_arithmetic::{FixedI64, SignedRounding};
use crate::fraction::{
    clamp_parts, lemma_mul_div_le, lemma_ratio_down_le_one, ratio_down, DomainError, Fraction,
    ONE_PARTS,
};

verus! {

/// A decision curve: the required threshold as a function of the elapsed
/// fraction of the decision window. Signed parameters are fixed-point values
/// with one billion inner units per whole.
#[derive(Debug, Clone, Copy, PartialEq, Eq, Structural)]
pub enum CurveModel {
    /// From `(0, ceil)` straight down to `(length, floor)`, then flat at `floor`.
    LinearDecreasing { length: Fraction, floor: Fraction, ceil: Fraction },
    /// Starts at `begin` and drops by `step` every `period`, never below `end`.
    SteppedDecreasing { begin: Fraction, end: Fraction, step: Fraction, period: Fraction },
    /// `factor / (x + x_offset) + y_offset`, clamped into [0, 1].
    Reciprocal { factor: i64, x_offset: i64, y_offset: i64 },
}

/// The linear shape at `x`.
pub open spec fn linear_value(length: int, floor: int, ceil: int, x: int) -> int {
    let m = if x <= length { x } else { length };
    ceil - ratio_down(m, length) * (ceil - floor) / (ONE_PARTS as int)
}

/// The stepped shape at `x`.
pub open spec fn stepped_value(begin: int, end: int, step: int, period: int, x: int) -> int {
    let drop = clamp_parts(step * (x / period));
    let dropped = if drop <= begin { begin - drop } else { 0 };
    if dropped >= end { dropped } else { end }
}

/// The fixed-point quotient `a / b`, rounded toward negative infinity (`b > 0`).
pub open spec fn fixed_quotient(a: int, b: int) -> int {
    a * ONE_PARTS / b
}

pub open spec fn fits_i64(v: int) -> bool {
    i64::MIN <= v <= i64::MAX
}

/// The fixed-point quotient `a / b`, rounded toward positive infinity (`b != 0`).
pub open spec fn fixed_quotient_up(a: int, b: int) -> int {
    if b > 0 {
        -((-(a * ONE_PARTS)) / b)
    } else {
        -((a * ONE_PARTS) / (-b))
    }
}

/// The reciprocal shape at `x`: one whole where the denominator is not
/// positive or the quotient leaves the 64-bit range.
pub open spec fn reciprocal_value(factor: int, x_offset: int, y_offset: int, x: int) -> int {
    let d = x + x_offset;
    if d <= 0 {
        ONE_PARTS as int
    } else {
        let q = fixed_quotient(factor, d);
        if !fits_i64(q) {
            ONE_PARTS as int
        } else {
            clamp_parts(q + y_offset)
        }
    }
}

/// Bound on the integers that the quotient helpers take.
pub open spec fn small(v: int) -> bool {
    -0x1_0000_0000_0000_0000_0000_0000 <= v <= 0x1_0000_0000_0000_0000_0000_0000
}

/// A 64-bit fixed-point value scaled by one whole stays small.
proof fn lemma_fixed_numerator(a: i64)
    ensures
        small(a * ONE_PARTS),
        small(-(a * ONE_PARTS)),
{
    assert(small(a * ONE_PARTS) && small(-(a * ONE_PARTS))) by (nonlinear_arith)
        requires
            i64::MIN <= a <= i64::MAX,
    ;
}

/// The floor of `-m / d` through the ceiling of `m / d`.
proof fn lemma_floor_of_negative(m: int, d: int)
    requires
        m > 0,
        d > 0,
    ensures
        (-m) / d == -((m + d - 1) / d),
{
    let q = (m + d - 1) / d;
    let s = (m + d - 1) % d;
    lemma_fundamental_div_mod(m + d - 1, d);
    lemma_mod_pos_bound(m + d - 1, d);
    assert(-m == (-q) * d + (d - 1 - s)) by (nonlinear_arith)
        requires
            m + d - 1 == d * q + s,
    ;
    lemma_fundamental_div_mod_converse_div(-m, d, -q, d - 1 - s);
}

/// `n / d` rounded toward negative infinity.
pub fn floor_quotient(n: i128, d: i128) -> (r: i128)
    requires
        d > 0,
        small(n as int),
        small(d as int),
    ensures
        r == n / d,
        small(r as int),
{
    if n >= 0 {
        proof {
            lemma_div_is_ordered_by_denominator(n as int, 1, d as int);
            lemma_div_pos_is_pos(n as int, d as int);
        }
        ((n as u128) / (d as u128)) as i128
    } else {
        let m: u128 = (-n) as u128;
        let q: u128 = (m + d as u128 - 1) / d as u128;
        proof {
            let x = (m + d - 1) as int;
            lemma_floor_of_negative(-n, d as int);
            lemma_fundamental_div_mod(x, d as int);
            lemma_mod_pos_bound(x, d as int);
            let qq = x / (d as int);
            let ss = x % (d as int);
            assert(0 <= qq <= m) by (nonlinear_arith)
                requires
                    x == d * qq + ss,
                    0 <= ss < d,
                    d >= 1,
                    m >= 1,
                    x == m + d - 1,
            ;
        }
        -(q as i128)
    }
}

/// The fixed-point quotient `a / b` rounded toward positive infinity, exact.
pub fn fixed_quotient_up_exact(a: i64, b: i64) -> (r: i128)
    requires
        b != 0,
    ensures
        r == fixed_quotient_up(a as int, b as int),
{
    proof {
        lemma_fixed_numerator(a);
    }
    let n: i128 = a as i128 * ONE_PARTS as i128;
    if b > 0 {
        -floor_quotient(-n, b as i128)
    } else {
        -floor_quotient(n, -(b as i128))
    }
}

/// Relies on `FixedI64::checked_rounding_div` with `SignedRounding::Low`: the
/// quotient of two fixed-point values rounded toward negative infinity, and
/// `None` exactly when it leaves the 64-bit range.
#[verifier::external_body]
fn fixed_div_low(numerator: i64, denominator: i64) -> (r: Option<i64>)
    requires
        denominator > 0,
    ensures
        r is Some <==> fits_i64(fixed_quotient(numerator as int, denominator as int)),
        r matches Some(q) ==> q == fixed_quotient(numerator as int, denominator as int),
{
    FixedI64::from_inner(numerator)
        .checked_rounding_div(FixedI64::from_inner(denominator), SignedRounding::Low)
        .map(|q| q.into_inner())
}

impl CurveModel {
    /// The shape's parameters meet its invariant.
    pub open spec fn wf(self) -> bool {
        match self {
            CurveModel::LinearDecreasing { length, floor, ceil } => length.wf() && floor.wf()
                && ceil.wf() && floor.parts <= ceil.parts,
            CurveModel::SteppedDecreasing { begin, end, step, period } => begin.wf() && end.wf()
                && step.wf() && period.wf() && end.parts <= begin.parts && period.parts > 0,
            CurveModel::Reciprocal { .. } => true,
        }
    }

    /// The curve's value, in parts, at `x` parts of the window.
    pub open spec fn value_at(self, x: int) -> int {
        match self {
            CurveModel::LinearDecreasing { length, floor, ceil } => linear_value(
                length.parts as int,
                floor.parts as int,
                ceil.parts as int,
                x,
            ),
            CurveModel::SteppedDecreasing { begin, end, step, period } => stepped_value(
                begin.parts as int,
                end.parts as int,
                step.parts as int,
                period.parts as int,
                x,
            ),
            CurveModel::Reciprocal { factor, x_offset, y_offset } => reciprocal_value(
                factor as int,
                x_offset as int,
                y_offset as int,
                x,
            ),
        }
    }

    /// Parameters under which the curve never rises: a reciprocal curve needs
    /// a non-negative factor.
    pub open spec fn never_rises(self) -> bool {
        match self {
            CurveModel::Reciprocal { factor, .. } => factor >= 0,
            _ => true,
        }
    }

    pub fn is_valid(&self) -> (r: bool)
        ensures
            r == self.wf(),
    {
        match self {
            CurveModel::LinearDecreasing { length, floor, ceil } => length.parts <= ONE_PARTS
                && floor.parts <= ONE_PARTS && ceil.parts <= ONE_PARTS && floor.parts
                <= ceil.parts,
            CurveModel::SteppedDecreasing { begin, end, step, period } => begin.parts
                <= ONE_PARTS && end.parts <= ONE_PARTS && step.parts <= ONE_PARTS && period.parts
                <= ONE_PARTS && end.parts <= begin.parts && period.parts > 0,
            CurveModel::Reciprocal { .. } => true,
        }
    }

    /// A linear curve, refused where `floor > ceil` or a value exceeds one.
    pub fn linear(length: Fraction, floor: Fraction, ceil: Fraction) -> (r: Result<
        CurveModel,
        DomainError,
    >)
        ensures
            r is Ok <==> (CurveModel::LinearDecreasing { length, floor, ceil }).wf(),
            r matches Ok(c) ==> c == (CurveModel::LinearDecreasing { length, floor, ceil }),
            r matches Err(e) ==> e == DomainError::InvalidCurve,
    {
        let c = CurveModel::LinearDecreasing { length, floor, ceil };
        if c.is_valid() {
            Ok(c)
        } else {
            Err(DomainError::InvalidCurve)
        }
    }

    /// A stepped curve, refused where `end > begin`, `period` is zero or a value exceeds one.
    pub fn stepped(begin: Fraction, end: Fraction, step: Fraction, period: Fraction) -> (r: Result<
        CurveModel,
        DomainError,
    >)
        ensures
            r is Ok <==> (CurveModel::SteppedDecreasing { begin, end, step, period }).wf(),
            r matches Ok(c) ==> c == (CurveModel::SteppedDecreasing { begin, end, step, period }),
            r matches Err(e) ==> e == DomainError::InvalidCurve,
    {
        let c = CurveModel::SteppedDecreasing { begin, end, step, period };
        if c.is_valid() {
            Ok(c)
        } else {
            Err(DomainError::InvalidCurve)
        }
    }

    /// The threshold at `x`, the elapsed fraction of the window.
    pub fn evaluate(&self, x: Fraction) -> (r: Fraction)
        requires
            self.wf(),
            x.wf(),
        ensures
            r.wf(),
            r.parts == self.value_at(x.parts as int),
    {
        match self {
            CurveModel::LinearDecreasing { length, floor, ceil } => {
                let progress = x.min(*length).saturating_div_down(*length);
                let fall = progress.mul(ceil.saturating_sub(*floor));
                ceil.saturating_sub(fall)
            },
            CurveModel::SteppedDecreasing { begin, end, step, period } => {
                let drop = step.int_mul(x.int_div(*period));
                begin.saturating_sub(drop.min(*begin)).max(*end)
            },
            CurveModel::Reciprocal { factor, x_offset, y_offset } => {
                let d: i128 = x.parts as i128 + *x_offset as i128;
                if d <= 0 {
                    return Fraction::one();
                }
                let quotient: Option<i64> = if d <= i64::MAX as i128 {
                    fixed_div_low(*factor, d as i64)
                } else {
                    // Beyond the fixed-point range of the denominator, the
                    // quotient is computed here.
                    proof {
                        lemma_fixed_numerator(*factor);
                    }
                    let q = floor_quotient(*factor as i128 * ONE_PARTS as i128, d);
                    if i64::MIN as i128 <= q && q <= i64::MAX as i128 {
                        Some(q as i64)
                    } else {
                        None
                    }
                };
                match quotient {
                    None => Fraction::one(),
                    Some(q) => Fraction::clamped(q as i128 + *y_offset as i128),
                }
            },
        }
    }
}

/// `a * c / d` grows with `a`.
proof fn lemma_mul_div_mono(a: int, b: int, c: int, d: int)
    requires
        0 <= a <= b,
        0 <= c,
        0 < d,
    ensures
        a * c / d <= b * c / d,
{
    lemma_mul_inequality(a, b, c);
    lemma_div_is_ordered(a * c, b * c, d);
}

/// Every curve stays within [0, 1], at any non-negative input.
pub proof fn lemma_value_in_unit(curve: CurveModel, x: int)
    requires
        curve.wf(),
        0 <= x,
    ensures
        0 <= curve.value_at(x) <= ONE_PARTS,
{
    match curve {
        CurveModel::LinearDecreasing { length, floor, ceil } => {
            let l = length.parts as int;
            let m = if x <= l { x } else { l };
            if l > 0 {
                lemma_ratio_down_le_one(m, l);
            }
            lemma_mul_div_le(
                (ceil.parts - floor.parts) as int,
                ratio_down(m, l),
            );
            assert(ratio_down(m, l) * (ceil.parts - floor.parts) == (ceil.parts - floor.parts)
                * ratio_down(m, l)) by (nonlinear_arith);
        },
        CurveModel::SteppedDecreasing { .. } => {},
        CurveModel::Reciprocal { .. } => {},
    }
}

/// Every curve with parameters that never rise is monotone non-increasing
/// over the window: a later input never gives a higher threshold.
pub proof fn lemma_value_non_increasing(curve: CurveModel, x1: int, x2: int)
    requires
        curve.wf(),
        curve.never_rises(),
        0 <= x1 <= x2 <= ONE_PARTS,
    ensures
        curve.value_at(x1) >= curve.value_at(x2),
{
    lemma_value_in_unit(curve, x1);
    lemma_value_in_unit(curve, x2);
    match curve {
        CurveModel::LinearDecreasing { length, floor, ceil } => {
            let l = length.parts as int;
            let m1 = if x1 <= l { x1 } else { l };
            let m2 = if x2 <= l { x2 } else { l };
            let span = (ceil.parts - floor.parts) as int;
            if l > 0 {
                lemma_mul_div_mono(m1, m2, ONE_PARTS as int, l);
                lemma_ratio_down_le_one(m2, l);
            }
            lemma_mul_div_mono(ratio_down(m1, l), ratio_down(m2, l), span, ONE_PARTS as int);
        },
        CurveModel::SteppedDecreasing { begin, end, step, period } => {
            let p = period.parts as int;
            lemma_div_is_ordered(x1, x2, p);
            assert(0 <= x1 / p) by (nonlinear_arith)
                requires
                    0 <= x1,
                    0 < p,
            ;
            lemma_mul_inequality(x1 / p, x2 / p, step.parts as int);
            assert(step.parts * (x1 / p) <= step.parts * (x2 / p)) by (nonlinear_arith)
                requires
                    (x1 / p) * step.parts <= (x2 / p) * step.parts,
            ;
        },
        CurveModel::Reciprocal { factor, x_offset, y_offset } => {
            let d1 = x1 + x_offset;
            let d2 = x2 + x_offset;
            if d1 > 0 {
                let n = factor * ONE_PARTS;
                assert(n >= 0) by (nonlinear_arith)
                    requires
                        factor >= 0,
                        n == factor * ONE_PARTS,
                ;
                lemma_div_is_ordered_by_denominator(n, d1, d2);
                assert(n / d2 >= 0) by (nonlinear_arith)
                    requires
                        n >= 0,
                        d2 > 0,
                ;
            }
        },
    }
}

/// A stepped curve is constant within a period: two inputs in the same
/// bucket `x / period` give the same threshold.
pub proof fn lemma_stepped_constant_within_period(curve: CurveModel, x1: int, x2: int)
    requires
        curve is SteppedDecreasing,
        curve.wf(),
        0 <= x1,
        0 <= x2,
        x1 / (curve->period.parts as int) == x2 / (curve->period.parts as int),
    ensures
        curve.value_at(x1) == curve.value_at(x2),
{
}

/// A reciprocal curve whose denominator `x + x_offset` is zero or negative
/// gives one whole.
pub proof fn lemma_reciprocal_fallback(curve: CurveModel, x: int)
    requires
        curve is Reciprocal,
        x + curve->x_offset <= 0,
    ensures
        curve.value_at(x) == ONE_PARTS,
{
}

} // verus!
