//! Sampling a curve over a discrete domain, with its extrema and the points
//! at which it crosses a catalog of thresholds.

use vstd::prelude::*;
use pallet_referenda::Curve;
use sp_arithmetic::{FixedI64, Perbill};
use crate::curve::{fits_i64, fixed_quotient_up, fixed_quotient_up_exact, CurveModel};
use crate::fraction::{scale_nearest_down, DomainError, Fraction, ONE_PARTS, PERCENT_PARTS};

verus! {

/// A sampled point: step index `x` and threshold `y`.
#[derive(Debug, Clone, Copy, PartialEq, Eq, Structural)]
pub struct Point {
    pub x: u32,
    pub y: Fraction,
}

impl From<(u32, Fraction)> for Point {
    fn from(point: (u32, Fraction)) -> (r: Point) {
        Point { x: point.0, y: point.1 }
    }
}

impl vstd::std_specs::convert::FromSpecImpl<(u32, Fraction)> for Point {
    open spec fn obeys_from_spec() -> bool {
        true
    }

    open spec fn from_spec(point: (u32, Fraction)) -> Point {
        Point { x: point.0, y: point.1 }
    }
}

/// The points of lowest and highest threshold over a sample.
#[derive(Debug, Clone, Copy, PartialEq, Eq, Structural)]
pub struct ExtremumPair {
    pub min: Point,
    pub max: Point,
}

/// The elapsed fraction, in parts, of step `i` out of `n`, rounded down.
pub open spec fn step_fraction(i: int, n: int) -> int {
    i * ONE_PARTS / n
}

/// `p` is the sample of `curve` at step `i` out of `n`.
pub open spec fn is_sample_point(curve: CurveModel, n: int, i: int, p: Point) -> bool {
    p.x == i && p.y.parts == curve.value_at(step_fraction(i, n))
}

/// `m` is the first point of lowest threshold in `pts`.
pub open spec fn is_first_min(pts: Seq<Point>, m: Point) -> bool {
    &&& 0 <= m.x < pts.len()
    &&& pts[m.x as int] == m
    &&& forall|j: int| 0 <= j < pts.len() ==> m.y.parts <= #[trigger] pts[j].y.parts
    &&& forall|j: int| 0 <= j < m.x ==> #[trigger] pts[j].y.parts > m.y.parts
}

/// `m` is the first point of highest threshold in `pts`.
pub open spec fn is_first_max(pts: Seq<Point>, m: Point) -> bool {
    &&& 0 <= m.x < pts.len()
    &&& pts[m.x as int] == m
    &&& forall|j: int| 0 <= j < pts.len() ==> m.y.parts >= #[trigger] pts[j].y.parts
    &&& forall|j: int| 0 <= j < m.x ==> #[trigger] pts[j].y.parts < m.y.parts
}

/// `pts` and `ext` are what sampling `curve` over `n` steps gives.
pub open spec fn sample_result(curve: CurveModel, n: int, pts: Seq<Point>, ext: ExtremumPair) -> bool {
    &&& pts.len() == n + 1
    &&& forall|i: int| 0 <= i < pts.len() ==> is_sample_point(curve, n, i, #[trigger] pts[i])
    &&& is_first_min(pts, ext.min)
    &&& is_first_max(pts, ext.max)
}

/// Evaluates `curve` at every step `i / n` for `i` in `0..=n`, tracking the
/// first points of lowest and highest threshold.
pub fn sample(curve: &CurveModel, n: u32) -> (r: Result<(Vec<Point>, ExtremumPair), DomainError>)
    ensures
        r is Ok <==> (n > 0 && curve.wf()),
        r matches Err(e) ==> e == (if n == 0 {
            DomainError::ZeroDomainLength
        } else {
            DomainError::InvalidCurve
        }),
        r matches Ok((pts, ext)) ==> {
            &&& sample_result(*curve, n as int, pts@, ext)
            &&& pts@.len() == n + 1
            &&& forall|i: int| 0 <= i < pts@.len() ==> (#[trigger] pts@[i]).x == i
            &&& forall|i: int|
                0 <= i < pts@.len() ==> ext.min.y.parts <= (#[trigger] pts@[i]).y.parts
                    <= ext.max.y.parts
        },
{
    if n == 0 {
        return Err(DomainError::ZeroDomainLength);
    }
    if !curve.is_valid() {
        return Err(DomainError::InvalidCurve);
    }
    let mut pts: Vec<Point> = Vec::new();
    let mut lo = Point { x: 0, y: Fraction::one() };
    let mut hi = Point { x: 0, y: Fraction::zero() };
    let mut i: u64 = 0;
    while i <= n as u64
        invariant
            n > 0,
            curve.wf(),
            i <= n + 1,
            pts@.len() == i,
            forall|j: int| 0 <= j < i ==> is_sample_point(*curve, n as int, j, #[trigger] pts@[j]),
            forall|j: int| 0 <= j < i ==> (#[trigger] pts@[j]).y.wf(),
            lo.x <= i,
            lo.y.parts <= ONE_PARTS,
            forall|j: int| 0 <= j < i ==> lo.y.parts <= #[trigger] pts@[j].y.parts,
            forall|j: int| 0 <= j < lo.x ==> #[trigger] pts@[j].y.parts > lo.y.parts,
            (lo.x < i && pts@[lo.x as int] == lo) || (lo.x == 0 && lo.y.parts == ONE_PARTS),
            hi.x <= i,
            forall|j: int| 0 <= j < i ==> hi.y.parts >= #[trigger] pts@[j].y.parts,
            forall|j: int| 0 <= j < hi.x ==> #[trigger] pts@[j].y.parts < hi.y.parts,
            (hi.x < i && pts@[hi.x as int] == hi) || (hi.x == 0 && hi.y.parts == 0),
        decreases n + 1 - i,
    {
        let x = match Fraction::from_rational(i, n as u64) {
            Ok(f) => f,
            Err(e) => return Err(e),
        };
        let y = curve.evaluate(x);
        let p = Point { x: i as u32, y };
        if y.parts > hi.y.parts {
            hi = p;
        }
        if y.parts < lo.y.parts {
            lo = p;
        }
        pts.push(p);
        i = i + 1;
    }
    let ext = ExtremumPair { min: lo, max: hi };
    proof {
        if !(lo.x < i && pts@[lo.x as int] == lo) {
            assert(pts@[0].y.parts == ONE_PARTS);
            assert(pts@[0] == lo);
        }
        if !(hi.x < i && pts@[hi.x as int] == hi) {
            assert(pts@[0].y.parts == 0);
            assert(pts@[0] == hi);
        }
    }
    Ok((pts, ext))
}

/// Sampling is a function of its inputs: two results of sampling the same
/// curve over the same number of steps are identical.
pub proof fn lemma_sample_deterministic(
    curve: CurveModel,
    n: int,
    pts1: Seq<Point>,
    ext1: ExtremumPair,
    pts2: Seq<Point>,
    ext2: ExtremumPair,
)
    requires
        sample_result(curve, n, pts1, ext1),
        sample_result(curve, n, pts2, ext2),
    ensures
        pts1 == pts2,
        ext1 == ext2,
{
    assert forall|i: int| 0 <= i < pts1.len() implies pts1[i] == pts2[i] by {
        assert(is_sample_point(curve, n, i, pts1[i]));
        assert(is_sample_point(curve, n, i, pts2[i]));
    }
    assert(pts1 =~= pts2);
    let a = ext1.min.x as int;
    let b = ext2.min.x as int;
    assert(pts1[a].y.parts >= ext2.min.y.parts);
    assert(pts1[b].y.parts >= ext1.min.y.parts);
    let c = ext1.max.x as int;
    let d = ext2.max.x as int;
    assert(pts1[c].y.parts <= ext2.max.y.parts);
    assert(pts1[d].y.parts <= ext1.max.y.parts);
}

/// The step index, out of `n`, at which `curve` first reaches `y`, as the
/// curve-definition library reports it.
pub uninterp spec fn delay_of(curve: CurveModel, y: int) -> int;

/// The inverse lookup is defined for `y` on `curve`: it returns rather than
/// panics.
pub open spec fn delay_defined(curve: CurveModel, y: int) -> bool {
    &&& curve.wf()
    &&& 0 <= y <= ONE_PARTS
    &&& match curve {
        CurveModel::LinearDecreasing { .. } => true,
        CurveModel::SteppedDecreasing { begin, end, step, .. } => y < end.parts || (step.parts
            > 0 && begin.parts - (if y <= begin.parts { y } else { begin.parts as int })
            + step.parts - 1 <= ONE_PARTS),
        CurveModel::Reciprocal { factor, x_offset, y_offset } => {
            let d = y - y_offset;
            &&& fits_i64(d)
            &&& (d != 0 && fits_i64(fixed_quotient_up(factor as int, d))) ==> fits_i64(
                fixed_quotient_up(factor as int, d) - x_offset,
            )
        },
    }
}

/// Relies on `pallet_referenda::Curve::delay`: the smallest elapsed fraction
/// at which the curve reaches `y`. It depends on the curve and `y` alone, and
/// is a `Perbill`, so never above one whole.
#[verifier::external_body]
fn curve_delay(curve: &CurveModel, y: Fraction) -> (r: Fraction)
    requires
        delay_defined(*curve, y.parts as int),
    ensures
        r.wf(),
        r.parts == delay_of(*curve, y.parts as int),
{
    let p = Perbill::from_parts;
    let f = FixedI64::from_inner;
    let c = match *curve {
        CurveModel::LinearDecreasing { length: l, floor: a, ceil: b } =>
            Curve::LinearDecreasing { length: p(l.parts), floor: p(a.parts), ceil: p(b.parts) },
        CurveModel::SteppedDecreasing { begin: b, end: e, step: s, period: t } =>
            Curve::SteppedDecreasing { begin: p(b.parts), end: p(e.parts), step: p(s.parts), period: p(t.parts) },
        CurveModel::Reciprocal { factor: k, x_offset: s, y_offset: t } =>
            Curve::Reciprocal { factor: f(k), x_offset: f(s), y_offset: f(t) },
    };
    Fraction { parts: c.delay(p(y.parts)).deconstruct() }
}

/// Exec form of `delay_defined`.
pub fn is_delay_defined(curve: &CurveModel, y: Fraction) -> (r: bool)
    ensures
        r == delay_defined(*curve, y.parts as int),
{
    if !curve.is_valid() || y.parts > ONE_PARTS {
        return false;
    }
    match curve {
        CurveModel::LinearDecreasing { .. } => true,
        CurveModel::SteppedDecreasing { begin, end, step, .. } => {
            if y.parts < end.parts {
                true
            } else if step.parts == 0 {
                false
            } else {
                let m: u32 = if y.parts <= begin.parts { y.parts } else { begin.parts };
                (begin.parts - m) as u64 + step.parts as u64 - 1 <= ONE_PARTS as u64
            }
        },
        CurveModel::Reciprocal { factor, x_offset, y_offset } => {
            let d: i128 = y.parts as i128 - *y_offset as i128;
            if d < i64::MIN as i128 || d > i64::MAX as i128 {
                return false;
            }
            if d == 0 {
                return true;
            }
            let q = fixed_quotient_up_exact(*factor, d as i64);
            if q < i64::MIN as i128 || q > i64::MAX as i128 {
                return true;
            }
            let t: i128 = q - *x_offset as i128;
            i64::MIN as i128 <= t && t <= i64::MAX as i128
        },
    }
}

/// The threshold `t` lies strictly inside the observed range and can be
/// looked up on `curve`.
pub open spec fn locatable(curve: CurveModel, t: Fraction, lo: Fraction, hi: Fraction) -> bool {
    lo.parts < t.parts < hi.parts && delay_defined(curve, t.parts as int)
}

/// The point at which `curve` reaches `t`, on a domain of `n` steps.
pub open spec fn crossing(curve: CurveModel, n: int, t: Fraction) -> Point {
    Point { x: scale_nearest_down(delay_of(curve, t.parts as int), n) as u32, y: t }
}

/// `pts` holds a point with step index `x`.
pub open spec fn has_x(pts: Seq<Point>, x: u32) -> bool {
    exists|k: int| 0 <= k < pts.len() && (#[trigger] pts[k]).x == x
}

/// The crossing points of the catalog's locatable thresholds, in catalog
/// order, keeping the first of those that share a step index.
pub open spec fn located(
    curve: CurveModel,
    n: int,
    catalog: Seq<Fraction>,
    lo: Fraction,
    hi: Fraction,
) -> Seq<Point>
    decreases catalog.len(),
{
    if catalog.len() == 0 {
        Seq::empty()
    } else {
        let prev = located(curve, n, catalog.drop_last(), lo, hi);
        let t = catalog.last();
        if locatable(curve, t, lo, hi) && !has_x(prev, crossing(curve, n, t).x) {
            prev.push(crossing(curve, n, t))
        } else {
            prev
        }
    }
}

fn contains_x(pts: &Vec<Point>, x: u32) -> (r: bool)
    ensures
        r == has_x(pts@, x),
{
    let mut k: usize = 0;
    while k < pts.len()
        invariant
            k <= pts@.len(),
            forall|j: int| 0 <= j < k ==> (#[trigger] pts@[j]).x != x,
        decreases pts@.len() - k,
    {
        if pts[k].x == x {
            return true;
        }
        k = k + 1;
    }
    false
}

/// For each threshold of `catalog` strictly between `y_min` and `y_max`, the
/// step index, out of `n`, at which `curve` first reaches it. Thresholds that
/// cannot be looked up are left out, and of two that share a step index the
/// first in catalog order is kept.
pub fn locate_thresholds(
    curve: &CurveModel,
    n: u32,
    catalog: &Vec<Fraction>,
    y_min: Fraction,
    y_max: Fraction,
) -> (r: Vec<Point>)
    ensures
        r@ == located(*curve, n as int, catalog@, y_min, y_max),
        forall|i: int, j: int| 0 <= i < j < r@.len() ==> r@[i].x != r@[j].x,
        forall|i: int|
            0 <= i < r@.len() ==> y_min.parts < (#[trigger] r@[i]).y.parts < y_max.parts,
        forall|i: int| 0 <= i < r@.len() ==> (#[trigger] r@[i]).x <= n,
{
    let mut pts: Vec<Point> = Vec::new();
    let mut k: usize = 0;
    while k < catalog.len()
        invariant
            k <= catalog@.len(),
            pts@ == located(*curve, n as int, catalog@.take(k as int), y_min, y_max),
            forall|i: int, j: int| 0 <= i < j < pts@.len() ==> pts@[i].x != pts@[j].x,
            forall|i: int|
                0 <= i < pts@.len() ==> y_min.parts < (#[trigger] pts@[i]).y.parts < y_max.parts,
            forall|i: int| 0 <= i < pts@.len() ==> (#[trigger] pts@[i]).x <= n,
        decreases catalog@.len() - k,
    {
        let t = catalog[k];
        proof {
            assert(catalog@.take(k + 1).drop_last() =~= catalog@.take(k as int));
            assert(catalog@.take(k + 1).last() == t);
        }
        if y_min.parts < t.parts && t.parts < y_max.parts && is_delay_defined(curve, t) {
            let d = curve_delay(curve, t);
            let x = d.scale(n);
            if !contains_x(&pts, x) {
                pts.push(Point { x, y: t });
            }
        }
        k = k + 1;
    }
    proof {
        assert(catalog@.take(k as int) =~= catalog@);
    }
    pts
}

/// The fixed catalog of thresholds: every whole percent from 0 to 99, then
/// 99.9%, 0.1% and 0.01%.
pub open spec fn catalog() -> Seq<Fraction> {
    Seq::new(
        103,
        |i: int|
            if i < 100 {
                Fraction { parts: (i * PERCENT_PARTS) as u32 }
            } else if i == 100 {
                Fraction { parts: 999_000_000 }
            } else if i == 101 {
                Fraction { parts: 1_000_000 }
            } else {
                Fraction { parts: 100_000 }
            },
    )
}

/// Builds the threshold catalog.
pub fn threshold_catalog() -> (r: Vec<Fraction>)
    ensures
        r@ == catalog(),
        r@.len() == 103,
        forall|i: int| 0 <= i < 100 ==> (#[trigger] r@[i]).parts == i * PERCENT_PARTS,
        r@[100].parts == 999_000_000,
        r@[101].parts == 1_000_000,
        r@[102].parts == 100_000,
{
    let mut r: Vec<Fraction> = Vec::new();
    let mut i: u32 = 0;
    while i < 100
        invariant
            i <= 100,
            r@.len() == i,
            forall|j: int| 0 <= j < i ==> (#[trigger] r@[j]).parts == j * PERCENT_PARTS,
        decreases 100 - i,
    {
        r.push(Fraction::from_percent(i));
        i = i + 1;
    }
    r.push(Fraction { parts: 999_000_000 });
    r.push(Fraction { parts: 1_000_000 });
    r.push(Fraction { parts: 100_000 });
    proof {
        assert forall|j: int| 0 <= j < 100 implies r@[j] == catalog()[j] by {
            assert(0 <= j * PERCENT_PARTS <= u32::MAX) by (nonlinear_arith)
                requires
                    0 <= j < 100,
            ;
        }
        assert(r@ =~= catalog());
    }
    r
}

} // verus!
