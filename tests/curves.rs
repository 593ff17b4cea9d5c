use gov2_curve_plotter::curve::CurveModel;
use gov2_curve_plotter::fraction::{DomainError, Fraction, ONE_PARTS};
use gov2_curve_plotter::sampler::{locate_thresholds, sample, threshold_catalog, Point};
use gov2_curve_plotter::track::{
    decision_period, decision_period_time, CurvePoints, CurveType, Time, TimeLength, DAYS,
};

fn pct(x: u32) -> Fraction {
    Fraction::from_percent(x)
}

fn linear_50_100() -> CurveModel {
    CurveModel::linear(Fraction::one(), pct(50), pct(100)).unwrap()
}

fn stepped_96_50() -> CurveModel {
    CurveModel::stepped(pct(96), pct(50), pct(4), pct(10)).unwrap()
}

fn reciprocal_unit() -> CurveModel {
    CurveModel::Reciprocal { factor: 1_000_000_000, x_offset: 1_000_000_000, y_offset: 0 }
}

#[test]
fn perbill_to_i32_percent_conversion() {
    for i in 0..100u32 {
        let j: i32 = i as i32;
        assert_eq!(Fraction::from_percent(i).percent_coordinate(), j);
    }
}

#[test]
fn from_rational_rounds_down_and_rejects_above_one() {
    assert_eq!(Fraction::from_rational(1, 3).unwrap().parts, 333_333_333);
    assert_eq!(Fraction::from_rational(999, 1000).unwrap().parts, 999_000_000);
    assert_eq!(Fraction::from_rational(7, 7).unwrap().parts, ONE_PARTS);
    assert_eq!(Fraction::from_rational(2, 1), Err(DomainError::NumeratorExceedsDenominator));
    assert_eq!(Fraction::from_rational(0, 0), Err(DomainError::NumeratorExceedsDenominator));
}

#[test]
fn fraction_arithmetic_saturates() {
    assert_eq!(pct(30).saturating_sub(pct(50)).parts, 0);
    assert_eq!(pct(50).saturating_sub(pct(30)).parts, 200_000_000);
    assert_eq!(pct(50).mul(pct(50)).parts, 250_000_000);
    assert_eq!(pct(40).int_mul(3).parts, ONE_PARTS);
    assert_eq!(pct(25).int_div(pct(10)), 2);
    assert_eq!(pct(20).saturating_div_down(pct(0)).parts, ONE_PARTS);
    assert_eq!(Fraction::from_rational(1, 3).unwrap().saturating_div_down(pct(100)).parts, 333_333_333);
    assert_eq!(Fraction::clamped(-5).parts, 0);
    assert_eq!(Fraction::clamped(2_000_000_000).parts, ONE_PARTS);
    assert_eq!(Fraction::from_parts(2_000_000_000).parts, ONE_PARTS);
    assert_eq!(Fraction::from_percent(250).parts, ONE_PARTS);
}

#[test]
fn scale_rounds_to_nearest_with_ties_down() {
    // 0.5 of 3 is 1.5: the tie goes down.
    assert_eq!(pct(50).scale(3), 1);
    // 0.7 of 3 is 2.1.
    assert_eq!(pct(70).scale(3), 2);
    // 0.9 of 3 is 2.7.
    assert_eq!(pct(90).scale(3), 3);
    assert_eq!(Fraction::one().scale(u32::MAX), u32::MAX);
}

#[test]
fn linear_curve_endpoints_and_midpoint() {
    let c = linear_50_100();
    assert_eq!(c.evaluate(Fraction::zero()), pct(100));
    assert_eq!(c.evaluate(Fraction::one()), pct(50));
    assert_eq!(c.evaluate(pct(50)), pct(75));
}

#[test]
fn linear_curve_flat_after_length() {
    let c = CurveModel::linear(pct(50), pct(20), pct(80)).unwrap();
    assert_eq!(c.evaluate(pct(25)), pct(50));
    assert_eq!(c.evaluate(pct(50)), pct(20));
    assert_eq!(c.evaluate(pct(90)), pct(20));
}

#[test]
fn invalid_curves_are_refused() {
    assert_eq!(CurveModel::linear(pct(10), pct(60), pct(50)), Err(DomainError::InvalidCurve));
    assert_eq!(CurveModel::stepped(pct(50), pct(60), pct(1), pct(10)), Err(DomainError::InvalidCurve));
    assert_eq!(CurveModel::stepped(pct(90), pct(60), pct(1), pct(0)), Err(DomainError::InvalidCurve));
    let bad = CurveModel::LinearDecreasing { length: pct(10), floor: pct(60), ceil: pct(50) };
    assert!(!bad.is_valid());
}

#[test]
fn stepped_curve_constant_within_period() {
    let c = stepped_96_50();
    assert_eq!(c.evaluate(pct(12)), c.evaluate(pct(19)));
    assert_eq!(c.evaluate(pct(12)), pct(92));
    assert_eq!(c.evaluate(pct(0)), pct(96));
    assert_eq!(c.evaluate(pct(9)), pct(96));
    assert_eq!(c.evaluate(pct(20)), pct(88));
    assert_eq!(c.evaluate(Fraction::one()), pct(56));
    let steep = CurveModel::stepped(pct(96), pct(50), pct(30), pct(10)).unwrap();
    assert_eq!(steep.evaluate(pct(50)), pct(50));
}

#[test]
fn reciprocal_divides_by_shifted_input() {
    let c = reciprocal_unit();
    // 1 / (0 + 1) is one whole.
    assert_eq!(c.evaluate(Fraction::zero()), Fraction::one());
    // 1 / (1 + 1) is one half.
    assert_eq!(c.evaluate(Fraction::one()), pct(50));
    // 1 / (0.5 + 1) is two thirds, rounded down.
    assert_eq!(c.evaluate(pct(50)).parts, 666_666_666);
    let shifted = CurveModel::Reciprocal { factor: 1_000_000_000, x_offset: 1_000_000_000, y_offset: -400_000_000 };
    assert_eq!(shifted.evaluate(Fraction::one()).parts, 100_000_000);
}

#[test]
fn reciprocal_non_positive_denominator_gives_one() {
    let zero = CurveModel::Reciprocal { factor: 1_000_000_000, x_offset: 0, y_offset: -900_000_000 };
    assert_eq!(zero.evaluate(Fraction::zero()), Fraction::one());
    let negative = CurveModel::Reciprocal { factor: 1_000_000_000, x_offset: -2_000_000_000, y_offset: 0 };
    assert_eq!(negative.evaluate(pct(50)), Fraction::one());
    assert_eq!(negative.evaluate(Fraction::one()), Fraction::one());
}

#[test]
fn evaluate_stays_in_unit_range() {
    let curves = [
        CurveModel::Reciprocal { factor: i64::MAX, x_offset: 1, y_offset: i64::MAX },
        CurveModel::Reciprocal { factor: i64::MIN, x_offset: 1, y_offset: i64::MIN },
        CurveModel::Reciprocal { factor: 3, x_offset: i64::MAX, y_offset: i64::MIN },
        CurveModel::Reciprocal { factor: -5, x_offset: i64::MIN, y_offset: 7 },
        linear_50_100(),
        stepped_96_50(),
    ];
    for c in curves.iter() {
        for x in [0u32, 1, 500_000_000, 999_999_999, ONE_PARTS] {
            let y = c.evaluate(Fraction::from_parts(x));
            assert!(y.parts <= ONE_PARTS);
        }
    }
}

#[test]
fn evaluate_is_non_increasing() {
    let curves = [
        linear_50_100(),
        CurveModel::linear(pct(30), pct(0), pct(100)).unwrap(),
        stepped_96_50(),
        reciprocal_unit(),
        CurveModel::Reciprocal { factor: 41_000_000, x_offset: 43_000_000, y_offset: -50_000_000 },
    ];
    for c in curves.iter() {
        let (pts, _) = sample(c, 1000).unwrap();
        for w in pts.windows(2) {
            assert!(w[0].y.parts >= w[1].y.parts);
        }
    }
}

#[test]
fn sample_gives_one_point_per_step() {
    let c = linear_50_100();
    let (pts, ext) = sample(&c, 24).unwrap();
    assert_eq!(pts.len(), 25);
    for (i, p) in pts.iter().enumerate() {
        assert_eq!(p.x as usize, i);
        assert!(ext.min.y.parts <= p.y.parts && p.y.parts <= ext.max.y.parts);
    }
    assert_eq!(ext.max, Point { x: 0, y: pct(100) });
    assert_eq!(ext.min, Point { x: 24, y: pct(50) });
    assert_eq!(pts[12].y, pct(75));
}

#[test]
fn sample_extrema_keep_first_occurrence() {
    // Flat at 20% from the middle on: the minimum is the first flat step.
    let c = CurveModel::linear(pct(50), pct(20), pct(80)).unwrap();
    let (_, ext) = sample(&c, 10).unwrap();
    assert_eq!(ext.min, Point { x: 5, y: pct(20) });
    // A constant curve at one: both extrema are the first point.
    let flat = CurveModel::linear(pct(50), pct(100), pct(100)).unwrap();
    let (_, ext) = sample(&flat, 10).unwrap();
    assert_eq!(ext.min, Point { x: 0, y: pct(100) });
    assert_eq!(ext.max, Point { x: 0, y: pct(100) });
    let zero = CurveModel::linear(pct(50), pct(0), pct(0)).unwrap();
    let (_, ext) = sample(&zero, 10).unwrap();
    assert_eq!(ext.min, Point { x: 0, y: pct(0) });
    assert_eq!(ext.max, Point { x: 0, y: pct(0) });
}

#[test]
fn sample_rejects_empty_domain_and_invalid_curve() {
    assert_eq!(sample(&linear_50_100(), 0), Err(DomainError::ZeroDomainLength));
    let bad = CurveModel::LinearDecreasing { length: pct(10), floor: pct(60), ceil: pct(50) };
    assert_eq!(sample(&bad, 5), Err(DomainError::InvalidCurve));
}

#[test]
fn sample_is_deterministic() {
    let c = reciprocal_unit();
    let a = sample(&c, 336).unwrap();
    let b = sample(&c, 336).unwrap();
    assert_eq!(a, b);
}

#[test]
fn threshold_catalog_contents() {
    let cat = threshold_catalog();
    assert_eq!(cat.len(), 103);
    assert_eq!(cat[0], pct(0));
    assert_eq!(cat[42], pct(42));
    assert_eq!(cat[100], Fraction::from_rational(999, 1000).unwrap());
    assert_eq!(cat[101], Fraction::from_rational(1, 1000).unwrap());
    assert_eq!(cat[102], Fraction::from_rational(1, 10_000).unwrap());
}

#[test]
fn locate_thresholds_on_full_linear_curve() {
    let c = CurveModel::linear(Fraction::one(), pct(0), pct(100)).unwrap();
    let cat = threshold_catalog();
    let pts = locate_thresholds(&c, 100, &cat, pct(0), pct(100));
    // 1% to 99%, then 99.9%; 0.01% falls on the same step as 0.1% and is dropped.
    assert_eq!(pts.len(), 101);
    assert_eq!(pts[0], Point { x: 99, y: pct(1) });
    assert_eq!(pts[29], Point { x: 70, y: pct(30) });
    assert_eq!(pts[98], Point { x: 1, y: pct(99) });
    assert_eq!(pts[99], Point { x: 0, y: cat[100] });
    assert_eq!(pts[100], Point { x: 100, y: cat[101] });
    for i in 0..pts.len() {
        assert!(pts[i].y.parts > 0 && pts[i].y.parts < ONE_PARTS);
        for j in (i + 1)..pts.len() {
            assert_ne!(pts[i].x, pts[j].x);
        }
    }
}

#[test]
fn locate_thresholds_keeps_strictly_inside_range() {
    let c = linear_50_100();
    let cat = threshold_catalog();
    let pts = locate_thresholds(&c, 10, &cat, pct(50), pct(100));
    for i in 0..pts.len() {
        assert!(pts[i].y.parts > pct(50).parts && pts[i].y.parts < ONE_PARTS);
        for j in (i + 1)..pts.len() {
            assert_ne!(pts[i].x, pts[j].x);
        }
    }
    // 51% is reached at 98% of the window: step 10 of 10.
    assert_eq!(pts[0], Point { x: 10, y: pct(51) });
    assert_eq!(pts.len(), 11);
}

#[test]
fn locate_thresholds_on_stepped_and_reciprocal_curves() {
    let cat = threshold_catalog();
    let s = stepped_96_50();
    let pts = locate_thresholds(&s, 100, &cat, pct(56), pct(96));
    assert!(!pts.is_empty());
    assert!(pts.iter().all(|p| p.y.parts > pct(56).parts && p.y.parts < pct(96).parts));
    let r = reciprocal_unit();
    let pts = locate_thresholds(&r, 100, &cat, pct(50), Fraction::one());
    // 1 / (x + 1) reaches 80% at x = 0.25.
    assert!(pts.contains(&Point { x: 25, y: pct(80) }));
    // A curve with an invalid shape has no locatable threshold.
    let bad = CurveModel::LinearDecreasing { length: pct(10), floor: pct(60), ceil: pct(50) };
    assert!(locate_thresholds(&bad, 100, &cat, pct(0), pct(100)).is_empty());
}

#[test]
fn curve_points_for_a_track() {
    let time = decision_period(Time::Hour, 14 * DAYS).unwrap();
    assert_eq!(time, TimeLength { unit: Time::Hour, length: 336 });
    let c = CurveModel::linear(Fraction::one(), pct(0), pct(50)).unwrap();
    let cp = CurvePoints::new(CurveType::Support, 0, "root".to_string(), time, &c).unwrap();
    assert_eq!(cp.name, "root");
    assert_eq!(cp.coordinates.points.len(), 337);
    assert_eq!(cp.coordinate_threshold_max, Point { x: 0, y: pct(50) });
    assert_eq!(cp.coordinate_threshold_min, Point { x: 336, y: pct(0) });
    assert_eq!(cp.thresholds.time_length, time);
    // 25% is half way down: 168 hours in.
    assert!(cp.thresholds.points.contains(&Point { x: 168, y: pct(25) }));
    assert!(cp.thresholds.points.iter().all(|p| p.x <= 336));
    assert_eq!(cp.points(), cp.coordinates.points);
    let rounded = cp.rounded_points();
    assert_eq!(rounded[0], (0, 50));
    assert_eq!(rounded[168], (168, 25));
    assert_eq!(rounded[336], (336, 0));
}

#[test]
fn curve_points_errors() {
    let c = linear_50_100();
    let zero = TimeLength { unit: Time::Hour, length: 0 };
    assert!(matches!(CurvePoints::new(CurveType::Approval, 1, "a".to_string(), zero, &c), Err(DomainError::ZeroDomainLength)));
    let bad = CurveModel::LinearDecreasing { length: pct(10), floor: pct(60), ceil: pct(50) };
    let t = TimeLength { unit: Time::Hour, length: 24 };
    assert!(matches!(CurvePoints::new(CurveType::Approval, 1, "a".to_string(), t, &bad), Err(DomainError::InvalidCurve)));
}

#[test]
fn time_lengths_and_periods() {
    assert_eq!(TimeLength { unit: Time::Hour, length: 2 }.to_seconds(), Some(TimeLength { unit: Time::Second, length: 7200 }));
    assert_eq!(TimeLength { unit: Time::Minute, length: 2 }.to_seconds(), Some(TimeLength { unit: Time::Second, length: 120 }));
    assert_eq!(TimeLength { unit: Time::Second, length: 9 }.to_seconds(), Some(TimeLength { unit: Time::Second, length: 9 }));
    assert_eq!(TimeLength { unit: Time::Hour, length: u32::MAX }.to_seconds(), None);
    assert_eq!(decision_period(Time::Minute, 28 * DAYS + 5), Some(TimeLength { unit: Time::Minute, length: 40_320 }));
    assert_eq!(decision_period(Time::Second, 7 * DAYS), Some(TimeLength { unit: Time::Second, length: 604_800 }));
    assert_eq!(decision_period(Time::Second, u32::MAX), None);
    assert_eq!(Time::Hour.name(), "Hour");
    assert_eq!(Time::Minute.name(), "Minute");
    assert_eq!(Time::Second.name(), "Second");
}

#[test]
fn common_decision_period_of_curves() {
    let c = linear_50_100();
    let t = TimeLength { unit: Time::Hour, length: 24 };
    let a = CurvePoints::new(CurveType::Approval, 0, "a".to_string(), t, &c).unwrap();
    let b = CurvePoints::new(CurveType::Approval, 1, "b".to_string(), t, &c).unwrap();
    assert_eq!(decision_period_time(&vec![a, b]), TimeLength { unit: Time::Hour, length: 25 });
    let m = TimeLength { unit: Time::Minute, length: 60 };
    let d = CurvePoints::new(CurveType::Support, 3, "d".to_string(), m, &c).unwrap();
    assert_eq!(decision_period_time(&vec![d]), TimeLength { unit: Time::Minute, length: 61 });
}

#[test]
fn point_from_pair() {
    let p: Point = Point::from((7, pct(3)));
    assert_eq!(p, Point { x: 7, y: pct(3) });
}

#[test]
fn reciprocal_denominator_beyond_fixed_point_range() {
    // factor 0: the quotient is 0 everywhere, also past i64::MAX.
    let flat = CurveModel::Reciprocal { factor: 0, x_offset: i64::MAX, y_offset: 0 };
    assert_eq!(flat.evaluate(Fraction::zero()).parts, 0);
    assert_eq!(flat.evaluate(Fraction::from_parts(1)).parts, 0);
    let big = CurveModel::Reciprocal { factor: i64::MAX, x_offset: i64::MAX, y_offset: 0 };
    assert_eq!(big.evaluate(Fraction::zero()).parts, ONE_PARTS);
    assert_eq!(big.evaluate(Fraction::one()).parts, 999_999_999);
    // A negative quotient is rounded toward negative infinity.
    let neg = CurveModel::Reciprocal { factor: -i64::MAX, x_offset: i64::MAX, y_offset: 1_500_000_000 };
    assert_eq!(neg.evaluate(Fraction::one()).parts, 500_000_000);
    let (pts, ext) = sample(&big, 4).unwrap();
    assert_eq!(ext.max, pts[0]);
    for w in pts.windows(2) {
        assert!(w[0].y.parts >= w[1].y.parts);
    }
}

#[test]
fn locate_thresholds_on_reciprocal_with_large_factor() {
    // 10 / (x + 10): 95% is reached at x = 10 / 0.95 - 10, about 0.526.
    let c = CurveModel::Reciprocal { factor: 10_000_000_000, x_offset: 10_000_000_000, y_offset: 0 };
    let cat = threshold_catalog();
    let (_, ext) = sample(&c, 100).unwrap();
    let pts = locate_thresholds(&c, 100, &cat, ext.min.y, ext.max.y);
    assert!(pts.contains(&Point { x: 53, y: pct(95) }));
}
