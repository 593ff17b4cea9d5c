//! Curves of a governance track sampled over its decision period.

use vstd::prelude::*;
use crate::curve::CurveModel;
use crate::fraction::DomainError;
use crate::sampler::{
    catalog, locate_thresholds, located, sample, sample_result, threshold_catalog, ExtremumPair,
    Point,
};

verus! {

/// Blocks produced in one day, at one block every twelve seconds.
pub const DAYS: u32 = 7200;

/// Which vote measure a curve bounds.
#[derive(Debug, Clone, Copy, PartialEq, Eq, Structural)]
pub enum CurveType {
    /// Approval is the share of approval vote-weight (after adjustment for
    /// conviction) against all vote-weight, for and against.
    Approval,
    /// Support is the number of approving votes (ignoring conviction) against
    /// all votes that could be cast in the system.
    Support,
}

/// The unit of a time axis.
#[derive(Debug, Clone, Copy, PartialEq, Eq, Structural)]
pub enum Time {
    Hour,
    Minute,
    Second,
}

impl Time {
    /// The unit's name, as used in file names and labels.
    pub fn name(&self) -> (r: &'static str)
        ensures
            r@ == (match *self {
                Time::Hour => "Hour"@,
                Time::Minute => "Minute"@,
                Time::Second => "Second"@,
            }),
    {
        match self {
            Time::Hour => "Hour",
            Time::Minute => "Minute",
            Time::Second => "Second",
        }
    }
}

/// A length of time: `length` units of `unit`.
#[derive(Debug, Clone, Copy, PartialEq, Eq, Structural)]
pub struct TimeLength {
    pub unit: Time,
    pub length: u32,
}

/// The number of seconds in `t`.
pub open spec fn seconds_length(t: TimeLength) -> int {
    match t.unit {
        Time::Hour => t.length * 3600,
        Time::Minute => t.length * 60,
        Time::Second => t.length as int,
    }
}

impl TimeLength {
    /// The length counted in seconds; `None` where that leaves 32 bits.
    pub fn to_seconds(&self) -> (r: Option<TimeLength>)
        ensures
            r is Some <==> seconds_length(*self) <= u32::MAX,
            r matches Some(t) ==> t.length == seconds_length(*self) && t.unit == Time::Second,
    {
        match self.unit {
            Time::Hour => if self.length <= u32::MAX / 3600 {
                Some(TimeLength { unit: Time::Second, length: self.length * 3600 })
            } else {
                None
            },
            Time::Minute => if self.length <= u32::MAX / 60 {
                Some(TimeLength { unit: Time::Second, length: self.length * 60 })
            } else {
                None
            },
            Time::Second => Some(TimeLength { unit: Time::Second, length: self.length }),
        }
    }
}

/// The decision period of `blocks` blocks, counted in whole days and then
/// expressed in `unit`.
pub open spec fn period_length(unit: Time, blocks: int) -> int {
    match unit {
        Time::Hour => (blocks / DAYS as int) * 24,
        Time::Minute => (blocks / DAYS as int) * 24 * 60,
        Time::Second => (blocks / DAYS as int) * 24 * 60 * 60,
    }
}

/// A decision period of `blocks` blocks in `unit`; `None` where the length
/// leaves 32 bits.
pub fn decision_period(unit: Time, blocks: u32) -> (r: Option<TimeLength>)
    ensures
        r is Some <==> period_length(unit, blocks as int) <= u32::MAX,
        r matches Some(t) ==> t.unit == unit && t.length == period_length(unit, blocks as int),
{
    let days: u32 = blocks / DAYS;
    let per_day: u32 = match unit {
        Time::Hour => 24,
        Time::Minute => 24 * 60,
        Time::Second => 24 * 60 * 60,
    };
    proof {
        let d = days as int;
        assert(d * 24 * 60 == d * 1440 && d * 24 * 60 * 60 == d * 86400) by (nonlinear_arith);
        assert(period_length(unit, blocks as int) == d * per_day);
    }
    if days > u32::MAX / per_day {
        proof {
            assert(days * per_day > u32::MAX) by (nonlinear_arith)
                requires
                    days > u32::MAX / per_day,
                    per_day > 0,
            ;
        }
        return None;
    }
    proof {
        assert(days * per_day <= u32::MAX) by (nonlinear_arith)
            requires
                days <= u32::MAX / per_day,
                per_day > 0,
        ;
    }
    Some(TimeLength { unit, length: days * per_day })
}

/// Points sampled over a time axis.
#[derive(Debug, Clone)]
pub struct Points {
    pub time_length: TimeLength,
    pub points: Vec<Point>,
}

/// A track's curve sampled once per time unit of its decision period, with
/// its extrema and the points at which it crosses the threshold catalog.
pub struct CurvePoints {
    /// Approval or support curve.
    pub curve_ty: CurveType,
    /// Track identifier.
    pub id: u16,
    /// Track name.
    pub name: String,
    /// One threshold per time unit.
    pub coordinates: Points,
    pub coordinate_threshold_min: Point,
    pub coordinate_threshold_max: Point,
    /// Crossing points of the threshold catalog, on the same time axis.
    pub thresholds: Points,
}

impl CurvePoints {
    /// Samples `curve` over `time` and locates the catalog's thresholds on
    /// the same domain.
    pub fn new(
        curve_ty: CurveType,
        id: u16,
        name: String,
        time: TimeLength,
        curve: &CurveModel,
    ) -> (r: Result<CurvePoints, DomainError>)
        ensures
            r is Ok <==> (time.length > 0 && curve.wf()),
            r matches Err(e) ==> e == (if time.length == 0 {
                DomainError::ZeroDomainLength
            } else {
                DomainError::InvalidCurve
            }),
            r matches Ok(c) ==> {
                &&& c.curve_ty == curve_ty
                &&& c.id == id
                &&& c.name@ == name@
                &&& c.coordinates.time_length == time
                &&& sample_result(
                    *curve,
                    time.length as int,
                    c.coordinates.points@,
                    ExtremumPair { min: c.coordinate_threshold_min, max: c.coordinate_threshold_max },
                )
                &&& c.thresholds.time_length == time
                &&& c.thresholds.points@ == located(
                    *curve,
                    time.length as int,
                    catalog(),
                    c.coordinate_threshold_min.y,
                    c.coordinate_threshold_max.y,
                )
                &&& forall|i: int, j: int|
                    0 <= i < j < c.thresholds.points@.len() ==> c.thresholds.points@[i].x
                        != c.thresholds.points@[j].x
                &&& forall|i: int|
                    0 <= i < c.thresholds.points@.len() ==> c.coordinate_threshold_min.y.parts < (
                    #[trigger] c.thresholds.points@[i]).y.parts
                        < c.coordinate_threshold_max.y.parts && c.thresholds.points@[i].x
                        <= time.length
            },
    {
        let (coordinates, ext) = match sample(curve, time.length) {
            Ok(s) => s,
            Err(e) => return Err(e),
        };
        let catalog = threshold_catalog();
        let thresholds = locate_thresholds(curve, time.length, &catalog, ext.min.y, ext.max.y);
        Ok(CurvePoints {
            curve_ty,
            id,
            name,
            coordinates: Points { time_length: time, points: coordinates },
            coordinate_threshold_min: ext.min,
            coordinate_threshold_max: ext.max,
            thresholds: Points { time_length: time, points: thresholds },
        })
    }

    /// All sampled points.
    pub fn points(&self) -> (r: Vec<Point>)
        ensures
            r@ == self.coordinates.points@,
    {
        let src = &self.coordinates.points;
        let mut r: Vec<Point> = Vec::new();
        let mut k: usize = 0;
        while k < src.len()
            invariant
                k <= src@.len(),
                r@ == src@.take(k as int),
            decreases src@.len() - k,
        {
            r.push(src[k]);
            k = k + 1;
            proof {
                assert(r@ =~= src@.take(k as int));
            }
        }
        proof {
            assert(src@.take(k as int) =~= src@);
        }
        r
    }

    /// The sampled points with thresholds as whole percents, for plotting.
    pub fn rounded_points(&self) -> (r: Vec<(u32, i32)>)
        ensures
            r@.len() == self.coordinates.points@.len(),
            forall|i: int|
                0 <= i < r@.len() ==> #[trigger] r@[i] == (
                    self.coordinates.points@[i].x,
                    (self.coordinates.points@[i].y.parts / 10_000_000) as i32,
                ),
    {
        let src = &self.coordinates.points;
        let mut r: Vec<(u32, i32)> = Vec::new();
        let mut k: usize = 0;
        while k < src.len()
            invariant
                k <= src@.len(),
                r@.len() == k,
                forall|i: int|
                    0 <= i < k ==> #[trigger] r@[i] == (
                        src@[i].x,
                        (src@[i].y.parts / 10_000_000) as i32,
                    ),
            decreases src@.len() - k,
        {
            let p = src[k];
            r.push((p.x, p.y.percent_coordinate()));
            k = k + 1;
        }
        r
    }
}

/// The common time axis of `curves`: the first curve's unit and number of
/// points. Every curve must have that many points and that unit.
pub fn decision_period_time(curves: &Vec<CurvePoints>) -> (r: TimeLength)
    requires
        curves@.len() > 0,
        curves@[0].coordinates.points@.len() <= u32::MAX,
        forall|i: int|
            0 <= i < curves@.len() ==> (#[trigger] curves@[i]).coordinates.points@.len()
                == curves@[0].coordinates.points@.len() && curves@[i].coordinates.time_length.unit
                == curves@[0].coordinates.time_length.unit,
    ensures
        r.unit == curves@[0].coordinates.time_length.unit,
        r.length == curves@[0].coordinates.points@.len(),
{
    let length = curves[0].coordinates.points.len();
    TimeLength { unit: curves[0].coordinates.time_length.unit, length: length as u32 }
}

} // verus!
