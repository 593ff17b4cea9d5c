//! Decision curves for time-bounded votes: exact fixed-point evaluation of
//! three curve shapes, and sampling of a curve over a discrete domain with
//! extremum tracking and threshold crossing points.

pub mod fraction;
pub mod curve;
pub mod sampler;
pub mod track;
