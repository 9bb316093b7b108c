use vstd::prelude::*;

verus! {

/// Progress follows time one to one.
#[derive(Debug, Clone, Copy)]
pub struct Linear;

/// Quadratic ease-in: slow start.
#[derive(Debug, Clone, Copy)]
pub struct EaseInQuad;

/// Quadratic ease-out: slow end.
#[derive(Debug, Clone, Copy)]
pub struct EaseOutQuad;

/// Quadratic ease-in-out: slow at both ends.
#[derive(Debug, Clone, Copy)]
pub struct EaseInOutQuad;

/// Cubic ease-in-out: slow at both ends, steeper in the middle.
#[derive(Debug, Clone, Copy)]
pub struct EaseInOutCubic;

/// Sine ease-out.
#[derive(Debug, Clone, Copy)]
pub struct EaseOutSine;

/// Exponential ease-in: stays near the start, then rushes to the end.
#[derive(Debug, Clone, Copy)]
pub struct EaseInExpo;

} // verus!
