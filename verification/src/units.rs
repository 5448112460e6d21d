//! The integer units that every other module counts in.

use vstd::prelude::*;

verus! {

/// A decibel magnitude in millidecibels: `-90_000` is -90 dB.
pub type Level = i32;

/// A frequency in millihertz: `1_000_000` is 1 kHz.
pub type Frequency = i64;

/// The level below which nothing is reported: -90 dB.
pub const FLOOR: Level = -90_000;

/// The whole of a fraction counted in millionths. Smoothing coefficients and
/// plot positions are such fractions: `500_000` is one half.
pub const UNIT: i64 = 1_000_000;

/// A smoothing coefficient in millionths, meaningful below `UNIT`.
pub type Coefficient = u32;

/// Millihertz in one hertz.
pub const MILLIHERTZ: i64 = 1_000;

} // verus!
