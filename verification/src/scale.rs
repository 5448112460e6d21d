//! The maps from levels and frequencies to plot positions, and the visible
//! frequency range.

use crate::interpolate::{lemma_map_range_monotonic, map_range, map_range_spec};
use crate::units::{Frequency, Level, FLOOR, MILLIHERTZ, UNIT};
use vstd::arithmetic::div_mod::{lemma_div_is_ordered, lemma_div_multiples_vanish};
use vstd::prelude::*;

verus! {

/// The plot position of a level: 0 dB at position zero, the floor at
/// position one, in millionths, along the line through the two.
pub open spec fn db_position(level: int) -> int {
    map_range_spec(level, 0, FLOOR as int, 0, UNIT as int)
}

/// The vertical plot position of a level, in millionths of the axis: zero
/// for 0 dB, `UNIT` for the floor of -90 dB.
pub fn db_to_position(level: Level) -> (position: i64)
    ensures
        position == db_position(level as int),
        FLOOR <= level <= 0 ==> 0 <= position <= UNIT,
{
    match map_range(level as i64, 0, FLOOR as i64, 0, UNIT) {
        Some(position) => position,
        None => 0,
    }
}

/// The plot position of `value` on an axis that shows `[low, high]`: zero
/// at `low`, one at `high`, in millionths.
pub open spec fn axis_position_spec(value: int, low: int, high: int) -> int {
    map_range_spec(value, low, high, 0, UNIT as int)
}

/// The horizontal plot position of `value`, in millionths of an axis that
/// runs from `low` to `high`. On a linear axis the three are frequencies; on
/// a root or logarithmic axis they are the frequencies after the axis's
/// transform. There is no position on an axis of no extent, nor one that
/// does not fit the result type.
pub fn axis_position(value: i64, low: i64, high: i64) -> (position: Option<i64>)
    ensures
        position == if low != high && i64::MIN <= axis_position_spec(
            value as int,
            low as int,
            high as int,
        ) <= i64::MAX {
            Some(axis_position_spec(value as int, low as int, high as int) as i64)
        } else {
            None
        },
{
    map_range(value, low, high, 0, UNIT)
}

/// The center frequency of bin `bin_idx` out of `bin_amt` bins that share
/// the band up to half the sample rate:
/// `bin_idx * sample_rate / (2 * bin_amt)` hertz, here in millihertz and
/// rounded down.
pub open spec fn bin_frequency(bin_idx: int, bin_amt: int, sample_rate: int) -> int
    recommends
        bin_amt > 0,
{
    (bin_idx * sample_rate * MILLIHERTZ) / (2 * bin_amt)
}

/// The center frequency of a bin is never negative and never above half
/// the sample rate.
pub proof fn lemma_bin_frequency_bounded(bin_idx: int, bin_amt: int, sample_rate: int)
    requires
        0 <= bin_idx <= bin_amt,
        0 < bin_amt,
        0 <= sample_rate,
    ensures
        0 <= bin_frequency(bin_idx, bin_amt, sample_rate) <= sample_rate * 500,
{
    let scaled = bin_idx * sample_rate * 1_000;
    let band = 2 * bin_amt;
    assert(0 <= scaled && scaled <= band * (sample_rate * 500)) by (nonlinear_arith)
        requires
            scaled == bin_idx * sample_rate * 1_000,
            band == 2 * bin_amt,
            0 <= bin_idx <= bin_amt,
            0 <= sample_rate,
    ;
    lemma_div_is_ordered(0, scaled, band);
    lemma_div_is_ordered(scaled, band * (sample_rate * 500), band);
    lemma_div_multiples_vanish(sample_rate * 500, band);
}

/// The center frequency of a bin. There is none among zero bins, nor one
/// that does not fit the frequency type.
pub fn bin2freq(bin_idx: usize, bin_amt: usize, sample_rate: u32) -> (freq: Option<Frequency>)
    ensures
        freq == if bin_amt != 0 && bin_frequency(
            bin_idx as int,
            bin_amt as int,
            sample_rate as int,
        ) <= i64::MAX {
            Some(bin_frequency(bin_idx as int, bin_amt as int, sample_rate as int) as i64)
        } else {
            None
        },
{
    if bin_amt == 0 {
        return None;
    }
    proof {
        assert(bin_idx * sample_rate * 1_000 <= 0xFFFF_FFFF_FFFF_FFFF * 0xFFFF_FFFF * 1_000)
            by (nonlinear_arith)
            requires
                0 <= bin_idx <= 0xFFFF_FFFF_FFFF_FFFF,
                0 <= sample_rate <= 0xFFFF_FFFF,
        ;
        assert(0 <= bin_idx * sample_rate) by (nonlinear_arith)
            requires
                0 <= bin_idx,
                0 <= sample_rate,
        ;
    }
    let scaled: u128 = bin_idx as u128 * sample_rate as u128 * 1_000;
    let band: u128 = 2 * (bin_amt as u128);
    let freq: u128 = scaled / band;
    if freq > i64::MAX as u128 {
        None
    } else {
        Some(freq as i64)
    }
}

/// The lowest frequency that can be made visible: 20 Hz.
pub const LOWEST_FREQUENCY: Frequency = 20_000;

/// The highest frequency that can be made visible at a sample rate: half
/// the rate, and never below `LOWEST_FREQUENCY`.
pub open spec fn highest_frequency(sample_rate: int) -> int {
    if sample_rate * 500 < LOWEST_FREQUENCY {
        LOWEST_FREQUENCY as int
    } else {
        sample_rate * 500
    }
}

/// The frequency in `[LOWEST_FREQUENCY, highest_frequency(sample_rate)]`
/// nearest to `freq`.
pub open spec fn clamp_frequency(freq: int, sample_rate: int) -> int {
    if freq < LOWEST_FREQUENCY {
        LOWEST_FREQUENCY as int
    } else if freq > highest_frequency(sample_rate) {
        highest_frequency(sample_rate)
    } else {
        freq
    }
}

/// What a `ScaleConfig` holds, as mathematical integers.
pub struct ScaleView {
    /// The sample rate in hertz.
    pub sample_rate: int,
    /// The lower visible bound in millihertz.
    pub min_frequency: int,
    /// The upper visible bound in millihertz.
    pub max_frequency: int,
}

impl ScaleView {
    /// Both bounds lie between 20 Hz and half the sample rate.
    pub open spec fn valid(self) -> bool {
        &&& 0 <= self.sample_rate <= u32::MAX
        &&& LOWEST_FREQUENCY <= self.min_frequency <= highest_frequency(self.sample_rate)
        &&& LOWEST_FREQUENCY <= self.max_frequency <= highest_frequency(self.sample_rate)
    }
}

/// The visible frequency range of a plot.
#[derive(Clone, Copy, Debug)]
pub struct ScaleConfig {
    sample_rate: u32,
    min_frequency: Frequency,
    max_frequency: Frequency,
}

impl View for ScaleConfig {
    type V = ScaleView;

    closed spec fn view(&self) -> ScaleView {
        ScaleView {
            sample_rate: self.sample_rate as int,
            min_frequency: self.min_frequency as int,
            max_frequency: self.max_frequency as int,
        }
    }
}

fn highest(sample_rate: u32) -> (freq: Frequency)
    ensures
        freq == highest_frequency(sample_rate as int),
{
    let nyquist: i64 = sample_rate as i64 * 500;
    if nyquist < LOWEST_FREQUENCY {
        LOWEST_FREQUENCY
    } else {
        nyquist
    }
}

fn clamp(freq: Frequency, sample_rate: u32) -> (clamped: Frequency)
    ensures
        clamped == clamp_frequency(freq as int, sample_rate as int),
{
    let top = highest(sample_rate);
    if freq < LOWEST_FREQUENCY {
        LOWEST_FREQUENCY
    } else if freq > top {
        top
    } else {
        freq
    }
}

impl ScaleConfig {
    #[verifier::type_invariant]
    spec fn bounds_clamped(&self) -> bool {
        self@.valid()
    }

    /// The widest range at a sample rate: from 20 Hz to half the rate.
    pub fn new(sample_rate: u32) -> (config: ScaleConfig)
        ensures
            config@ == (ScaleView {
                sample_rate: sample_rate as int,
                min_frequency: LOWEST_FREQUENCY as int,
                max_frequency: highest_frequency(sample_rate as int),
            }),
            config@.valid(),
    {
        ScaleConfig {
            sample_rate,
            min_frequency: LOWEST_FREQUENCY,
            max_frequency: highest(sample_rate),
        }
    }

    /// Moves the lower bound to `freq`, or to the nearest frequency between
    /// 20 Hz and half the sample rate.
    pub fn set_min_frequency(&mut self, freq: Frequency)
        ensures
            old(self)@.valid(),
            final(self)@ == (ScaleView {
                min_frequency: clamp_frequency(freq as int, old(self)@.sample_rate),
                ..old(self)@
            }),
    {
        proof {
            use_type_invariant(&*self);
        }
        self.min_frequency = clamp(freq, self.sample_rate);
    }

    /// Moves the upper bound to `freq`, or to the nearest frequency between
    /// 20 Hz and half the sample rate.
    pub fn set_max_frequency(&mut self, freq: Frequency)
        ensures
            old(self)@.valid(),
            final(self)@ == (ScaleView {
                max_frequency: clamp_frequency(freq as int, old(self)@.sample_rate),
                ..old(self)@
            }),
    {
        proof {
            use_type_invariant(&*self);
        }
        self.max_frequency = clamp(freq, self.sample_rate);
    }

    /// The sample rate in hertz.
    pub fn sample_rate(&self) -> (rate: u32)
        ensures
            rate == self@.sample_rate,
    {
        self.sample_rate
    }

    /// The lower visible bound.
    pub fn min_frequency(&self) -> (freq: Frequency)
        ensures
            self@.valid(),
            freq == self@.min_frequency,
    {
        proof {
            use_type_invariant(self);
        }
        self.min_frequency
    }

    /// The upper visible bound.
    pub fn max_frequency(&self) -> (freq: Frequency)
        ensures
            self@.valid(),
            freq == self@.max_frequency,
    {
        proof {
            use_type_invariant(self);
        }
        self.max_frequency
    }

    /// The horizontal plot position of a frequency on the linear scale, in
    /// millionths of the visible range. There is none while the two bounds
    /// coincide.
    pub fn frequency_to_position(&self, freq: Frequency) -> (position: Option<i64>)
        ensures
            position == if self@.min_frequency != self@.max_frequency && i64::MIN
                <= axis_position_spec(freq as int, self@.min_frequency, self@.max_frequency)
                <= i64::MAX {
                Some(
                    axis_position_spec(
                        freq as int,
                        self@.min_frequency,
                        self@.max_frequency,
                    ) as i64,
                )
            } else {
                None
            },
    {
        axis_position(freq, self.min_frequency, self.max_frequency)
    }
}

/// The lower bound that a control turned to `turn` millionths of its travel
/// asks for: 20 Hz plus that part of a quarter of the sample rate.
pub open spec fn min_knob_frequency(turn: int, sample_rate: int) -> int {
    LOWEST_FREQUENCY + (turn * (sample_rate * 250)) / (UNIT as int)
}

/// The upper bound that a control turned to `turn` millionths of its travel
/// asks for: half the sample rate, less the part of it that the control has
/// still to travel.
pub open spec fn max_knob_frequency(turn: int, sample_rate: int) -> int {
    sample_rate * 500 - ((UNIT - turn) * (sample_rate * 500)) / (UNIT as int)
}

/// The lower bound for a control position, before clamping.
pub fn min_from_knob(turn: u32, sample_rate: u32) -> (freq: Frequency)
    ensures
        freq == min_knob_frequency(turn as int, sample_rate as int),
{
    proof {
        assert(0 <= turn * (sample_rate * 250) <= 0xFFFF_FFFF * (0xFFFF_FFFF * 250))
            by (nonlinear_arith)
            requires
                0 <= turn <= 0xFFFF_FFFF,
                0 <= sample_rate <= 0xFFFF_FFFF,
        ;
    }
    let part: u128 = (turn as u128 * (sample_rate as u128 * 250)) / 1_000_000;
    LOWEST_FREQUENCY + part as i64
}

/// The upper bound for a control position, before clamping.
pub fn max_from_knob(turn: u32, sample_rate: u32) -> (freq: Frequency)
    ensures
        freq == max_knob_frequency(turn as int, sample_rate as int),
{
    let nyquist: i128 = sample_rate as i128 * 500;
    let left: i128 = UNIT as i128 - turn as i128;
    proof {
        assert(-0xFFFF_FFFF * (0xFFFF_FFFF * 500) <= left * nyquist <= 1_000_000 * (0xFFFF_FFFF
            * 500)) by (nonlinear_arith)
            requires
                -0xFFFF_FFFF <= left <= 1_000_000,
                0 <= nyquist <= 0xFFFF_FFFF * 500,
        ;
    }
    let part: i128 = match (left * nyquist).checked_div_euclid(1_000_000) {
        Some(part) => part,
        None => 0,
    };
    (nyquist - part) as i64
}

/// The two visible bounds sit at the two ends of the axis, and whatever
/// lies between them sits between the ends. The same holds on a root or
/// logarithmic axis of the values after the transform.
pub proof fn lemma_position_ends(value: int, low: int, high: int)
    requires
        low < high,
    ensures
        axis_position_spec(low, low, high) == 0,
        axis_position_spec(high, low, high) == UNIT,
        low <= value <= high ==> 0 <= axis_position_spec(value, low, high) <= UNIT,
{
    assert((UNIT - 0) * (low - low) == 0);
    assert(0int / (high - low) == 0);
    lemma_div_multiples_vanish(UNIT as int, high - low);
    assert((UNIT - 0) * (high - low) == (high - low) * UNIT) by (nonlinear_arith);
    if low <= value <= high {
        lemma_map_range_monotonic(low, value, low, high, 0, UNIT as int);
        lemma_map_range_monotonic(value, high, low, high, 0, UNIT as int);
    }
}

/// The position of a frequency never decreases as the frequency grows,
/// whenever the lower visible bound lies below the upper one. The same
/// holds on a root or logarithmic axis of the values after the transform.
pub proof fn lemma_position_monotonic(lower: int, higher: int, min: int, max: int)
    requires
        min < max,
        lower <= higher,
    ensures
        axis_position_spec(lower, min, max) <= axis_position_spec(higher, min, max),
{
    lemma_map_range_monotonic(lower, higher, min, max, 0, UNIT as int);
}

} // verus!
