//! Per-bin smoothing of the level stream, with separate coefficients for
//! rising and falling levels.

use crate::units::{Coefficient, Frequency, Level, FLOOR, UNIT};
use vstd::prelude::*;

verus! {

/// The attack coefficient of a new bin: one half.
pub const DEFAULT_ATTACK: Coefficient = 500_000;

/// The release coefficient of a new bin: 0.95.
pub const DEFAULT_RELEASE: Coefficient = 950_000;

/// What a bin holds, as mathematical integers.
pub struct BinView {
    /// The level most recently fed to the bin.
    pub raw: int,
    /// The smoothed level that the next update starts from.
    pub history: int,
    /// The smoothed level that is shown. It is the history.
    pub smoothed: int,
    /// The coefficient used while the level rises.
    pub attack: int,
    /// The coefficient used while the level falls.
    pub release: int,
    /// The center frequency.
    pub frequency: int,
}

/// One frequency cell: its center frequency, the last level fed to it and
/// the smoothed level. The level shown is always the history that the next
/// update starts from.
#[derive(Clone, Copy, Debug)]
pub struct Bin {
    val: Level,
    history: Level,
    attack: Coefficient,
    release: Coefficient,
    frequency: Frequency,
    smooth_val: Level,
}

/// The coefficient that governs one update: `release` while the level falls
/// below the level shown before, `attack` otherwise.
pub open spec fn coefficient_for(shown: int, raw: int, attack: int, release: int) -> int {
    if shown > raw {
        release
    } else {
        attack
    }
}

/// The weighted mean `shown * coefficient + raw * (1 - coefficient)` with
/// the coefficient in millionths, rounded towards `raw`: the distance from
/// `raw` shrinks to its `coefficient` part, rounded down.
pub open spec fn blend(shown: int, raw: int, coefficient: int) -> int {
    if shown >= raw {
        raw + ((shown - raw) * coefficient) / (UNIT as int)
    } else {
        raw - ((raw - shown) * coefficient) / (UNIT as int)
    }
}

/// `base` multiplied by itself `exponent` times.
pub open spec fn power(base: int, exponent: nat) -> int
    decreases exponent,
{
    if exponent == 0 {
        1
    } else {
        base * power(base, (exponent - 1) as nat)
    }
}

impl BinView {
    /// Both coefficients are fractions below one, and the level shown is the
    /// history.
    pub open spec fn valid(self) -> bool {
        &&& 0 <= self.attack < UNIT
        &&& 0 <= self.release < UNIT
        &&& self.smoothed == self.history
    }

    /// The bin after one raw level has been fed to it: the level shown
    /// before is blended with the raw level, by the release coefficient when
    /// the raw level lies below it and by the attack coefficient otherwise.
    pub open spec fn updated(self, raw: int) -> BinView {
        let level = blend(
            self.smoothed,
            raw,
            coefficient_for(self.smoothed, raw, self.attack, self.release),
        );
        BinView { raw: raw, history: level, smoothed: level, ..self }
    }

    /// The bin after the same raw level has been fed to it `times` times.
    pub open spec fn fed(self, raw: int, times: nat) -> BinView
        decreases times,
    {
        if times == 0 {
            self
        } else {
            self.fed(raw, (times - 1) as nat).updated(raw)
        }
    }
}

/// The part of `gap` that a coefficient below one keeps is no more than
/// `gap`, and less when there is a gap at all.
proof fn lemma_kept_part(gap: int, coefficient: int)
    requires
        0 <= gap,
        0 <= coefficient < UNIT,
    ensures
        0 <= (gap * coefficient) / (UNIT as int) <= gap,
        gap > 0 ==> (gap * coefficient) / (UNIT as int) < gap,
        (UNIT as int) * ((gap * coefficient) / (UNIT as int)) <= gap * coefficient,
        gap * coefficient < (UNIT as int) * ((gap * coefficient) / (UNIT as int)) + UNIT,
{
    let n = gap * coefficient;
    assert(0 <= n && n <= gap * (UNIT - 1)) by (nonlinear_arith)
        requires
            n == gap * coefficient,
            0 <= gap,
            0 <= coefficient <= UNIT - 1,
    ;
    assert(n == 1_000_000 * (n / 1_000_000) + n % 1_000_000);
}

/// A blended level never leaves the span between the level shown before and
/// the raw level, and moves strictly towards the raw level while the two
/// differ.
pub proof fn lemma_blend_between(shown: int, raw: int, coefficient: int)
    requires
        0 <= coefficient < UNIT,
    ensures
        shown <= raw ==> shown <= blend(shown, raw, coefficient) <= raw,
        shown >= raw ==> raw <= blend(shown, raw, coefficient) <= shown,
        shown < raw ==> shown < blend(shown, raw, coefficient),
        shown > raw ==> blend(shown, raw, coefficient) < shown,
{
    if shown >= raw {
        lemma_kept_part(shown - raw, coefficient);
    } else {
        lemma_kept_part(raw - shown, coefficient);
    }
}

/// A smoothed level is the exact weighted mean
/// `(shown * coefficient + raw * (UNIT - coefficient)) / UNIT` rounded to
/// an integer on the side of `raw`: the two differ by less than one.
pub proof fn lemma_blend_is_rounded_mean(shown: int, raw: int, coefficient: int)
    requires
        0 <= coefficient < UNIT,
    ensures
        ({
            let exact = shown * coefficient + raw * (UNIT - coefficient);
            let rounded = UNIT * blend(shown, raw, coefficient);
            &&& shown >= raw ==> rounded <= exact < rounded + UNIT
            &&& shown <= raw ==> rounded - UNIT < exact <= rounded
        }),
{
    let exact = shown * coefficient + raw * (UNIT - coefficient);
    if shown >= raw {
        let gap = shown - raw;
        lemma_kept_part(gap, coefficient);
        assert(exact == raw * UNIT + gap * coefficient) by (nonlinear_arith)
            requires
                exact == shown * coefficient + raw * (UNIT - coefficient),
                gap == shown - raw,
        ;
    } else {
        let gap = raw - shown;
        lemma_kept_part(gap, coefficient);
        assert(exact == raw * UNIT - gap * coefficient) by (nonlinear_arith)
            requires
                exact == shown * coefficient + raw * (UNIT - coefficient),
                gap == raw - shown,
        ;
    }
}

/// An update never overshoots: the new smoothed level lies between the
/// level shown before and the raw level, and has moved off the level shown
/// before whenever the two differ. A rising or equal level is blended by
/// the attack coefficient, a falling one by the release coefficient.
pub proof fn lemma_update_never_overshoots(before: BinView, raw: int)
    requires
        before.valid(),
    ensures
        before.updated(raw).valid(),
        before.smoothed <= raw ==> before.smoothed <= before.updated(raw).smoothed <= raw,
        before.smoothed >= raw ==> raw <= before.updated(raw).smoothed <= before.smoothed,
        before.smoothed != raw ==> before.updated(raw).smoothed != before.smoothed,
        before.smoothed <= raw ==> before.updated(raw).smoothed == blend(
            before.smoothed,
            raw,
            before.attack,
        ),
        before.smoothed > raw ==> before.updated(raw).smoothed == blend(
            before.smoothed,
            raw,
            before.release,
        ),
{
    lemma_blend_between(
        before.smoothed,
        raw,
        coefficient_for(before.smoothed, raw, before.attack, before.release),
    );
}

/// Feeding one raw level again and again closes in on it. The smoothed
/// level stays on the side of the raw level where it began and never moves
/// away from it; the same coefficient governs every step, attack from below
/// or level, release from above; and after `times` steps the distance left
/// is the first distance times the coefficient to the power `times`, up to
/// the rounding of each step: it is no more than that, and short of it by
/// no more than `times`. A level that began at the raw level stays there.
pub proof fn lemma_repeated_updates(before: BinView, raw: int, times: nat)
    requires
        before.valid(),
    ensures
        ({
            let after = before.fed(raw, times);
            let coefficient = coefficient_for(before.smoothed, raw, before.attack, before.release);
            let first = if before.smoothed <= raw {
                raw - before.smoothed
            } else {
                before.smoothed - raw
            };
            let left = if before.smoothed <= raw {
                raw - after.smoothed
            } else {
                after.smoothed - raw
            };
            &&& after.valid()
            &&& after.attack == before.attack
            &&& after.release == before.release
            &&& after.frequency == before.frequency
            &&& times > 0 ==> after.raw == raw
            &&& 0 <= left <= first
            &&& left > 0 ==> coefficient_for(
                after.smoothed,
                raw,
                after.attack,
                after.release,
            ) == coefficient
            &&& left * power(UNIT as int, times) <= first * power(coefficient, times)
            &&& first * power(coefficient, times) <= (left + times) * power(UNIT as int, times)
        }),
    decreases times,
{
    let coefficient = coefficient_for(before.smoothed, raw, before.attack, before.release);
    if times == 0 {
        assert(power(UNIT as int, 0) == 1);
        assert(power(coefficient, 0) == 1);
    } else {
        let earlier = before.fed(raw, (times - 1) as nat);
        lemma_repeated_updates(before, raw, (times - 1) as nat);
        let after = earlier.updated(raw);
        assert(after == before.fed(raw, times));
        let first = if before.smoothed <= raw {
            raw - before.smoothed
        } else {
            before.smoothed - raw
        };
        let gap = if before.smoothed <= raw {
            raw - earlier.smoothed
        } else {
            earlier.smoothed - raw
        };
        let left = if before.smoothed <= raw {
            raw - after.smoothed
        } else {
            after.smoothed - raw
        };
        let n = (times - 1) as nat;
        let u = UNIT as int;
        let pu = power(u, n);
        let pc = power(coefficient, n);
        assert(power(u, times) == u * pu);
        assert(power(coefficient, times) == coefficient * pc);
        lemma_power_positive(u, n);
        lemma_power_nonnegative(coefficient, n);
        // One step keeps `floor(gap * c / UNIT)` of the gap, with the
        // coefficient of the side on which the level began.
        lemma_kept_part(gap, coefficient);
        if gap == 0 {
            assert(left == 0);
        } else {
            assert(coefficient_for(earlier.smoothed, raw, earlier.attack, earlier.release)
                == coefficient);
            assert(left == (gap * coefficient) / u);
        }
        assert(left == (gap * coefficient) / u);
        assert(left * (u * pu) <= first * (coefficient * pc)) by (nonlinear_arith)
            requires
                u * left <= gap * coefficient,
                gap * pu <= first * pc,
                0 <= coefficient,
                0 <= pu,
                0 <= left,
                0 <= gap,
        ;
        assert(first * (coefficient * pc) <= (left + times) * (u * pu)) by (nonlinear_arith)
            requires
                gap * coefficient < u * left + u,
                first * pc <= (gap + n) * pu,
                times == n + 1,
                0 <= coefficient < u,
                0 < pu,
                0 <= pc,
                0 <= first,
                0 <= gap,
                0 <= left,
        ;
    }
}

/// A power of a positive base is positive.
proof fn lemma_power_positive(base: int, exponent: nat)
    requires
        0 < base,
    ensures
        0 < power(base, exponent),
    decreases exponent,
{
    if exponent > 0 {
        lemma_power_positive(base, (exponent - 1) as nat);
        assert(0 < base * power(base, (exponent - 1) as nat)) by (nonlinear_arith)
            requires
                0 < base,
                0 < power(base, (exponent - 1) as nat),
        ;
    }
}

/// A power of a base that is not negative is not negative.
proof fn lemma_power_nonnegative(base: int, exponent: nat)
    requires
        0 <= base,
    ensures
        0 <= power(base, exponent),
    decreases exponent,
{
    if exponent > 0 {
        lemma_power_nonnegative(base, (exponent - 1) as nat);
        assert(0 <= base * power(base, (exponent - 1) as nat)) by (nonlinear_arith)
            requires
                0 <= base,
                0 <= power(base, (exponent - 1) as nat),
        ;
    }
}

/// The coefficient for a control turned to `millionths` of its travel.
/// A coefficient lies below one, so full travel and beyond stand for the
/// largest coefficient there is.
pub fn coefficient_from_travel(millionths: u32) -> (coefficient: Coefficient)
    ensures
        coefficient < UNIT,
        millionths < UNIT ==> coefficient == millionths,
        millionths >= UNIT ==> coefficient == UNIT - 1,
{
    if millionths < 1_000_000 {
        millionths
    } else {
        999_999
    }
}

impl View for Bin {
    type V = BinView;

    closed spec fn view(&self) -> BinView {
        BinView {
            raw: self.val as int,
            history: self.history as int,
            smoothed: self.smooth_val as int,
            attack: self.attack as int,
            release: self.release as int,
            frequency: self.frequency as int,
        }
    }
}

impl Bin {
    #[verifier::type_invariant]
    spec fn well_formed(&self) -> bool {
        self@.valid()
    }

    /// A bin whose last raw level is `val`. It shows the floor whatever
    /// `val` is, so that the first update rises from silence and nothing
    /// flashes at startup; its frequency is zero until set.
    pub fn new(val: Level) -> (bin: Bin)
        ensures
            bin@ == (BinView {
                raw: val as int,
                history: FLOOR as int,
                smoothed: FLOOR as int,
                attack: DEFAULT_ATTACK as int,
                release: DEFAULT_RELEASE as int,
                frequency: 0,
            }),
            bin@.valid(),
    {
        Bin {
            val,
            history: FLOOR,
            attack: DEFAULT_ATTACK,
            release: DEFAULT_RELEASE,
            frequency: 0,
            smooth_val: FLOOR,
        }
    }

    /// Feeds one raw level to the bin. The smoothed level moves towards it
    /// from where it stood, by the release coefficient when the raw level
    /// lies below it and by the attack coefficient otherwise.
    pub fn update(&mut self, new_val: Level)
        ensures
            old(self)@.valid(),
            final(self)@ == old(self)@.updated(new_val as int),
            old(self)@.smoothed <= new_val ==> old(self)@.smoothed <= final(self)@.smoothed
                <= new_val,
            old(self)@.smoothed >= new_val ==> new_val <= final(self)@.smoothed <= old(
                self,
            )@.smoothed,
    {
        proof {
            use_type_invariant(&*self);
        }
        let falling: bool = self.history > new_val;
        let coefficient: u64 = if falling {
            self.release as u64
        } else {
            self.attack as u64
        };
        let gap: u64 = if falling {
            (self.history as i64 - new_val as i64) as u64
        } else {
            (new_val as i64 - self.history as i64) as u64
        };
        proof {
            lemma_kept_part(gap as int, coefficient as int);
            assert(gap * coefficient <= 0xFFFF_FFFF * 1_000_000) by (nonlinear_arith)
                requires
                    0 <= gap <= 0xFFFF_FFFF,
                    0 <= coefficient < 1_000_000,
            ;
        }
        let kept: u64 = gap * coefficient / 1_000_000;
        proof {
            lemma_blend_between(self@.smoothed, new_val as int, coefficient as int);
        }
        let next: i64 = if falling {
            new_val as i64 + kept as i64
        } else {
            new_val as i64 - kept as i64
        };
        *self = Bin {
            val: new_val,
            history: next as Level,
            attack: self.attack,
            release: self.release,
            frequency: self.frequency,
            smooth_val: next as Level,
        };
    }

    /// The smoothed level.
    pub fn get_smooth_val(&self) -> (level: Level)
        ensures
            level == self@.smoothed,
    {
        self.smooth_val
    }

    /// The level most recently fed to the bin.
    pub fn get_raw_val(&self) -> (level: Level)
        ensures
            level == self@.raw,
    {
        self.val
    }

    /// Sets the coefficient used while the level rises.
    pub fn set_attack(&mut self, attack: Coefficient)
        requires
            attack < UNIT,
        ensures
            old(self)@.valid(),
            final(self)@ == (BinView { attack: attack as int, ..old(self)@ }),
    {
        proof {
            use_type_invariant(&*self);
        }
        self.attack = attack;
    }

    /// Sets the coefficient used while the level falls.
    pub fn set_release(&mut self, release: Coefficient)
        requires
            release < UNIT,
        ensures
            old(self)@.valid(),
            final(self)@ == (BinView { release: release as int, ..old(self)@ }),
    {
        proof {
            use_type_invariant(&*self);
        }
        self.release = release;
    }

    /// Sets the center frequency and nothing else.
    pub fn set_frequency(&mut self, freq: Frequency)
        ensures
            old(self)@.valid(),
            final(self)@ == (BinView { frequency: freq as int, ..old(self)@ }),
    {
        proof {
            use_type_invariant(&*self);
        }
        self.frequency = freq;
    }

    /// The center frequency.
    pub fn get_frequency(&self) -> (freq: Frequency)
        ensures
            freq == self@.frequency,
    {
        self.frequency
    }
}

} // verus!
