//! The bank of bins that follows the spectrum frames, one bin per level of
//! a frame.

use crate::analyzer::SpectralAnalyzer;
use crate::bin::{Bin, BinView, DEFAULT_ATTACK, DEFAULT_RELEASE};
use crate::run::{frequencies, is_visible_run, visible_range, visible_run};
use crate::scale::{
    axis_position, axis_position_spec, bin2freq, bin_frequency, db_position, db_to_position,
    lemma_bin_frequency_bounded, ScaleConfig,
};
use crate::spectrum::SpectrumFrame;
use crate::units::{Coefficient, FLOOR, UNIT};
use vstd::prelude::*;

verus! {

/// A bin that has seen nothing yet: every level at the floor, the default
/// coefficients, and the given center frequency.
pub open spec fn fresh_bin(frequency: int) -> BinView {
    BinView {
        raw: FLOOR as int,
        history: FLOOR as int,
        smoothed: FLOOR as int,
        attack: DEFAULT_ATTACK as int,
        release: DEFAULT_RELEASE as int,
        frequency: frequency,
    }
}

/// A point of the plotted curve. Both coordinates are in millionths of the
/// plot's extent: `x` runs from the lower visible bound to the upper, `y`
/// from 0 dB down to the floor.
#[derive(Clone, Copy, Debug, PartialEq, Eq, Structural)]
pub struct PlotPoint {
    pub x: i64,
    pub y: i64,
}

/// Where bin `i` is plotted: across at the position of its mark on the axis
/// from `low` to `high`, down at the position of its smoothed level.
pub open spec fn bin_point(bins: Seq<BinView>, marks: Seq<int>, low: int, high: int, i: int) -> (
    int,
    int,
) {
    (axis_position_spec(marks[i], low, high), db_position(bins[i].smoothed))
}

/// The curve through the bins `[start, end)`: it starts at the left edge
/// at the level of the first bin, passes through every bin of the run, and
/// ends at the right edge at the level of the last bin.
pub open spec fn curve_through(
    bins: Seq<BinView>,
    marks: Seq<int>,
    low: int,
    high: int,
    start: int,
    end: int,
) -> Seq<(int, int)> {
    seq![(0int, db_position(bins[start].smoothed))] + Seq::new(
        (end - start) as nat,
        |k: int| bin_point(bins, marks, low, high, start + k),
    ) + seq![(UNIT as int, db_position(bins[end - 1].smoothed))]
}

/// Every mark of the run has a position on the axis from `low` to `high`
/// that fits the coordinate type.
pub open spec fn marks_fit(marks: Seq<int>, low: int, high: int, start: int, end: int) -> bool {
    &&& low != high
    &&& forall|i: int|
        start <= i < end ==> i64::MIN <= #[trigger] axis_position_spec(marks[i], low, high)
            <= i64::MAX
}

/// The coordinates of a row of points.
pub open spec fn coordinates(points: Seq<PlotPoint>) -> Seq<(int, int)> {
    Seq::new(points.len(), |i: int| (points[i].x as int, points[i].y as int))
}

/// The center frequencies of a row of bin states.
pub open spec fn frequencies_of(bins: Seq<BinView>) -> Seq<int> {
    Seq::new(bins.len(), |i: int| bins[i].frequency)
}

/// The curve of a row of bins over the visible range `min` to `max`, drawn
/// on an axis on which bin `i` sits at `marks[i]` and the two bounds at
/// `low` and `high`. With no bin in range the curve is empty. There is no
/// curve when the marks are not one per bin, or when a bin of the run has no
/// position on the axis.
pub open spec fn curve_spec(
    bins: Seq<BinView>,
    min: int,
    max: int,
    marks: Seq<int>,
    low: int,
    high: int,
) -> Option<Seq<(int, int)>> {
    if marks.len() != bins.len() {
        None
    } else {
        match visible_run(frequencies_of(bins), min, max) {
            None => Some(Seq::empty()),
            Some((start, end)) => if marks_fit(marks, low, high, start, end) {
                Some(curve_through(bins, marks, low, high, start, end))
            } else {
                None
            },
        }
    }
}

/// The bins of one plot, lowest frequency first.
#[derive(Debug)]
pub struct BinTrack {
    bins: Vec<Bin>,
}

impl View for BinTrack {
    type V = Seq<BinView>;

    closed spec fn view(&self) -> Seq<BinView> {
        Seq::new(self.bins@.len(), |i: int| self.bins@[i]@)
    }
}

impl BinTrack {
    /// A bank of `count` fresh bins that share the band up to half the
    /// sample rate: bin `i` sits at `i * sample_rate / (2 * count)` hertz.
    pub fn new(count: usize, sample_rate: u32) -> (track: BinTrack)
        ensures
            track@.len() == count,
            forall|i: int|
                0 <= i < count ==> #[trigger] track@[i] == fresh_bin(
                    bin_frequency(i, count as int, sample_rate as int),
                ),
    {
        let mut bins: Vec<Bin> = Vec::new();
        let mut i: usize = 0;
        while i < count
            invariant
                i <= count,
                bins@.len() == i,
                forall|k: int|
                    0 <= k < i ==> (#[trigger] bins@[k])@ == fresh_bin(
                        bin_frequency(k, count as int, sample_rate as int),
                    ),
            decreases count - i,
        {
            proof {
                lemma_bin_frequency_bounded(i as int, count as int, sample_rate as int);
            }
            let mut bin = Bin::new(FLOOR);
            match bin2freq(i, count, sample_rate) {
                Some(frequency) => {
                    bin.set_frequency(frequency);
                },
                None => {},
            }
            bins.push(bin);
            i = i + 1;
        }
        BinTrack { bins }
    }

    /// The bank that follows an analyzer's frames: one fresh bin per level
    /// of a frame, so that the bank and the frames share one bin count.
    pub fn for_analyzer(analyzer: &SpectralAnalyzer, sample_rate: u32) -> (track: BinTrack)
        ensures
            track@.len() == analyzer.frame_len(),
            forall|i: int|
                0 <= i < analyzer.frame_len() ==> #[trigger] track@[i] == fresh_bin(
                    bin_frequency(i, analyzer.frame_len() as int, sample_rate as int),
                ),
    {
        BinTrack::new(analyzer.spectrum_len(), sample_rate)
    }

    /// The number of bins.
    pub fn len(&self) -> (count: usize)
        ensures
            count == self@.len(),
    {
        self.bins.len()
    }

    /// The bins, lowest frequency first.
    pub fn bins(&self) -> (bins: &Vec<Bin>)
        ensures
            bins@.len() == self@.len(),
            forall|i: int| 0 <= i < self@.len() ==> (#[trigger] bins@[i])@ == self@[i],
    {
        &self.bins
    }

    /// Feeds the levels of a frame to the bins, level `i` to bin `i`. Bins
    /// beyond the end of the frame stay as they are.
    pub fn update(&mut self, frame: &SpectrumFrame)
        requires
            frame@.len() <= old(self)@.len(),
        ensures
            final(self)@.len() == old(self)@.len(),
            forall|i: int|
                0 <= i < frame@.len() ==> #[trigger] final(self)@[i] == old(self)@[i].updated(
                    frame@[i] as int,
                ),
            forall|i: int|
                frame@.len() <= i < old(self)@.len() ==> #[trigger] final(self)@[i] == old(
                    self,
                )@[i],
    {
        let mut i: usize = 0;
        while i < frame.len()
            invariant
                i <= frame@.len() <= self.bins@.len(),
                self.bins@.len() == old(self).bins@.len(),
                forall|k: int|
                    0 <= k < i ==> (#[trigger] self.bins@[k])@ == old(self).bins@[k]@.updated(
                        frame@[k] as int,
                    ),
                forall|k: int|
                    i <= k < self.bins@.len() ==> #[trigger] self.bins@[k] == old(self).bins@[k],
            decreases frame@.len() - i,
        {
            let mut bin = self.bins[i];
            bin.update(frame.level(i));
            self.bins.set(i, bin);
            i = i + 1;
        }
    }

    /// Sets the attack coefficient of every bin.
    pub fn set_attack(&mut self, attack: Coefficient)
        requires
            attack < UNIT,
        ensures
            final(self)@.len() == old(self)@.len(),
            forall|i: int|
                0 <= i < old(self)@.len() ==> #[trigger] final(self)@[i] == (BinView {
                    attack: attack as int,
                    ..old(self)@[i]
                }),
    {
        let mut i: usize = 0;
        while i < self.bins.len()
            invariant
                attack < UNIT,
                i <= self.bins@.len(),
                self.bins@.len() == old(self).bins@.len(),
                forall|k: int|
                    0 <= k < i ==> (#[trigger] self.bins@[k])@ == (BinView {
                        attack: attack as int,
                        ..old(self).bins@[k]@
                    }),
                forall|k: int|
                    i <= k < self.bins@.len() ==> #[trigger] self.bins@[k] == old(self).bins@[k],
            decreases self.bins@.len() - i,
        {
            let mut bin = self.bins[i];
            bin.set_attack(attack);
            self.bins.set(i, bin);
            i = i + 1;
        }
    }

    /// Sets the release coefficient of every bin.
    pub fn set_release(&mut self, release: Coefficient)
        requires
            release < UNIT,
        ensures
            final(self)@.len() == old(self)@.len(),
            forall|i: int|
                0 <= i < old(self)@.len() ==> #[trigger] final(self)@[i] == (BinView {
                    release: release as int,
                    ..old(self)@[i]
                }),
    {
        let mut i: usize = 0;
        while i < self.bins.len()
            invariant
                release < UNIT,
                i <= self.bins@.len(),
                self.bins@.len() == old(self).bins@.len(),
                forall|k: int|
                    0 <= k < i ==> (#[trigger] self.bins@[k])@ == (BinView {
                        release: release as int,
                        ..old(self).bins@[k]@
                    }),
                forall|k: int|
                    i <= k < self.bins@.len() ==> #[trigger] self.bins@[k] == old(self).bins@[k],
            decreases self.bins@.len() - i,
        {
            let mut bin = self.bins[i];
            bin.set_release(release);
            self.bins.set(i, bin);
            i = i + 1;
        }
    }

    /// The run of bins `[start, end)` that the curve is drawn through for a
    /// visible range, or nothing when no bin lies inside the range.
    pub fn visible_range(&self, config: &ScaleConfig) -> (run: Option<(usize, usize)>)
        ensures
            match run {
                Some((start, end)) => visible_run(
                    frequencies_of(self@),
                    config@.min_frequency,
                    config@.max_frequency,
                ) == Some((start as int, end as int)),
                None => visible_run(
                    frequencies_of(self@),
                    config@.min_frequency,
                    config@.max_frequency,
                ).is_none(),
            },
    {
        assert(frequencies_of(self@) =~= frequencies(self.bins@));
        visible_range(&self.bins, config.min_frequency(), config.max_frequency())
    }

    /// The vertical position of one bin's smoothed level.
    fn height(&self, index: usize) -> (y: i64)
        requires
            index < self@.len(),
        ensures
            y == db_position(self@[index as int].smoothed),
    {
        db_to_position(self.bins[index].get_smooth_val())
    }

    /// The curve of the smoothed levels over the visible range, as points
    /// for the renderer to join. `marks` gives each bin's place on the
    /// horizontal axis and `low` and `high` the places of the two visible
    /// bounds: the frequencies themselves for a linear axis, their images
    /// under the axis's transform otherwise.
    ///
    /// Bins outside the visible range are left out, and the curve is held
    /// level from its first and last bin to the edges of the plot. With no
    /// bin in range the curve is empty. There is no curve when the marks
    /// are not one per bin, or when a bin of the run has no position on the
    /// axis.
    pub fn curve(&self, config: &ScaleConfig, marks: &Vec<i64>, low: i64, high: i64) -> (drawn:
        Option<Vec<PlotPoint>>)
        ensures
            match drawn {
                Some(points) => curve_spec(
                    self@,
                    config@.min_frequency,
                    config@.max_frequency,
                    marks@.map_values(|m: i64| m as int),
                    low as int,
                    high as int,
                ) == Some(coordinates(points@)),
                None => curve_spec(
                    self@,
                    config@.min_frequency,
                    config@.max_frequency,
                    marks@.map_values(|m: i64| m as int),
                    low as int,
                    high as int,
                ).is_none(),
            },
    {
        if marks.len() != self.bins.len() {
            return None;
        }
        let ghost places = marks@.map_values(|m: i64| m as int);
        let mut points: Vec<PlotPoint> = Vec::new();
        let (start, end) = match self.visible_range(config) {
            Some(run) => run,
            None => {
                assert(coordinates(points@) =~= Seq::<(int, int)>::empty());
                return Some(points);
            },
        };
        proof {
            lemma_visible_run_is_shaped(
                frequencies_of(self@),
                config@.min_frequency,
                config@.max_frequency,
            );
        }
        if low == high {
            return None;
        }
        points.push(PlotPoint { x: 0, y: self.height(start) });
        let mut i: usize = start;
        while i < end
            invariant
                start <= i <= end <= self@.len(),
                marks@.len() == self@.len(),
                places == marks@.map_values(|m: i64| m as int),
                visible_run(
                    frequencies_of(self@),
                    config@.min_frequency,
                    config@.max_frequency,
                ) == Some((start as int, end as int)),
                low != high,
                points@.len() == 1 + (i - start),
                coordinates(points@)[0] == (0int, db_position(self@[start as int].smoothed)),
                forall|k: int|
                    start <= k < i ==> #[trigger] coordinates(points@)[1 + (k - start)]
                        == bin_point(self@, places, low as int, high as int, k),
                forall|k: int|
                    start <= k < i ==> i64::MIN <= #[trigger] axis_position_spec(
                        places[k],
                        low as int,
                        high as int,
                    ) <= i64::MAX,
            decreases end - i,
        {
            let y = self.height(i);
            let x = match axis_position(marks[i], low, high) {
                Some(x) => x,
                None => {
                    assert(!marks_fit(places, low as int, high as int, start as int, end as int))
                        by {
                        assert(!(i64::MIN <= axis_position_spec(
                            places[i as int],
                            low as int,
                            high as int,
                        ) <= i64::MAX));
                    }
                    return None;
                },
            };
            let ghost before = coordinates(points@);
            points.push(PlotPoint { x, y });
            assert forall|k: int| start <= k < i implies #[trigger] coordinates(points@)[1 + (k
                - start)] == bin_point(self@, places, low as int, high as int, k) by {
                assert(coordinates(points@)[1 + (k - start)] == before[1 + (k - start)]);
            }
            assert(coordinates(points@)[0] == before[0]);
            i = i + 1;
        }
        let ghost before = coordinates(points@);
        points.push(PlotPoint { x: UNIT, y: self.height(end - 1) });
        proof {
            let want = curve_through(
                self@,
                places,
                low as int,
                high as int,
                start as int,
                end as int,
            );
            assert forall|j: int| 0 <= j < want.len() implies coordinates(points@)[j]
                == want[j] by {
                if j <= end - start {
                    assert(coordinates(points@)[j] == before[j]);
                }
                if 1 <= j <= end - start {
                    assert(before[1 + ((start + (j - 1)) - start)] == bin_point(
                        self@,
                        places,
                        low as int,
                        high as int,
                        start + (j - 1),
                    ));
                }
            }
            assert(coordinates(points@) =~= want);
        }
        Some(points)
    }
}

/// The plotted run, when there is one, is a run.
proof fn lemma_visible_run_is_shaped(frequencies: Seq<int>, min: int, max: int)
    ensures
        match visible_run(frequencies, min, max) {
            Some((start, end)) => is_visible_run(frequencies, min, max, start, end),
            None => true,
        },
{
}

} // verus!
