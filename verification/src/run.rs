//! Which bins of a row the curve is drawn through.

use crate::bin::Bin;
use crate::units::Frequency;
use vstd::prelude::*;

verus! {

/// Whether a frequency lies strictly inside the visible range.
pub open spec fn in_view(freq: int, min: int, max: int) -> bool {
    min < freq < max
}

/// The center frequencies of a row of bins.
pub open spec fn frequencies(bins: Seq<Bin>) -> Seq<int> {
    Seq::new(bins.len(), |i: int| bins[i]@.frequency)
}

/// The bins `[start, end)` are the plotted run: `start` is the first bin
/// strictly inside the visible range, and the run goes on through every
/// following bin below the upper bound, up to the first that reaches it.
pub open spec fn is_visible_run(
    frequencies: Seq<int>,
    min: int,
    max: int,
    start: int,
    end: int,
) -> bool {
    &&& 0 <= start < end <= frequencies.len()
    &&& in_view(frequencies[start], min, max)
    &&& forall|i: int| 0 <= i < start ==> !in_view(#[trigger] frequencies[i], min, max)
    &&& forall|i: int| start < i < end ==> #[trigger] frequencies[i] < max
    &&& end == frequencies.len() || frequencies[end] >= max
}

/// No bin lies strictly inside the visible range.
pub open spec fn none_in_view(frequencies: Seq<int>, min: int, max: int) -> bool {
    forall|i: int| 0 <= i < frequencies.len() ==> !in_view(#[trigger] frequencies[i], min, max)
}

/// The plotted run of a row of bins, when there is one.
pub open spec fn visible_run(frequencies: Seq<int>, min: int, max: int) -> Option<(int, int)> {
    if exists|start: int, end: int| is_visible_run(frequencies, min, max, start, end) {
        Some(choose|start: int, end: int| is_visible_run(frequencies, min, max, start, end))
    } else {
        None
    }
}

/// A row of bins has at most one plotted run.
pub proof fn lemma_visible_run_is_unique(
    frequencies: Seq<int>,
    min: int,
    max: int,
    start: int,
    end: int,
)
    requires
        is_visible_run(frequencies, min, max, start, end),
    ensures
        visible_run(frequencies, min, max) == Some((start, end)),
{
    let (other_start, other_end) = choose|s: int, e: int|
        is_visible_run(frequencies, min, max, s, e);
    if other_start < start {
        assert(!in_view(frequencies[other_start], min, max));
    }
    if start < other_start {
        assert(!in_view(frequencies[start], min, max));
    }
    if other_end < end {
        assert(frequencies[other_end] < max);
    }
    if end < other_end {
        assert(frequencies[end] < max);
    }
}

/// The first bin in view at or before a bin that is in view.
proof fn lemma_first_in_view(frequencies: Seq<int>, min: int, max: int, seen: int) -> (first: int)
    requires
        0 <= seen < frequencies.len(),
        in_view(frequencies[seen], min, max),
    ensures
        0 <= first <= seen,
        in_view(frequencies[first], min, max),
        forall|i: int| 0 <= i < first ==> !in_view(#[trigger] frequencies[i], min, max),
    decreases seen,
{
    if exists|i: int| 0 <= i < seen && in_view(#[trigger] frequencies[i], min, max) {
        let earlier = choose|i: int| 0 <= i < seen && in_view(#[trigger] frequencies[i], min, max);
        lemma_first_in_view(frequencies, min, max, earlier)
    } else {
        seen
    }
}

/// The first place after `start` where a run must stop, at or before a
/// place where it may.
proof fn lemma_first_stop(frequencies: Seq<int>, max: int, start: int, stop: int) -> (end: int)
    requires
        0 <= start < stop <= frequencies.len(),
        stop == frequencies.len() || frequencies[stop] >= max,
    ensures
        start < end <= stop,
        end == frequencies.len() || frequencies[end] >= max,
        forall|i: int| start < i < end ==> #[trigger] frequencies[i] < max,
    decreases stop,
{
    if exists|i: int| start < i < stop && #[trigger] frequencies[i] >= max {
        let earlier = choose|i: int| start < i < stop && #[trigger] frequencies[i] >= max;
        lemma_first_stop(frequencies, max, start, earlier)
    } else {
        stop
    }
}

/// There is a plotted run exactly when some bin lies strictly inside the
/// visible range.
pub proof fn lemma_visible_run_exists(frequencies: Seq<int>, min: int, max: int)
    ensures
        visible_run(frequencies, min, max).is_none() <==> none_in_view(frequencies, min, max),
{
    if none_in_view(frequencies, min, max) {
        assert forall|start: int, end: int|
            !is_visible_run(frequencies, min, max, start, end) by {
            if is_visible_run(frequencies, min, max, start, end) {
                assert(!in_view(frequencies[start], min, max));
            }
        }
    } else {
        let seen = choose|i: int|
            0 <= i < frequencies.len() && in_view(#[trigger] frequencies[i], min, max);
        let start = lemma_first_in_view(frequencies, min, max, seen);
        let end = lemma_first_stop(frequencies, max, start, frequencies.len() as int);
        assert(is_visible_run(frequencies, min, max, start, end));
    }
}

/// Picks the bins `[start, end)` that the curve is drawn through. Bins
/// outside the visible range are left out: the run begins at the first bin
/// strictly inside the range and goes on through the bins that follow it for
/// as long as they stay below the upper bound. There is no run when no bin
/// lies inside the range.
pub fn visible_range(bins: &Vec<Bin>, min: Frequency, max: Frequency) -> (run: Option<
    (usize, usize),
>)
    ensures
        match run {
            Some((start, end)) => visible_run(frequencies(bins@), min as int, max as int) == Some(
                (start as int, end as int),
            ),
            None => visible_run(frequencies(bins@), min as int, max as int).is_none(),
        },
{
    let ghost freqs = frequencies(bins@);
    let mut start: usize = 0;
    while start < bins.len()
        invariant
            freqs == frequencies(bins@),
            start <= bins@.len(),
            forall|i: int| 0 <= i < start ==> !in_view(#[trigger] freqs[i], min as int, max as int),
        ensures
            start <= bins@.len(),
            forall|i: int| 0 <= i < start ==> !in_view(#[trigger] freqs[i], min as int, max as int),
            start < bins@.len() ==> in_view(freqs[start as int], min as int, max as int),
        decreases bins@.len() - start,
    {
        let freq = bins[start].get_frequency();
        if min < freq && freq < max {
            break ;
        }
        start = start + 1;
    }
    if start == bins.len() {
        proof {
            lemma_visible_run_exists(freqs, min as int, max as int);
        }
        return None;
    }
    let mut end: usize = start + 1;
    while end < bins.len()
        invariant
            freqs == frequencies(bins@),
            start < end <= bins@.len(),
            forall|i: int| start < i < end ==> #[trigger] freqs[i] < max,
        ensures
            start < end <= bins@.len(),
            forall|i: int| start < i < end ==> #[trigger] freqs[i] < max,
            end == bins@.len() || freqs[end as int] >= max,
        decreases bins@.len() - end,
    {
        if bins[end].get_frequency() >= max {
            break ;
        }
        end = end + 1;
    }
    proof {
        lemma_visible_run_is_unique(freqs, min as int, max as int, start as int, end as int);
    }
    Some((start, end))
}

} // verus!
