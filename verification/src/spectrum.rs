//! Spectrum frames and the single-slot buffer that hands the latest one to
//! the display side.

use crate::units::{Level, FLOOR};
use vstd::prelude::*;

verus! {

/// A level raised to the floor where it lies below it.
pub open spec fn floored(level: Level) -> Level {
    if level < FLOOR {
        FLOOR
    } else {
        level
    }
}

/// One analysis result: a level per frequency bin, lowest frequency first,
/// none of them below the floor. A frame does not change once made.
#[derive(Debug)]
pub struct SpectrumFrame {
    levels: Vec<Level>,
}

impl View for SpectrumFrame {
    type V = Seq<Level>;

    closed spec fn view(&self) -> Seq<Level> {
        self.levels@
    }
}

/// No level of the sequence lies below the floor.
pub open spec fn above_floor(levels: Seq<Level>) -> bool {
    forall|i: int| 0 <= i < levels.len() ==> FLOOR <= #[trigger] levels[i]
}

impl SpectrumFrame {
    #[verifier::type_invariant]
    spec fn levels_above_floor(&self) -> bool {
        above_floor(self.levels@)
    }

    /// The frame of the given levels, each raised to the floor where it
    /// lies below it.
    pub fn from_levels(levels: &Vec<Level>) -> (frame: SpectrumFrame)
        ensures
            frame@.len() == levels@.len(),
            forall|i: int| 0 <= i < levels@.len() ==> frame@[i] == floored(#[trigger] levels@[i]),
            above_floor(frame@),
    {
        let mut kept: Vec<Level> = Vec::new();
        let mut i: usize = 0;
        while i < levels.len()
            invariant
                i <= levels@.len(),
                kept@.len() == i,
                forall|k: int| 0 <= k < i ==> kept@[k] == floored(#[trigger] levels@[k]),
                above_floor(kept@),
            decreases levels@.len() - i,
        {
            let level = levels[i];
            kept.push(
                if level < FLOOR {
                    FLOOR
                } else {
                    level
                },
            );
            i = i + 1;
        }
        SpectrumFrame { levels: kept }
    }

    /// A frame of `len` bins, all at the floor.
    pub fn silent(len: usize) -> (frame: SpectrumFrame)
        ensures
            frame@.len() == len,
            forall|i: int| 0 <= i < len ==> #[trigger] frame@[i] == FLOOR,
    {
        let mut levels: Vec<Level> = Vec::new();
        let mut i: usize = 0;
        while i < len
            invariant
                i <= len,
                levels@.len() == i,
                forall|k: int| 0 <= k < i ==> #[trigger] levels@[k] == FLOOR,
            decreases len - i,
        {
            levels.push(FLOOR);
            i = i + 1;
        }
        SpectrumFrame { levels }
    }

    /// The number of bins.
    pub fn len(&self) -> (count: usize)
        ensures
            count == self@.len(),
    {
        self.levels.len()
    }

    /// The level of one bin.
    pub fn level(&self, index: usize) -> (level: Level)
        requires
            index < self@.len(),
        ensures
            level == self@[index as int],
            FLOOR <= level,
    {
        proof {
            use_type_invariant(self);
        }
        self.levels[index]
    }

    /// The levels of all bins, lowest frequency first.
    pub fn levels(&self) -> (levels: Vec<Level>)
        ensures
            levels@ == self@,
            above_floor(levels@),
    {
        proof {
            use_type_invariant(self);
        }
        let mut levels: Vec<Level> = Vec::new();
        let mut i: usize = 0;
        while i < self.levels.len()
            invariant
                i <= self.levels@.len(),
                levels@ == self.levels@.take(i as int),
            decreases self.levels@.len() - i,
        {
            levels.push(self.levels[i]);
            assert(self.levels@.take(i + 1) == self.levels@.take(i as int).push(
                self.levels@[i as int],
            ));
            i = i + 1;
        }
        assert(self.levels@.take(i as int) == self.levels@);
        levels
    }

    /// A second frame with the same levels.
    pub fn copy(&self) -> (frame: SpectrumFrame)
        ensures
            frame@ == self@,
    {
        SpectrumFrame { levels: self.levels() }
    }
}

/// The slot that holds the most recent frame and nothing else. A publish
/// replaces the frame whole; a read copies it and leaves it in place, so a
/// reader may see one frame twice or miss one, and never sees parts of two.
#[derive(Debug)]
pub struct SpectrumBuffer {
    latest: SpectrumFrame,
}

impl View for SpectrumBuffer {
    type V = Seq<Level>;

    /// The levels of the frame in the slot.
    closed spec fn view(&self) -> Seq<Level> {
        self.latest@
    }
}

impl SpectrumBuffer {
    /// A buffer that holds `initial` until the first publish.
    pub fn new(initial: SpectrumFrame) -> (buffer: SpectrumBuffer)
        ensures
            buffer@ == initial@,
    {
        SpectrumBuffer { latest: initial }
    }

    /// Puts `frame` in the slot in place of the frame that was there.
    pub fn publish(&mut self, frame: SpectrumFrame)
        ensures
            final(self)@ == frame@,
    {
        self.latest = frame;
    }

    /// A copy of the frame in the slot, which stays there.
    pub fn latest(&self) -> (frame: SpectrumFrame)
        ensures
            frame@ == self@,
    {
        self.latest.copy()
    }
}

} // verus!
