//! The framing around the transform: when a window of samples is due, how
//! it is padded, and how the transform's levels become a spectrum frame.
//!
//! The arithmetic between the two, windowing, the transform itself and the
//! conversion of power to decibels, is real-valued and lives with the caller.

use crate::channel::{Sample, SampleChannel};
use crate::spectrum::{floored, SpectrumFrame};
use crate::units::Level;
use vstd::prelude::*;

verus! {

/// The number of samples consumed per analysis cycle.
pub const BUFFER_SIZE: usize = 256;

/// The length of the transform.
pub const FFT_SIZE: usize = 4096;

/// The number of samples the capture side may run ahead of the analyzer.
pub const CHANNEL_CAPACITY: usize = 50_000;

/// Why a pair of sizes cannot configure an analyzer.
#[derive(Clone, Copy, Debug, PartialEq, Eq, Structural)]
pub enum ConfigError {
    /// The window holds more samples than the transform has inputs.
    WindowExceedsTransform,
}

/// The sizes of one analysis cycle: the window taken from the channel and
/// the transform it is padded to. The window never exceeds the transform.
#[derive(Clone, Copy, Debug)]
pub struct SpectralAnalyzer {
    buffer_size: usize,
    fft_size: usize,
}

/// The samples of `window` followed by as many zero samples as it takes to
/// reach `fft_size`; a window that is already as long or longer is left as
/// it is.
pub open spec fn zero_padded(window: Seq<Sample>, fft_size: nat) -> Seq<Sample> {
    if window.len() <= fft_size {
        window + Seq::new((fft_size - window.len()) as nat, |i: int| 0u32)
    } else {
        window
    }
}

impl SpectralAnalyzer {
    #[verifier::type_invariant]
    spec fn window_fits(&self) -> bool {
        self.buffer_size <= self.fft_size
    }

    /// The number of samples consumed per cycle.
    pub closed spec fn window_len(&self) -> nat {
        self.buffer_size as nat
    }

    /// The length of the transform.
    pub closed spec fn transform_len(&self) -> nat {
        self.fft_size as nat
    }

    /// The number of bins in a frame: the half of the transform's outputs
    /// that carries information for real input, both ends included.
    pub open spec fn frame_len(&self) -> nat {
        self.transform_len() / 2 + 1
    }

    /// An analyzer that takes `buffer_size` samples per cycle and
    /// transforms them at length `fft_size`. The sizes are refused when the
    /// window would not fit the transform, and for no other reason: a
    /// transform of length zero is accepted, though it puts out no levels
    /// and so never makes a frame.
    pub fn new(buffer_size: usize, fft_size: usize) -> (made: Result<SpectralAnalyzer, ConfigError>)
        ensures
            match made {
                Ok(analyzer) => {
                    &&& buffer_size <= fft_size
                    &&& analyzer.window_len() == buffer_size
                    &&& analyzer.transform_len() == fft_size
                },
                Err(error) => {
                    &&& buffer_size > fft_size
                    &&& error == ConfigError::WindowExceedsTransform
                },
            },
    {
        if buffer_size > fft_size {
            Err(ConfigError::WindowExceedsTransform)
        } else {
            Ok(SpectralAnalyzer { buffer_size, fft_size })
        }
    }

    /// The number of samples consumed per cycle.
    pub fn buffer_size(&self) -> (len: usize)
        ensures
            len == self.window_len(),
            len <= self.transform_len(),
    {
        proof {
            use_type_invariant(self);
        }
        self.buffer_size
    }

    /// The length of the transform.
    pub fn fft_size(&self) -> (len: usize)
        ensures
            len == self.transform_len(),
    {
        self.fft_size
    }

    /// The number of zero samples that follow the window in the transform's
    /// input.
    pub fn padding(&self) -> (len: usize)
        ensures
            len == self.transform_len() - self.window_len(),
    {
        proof {
            use_type_invariant(self);
        }
        self.fft_size - self.buffer_size
    }

    /// The number of bins in a frame.
    pub fn spectrum_len(&self) -> (len: usize)
        ensures
            len == self.frame_len(),
    {
        self.fft_size / 2 + 1
    }

    /// Whether the channel holds a whole window.
    pub fn ready(&self, channel: &SampleChannel) -> (due: bool)
        ensures
            due == (channel@.len() >= self.window_len()),
    {
        channel.len() >= self.buffer_size
    }

    /// Takes the oldest window of samples off the channel, oldest first,
    /// once a whole window is waiting. Until then the channel is left alone
    /// and there is no window.
    pub fn take_window(&self, channel: &mut SampleChannel) -> (window: Option<Vec<Sample>>)
        ensures
            final(channel).capacity_spec() == old(channel).capacity_spec(),
            match window {
                Some(samples) => {
                    &&& old(channel)@.len() >= self.window_len()
                    &&& samples@ == old(channel)@.take(self.window_len() as int)
                    &&& final(channel)@ == old(channel)@.skip(self.window_len() as int)
                },
                None => {
                    &&& old(channel)@.len() < self.window_len()
                    &&& final(channel)@ == old(channel)@
                },
            },
    {
        if channel.len() >= self.buffer_size {
            Some(channel.pop_batch(self.buffer_size))
        } else {
            None
        }
    }

    /// Extends a window with zero samples to the length of the transform.
    pub fn zero_pad(&self, window: Vec<Sample>) -> (padded: Vec<Sample>)
        ensures
            padded@ == zero_padded(window@, self.transform_len()),
    {
        let ghost given = window@;
        let mut padded = window;
        while padded.len() < self.fft_size
            invariant
                given.len() <= padded@.len(),
                padded@.len() == given.len() || padded@.len() <= self.fft_size,
                forall|i: int| 0 <= i < given.len() ==> padded@[i] == given[i],
                forall|i: int| given.len() <= i < padded@.len() ==> padded@[i] == 0,
            decreases self.fft_size - padded@.len(),
        {
            padded.push(0);
        }
        assert(padded@ =~= zero_padded(given, self.transform_len()));
        padded
    }

    /// Makes the frame of one cycle from the levels of the transform's
    /// outputs, in output order: the first `frame_len()` of them, each
    /// raised to the floor where it lies below. Fewer levels than that make
    /// no frame.
    pub fn frame(&self, levels: &Vec<Level>) -> (made: Option<SpectrumFrame>)
        ensures
            match made {
                Some(frame) => {
                    &&& levels@.len() >= self.frame_len()
                    &&& frame@.len() == self.frame_len()
                    &&& forall|k: int|
                        0 <= k < self.frame_len() ==> frame@[k] == floored(#[trigger] levels@[k])
                },
                None => levels@.len() < self.frame_len(),
            },
    {
        let count = self.spectrum_len();
        if levels.len() < count {
            return None;
        }
        let mut head: Vec<Level> = Vec::new();
        let mut k: usize = 0;
        while k < count
            invariant
                k <= count <= levels@.len(),
                head@.len() == k,
                forall|j: int| 0 <= j < k ==> head@[j] == #[trigger] levels@[j],
            decreases count - k,
        {
            head.push(levels[k]);
            k = k + 1;
        }
        Some(SpectrumFrame::from_levels(&head))
    }
}

} // verus!
