//! The picture of the most recent buffer: a fixed number of samples, kept
//! for whoever wants to draw the waveform.

use vstd::prelude::*;

verus! {

/// How many samples the picture holds unless told otherwise.
pub const WAVEFORM_LEN: usize = 1024;

/// A sequence of samples of fixed length.
#[derive(Debug)]
pub struct WaveformBuffer {
    samples: Vec<i32>,
}

impl View for WaveformBuffer {
    type V = Seq<i32>;

    closed spec fn view(&self) -> Seq<i32> {
        self.samples@
    }
}

impl WaveformBuffer {
    /// A picture of `length` samples, all zero.
    pub fn new(length: usize) -> (buffer: WaveformBuffer)
        ensures
            buffer@ == Seq::new(length as nat, |i: int| 0i32),
    {
        let mut samples: Vec<i32> = Vec::new();
        let mut filled: usize = 0;
        while filled < length
            invariant
                filled <= length,
                samples@.len() == filled,
                forall|i: int| 0 <= i < filled ==> samples@[i] == 0,
            decreases length - filled,
        {
            samples.push(0);
            filled += 1;
        }
        assert(samples@ =~= Seq::new(length as nat, |i: int| 0i32));
        WaveformBuffer { samples }
    }

    /// How many samples the picture holds.
    pub fn len(&self) -> (length: usize)
        ensures
            length == self@.len(),
    {
        self.samples.len()
    }

    /// The sample at `index`, if the picture is that long.
    pub fn get(&self, index: usize) -> (sample: Option<i32>)
        ensures
            index < self@.len() ==> sample == Some(self@[index as int]),
            index >= self@.len() ==> sample is None,
    {
        if index < self.samples.len() {
            Some(self.samples[index])
        } else {
            None
        }
    }

    /// The samples of the picture, in order.
    pub fn samples(&self) -> (samples: &[i32])
        ensures
            samples@ == self@,
    {
        self.samples.as_slice()
    }

    /// Sets every sample to zero.
    pub fn clear(&mut self)
        ensures
            final(self)@ == Seq::new(old(self)@.len(), |i: int| 0i32),
    {
        let length: usize = self.samples.len();
        let mut at: usize = 0;
        while at < length
            invariant
                at <= length,
                self.samples@.len() == length,
                forall|i: int| 0 <= i < at ==> self.samples@[i] == 0,
            decreases length - at,
        {
            self.samples[at] = 0;
            at += 1;
        }
        assert(self.samples@ =~= Seq::new(length as nat, |i: int| 0i32));
    }

    /// Stores `sample` at `index`. An index past the end is not recorded:
    /// the picture never grows.
    pub fn record(&mut self, index: usize, sample: i32)
        ensures
            index < old(self)@.len() ==> final(self)@ == old(self)@.update(index as int, sample),
            index >= old(self)@.len() ==> final(self)@ == old(self)@,
    {
        if index < self.samples.len() {
            self.samples[index] = sample;
        }
    }
}

} // verus!
