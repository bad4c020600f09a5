//! Streaming WAV output: the format of the file and the count of what was written.

use vstd::prelude::*;

verus! {

/// The format of a WAV file.
#[derive(Debug, Clone, Copy, PartialEq, Eq, Structural)]
pub struct WavFormat {
    pub channels: u16,
    pub sample_rate: u32,
    pub bits_per_sample: u16,
}

/// Progress of a WAV file that is written chunk by chunk: the format and the number of
/// samples so far, and nothing that grows with the duration.
#[derive(Debug)]
pub struct WavProgress {
    format: WavFormat,
    samples_written: u64,
}

impl WavProgress {
    /// The format.
    pub closed spec fn spec_format(&self) -> WavFormat {
        self.format
    }

    /// The number of samples written.
    pub closed spec fn written(&self) -> int {
        self.samples_written as int
    }

    /// A new file: one channel of 16-bit samples.
    pub fn create(sample_rate: u32) -> (progress: WavProgress)
        ensures
            progress.spec_format() == (WavFormat { channels: 1, sample_rate, bits_per_sample: 16 }),
            progress.written() == 0,
    {
        WavProgress {
            format: WavFormat { channels: 1, sample_rate, bits_per_sample: 16 },
            samples_written: 0,
        }
    }

    /// Count a chunk that was written whole.
    pub fn chunk_written(&mut self, samples: usize)
        requires
            old(self).written() + samples <= u64::MAX,
        ensures
            final(self).written() == old(self).written() + samples,
            final(self).spec_format() == old(self).spec_format(),
    {
        self.samples_written = self.samples_written + samples as u64;
    }

    /// The format of the file.
    pub fn format(&self) -> (format: WavFormat)
        ensures
            format == self.spec_format(),
    {
        self.format
    }

    /// Total samples written so far.
    pub fn samples_written(&self) -> (n: u64)
        ensures
            n == self.written(),
    {
        self.samples_written
    }
}

/// Every sample is counted once: after two chunks the count is that before and both, and the
/// format is that of the file as it was created.
pub proof fn law_chunks_are_counted(
    first: &mut WavProgress,
    n: usize,
    second: &mut WavProgress,
    m: usize,
    total: u64,
)
    requires
        call_ensures(WavProgress::chunk_written, (first, n), ()),
        *old(second) == *final(first),
        call_ensures(WavProgress::chunk_written, (second, m), ()),
        call_ensures(WavProgress::samples_written, (&*final(second),), total),
    ensures
        total == old(first).written() + n + m,
        final(second).spec_format() == old(first).spec_format(),
{
}

} // verus!
