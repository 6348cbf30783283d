//! The short-time Fourier transform's framing: which windows of a sample
//! buffer become frames.

use vstd::prelude::*;

verus! {

/// Sample rate, in hertz, to which every recording is resampled before framing.
pub const TARGET_SAMPLERATE_HZ: usize = 30_000;

/// Number of sub-chunks the resampler splits its input chunk into.
pub const RESAMPLER_SUB_CHUNKS: usize = 640;

/// Number of channels handed to the resampler.
pub const RESAMPLER_CHANNELS: usize = 1;

/// Number of frames that a buffer of `samples` samples yields: one per full
/// window of `fft_len` samples, windows `fft_len - overlap` samples apart.
pub open spec fn frame_count(samples: nat, fft_len: nat, overlap: nat) -> nat {
    if samples >= fft_len && overlap < fft_len {
        ((samples - fft_len) / (fft_len - overlap)) as nat + 1
    } else {
        0
    }
}

/// Window length and overlap of the transform.
#[derive(Debug, Clone, Copy)]
pub struct SpectrogramConfig {
    pub fft_len: usize,
    pub overlap: usize,
}

impl SpectrogramConfig {
    /// A configuration is usable when `0 <= overlap < fft_len`.
    pub open spec fn valid(&self) -> bool {
        self.overlap < self.fft_len
    }

    /// Distance in samples between the starts of two successive frames.
    pub open spec fn spec_stride(&self) -> nat {
        (self.fft_len - self.overlap) as nat
    }

    /// Dimension of every frame's vector: the non-redundant half of the spectrum.
    pub open spec fn spec_vector_len(&self) -> nat {
        (self.fft_len / 2) as nat
    }

    /// Number of frames cut from a buffer of `samples` samples.
    pub open spec fn spec_frame_count(&self, samples: nat) -> nat {
        frame_count(samples, self.fft_len as nat, self.overlap as nat)
    }

    /// First sample of frame `k`.
    pub open spec fn spec_frame_offset(&self, k: nat) -> nat {
        k * self.spec_stride()
    }

    /// Builds a configuration, refusing an overlap that leaves no stride.
    pub fn new(fft_len: usize, overlap: usize) -> (r: Option<SpectrogramConfig>)
        ensures
            r is Some <==> overlap < fft_len,
            r matches Some(c) ==> c.fft_len == fft_len && c.overlap == overlap && c.valid(),
    {
        if overlap < fft_len {
            Some(SpectrogramConfig { fft_len, overlap })
        } else {
            None
        }
    }

    /// The configuration that ingest and discovery share.
    pub fn deployment() -> (r: SpectrogramConfig)
        ensures
            r.fft_len == 1280,
            r.overlap == 320,
            r.valid(),
    {
        SpectrogramConfig { fft_len: 1280, overlap: 320 }
    }

    pub fn is_valid(&self) -> (r: bool)
        ensures
            r == self.valid(),
    {
        self.overlap < self.fft_len
    }

    pub fn stride(&self) -> (r: usize)
        requires
            self.valid(),
        ensures
            r == self.spec_stride(),
            r >= 1,
    {
        self.fft_len - self.overlap
    }

    pub fn vector_len(&self) -> (r: usize)
        ensures
            r == self.spec_vector_len(),
    {
        self.fft_len / 2
    }

    /// Counts the full windows in a buffer of `samples` samples; a trailing
    /// partial window is dropped.
    pub fn frame_count(&self, samples: usize) -> (r: usize)
        requires
            self.valid(),
        ensures
            r == self.spec_frame_count(samples as nat),
            samples < self.fft_len ==> r == 0,
            samples >= self.fft_len ==> r == (samples - self.fft_len) / (self.fft_len
                - self.overlap) + 1,
    {
        if samples < self.fft_len {
            0
        } else {
            let stride: usize = self.fft_len - self.overlap;
            let full: usize = (samples - self.fft_len) / stride;
            assert(full <= samples - self.fft_len) by (nonlinear_arith)
                requires
                    full == (samples - self.fft_len) / (stride as int),
                    stride >= 1,
                    samples >= self.fft_len,
            ;
            full + 1
        }
    }

    /// First sample of frame `k` of a buffer of `samples` samples.
    pub fn frame_offset(&self, k: usize, samples: usize) -> (r: usize)
        requires
            self.valid(),
            k < self.spec_frame_count(samples as nat),
        ensures
            r == self.spec_frame_offset(k as nat),
            r + self.fft_len <= samples,
    {
        proof {
            lemma_frame_fits(samples as nat, self.fft_len as nat, self.overlap as nat, k as nat);
        }
        k * (self.fft_len - self.overlap)
    }

    /// The first sample of every frame of a buffer of `samples` samples, in order.
    pub fn frame_offsets(&self, samples: usize) -> (r: Vec<usize>)
        requires
            self.valid(),
        ensures
            r@.len() == self.spec_frame_count(samples as nat),
            forall|k: int|
                0 <= k < r@.len() ==> r@[k] == self.spec_frame_offset(k as nat) && r@[k]
                    + self.fft_len <= samples,
    {
        let count: usize = self.frame_count(samples);
        let mut out: Vec<usize> = Vec::new();
        let mut k: usize = 0;
        while k < count
            invariant
                self.valid(),
                count == self.spec_frame_count(samples as nat),
                k <= count,
                out@.len() == k,
                forall|j: int|
                    0 <= j < k ==> out@[j] == self.spec_frame_offset(j as nat) && out@[j]
                        + self.fft_len <= samples,
            decreases count - k,
        {
            let off: usize = self.frame_offset(k, samples);
            out.push(off);
            k += 1;
        }
        out
    }
}

impl Default for SpectrogramConfig {
    fn default() -> (r: SpectrogramConfig)
        ensures
            r.fft_len == 80,
            r.overlap == 8,
    {
        SpectrogramConfig { fft_len: 80, overlap: 8 }
    }
}

/// Every counted frame is a full window of the buffer.
pub proof fn lemma_frame_fits(samples: nat, fft_len: nat, overlap: nat, k: nat)
    requires
        overlap < fft_len,
        k < frame_count(samples, fft_len, overlap),
    ensures
        k * (fft_len - overlap) + fft_len <= samples,
{
    let stride = (fft_len - overlap) as int;
    let room = (samples - fft_len) as int;
    assert(k * stride <= room) by (nonlinear_arith)
        requires
            stride >= 1,
            room >= 0,
            0 <= k <= room / stride,
    ;
}

/// The frames are all the full windows: one more would run past the buffer.
pub proof fn lemma_next_frame_overruns(samples: nat, fft_len: nat, overlap: nat)
    requires
        overlap < fft_len,
    ensures
        frame_count(samples, fft_len, overlap) * (fft_len - overlap) + fft_len > samples,
{
    if samples >= fft_len {
        let stride = (fft_len - overlap) as int;
        let room = (samples - fft_len) as int;
        assert((room / stride + 1) * stride > room) by (nonlinear_arith)
            requires
                stride >= 1,
                room >= 0,
        ;
    } else {
        assert(0 * (fft_len - overlap) == 0) by (nonlinear_arith);
    }
}

/// A buffer shorter than one window yields no frame.
pub proof fn lemma_short_buffer_has_no_frame(samples: nat, fft_len: nat, overlap: nat)
    requires
        samples < fft_len,
    ensures
        frame_count(samples, fft_len, overlap) == 0,
{
}

/// With an overlap of all but one sample the stride is one sample, and every
/// position at which a full window starts is a frame.
pub proof fn lemma_full_overlap_stride_is_one(cfg: SpectrogramConfig, samples: nat)
    requires
        cfg.valid(),
        cfg.overlap == cfg.fft_len - 1,
    ensures
        cfg.spec_stride() == 1,
        samples >= cfg.fft_len ==> cfg.spec_frame_count(samples) == samples - cfg.fft_len + 1,
        forall|k: nat| cfg.spec_frame_offset(k) == k,
{
    assert forall|k: nat| cfg.spec_frame_offset(k) == k by {
        assert(k * 1 == k) by (nonlinear_arith);
    }
}

} // verus!
